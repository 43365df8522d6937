//! A directory lister's pipeline: entry filtering, ordering, projection of
//! metadata into display fields, and column-aligned rendering.

pub mod config;
pub mod text;
pub mod filter;
pub mod entry;
pub mod order;
pub mod clock;
pub mod project;
pub mod render;
pub mod layout;
