use vstd::prelude::*;

verus! {

/// A point in time: seconds since the Unix epoch and nanoseconds within that second.
#[derive(Clone, Copy)]
pub struct Stamp {
    pub secs: i64,
    pub nanos: u32,
}

/// What a metadata source reports of one entry, as plain values.
pub struct Meta {
    pub inode: u64,
    pub blocks: u64,
    pub block_size: u64,
    pub mode: u32,
    pub nlink: u64,
    pub uid: u32,
    pub gid: u32,
    /// The owner's account name, when the identity resolver found one.
    pub owner: Option<String>,
    /// The group's name, when the identity resolver found one.
    pub group: Option<String>,
    pub size: u64,
    pub created: Stamp,
    pub modified: Stamp,
    pub is_symlink: bool,
    /// The stored target of a symlink.
    pub link_target: Option<String>,
}

/// One entry to list: its display name, the path it was read from, whether
/// it is a directory, and its metadata.
pub struct Entry {
    pub name: String,
    pub path: String,
    pub is_dir: bool,
    pub meta: Meta,
}

} // verus!
