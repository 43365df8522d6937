use vstd::prelude::*;

verus! {

/// Every on/off behaviour of one listing, as independent flags.
pub struct Config {
    /// Show hidden entries and add the synthetic `.` and `..`.
    pub show_all: bool,
    /// Show hidden entries, without `.` and `..`.
    pub almost_all: bool,
    /// Drop entries whose name ends with `~`.
    pub ignore_backups: bool,
    /// Keep the order in which the directory was read.
    pub no_sort: bool,
    /// Use the creation time: as the sort key, and as the primary time field.
    pub creation_time: bool,
    /// Sort by time even in detailed mode.
    pub time_sort: bool,
    /// Invert the primary order.
    pub reverse: bool,
    /// Put directories before everything else.
    pub dirs_first: bool,
    /// Multi-column, metadata-rich rendering.
    pub detailed: bool,
    /// Show the inode number.
    pub show_inode: bool,
    /// Show the block count.
    pub show_size: bool,
    /// Show uid and gid as numbers instead of names.
    pub numeric_ids: bool,
    /// Leave out the owner column.
    pub omit_owner: bool,
    /// Leave out the group column.
    pub omit_group: bool,
    /// Add an author column (the owner again).
    pub show_author: bool,
    /// List the targets themselves, never the contents of directories.
    pub targets_as_entries: bool,
}

impl Config {
    /// A configuration with every flag off: a compact, name-sorted listing.
    pub fn new() -> (r: Config)
        ensures
            !r.show_all && !r.almost_all && !r.ignore_backups && !r.no_sort,
            !r.creation_time && !r.time_sort && !r.reverse && !r.dirs_first,
            !r.detailed && !r.show_inode && !r.show_size && !r.numeric_ids,
            !r.omit_owner && !r.omit_group && !r.show_author && !r.targets_as_entries,
    {
        Config {
            show_all: false,
            almost_all: false,
            ignore_backups: false,
            no_sort: false,
            creation_time: false,
            time_sort: false,
            reverse: false,
            dirs_first: false,
            detailed: false,
            show_inode: false,
            show_size: false,
            numeric_ids: false,
            omit_owner: false,
            omit_group: false,
            show_author: false,
            targets_as_entries: false,
        }
    }
}

} // verus!
