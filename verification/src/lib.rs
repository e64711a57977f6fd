//! Lists the most recently modified entries of a directory as an aligned table.

pub mod abbreviate;
pub mod absolute_time;
pub mod entry;
pub mod listing;
pub mod pager;
pub mod relative_time;
pub mod table;
pub mod timestamp;
