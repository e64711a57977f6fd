//! Whether the listing is long enough to be handed to a pager.

use vstd::prelude::*;

verus! {

/// The height assumed where the terminal reports none.
pub const DEFAULT_HEIGHT: u16 = 24;

/// The height to decide for: the terminal's, or the default.
pub open spec fn effective_height(terminal_height: Option<u16>) -> int {
    match terminal_height {
        Some(height) => height as int,
        None => DEFAULT_HEIGHT as int,
    }
}

/// A listing of `num_files` entries goes through a pager where the entries
/// after the first do not fit on the terminal.
pub open spec fn pager_needed(num_files: int, height: int) -> bool {
    num_files - 1 > height
}

/// Decides, from the number of entries asked for and the height of the
/// terminal, whether the output goes through a pager.
pub fn needs_pager(num_files: usize, terminal_height: Option<u16>) -> (paged: bool)
    ensures
        paged == pager_needed(num_files as int, effective_height(terminal_height)),
{
    let height: usize = match terminal_height {
        Some(height) => height as usize,
        None => DEFAULT_HEIGHT as usize,
    };
    num_files > 0 && num_files - 1 > height
}

} // verus!
