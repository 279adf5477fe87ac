//! Verified core of a shell-history command picker: parsing `history`
//! output, filtering and de-duplicating the commands, and the paging and
//! key-selection state of the interactive picker.

pub mod commands;
pub mod fileops;
pub mod filter;
pub mod histrionic;
pub mod history;
pub mod keys;
pub mod read_in_commands;

use vstd::prelude::*;

verus! {

} // verus!
