//! The decisions the commands make, separated from the boundary that parses
//! arguments and touches the filesystem.

pub mod update_index;

use vstd::prelude::*;

verus! {

/// Arguments of the update-index command, as plain values: stage an entry
/// (`--add`) described by explicit cache info (`--cacheinfo <mode> <sha1>
/// <path>`).
pub struct UpdateIndexArgs {
    pub add: bool,
    pub cacheinfo: bool,
    pub mode: Option<u32>,
    pub sha1: Option<String>,
    pub path: Option<String>,
}

} // verus!
