//! What the update-index command does to a loaded index.

use vstd::prelude::*;
use crate::commands::UpdateIndexArgs;
use crate::structs::git_index::{entries_sorted, spec_add_entry, GitIndex, GitIndexEntry};

verus! {

/// Applies update-index to a loaded index: with `--add`, stages the entry,
/// keeping the index sorted and unique by path; without it, changes
/// nothing. Returns whether the index file must be rewritten.
pub fn call(index: &mut GitIndex, entry: GitIndexEntry, args: &UpdateIndexArgs) -> (saved: bool)
    requires
        entries_sorted(old(index)@),
    ensures
        args.add ==> final(index)@ == spec_add_entry(old(index)@, entry@) && saved,
        !args.add ==> final(index)@ == old(index)@ && !saved,
        entries_sorted(final(index)@),
{
    if args.add {
        index.add_entry(entry);
        true
    } else {
        false
    }
}

} // verus!
