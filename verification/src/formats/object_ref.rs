//! Reading one tree line `mode type hash name` back into a reference.

use vstd::prelude::*;
use crate::bytes::{copy_range, find_byte_from, parse_dec_u32};
use crate::formats::spec_parse_line;
use crate::structs::git_tree::GitObjectRef;
use crate::structs::GitObjectType;
use crate::GitError;

verus! {

/// Parses one tree line. Fails with `FormatError` unless the line holds
/// exactly four space-separated fields, a canonical 32-bit decimal mode and
/// a known type tag.
#[verifier::rlimit(100)]
pub fn parse(line: &[u8]) -> (r: Result<GitObjectRef, GitError>)
    ensures
        match r {
            Ok(rr) => spec_parse_line(line@) == Some(rr@),
            Err(e) => e == GitError::FormatError && spec_parse_line(line@) is None,
        },
{
    let n = line.len();
    let i1 = match find_byte_from(line, 32, 0) {
        Some(i) => i,
        None => {
            return Err(GitError::FormatError);
        },
    };
    let i2 = match find_byte_from(line, 32, i1 + 1) {
        Some(i) => i,
        None => {
            return Err(GitError::FormatError);
        },
    };
    let i3 = match find_byte_from(line, 32, i2 + 1) {
        Some(i) => i,
        None => {
            return Err(GitError::FormatError);
        },
    };
    match find_byte_from(line, 32, i3 + 1) {
        Some(_) => {
            return Err(GitError::FormatError);
        },
        None => {},
    };
    let mode_bytes = copy_range(line, 0, i1);
    assert(mode_bytes@ == line@.take(i1 as int));
    let permissions = match parse_dec_u32(mode_bytes.as_slice()) {
        Some(v) => v,
        None => {
            return Err(GitError::FormatError);
        },
    };
    let tag = copy_range(line, i1 + 1, i2);
    let ref_type = match GitObjectType::parse(tag.as_slice()) {
        Some(t) => t,
        None => {
            return Err(GitError::FormatError);
        },
    };
    let hash = copy_range(line, i2 + 1, i3);
    let content = copy_range(line, i3 + 1, line.len());
    proof {
        assert(content@ =~= line@.skip(i3 as int + 1));
        assert(crate::structs::tag_bytes(GitObjectType::Blob)[0] != crate::structs::tag_bytes(
            GitObjectType::Tree,
        )[0]);
        assert(crate::structs::tag_bytes(GitObjectType::Blob) != crate::structs::tag_bytes(
            GitObjectType::Tree,
        ));
    }
    let rr = GitObjectRef { permissions, ref_type, hash, content };
    proof {
        assert(rr@ =~= spec_parse_line(line@)->0);
    }
    Ok(rr)
}

} // verus!
