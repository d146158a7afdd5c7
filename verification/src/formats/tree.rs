//! Reading a tree body back into its list of references.

use vstd::prelude::*;
use crate::bytes::{
    copy_range, find_byte, find_byte_from, lemma_find_byte_at, lemma_find_byte_none,
    lemma_find_byte_props,
};
use crate::formats::{object_ref, spec_parse_line, spec_parse_tree_body};
use crate::structs::git_tree::{GitObjectRef, GitObjectRefView, GitTree};
use crate::GitError;

verus! {

/// Prefixes already-parsed references onto the outcome of parsing the rest.
pub open spec fn tree_cont(
    prefix: Seq<GitObjectRefView>,
    rest: Option<Seq<GitObjectRefView>>,
) -> Option<Seq<GitObjectRefView>> {
    match rest {
        None => None,
        Some(t) => Some(prefix + t),
    }
}

/// Parses a tree body: lines separated by single newlines, no trailing
/// newline. Fails with `FormatError` on any malformed line.
#[verifier::rlimit(100)]
pub fn parse(data: &[u8]) -> (r: Result<GitTree, GitError>)
    ensures
        match r {
            Ok(t) => spec_parse_tree_body(data@) == Some(t@),
            Err(e) => e == GitError::FormatError && spec_parse_tree_body(data@) is None,
        },
{
    let mut refs: Vec<GitObjectRef> = Vec::new();
    if data.len() == 0 {
        let t = GitTree { refs };
        assert(t@ =~= Seq::<GitObjectRefView>::empty());
        return Ok(t);
    }
    let mut off: usize = 0;
    proof {
        assert(data@.skip(0) =~= data@);
        assert(refs@.map_values(|x: GitObjectRef| x@) =~= Seq::<GitObjectRefView>::empty());
    }
    loop
        invariant
            0 <= off < data@.len(),
            spec_parse_tree_body(data@) == tree_cont(
                refs@.map_values(|x: GitObjectRef| x@),
                spec_parse_tree_body(data@.skip(off as int)),
            ),
        decreases data@.len() - off,
    {
        let ghost done = refs@.map_values(|x: GitObjectRef| x@);
        let ghost dd = data@.skip(off as int);
        match find_byte_from(data, 10, off) {
            None => {
                proof {
                    lemma_find_byte_props(data@, 10, off as int);
                    assert forall|j: int| 0 <= j < dd.len() implies dd[j] != 10 by {
                        assert(data@[off + j] != 10);
                    }
                    lemma_find_byte_none(dd, 10, 0);
                }
                let line = copy_range(data, off, data.len());
                proof {
                    assert(line@ =~= dd);
                }
                let rr = match object_ref::parse(line.as_slice()) {
                    Ok(rr) => rr,
                    Err(e) => {
                        return Err(GitError::FormatError);
                    },
                };
                refs.push(rr);
                proof {
                    assert(spec_parse_tree_body(dd) == Some(seq![rr@]));
                    assert(refs@.map_values(|x: GitObjectRef| x@) =~= done + seq![rr@]);
                }
                let t = GitTree { refs };
                return Ok(t);
            },
            Some(nl) => {
                assert(nl < data@.len());
                let n = data.len();
                proof {
                    lemma_find_byte_props(data@, 10, off as int);
                    assert(dd[nl - off] == 10);
                    assert forall|j: int| 0 <= j < nl - off implies dd[j] != 10 by {
                        assert(data@[off + j] != 10);
                    }
                    lemma_find_byte_at(dd, 10, 0, nl - off);
                }
                if nl + 1 >= data.len() {
                    return Err(GitError::FormatError);
                }
                let line = copy_range(data, off, nl);
                proof {
                    assert(line@ =~= dd.take(nl - off));
                }
                let rr = match object_ref::parse(line.as_slice()) {
                    Ok(rr) => rr,
                    Err(e) => {
                        return Err(GitError::FormatError);
                    },
                };
                proof {
                    assert(dd.skip((nl - off) + 1) =~= data@.skip(nl as int + 1));
                    let rest = spec_parse_tree_body(data@.skip(nl as int + 1));
                    assert(spec_parse_tree_body(dd) == tree_cont(seq![rr@], rest));
                    if rest is Some {
                        assert(done + (seq![rr@] + rest->0) =~= (done + seq![rr@]) + rest->0);
                    }
                }
                refs.push(rr);
                proof {
                    assert(refs@.map_values(|x: GitObjectRef| x@) =~= done + seq![rr@]);
                }
                off = nl + 1;
            },
        }
    }
}

} // verus!
