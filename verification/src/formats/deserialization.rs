//! Reading canonical object bytes back into an object, with strict
//! validation: this is the integrity boundary for all retrieved content.

use vstd::prelude::*;
use crate::bytes::{
    bytes_eq, copy_range, dec_bytes, find_byte, find_byte_from, lemma_find_byte_at,
    lemma_find_byte_none, lemma_find_byte_props, push_dec_u64,
};
use crate::formats::{spec_deserialize, tree};
use crate::structs::git_blob::GitBlob;
use crate::structs::git_object::GitObject;
use crate::structs::GitObjectType;
use crate::GitError;

verus! {

/// Decodes canonical object bytes. Fails with `FormatError` if the NUL
/// separator is missing, the type is unrecognized, or the declared length
/// does not match the actual body length.
#[verifier::rlimit(100)]
pub fn call(data: &[u8]) -> (r: Result<GitObject, GitError>)
    ensures
        match r {
            Ok(o) => spec_deserialize(data@) == Some(o@),
            Err(e) => e == GitError::FormatError && spec_deserialize(data@) is None,
        },
{
    let ghost d = data@;
    let z = match find_byte_from(data, 0, 0) {
        Some(z) => z,
        None => {
            return Err(GitError::FormatError);
        },
    };
    let ghost header = d.take(z as int);
    let ghost body = d.skip(z as int + 1);
    proof {
        lemma_find_byte_props(d, 0, 0);
    }
    let sp = match find_byte_from(data, 32, 0) {
        Some(sp) => {
            if sp >= z {
                proof {
                    lemma_find_byte_props(d, 32, 0);
                    assert forall|j: int| 0 <= j < header.len() implies header[j] != 32 by {
                        assert(header[j] == d[j]);
                    }
                    lemma_find_byte_none(header, 32, 0);
                }
                return Err(GitError::FormatError);
            }
            proof {
                lemma_find_byte_props(d, 32, 0);
                assert(header[sp as int] == 32);
                assert forall|j: int| 0 <= j < sp implies header[j] != 32 by {
                    assert(header[j] == d[j]);
                }
                lemma_find_byte_at(header, 32, 0, sp as int);
            }
            sp
        },
        None => {
            proof {
                lemma_find_byte_props(d, 32, 0);
                assert forall|j: int| 0 <= j < header.len() implies header[j] != 32 by {
                    assert(header[j] == d[j]);
                }
                lemma_find_byte_none(header, 32, 0);
            }
            return Err(GitError::FormatError);
        },
    };
    let body_len = data.len() - z - 1;
    let mut expected: Vec<u8> = Vec::new();
    push_dec_u64(&mut expected, body_len as u64);
    proof {
        assert(expected@ == dec_bytes(body.len() as int));
    }
    let lenstr = copy_range(data, sp + 1, z);
    proof {
        assert(lenstr@ =~= header.skip(sp as int + 1));
    }
    if !bytes_eq(lenstr.as_slice(), expected.as_slice()) {
        return Err(GitError::FormatError);
    }
    let tag = copy_range(data, 0, sp);
    proof {
        assert(tag@ =~= header.take(sp as int));
    }
    let ty = match GitObjectType::parse(tag.as_slice()) {
        Some(t) => t,
        None => {
            return Err(GitError::FormatError);
        },
    };
    proof {
        assert(crate::structs::tag_bytes(GitObjectType::Blob)[0] != crate::structs::tag_bytes(
            GitObjectType::Tree,
        )[0]);
        assert(crate::structs::tag_bytes(GitObjectType::Blob) != crate::structs::tag_bytes(
            GitObjectType::Tree,
        ));
    }
    let body_bytes = copy_range(data, z + 1, data.len());
    proof {
        assert(body_bytes@ =~= body);
    }
    match ty {
        GitObjectType::Blob => {
            let o = GitObject::Blob(GitBlob::new(body_bytes));
            assert(spec_deserialize(d) == Some(o@));
            Ok(o)
        },
        GitObjectType::Tree => {
            match tree::parse(body_bytes.as_slice()) {
                Ok(t) => {
                    let o = GitObject::Tree(t);
                    assert(spec_deserialize(d) == Some(o@));
                    Ok(o)
                },
                Err(e) => Err(GitError::FormatError),
            }
        },
    }
}

} // verus!
