//! The data model: object kinds, blobs, trees, tree references, the staging
//! index and its entry flags.

pub mod flags;
pub mod git_blob;
pub mod git_index;
pub mod git_object;
pub mod git_tree;

use vstd::prelude::*;

verus! {

/// The kind of a stored object: raw file content, or a list of named,
/// typed, permissioned references.
#[derive(Clone, Copy, Debug, PartialEq, Eq, Structural)]
pub enum GitObjectType {
    Blob,
    Tree,
}

/// The type tag written into an object header and into a tree line.
pub open spec fn tag_bytes(t: GitObjectType) -> Seq<u8> {
    match t {
        GitObjectType::Blob => seq![98u8, 108u8, 111u8, 98u8],  // "blob"
        GitObjectType::Tree => seq![116u8, 114u8, 101u8, 101u8],  // "tree"
    }
}

impl GitObjectType {
    /// Recognizes a type tag; anything but the two known tags is refused.
    pub fn parse(data: &[u8]) -> (r: Option<GitObjectType>)
        ensures
            match r {
                Some(t) => data@ == tag_bytes(t),
                None => forall|t: GitObjectType| data@ != tag_bytes(t),
            },
    {
        if data.len() == 4 && data[0] == 98 && data[1] == 108 && data[2] == 111 && data[3] == 98 {
            assert(data@ =~= tag_bytes(GitObjectType::Blob));
            Some(GitObjectType::Blob)
        } else if data.len() == 4 && data[0] == 116 && data[1] == 114 && data[2] == 101 && data[3]
            == 101 {
            assert(data@ =~= tag_bytes(GitObjectType::Tree));
            Some(GitObjectType::Tree)
        } else {
            proof {
                let bt = tag_bytes(GitObjectType::Blob);
                let tt = tag_bytes(GitObjectType::Tree);
                if data@.len() == 4 {
                    assert(data@ != bt && data@ != tt);
                }
            }
            None
        }
    }

    /// The tag as text: "blob" or "tree".
    pub fn type_string(&self) -> (r: String)
        ensures
            r@ == ascii_chars_of_tag(*self),
            r@ == (match *self {
                GitObjectType::Blob => "blob"@,
                GitObjectType::Tree => "tree"@,
            }),
    {
        match self {
            GitObjectType::Blob => {
                let s = String::from_str("blob");
                proof {
                    reveal_strlit("blob");
                }
                assert(s@ =~= ascii_chars_of_tag(GitObjectType::Blob));
                s
            },
            GitObjectType::Tree => {
                let s = String::from_str("tree");
                proof {
                    reveal_strlit("tree");
                }
                assert(s@ =~= ascii_chars_of_tag(GitObjectType::Tree));
                s
            },
        }
    }

    /// Appends the tag's bytes to `out`.
    pub fn push_tag(&self, out: &mut Vec<u8>)
        ensures
            final(out)@ == old(out)@ + tag_bytes(*self),
    {
        match self {
            GitObjectType::Blob => {
                out.push(98);
                out.push(108);
                out.push(111);
                out.push(98);
            },
            GitObjectType::Tree => {
                out.push(116);
                out.push(114);
                out.push(101);
                out.push(101);
            },
        }
        assert(out@ =~= old(out)@ + tag_bytes(*self));
    }
}

/// The characters of a type tag, matching its bytes.
pub open spec fn ascii_chars_of_tag(t: GitObjectType) -> Seq<char> {
    crate::bytes::ascii_chars(tag_bytes(t))
}

} // verus!
