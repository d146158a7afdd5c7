//! The closed union of storable objects: a blob or a tree. The object codec
//! dispatches on the type tag; there is no open hierarchy.

use vstd::prelude::*;
use crate::structs::git_blob::GitBlob;
use crate::structs::git_tree::{spec_tree_body, GitObjectRefView, GitTree};
use crate::structs::GitObjectType;

verus! {

/// A storable object. Every variant exposes raw content bytes, a type tag,
/// and (through the store) a digest computed over its canonical encoding.
#[derive(Debug)]
pub enum GitObject {
    Blob(GitBlob),
    Tree(GitTree),
}

/// The mathematical value of an object.
#[verifier::ext_equal]
pub enum GitObjectView {
    Blob(Seq<u8>),
    Tree(Seq<GitObjectRefView>),
}

impl View for GitObject {
    type V = GitObjectView;

    open spec fn view(&self) -> GitObjectView {
        match self {
            GitObject::Blob(b) => GitObjectView::Blob(b@),
            GitObject::Tree(t) => GitObjectView::Tree(t@),
        }
    }
}

impl GitObjectView {
    /// The object's type tag.
    pub open spec fn obj_type(self) -> GitObjectType {
        match self {
            GitObjectView::Blob(_) => GitObjectType::Blob,
            GitObjectView::Tree(_) => GitObjectType::Tree,
        }
    }

    /// The object's canonical content bytes.
    pub open spec fn content(self) -> Seq<u8> {
        match self {
            GitObjectView::Blob(c) => c,
            GitObjectView::Tree(rs) => spec_tree_body(rs),
        }
    }

    /// An object whose encoding reads back to itself: a blob always, a tree
    /// when each reference's line is unambiguous.
    pub open spec fn wf(self) -> bool {
        match self {
            GitObjectView::Blob(_) => true,
            GitObjectView::Tree(rs) => forall|i: int|
                0 <= i < rs.len() ==> (#[trigger] rs[i]).wf(),
        }
    }
}

impl GitObject {
    /// The object's type tag.
    pub fn git_type(&self) -> (r: GitObjectType)
        ensures
            r == self@.obj_type(),
    {
        match self {
            GitObject::Blob(_) => GitObjectType::Blob,
            GitObject::Tree(_) => GitObjectType::Tree,
        }
    }

    /// The tag as text: "blob" or "tree".
    pub fn type_string(&self) -> (r: String)
        ensures
            r@ == crate::structs::ascii_chars_of_tag(self@.obj_type()),
    {
        self.git_type().type_string()
    }

    /// The object's digest: computed over its canonical encoding, not over
    /// raw content alone, and rendered as 40 lowercase hex characters.
    pub fn hash(&self) -> (r: String)
        ensures
            r@ == crate::utils::hash::hex_digest_of(crate::formats::spec_serialize(self@)),
            r@.len() == 40,
    {
        let encoded = crate::formats::serialization::call(self);
        crate::utils::hash::hex_digest(encoded.as_slice())
    }

    /// The object's canonical content bytes.
    pub fn content(&self) -> (r: Vec<u8>)
        ensures
            r@ == self@.content(),
    {
        match self {
            GitObject::Blob(b) => {
                let mut out: Vec<u8> = Vec::new();
                out.extend_from_slice(b.content.as_slice());
                assert(out@ =~= self@.content());
                out
            },
            GitObject::Tree(t) => t.content(),
        }
    }
}

} // verus!
