//! A tree object: an ordered list of named, typed, permissioned references.
//! Its canonical content is its references' lines joined by newline.

use vstd::prelude::*;
use crate::bytes::{dec_bytes, hex_bytes, hex_of, push_dec_u64};
use crate::structs::git_index::{GitIndex, GitIndexEntry, IndexEntryView};
use crate::structs::{tag_bytes, GitObjectType};

verus! {

/// One line of a tree: `mode type hash name`. The hash is the lowercase hex
/// rendering of a digest; the name is the staged path, treated as an opaque
/// flat name.
#[derive(Debug)]
pub struct GitObjectRef {
    pub permissions: u32,
    pub ref_type: GitObjectType,
    pub hash: Vec<u8>,
    pub content: Vec<u8>,
}

/// The mathematical value of a tree reference.
#[verifier::ext_equal]
pub struct GitObjectRefView {
    pub permissions: u32,
    pub ref_type: GitObjectType,
    pub hash: Seq<u8>,
    pub content: Seq<u8>,
}

impl View for GitObjectRef {
    type V = GitObjectRefView;

    open spec fn view(&self) -> GitObjectRefView {
        GitObjectRefView {
            permissions: self.permissions,
            ref_type: self.ref_type,
            hash: self.hash@,
            content: self.content@,
        }
    }
}

impl GitObjectRefView {
    /// A reference whose line reads back unambiguously: neither the hash nor
    /// the name holds a space or a newline.
    pub open spec fn wf(self) -> bool {
        (forall|i: int|
            0 <= i < self.hash.len() ==> #[trigger] self.hash[i] != 32 && self.hash[i] != 10)
            && (forall|i: int|
            0 <= i < self.content.len() ==> #[trigger] self.content[i] != 32 && self.content[i]
                != 10)
    }
}

/// The line of one reference: `mode type hash name`, space-separated.
pub open spec fn spec_line_of(r: GitObjectRefView) -> Seq<u8> {
    dec_bytes(r.permissions as int) + seq![32u8] + tag_bytes(r.ref_type) + seq![32u8] + r.hash
        + seq![32u8] + r.content
}

/// The canonical content of a tree: its lines joined by newline, in order.
pub open spec fn spec_tree_body(refs: Seq<GitObjectRefView>) -> Seq<u8>
    decreases refs.len(),
{
    if refs.len() == 0 {
        Seq::empty()
    } else if refs.len() == 1 {
        spec_line_of(refs[0])
    } else {
        spec_line_of(refs[0]) + seq![10u8] + spec_tree_body(refs.drop_first())
    }
}

/// Appending one reference appends a newline and its line.
pub proof fn lemma_tree_body_push(refs: Seq<GitObjectRefView>, r: GitObjectRefView)
    ensures
        spec_tree_body(refs.push(r)) =~= if refs.len() == 0 {
            spec_line_of(r)
        } else {
            spec_tree_body(refs) + seq![10u8] + spec_line_of(r)
        },
    decreases refs.len(),
{
    if refs.len() == 0 {
        assert(refs.push(r)[0] == r);
    } else {
        lemma_tree_body_push(refs.drop_first(), r);
        assert(refs.push(r).drop_first() =~= refs.drop_first().push(r));
        assert(refs.push(r)[0] == refs[0]);
        if refs.len() == 1 {
            assert(refs.drop_first().len() == 0);
            assert(spec_tree_body(refs.push(r)) =~= spec_line_of(refs[0]) + seq![10u8]
                + spec_tree_body(refs.drop_first().push(r)));
        } else {
            assert(spec_tree_body(refs.push(r)) =~= spec_line_of(refs[0]) + seq![10u8]
                + spec_tree_body(refs.drop_first().push(r)));
            assert(spec_tree_body(refs) =~= spec_line_of(refs[0]) + seq![10u8] + spec_tree_body(
                refs.drop_first(),
            ));
        }
    }
}

impl GitObjectRef {
    /// Renders this reference as its tree line.
    pub fn as_line(&self) -> (r: Vec<u8>)
        ensures
            r@ == spec_line_of(self@),
    {
        let mut out: Vec<u8> = Vec::new();
        push_dec_u64(&mut out, self.permissions as u64);
        out.push(32);
        self.ref_type.push_tag(&mut out);
        out.push(32);
        out.extend_from_slice(self.hash.as_slice());
        out.push(32);
        out.extend_from_slice(self.content.as_slice());
        assert(out@ =~= spec_line_of(self@));
        out
    }
}

/// An ordered list of references; the tree's content is their lines joined
/// by newline.
#[derive(Debug)]
pub struct GitTree {
    pub refs: Vec<GitObjectRef>,
}

impl View for GitTree {
    type V = Seq<GitObjectRefView>;

    open spec fn view(&self) -> Seq<GitObjectRefView> {
        self.refs@.map_values(|r: GitObjectRef| r@)
    }
}

impl GitTree {
    /// Wraps an ordered list of references as a tree.
    pub fn new(refs: Vec<GitObjectRef>) -> (r: GitTree)
        ensures
            r@ == refs@.map_values(|x: GitObjectRef| x@),
    {
        GitTree { refs }
    }

    /// The canonical content of the tree: its lines joined by newline.
    pub fn content(&self) -> (r: Vec<u8>)
        ensures
            r@ == spec_tree_body(self@),
    {
        let mut out: Vec<u8> = Vec::new();
        let mut i: usize = 0;
        while i < self.refs.len()
            invariant
                0 <= i <= self.refs@.len(),
                self@.len() == self.refs@.len(),
                forall|j: int| 0 <= j < self.refs@.len() ==> self@[j] == #[trigger] self.refs@[j]@,
                out@ == spec_tree_body(self@.take(i as int)),
            decreases self.refs@.len() - i,
        {
            if i > 0 {
                out.push(10);
            }
            let line = self.refs[i].as_line();
            out.extend_from_slice(line.as_slice());
            proof {
                lemma_tree_body_push(self@.take(i as int), self@[i as int]);
                assert(self@.take(i as int).push(self@[i as int]) =~= self@.take(i as int + 1));
                assert(out@ =~= spec_tree_body(self@.take(i as int + 1)));
            }
            i = i + 1;
        }
        assert(self@.take(i as int) =~= self@);
        out
    }
}

/// The reference a staged entry contributes to a tree: the entry's mode,
/// object type fixed to blob (this engine builds one flat level), the hex
/// rendering of its stored digest, and its path as the name.
pub open spec fn spec_ref_of_entry(e: IndexEntryView) -> GitObjectRefView {
    GitObjectRefView {
        permissions: e.mode,
        ref_type: GitObjectType::Blob,
        hash: hex_bytes(e.hash),
        content: e.path,
    }
}

impl GitObjectRef {
    /// Builds the tree reference of one staged entry.
    pub fn from_entry(item: &GitIndexEntry) -> (r: GitObjectRef)
        ensures
            r@ == spec_ref_of_entry(item@),
    {
        let r = GitObjectRef {
            permissions: item.mode,
            ref_type: GitObjectType::Blob,
            hash: hex_of(item.hash.as_slice()),
            content: item.path.clone(),
        };
        assert(r@ =~= spec_ref_of_entry(item@));
        r
    }
}

impl GitTree {
    /// Builds a flat tree from a staging index: one reference per entry, in
    /// index order.
    pub fn from_index(item: &GitIndex) -> (r: GitTree)
        ensures
            r@ == item@.map_values(|e: IndexEntryView| spec_ref_of_entry(e)),
    {
        let ghost target = item@.map_values(|e: IndexEntryView| spec_ref_of_entry(e));
        let mut refs: Vec<GitObjectRef> = Vec::new();
        let mut i: usize = 0;
        proof {
            assert(refs@.map_values(|r: GitObjectRef| r@) =~= target.take(0));
        }
        while i < item.entries.len()
            invariant
                0 <= i <= item.entries@.len(),
                item@.len() == item.entries@.len(),
                target.len() == item@.len(),
                forall|j: int|
                    0 <= j < item@.len() ==> item@[j] == #[trigger] item.entries@[j]@,
                forall|j: int|
                    0 <= j < target.len() ==> target[j] == spec_ref_of_entry(#[trigger] item@[j]),
                refs@.map_values(|r: GitObjectRef| r@) == target.take(i as int),
            decreases item.entries@.len() - i,
        {
            let ghost done = refs@.map_values(|r: GitObjectRef| r@);
            let rr = GitObjectRef::from_entry(&item.entries[i]);
            refs.push(rr);
            proof {
                assert(refs@.map_values(|r: GitObjectRef| r@) =~= done.push(rr@));
                assert(done.push(rr@) =~= target.take(i as int + 1));
            }
            i = i + 1;
        }
        assert(target.take(i as int) =~= target);
        GitTree { refs }
    }
}

} // verus!
