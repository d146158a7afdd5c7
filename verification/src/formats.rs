//! The canonical object encoding: `"<type> <byte-length>\0<content-bytes>"`,
//! used both for hashing and for storage, with its strict decoder.

pub mod deserialization;
pub mod object_ref;
pub mod serialization;
pub mod tree;

use vstd::prelude::*;
use crate::bytes::{
    dec_bytes, dec_val, find_byte, is_canon_dec, lemma_canon_dec_bytes_of_val,
    lemma_dec_bytes_canon, lemma_find_byte_at, lemma_find_byte_none, lemma_find_byte_props,
};
use crate::structs::git_object::GitObjectView;
use crate::structs::git_tree::{spec_line_of, spec_tree_body, GitObjectRefView};
use crate::structs::{tag_bytes, GitObjectType};

verus! {

/// The canonical encoding of an object: type tag, one space, the decimal
/// length of the content, a NUL, then the content bytes.
pub open spec fn spec_serialize(o: GitObjectView) -> Seq<u8> {
    tag_bytes(o.obj_type()) + seq![32u8] + dec_bytes(o.content().len() as int) + seq![0u8]
        + o.content()
}

/// Reads one tree line `mode type hash name`: exactly four space-separated
/// fields, the mode a canonical decimal that fits 32 bits, the type a known
/// tag.
pub open spec fn spec_parse_line(l: Seq<u8>) -> Option<GitObjectRefView> {
    let i1 = find_byte(l, 32, 0);
    if i1 < 0 {
        None
    } else {
        let i2 = find_byte(l, 32, i1 + 1);
        if i2 < 0 {
            None
        } else {
            let i3 = find_byte(l, 32, i2 + 1);
            if i3 < 0 {
                None
            } else if find_byte(l, 32, i3 + 1) >= 0 {
                None
            } else {
                let mode_s = l.take(i1);
                if !(is_canon_dec(mode_s) && dec_val(mode_s) <= u32::MAX) {
                    None
                } else {
                    let tag = l.subrange(i1 + 1, i2);
                    if tag == tag_bytes(GitObjectType::Blob) {
                        Some(
                            GitObjectRefView {
                                permissions: dec_val(mode_s) as u32,
                                ref_type: GitObjectType::Blob,
                                hash: l.subrange(i2 + 1, i3),
                                content: l.skip(i3 + 1),
                            },
                        )
                    } else if tag == tag_bytes(GitObjectType::Tree) {
                        Some(
                            GitObjectRefView {
                                permissions: dec_val(mode_s) as u32,
                                ref_type: GitObjectType::Tree,
                                hash: l.subrange(i2 + 1, i3),
                                content: l.skip(i3 + 1),
                            },
                        )
                    } else {
                        None
                    }
                }
            }
        }
    }
}

/// Reads a tree body: lines separated by single newlines, no trailing
/// newline, each line a well-formed reference.
pub open spec fn spec_parse_tree_body(d: Seq<u8>) -> Option<Seq<GitObjectRefView>>
    decreases d.len(),
{
    if d.len() == 0 {
        Some(Seq::empty())
    } else {
        let nl = find_byte(d, 10, 0);
        if nl < 0 {
            match spec_parse_line(d) {
                None => None,
                Some(r) => Some(seq![r]),
            }
        } else if nl + 1 >= d.len() {
            None
        } else {
            match spec_parse_line(d.take(nl)) {
                None => None,
                Some(r) => match spec_parse_tree_body(d.skip(nl + 1)) {
                    None => None,
                    Some(rest) => Some(seq![r] + rest),
                },
            }
        }
    }
}

/// Splits on the first NUL into header and body, the header on its first
/// space into type and declared length; the declared length must be the
/// canonical decimal of the actual body length, and the type a known tag.
pub open spec fn spec_deserialize(d: Seq<u8>) -> Option<GitObjectView> {
    let z = find_byte(d, 0, 0);
    if z < 0 {
        None
    } else {
        let header = d.take(z);
        let body = d.skip(z + 1);
        let sp = find_byte(header, 32, 0);
        if sp < 0 {
            None
        } else {
            let tag = header.take(sp);
            let lenstr = header.skip(sp + 1);
            if lenstr != dec_bytes(body.len() as int) {
                None
            } else if tag == tag_bytes(GitObjectType::Blob) {
                Some(GitObjectView::Blob(body))
            } else if tag == tag_bytes(GitObjectType::Tree) {
                match spec_parse_tree_body(body) {
                    None => None,
                    Some(rs) => Some(GitObjectView::Tree(rs)),
                }
            } else {
                None
            }
        }
    }
}

/// A parsed line renders back to exactly itself, and its parts are clean: if
/// the line held no newline, the reference is well-formed.
#[verifier::rlimit(100)]
#[verifier::spinoff_prover]
pub proof fn lemma_parse_line_sound(l: Seq<u8>)
    requires
        spec_parse_line(l) is Some,
        forall|j: int| 0 <= j < l.len() ==> l[j] != 10,
    ensures
        ({
            let r = spec_parse_line(l)->0;
            r.wf() && spec_line_of(r) == l
        }),
{
    let r = spec_parse_line(l)->0;
    let i1 = find_byte(l, 32, 0);
    let i2 = find_byte(l, 32, i1 + 1);
    let i3 = find_byte(l, 32, i2 + 1);
    lemma_find_byte_props(l, 32, 0);
    lemma_find_byte_props(l, 32, i1 + 1);
    lemma_find_byte_props(l, 32, i2 + 1);
    lemma_find_byte_props(l, 32, i3 + 1);
    let mode_s = l.take(i1);
    lemma_canon_dec_bytes_of_val(mode_s);
    assert(dec_bytes(r.permissions as int) == mode_s);
    assert forall|i: int| 0 <= i < r.hash.len() implies #[trigger] r.hash[i] != 32 && r.hash[i]
        != 10 by {
        assert(r.hash[i] == l[i2 + 1 + i]);
    }
    assert forall|i: int| 0 <= i < r.content.len() implies #[trigger] r.content[i] != 32
        && r.content[i] != 10 by {
        assert(r.content[i] == l[i3 + 1 + i]);
    }
    assert(l.subrange(i1 + 1, i2) == tag_bytes(r.ref_type));
    assert(spec_line_of(r) =~= l);
}

/// A well-formed reference's line reads back as that reference.
#[verifier::rlimit(100)]
#[verifier::spinoff_prover]
pub proof fn lemma_parse_line_complete(r: GitObjectRefView)
    requires
        r.wf(),
    ensures
        spec_parse_line(spec_line_of(r)) == Some(r),
        forall|j: int| 0 <= j < spec_line_of(r).len() ==> #[trigger] spec_line_of(r)[j] != 10,
        spec_line_of(r).len() >= 4,
{
    let l = spec_line_of(r);
    let md = dec_bytes(r.permissions as int);
    lemma_dec_bytes_canon(r.permissions as int);
    let i1 = md.len() as int;
    let i2 = i1 + 5;
    let i3 = i2 + r.hash.len() as int + 1;
    assert(l[i1] == 32 && l[i2] == 32 && l[i3] == 32);
    assert forall|j: int| 0 <= j < i1 implies l[j] != 32 by {
        assert(l[j] == md[j]);
        assert(48 <= md[j] <= 57);
    }
    lemma_find_byte_at(l, 32, 0, i1);
    assert forall|j: int| i1 + 1 <= j < i2 implies l[j] != 32 by {
        assert(l[j] == tag_bytes(r.ref_type)[j - (i1 + 1)]);
    }
    lemma_find_byte_at(l, 32, i1 + 1, i2);
    assert forall|j: int| i2 + 1 <= j < i3 implies l[j] != 32 by {
        assert(l[j] == r.hash[j - (i2 + 1)]);
    }
    lemma_find_byte_at(l, 32, i2 + 1, i3);
    assert forall|j: int| i3 + 1 <= j < l.len() implies l[j] != 32 by {
        assert(l[j] == r.content[j - (i3 + 1)]);
    }
    lemma_find_byte_none(l, 32, i3 + 1);
    assert(l.take(i1) =~= md);
    assert(dec_val(md) == r.permissions as int);
    assert(l.subrange(i1 + 1, i2) =~= tag_bytes(r.ref_type));
    assert(tag_bytes(GitObjectType::Blob)[0] != tag_bytes(GitObjectType::Tree)[0]);
    assert(tag_bytes(GitObjectType::Blob) != tag_bytes(GitObjectType::Tree));
    assert(l.subrange(i2 + 1, i3) =~= r.hash);
    assert(l.skip(i3 + 1) =~= r.content);
    let parsed = spec_parse_line(l)->0;
    assert(parsed =~= r);
    assert forall|j: int| 0 <= j < l.len() implies #[trigger] l[j] != 10 by {
        if j < i1 {
            assert(l[j] == md[j]);
            assert(48 <= md[j] <= 57);
        } else if i1 + 1 <= j < i2 {
            assert(l[j] == tag_bytes(r.ref_type)[j - (i1 + 1)]);
        } else if i2 + 1 <= j < i3 {
            assert(l[j] == r.hash[j - (i2 + 1)]);
        } else if i3 + 1 <= j {
            assert(l[j] == r.content[j - (i3 + 1)]);
        }
    }
}

/// A parsed tree body renders back to exactly itself, each reference
/// well-formed.
#[verifier::rlimit(100)]
#[verifier::spinoff_prover]
pub proof fn lemma_parse_tree_body_sound(d: Seq<u8>)
    requires
        spec_parse_tree_body(d) is Some,
    ensures
        ({
            let rs = spec_parse_tree_body(d)->0;
            spec_tree_body(rs) == d && (forall|i: int| 0 <= i < rs.len() ==> (#[trigger] rs[i]).wf())
        }),
    decreases d.len(),
{
    let rs = spec_parse_tree_body(d)->0;
    if d.len() == 0 {
        assert(rs =~= Seq::<GitObjectRefView>::empty());
        assert(spec_tree_body(rs) =~= d);
    } else {
        let nl = find_byte(d, 10, 0);
        lemma_find_byte_props(d, 10, 0);
        if nl < 0 {
            let r = spec_parse_line(d)->0;
            lemma_parse_line_sound(d);
            assert(rs =~= seq![r]);
            assert(spec_tree_body(rs) == spec_line_of(r));
        } else {
            let l = d.take(nl);
            assert forall|j: int| 0 <= j < l.len() implies #[trigger] l[j] != 10 by {
                assert(l[j] == d[j]);
            }
            let r = spec_parse_line(l)->0;
            lemma_parse_line_sound(l);
            lemma_parse_tree_body_sound(d.skip(nl + 1));
            let rest = spec_parse_tree_body(d.skip(nl + 1))->0;
            assert(spec_parse_tree_body(d) == Some(seq![r] + rest));
            assert(rs =~= seq![r] + rest);
            assert(rs[0] == r);
            assert(rs.drop_first() =~= rest);
            assert forall|i: int| 0 <= i < rs.len() implies (#[trigger] rs[i]).wf() by {
                if i > 0 {
                    assert(rs[i] == rest[i - 1]);
                    assert(rest[i - 1].wf());
                }
            }
            assert(rest.len() > 0) by {
                if rest.len() == 0 {
                    assert(spec_tree_body(rest) == Seq::<u8>::empty());
                    assert(d.skip(nl + 1).len() > 0);
                }
            }
            assert(spec_tree_body(rs) == spec_line_of(r) + seq![10u8] + spec_tree_body(rest));
            assert(spec_tree_body(rest) == d.skip(nl + 1));
            assert(spec_line_of(r) + seq![10u8] + d.skip(nl + 1) =~= d);
        }
    }
}

/// A nonempty list of references has a nonempty body.
pub proof fn lemma_tree_body_nonempty(rs: Seq<GitObjectRefView>)
    requires
        rs.len() > 0,
    ensures
        spec_tree_body(rs).len() >= 4,
{
    crate::bytes::lemma_dec_bytes_nonempty(rs[0].permissions as int);
}

/// Well-formed references' body reads back as those references.
#[verifier::rlimit(100)]
#[verifier::spinoff_prover]
pub proof fn lemma_parse_tree_body_complete(rs: Seq<GitObjectRefView>)
    requires
        forall|i: int| 0 <= i < rs.len() ==> (#[trigger] rs[i]).wf(),
    ensures
        spec_parse_tree_body(spec_tree_body(rs)) == Some(rs),
    decreases rs.len(),
{
    let d = spec_tree_body(rs);
    if rs.len() == 0 {
        assert(rs =~= Seq::<GitObjectRefView>::empty());
    } else if rs.len() == 1 {
        lemma_parse_line_complete(rs[0]);
        assert(d == spec_line_of(rs[0]));
        lemma_find_byte_none(d, 10, 0);
        assert(spec_parse_tree_body(d) == Some(seq![rs[0]]));
        assert(seq![rs[0]] =~= rs);
    } else {
        let r = rs[0];
        let rest = rs.drop_first();
        assert(r.wf());
        assert forall|i: int| 0 <= i < rest.len() implies (#[trigger] rest[i]).wf() by {
            assert(rest[i] == rs[i + 1]);
        }
        lemma_parse_line_complete(r);
        lemma_parse_tree_body_complete(rest);
        lemma_tree_body_nonempty(rest);
        let l = spec_line_of(r);
        let nl = l.len() as int;
        assert(d == l + seq![10u8] + spec_tree_body(rest));
        assert(d[nl] == 10);
        assert forall|j: int| 0 <= j < nl implies d[j] != 10 by {
            assert(d[j] == l[j]);
        }
        lemma_find_byte_at(d, 10, 0, nl);
        assert(nl + 1 < d.len());
        assert(d.take(nl) =~= l);
        assert(d.skip(nl + 1) =~= spec_tree_body(rest));
        assert(seq![r] + rest =~= rs);
    }
}

/// For all valid encodings, decoding then encoding returns them unchanged:
/// whatever decodes is the canonical encoding of what it decodes to.
#[verifier::rlimit(100)]
#[verifier::spinoff_prover]
pub proof fn lemma_deserialize_sound(d: Seq<u8>)
    requires
        spec_deserialize(d) is Some,
    ensures
        ({
            let o = spec_deserialize(d)->0;
            o.wf() && spec_serialize(o) == d
        }),
{
    let o = spec_deserialize(d)->0;
    let z = find_byte(d, 0, 0);
    lemma_find_byte_props(d, 0, 0);
    let header = d.take(z);
    let body = d.skip(z + 1);
    let sp = find_byte(header, 32, 0);
    lemma_find_byte_props(header, 32, 0);
    let tag = header.take(sp);
    let lenstr = header.skip(sp + 1);
    assert(o.content() == body) by {
        if o is Tree {
            lemma_parse_tree_body_sound(body);
        }
    }
    if o is Tree {
        lemma_parse_tree_body_sound(body);
    }
    assert(tag_bytes(o.obj_type()) == tag);
    assert(spec_serialize(o) == tag + seq![32u8] + lenstr + seq![0u8] + body);
    assert(tag + seq![32u8] + lenstr =~= header) by {
        assert(header[sp] == 32);
        assert forall|j: int| 0 <= j < header.len() implies (tag + seq![32u8] + lenstr)[j]
            == header[j] by {
            if j < sp {
            } else if j == sp {
            } else {
                assert((tag + seq![32u8] + lenstr)[j] == lenstr[j - sp - 1]);
            }
        }
    }
    assert(tag + seq![32u8] + lenstr + seq![0u8] + body =~= header + seq![0u8] + body);
    assert(header + seq![0u8] + body =~= d) by {
        assert(d[z] == 0);
    }
}

/// For all well-formed objects, encoding then decoding is content-equal to
/// the object itself.
#[verifier::rlimit(100)]
#[verifier::spinoff_prover]
pub proof fn lemma_serialize_round_trip(o: GitObjectView)
    requires
        o.wf(),
    ensures
        spec_deserialize(spec_serialize(o)) == Some(o),
{
    let d = spec_serialize(o);
    let tag = tag_bytes(o.obj_type());
    let content = o.content();
    let md = dec_bytes(content.len() as int);
    lemma_dec_bytes_canon(content.len() as int);
    let z = 5 + md.len() as int;
    assert(d[z] == 0);
    assert forall|j: int| 0 <= j < z implies d[j] != 0 by {
        if j < 4 {
            assert(d[j] == tag[j]);
        } else if j == 4 {
            assert(d[j] == 32);
        } else {
            assert(d[j] == md[j - 5]);
            assert(48 <= md[j - 5] <= 57);
        }
    }
    lemma_find_byte_at(d, 0, 0, z);
    let header = d.take(z);
    let body = d.skip(z + 1);
    assert(header[4] == 32);
    assert forall|j: int| 0 <= j < 4 implies header[j] != 32 by {
        assert(header[j] == tag[j]);
    }
    lemma_find_byte_at(header, 32, 0, 4);
    assert(header.take(4) =~= tag);
    assert(body =~= content);
    assert(header.skip(5) =~= md);
    assert(tag_bytes(GitObjectType::Blob)[0] != tag_bytes(GitObjectType::Tree)[0]);
    assert(tag_bytes(GitObjectType::Blob) != tag_bytes(GitObjectType::Tree));
    match o {
        GitObjectView::Blob(c) => {
            assert(spec_deserialize(d) == Some(GitObjectView::Blob(body)));
            assert(body =~= c);
        },
        GitObjectView::Tree(rs) => {
            lemma_parse_tree_body_complete(rs);
        },
    }
}

} // verus!
