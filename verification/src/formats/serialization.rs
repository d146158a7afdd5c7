//! Rendering an object into its canonical byte encoding.

use vstd::prelude::*;
use crate::bytes::push_dec_u64;
use crate::formats::spec_serialize;
use crate::structs::git_object::GitObject;

verus! {

/// Encodes an object as `"<type> <byte-length>\0<content-bytes>"`.
pub fn call(object: &GitObject) -> (r: Vec<u8>)
    ensures
        r@ == spec_serialize(object@),
{
    let content = object.content();
    let mut out: Vec<u8> = Vec::new();
    object.git_type().push_tag(&mut out);
    out.push(32);
    push_dec_u64(&mut out, content.len() as u64);
    out.push(0);
    out.extend_from_slice(content.as_slice());
    assert(out@ =~= spec_serialize(object@));
    out
}

} // verus!
