//! The content digest used for addressing everywhere: one algorithm, one
//! fixed 20-byte width, rendered lowercase hex, applied uniformly.

use sha2::Digest;
use vstd::prelude::*;
use crate::bytes::{ascii_chars, hex_bytes, hex_of, lemma_hex_bytes_props};
use vstd::string::StringSliceAdditionalSpecFns;

verus! {

/// The 32-byte SHA-256 digest of a byte string, named: it is a function of
/// the input alone, the same in every process and on every machine.
pub uninterp spec fn sha_of(data: Seq<u8>) -> Seq<u8>;

/// The fixed-width content digest this engine addresses by: the first 20
/// bytes of the SHA-256 digest.
pub open spec fn digest_of(data: Seq<u8>) -> Seq<u8> {
    sha_of(data).take(20)
}

/// The lowercase hex rendering of a digest, as text.
pub open spec fn hex_digest_of(data: Seq<u8>) -> Seq<char> {
    ascii_chars(hex_bytes(digest_of(data)))
}

/// Relies on sha2's `Sha256::digest`: the SHA-256 digest of the input, 32
/// bytes, a pure function of the input bytes alone.
#[verifier::external_body]
fn sha256(data: &[u8]) -> (r: Vec<u8>)
    ensures
        r@ == sha_of(data@),
        r@.len() == 32,
{
    sha2::Sha256::digest(data).to_vec()
}

/// Relies on `String::from_utf8`: bytes below 128 decode to the characters
/// with the same codes.
#[verifier::external_body]
fn ascii_string(v: Vec<u8>) -> (r: String)
    requires
        forall|i: int| 0 <= i < v@.len() ==> v@[i] < 128,
    ensures
        r@ == ascii_chars(v@),
{
    String::from_utf8(v).unwrap()
}

/// The raw 20-byte content digest of `data`. Equal bytes yield equal
/// digests: the result is a function of the bytes alone.
pub fn digest(data: &[u8]) -> (r: Vec<u8>)
    ensures
        r@ == digest_of(data@),
        r@.len() == 20,
{
    let mut v = sha256(data);
    v.truncate(20);
    assert(v@ =~= digest_of(data@));
    v
}

/// The digest of `data` rendered as 40 lowercase hex characters.
pub fn hex_digest(data: &[u8]) -> (r: String)
    ensures
        r@ == hex_digest_of(data@),
        r@.len() == 40,
{
    let raw = digest(data);
    let hex = hex_of(raw.as_slice());
    proof {
        lemma_hex_bytes_props(raw@);
        assert forall|i: int| 0 <= i < hex@.len() implies hex@[i] < 128 by {
            assert(crate::bytes::is_hex_digit_byte(hex_bytes(raw@)[i]));
        }
    }
    ascii_string(hex)
}

/// The digest of a text's UTF-8 bytes, rendered as 40 lowercase hex
/// characters.
pub fn from_string(content: &str) -> (r: String)
    ensures
        r@ == hex_digest_of(content.spec_bytes()),
        r@.len() == 40,
{
    hex_digest(content.as_bytes())
}

/// The digest is deterministic: equal byte strings have equal digests.
pub proof fn lemma_digest_deterministic(a: Seq<u8>, b: Seq<u8>)
    requires
        a == b,
    ensures
        digest_of(a) == digest_of(b),
{
}

} // verus!
