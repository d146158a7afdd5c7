//! A blob object: raw file content as an immutably-owned byte buffer.

use vstd::prelude::*;

verus! {

/// Raw file content. Its canonical encoding, digest and storage path are
/// derived by the object codec and the store; the blob itself is only the
/// bytes.
#[derive(Debug)]
pub struct GitBlob {
    pub content: Vec<u8>,
}

impl View for GitBlob {
    type V = Seq<u8>;

    open spec fn view(&self) -> Seq<u8> {
        self.content@
    }
}

impl GitBlob {
    /// Wraps content bytes as a blob.
    pub fn new(content: Vec<u8>) -> (r: GitBlob)
        ensures
            r@ == content@,
    {
        GitBlob { content }
    }
}

} // verus!
