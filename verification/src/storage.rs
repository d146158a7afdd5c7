//! The repository store: path derivation under the working root, the plan
//! for persisting an object (its digest, its directory and file path, and
//! its compressed bytes), and the decoding of what was read back. The
//! filesystem itself stays with the caller, which performs exactly the reads
//! and writes these plans describe.

use vstd::prelude::*;
use crate::formats::{
    deserialization, lemma_serialize_round_trip, serialization, spec_deserialize, spec_serialize,
};
use crate::structs::git_index::{
    parse_git_index, spec_encode_index, spec_parse_index, write_git_index, GitIndex,
    IndexEntryView,
};
use crate::structs::git_object::{GitObject, GitObjectView};
use crate::utils::compress::{compress, decompress, unzlib_of, zlib_of};
use crate::utils::hash::{hex_digest, hex_digest_of};
use crate::GitError;

verus! {

/// The store rooted at a working directory. All paths below are derived
/// from it; path segments join with `/`.
pub struct Storage {
    pub working_root: String,
}

/// The repository directory under the working root.
pub open spec fn spec_root(root: Seq<char>) -> Seq<char> {
    root + "/.rinit"@
}

/// The object directory.
pub open spec fn spec_objects_path(root: Seq<char>) -> Seq<char> {
    spec_root(root) + "/objects"@
}

/// The reserved `info` placeholder directory.
pub open spec fn spec_info_path(root: Seq<char>) -> Seq<char> {
    spec_objects_path(root) + "/info"@
}

/// The reserved `pack` placeholder directory.
pub open spec fn spec_pack_path(root: Seq<char>) -> Seq<char> {
    spec_objects_path(root) + "/pack"@
}

/// The staging index file.
pub open spec fn spec_index_path(root: Seq<char>) -> Seq<char> {
    spec_root(root) + "/index"@
}

/// The directory an object with hex digest `h` is stored under: the first
/// two hex characters name the catalog.
pub open spec fn spec_object_dir(root: Seq<char>, h: Seq<char>) -> Seq<char> {
    spec_objects_path(root) + "/"@ + h.take(2)
}

/// The file an object with hex digest `h` is stored at: catalog directory,
/// then the remaining hex characters.
pub open spec fn spec_object_path(root: Seq<char>, h: Seq<char>) -> Seq<char> {
    spec_object_dir(root, h) + "/"@ + h.skip(2)
}

/// What stored object bytes decode to: decompress, then decode; a corrupt
/// stream or a malformed encoding is a format violation.
pub open spec fn spec_read_object(d: Seq<u8>) -> Option<GitObjectView> {
    match unzlib_of(d) {
        Some(raw) => spec_deserialize(raw),
        None => None,
    }
}

/// Everything a caller must write to persist one object: the object's hex
/// digest, the catalog directory to create, the file path, and the
/// compressed encoded bytes to put there.
pub struct ObjectWrite {
    pub hash: String,
    pub dir: String,
    pub path: String,
    pub data: Vec<u8>,
}

impl Storage {
    /// A store rooted at `path`.
    pub fn new(path: String) -> (r: Storage)
        ensures
            r.working_root@ == path@,
    {
        Storage { working_root: path }
    }

    /// The repository directory.
    pub fn root(&self) -> (r: String)
        ensures
            r@ == spec_root(self.working_root@),
    {
        let mut r = self.working_root.clone();
        r.append("/.rinit");
        r
    }

    /// The object directory.
    pub fn objects_path(&self) -> (r: String)
        ensures
            r@ == spec_objects_path(self.working_root@),
    {
        let mut r = self.root();
        r.append("/objects");
        r
    }

    /// The reserved `info` placeholder directory.
    pub fn info_path(&self) -> (r: String)
        ensures
            r@ == spec_info_path(self.working_root@),
    {
        let mut r = self.objects_path();
        r.append("/info");
        r
    }

    /// The reserved `pack` placeholder directory.
    pub fn pack_path(&self) -> (r: String)
        ensures
            r@ == spec_pack_path(self.working_root@),
    {
        let mut r = self.objects_path();
        r.append("/pack");
        r
    }

    /// The staging index file.
    pub fn index_path(&self) -> (r: String)
        ensures
            r@ == spec_index_path(self.working_root@),
    {
        let mut r = self.root();
        r.append("/index");
        r
    }

    /// The directory an object with hex digest `hash` is stored under.
    pub fn object_dir(&self, hash: &str) -> (r: String)
        requires
            hash@.len() >= 2,
            vstd::string::is_ascii(hash),
        ensures
            r@ == spec_object_dir(self.working_root@, hash@),
    {
        let catalog = hash.substring_ascii(0, 2);
        let mut r = self.objects_path();
        r.append("/");
        r.append(catalog);
        assert(catalog@ =~= hash@.take(2));
        r
    }

    /// The file an object with hex digest `hash` is stored at:
    /// `objects/<first 2 hex>/<remaining hex>`.
    pub fn object_path(&self, hash: &str) -> (r: String)
        requires
            hash@.len() >= 2,
            vstd::string::is_ascii(hash),
        ensures
            r@ == spec_object_path(self.working_root@, hash@),
    {
        let len = hash.unicode_len();
        let rest = hash.substring_ascii(2, len);
        let mut r = self.object_dir(hash);
        r.append("/");
        r.append(rest);
        assert(rest@ =~= hash@.skip(2));
        r
    }

    /// The directory skeleton `init` creates: the repository root and the
    /// two reserved placeholder directories (each created with its parents,
    /// so the object directory comes with them).
    pub fn init(&self) -> (r: Vec<String>)
        ensures
            r@.len() == 3,
            r@[0]@ == spec_root(self.working_root@),
            r@[1]@ == spec_info_path(self.working_root@),
            r@[2]@ == spec_pack_path(self.working_root@),
    {
        let mut dirs: Vec<String> = Vec::new();
        dirs.push(self.root());
        dirs.push(self.info_path());
        dirs.push(self.pack_path());
        dirs
    }

    /// Plans the persisting of one object: the digest and paths are
    /// functions of the object's value alone, so persisting the same object
    /// twice writes identical bytes to the identical path. The data
    /// decompresses back to exactly the canonical encoding.
    pub fn persist_object(&self, object: &GitObject) -> (r: ObjectWrite)
        ensures
            r.hash@ == hex_digest_of(spec_serialize(object@)),
            r.dir@ == spec_object_dir(self.working_root@, hex_digest_of(spec_serialize(object@))),
            r.path@ == spec_object_path(
                self.working_root@,
                hex_digest_of(spec_serialize(object@)),
            ),
            r.data@ == zlib_of(spec_serialize(object@)),
            unzlib_of(r.data@) == Some(spec_serialize(object@)),
    {
        let body = serialization::call(object);
        let hash = hex_digest(body.as_slice());
        proof {
            lemma_hex_digest_ascii(body@);
        }
        let dir = self.object_dir(hash.as_str());
        let path = self.object_path(hash.as_str());
        let data = compress(body.as_slice());
        ObjectWrite { hash, dir, path, data }
    }

    /// Decodes the bytes read from a stored object file: decompresses, then
    /// decodes. Fails with `FormatError` if either step does.
    pub fn read_object(&self, data: &[u8]) -> (r: Result<GitObject, GitError>)
        ensures
            match r {
                Ok(o) => spec_read_object(data@) == Some(o@),
                Err(e) => e == GitError::FormatError && spec_read_object(data@) is None,
            },
    {
        match decompress(data) {
            Some(raw) => deserialization::call(raw.as_slice()),
            None => Err(GitError::FormatError),
        }
    }

    /// Loads the staging index from the index file's bytes; absence of the
    /// file is not an error and yields the empty index.
    pub fn read_index(&self, data: Option<&Vec<u8>>) -> (r: Result<GitIndex, GitError>)
        ensures
            data is None ==> r is Ok && r->Ok_0@ == Seq::<IndexEntryView>::empty(),
            data matches Some(d) ==> match r {
                Ok(idx) => spec_parse_index(d@) == Some(idx@),
                Err(e) => e == GitError::FormatError && spec_parse_index(d@) is None,
            },
    {
        match data {
            None => Ok(GitIndex::empty()),
            Some(d) => parse_git_index(d.as_slice()),
        }
    }

    /// Encodes the staging index to the bytes of a whole index file; the
    /// caller overwrites the index file with exactly these bytes.
    pub fn save_index(&self, index: &GitIndex) -> (r: Vec<u8>)
        requires
            index@.len() <= u32::MAX,
        ensures
            r@ == spec_encode_index(index@),
    {
        write_git_index(index)
    }
}

/// A hex digest is ASCII text.
pub proof fn lemma_hex_digest_ascii(data: Seq<u8>)
    ensures
        vstd::utf8::is_ascii_chars(hex_digest_of(data)),
{
    crate::bytes::lemma_hex_bytes_props(crate::utils::hash::digest_of(data));
    assert forall|i: int|
        0 <= i < hex_digest_of(data).len() implies '\0' <= #[trigger] hex_digest_of(data)[i]
        <= '\u{7f}' by {
        let hb = crate::bytes::hex_bytes(crate::utils::hash::digest_of(data));
        assert(crate::bytes::is_hex_digit_byte(hb[i]));
        assert(hex_digest_of(data)[i] == hb[i] as char);
        let b = hb[i];
        assert(b < 128 && ('\0' as u8) == 0 && ('\u{7f}' as u8) == 127);
        assert('\0' <= (b as char) <= '\u{7f}');
    }
}

/// Persisting then reading back: any bytes that decompress to the canonical
/// encoding of a well-formed object decode to exactly that object. The path
/// and bytes persisted are functions of the object's value, so a second
/// persist of the same object writes the same file with the same content.
pub proof fn lemma_store_round_trip(o: GitObjectView, stored: Seq<u8>)
    requires
        o.wf(),
        unzlib_of(stored) == Some(spec_serialize(o)),
    ensures
        spec_read_object(stored) == Some(o),
{
    lemma_serialize_round_trip(o);
}

} // verus!
