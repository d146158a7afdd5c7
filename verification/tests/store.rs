//! The object store plans: paths derived from digests, persist/read round
//! trips through real compression and hashing, and the digest engine.

use sha2::Digest;
use rinit::bytes::{hex_of, hex_to_bytes};
use rinit::storage::Storage;
use rinit::structs::git_blob::GitBlob;
use rinit::structs::git_object::GitObject;
use rinit::utils::hash::{digest, hex_digest};
use rinit::GitError;

/// The reference digest: the first 20 bytes of SHA-256, computed directly
/// with the hashing crate, bypassing the library.
fn reference_digest(data: &[u8]) -> Vec<u8> {
    sha2::Sha256::digest(data).to_vec()[..20].to_vec()
}

#[test]
fn digest_matches_reference_implementation() {
    let d = digest(b"hello\n");
    assert_eq!(d, reference_digest(b"hello\n"));
    assert_eq!(d.len(), 20);
}

#[test]
fn digest_is_deterministic_and_spreads() {
    assert_eq!(digest(b"abc"), digest(b"abc"));
    assert_ne!(digest(b"abc"), digest(b"abd"));
    assert_ne!(digest(b""), digest(b"\0"));
}

#[test]
fn hex_digest_is_lowercase_hex_of_digest() {
    let h = hex_digest(b"hello\n");
    assert_eq!(h.len(), 40);
    assert_eq!(h.as_bytes().to_vec(), hex_of(&reference_digest(b"hello\n")));
    assert!(h
        .bytes()
        .all(|b| (b'0'..=b'9').contains(&b) || (b'a'..=b'f').contains(&b)));
}

#[test]
fn hex_round_trip() {
    let bytes = vec![0u8, 255, 16, 1, 0xab];
    let hex = hex_of(bytes.as_slice());
    assert_eq!(hex, b"00ff1001ab".to_vec());
    assert_eq!(hex_to_bytes(hex.as_slice()), Some(bytes));
    assert_eq!(hex_to_bytes(b"0"), None);
    assert_eq!(hex_to_bytes(b"0G"), None);
    assert_eq!(hex_to_bytes(b"AB"), None);
}

#[test]
fn storage_paths_join_under_the_root() {
    let s = Storage::new("/work".to_string());
    assert_eq!(s.root(), "/work/.rinit".to_string());
    assert_eq!(s.objects_path(), "/work/.rinit/objects".to_string());
    assert_eq!(s.info_path(), "/work/.rinit/objects/info".to_string());
    assert_eq!(s.pack_path(), "/work/.rinit/objects/pack".to_string());
    assert_eq!(s.index_path(), "/work/.rinit/index".to_string());
    assert_eq!(
        s.object_path("2f781156939ad540b2434d012446154321e41e03"),
        "/work/.rinit/objects/2f/781156939ad540b2434d012446154321e41e03".to_string()
    );
}

#[test]
fn init_lists_the_skeleton() {
    let s = Storage::new(".".to_string());
    let dirs = s.init();
    assert_eq!(
        dirs,
        vec![
            "./.rinit".to_string(),
            "./.rinit/objects/info".to_string(),
            "./.rinit/objects/pack".to_string(),
        ]
    );
}

#[test]
fn persist_then_read_returns_equivalent_object() {
    let s = Storage::new(".".to_string());
    let blob = GitObject::Blob(GitBlob::new(b"hello\n".to_vec()));
    let write = s.persist_object(&blob);
    let read = s.read_object(write.data.as_slice()).unwrap();
    assert_eq!(read.content(), b"hello\n".to_vec());
    match read {
        GitObject::Blob(_) => {}
        GitObject::Tree(_) => panic!("expected a blob"),
    }
}

#[test]
fn persist_twice_writes_one_path_with_identical_bytes() {
    let s = Storage::new(".".to_string());
    let first = s.persist_object(&GitObject::Blob(GitBlob::new(b"hello\n".to_vec())));
    let second = s.persist_object(&GitObject::Blob(GitBlob::new(b"hello\n".to_vec())));
    assert_eq!(first.path, second.path);
    assert_eq!(first.data, second.data);
    assert_eq!(first.hash, second.hash);
}

#[test]
fn persist_compresses_the_encoding() {
    let s = Storage::new(".".to_string());
    let write = s.persist_object(&GitObject::Blob(GitBlob::new(b"hello\n".to_vec())));
    // the stored bytes are a zlib stream, not the raw encoding
    assert_ne!(write.data, b"blob 6\0hello\n".to_vec());
    assert_eq!(write.data[0], 0x78);
}

#[test]
fn read_object_rejects_garbage() {
    let s = Storage::new(".".to_string());
    assert!(matches!(
        s.read_object(b"not a zlib stream"),
        Err(GitError::FormatError)
    ));
}

#[test]
fn read_index_of_absent_file_is_empty() {
    let s = Storage::new(".".to_string());
    let idx = s.read_index(None).unwrap();
    assert_eq!(idx.entries.len(), 0);
}

#[test]
fn read_index_decodes_bytes() {
    let s = Storage::new(".".to_string());
    let mut index = rinit::structs::git_index::GitIndex::empty();
    index.add_entry(rinit::structs::git_index::GitIndexEntry::new(
        1,
        2,
        3,
        4,
        5,
        6,
        100644,
        7,
        8,
        9,
        vec![1u8; 20],
        b"a.txt".to_vec(),
    ));
    let bytes = s.save_index(&index);
    let back = s.read_index(Some(&bytes)).unwrap();
    assert_eq!(back.entries.len(), 1);
    assert_eq!(back.entries[0].path, b"a.txt".to_vec());
}
