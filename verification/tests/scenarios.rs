//! End-to-end command scenarios: hash-object, update-index, write-tree.

use sha2::Digest;
use rinit::bytes::{hex_of, hex_to_bytes};
use rinit::commands::update_index;
use rinit::commands::UpdateIndexArgs;
use rinit::formats::serialization;
use rinit::storage::Storage;
use rinit::structs::git_blob::GitBlob;
use rinit::structs::git_index::{GitIndex, GitIndexEntry};
use rinit::structs::git_object::GitObject;
use rinit::structs::git_tree::GitTree;

/// The reference hex digest of `data`: the first 20 bytes of its SHA-256
/// digest, rendered lowercase hex, computed with the hashing crate directly.
fn reference_hex(data: &[u8]) -> String {
    let raw = sha2::Sha256::digest(data).to_vec()[..20].to_vec();
    String::from_utf8(hex_of(raw.as_slice())).unwrap()
}

fn cacheinfo_entry(mode: u32, hex_digest: &str, path: &[u8]) -> GitIndexEntry {
    let raw = hex_to_bytes(hex_digest.as_bytes()).unwrap();
    GitIndexEntry::new(0, 0, 0, 0, 0, 0, mode, 0, 0, 0, raw, path.to_vec())
}

/// `init`, then `hash-object -w` on input "hello\n": the stored blob
/// encoding, its digest, and reading it back.
#[test]
fn scenario_hash_object_stores_and_reads_back() {
    let storage = Storage::new(".".to_string());

    let dirs = storage.init();
    assert_eq!(dirs.len(), 3);

    let blob = GitObject::Blob(GitBlob::new(b"hello\n".to_vec()));
    assert_eq!(serialization::call(&blob), b"blob 6\0hello\n".to_vec());

    let write = storage.persist_object(&blob);
    assert_eq!(write.hash, reference_hex(b"blob 6\0hello\n"));
    assert_eq!(write.hash, blob.hash());
    assert!(write.path.ends_with(&write.hash[2..]));
    assert!(write.dir.ends_with(&write.hash[..2]));

    // cat-file -p on that digest: the boundary reads the file at the stored
    // path and hands its bytes back
    let read = storage.read_object(write.data.as_slice()).unwrap();
    assert_eq!(read.content(), b"hello\n".to_vec());
}

/// `update-index --add --cacheinfo 100644 <digest> a.txt`, then
/// `write-tree`: the tree's content and its own digest.
#[test]
fn scenario_write_tree_of_one_entry() {
    let storage = Storage::new(".".to_string());
    let digest = "2f781156939ad540b2434d012446154321e41e03";

    let mut index = storage.read_index(None).unwrap();
    let args = UpdateIndexArgs {
        add: true,
        cacheinfo: true,
        mode: Some(100644),
        sha1: Some(digest.to_string()),
        path: Some("a.txt".to_string()),
    };
    let entry = cacheinfo_entry(args.mode.unwrap(), digest, b"a.txt");
    let saved = update_index::call(&mut index, entry, &args);
    assert!(saved);

    let tree = GitObject::Tree(GitTree::from_index(&index));
    let expected = format!("100644 blob {} a.txt", digest);
    assert_eq!(tree.content(), expected.as_bytes().to_vec());

    let encoded = serialization::call(&tree);
    let mut header = format!("tree {}\0", expected.len()).into_bytes();
    header.extend_from_slice(expected.as_bytes());
    assert_eq!(encoded, header);
    assert_eq!(tree.hash(), reference_hex(encoded.as_slice()));
}

/// Entries for "b.txt" then "a.txt" added in that order: the written tree
/// lists "a.txt" first.
#[test]
fn scenario_write_tree_lists_paths_sorted() {
    let digest_b = "00000000000000000000000000000000000000bb";
    let digest_a = "00000000000000000000000000000000000000aa";
    let mut index = GitIndex::empty();
    index.add_entry(cacheinfo_entry(100644, digest_b, b"b.txt"));
    index.add_entry(cacheinfo_entry(100644, digest_a, b"a.txt"));

    let tree = GitTree::from_index(&index);
    let content = tree.content();
    let expected = format!(
        "100644 blob {} a.txt\n100644 blob {} b.txt",
        digest_a, digest_b
    );
    assert_eq!(content, expected.into_bytes());
}

/// Without `--add`, update-index leaves the index alone and asks for no
/// rewrite.
#[test]
fn update_index_without_add_changes_nothing() {
    let digest = "2f781156939ad540b2434d012446154321e41e03";
    let mut index = GitIndex::empty();
    let args = UpdateIndexArgs {
        add: false,
        cacheinfo: true,
        mode: Some(100644),
        sha1: Some(digest.to_string()),
        path: Some("a.txt".to_string()),
    };
    let entry = cacheinfo_entry(args.mode.unwrap(), digest, b"a.txt");
    let saved = update_index::call(&mut index, entry, &args);
    assert!(!saved);
    assert_eq!(index.entries.len(), 0);
}

/// Staging the same path twice keeps one entry with the latest digest, and
/// the tree reflects it.
#[test]
fn restaging_a_path_updates_the_tree() {
    let old = "00000000000000000000000000000000000000aa";
    let new = "00000000000000000000000000000000000000bb";
    let mut index = GitIndex::empty();
    index.add_entry(cacheinfo_entry(100644, old, b"a.txt"));
    index.add_entry(cacheinfo_entry(100644, new, b"a.txt"));
    let tree = GitTree::from_index(&index);
    let expected = format!("100644 blob {} a.txt", new);
    assert_eq!(tree.content(), expected.into_bytes());
}
