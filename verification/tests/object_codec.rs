//! The object codec: canonical encoding, strict decoding, round trips.

use rinit::formats::{deserialization, object_ref, serialization, tree};
use rinit::structs::git_blob::GitBlob;
use rinit::structs::git_object::GitObject;
use rinit::structs::git_tree::{GitObjectRef, GitTree};
use rinit::structs::GitObjectType;
use rinit::GitError;

#[test]
fn blob_encodes_with_header_and_length() {
    let blob = GitObject::Blob(GitBlob::new(b"hello\n".to_vec()));
    let encoded = serialization::call(&blob);
    assert_eq!(encoded, b"blob 6\0hello\n".to_vec());
}

#[test]
fn empty_blob_encodes_with_zero_length() {
    let blob = GitObject::Blob(GitBlob::new(Vec::new()));
    assert_eq!(serialization::call(&blob), b"blob 0\0".to_vec());
}

#[test]
fn blob_decode_returns_content() {
    let decoded = deserialization::call(b"blob 6\0hello\n").unwrap();
    match decoded {
        GitObject::Blob(b) => assert_eq!(b.content, b"hello\n".to_vec()),
        GitObject::Tree(_) => panic!("expected a blob"),
    }
    assert_eq!(
        deserialization::call(b"blob 6\0hello\n").unwrap().content(),
        b"hello\n".to_vec()
    );
}

#[test]
fn decode_then_encode_is_identity() {
    let bytes = b"tree 28\0100644 blob 2f78115693 a.txt".to_vec();
    let decoded = deserialization::call(bytes.as_slice()).unwrap();
    assert_eq!(serialization::call(&decoded), bytes);
}

#[test]
fn encode_then_decode_is_content_equal() {
    let r = GitObjectRef {
        permissions: 100644,
        ref_type: GitObjectType::Blob,
        hash: b"2f781156939ad540b2434d012446154321e41e03".to_vec(),
        content: b"example_file.txt".to_vec(),
    };
    let tree = GitObject::Tree(GitTree::new(vec![r]));
    let encoded = serialization::call(&tree);
    let decoded = deserialization::call(encoded.as_slice()).unwrap();
    assert_eq!(decoded.content(), tree.content());
    assert_eq!(serialization::call(&decoded), encoded);
}

#[test]
fn decode_rejects_missing_nul() {
    assert!(matches!(
        deserialization::call(b"blob 6 hello!"),
        Err(GitError::FormatError)
    ));
}

#[test]
fn decode_rejects_unknown_type() {
    assert!(matches!(
        deserialization::call(b"blub 6\0hello\n"),
        Err(GitError::FormatError)
    ));
}

#[test]
fn decode_rejects_length_mismatch() {
    assert!(matches!(
        deserialization::call(b"blob 5\0hello\n"),
        Err(GitError::FormatError)
    ));
    assert!(matches!(
        deserialization::call(b"blob 7\0hello\n"),
        Err(GitError::FormatError)
    ));
}

#[test]
fn decode_rejects_padded_length() {
    // the declared length must be canonical decimal, no leading zero
    assert!(matches!(
        deserialization::call(b"blob 06\0hello\n"),
        Err(GitError::FormatError)
    ));
}

#[test]
fn tree_parse_reads_one_line() {
    let t = tree::parse(b"100644 blob 2f781156939ad540 example_file.txt").unwrap();
    assert_eq!(t.refs.len(), 1);
    assert_eq!(t.refs[0].permissions, 100644);
    assert_eq!(t.refs[0].ref_type, GitObjectType::Blob);
    assert_eq!(t.refs[0].hash, b"2f781156939ad540".to_vec());
    assert_eq!(t.refs[0].content, b"example_file.txt".to_vec());
}

#[test]
fn tree_parse_reads_two_lines() {
    let t = tree::parse(b"100644 blob aa a.txt\n100755 tree bb b.txt").unwrap();
    assert_eq!(t.refs.len(), 2);
    assert_eq!(t.refs[1].permissions, 100755);
    assert_eq!(t.refs[1].ref_type, GitObjectType::Tree);
}

#[test]
fn tree_parse_rejects_trailing_newline() {
    assert!(tree::parse(b"100644 blob aa a.txt\n").is_err());
}

#[test]
fn object_ref_parse_rejects_bad_lines() {
    assert!(object_ref::parse(b"100644 blob aa").is_err());
    assert!(object_ref::parse(b"100644 blob aa a b").is_err());
    assert!(object_ref::parse(b"0644 blob aa a.txt").is_err());
    assert!(object_ref::parse(b"65mode blob aa a.txt").is_err());
    assert!(object_ref::parse(b"100644 blip aa a.txt").is_err());
    assert!(object_ref::parse(b"4294967296 blob aa a.txt").is_err());
}

#[test]
fn object_ref_line_round_trip() {
    let r = object_ref::parse(b"100644 blob abcd a.txt").unwrap();
    assert_eq!(r.as_line(), b"100644 blob abcd a.txt".to_vec());
}

#[test]
fn git_object_type_parse_recognizes_tags() {
    assert_eq!(GitObjectType::parse(b"blob"), Some(GitObjectType::Blob));
    assert_eq!(GitObjectType::parse(b"tree"), Some(GitObjectType::Tree));
    assert_eq!(GitObjectType::parse(b"bush"), None);
    assert_eq!(GitObjectType::parse(b"blobs"), None);
}

#[test]
fn type_strings_name_the_tags() {
    let blob = GitObject::Blob(GitBlob::new(Vec::new()));
    assert_eq!(blob.type_string(), "blob".to_string());
    let tree = GitObject::Tree(GitTree::new(Vec::new()));
    assert_eq!(tree.type_string(), "tree".to_string());
}
