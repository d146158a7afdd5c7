//! The staging index: the DIRC wire format, strict validation, and the
//! sorted-unique aggregate.

use rinit::structs::flags::Flags;
use rinit::structs::git_index::{parse_git_index, write_git_index, GitIndex, GitIndexEntry};
use rinit::GitError;

fn entry(path: &[u8], mtime: u32) -> GitIndexEntry {
    GitIndexEntry::new(
        1000,
        1,
        mtime,
        2,
        3,
        4,
        100644,
        501,
        20,
        6,
        vec![7u8; 20],
        path.to_vec(),
    )
}

#[test]
fn index_encode_then_decode_keeps_entries() {
    let mut index = GitIndex::empty();
    index.add_entry(entry(b"a.txt", 11));
    index.add_entry(entry(b"b.txt", 22));
    let bytes = write_git_index(&index);
    let back = parse_git_index(bytes.as_slice()).unwrap();
    assert_eq!(back.entries.len(), 2);
    assert_eq!(back.entries[0].path, b"a.txt".to_vec());
    assert_eq!(back.entries[0].mtime_seconds, 11);
    assert_eq!(back.entries[0].hash, vec![7u8; 20]);
    assert_eq!(back.entries[1].path, b"b.txt".to_vec());
    assert_eq!(back.entries[1].mtime_seconds, 22);
}

#[test]
fn index_decode_then_encode_is_identity() {
    let mut index = GitIndex::empty();
    index.add_entry(entry(b"src/main.rs", 9));
    let bytes = write_git_index(&index);
    let back = parse_git_index(bytes.as_slice()).unwrap();
    assert_eq!(write_git_index(&back), bytes);
}

#[test]
fn empty_index_is_header_only() {
    let index = GitIndex::empty();
    let bytes = write_git_index(&index);
    assert_eq!(bytes, b"DIRC\x00\x00\x00\x02\x00\x00\x00\x00".to_vec());
    let back = parse_git_index(bytes.as_slice()).unwrap();
    assert_eq!(back.entries.len(), 0);
}

#[test]
fn decode_rejects_bad_magic() {
    let mut index = GitIndex::empty();
    index.add_entry(entry(b"a.txt", 1));
    let mut bytes = write_git_index(&index);
    bytes[0] = b'X';
    assert!(matches!(
        parse_git_index(bytes.as_slice()),
        Err(GitError::FormatError)
    ));
}

#[test]
fn decode_rejects_bad_version() {
    let mut bytes = write_git_index(&GitIndex::empty());
    bytes[7] = 3;
    assert!(matches!(
        parse_git_index(bytes.as_slice()),
        Err(GitError::FormatError)
    ));
}

#[test]
fn decode_rejects_extended_flag() {
    let mut index = GitIndex::empty();
    index.add_entry(entry(b"a.txt", 1));
    let mut bytes = write_git_index(&index);
    // the flags sit after the header and the ten 4-byte fields and the hash
    let flags_at = 12 + 40 + 20;
    bytes[flags_at] |= 0x40;
    assert!(matches!(
        parse_git_index(bytes.as_slice()),
        Err(GitError::FormatError)
    ));
}

#[test]
fn decode_rejects_truncated_record() {
    let mut index = GitIndex::empty();
    index.add_entry(entry(b"a.txt", 1));
    let bytes = write_git_index(&index);
    assert!(matches!(
        parse_git_index(&bytes[..bytes.len() - 1]),
        Err(GitError::FormatError)
    ));
}

#[test]
fn decode_rejects_trailing_bytes() {
    let mut bytes = write_git_index(&GitIndex::empty());
    bytes.push(0);
    assert!(matches!(
        parse_git_index(bytes.as_slice()),
        Err(GitError::FormatError)
    ));
}

#[test]
fn add_entry_replaces_same_path() {
    let mut index = GitIndex::empty();
    index.add_entry(entry(b"a.txt", 1));
    index.add_entry(entry(b"a.txt", 2));
    assert_eq!(index.entries.len(), 1);
    assert_eq!(index.entries[0].mtime_seconds, 2);
}

#[test]
fn add_entry_keeps_sorted_order() {
    let mut index = GitIndex::empty();
    index.add_entry(entry(b"b.txt", 1));
    index.add_entry(entry(b"a.txt", 2));
    index.add_entry(entry(b"c.txt", 3));
    assert_eq!(index.entries[0].path, b"a.txt".to_vec());
    assert_eq!(index.entries[1].path, b"b.txt".to_vec());
    assert_eq!(index.entries[2].path, b"c.txt".to_vec());
    assert!(index.is_sorted());
}

#[test]
fn is_sorted_detects_disorder() {
    let index = GitIndex {
        entries: vec![entry(b"b.txt", 1), entry(b"a.txt", 2)],
    };
    assert!(!index.is_sorted());
    let dup = GitIndex {
        entries: vec![entry(b"a.txt", 1), entry(b"a.txt", 2)],
    };
    assert!(!dup.is_sorted());
}

#[test]
fn entry_new_sets_path_length_hint() {
    let e = entry(b"a.txt", 1);
    assert_eq!(e.flags.as_u16(), 5);
    assert_eq!(e.flags.path_len_hint(), 5);
    assert_eq!(e.flags.stage(), 0);
    assert!(!e.flags.is_extended());
}

#[test]
fn flags_round_trip_bits() {
    let f = Flags::from_bits_retain(0x9abc);
    assert_eq!(f.as_u16(), 0x9abc);
    assert_eq!(f.to_memory().as_u16(), 0x9abc);
    assert!(f.is_extended() == false);
    let x = Flags::from_bits_retain(0x4000);
    assert!(x.is_extended());
    assert_eq!(Flags::empty().as_u16(), 0);
    assert_eq!(Flags::from_bits_retain(0x3456).stage(), 0x3000);
    assert_eq!(Flags::from_bits_retain(0x3456).path_len_hint(), 0x0456);
}

#[test]
fn persist_encodes_like_write_git_index() {
    let mut index = GitIndex::empty();
    index.add_entry(entry(b"a.txt", 1));
    assert_eq!(index.persist(), write_git_index(&index));
}

#[test]
fn parse_entry_path_reads_to_the_terminator() {
    let (path, next) = rinit::structs::git_index::parse_entry_path(b"xxa.txt\0rest", 2).unwrap();
    assert_eq!(path, b"a.txt".to_vec());
    assert_eq!(next, 8);
    assert!(rinit::structs::git_index::parse_entry_path(b"no terminator", 0).is_err());
}

#[test]
fn write_entry_path_appends_the_terminator() {
    let mut out: Vec<u8> = b"x".to_vec();
    rinit::structs::git_index::write_entry_path(&mut out, b"a.txt");
    assert_eq!(out, b"xa.txt\0".to_vec());
}
