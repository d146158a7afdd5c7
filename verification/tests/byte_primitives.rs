//! The byte-level primitives under both codecs.

use rinit::bytes::{
    bytes_eq, copy_range, find_byte_from, lex_less, parse_dec_u32, push_be_u16, push_be_u32,
    push_dec_u64, read_be_u16, read_be_u32,
};

#[test]
fn big_endian_round_trip() {
    let mut out: Vec<u8> = Vec::new();
    push_be_u32(&mut out, 0x0102_03ff);
    assert_eq!(out, vec![1, 2, 3, 255]);
    assert_eq!(read_be_u32(out.as_slice(), 0), 0x0102_03ff);
    let mut out16: Vec<u8> = Vec::new();
    push_be_u16(&mut out16, 0xbeef);
    assert_eq!(out16, vec![0xbe, 0xef]);
    assert_eq!(read_be_u16(out16.as_slice(), 0), 0xbeef);
}

#[test]
fn decimal_rendering_is_canonical() {
    let mut out: Vec<u8> = Vec::new();
    push_dec_u64(&mut out, 0);
    assert_eq!(out, b"0".to_vec());
    let mut out2: Vec<u8> = Vec::new();
    push_dec_u64(&mut out2, 100644);
    assert_eq!(out2, b"100644".to_vec());
}

#[test]
fn decimal_parse_is_strict() {
    assert_eq!(parse_dec_u32(b"0"), Some(0));
    assert_eq!(parse_dec_u32(b"100644"), Some(100644));
    assert_eq!(parse_dec_u32(b"4294967295"), Some(u32::MAX));
    assert_eq!(parse_dec_u32(b"4294967296"), None);
    assert_eq!(parse_dec_u32(b""), None);
    assert_eq!(parse_dec_u32(b"007"), None);
    assert_eq!(parse_dec_u32(b"12a"), None);
}

#[test]
fn lexicographic_order_is_byte_wise() {
    assert!(lex_less(b"a.txt", b"b.txt"));
    assert!(!lex_less(b"b.txt", b"a.txt"));
    assert!(lex_less(b"a", b"a.txt"));
    assert!(!lex_less(b"a", b"a"));
    assert!(lex_less(b"", b"a"));
    assert!(lex_less(b"A", b"a"));
}

#[test]
fn byte_helpers_find_and_compare() {
    assert_eq!(find_byte_from(b"ab\0cd", 0, 0), Some(2));
    assert_eq!(find_byte_from(b"ab\0cd", 0, 3), None);
    assert!(bytes_eq(b"abc", b"abc"));
    assert!(!bytes_eq(b"abc", b"abd"));
    assert!(!bytes_eq(b"abc", b"ab"));
    assert_eq!(copy_range(b"hello", 1, 4), b"ell".to_vec());
}
