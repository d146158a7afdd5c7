//! Byte-level primitives shared by the object and index codecs: big-endian
//! fixed-width integers, canonical decimal renderings, lowercase hex, and
//! byte-wise lexicographic order on paths.

use vstd::prelude::*;

verus! {

// ---------------------------------------------------------------------------
// Big-endian fixed-width integers
// ---------------------------------------------------------------------------

/// The two big-endian bytes of a 16-bit value.
pub open spec fn be_u16_bytes(x: u16) -> Seq<u8> {
    seq![(x / 0x100) as u8, (x % 0x100) as u8]
}

/// The 16-bit value read big-endian from two bytes.
pub open spec fn be_u16_val(s: Seq<u8>) -> u16
    recommends
        s.len() == 2,
{
    (s[0] * 0x100 + s[1]) as u16
}

/// The four big-endian bytes of a 32-bit value.
pub open spec fn be_u32_bytes(x: u32) -> Seq<u8> {
    seq![
        (x / 0x100_0000) as u8,
        ((x / 0x1_0000) % 0x100) as u8,
        ((x / 0x100) % 0x100) as u8,
        (x % 0x100) as u8,
    ]
}

/// The 32-bit value read big-endian from four bytes.
pub open spec fn be_u32_val(s: Seq<u8>) -> u32
    recommends
        s.len() == 4,
{
    (s[0] * 0x100_0000 + s[1] * 0x1_0000 + s[2] * 0x100 + s[3]) as u32
}

/// Reading back the bytes of a value yields the value.
pub proof fn lemma_be_u16_val_of_bytes(x: u16)
    ensures
        be_u16_bytes(x).len() == 2,
        be_u16_val(be_u16_bytes(x)) == x,
{
    let a = (x / 0x100) as u8;
    let b = (x % 0x100) as u8;
    assert(a * 0x100 + b == x) by (bit_vector)
        requires
            a == (x / 0x100) as u8 && b == (x % 0x100) as u8,
    ;
}

/// Two bytes are exactly the rendering of the value read from them.
pub proof fn lemma_be_u16_bytes_of_val(s: Seq<u8>)
    requires
        s.len() == 2,
    ensures
        be_u16_bytes(be_u16_val(s)) =~= s,
{
    let a = s[0];
    let b = s[1];
    let x = (a * 0x100 + b) as u16;
    assert(x / 0x100 == a && x % 0x100 == b) by (bit_vector)
        requires
            x == (a * 0x100 + b) as u16,
    ;
}

/// Reading back the bytes of a value yields the value.
pub proof fn lemma_be_u32_val_of_bytes(x: u32)
    ensures
        be_u32_bytes(x).len() == 4,
        be_u32_val(be_u32_bytes(x)) == x,
{
    let a = (x / 0x100_0000) as u8;
    let b = ((x / 0x1_0000) % 0x100) as u8;
    let c = ((x / 0x100) % 0x100) as u8;
    let d = (x % 0x100) as u8;
    assert(a * 0x100_0000 + b * 0x1_0000 + c * 0x100 + d == x) by (bit_vector)
        requires
            a == (x / 0x100_0000) as u8 && b == ((x / 0x1_0000) % 0x100) as u8 && c == ((x
                / 0x100) % 0x100) as u8 && d == (x % 0x100) as u8,
    ;
}

/// Four bytes are exactly the rendering of the value read from them.
pub proof fn lemma_be_u32_bytes_of_val(s: Seq<u8>)
    requires
        s.len() == 4,
    ensures
        be_u32_bytes(be_u32_val(s)) =~= s,
{
    let a = s[0];
    let b = s[1];
    let c = s[2];
    let d = s[3];
    let x = (a * 0x100_0000 + b * 0x1_0000 + c * 0x100 + d) as u32;
    assert(x / 0x100_0000 == a && (x / 0x1_0000) % 0x100 == b && (x / 0x100) % 0x100 == c && x
        % 0x100 == d) by (bit_vector)
        requires
            x == (a * 0x100_0000 + b * 0x1_0000 + c * 0x100 + d) as u32,
    ;
}

/// Appends the big-endian bytes of `x` to `out`.
pub fn push_be_u32(out: &mut Vec<u8>, x: u32)
    ensures
        final(out)@ == old(out)@ + be_u32_bytes(x),
{
    out.push((x / 0x100_0000) as u8);
    out.push(((x / 0x1_0000) % 0x100) as u8);
    out.push(((x / 0x100) % 0x100) as u8);
    out.push((x % 0x100) as u8);
    assert(out@ =~= old(out)@ + be_u32_bytes(x));
}

/// Appends the big-endian bytes of `x` to `out`.
pub fn push_be_u16(out: &mut Vec<u8>, x: u16)
    ensures
        final(out)@ == old(out)@ + be_u16_bytes(x),
{
    out.push((x / 0x100) as u8);
    out.push((x % 0x100) as u8);
    assert(out@ =~= old(out)@ + be_u16_bytes(x));
}

/// Reads a big-endian 32-bit value at offset `off`.
pub fn read_be_u32(data: &[u8], off: usize) -> (r: u32)
    requires
        off + 4 <= data@.len(),
    ensures
        r == be_u32_val(data@.subrange(off as int, off as int + 4)),
{
    let b0 = data[off];
    let b1 = data[off + 1];
    let b2 = data[off + 2];
    let b3 = data[off + 3];
    let s = Ghost(data@.subrange(off as int, off as int + 4));
    assert(s@[0] == b0 && s@[1] == b1 && s@[2] == b2 && s@[3] == b3);
    (b0 as u32) * 0x100_0000 + (b1 as u32) * 0x1_0000 + (b2 as u32) * 0x100 + (b3 as u32)
}

// ---------------------------------------------------------------------------
// Canonical decimal renderings
// ---------------------------------------------------------------------------

/// Whether `b` is the code of a decimal digit.
pub open spec fn is_dec_digit(b: u8) -> bool {
    48 <= b <= 57
}

/// Whether every byte of `s` is a decimal digit.
pub open spec fn all_dec_digits(s: Seq<u8>) -> bool {
    forall|i: int| 0 <= i < s.len() ==> is_dec_digit(#[trigger] s[i])
}

/// The canonical decimal rendering of `n`: no sign, no leading zero.
pub open spec fn dec_bytes(n: int) -> Seq<u8>
    recommends
        n >= 0,
    decreases n,
{
    if n < 10 {
        seq![(48 + n) as u8]
    } else {
        dec_bytes(n / 10).push((48 + n % 10) as u8)
    }
}

/// The value of a digit string, most significant digit first.
pub open spec fn dec_val(s: Seq<u8>) -> int
    decreases s.len(),
{
    if s.len() == 0 {
        0
    } else {
        dec_val(s.drop_last()) * 10 + (s.last() - 48)
    }
}

/// Whether `s` is the canonical decimal rendering of some value: nonempty,
/// digits only, and no leading zero.
pub open spec fn is_canon_dec(s: Seq<u8>) -> bool {
    s.len() > 0 && all_dec_digits(s) && (s.len() > 1 ==> s[0] != 48)
}

/// A digit string's value is never negative.
pub proof fn lemma_dec_val_nonneg(s: Seq<u8>)
    requires
        all_dec_digits(s),
    ensures
        dec_val(s) >= 0,
    decreases s.len(),
{
    if s.len() > 0 {
        lemma_dec_val_nonneg(s.drop_last());
    }
}

/// A digit string that does not start with a zero has a positive value.
pub proof fn lemma_dec_val_pos(s: Seq<u8>)
    requires
        all_dec_digits(s),
        s.len() >= 1,
        s[0] != 48,
    ensures
        dec_val(s) >= 1,
    decreases s.len(),
{
    if s.len() == 1 {
        assert(s.drop_last() =~= Seq::<u8>::empty());
        assert(dec_val(Seq::<u8>::empty()) == 0);
        assert(is_dec_digit(s[0]));
        assert(dec_val(s) == s[0] - 48);
    } else {
        let p = s.drop_last();
        assert forall|i: int| 0 <= i < p.len() implies is_dec_digit(#[trigger] p[i]) by {
            assert(is_dec_digit(s[i]));
        }
        assert(p[0] == s[0]);
        lemma_dec_val_pos(p);
        assert(is_dec_digit(s.last()));
    }
}

/// A rendering holds at least one digit.
pub proof fn lemma_dec_bytes_nonempty(n: int)
    ensures
        dec_bytes(n).len() >= 1,
    decreases n,
{
    if n >= 10 {
        lemma_dec_bytes_nonempty(n / 10);
    }
}

/// The canonical rendering is canonical, and reads back to its value.
pub proof fn lemma_dec_bytes_canon(n: int)
    requires
        n >= 0,
    ensures
        is_canon_dec(dec_bytes(n)),
        dec_val(dec_bytes(n)) == n,
    decreases n,
{
    if n < 10 {
        let s = dec_bytes(n);
        assert(s =~= seq![(48 + n) as u8]);
        assert(s.drop_last() =~= Seq::<u8>::empty());
        assert(dec_val(Seq::<u8>::empty()) == 0);
        assert(dec_val(s) == s[0] - 48);
    } else {
        lemma_dec_bytes_canon(n / 10);
        let p = dec_bytes(n / 10);
        let s = p.push((48 + n % 10) as u8);
        assert(s.drop_last() =~= p);
        assert(dec_val(s) == dec_val(p) * 10 + (n % 10));
        vstd::arithmetic::div_mod::lemma_fundamental_div_mod(n, 10);
        if n / 10 < 10 {
            assert(n / 10 >= 1);
            assert(p =~= seq![(48 + n / 10) as u8]);
            assert(p[0] != 48);
        } else {
            lemma_dec_bytes_nonempty(n / 100);
            assert(p.len() >= 2);
        }
        assert forall|i: int| 0 <= i < s.len() implies is_dec_digit(#[trigger] s[i]) by {
            if i < p.len() {
                assert(is_dec_digit(p[i]));
            }
        }
        assert(s[0] == p[0]);
    }
}

/// A canonical digit string is the rendering of its own value.
pub proof fn lemma_canon_dec_bytes_of_val(s: Seq<u8>)
    requires
        is_canon_dec(s),
    ensures
        dec_val(s) >= 0,
        dec_bytes(dec_val(s)) =~= s,
    decreases s.len(),
{
    if s.len() == 1 {
        assert(s.drop_last() =~= Seq::<u8>::empty());
        assert(dec_val(Seq::<u8>::empty()) == 0);
        assert(is_dec_digit(s[0]));
        assert(dec_val(s) == s[0] - 48);
        assert(dec_bytes(dec_val(s)) =~= s);
    } else {
        let p = s.drop_last();
        assert(p[0] == s[0]);
        assert forall|i: int| 0 <= i < p.len() implies is_dec_digit(p[i]) by {
            assert(is_dec_digit(s[i]));
        }
        lemma_canon_dec_bytes_of_val(p);
        lemma_dec_val_pos(p);
        let d = (s.last() - 48) as int;
        let n = dec_val(s);
        assert(n == dec_val(p) * 10 + d);
        vstd::arithmetic::div_mod::lemma_fundamental_div_mod_converse(n, 10, dec_val(p), d);
        assert(n / 10 == dec_val(p) && n % 10 == d);
        assert(n >= 10);
        assert(dec_bytes(n) =~= s);
    }
}

/// Every byte of a prefix of digits contributes monotonically: the value of a
/// prefix never exceeds the value of the whole string.
pub proof fn lemma_dec_val_prefix_le(s: Seq<u8>, i: int)
    requires
        all_dec_digits(s),
        0 <= i <= s.len(),
    ensures
        dec_val(s.take(i)) <= dec_val(s),
    decreases s.len() - i,
{
    if i < s.len() {
        lemma_dec_val_prefix_le(s, i + 1);
        assert(s.take(i + 1).drop_last() =~= s.take(i));
        assert forall|j: int| 0 <= j < i implies is_dec_digit(s.take(i)[j]) by {
            assert(is_dec_digit(s[j]));
        }
        lemma_dec_val_nonneg(s.take(i));
        assert(dec_val(s.take(i + 1)) == dec_val(s.take(i)) * 10 + (s[i] - 48));
    } else {
        assert(s.take(i) =~= s);
    }
}

/// Appends the canonical decimal rendering of `n` to `out`.
pub fn push_dec_u64(out: &mut Vec<u8>, n: u64)
    ensures
        final(out)@ == old(out)@ + dec_bytes(n as int),
    decreases n,
{
    if n < 10 {
        out.push(48 + n as u8);
        assert(out@ =~= old(out)@ + dec_bytes(n as int));
    } else {
        push_dec_u64(out, n / 10);
        out.push(48 + (n % 10) as u8);
        assert(out@ =~= old(out)@ + dec_bytes(n as int));
    }
}

/// Parses a canonical decimal rendering into a 32-bit value. Returns `None`
/// unless `s` is canonical (nonempty, digits only, no leading zero) and its
/// value fits.
pub fn parse_dec_u32(s: &[u8]) -> (r: Option<u32>)
    ensures
        match r {
            Some(v) => is_canon_dec(s@) && dec_val(s@) == v,
            None => !(is_canon_dec(s@) && dec_val(s@) <= u32::MAX),
        },
{
    if s.len() == 0 {
        return None;
    }
    if s.len() > 1 && s[0] == 48 {
        return None;
    }
    let mut acc: u32 = 0;
    let mut i: usize = 0;
    while i < s.len()
        invariant
            0 <= i <= s@.len(),
            s@.len() >= 1,
            s@.len() > 1 ==> s@[0] != 48,
            all_dec_digits(s@.take(i as int)),
            acc == dec_val(s@.take(i as int)),
        decreases s@.len() - i,
    {
        let b = s[i];
        if b < 48 || b > 57 {
            assert(!all_dec_digits(s@));
            return None;
        }
        let d = (b - 48) as u32;
        proof {
            assert(s@.take(i as int + 1).drop_last() =~= s@.take(i as int));
            assert forall|j: int| 0 <= j < i + 1 implies is_dec_digit(
                #[trigger] s@.take(i as int + 1)[j],
            ) by {
                if j < i {
                    assert(is_dec_digit(s@.take(i as int)[j]));
                }
            }
            assert(dec_val(s@.take(i as int + 1)) == acc * 10 + d);
        }
        let limit = (u32::MAX - d) / 10;
        proof {
            vstd::arithmetic::div_mod::lemma_fundamental_div_mod((u32::MAX - d) as int, 10);
        }
        if acc > limit {
            proof {
                assert(acc * 10 + d > u32::MAX);
                if all_dec_digits(s@) {
                    lemma_dec_val_prefix_le(s@, i as int + 1);
                }
            }
            return None;
        }
        assert(acc * 10 + d <= u32::MAX);
        acc = acc * 10 + d;
        i = i + 1;
    }
    assert(s@.take(i as int) =~= s@);
    Some(acc)
}

// ---------------------------------------------------------------------------
// Lowercase hex renderings
// ---------------------------------------------------------------------------

/// The byte rendering a single hex digit, lowercase.
pub open spec fn hex_digit(d: int) -> u8
    recommends
        0 <= d < 16,
{
    if d < 10 {
        (48 + d) as u8
    } else {
        (87 + d) as u8
    }
}

/// The lowercase hex rendering of a byte string, two digits per byte.
pub open spec fn hex_bytes(b: Seq<u8>) -> Seq<u8>
    decreases b.len(),
{
    if b.len() == 0 {
        Seq::empty()
    } else {
        seq![hex_digit(b[0] as int / 16), hex_digit(b[0] as int % 16)] + hex_bytes(b.drop_first())
    }
}

/// Whether `b` renders a lowercase hex digit.
pub open spec fn is_hex_digit_byte(b: u8) -> bool {
    (48 <= b <= 57) || (97 <= b <= 102)
}

/// The hex rendering is two digits per byte, digits only.
pub proof fn lemma_hex_bytes_props(b: Seq<u8>)
    ensures
        hex_bytes(b).len() == 2 * b.len(),
        forall|i: int| 0 <= i < hex_bytes(b).len() ==> is_hex_digit_byte(#[trigger] hex_bytes(b)[i]),
    decreases b.len(),
{
    if b.len() > 0 {
        lemma_hex_bytes_props(b.drop_first());
    }
}

/// Rendering one more byte appends its two digits.
pub proof fn lemma_hex_bytes_push(b: Seq<u8>, x: u8)
    ensures
        hex_bytes(b.push(x)) =~= hex_bytes(b) + seq![hex_digit(x as int / 16), hex_digit(x as int % 16)],
    decreases b.len(),
{
    if b.len() == 0 {
        assert(b.push(x).drop_first() =~= Seq::<u8>::empty());
        assert(b.push(x)[0] == x);
        assert(hex_bytes(Seq::<u8>::empty()) == Seq::<u8>::empty());
        assert(b =~= Seq::<u8>::empty());
    } else {
        lemma_hex_bytes_push(b.drop_first(), x);
        assert(b.push(x).drop_first() =~= b.drop_first().push(x));
        assert(b.push(x)[0] == b[0]);
        assert(hex_bytes(b.push(x)) =~= seq![
            hex_digit(b[0] as int / 16),
            hex_digit(b[0] as int % 16),
        ] + hex_bytes(b.drop_first().push(x)));
        assert(hex_bytes(b) =~= seq![hex_digit(b[0] as int / 16), hex_digit(b[0] as int % 16)]
            + hex_bytes(b.drop_first()));
    }
}

/// Renders `data` as lowercase hex, two digits per byte.
pub fn hex_of(data: &[u8]) -> (r: Vec<u8>)
    ensures
        r@ == hex_bytes(data@),
{
    let mut out: Vec<u8> = Vec::new();
    let mut i: usize = 0;
    while i < data.len()
        invariant
            0 <= i <= data@.len(),
            out@ == hex_bytes(data@.take(i as int)),
        decreases data@.len() - i,
    {
        let b = data[i];
        let hi = b / 16;
        let lo = b % 16;
        out.push(if hi < 10 {
            48 + hi
        } else {
            87 + hi
        });
        out.push(if lo < 10 {
            48 + lo
        } else {
            87 + lo
        });
        proof {
            lemma_hex_bytes_push(data@.take(i as int), b);
            assert(data@.take(i as int).push(b) =~= data@.take(i as int + 1));
            assert(out@ =~= hex_bytes(data@.take(i as int + 1)));
        }
        i = i + 1;
    }
    assert(data@.take(i as int) =~= data@);
    out
}

/// Decodes a lowercase hex rendering back into its bytes. Succeeds exactly
/// on strings `hex_bytes` can produce: even length, lowercase hex digits.
pub fn hex_to_bytes(s: &[u8]) -> (r: Option<Vec<u8>>)
    ensures
        match r {
            Some(v) => s@ == hex_bytes(v@),
            None => forall|v: Seq<u8>| s@ != hex_bytes(v),
        },
{
    if s.len() % 2 != 0 {
        proof {
            assert forall|v: Seq<u8>| s@ != hex_bytes(v) by {
                lemma_hex_bytes_props(v);
            }
        }
        return None;
    }
    let mut out: Vec<u8> = Vec::new();
    let mut i: usize = 0;
    while i + 1 < s.len()
        invariant
            0 <= i <= s@.len(),
            i % 2 == 0,
            s@.len() % 2 == 0,
            out@.len() * 2 == i,
            hex_bytes(out@) == s@.take(i as int),
        decreases s@.len() - i,
    {
        let hi_b = s[i];
        let lo_b = s[i + 1];
        let hi: u8 = if 48 <= hi_b && hi_b <= 57 {
            hi_b - 48
        } else if 97 <= hi_b && hi_b <= 102 {
            hi_b - 87
        } else {
            proof {
                lemma_hex_no_decode(s@, i as int);
            }
            return None;
        };
        let lo: u8 = if 48 <= lo_b && lo_b <= 57 {
            lo_b - 48
        } else if 97 <= lo_b && lo_b <= 102 {
            lo_b - 87
        } else {
            proof {
                lemma_hex_no_decode(s@, i as int + 1);
            }
            return None;
        };
        let b = hi * 16 + lo;
        proof {
            vstd::arithmetic::div_mod::lemma_fundamental_div_mod_converse(
                b as int,
                16,
                hi as int,
                lo as int,
            );
            assert(hex_digit(b as int / 16) == hi_b && hex_digit(b as int % 16) == lo_b);
            lemma_hex_bytes_push(out@, b);
            assert(hex_bytes(out@.push(b)) =~= s@.take(i as int + 2));
        }
        out.push(b);
        i = i + 2;
    }
    assert(s@.take(i as int) =~= s@);
    Some(out)
}

/// A string with a non-hex-digit byte is no hex rendering.
proof fn lemma_hex_no_decode(s: Seq<u8>, i: int)
    requires
        0 <= i < s.len(),
        !is_hex_digit_byte(s[i]),
    ensures
        forall|v: Seq<u8>| s != hex_bytes(v),
{
    assert forall|v: Seq<u8>| s != hex_bytes(v) by {
        lemma_hex_bytes_props(v);
        if s == hex_bytes(v) {
            assert(is_hex_digit_byte(hex_bytes(v)[i]));
        }
    }
}

// ---------------------------------------------------------------------------
// ASCII bytes as text
// ---------------------------------------------------------------------------

/// The characters of an ASCII byte string, one per byte.
pub open spec fn ascii_chars(s: Seq<u8>) -> Seq<char> {
    Seq::new(s.len(), |i: int| s[i] as char)
}

// ---------------------------------------------------------------------------
// Byte-wise lexicographic order
// ---------------------------------------------------------------------------

/// Strict byte-wise lexicographic order.
pub open spec fn lex_lt(a: Seq<u8>, b: Seq<u8>) -> bool
    decreases a.len(),
{
    if b.len() == 0 {
        false
    } else if a.len() == 0 {
        true
    } else if a[0] < b[0] {
        true
    } else if a[0] > b[0] {
        false
    } else {
        lex_lt(a.drop_first(), b.drop_first())
    }
}

/// Dropping a common prefix does not change the order.
pub proof fn lemma_lex_lt_skip(a: Seq<u8>, b: Seq<u8>, i: int)
    requires
        0 <= i <= a.len(),
        i <= b.len(),
        forall|j: int| 0 <= j < i ==> a[j] == b[j],
    ensures
        lex_lt(a, b) == lex_lt(a.skip(i), b.skip(i)),
    decreases i,
{
    if i > 0 {
        lemma_lex_lt_skip(a.drop_first(), b.drop_first(), i - 1);
        assert(a.drop_first().skip(i - 1) =~= a.skip(i));
        assert(b.drop_first().skip(i - 1) =~= b.skip(i));
    } else {
        assert(a.skip(0) =~= a);
        assert(b.skip(0) =~= b);
    }
}

/// Two strings that neither precedes are equal.
pub proof fn lemma_lex_connex(a: Seq<u8>, b: Seq<u8>)
    requires
        !lex_lt(a, b),
        !lex_lt(b, a),
    ensures
        a == b,
    decreases a.len(),
{
    if a.len() == 0 || b.len() == 0 {
        assert(a =~= b);
    } else {
        lemma_lex_connex(a.drop_first(), b.drop_first());
        assert(a =~= seq![a[0]] + a.drop_first());
        assert(b =~= seq![b[0]] + b.drop_first());
    }
}

/// The order is asymmetric.
pub proof fn lemma_lex_asym(a: Seq<u8>, b: Seq<u8>)
    requires
        lex_lt(a, b),
    ensures
        !lex_lt(b, a),
        a != b,
    decreases a.len(),
{
    if a.len() > 0 && b.len() > 0 && a[0] == b[0] {
        lemma_lex_asym(a.drop_first(), b.drop_first());
        assert(a =~= seq![a[0]] + a.drop_first());
        assert(b =~= seq![b[0]] + b.drop_first());
        if (a.drop_first() =~= b.drop_first()) {
            assert(a == b);
        }
    } else {
        if a == b {
            assert(lex_lt(a, a) == lex_lt(a.drop_first(), a.drop_first()));
        }
    }
}

/// The order is transitive.
pub proof fn lemma_lex_trans(a: Seq<u8>, b: Seq<u8>, c: Seq<u8>)
    requires
        lex_lt(a, b),
        lex_lt(b, c),
    ensures
        lex_lt(a, c),
    decreases a.len() + b.len() + c.len(),
{
    if b.len() == 0 {
    } else if a.len() == 0 {
    } else if c.len() == 0 {
    } else {
        if a[0] == b[0] && b[0] == c[0] {
            lemma_lex_trans(a.drop_first(), b.drop_first(), c.drop_first());
        }
    }
}

/// Compares two byte strings in lexicographic order.
pub fn lex_less(a: &[u8], b: &[u8]) -> (r: bool)
    ensures
        r == lex_lt(a@, b@),
{
    let mut i: usize = 0;
    loop
        invariant
            0 <= i <= a@.len(),
            i <= b@.len(),
            forall|j: int| 0 <= j < i ==> a@[j] == b@[j],
        decreases a@.len() - i,
    {
        proof {
            lemma_lex_lt_skip(a@, b@, i as int);
        }
        if i >= b.len() {
            assert(b@.skip(i as int).len() == 0);
            return false;
        }
        if i >= a.len() {
            assert(a@.skip(i as int).len() == 0 && b@.skip(i as int).len() > 0);
            return true;
        }
        assert(a@.skip(i as int)[0] == a@[i as int] && b@.skip(i as int)[0] == b@[i as int]);
        if a[i] < b[i] {
            return true;
        }
        if a[i] > b[i] {
            return false;
        }
        i = i + 1;
    }
}

/// Compares two byte strings for equality.
pub fn bytes_eq(a: &[u8], b: &[u8]) -> (r: bool)
    ensures
        r == (a@ == b@),
{
    if a.len() != b.len() {
        return false;
    }
    let mut i: usize = 0;
    while i < a.len()
        invariant
            0 <= i <= a@.len(),
            a@.len() == b@.len(),
            forall|j: int| 0 <= j < i ==> a@[j] == b@[j],
        decreases a@.len() - i,
    {
        if a[i] != b[i] {
            return false;
        }
        i = i + 1;
    }
    assert(a@ =~= b@);
    true
}

/// Copies the bytes of `data` between `a` and `b` into a fresh vector.
pub fn copy_range(data: &[u8], a: usize, b: usize) -> (r: Vec<u8>)
    requires
        a <= b <= data@.len(),
    ensures
        r@ == data@.subrange(a as int, b as int),
{
    let mut out: Vec<u8> = Vec::new();
    let mut i: usize = a;
    while i < b
        invariant
            a <= i <= b <= data@.len(),
            out@ == data@.subrange(a as int, i as int),
        decreases b - i,
    {
        out.push(data[i]);
        assert(out@ =~= data@.subrange(a as int, i as int + 1));
        i = i + 1;
    }
    out
}

// ---------------------------------------------------------------------------
// Locating a byte
// ---------------------------------------------------------------------------

/// The least index `>= from` holding `t`, or `-1` if there is none.
pub open spec fn find_byte(d: Seq<u8>, t: u8, from: int) -> int
    decreases d.len() - from,
{
    if from < 0 || from >= d.len() {
        -1
    } else if d[from] == t {
        from
    } else {
        find_byte(d, t, from + 1)
    }
}

/// What a successful or failed search says of the string.
pub proof fn lemma_find_byte_props(d: Seq<u8>, t: u8, from: int)
    requires
        0 <= from <= d.len(),
    ensures
        find_byte(d, t, from) >= -1,
        find_byte(d, t, from) == -1 ==> (forall|j: int| from <= j < d.len() ==> d[j] != t),
        find_byte(d, t, from) >= 0 ==> from <= find_byte(d, t, from) < d.len() && d[find_byte(
            d,
            t,
            from,
        )] == t && (forall|j: int| from <= j < find_byte(d, t, from) ==> d[j] != t),
    decreases d.len() - from,
{
    if from < d.len() && d[from] != t {
        lemma_find_byte_props(d, t, from + 1);
    }
}

/// A byte at `p` with none of its kind before it is the one found.
pub proof fn lemma_find_byte_at(d: Seq<u8>, t: u8, from: int, p: int)
    requires
        0 <= from <= p < d.len(),
        d[p] == t,
        forall|j: int| from <= j < p ==> d[j] != t,
    ensures
        find_byte(d, t, from) == p,
    decreases p - from,
{
    if from < p {
        lemma_find_byte_at(d, t, from + 1, p);
    }
}

/// A string without the byte yields a failed search.
pub proof fn lemma_find_byte_none(d: Seq<u8>, t: u8, from: int)
    requires
        0 <= from <= d.len(),
        forall|j: int| from <= j < d.len() ==> d[j] != t,
    ensures
        find_byte(d, t, from) == -1,
    decreases d.len() - from,
{
    if from < d.len() {
        lemma_find_byte_none(d, t, from + 1);
    }
}

/// Finds the least index `>= from` holding `t`.
pub fn find_byte_from(data: &[u8], t: u8, from: usize) -> (r: Option<usize>)
    requires
        from <= data@.len(),
    ensures
        match r {
            Some(i) => from <= i < data@.len() && find_byte(data@, t, from as int) == i,
            None => find_byte(data@, t, from as int) == -1,
        },
{
    let mut i: usize = from;
    while i < data.len()
        invariant
            from <= i <= data@.len(),
            forall|j: int| from <= j < i ==> data@[j] != t,
        decreases data@.len() - i,
    {
        if data[i] == t {
            proof {
                lemma_find_byte_at(data@, t, from as int, i as int);
            }
            return Some(i);
        }
        i = i + 1;
    }
    proof {
        lemma_find_byte_none(data@, t, from as int);
    }
    None
}

/// Reads a big-endian 16-bit value at offset `off`.
pub fn read_be_u16(data: &[u8], off: usize) -> (r: u16)
    requires
        off + 2 <= data@.len(),
    ensures
        r == be_u16_val(data@.subrange(off as int, off as int + 2)),
{
    let b0 = data[off];
    let b1 = data[off + 1];
    let s = Ghost(data@.subrange(off as int, off as int + 2));
    assert(s@[0] == b0 && s@[1] == b1);
    (b0 as u16) * 0x100 + (b1 as u16)
}

} // verus!
