//! The staging index: an ordered sequence of entries, unique by path, kept
//! sorted by byte-wise comparison of paths so that downstream tree
//! construction is deterministic.

use vstd::prelude::*;
use crate::bytes::{be_u16_bytes, be_u16_val, be_u32_bytes, be_u32_val, bytes_eq, find_byte, lemma_be_u16_bytes_of_val, lemma_be_u16_val_of_bytes, lemma_be_u32_bytes_of_val, lemma_be_u32_val_of_bytes, lemma_find_byte_at, lemma_find_byte_none, lemma_find_byte_props, lemma_lex_asym, lemma_lex_connex, lemma_lex_trans, lex_less, lex_lt};
use crate::structs::flags::Flags;
use crate::bytes::{copy_range, find_byte_from, push_be_u16, push_be_u32, read_be_u16, read_be_u32};
use crate::GitError;

verus! {

/// A staged file record, exactly the fields of the wire format.
#[derive(Debug)]
pub struct GitIndexEntry {
    pub ctime_seconds: u32,
    pub ctime_nanoseconds: u32,
    pub mtime_seconds: u32,
    pub mtime_nanoseconds: u32,
    pub dev: u32,
    pub ino: u32,
    pub mode: u32,
    pub uid: u32,
    pub gid: u32,
    pub size: u32,
    pub hash: Vec<u8>,
    pub flags: Flags,
    pub path: Vec<u8>,
}

/// The mathematical value of an index entry.
#[verifier::ext_equal]
pub struct IndexEntryView {
    pub ctime_seconds: u32,
    pub ctime_nanoseconds: u32,
    pub mtime_seconds: u32,
    pub mtime_nanoseconds: u32,
    pub dev: u32,
    pub ino: u32,
    pub mode: u32,
    pub uid: u32,
    pub gid: u32,
    pub size: u32,
    pub hash: Seq<u8>,
    pub flags: u16,
    pub path: Seq<u8>,
}

impl View for GitIndexEntry {
    type V = IndexEntryView;

    open spec fn view(&self) -> IndexEntryView {
        IndexEntryView {
            ctime_seconds: self.ctime_seconds,
            ctime_nanoseconds: self.ctime_nanoseconds,
            mtime_seconds: self.mtime_seconds,
            mtime_nanoseconds: self.mtime_nanoseconds,
            dev: self.dev,
            ino: self.ino,
            mode: self.mode,
            uid: self.uid,
            gid: self.gid,
            size: self.size,
            hash: self.hash@,
            flags: self.flags.bits,
            path: self.path@,
        }
    }
}

impl IndexEntryView {
    /// An entry the wire format can carry and read back: a 20-byte raw
    /// digest, a path free of NUL, and the unsupported extended bit clear.
    pub open spec fn wf(self) -> bool {
        self.hash.len() == 20 && (forall|i: int|
            0 <= i < self.path.len() ==> #[trigger] self.path[i] != 0) && self.flags & 0x4000 == 0
    }
}

impl GitIndexEntry {
    /// Builds an entry from its fields. The flags hold the path-length hint
    /// in their low twelve bits, as the wire format prescribes.
    pub fn new(
        ctime_seconds: u32,
        ctime_nanoseconds: u32,
        mtime_seconds: u32,
        mtime_nanoseconds: u32,
        dev: u32,
        ino: u32,
        mode: u32,
        uid: u32,
        gid: u32,
        size: u32,
        hash: Vec<u8>,
        path: Vec<u8>,
    ) -> (r: GitIndexEntry)
        requires
            hash@.len() == 20,
            forall|i: int| 0 <= i < path@.len() ==> #[trigger] path@[i] != 0,
        ensures
            r@.wf(),
            r@.ctime_seconds == ctime_seconds,
            r@.ctime_nanoseconds == ctime_nanoseconds,
            r@.mtime_seconds == mtime_seconds,
            r@.mtime_nanoseconds == mtime_nanoseconds,
            r@.dev == dev,
            r@.ino == ino,
            r@.mode == mode,
            r@.uid == uid,
            r@.gid == gid,
            r@.size == size,
            r@.hash == hash@,
            r@.path == path@,
            r@.flags == (path@.len() as u16) & 0x0fff,
    {
        let plen: usize = path.len();
        let len_hint: u16 = if plen <= 0x0fff {
            plen as u16
        } else {
            (plen % 0x1000) as u16
        };
        let flags = Flags::from_bits_retain(len_hint & 0x0fff);
        proof {
            assert((if plen <= 0x0fff {
                plen as u16
            } else {
                (plen % 0x1000) as u16
            }) & 0x0fff == (plen as u16) & 0x0fff) by (bit_vector);
            assert(((plen as u16) & 0x0fff) & 0x4000 == 0) by (bit_vector);
            assert((plen as u16) == (path@.len() as u16));
        }
        GitIndexEntry {
            ctime_seconds,
            ctime_nanoseconds,
            mtime_seconds,
            mtime_nanoseconds,
            dev,
            ino,
            mode,
            uid,
            gid,
            size,
            hash,
            flags,
            path,
        }
    }
}

/// Entries in strictly increasing byte-wise path order; strictness makes
/// paths unique.
pub open spec fn entries_sorted(s: Seq<IndexEntryView>) -> bool {
    forall|i: int, j: int| 0 <= i < j < s.len() ==> lex_lt(#[trigger] s[i].path, #[trigger] s[j].path)
}

/// Every entry fit for the wire format.
pub open spec fn entries_wf(s: Seq<IndexEntryView>) -> bool {
    forall|i: int| 0 <= i < s.len() ==> (#[trigger] s[i]).wf()
}

/// Where a new entry lands: before the first entry whose path is not less
/// than its own, replacing it if the paths are equal.
pub open spec fn spec_add_entry(s: Seq<IndexEntryView>, e: IndexEntryView) -> Seq<IndexEntryView>
    decreases s.len(),
{
    if s.len() == 0 {
        seq![e]
    } else if lex_lt(s[0].path, e.path) {
        seq![s[0]] + spec_add_entry(s.drop_first(), e)
    } else if s[0].path == e.path {
        seq![e] + s.drop_first()
    } else {
        seq![e] + s
    }
}

/// The result of an insertion, characterized by the insertion point: the
/// first position whose entry's path is not below the new path.
pub proof fn lemma_spec_add_entry_at(s: Seq<IndexEntryView>, e: IndexEntryView, i: int)
    requires
        0 <= i <= s.len(),
        forall|j: int| 0 <= j < i ==> lex_lt(#[trigger] s[j].path, e.path),
        i < s.len() ==> !lex_lt(s[i].path, e.path),
    ensures
        spec_add_entry(s, e) == if i < s.len() && s[i].path == e.path {
            s.update(i, e)
        } else {
            s.take(i) + seq![e] + s.skip(i)
        },
    decreases i,
{
    if i == 0 {
        if s.len() == 0 {
            assert(spec_add_entry(s, e) =~= s.take(0) + seq![e] + s.skip(0));
        } else if s[0].path == e.path {
            assert(spec_add_entry(s, e) =~= s.update(0, e));
        } else {
            assert(spec_add_entry(s, e) =~= s.take(0) + seq![e] + s.skip(0));
        }
    } else {
        let t = s.drop_first();
        assert forall|j: int| 0 <= j < i - 1 implies lex_lt(#[trigger] t[j].path, e.path) by {
            assert(lex_lt(s[j + 1].path, e.path));
        }
        assert(i - 1 < t.len() ==> !lex_lt(t[i - 1].path, e.path));
        lemma_spec_add_entry_at(t, e, i - 1);
        assert(lex_lt(s[0].path, e.path));
        if i < s.len() && s[i].path == e.path {
            assert(t[i - 1] == s[i]);
            assert(spec_add_entry(s, e) =~= s.update(i, e));
        } else {
            assert(spec_add_entry(s, e) =~= s.take(i) + seq![e] + s.skip(i));
        }
    }
}

/// The staging index aggregate.
#[derive(Debug)]
pub struct GitIndex {
    pub entries: Vec<GitIndexEntry>,
}

impl View for GitIndex {
    type V = Seq<IndexEntryView>;

    open spec fn view(&self) -> Seq<IndexEntryView> {
        self.entries@.map_values(|e: GitIndexEntry| e@)
    }
}

impl GitIndex {
    /// The empty index.
    pub fn empty() -> (r: GitIndex)
        ensures
            r@ == Seq::<IndexEntryView>::empty(),
            entries_sorted(r@),
    {
        let r = GitIndex { entries: Vec::new() };
        assert(r@ =~= Seq::<IndexEntryView>::empty());
        r
    }

    /// Adds a staged entry, keeping the index sorted and unique by path: an
    /// entry for an existing path replaces it in place; a new path is
    /// inserted preserving sort order.
    pub fn add_entry(&mut self, entry: GitIndexEntry)
        requires
            entries_sorted(old(self)@),
        ensures
            final(self)@ == spec_add_entry(old(self)@, entry@),
            entries_sorted(final(self)@),
    {
        let ghost s = self@;
        let ghost e = entry@;
        let n = self.entries.len();
        assert(s.len() == n);
        let mut i: usize = 0;
        while i < n && lex_less(self.entries[i].path.as_slice(), entry.path.as_slice())
            invariant
                0 <= i <= n,
                n == self.entries@.len(),
                self@ == s,
                e == entry@,
                self.entries@.len() == s.len(),
                forall|j: int| 0 <= j < s.len() ==> s[j] == #[trigger] self.entries@[j]@,
                forall|j: int| 0 <= j < i ==> lex_lt(#[trigger] s[j].path, e.path),
            decreases n - i,
        {
            i = i + 1;
        }
        assert(i < s.len() ==> !lex_lt(s[i as int].path, e.path));
        proof {
            lemma_spec_add_entry_at(s, e, i as int);
        }
        if i < n && bytes_eq(self.entries[i].path.as_slice(), entry.path.as_slice()) {
            assert(s[i as int].path == e.path);
            self.entries[i] = entry;
            assert(self@ =~= s.update(i as int, e));
            proof {
                lemma_add_preserves_sorted_update(s, e, i as int);
            }
        } else {
            proof {
                if i < s.len() {
                    lemma_lex_connex_not_eq(s[i as int].path, e.path);
                }
            }
            self.entries.insert(i, entry);
            assert(self@ =~= s.take(i as int) + seq![e] + s.skip(i as int));
            proof {
                lemma_add_preserves_sorted_insert(s, e, i as int);
            }
        }
    }
}

/// Two unequal paths that the first does not precede are preceded by it.
proof fn lemma_lex_connex_not_eq(a: Seq<u8>, b: Seq<u8>)
    requires
        !lex_lt(a, b),
        a != b,
    ensures
        lex_lt(b, a),
{
    if !lex_lt(b, a) {
        lemma_lex_connex(a, b);
    }
}

/// Replacing the entry at the insertion point keeps the index sorted.
proof fn lemma_add_preserves_sorted_update(s: Seq<IndexEntryView>, e: IndexEntryView, i: int)
    requires
        entries_sorted(s),
        0 <= i < s.len(),
        s[i].path == e.path,
    ensures
        entries_sorted(s.update(i, e)),
{
    let t = s.update(i, e);
    assert forall|p: int, q: int| 0 <= p < q < t.len() implies lex_lt(
        #[trigger] t[p].path,
        #[trigger] t[q].path,
    ) by {
        assert(lex_lt(s[p].path, s[q].path));
    }
}

/// Inserting at the insertion point keeps the index sorted.
proof fn lemma_add_preserves_sorted_insert(s: Seq<IndexEntryView>, e: IndexEntryView, i: int)
    requires
        entries_sorted(s),
        0 <= i <= s.len(),
        forall|j: int| 0 <= j < i ==> lex_lt(#[trigger] s[j].path, e.path),
        i < s.len() ==> lex_lt(e.path, s[i].path),
    ensures
        entries_sorted(s.take(i) + seq![e] + s.skip(i)),
{
    let t = s.take(i) + seq![e] + s.skip(i);
    assert(t.len() == s.len() + 1);
    assert forall|p: int, q: int| 0 <= p < q < t.len() implies lex_lt(
        #[trigger] t[p].path,
        #[trigger] t[q].path,
    ) by {
        if p < i {
            assert(t[p] == s[p]);
        } else if p == i {
            assert(t[p] == e);
        } else {
            assert(t[p] == s[p - 1]);
        }
        if q < i {
            assert(t[q] == s[q]);
        } else if q == i {
            assert(t[q] == e);
        } else {
            assert(t[q] == s[q - 1]);
        }
        if p < i && q == i {
            assert(lex_lt(t[p].path, t[q].path));
        } else if p == i && q > i {
            if i < s.len() {
                if q - 1 == i {
                    assert(lex_lt(e.path, s[i].path));
                } else {
                    lemma_lex_trans(e.path, s[i].path, s[q - 1].path);
                }
            }
        } else if p < i && q > i {
            assert(lex_lt(s[p].path, s[q - 1].path));
        } else if p < i && q < i {
            assert(lex_lt(s[p].path, s[q].path));
        } else {
            assert(p > i && q > i);
            assert(lex_lt(s[p - 1].path, s[q - 1].path));
        }
    }
}

/// Adding an entry puts it in the index, and nothing else holds its path:
/// two additions for one path leave exactly the most recent entry.
pub proof fn lemma_add_entry_unique_path(s: Seq<IndexEntryView>, e: IndexEntryView)
    ensures
        exists|i: int| 0 <= i < spec_add_entry(s, e).len() && spec_add_entry(s, e)[i] == e,
    decreases s.len(),
{
    let t = spec_add_entry(s, e);
    if s.len() == 0 {
        assert(t[0] == e);
    } else if lex_lt(s[0].path, e.path) {
        lemma_add_entry_unique_path(s.drop_first(), e);
        let u = spec_add_entry(s.drop_first(), e);
        let i = choose|i: int| 0 <= i < u.len() && u[i] == e;
        assert(t[i + 1] == e);
    } else {
        assert(t[0] == e);
    }
}

/// In a sorted index, at most one entry holds any given path.
pub proof fn lemma_sorted_paths_unique(s: Seq<IndexEntryView>, i: int, j: int)
    requires
        entries_sorted(s),
        0 <= i < s.len(),
        0 <= j < s.len(),
        s[i].path == s[j].path,
    ensures
        i == j,
{
    if i < j {
        lemma_lex_asym(s[i].path, s[j].path);
    } else if j < i {
        lemma_lex_asym(s[j].path, s[i].path);
    }
}

/// Adding twice under one path is adding the most recent entry once.
pub proof fn lemma_add_entry_replaces(
    s: Seq<IndexEntryView>,
    e1: IndexEntryView,
    e2: IndexEntryView,
)
    requires
        e1.path == e2.path,
    ensures
        spec_add_entry(spec_add_entry(s, e1), e2) == spec_add_entry(s, e2),
    decreases s.len(),
{
    lemma_lex_irreflexive(e1.path);
    if s.len() == 0 {
        let t = spec_add_entry(s, e1);
        assert(t == seq![e1]);
        assert(t[0] == e1);
        assert(spec_add_entry(t, e2) =~= seq![e2]);
        assert(spec_add_entry(s, e2) =~= seq![e2]);
    } else if lex_lt(s[0].path, e1.path) {
        lemma_add_entry_replaces(s.drop_first(), e1, e2);
        let t = spec_add_entry(s, e1);
        assert(t =~= seq![s[0]] + spec_add_entry(s.drop_first(), e1));
        assert(t[0] == s[0]);
        assert(t.drop_first() =~= spec_add_entry(s.drop_first(), e1));
        assert(spec_add_entry(t, e2) =~= seq![s[0]] + spec_add_entry(t.drop_first(), e2));
        assert(spec_add_entry(s, e2) =~= seq![s[0]] + spec_add_entry(s.drop_first(), e2));
    } else if s[0].path == e1.path {
        let t = spec_add_entry(s, e1);
        assert(t =~= seq![e1] + s.drop_first());
        assert(t[0] == e1);
        assert(t.drop_first() =~= s.drop_first());
        assert(spec_add_entry(t, e2) =~= seq![e2] + s.drop_first());
        assert(spec_add_entry(s, e2) =~= seq![e2] + s.drop_first());
    } else {
        let t = spec_add_entry(s, e1);
        assert(t =~= seq![e1] + s);
        assert(t[0] == e1);
        assert(t.drop_first() =~= s);
        assert(spec_add_entry(t, e2) =~= seq![e2] + s);
        assert(spec_add_entry(s, e2) =~= seq![e2] + s);
    }
}

/// No path precedes itself.
pub proof fn lemma_lex_irreflexive(a: Seq<u8>)
    ensures
        !lex_lt(a, a),
{
    if lex_lt(a, a) {
        lemma_lex_asym(a, a);
    }
}

// ---------------------------------------------------------------------------
// The binary index file format, big-endian throughout: 4-byte magic "DIRC",
// 4-byte version (2), 4-byte entry count, then per entry ten 4-byte fields,
// 20 raw hash bytes, 2 flag bytes, and a NUL-terminated path.
// ---------------------------------------------------------------------------

/// The magic identifying a valid index file: "DIRC".
pub open spec fn index_magic() -> Seq<u8> {
    seq![68u8, 73u8, 82u8, 67u8]
}

/// The index file version this format carries.
pub const INDEX_VERSION: u32 = 2;

/// The ten fixed 4-byte fields of one entry, in wire order.
pub open spec fn spec_entry_fields(e: IndexEntryView) -> Seq<u8> {
    be_u32_bytes(e.ctime_seconds) + be_u32_bytes(e.ctime_nanoseconds) + be_u32_bytes(
        e.mtime_seconds,
    ) + be_u32_bytes(e.mtime_nanoseconds) + be_u32_bytes(e.dev) + be_u32_bytes(e.ino)
        + be_u32_bytes(e.mode) + be_u32_bytes(e.uid) + be_u32_bytes(e.gid) + be_u32_bytes(e.size)
}

/// The wire bytes of one entry: the ten fields, the raw hash, the flags, and
/// the NUL-terminated path.
pub open spec fn spec_encode_entry(e: IndexEntryView) -> Seq<u8> {
    spec_entry_fields(e) + e.hash + be_u16_bytes(e.flags) + e.path + seq![0u8]
}

/// Where each field sits inside the fixed 40-byte block.
#[verifier::rlimit(100)]
proof fn lemma_entry_fields_parts(e: IndexEntryView)
    ensures
        spec_entry_fields(e).len() == 40,
        spec_entry_fields(e).subrange(0, 4) =~= be_u32_bytes(e.ctime_seconds),
        spec_entry_fields(e).subrange(4, 8) =~= be_u32_bytes(e.ctime_nanoseconds),
        spec_entry_fields(e).subrange(8, 12) =~= be_u32_bytes(e.mtime_seconds),
        spec_entry_fields(e).subrange(12, 16) =~= be_u32_bytes(e.mtime_nanoseconds),
        spec_entry_fields(e).subrange(16, 20) =~= be_u32_bytes(e.dev),
        spec_entry_fields(e).subrange(20, 24) =~= be_u32_bytes(e.ino),
        spec_entry_fields(e).subrange(24, 28) =~= be_u32_bytes(e.mode),
        spec_entry_fields(e).subrange(28, 32) =~= be_u32_bytes(e.uid),
        spec_entry_fields(e).subrange(32, 36) =~= be_u32_bytes(e.gid),
        spec_entry_fields(e).subrange(36, 40) =~= be_u32_bytes(e.size),
{
}

/// The wire bytes of a run of entries, in order.
pub open spec fn spec_encode_entries(s: Seq<IndexEntryView>) -> Seq<u8>
    decreases s.len(),
{
    if s.len() == 0 {
        Seq::empty()
    } else {
        spec_encode_entry(s[0]) + spec_encode_entries(s.drop_first())
    }
}

/// The wire bytes of a whole index file.
pub open spec fn spec_encode_index(s: Seq<IndexEntryView>) -> Seq<u8> {
    index_magic() + be_u32_bytes(INDEX_VERSION) + be_u32_bytes(s.len() as u32)
        + spec_encode_entries(s)
}

/// Reads one entry from the head of `d`: its value and how many bytes it
/// took. Refuses a truncated record, an extended entry, and a record whose
/// path never ends.
pub open spec fn spec_parse_entry(d: Seq<u8>) -> Option<(IndexEntryView, int)> {
    if d.len() < 62 {
        None
    } else {
        let flags = be_u16_val(d.subrange(60, 62));
        if flags & 0x4000 != 0 {
            None
        } else {
            let p = find_byte(d, 0, 62);
            if p < 0 {
                None
            } else {
                Some(
                    (
                        IndexEntryView {
                            ctime_seconds: be_u32_val(d.subrange(0, 4)),
                            ctime_nanoseconds: be_u32_val(d.subrange(4, 8)),
                            mtime_seconds: be_u32_val(d.subrange(8, 12)),
                            mtime_nanoseconds: be_u32_val(d.subrange(12, 16)),
                            dev: be_u32_val(d.subrange(16, 20)),
                            ino: be_u32_val(d.subrange(20, 24)),
                            mode: be_u32_val(d.subrange(24, 28)),
                            uid: be_u32_val(d.subrange(28, 32)),
                            gid: be_u32_val(d.subrange(32, 36)),
                            size: be_u32_val(d.subrange(36, 40)),
                            hash: d.subrange(40, 60),
                            flags,
                            path: d.subrange(62, p),
                        },
                        p + 1,
                    ),
                )
            }
        }
    }
}

/// Reads exactly `n` entries consuming all of `d`; trailing bytes are a
/// format violation.
pub open spec fn spec_parse_entries(d: Seq<u8>, n: int) -> Option<Seq<IndexEntryView>>
    decreases n,
{
    if n <= 0 {
        if d.len() == 0 {
            Some(Seq::empty())
        } else {
            None
        }
    } else {
        match spec_parse_entry(d) {
            None => None,
            Some((e, k)) => match spec_parse_entries(d.skip(k), n - 1) {
                None => None,
                Some(rest) => Some(seq![e] + rest),
            },
        }
    }
}

/// Reads a whole index file: magic and version validated exactly, then the
/// declared number of records.
pub open spec fn spec_parse_index(d: Seq<u8>) -> Option<Seq<IndexEntryView>> {
    if d.len() < 12 {
        None
    } else if d.subrange(0, 4) != index_magic() {
        None
    } else if be_u32_val(d.subrange(4, 8)) != INDEX_VERSION {
        None
    } else {
        spec_parse_entries(d.skip(12), be_u32_val(d.subrange(8, 12)) as int)
    }
}

/// A parsed entry re-encodes to exactly the bytes it was read from.
#[verifier::rlimit(100)]
pub proof fn lemma_parse_entry_sound(d: Seq<u8>)
    requires
        spec_parse_entry(d) is Some,
    ensures
        ({
            let (e, k) = spec_parse_entry(d)->0;
            63 <= k <= d.len() && e.wf() && spec_encode_entry(e) == d.take(k)
                && spec_encode_entry(e).len() == k
        }),
{
    let (e, k) = spec_parse_entry(d)->0;
    let p = find_byte(d, 0, 62);
    lemma_find_byte_props(d, 0, 62);
    assert(62 <= p < d.len() && d[p] == 0);
    assert forall|i: int| 0 <= i < e.path.len() implies #[trigger] e.path[i] != 0 by {
        assert(e.path[i] == d[62 + i]);
    }
    lemma_be_u32_bytes_of_val(d.subrange(0, 4));
    lemma_be_u32_bytes_of_val(d.subrange(4, 8));
    lemma_be_u32_bytes_of_val(d.subrange(8, 12));
    lemma_be_u32_bytes_of_val(d.subrange(12, 16));
    lemma_be_u32_bytes_of_val(d.subrange(16, 20));
    lemma_be_u32_bytes_of_val(d.subrange(20, 24));
    lemma_be_u32_bytes_of_val(d.subrange(24, 28));
    lemma_be_u32_bytes_of_val(d.subrange(28, 32));
    lemma_be_u32_bytes_of_val(d.subrange(32, 36));
    lemma_be_u32_bytes_of_val(d.subrange(36, 40));
    lemma_be_u16_bytes_of_val(d.subrange(60, 62));
    lemma_entry_fields_parts(e);
    assert(spec_entry_fields(e) == d.subrange(0, 4) + d.subrange(4, 8) + d.subrange(8, 12)
        + d.subrange(12, 16) + d.subrange(16, 20) + d.subrange(20, 24) + d.subrange(24, 28)
        + d.subrange(28, 32) + d.subrange(32, 36) + d.subrange(36, 40));
    assert(d.subrange(0, 4) + d.subrange(4, 8) + d.subrange(8, 12) + d.subrange(12, 16)
        + d.subrange(16, 20) + d.subrange(20, 24) + d.subrange(24, 28) + d.subrange(28, 32)
        + d.subrange(32, 36) + d.subrange(36, 40) =~= d.subrange(0, 40));
    assert(spec_encode_entry(e) == d.subrange(0, 40) + d.subrange(40, 60) + d.subrange(60, 62)
        + d.subrange(62, p) + seq![0u8]);
    assert(d.subrange(0, 40) + d.subrange(40, 60) + d.subrange(60, 62) + d.subrange(62, p) + seq![
        0u8,
    ] =~= d.take(k));
    assert(spec_encode_entry(e) == d.take(k));
}

/// A well-formed entry's bytes read back as that entry, whatever follows.
#[verifier::rlimit(100)]
pub proof fn lemma_parse_entry_complete(e: IndexEntryView, rest: Seq<u8>)
    requires
        e.wf(),
    ensures
        spec_encode_entry(e).len() == 63 + e.path.len(),
        spec_parse_entry(spec_encode_entry(e) + rest) == Some(
            (e, spec_encode_entry(e).len() as int),
        ),
{
    let enc = spec_encode_entry(e);
    let d = enc + rest;
    lemma_be_u32_val_of_bytes(e.ctime_seconds);
    lemma_be_u32_val_of_bytes(e.ctime_nanoseconds);
    lemma_be_u32_val_of_bytes(e.mtime_seconds);
    lemma_be_u32_val_of_bytes(e.mtime_nanoseconds);
    lemma_be_u32_val_of_bytes(e.dev);
    lemma_be_u32_val_of_bytes(e.ino);
    lemma_be_u32_val_of_bytes(e.mode);
    lemma_be_u32_val_of_bytes(e.uid);
    lemma_be_u32_val_of_bytes(e.gid);
    lemma_be_u32_val_of_bytes(e.size);
    lemma_be_u16_val_of_bytes(e.flags);
    lemma_entry_fields_parts(e);
    assert(enc.len() == 63 + e.path.len());
    let pl = e.path.len() as int;
    let f = spec_entry_fields(e);
    assert(d.subrange(0, 40) =~= f);
    assert(d.subrange(0, 4) =~= f.subrange(0, 4));
    assert(d.subrange(4, 8) =~= f.subrange(4, 8));
    assert(d.subrange(8, 12) =~= f.subrange(8, 12));
    assert(d.subrange(12, 16) =~= f.subrange(12, 16));
    assert(d.subrange(16, 20) =~= f.subrange(16, 20));
    assert(d.subrange(20, 24) =~= f.subrange(20, 24));
    assert(d.subrange(24, 28) =~= f.subrange(24, 28));
    assert(d.subrange(28, 32) =~= f.subrange(28, 32));
    assert(d.subrange(32, 36) =~= f.subrange(32, 36));
    assert(d.subrange(36, 40) =~= f.subrange(36, 40));
    assert(d.subrange(40, 60) =~= e.hash);
    assert(d.subrange(60, 62) =~= be_u16_bytes(e.flags));
    assert(be_u16_val(d.subrange(60, 62)) == e.flags);
    assert(d[62 + pl] == 0);
    assert forall|j: int| 62 <= j < 62 + pl implies d[j] != 0 by {
        assert(d[j] == e.path[j - 62]);
    }
    lemma_find_byte_at(d, 0, 62, 62 + pl);
    assert(d.subrange(62, 62 + pl) =~= e.path);
    let parsed = spec_parse_entry(d)->0;
    assert(parsed.0 =~= e);
    assert(parsed.1 == enc.len());
}

/// Parsed entries are exactly as many as asked, each fit for the wire.
#[verifier::rlimit(100)]
#[verifier::spinoff_prover]
pub proof fn lemma_parse_entries_wf(d: Seq<u8>, n: int)
    requires
        spec_parse_entries(d, n) is Some,
    ensures
        ({
            let s = spec_parse_entries(d, n)->0;
            s.len() == (if n >= 0 {
                n
            } else {
                0
            }) && entries_wf(s)
        }),
    decreases n,
{
    let s = spec_parse_entries(d, n)->0;
    if n <= 0 {
        assert(s =~= Seq::<IndexEntryView>::empty());
    } else {
        let (e, k) = spec_parse_entry(d)->0;
        lemma_parse_entry_sound(d);
        lemma_parse_entries_wf(d.skip(k), n - 1);
        let rest = spec_parse_entries(d.skip(k), n - 1)->0;
        assert(s =~= seq![e] + rest);
        assert forall|i: int| 0 <= i < s.len() implies (#[trigger] s[i]).wf() by {
            if i > 0 {
                assert(s[i] == rest[i - 1]);
                assert(rest[i - 1].wf());
            }
        }
    }
}

/// Parsed entries re-encode to exactly the bytes they were read from.
#[verifier::rlimit(100)]
#[verifier::spinoff_prover]
pub proof fn lemma_parse_entries_sound(d: Seq<u8>, n: int)
    requires
        spec_parse_entries(d, n) is Some,
    ensures
        spec_encode_entries(spec_parse_entries(d, n)->0) == d,
    decreases n,
{
    let s = spec_parse_entries(d, n)->0;
    if n <= 0 {
        assert(s =~= Seq::<IndexEntryView>::empty());
        assert(spec_encode_entries(s) =~= d);
        assert(spec_encode_entries(s) == d);
    } else {
        let (e, k) = spec_parse_entry(d)->0;
        lemma_parse_entry_sound(d);
        lemma_parse_entries_sound(d.skip(k), n - 1);
        let rest = spec_parse_entries(d.skip(k), n - 1)->0;
        assert(spec_parse_entries(d, n) == Some(seq![e] + rest));
        assert(s =~= seq![e] + rest);
        assert(s[0] == e);
        assert(s.drop_first() =~= rest);
        assert(spec_encode_entries(s) == spec_encode_entry(s[0]) + spec_encode_entries(
            s.drop_first(),
        ));
        assert(spec_encode_entry(e) == d.take(k));
        assert(spec_encode_entries(rest) == d.skip(k));
        assert(d.take(k) + d.skip(k) =~= d);
        assert(spec_encode_entries(s) == d);
    }
}

/// Well-formed entries' bytes read back as those entries.
#[verifier::rlimit(100)]
pub proof fn lemma_parse_entries_complete(s: Seq<IndexEntryView>)
    requires
        entries_wf(s),
    ensures
        spec_parse_entries(spec_encode_entries(s), s.len() as int) == Some(s),
    decreases s.len(),
{
    if s.len() == 0 {
        assert(s =~= Seq::<IndexEntryView>::empty());
    } else {
        let e = s[0];
        let rest = s.drop_first();
        assert(e.wf());
        assert forall|i: int| 0 <= i < rest.len() implies (#[trigger] rest[i]).wf() by {
            assert(rest[i] == s[i + 1]);
        }
        lemma_parse_entries_complete(rest);
        lemma_parse_entry_complete(e, spec_encode_entries(rest));
        let d = spec_encode_entries(s);
        assert(d == spec_encode_entry(e) + spec_encode_entries(rest));
        let k = spec_encode_entry(e).len() as int;
        assert(spec_parse_entry(d) == Some((e, k)));
        let tail = spec_encode_entries(rest);
        assert((spec_encode_entry(e) + tail).skip(k) =~= tail);
        assert(spec_parse_entries(d.skip(k), rest.len() as int) == Some(rest));
        assert(seq![e] + rest =~= s);
    }
}

/// A decoded index file re-encodes to exactly its own bytes, and every
/// decoded entry is fit for the wire.
#[verifier::rlimit(100)]
pub proof fn lemma_parse_index_sound(d: Seq<u8>)
    requires
        spec_parse_index(d) is Some,
    ensures
        ({
            let s = spec_parse_index(d)->0;
            entries_wf(s) && s.len() <= u32::MAX && spec_encode_index(s) == d
        }),
{
    let s = spec_parse_index(d)->0;
    let n = be_u32_val(d.subrange(8, 12));
    lemma_parse_entries_wf(d.skip(12), n as int);
    lemma_parse_entries_sound(d.skip(12), n as int);
    assert(s.len() == n as int);
    lemma_be_u32_bytes_of_val(d.subrange(4, 8));
    lemma_be_u32_bytes_of_val(d.subrange(8, 12));
    assert(be_u32_bytes(INDEX_VERSION) =~= d.subrange(4, 8));
    assert(s.len() as u32 == n);
    assert(be_u32_bytes(s.len() as u32) =~= d.subrange(8, 12));
    assert(index_magic() =~= d.subrange(0, 4));
    assert(spec_encode_index(s) == d.subrange(0, 4) + d.subrange(4, 8) + d.subrange(8, 12)
        + d.skip(12));
    assert(d.subrange(0, 4) + d.subrange(4, 8) + d.subrange(8, 12) + d.skip(12) =~= d);
}

/// A well-formed index's bytes decode back to exactly its entries.
#[verifier::rlimit(100)]
pub proof fn lemma_parse_index_complete(s: Seq<IndexEntryView>)
    requires
        entries_wf(s),
        s.len() <= u32::MAX,
    ensures
        spec_parse_index(spec_encode_index(s)) == Some(s),
{
    let d = spec_encode_index(s);
    lemma_be_u32_val_of_bytes(INDEX_VERSION);
    lemma_be_u32_val_of_bytes(s.len() as u32);
    assert(d.len() >= 12);
    assert(d.subrange(0, 4) =~= index_magic());
    assert(d.subrange(4, 8) =~= be_u32_bytes(INDEX_VERSION));
    assert(d.subrange(8, 12) =~= be_u32_bytes(s.len() as u32));
    assert(d.skip(12) =~= spec_encode_entries(s));
    lemma_parse_entries_complete(s);
    assert(be_u32_val(d.subrange(8, 12)) as int == s.len() as int);
}

/// Decoding validates the format: whatever decodes shows the magic, the
/// supported version, and no entry with the extended bit; bytes that lack
/// any of these fail to decode.
pub proof fn lemma_parse_index_validates(d: Seq<u8>)
    requires
        spec_parse_index(d) is Some,
    ensures
        d.len() >= 12,
        d.subrange(0, 4) == index_magic(),
        be_u32_val(d.subrange(4, 8)) == INDEX_VERSION,
        forall|i: int|
            0 <= i < spec_parse_index(d)->0.len() ==> (#[trigger] spec_parse_index(d)->0[i]).flags
                & 0x4000 == 0,
{
    lemma_parse_index_sound(d);
    let s = spec_parse_index(d)->0;
    assert forall|i: int| 0 <= i < s.len() implies (#[trigger] s[i]).flags & 0x4000 == 0 by {
        assert(s[i].wf());
    }
}

// ---------------------------------------------------------------------------
// Executable codec
// ---------------------------------------------------------------------------

/// Prefixes already-parsed entries onto the outcome of parsing the rest.
pub open spec fn parse_cont(
    prefix: Seq<IndexEntryView>,
    rest: Option<Seq<IndexEntryView>>,
) -> Option<Seq<IndexEntryView>> {
    match rest {
        None => None,
        Some(t) => Some(prefix + t),
    }
}

/// Reads a NUL-terminated path starting at `off`: the path bytes and the
/// offset just past the terminator.
pub fn parse_entry_path(data: &[u8], off: usize) -> (r: Result<(Vec<u8>, usize), GitError>)
    requires
        off <= data@.len(),
    ensures
        match r {
            Ok((path, next)) => off < next <= data@.len() && find_byte(data@, 0, off as int)
                == next - 1 && path@ == data@.subrange(off as int, next - 1),
            Err(e) => e == GitError::FormatError && find_byte(data@, 0, off as int) == -1,
        },
{
    let n = data.len();
    match find_byte_from(data, 0, off) {
        Some(p) => {
            let path = copy_range(data, off, p);
            assert(p < n);
            Ok((path, p + 1))
        },
        None => Err(GitError::FormatError),
    }
}

/// Reads one entry record starting at `off`.
#[verifier::rlimit(100)]
pub fn parse_index_entry(data: &[u8], off: usize) -> (r: Result<(GitIndexEntry, usize), GitError>)
    requires
        off <= data@.len(),
    ensures
        match r {
            Ok((entry, next)) => off < next <= data@.len() && spec_parse_entry(
                data@.skip(off as int),
            ) == Some((entry@, next - off)),
            Err(e) => e == GitError::FormatError && spec_parse_entry(data@.skip(off as int))
                is None,
        },
{
    let ghost dd = data@.skip(off as int);
    if data.len() - off < 62 {
        return Err(GitError::FormatError);
    }
    let flags_bits = read_be_u16(data, off + 60);
    proof {
        assert(dd.subrange(60, 62) =~= data@.subrange(off as int + 60, off as int + 62));
    }
    if flags_bits & 0x4000 != 0 {
        return Err(GitError::FormatError);
    }
    let found = find_byte_from(data, 0, off + 62);
    let p = match found {
        Some(p) => p,
        None => {
            proof {
                lemma_find_byte_props(data@, 0, off as int + 62);
                assert forall|j: int| 62 <= j < dd.len() implies dd[j] != 0 by {
                    assert(data@[off + j] != 0);
                }
                lemma_find_byte_none(dd, 0, 62);
            }
            return Err(GitError::FormatError);
        },
    };
    proof {
        lemma_find_byte_props(data@, 0, off as int + 62);
        assert(dd[p - off] == 0);
        assert forall|j: int| 62 <= j < p - off implies dd[j] != 0 by {
            assert(data@[off + j] != 0);
        }
        lemma_find_byte_at(dd, 0, 62, p - off);
    }
    let ctime_seconds = read_be_u32(data, off);
    let ctime_nanoseconds = read_be_u32(data, off + 4);
    let mtime_seconds = read_be_u32(data, off + 8);
    let mtime_nanoseconds = read_be_u32(data, off + 12);
    let dev = read_be_u32(data, off + 16);
    let ino = read_be_u32(data, off + 20);
    let mode = read_be_u32(data, off + 24);
    let uid = read_be_u32(data, off + 28);
    let gid = read_be_u32(data, off + 32);
    let size = read_be_u32(data, off + 36);
    let hash = copy_range(data, off + 40, off + 60);
    let path = copy_range(data, off + 62, p);
    proof {
        assert(dd.subrange(0, 4) =~= data@.subrange(off as int, off as int + 4));
        assert(dd.subrange(4, 8) =~= data@.subrange(off as int + 4, off as int + 8));
        assert(dd.subrange(8, 12) =~= data@.subrange(off as int + 8, off as int + 12));
        assert(dd.subrange(12, 16) =~= data@.subrange(off as int + 12, off as int + 16));
        assert(dd.subrange(16, 20) =~= data@.subrange(off as int + 16, off as int + 20));
        assert(dd.subrange(20, 24) =~= data@.subrange(off as int + 20, off as int + 24));
        assert(dd.subrange(24, 28) =~= data@.subrange(off as int + 24, off as int + 28));
        assert(dd.subrange(28, 32) =~= data@.subrange(off as int + 28, off as int + 32));
        assert(dd.subrange(32, 36) =~= data@.subrange(off as int + 32, off as int + 36));
        assert(dd.subrange(36, 40) =~= data@.subrange(off as int + 36, off as int + 40));
        assert(dd.subrange(40, 60) =~= data@.subrange(off as int + 40, off as int + 60));
        assert(dd.subrange(62, p - off) =~= data@.subrange(off as int + 62, p as int));
    }
    let entry = GitIndexEntry {
        ctime_seconds,
        ctime_nanoseconds,
        mtime_seconds,
        mtime_nanoseconds,
        dev,
        ino,
        mode,
        uid,
        gid,
        size,
        hash,
        flags: Flags::from_bits_retain(flags_bits),
        path,
    };
    proof {
        let parsed = spec_parse_entry(dd)->0;
        assert(entry@ =~= parsed.0);
        assert(parsed.1 == (p + 1) - off);
    }
    Ok((entry, p + 1))
}

/// Decodes a whole index file. Fails with `FormatError` on a bad magic, a
/// version other than 2, an extended entry, a truncated record, or trailing
/// bytes; succeeds exactly on byte strings this format can produce.
#[verifier::rlimit(100)]
pub fn parse_git_index(data: &[u8]) -> (r: Result<GitIndex, GitError>)
    ensures
        match r {
            Ok(idx) => spec_parse_index(data@) == Some(idx@) && entries_wf(idx@) && idx@.len()
                <= u32::MAX,
            Err(e) => e == GitError::FormatError && spec_parse_index(data@) is None,
        },
{
    if data.len() < 12 {
        return Err(GitError::FormatError);
    }
    if !(data[0] == 68 && data[1] == 73 && data[2] == 82 && data[3] == 67) {
        proof {
            assert(data@.subrange(0, 4)[0] == data@[0] && data@.subrange(0, 4)[1] == data@[1]
                && data@.subrange(0, 4)[2] == data@[2] && data@.subrange(0, 4)[3] == data@[3]);
            assert(data@.subrange(0, 4) != index_magic());
        }
        return Err(GitError::FormatError);
    }
    assert(data@.subrange(0, 4) =~= index_magic());
    let version = read_be_u32(data, 4);
    if version != INDEX_VERSION {
        return Err(GitError::FormatError);
    }
    let n = read_be_u32(data, 8);
    let mut entries: Vec<GitIndexEntry> = Vec::new();
    let mut off: usize = 12;
    let mut i: u32 = 0;
    proof {
        assert(data@.skip(12).skip(0) =~= data@.skip(12));
        assert(entries@.map_values(|x: GitIndexEntry| x@) =~= Seq::<IndexEntryView>::empty());
    }
    while i < n
        invariant
            12 <= off <= data@.len(),
            0 <= i <= n,
            data@.len() >= 12,
            data@.subrange(0, 4) == index_magic(),
            be_u32_val(data@.subrange(4, 8)) == INDEX_VERSION,
            n == be_u32_val(data@.subrange(8, 12)),
            spec_parse_entries(data@.skip(12), n as int) == parse_cont(
                entries@.map_values(|x: GitIndexEntry| x@),
                spec_parse_entries(data@.skip(off as int), n - i),
            ),
        decreases n - i,
    {
        let ghost done = entries@.map_values(|x: GitIndexEntry| x@);
        let (entry, next) = match parse_index_entry(data, off) {
            Ok(ok) => ok,
            Err(e) => {
                return Err(GitError::FormatError);
            },
        };
        proof {
            let k = next - off;
            assert(data@.skip(off as int).skip(k) =~= data@.skip(next as int));
            let rest = spec_parse_entries(data@.skip(next as int), n - i - 1);
            assert(spec_parse_entries(data@.skip(off as int), n - i) == parse_cont(
                seq![entry@],
                rest,
            ));
            if rest is Some {
                assert(done + (seq![entry@] + rest->0) =~= (done + seq![entry@]) + rest->0);
            }
        }
        entries.push(entry);
        proof {
            assert(entries@.map_values(|x: GitIndexEntry| x@) =~= done + seq![entry@]);
        }
        off = next;
        i = i + 1;
    }
    if off != data.len() {
        proof {
            assert(data@.skip(off as int).len() > 0);
        }
        return Err(GitError::FormatError);
    }
    proof {
        assert(data@.skip(off as int).len() == 0);
        let done = entries@.map_values(|x: GitIndexEntry| x@);
        assert(spec_parse_entries(data@.skip(12), n as int) == Some(
            done + Seq::<IndexEntryView>::empty(),
        ));
        assert(done + Seq::<IndexEntryView>::empty() =~= done);
        lemma_parse_entries_wf(data@.skip(12), n as int);
    }
    Ok(GitIndex { entries })
}

/// Appending one entry's bytes extends the run of entries.
pub proof fn lemma_encode_entries_push(s: Seq<IndexEntryView>, e: IndexEntryView)
    ensures
        spec_encode_entries(s.push(e)) == spec_encode_entries(s) + spec_encode_entry(e),
    decreases s.len(),
{
    if s.len() == 0 {
        assert(s.push(e)[0] == e);
        assert(s.push(e).drop_first() =~= Seq::<IndexEntryView>::empty());
        assert(spec_encode_entries(s.push(e)) == spec_encode_entry(e) + spec_encode_entries(
            Seq::<IndexEntryView>::empty(),
        ));
        assert(spec_encode_entry(e) + Seq::<u8>::empty() =~= spec_encode_entry(e));
        assert(Seq::<u8>::empty() + spec_encode_entry(e) =~= spec_encode_entry(e));
    } else {
        lemma_encode_entries_push(s.drop_first(), e);
        assert(s.push(e).drop_first() =~= s.drop_first().push(e));
        assert(s.push(e)[0] == s[0]);
        assert(spec_encode_entries(s.push(e)) == spec_encode_entry(s[0]) + spec_encode_entries(
            s.drop_first().push(e),
        ));
        assert(spec_encode_entry(s[0]) + (spec_encode_entries(s.drop_first())
            + spec_encode_entry(e)) =~= (spec_encode_entry(s[0]) + spec_encode_entries(
            s.drop_first(),
        )) + spec_encode_entry(e));
    }
}

/// Writes a path and its NUL terminator.
pub fn write_entry_path(out: &mut Vec<u8>, path: &[u8])
    ensures
        final(out)@ == old(out)@ + path@ + seq![0u8],
{
    out.extend_from_slice(path);
    out.push(0);
    assert(out@ =~= old(out)@ + path@ + seq![0u8]);
}

/// Writes one entry record.
pub fn write_git_index_entry(out: &mut Vec<u8>, entry: &GitIndexEntry)
    ensures
        final(out)@ == old(out)@ + spec_encode_entry(entry@),
{
    push_be_u32(out, entry.ctime_seconds);
    push_be_u32(out, entry.ctime_nanoseconds);
    push_be_u32(out, entry.mtime_seconds);
    push_be_u32(out, entry.mtime_nanoseconds);
    push_be_u32(out, entry.dev);
    push_be_u32(out, entry.ino);
    push_be_u32(out, entry.mode);
    push_be_u32(out, entry.uid);
    push_be_u32(out, entry.gid);
    push_be_u32(out, entry.size);
    out.extend_from_slice(entry.hash.as_slice());
    push_be_u16(out, entry.flags.as_u16());
    write_entry_path(out, entry.path.as_slice());
    assert(out@ =~= old(out)@ + spec_encode_entry(entry@));
}

/// Encodes a whole index file: header, then one record per entry in the
/// index's current order. No re-sort happens here; the aggregate must
/// already satisfy its sort invariant.
pub fn write_git_index(index: &GitIndex) -> (r: Vec<u8>)
    requires
        index@.len() <= u32::MAX,
    ensures
        r@ == spec_encode_index(index@),
{
    let mut out: Vec<u8> = Vec::new();
    out.push(68);
    out.push(73);
    out.push(82);
    out.push(67);
    push_be_u32(&mut out, INDEX_VERSION);
    let n = index.entries.len();
    proof {
        assert(index@.len() == index.entries@.len());
    }
    push_be_u32(&mut out, n as u32);
    let ghost header = index_magic() + be_u32_bytes(INDEX_VERSION) + be_u32_bytes(
        index@.len() as u32,
    );
    assert(out@ =~= header);
    let mut i: usize = 0;
    while i < n
        invariant
            0 <= i <= n,
            n == index.entries@.len(),
            index@.len() == index.entries@.len(),
            forall|j: int|
                0 <= j < index@.len() ==> index@[j] == #[trigger] index.entries@[j]@,
            out@ == header + spec_encode_entries(index@.take(i as int)),
        decreases n - i,
    {
        write_git_index_entry(&mut out, &index.entries[i]);
        proof {
            lemma_encode_entries_push(index@.take(i as int), index@[i as int]);
            assert(index@.take(i as int).push(index@[i as int]) =~= index@.take(i as int + 1));
            assert(out@ =~= header + spec_encode_entries(index@.take(i as int + 1)));
        }
        i = i + 1;
    }
    assert(index@.take(i as int) =~= index@);
    assert(out@ =~= spec_encode_index(index@));
    out
}

impl GitIndex {
    /// Whether the entries are strictly sorted by path, byte-wise. A caller
    /// that loaded a foreign file checks this before staging more entries.
    pub fn is_sorted(&self) -> (r: bool)
        ensures
            r == entries_sorted(self@),
    {
        let n = self.entries.len();
        if n == 0 {
            return true;
        }
        let mut i: usize = 0;
        while i + 1 < n
            invariant
                0 <= i < n,
                n == self.entries@.len(),
                self@.len() == self.entries@.len(),
                forall|j: int|
                    0 <= j < self@.len() ==> self@[j] == #[trigger] self.entries@[j]@,
                forall|p: int, q: int|
                    0 <= p < q <= i ==> lex_lt(#[trigger] self@[p].path, #[trigger] self@[q].path),
            decreases n - i,
        {
            if !lex_less(self.entries[i].path.as_slice(), self.entries[i + 1].path.as_slice()) {
                proof {
                    if entries_sorted(self@) {
                        assert(lex_lt(self@[i as int].path, self@[i as int + 1].path));
                    }
                }
                return false;
            }
            proof {
                assert(lex_lt(self@[i as int].path, self@[i as int + 1].path));
                assert forall|p: int, q: int| 0 <= p < q <= i + 1 implies lex_lt(
                    #[trigger] self@[p].path,
                    #[trigger] self@[q].path,
                ) by {
                    if q == i + 1 && p < i {
                        lemma_lex_trans(self@[p].path, self@[i as int].path, self@[q].path);
                    }
                }
            }
            i = i + 1;
        }
        true
    }

    /// Encodes the index to its whole-file bytes; persisting is a full
    /// rewrite of those bytes, never an incremental update.
    pub fn persist(&self) -> (r: Vec<u8>)
        requires
            self@.len() <= u32::MAX,
        ensures
            r@ == spec_encode_index(self@),
    {
        write_git_index(self)
    }
}

} // verus!
