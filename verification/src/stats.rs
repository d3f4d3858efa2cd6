//! Byte statistics of a sample, the integer part of the suggestion features.
use vstd::prelude::*;
use vstd::utf8::valid_utf8;

use crate::bytes::{
    byte_in_class, class_within, count_class, in_class, lemma_count_class_le_len,
    lemma_count_class_monotone, ByteClass,
};
use crate::magic::{hits_view, magic_hits, scan_magic, MagicHit};

verus! {

/// At most this many bytes of the input are examined.
pub const SAMPLE_LIMIT: usize = 65536;

/// The examined prefix of `data`.
pub open spec fn sample_of(data: Seq<u8>) -> Seq<u8> {
    if data.len() <= SAMPLE_LIMIT {
        data
    } else {
        data.subrange(0, SAMPLE_LIMIT as int)
    }
}

/// Number of positions `i` with `s[i + 1] == s[i]`.
pub open spec fn adjacent_equal(s: Seq<u8>) -> nat
    decreases s.len(),
{
    if s.len() < 2 {
        0
    } else {
        adjacent_equal(s.drop_last()) + if s[s.len() - 1] == s[s.len() - 2] {
            1nat
        } else {
            0nat
        }
    }
}

/// Equal neighbours add up over a concatenation: those inside each part,
/// plus one where the last byte of the first part equals the first byte of
/// the second. A single byte has none, and two bytes have one exactly when
/// they are equal.
pub proof fn lemma_adjacent_equal_concat(s: Seq<u8>, t: Seq<u8>, x: u8, y: u8)
    requires
        s.len() > 0,
        t.len() > 0,
    ensures
        adjacent_equal(s + t) == adjacent_equal(s) + adjacent_equal(t) + if s[s.len() - 1]
            == t[0] {
            1nat
        } else {
            0nat
        },
        adjacent_equal(seq![x]) == 0,
        adjacent_equal(seq![x, y]) == if x == y {
            1nat
        } else {
            0nat
        },
    decreases t.len(),
{
    assert(seq![x, y].drop_last() =~= seq![x]);
    let u = s + t;
    if t.len() == 1 {
        assert(u.drop_last() =~= s);
    } else {
        let t2 = t.drop_last();
        assert(u.drop_last() =~= s + t2);
        lemma_adjacent_equal_concat(s, t2, x, y);
        assert(u[u.len() - 1] == t[t.len() - 1]);
        assert(u[u.len() - 2] == t[t.len() - 2]);
        assert(t2[0] == t[0]);
    }
}

/// Counts over a sample: a histogram of byte values and the number of bytes
/// in each class that the suggestion heuristics look at.
pub struct SampleStats {
    pub sample_len: usize,
    /// `hist[b]` is the number of occurrences of byte `b`; 256 entries.
    pub hist: Vec<u32>,
    pub zeros: u32,
    pub ffs: u32,
    pub printable: u32,
    pub whitespace: u32,
    pub newlines: u32,
    pub base64_ok: u32,
    pub base64_pad: u32,
    pub hex_ok: u32,
    pub hex_digits: u32,
    pub hex_digits_even: bool,
    /// Number of positions whose next byte is equal to it.
    pub adjacent_equal: u32,
    /// The largest entry of the histogram.
    pub top1: u32,
    pub utf8_valid: bool,
    pub magic_hits: Vec<MagicHit>,
}

/// The statistics of `stats` are those of the sample `s`.
pub open spec fn stats_of(stats: SampleStats, s: Seq<u8>) -> bool {
    &&& stats.sample_len == s.len()
    &&& stats.hist@.len() == 256
    &&& forall|b: int|
        0 <= b < 256 ==> #[trigger] stats.hist@[b] == count_class(s, ByteClass::Exactly(b as u8))
    &&& stats.zeros == count_class(s, ByteClass::Zero)
    &&& stats.ffs == count_class(s, ByteClass::Ff)
    &&& stats.printable == count_class(s, ByteClass::Printable)
    &&& stats.whitespace == count_class(s, ByteClass::Whitespace)
    &&& stats.newlines == count_class(s, ByteClass::Newline)
    &&& stats.base64_ok == count_class(s, ByteClass::Base64ish)
    &&& stats.base64_pad == count_class(s, ByteClass::Padding)
    &&& stats.hex_ok == count_class(s, ByteClass::Hexish)
    &&& stats.hex_digits == count_class(s, ByteClass::HexDigit)
    &&& stats.hex_digits_even == (stats.hex_digits % 2 == 0)
    &&& stats.adjacent_equal == adjacent_equal(s)
    &&& (exists|b: int| 0 <= b < 256 && stats.top1 == #[trigger] stats.hist@[b])
    &&& (forall|b: int| 0 <= b < 256 ==> #[trigger] stats.hist@[b] <= stats.top1)
    &&& stats.utf8_valid == valid_utf8(s)
    &&& hits_view(stats.magic_hits@) == magic_hits(s)
}

/// Whether `bytes` is well-formed UTF-8.
///
/// Calls `std::str::from_utf8`; the contract claims that it succeeds exactly
/// on the byte sequences that vstd's `valid_utf8` describes.
#[verifier::external_body]
fn utf8_is_valid(bytes: &[u8]) -> (r: bool)
    ensures
        r == valid_utf8(bytes@),
{
    std::str::from_utf8(bytes).is_ok()
}

/// Class counts of a sample, kept together while scanning.
struct ClassCounts {
    zeros: u32,
    ffs: u32,
    printable: u32,
    whitespace: u32,
    newlines: u32,
    base64_ok: u32,
    base64_pad: u32,
    hex_ok: u32,
    hex_digits: u32,
}

spec fn counts_of(c: ClassCounts, s: Seq<u8>) -> bool {
    &&& c.zeros == count_class(s, ByteClass::Zero)
    &&& c.ffs == count_class(s, ByteClass::Ff)
    &&& c.printable == count_class(s, ByteClass::Printable)
    &&& c.whitespace == count_class(s, ByteClass::Whitespace)
    &&& c.newlines == count_class(s, ByteClass::Newline)
    &&& c.base64_ok == count_class(s, ByteClass::Base64ish)
    &&& c.base64_pad == count_class(s, ByteClass::Padding)
    &&& c.hex_ok == count_class(s, ByteClass::Hexish)
    &&& c.hex_digits == count_class(s, ByteClass::HexDigit)
}

proof fn lemma_counts_step(s: Seq<u8>, i: int)
    requires
        0 <= i < s.len(),
    ensures
        forall|c: ByteClass|
            #[trigger] count_class(s.subrange(0, i + 1), c) == count_class(s.subrange(0, i), c) + if in_class(
                c,
                s[i],
            ) {
                1nat
            } else {
                0nat
            },
{
    assert(s.subrange(0, i + 1).drop_last() =~= s.subrange(0, i));
}

fn bump(n: u32, yes: bool) -> (r: u32)
    requires
        n < u32::MAX,
    ensures
        r == n + if yes {
            1nat
        } else {
            0nat
        },
{
    if yes {
        n + 1
    } else {
        n
    }
}

fn class_counts(s: &[u8]) -> (c: ClassCounts)
    requires
        s.len() <= SAMPLE_LIMIT,
    ensures
        counts_of(c, s@),
{
    let mut c = ClassCounts {
        zeros: 0,
        ffs: 0,
        printable: 0,
        whitespace: 0,
        newlines: 0,
        base64_ok: 0,
        base64_pad: 0,
        hex_ok: 0,
        hex_digits: 0,
    };
    let mut i: usize = 0;
    assert(s@.subrange(0, 0) =~= Seq::<u8>::empty());
    while i < s.len()
        invariant
            i <= s.len() <= SAMPLE_LIMIT,
            counts_of(c, s@.subrange(0, i as int)),
        decreases s.len() - i,
    {
        let b = s[i];
        proof {
            lemma_counts_step(s@, i as int);
            lemma_count_class_le_len(s@.subrange(0, i as int), ByteClass::Zero);
            lemma_count_class_le_len(s@.subrange(0, i as int), ByteClass::Ff);
            lemma_count_class_le_len(s@.subrange(0, i as int), ByteClass::Printable);
            lemma_count_class_le_len(s@.subrange(0, i as int), ByteClass::Whitespace);
            lemma_count_class_le_len(s@.subrange(0, i as int), ByteClass::Newline);
            lemma_count_class_le_len(s@.subrange(0, i as int), ByteClass::Base64ish);
            lemma_count_class_le_len(s@.subrange(0, i as int), ByteClass::Padding);
            lemma_count_class_le_len(s@.subrange(0, i as int), ByteClass::Hexish);
            lemma_count_class_le_len(s@.subrange(0, i as int), ByteClass::HexDigit);
        }
        c.zeros = bump(c.zeros, byte_in_class(ByteClass::Zero, b));
        c.ffs = bump(c.ffs, byte_in_class(ByteClass::Ff, b));
        c.printable = bump(c.printable, byte_in_class(ByteClass::Printable, b));
        c.whitespace = bump(c.whitespace, byte_in_class(ByteClass::Whitespace, b));
        c.newlines = bump(c.newlines, byte_in_class(ByteClass::Newline, b));
        c.base64_ok = bump(c.base64_ok, byte_in_class(ByteClass::Base64ish, b));
        c.base64_pad = bump(c.base64_pad, byte_in_class(ByteClass::Padding, b));
        c.hex_ok = bump(c.hex_ok, byte_in_class(ByteClass::Hexish, b));
        c.hex_digits = bump(c.hex_digits, byte_in_class(ByteClass::HexDigit, b));
        i = i + 1;
    }
    assert(s@.subrange(0, s.len() as int) =~= s@);
    c
}

/// Histogram of the byte values of `s`: 256 entries.
pub fn byte_histogram(s: &[u8]) -> (hist: Vec<u32>)
    requires
        s.len() <= SAMPLE_LIMIT,
    ensures
        hist@.len() == 256,
        forall|b: int| 0 <= b < 256 ==> #[trigger] hist@[b] == count_class(s@, ByteClass::Exactly(b as u8)),
{
    let mut hist: Vec<u32> = Vec::new();
    let mut k: usize = 0;
    while k < 256
        invariant
            k <= 256,
            hist@.len() == k,
            forall|b: int| 0 <= b < k ==> #[trigger] hist@[b] == 0,
        decreases 256 - k,
    {
        hist.push(0);
        k = k + 1;
    }
    let mut i: usize = 0;
    assert(s@.subrange(0, 0) =~= Seq::<u8>::empty());
    while i < s.len()
        invariant
            i <= s.len() <= SAMPLE_LIMIT,
            hist@.len() == 256,
            forall|b: int|
                0 <= b < 256 ==> #[trigger] hist@[b] == count_class(
                    s@.subrange(0, i as int),
                    ByteClass::Exactly(b as u8),
                ),
        decreases s.len() - i,
    {
        let v = s[i];
        proof {
            lemma_counts_step(s@, i as int);
            lemma_count_class_le_len(s@.subrange(0, i as int), ByteClass::Exactly(v));
            assert(ByteClass::Exactly((v as int) as u8) == ByteClass::Exactly(v));
        }
        let old_count = hist[v as usize];
        hist.set(v as usize, old_count + 1);
        proof {
            assert forall|b: int| 0 <= b < 256 implies #[trigger] hist@[b] == count_class(
                s@.subrange(0, i + 1),
                ByteClass::Exactly(b as u8),
            ) by {
                assert(count_class(s@.subrange(0, i + 1), ByteClass::Exactly(b as u8))
                    == count_class(s@.subrange(0, i as int), ByteClass::Exactly(b as u8)) + if in_class(
                    ByteClass::Exactly(b as u8),
                    s@[i as int],
                ) {
                    1nat
                } else {
                    0nat
                });
            }
        }
        i = i + 1;
    }
    assert(s@.subrange(0, s.len() as int) =~= s@);
    hist
}

/// Number of positions of `s` whose next byte is equal to it.
pub fn count_adjacent_equal(s: &[u8]) -> (r: u32)
    requires
        s.len() <= SAMPLE_LIMIT,
    ensures
        r == adjacent_equal(s@),
{
    let mut n: u32 = 0;
    let mut i: usize = 0;
    while i + 1 < s.len()
        invariant
            s.len() <= SAMPLE_LIMIT,
            i + 1 <= s.len() || s.len() == 0,
            i <= s.len(),
            n == adjacent_equal(s@.subrange(0, if s.len() == 0 { 0 } else { i + 1 })),
            n <= i,
        decreases s.len() - i,
    {
        assert(s@.subrange(0, i + 2).drop_last() =~= s@.subrange(0, i + 1));
        if s[i + 1] == s[i] {
            n = n + 1;
        }
        i = i + 1;
    }
    if s.len() == 0 {
        assert(s@.subrange(0, 0) =~= s@);
    } else {
        assert(s@.subrange(0, i + 1) =~= s@);
    }
    n
}

/// The largest entry of a 256-entry histogram.
fn histogram_max(hist: &Vec<u32>) -> (r: u32)
    requires
        hist@.len() == 256,
    ensures
        exists|b: int| 0 <= b < 256 && r == #[trigger] hist@[b],
        forall|b: int| 0 <= b < 256 ==> #[trigger] hist@[b] <= r,
{
    let mut best: u32 = hist[0];
    let mut k: usize = 1;
    while k < 256
        invariant
            1 <= k <= 256,
            hist@.len() == 256,
            exists|b: int| 0 <= b < k && best == #[trigger] hist@[b],
            forall|b: int| 0 <= b < k ==> #[trigger] hist@[b] <= best,
        decreases 256 - k,
    {
        if hist[k] > best {
            best = hist[k];
        }
        k = k + 1;
    }
    best
}

/// Statistics of the first `SAMPLE_LIMIT` bytes of `data`: histogram, class
/// counts, adjacent-equal count, largest histogram entry, UTF-8 validity and
/// the signatures found.
pub fn sample_stats(data: &[u8]) -> (st: SampleStats)
    ensures
        stats_of(st, sample_of(data@)),
{
    let n = if data.len() < SAMPLE_LIMIT {
        data.len()
    } else {
        SAMPLE_LIMIT
    };
    let sample = &data[0..n];
    assert(sample@ =~= sample_of(data@));
    let hist = byte_histogram(sample);
    let c = class_counts(sample);
    let adjacent = count_adjacent_equal(sample);
    let top1 = histogram_max(&hist);
    let utf8_valid = utf8_is_valid(sample);
    let magic_hits = scan_magic(sample);
    SampleStats {
        sample_len: n,
        hist,
        zeros: c.zeros,
        ffs: c.ffs,
        printable: c.printable,
        whitespace: c.whitespace,
        newlines: c.newlines,
        base64_ok: c.base64_ok,
        base64_pad: c.base64_pad,
        hex_ok: c.hex_ok,
        hex_digits: c.hex_digits,
        hex_digits_even: c.hex_digits % 2 == 0,
        adjacent_equal: adjacent,
        top1,
        utf8_valid,
        magic_hits,
    }
}

/// Sum of the first `n` entries of a histogram.
pub open spec fn hist_sum(h: Seq<u32>, n: int) -> int
    decreases n,
{
    if n <= 0 {
        0
    } else {
        hist_sum(h, n - 1) + h[n - 1]
    }
}

/// Number of bytes of `s` whose value is below `n`.
spec fn count_below(s: Seq<u8>, n: int) -> int
    decreases n,
{
    if n <= 0 {
        0
    } else {
        count_below(s, n - 1) + count_class(s, ByteClass::Exactly((n - 1) as u8))
    }
}

proof fn lemma_count_below_step(s: Seq<u8>, n: int)
    requires
        0 <= n <= 256,
        s.len() > 0,
    ensures
        count_below(s, n) == count_below(s.drop_last(), n) + if s.last() < n {
            1int
        } else {
            0int
        },
    decreases n,
{
    if n > 0 {
        lemma_count_below_step(s, n - 1);
    }
}

proof fn lemma_count_below_all(s: Seq<u8>)
    ensures
        count_below(s, 256) == s.len(),
    decreases s.len(),
{
    if s.len() > 0 {
        lemma_count_below_step(s, 256);
        lemma_count_below_all(s.drop_last());
    } else {
        lemma_count_below_empty(s, 256);
    }
}

proof fn lemma_count_below_empty(s: Seq<u8>, n: int)
    requires
        s.len() == 0,
    ensures
        count_below(s, n) == 0,
    decreases n,
{
    if n > 0 {
        lemma_count_below_empty(s, n - 1);
    }
}

/// The histogram counts every sampled byte exactly once, and each class
/// count lies between the counts of the classes it contains and is contained
/// in: newlines ≤ whitespace ≤ printable ≤ sample length, padding ≤ base64
/// bytes, hex digits ≤ hex bytes, and every count is at most the sample
/// length.
pub proof fn lemma_stats_consistent(st: SampleStats, s: Seq<u8>)
    requires
        stats_of(st, s),
    ensures
        hist_sum(st.hist@, 256) == st.sample_len,
        st.newlines <= st.whitespace <= st.printable <= st.sample_len,
        st.base64_pad <= st.base64_ok <= st.sample_len,
        st.hex_digits <= st.hex_ok <= st.sample_len,
        st.zeros <= st.sample_len,
        st.ffs <= st.sample_len,
        st.top1 <= st.sample_len,
        st.adjacent_equal <= st.sample_len,
{
    assert forall|n: int| 0 <= n <= 256 implies #[trigger] hist_sum(st.hist@, n) == count_below(s, n) by {
        lemma_hist_prefix(st, s, n);
    }
    lemma_count_below_all(s);
    assert(class_within(ByteClass::Newline, ByteClass::Whitespace));
    assert(class_within(ByteClass::Whitespace, ByteClass::Printable));
    assert(class_within(ByteClass::Padding, ByteClass::Base64ish));
    assert(class_within(ByteClass::HexDigit, ByteClass::Hexish));
    lemma_count_class_monotone(s, ByteClass::Newline, ByteClass::Whitespace);
    lemma_count_class_monotone(s, ByteClass::Whitespace, ByteClass::Printable);
    lemma_count_class_monotone(s, ByteClass::Padding, ByteClass::Base64ish);
    lemma_count_class_monotone(s, ByteClass::HexDigit, ByteClass::Hexish);
    lemma_count_class_le_len(s, ByteClass::Printable);
    lemma_count_class_le_len(s, ByteClass::Base64ish);
    lemma_count_class_le_len(s, ByteClass::Hexish);
    lemma_count_class_le_len(s, ByteClass::Zero);
    lemma_count_class_le_len(s, ByteClass::Ff);
    let b = choose|b: int| 0 <= b < 256 && st.top1 == #[trigger] st.hist@[b];
    lemma_count_class_le_len(s, ByteClass::Exactly(b as u8));
    lemma_adjacent_le_len(s);
}

proof fn lemma_hist_prefix(st: SampleStats, s: Seq<u8>, n: int)
    requires
        stats_of(st, s),
        0 <= n <= 256,
    ensures
        hist_sum(st.hist@, n) == count_below(s, n),
    decreases n,
{
    if n > 0 {
        lemma_hist_prefix(st, s, n - 1);
        assert(st.hist@[n - 1] == count_class(s, ByteClass::Exactly((n - 1) as u8)));
    }
}

proof fn lemma_adjacent_le_len(s: Seq<u8>)
    ensures
        adjacent_equal(s) <= s.len(),
    decreases s.len(),
{
    if s.len() >= 2 {
        lemma_adjacent_le_len(s.drop_last());
    }
}

} // verus!
