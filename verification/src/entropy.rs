//! Symbol counting for the Shannon-entropy analyzer: bytes are read as
//! little-endian symbols of 1, 2 or 4 bytes and counted either in a dense
//! table or in an `ahash::AHashMap`.
use ahash::AHashMap;
use vstd::prelude::*;

verus! {

/// Declares `ahash::AHashMap` to the verifier; its contents are known only
/// through `counts_contents`.
#[verifier::external_type_specification]
#[verifier::external_body]
#[verifier::reject_recursive_types(K)]
#[verifier::reject_recursive_types(V)]
#[verifier::reject_recursive_types(S)]
pub struct ExAHashMap<K, V, S>(ahash::AHashMap<K, V, S>);

/// Declares `ahash::RandomState`, the default hasher of `AHashMap`.
#[verifier::external_type_specification]
#[verifier::external_body]
pub struct ExAHashRandomState(ahash::RandomState);

/// A map from symbol value to number of occurrences.
pub type SymbolMap = AHashMap<u32, usize>;

/// The key-value pairs held by a symbol-count map.
pub uninterp spec fn counts_contents(m: SymbolMap) -> Map<u32, usize>;

/// `AHashMap::new`: a map with no entries.
#[verifier::external_body]
fn counts_map_new() -> (r: SymbolMap)
    ensures
        counts_contents(r).dom() == Set::<u32>::empty(),
{
    AHashMap::new()
}

/// `AHashMap::get`: the value stored under `key`, if any.
#[verifier::external_body]
fn counts_map_get(m: &SymbolMap, key: u32) -> (r: Option<usize>)
    ensures
        r == (if counts_contents(*m).dom().contains(key) {
            Some(counts_contents(*m)[key])
        } else {
            None
        }),
{
    m.get(&key).copied()
}

/// `AHashMap::insert`: stores `value` under `key`, replacing any earlier value.
#[verifier::external_body]
fn counts_map_insert(m: &mut SymbolMap, key: u32, value: usize)
    ensures
        counts_contents(*final(m)) == counts_contents(*old(m)).insert(key, value),
{
    m.insert(key, value);
}

/// `AHashMap::into_iter`, collected: every entry of the map once, as
/// `(key, value)`, in an order that the contract leaves open.
#[verifier::external_body]
fn counts_map_into_pairs(m: SymbolMap) -> (r: Vec<(u32, usize)>)
    ensures
        forall|i: int|
            0 <= i < r@.len() ==> counts_contents(m).dom().contains(#[trigger] r@[i].0)
                && counts_contents(m)[r@[i].0] == r@[i].1,
        forall|i: int, j: int| 0 <= i < j < r@.len() ==> #[trigger] r@[i].0 != #[trigger] r@[j].0,
        forall|key: u32|
            #[trigger] counts_contents(m).dom().contains(key) ==> exists|i: int|
                0 <= i < r@.len() && #[trigger] r@[i].0 == key,
{
    m.into_iter().collect()
}

/// Symbol width of the entropy analyzer.
#[derive(Copy, Clone, Debug, PartialEq, Eq, Structural)]
pub enum BucketSize {
    B1,
    B2,
    B4,
}

pub open spec fn bucket_bytes(b: BucketSize) -> int {
    match b {
        BucketSize::B1 => 1,
        BucketSize::B2 => 2,
        BucketSize::B4 => 4,
    }
}

impl BucketSize {
    /// Bytes per symbol: 1, 2 or 4.
    pub fn bytes(self) -> (r: usize)
        ensures
            r == bucket_bytes(self),
    {
        match self {
            BucketSize::B1 => 1,
            BucketSize::B2 => 2,
            BucketSize::B4 => 4,
        }
    }
}

impl Default for BucketSize {
    fn default() -> (r: Self)
        ensures
            r == BucketSize::B1,
    {
        BucketSize::B1
    }
}

/// Value of the `k`-byte little-endian symbol number `i` of `data`.
pub open spec fn le_symbol(data: Seq<u8>, k: int, i: int) -> u32 {
    let j = i * k;
    if k == 1 {
        data[j] as u32
    } else if k == 2 {
        (data[j] + 256 * data[j + 1]) as u32
    } else {
        (data[j] + 256 * data[j + 1] + 65536 * data[j + 2] + 16777216 * data[j + 3]) as u32
    }
}

/// The complete `k`-byte symbols of `data`; a trailing partial symbol is
/// ignored.
pub open spec fn symbols(data: Seq<u8>, k: int) -> Seq<u32> {
    Seq::new(((data.len() as int) / k) as nat, |i: int| le_symbol(data, k, i))
}

/// Number of occurrences of `v` in `s`.
pub open spec fn occurrences(s: Seq<u32>, v: u32) -> nat
    decreases s.len(),
{
    if s.len() == 0 {
        0
    } else {
        occurrences(s.drop_last(), v) + if s.last() == v {
            1nat
        } else {
            0nat
        }
    }
}

/// Occurrences add up over a concatenation, and a single symbol occurs once
/// exactly when it is the value looked for.
pub proof fn lemma_occurrences_concat(s: Seq<u32>, t: Seq<u32>, v: u32, w: u32)
    ensures
        occurrences(s + t, v) == occurrences(s, v) + occurrences(t, v),
        occurrences(seq![w], v) == if w == v {
            1nat
        } else {
            0nat
        },
    decreases t.len(),
{
    assert(seq![w].drop_last() =~= Seq::<u32>::empty());
    assert(occurrences(Seq::<u32>::empty(), v) == 0);
    if t.len() == 0 {
        assert(s + t =~= s);
    } else {
        assert((s + t).drop_last() =~= s + t.drop_last());
        lemma_occurrences_concat(s, t.drop_last(), v, w);
    }
}

/// The symbols are read little-endian: symbol `i` of width `k` is built
/// from bytes `i * k` to `i * k + k - 1`, the first the least significant,
/// and there are `len / k` of them.
pub proof fn lemma_symbols_little_endian(data: Seq<u8>, k: int, i: int)
    requires
        k == 1 || k == 2 || k == 4,
        0 <= i < (data.len() as int) / k,
    ensures
        symbols(data, k).len() == (data.len() as int) / k,
        k == 1 ==> symbols(data, k)[i] == data[i],
        k == 2 ==> symbols(data, k)[i] % 256 == data[2 * i] && symbols(data, k)[i] / 256 == data[2 * i
            + 1],
        k == 4 ==> symbols(data, k)[i] % 256 == data[4 * i] && (symbols(data, k)[i] / 256) % 256
            == data[4 * i + 1] && (symbols(data, k)[i] / 65536) % 256 == data[4 * i + 2]
            && symbols(data, k)[i] / 16777216 == data[4 * i + 3],
{
    assert(i * k + k <= data.len()) by (nonlinear_arith)
        requires
            0 <= i < (data.len() as int) / k,
            k >= 1,
    ;
    if k == 2 {
        assert(i * 2 == 2 * i);
    }
    if k == 4 {
        assert(i * 4 == 4 * i);
    }
}

proof fn lemma_occurrences_step(s: Seq<u32>, i: int)
    requires
        0 <= i < s.len(),
    ensures
        forall|v: u32|
            #[trigger] occurrences(s.subrange(0, i + 1), v) == occurrences(s.subrange(0, i), v)
                + if s[i] == v {
                1nat
            } else {
                0nat
            },
{
    assert(s.subrange(0, i + 1).drop_last() =~= s.subrange(0, i));
}

proof fn lemma_occurrences_le_len(s: Seq<u32>, v: u32)
    ensures
        occurrences(s, v) <= s.len(),
    decreases s.len(),
{
    if s.len() > 0 {
        lemma_occurrences_le_len(s.drop_last(), v);
    }
}

/// Symbol counts of a window.
pub enum SymbolCounts {
    /// `t[v]` is the number of occurrences of symbol `v`, for every symbol value.
    Dense(Vec<usize>),
    /// One `(symbol, count)` pair for each symbol that occurs.
    Sparse(Vec<(u32, usize)>),
}

/// The dense table `t` counts every symbol of `syms`, over `2^(8k)` values.
pub open spec fn dense_exact(t: Seq<usize>, syms: Seq<u32>, k: int) -> bool {
    &&& t.len() == if k == 1 {
        256int
    } else {
        65536int
    }
    &&& forall|v: int| 0 <= v < t.len() ==> #[trigger] t[v] == occurrences(syms, v as u32)
}

/// The pairs `p` list each symbol of `syms` exactly once with its number of
/// occurrences.
pub open spec fn sparse_exact(p: Seq<(u32, usize)>, syms: Seq<u32>) -> bool {
    &&& forall|i: int|
        0 <= i < p.len() ==> #[trigger] p[i].1 == occurrences(syms, p[i].0) && p[i].1 > 0
    &&& forall|i: int, j: int| 0 <= i < j < p.len() ==> #[trigger] p[i].0 != #[trigger] p[j].0
    &&& forall|v: u32|
        #[trigger] occurrences(syms, v) > 0 ==> exists|i: int| 0 <= i < p.len() && #[trigger] p[i].0 == v
}

/// `c` counts the symbols `syms` exactly.
pub open spec fn counts_exact(c: SymbolCounts, syms: Seq<u32>, k: int) -> bool {
    match c {
        SymbolCounts::Dense(t) => dense_exact(t@, syms, k),
        SymbolCounts::Sparse(p) => sparse_exact(p@, syms),
    }
}

/// Reads the `k`-byte little-endian symbol number `i`.
fn read_symbol(data: &[u8], k: usize, i: usize) -> (r: u32)
    requires
        k == 1 || k == 2 || k == 4,
        i < data.len() / k,
    ensures
        r == le_symbol(data@, k as int, i as int),
{
    proof {
        assert(i * k + k <= data.len()) by (nonlinear_arith)
            requires
                i < data.len() / k,
                k >= 1,
        ;
    }
    let j = i * k;
    if k == 1 {
        data[j] as u32
    } else if k == 2 {
        data[j] as u32 + 256 * (data[j + 1] as u32)
    } else {
        data[j] as u32 + 256 * (data[j + 1] as u32) + 65536 * (data[j + 2] as u32) + 16777216 * (
        data[j + 3] as u32)
    }
}

/// Dense count table of the `k`-byte symbols of `data` (`k` is 1 or 2).
fn dense_counts(data: &[u8], k: usize) -> (t: Vec<usize>)
    requires
        k == 1 || k == 2,
    ensures
        dense_exact(t@, symbols(data@, k as int), k as int),
{
    let size: usize = if k == 1 {
        256
    } else {
        65536
    };
    let mut t: Vec<usize> = Vec::new();
    let mut v: usize = 0;
    while v < size
        invariant
            v <= size,
            t@.len() == v,
            forall|w: int| 0 <= w < v ==> #[trigger] t@[w] == 0,
        decreases size - v,
    {
        t.push(0);
        v = v + 1;
    }
    let n = data.len() / k;
    let ghost syms = symbols(data@, k as int);
    let mut i: usize = 0;
    assert(syms.subrange(0, 0) =~= Seq::<u32>::empty());
    while i < n
        invariant
            k == 1 || k == 2,
            n == data.len() / k,
            syms == symbols(data@, k as int),
            syms.len() == n,
            i <= n,
            t@.len() == size,
            size == (if k == 1 {
                256int
            } else {
                65536int
            }),
            forall|w: int|
                0 <= w < size ==> #[trigger] t@[w] == occurrences(syms.subrange(0, i as int), w as u32),
        decreases n - i,
    {
        let sym = read_symbol(data, k, i);
        proof {
            lemma_occurrences_step(syms, i as int);
            lemma_occurrences_le_len(syms.subrange(0, i as int), sym);
            if k == 1 {
                assert(sym < 256);
            } else {
                assert(sym < 65536);
            }
        }
        let c = t[sym as usize];
        t.set(sym as usize, c + 1);
        proof {
            assert forall|w: int| 0 <= w < size implies #[trigger] t@[w] == occurrences(
                syms.subrange(0, i + 1),
                w as u32,
            ) by {
                assert(occurrences(syms.subrange(0, i + 1), w as u32) == occurrences(
                    syms.subrange(0, i as int),
                    w as u32,
                ) + if syms[i as int] == w as u32 {
                    1nat
                } else {
                    0nat
                });
            }
        }
        i = i + 1;
    }
    assert(syms.subrange(0, n as int) =~= syms);
    t
}

/// Sparse counts of the `k`-byte symbols of `data`, gathered in an `AHashMap`.
fn sparse_counts(data: &[u8], k: usize) -> (p: Vec<(u32, usize)>)
    requires
        k == 1 || k == 2 || k == 4,
    ensures
        sparse_exact(p@, symbols(data@, k as int)),
{
    let n = data.len() / k;
    let ghost syms = symbols(data@, k as int);
    let mut m = counts_map_new();
    let mut i: usize = 0;
    assert(syms.subrange(0, 0) =~= Seq::<u32>::empty());
    while i < n
        invariant
            k == 1 || k == 2 || k == 4,
            n == data.len() / k,
            syms == symbols(data@, k as int),
            syms.len() == n,
            i <= n,
            forall|v: u32|
                #[trigger] counts_contents(m).dom().contains(v) <==> occurrences(
                    syms.subrange(0, i as int),
                    v,
                ) > 0,
            forall|v: u32|
                #[trigger] counts_contents(m).dom().contains(v) ==> counts_contents(m)[v]
                    == occurrences(syms.subrange(0, i as int), v),
        decreases n - i,
    {
        let sym = read_symbol(data, k, i);
        proof {
            lemma_occurrences_step(syms, i as int);
            lemma_occurrences_le_len(syms.subrange(0, i as int), sym);
        }
        match counts_map_get(&m, sym) {
            Some(c) => counts_map_insert(&mut m, sym, c + 1),
            None => counts_map_insert(&mut m, sym, 1),
        }
        proof {
            assert forall|v: u32| #[trigger]
                counts_contents(m).dom().contains(v) <==> occurrences(syms.subrange(0, i + 1), v)
                    > 0 by {
                assert(occurrences(syms.subrange(0, i + 1), v) == occurrences(
                    syms.subrange(0, i as int),
                    v,
                ) + if syms[i as int] == v {
                    1nat
                } else {
                    0nat
                });
            }
            assert forall|v: u32| #[trigger]
                counts_contents(m).dom().contains(v) implies counts_contents(m)[v] == occurrences(
                syms.subrange(0, i + 1),
                v,
            ) by {
                assert(occurrences(syms.subrange(0, i + 1), v) == occurrences(
                    syms.subrange(0, i as int),
                    v,
                ) + if syms[i as int] == v {
                    1nat
                } else {
                    0nat
                });
            }
        }
        i = i + 1;
    }
    assert(syms.subrange(0, n as int) =~= syms);
    let ghost contents = counts_contents(m);
    let p = counts_map_into_pairs(m);
    assert forall|v: u32| #[trigger] occurrences(syms, v) > 0 implies exists|i: int|
        0 <= i < p@.len() && #[trigger] p@[i].0 == v by {
        assert(contents.dom().contains(v));
    }
    assert forall|i: int| 0 <= i < p@.len() implies #[trigger] p@[i].1 == occurrences(syms, p@[i].0)
        && p@[i].1 > 0 by {
        assert(contents.dom().contains(p@[i].0));
    }
    p
}

/// Normalized Shannon entropy over symbols of the chosen width.
#[derive(Copy, Clone, Debug, PartialEq, Eq, Structural)]
pub struct EntropyAnalyzer {
    pub bucket: BucketSize,
}

impl Default for EntropyAnalyzer {
    fn default() -> (r: Self)
        ensures
            r.bucket == BucketSize::B1,
    {
        EntropyAnalyzer { bucket: BucketSize::B1 }
    }
}

impl EntropyAnalyzer {
    /// Counts of the complete symbols of `data`, with the number of symbols;
    /// `None` when `data` is shorter than one symbol. One- and two-byte
    /// symbols are counted in a dense table, four-byte symbols in a hash map.
    pub fn symbol_counts(&self, data: &[u8]) -> (r: Option<(SymbolCounts, usize)>)
        ensures
            data.len() < bucket_bytes(self.bucket) <==> r is None,
            r matches Some((c, n)) ==> {
                &&& n == (data.len() as int) / bucket_bytes(self.bucket)
                &&& n > 0
                &&& counts_exact(c, symbols(data@, bucket_bytes(self.bucket)), bucket_bytes(self.bucket))
                &&& (c is Dense <==> self.bucket != BucketSize::B4)
            },
    {
        let k = self.bucket.bytes();
        if data.len() < k {
            return None;
        }
        let n = data.len() / k;
        let c = match self.bucket {
            BucketSize::B1 => SymbolCounts::Dense(dense_counts(data, 1)),
            BucketSize::B2 => SymbolCounts::Dense(dense_counts(data, 2)),
            BucketSize::B4 => SymbolCounts::Sparse(sparse_counts(data, 4)),
        };
        Some((c, n))
    }

    /// Like `symbol_counts`, but only one-byte symbols use a dense table; two-
    /// and four-byte symbols are counted in a hash map, which avoids large
    /// tables when many small slices are measured.
    pub fn symbol_counts_sparse(&self, data: &[u8]) -> (r: Option<(SymbolCounts, usize)>)
        ensures
            data.len() < bucket_bytes(self.bucket) <==> r is None,
            r matches Some((c, n)) ==> {
                &&& n == (data.len() as int) / bucket_bytes(self.bucket)
                &&& n > 0
                &&& counts_exact(c, symbols(data@, bucket_bytes(self.bucket)), bucket_bytes(self.bucket))
                &&& (c is Dense <==> self.bucket == BucketSize::B1)
            },
    {
        let k = self.bucket.bytes();
        if data.len() < k {
            return None;
        }
        let n = data.len() / k;
        let c = match self.bucket {
            BucketSize::B1 => SymbolCounts::Dense(dense_counts(data, 1)),
            BucketSize::B2 => SymbolCounts::Sparse(sparse_counts(data, 2)),
            BucketSize::B4 => SymbolCounts::Sparse(sparse_counts(data, 4)),
        };
        Some((c, n))
    }

    /// Chart label of the analyzer for its symbol width.
    pub fn metric_label(&self) -> (r: &'static str)
        ensures
            self.bucket == BucketSize::B1 ==> r@ == "entropy-1 (0..1)"@,
            self.bucket == BucketSize::B2 ==> r@ == "entropy-2 (0..1)"@,
            self.bucket == BucketSize::B4 ==> r@ == "entropy-4 (0..1)"@,
    {
        match self.bucket {
            BucketSize::B1 => "entropy-1 (0..1)",
            BucketSize::B2 => "entropy-2 (0..1)",
            BucketSize::B4 => "entropy-4 (0..1)",
        }
    }

    /// Name of the analyzer.
    pub fn name(&self) -> (r: &'static str)
        ensures
            r@ == "Shannon Entropy"@,
    {
        "Shannon Entropy"
    }
}

/// The dense and the sparse counting of the same symbols agree: every listed
/// pair has the table's count, and every symbol with a non-zero table entry
/// is listed.
pub proof fn lemma_dense_sparse_agree(t: Seq<usize>, p: Seq<(u32, usize)>, syms: Seq<u32>, k: int)
    requires
        k == 1 || k == 2,
        forall|i: int| 0 <= i < syms.len() ==> #[trigger] syms[i] < t.len(),
        dense_exact(t, syms, k),
        sparse_exact(p, syms),
    ensures
        forall|i: int| 0 <= i < p.len() ==> #[trigger] p[i].0 < t.len() && t[p[i].0 as int] == p[i].1,
        forall|v: int|
            0 <= v < t.len() && #[trigger] t[v] > 0 ==> exists|i: int|
                0 <= i < p.len() && #[trigger] p[i].0 == v as u32,
{
    assert forall|i: int| 0 <= i < p.len() implies #[trigger] p[i].0 < t.len() && t[p[i].0 as int]
        == p[i].1 by {
        let v = p[i].0;
        assert(p[i].1 == occurrences(syms, p[i].0) && p[i].1 > 0);
        lemma_occurs_in(syms, v);
        let j = choose|j: int| 0 <= j < syms.len() && syms[j] == v;
        assert(syms[j] < t.len());
        assert(((v as int) as u32) == v);
    }
    assert forall|v: int| 0 <= v < t.len() && #[trigger] t[v] > 0 implies exists|i: int|
        0 <= i < p.len() && #[trigger] p[i].0 == v as u32 by {
        assert(occurrences(syms, v as u32) > 0);
    }
}

proof fn lemma_occurs_in(s: Seq<u32>, v: u32)
    requires
        occurrences(s, v) > 0,
    ensures
        exists|j: int| 0 <= j < s.len() && s[j] == v,
    decreases s.len(),
{
    if s.last() != v {
        lemma_occurs_in(s.drop_last(), v);
        let j = choose|j: int| 0 <= j < s.drop_last().len() && s.drop_last()[j] == v;
        assert(s[j] == v);
    }
}

/// Sum of the first `n` entries of a dense count table.
pub open spec fn table_total(t: Seq<usize>, n: int) -> int
    decreases n,
{
    if n <= 0 {
        0
    } else {
        table_total(t, n - 1) + t[n - 1]
    }
}

/// Sum of the counts of the first `n` pairs.
pub open spec fn pairs_total(p: Seq<(u32, usize)>, n: int) -> int
    decreases n,
{
    if n <= 0 {
        0
    } else {
        pairs_total(p, n - 1) + p[n - 1].1
    }
}

/// Sum over the first `n` symbol values of their occurrences in `s`.
spec fn occ_below(s: Seq<u32>, n: int) -> int
    decreases n,
{
    if n <= 0 {
        0
    } else {
        occ_below(s, n - 1) + occurrences(s, (n - 1) as u32)
    }
}

proof fn lemma_occ_below_step(s: Seq<u32>, n: int)
    requires
        0 <= n <= 65536,
        s.len() > 0,
    ensures
        occ_below(s, n) == occ_below(s.drop_last(), n) + if s.last() < n {
            1int
        } else {
            0int
        },
    decreases n,
{
    if n > 0 {
        lemma_occ_below_step(s, n - 1);
    }
}

proof fn lemma_occ_below_empty(s: Seq<u32>, n: int)
    requires
        s.len() == 0,
    ensures
        occ_below(s, n) == 0,
    decreases n,
{
    if n > 0 {
        lemma_occ_below_empty(s, n - 1);
    }
}

proof fn lemma_occ_below_all(s: Seq<u32>, n: int)
    requires
        0 <= n <= 65536,
        forall|i: int| 0 <= i < s.len() ==> #[trigger] s[i] < n,
    ensures
        occ_below(s, n) == s.len(),
    decreases s.len(),
{
    if s.len() > 0 {
        lemma_occ_below_step(s, n);
        assert(s.last() == s[s.len() - 1]);
        assert forall|i: int| 0 <= i < s.drop_last().len() implies #[trigger] s.drop_last()[i] < n by {
            assert(s.drop_last()[i] == s[i]);
        }
        lemma_occ_below_all(s.drop_last(), n);
    } else {
        lemma_occ_below_empty(s, n);
    }
}

proof fn lemma_table_prefix(t: Seq<usize>, syms: Seq<u32>, k: int, n: int)
    requires
        k == 1 || k == 2,
        dense_exact(t, syms, k),
        0 <= n <= t.len(),
    ensures
        table_total(t, n) == occ_below(syms, n),
    decreases n,
{
    if n > 0 {
        lemma_table_prefix(t, syms, k, n - 1);
        assert(t[n - 1] == occurrences(syms, (n - 1) as u32));
    }
}

/// Number of indices `i < n` with `p[i].0 == v`.
spec fn key_count(p: Seq<(u32, usize)>, v: u32, n: int) -> int
    decreases n,
{
    if n <= 0 {
        0
    } else {
        key_count(p, v, n - 1) + if p[n - 1].0 == v {
            1int
        } else {
            0int
        }
    }
}

/// Sum over the first `n` pairs of the occurrences of their symbols in `s`.
spec fn occ_of_keys(p: Seq<(u32, usize)>, s: Seq<u32>, n: int) -> int
    decreases n,
{
    if n <= 0 {
        0
    } else {
        occ_of_keys(p, s, n - 1) + occurrences(s, p[n - 1].0)
    }
}

proof fn lemma_occ_of_keys_step(p: Seq<(u32, usize)>, s: Seq<u32>, n: int)
    requires
        s.len() > 0,
        0 <= n,
    ensures
        occ_of_keys(p, s, n) == occ_of_keys(p, s.drop_last(), n) + key_count(p, s.last(), n),
    decreases n,
{
    if n > 0 {
        lemma_occ_of_keys_step(p, s, n - 1);
    }
}

/// Symbol `v` is the key of one of the first `n` pairs.
spec fn listed_before(p: Seq<(u32, usize)>, v: u32, n: int) -> bool {
    exists|i: int| 0 <= i < n && #[trigger] p[i] == (v, p[i].1)
}

proof fn lemma_key_count_distinct(p: Seq<(u32, usize)>, v: u32, n: int)
    requires
        0 <= n <= p.len(),
        forall|i: int, j: int| 0 <= i < j < p.len() ==> #[trigger] p[i].0 != #[trigger] p[j].0,
    ensures
        key_count(p, v, n) == if listed_before(p, v, n) {
            1int
        } else {
            0int
        },
    decreases n,
{
    if n > 0 {
        lemma_key_count_distinct(p, v, n - 1);
        if p[n - 1].0 == v {
            if listed_before(p, v, n - 1) {
                let i = choose|i: int| 0 <= i < n - 1 && #[trigger] p[i] == (v, p[i].1);
                assert(p[i].0 != p[n - 1].0);
            }
            assert(p[n - 1] == (v, p[n - 1].1));
        } else {
            if listed_before(p, v, n) {
                let i = choose|i: int| 0 <= i < n && #[trigger] p[i] == (v, p[i].1);
                assert(i != n - 1);
                assert(listed_before(p, v, n - 1));
            }
            if listed_before(p, v, n - 1) {
                let i = choose|i: int| 0 <= i < n - 1 && #[trigger] p[i] == (v, p[i].1);
                assert(listed_before(p, v, n));
            }
        }
    }
}

/// Symbol `v` is the key of some pair.
spec fn key_listed(p: Seq<(u32, usize)>, v: u32) -> bool {
    exists|j: int| 0 <= j < p.len() && #[trigger] p[j].0 == v
}

proof fn lemma_occ_of_keys_total(p: Seq<(u32, usize)>, s: Seq<u32>)
    requires
        forall|i: int, j: int| 0 <= i < j < p.len() ==> #[trigger] p[i].0 != #[trigger] p[j].0,
        forall|i: int| 0 <= i < s.len() ==> key_listed(p, #[trigger] s[i]),
    ensures
        occ_of_keys(p, s, p.len() as int) == s.len(),
    decreases s.len(),
{
    if s.len() > 0 {
        let x = s.last();
        assert(s[s.len() - 1] == x);
        lemma_occ_of_keys_step(p, s, p.len() as int);
        lemma_key_count_distinct(p, x, p.len() as int);
        assert(key_listed(p, s[s.len() - 1]));
        let j = choose|j: int| 0 <= j < p.len() && #[trigger] p[j].0 == x;
        assert(p[j] == (x, p[j].1));
        assert(listed_before(p, x, p.len() as int));
        let t = s.drop_last();
        assert forall|i: int| 0 <= i < t.len() implies key_listed(p, #[trigger] t[i]) by {
            assert(t[i] == s[i]);
        }
        lemma_occ_of_keys_total(p, t);
    } else {
        lemma_occ_of_keys_zero(p, s, p.len() as int);
    }
}

proof fn lemma_occ_of_keys_zero(p: Seq<(u32, usize)>, s: Seq<u32>, n: int)
    requires
        s.len() == 0,
    ensures
        occ_of_keys(p, s, n) == 0,
    decreases n,
{
    if n > 0 {
        lemma_occ_of_keys_zero(p, s, n - 1);
    }
}

proof fn lemma_pairs_prefix(p: Seq<(u32, usize)>, s: Seq<u32>, n: int)
    requires
        sparse_exact(p, s),
        0 <= n <= p.len(),
    ensures
        pairs_total(p, n) == occ_of_keys(p, s, n),
    decreases n,
{
    if n > 0 {
        lemma_pairs_prefix(p, s, n - 1);
        assert(p[n - 1].1 == occurrences(s, p[n - 1].0));
    }
}

proof fn lemma_occurs_at(s: Seq<u32>, i: int)
    requires
        0 <= i < s.len(),
    ensures
        occurrences(s, s[i]) > 0,
    decreases s.len(),
{
    if i < s.len() - 1 {
        assert(s.drop_last()[i] == s[i]);
        lemma_occurs_at(s.drop_last(), i);
    }
}

/// Counting accounts for every symbol exactly once: the counts of a dense
/// table, or of the listed pairs, add up to the number of symbols.
pub proof fn lemma_counts_total(c: SymbolCounts, data: Seq<u8>, k: int)
    requires
        k == 1 || k == 2 || k == 4,
        counts_exact(c, symbols(data, k), k),
        c is Dense ==> k == 1 || k == 2,
    ensures
        match c {
            SymbolCounts::Dense(t) => table_total(t@, t@.len() as int) == (data.len() as int) / k,
            SymbolCounts::Sparse(p) => pairs_total(p@, p@.len() as int) == (data.len() as int) / k,
        },
{
    let syms = symbols(data, k);
    match c {
        SymbolCounts::Dense(t) => {
            let n = t@.len() as int;
            assert forall|i: int| 0 <= i < syms.len() implies #[trigger] syms[i] < n by {
                lemma_symbol_bound(data, k, i);
            }
            lemma_table_prefix(t@, syms, k, n);
            lemma_occ_below_all(syms, n);
        },
        SymbolCounts::Sparse(p) => {
            assert forall|i: int| 0 <= i < syms.len() implies key_listed(p@, #[trigger] syms[i]) by {
                lemma_occurs_at(syms, i);
            }
            lemma_occ_of_keys_total(p@, syms);
            lemma_pairs_prefix(p@, syms, p@.len() as int);
        },
    }
}

/// A one-byte symbol is below 256 and a two-byte symbol below 65536.
proof fn lemma_symbol_bound(data: Seq<u8>, k: int, i: int)
    requires
        k == 1 || k == 2,
        0 <= i < (data.len() as int) / k,
    ensures
        k == 1 ==> symbols(data, k)[i] < 256,
        k == 2 ==> symbols(data, k)[i] < 65536,
{
    assert(i * k + k <= data.len()) by (nonlinear_arith)
        requires
            0 <= i < (data.len() as int) / k,
            k >= 1,
    ;
}

} // verus!
