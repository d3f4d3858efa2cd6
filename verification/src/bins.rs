//! Splitting a window of bytes into equal bins (the chart's bins and the
//! Hilbert map's cells).
use vstd::prelude::*;

verus! {

/// Bytes per bin: the window length divided by the number of bins, at least 1.
pub open spec fn bin_size(len: int, bins: int) -> int {
    if len / bins >= 1 {
        len / bins
    } else {
        1
    }
}

/// Byte range `[start, end)` of bin `i` of `bins` bins over a window of `len`
/// bytes, or `None` when the bin starts at or past the end of the window.
/// Every bin but the last has `bin_size` bytes (fewer if the window ends
/// first); the last bin reaches the end of the window.
pub open spec fn bin_range(len: int, bins: int, i: int) -> Option<(int, int)> {
    let s = bin_size(len, bins);
    let start = i * s;
    if start >= len {
        None
    } else if i == bins - 1 {
        Some((start, len))
    } else if start + s <= len {
        Some((start, start + s))
    } else {
        Some((start, len))
    }
}

/// The number of bins actually used: at least one.
pub open spec fn effective_bins(bins: int) -> int {
    if bins >= 1 {
        bins
    } else {
        1
    }
}

/// Byte ranges of the bins of a window of `len` bytes split into `bins` bins
/// (at least one): entry `i` is `bin_range(len, bins, i)`.
pub fn bin_ranges(len: usize, bins: usize) -> (r: Vec<Option<(usize, usize)>>)
    ensures
        r@.len() == effective_bins(bins as int),
        forall|i: int|
            0 <= i < r@.len() ==> #[trigger] r@[i] == match bin_range(
                len as int,
                effective_bins(bins as int),
                i,
            ) {
                Some((a, b)) => Some((a as usize, b as usize)),
                None => None::<(usize, usize)>,
            },
        forall|i: int|
            0 <= i < r@.len() ==> match #[trigger] r@[i] {
                Some((a, b)) => a < b <= len,
                None => true,
            },
{
    let bins = if bins < 1 {
        1
    } else {
        bins
    };
    let mut r: Vec<Option<(usize, usize)>> = Vec::new();
    let mut i: usize = 0;
    while i < bins
        invariant
            1 <= bins,
            i <= bins,
            r@.len() == i,
            forall|k: int|
                0 <= k < i ==> #[trigger] r@[k] == match bin_range(len as int, bins as int, k) {
                    Some((a, b)) => Some((a as usize, b as usize)),
                    None => None::<(usize, usize)>,
                },
            forall|k: int|
                0 <= k < i ==> match #[trigger] r@[k] {
                    Some((a, b)) => a < b <= len,
                    None => true,
                },
        decreases bins - i,
    {
        r.push(bin_range_at(len, bins, i));
        i = i + 1;
    }
    r
}

/// Byte range `[start, end)` of bin `i` of `bins` bins (at least one) over a
/// window of `len` bytes, or `None` when the bin is empty.
pub fn bin_range_at(len: usize, bins: usize, i: usize) -> (r: Option<(usize, usize)>)
    requires
        i < effective_bins(bins as int),
    ensures
        bin_range(len as int, effective_bins(bins as int), i as int) is None ==> r is None,
        bin_range(len as int, effective_bins(bins as int), i as int) matches Some((a, b)) ==> r
            == Some((a as usize, b as usize)) && 0 <= a < b <= len,
        r matches Some((a, b)) ==> a < b <= len,
{
    let bins = if bins < 1 {
        1
    } else {
        bins
    };
    let size = if len / bins >= 1 {
        len / bins
    } else {
        1
    };
    proof {
        lemma_bin_start_bound(len as int, bins as int, i as int);
    }
    let start = i * size;
    if start >= len {
        None
    } else if i == bins - 1 {
        Some((start, len))
    } else if size <= len - start {
        Some((start, start + size))
    } else {
        Some((start, len))
    }
}

/// The start of every bin before the last one fits in the window when the
/// window is at least as long as the number of bins, and is the bin index
/// itself otherwise.
proof fn lemma_bin_start_bound(len: int, bins: int, i: int)
    requires
        0 <= len,
        1 <= bins,
        0 <= i < bins,
    ensures
        i * bin_size(len, bins) <= if len >= bins {
            len
        } else {
            i
        },
{
    if len / bins >= 1 {
        let s = len / bins;
        assert(i * s <= bins * s) by (nonlinear_arith)
            requires
                0 <= i < bins,
                s >= 1,
        ;
        assert(bins * s <= len) by (nonlinear_arith)
            requires
                s == len / bins,
                bins >= 1,
                len >= 0,
        ;
        assert(len >= bins) by (nonlinear_arith)
            requires
                s == len / bins,
                s >= 1,
                bins >= 1,
        ;
    } else {
        assert(len < bins) by (nonlinear_arith)
            requires
                len / bins < 1,
                bins >= 1,
                len >= 0,
        ;
    }
}

/// Position `p` lies in bin `i`.
pub open spec fn in_bin(len: int, bins: int, i: int, p: int) -> bool {
    match bin_range(len, bins, i) {
        Some((a, b)) => a <= p < b,
        None => false,
    }
}

/// The bin that holds position `p`.
pub open spec fn bin_of(len: int, bins: int, p: int) -> int {
    let q = p / bin_size(len, bins);
    if q < bins - 1 {
        q
    } else {
        bins - 1
    }
}

/// Binning covers the window exactly once: every byte position of the window
/// lies in exactly one bin, namely `bin_of(len, bins, p)`.
pub proof fn lemma_bins_partition(len: int, bins: int, p: int, i: int)
    requires
        1 <= bins,
        0 <= p < len,
        0 <= i < bins,
    ensures
        0 <= bin_of(len, bins, p) < bins,
        in_bin(len, bins, bin_of(len, bins, p), p),
        in_bin(len, bins, i, p) ==> i == bin_of(len, bins, p),
{
    let s = bin_size(len, bins);
    let q = p / s;
    assert(s >= 1);
    assert(q * s <= p < q * s + s) by (nonlinear_arith)
        requires
            s >= 1,
            q == p / s,
            p >= 0,
    ;
    assert(q >= 0) by (nonlinear_arith)
        requires
            s >= 1,
            q == p / s,
            p >= 0,
    ;
    let j = bin_of(len, bins, p);
    lemma_bin_start_bound(len, bins, j);
    assert(j * s <= q * s) by (nonlinear_arith)
        requires
            j <= q,
            s >= 1,
    ;
    if in_bin(len, bins, i, p) {
        lemma_bin_start_bound(len, bins, i);
        let a = i * s;
        assert(a <= p);
        if i < bins - 1 {
            assert(p < a + s);
            assert(i == q) by (nonlinear_arith)
                requires
                    i * s <= p < i * s + s,
                    q * s <= p < q * s + s,
                    s >= 1,
            ;
        } else {
            assert(i <= q) by (nonlinear_arith)
                requires
                    i * s <= p,
                    q * s <= p < q * s + s,
                    s >= 1,
            ;
        }
    }
}

/// The layout of the bins, stated on the numbers: with at least as many
/// bytes as bins, bin `i` holds the `len / bins` bytes from `i * (len /
/// bins)` on, and the last bin runs to the end of the window; with fewer
/// bytes than bins, bin `i` holds the single byte `i`, and the bins past
/// the end of the window are empty.
pub proof fn lemma_bin_layout(len: int, bins: int, i: int)
    requires
        1 <= bins,
        0 <= len,
        0 <= i < bins,
    ensures
        bins <= len && i < bins - 1 ==> bin_range(len, bins, i) == Some(
            (i * (len / bins), (i + 1) * (len / bins)),
        ),
        bins <= len ==> bin_range(len, bins, bins - 1) == Some(((bins - 1) * (len / bins), len)),
        len < bins && i < len ==> bin_range(len, bins, i) == Some((i, i + 1)),
        len < bins && i >= len ==> bin_range(len, bins, i) is None,
{
    if bins <= len {
        let s = len / bins;
        assert(s >= 1 && s * bins <= len) by (nonlinear_arith)
            requires
                1 <= bins <= len,
                s == len / bins,
        ;
        assert((i + 1) * s <= len) by (nonlinear_arith)
            requires
                0 <= i < bins,
                s >= 1,
                s * bins <= len,
        ;
        assert((bins - 1) * s + s <= len) by (nonlinear_arith)
            requires
                s * bins <= len,
        ;
        assert((i + 1) * s == i * s + s) by (nonlinear_arith);
        assert(0 <= i * s) by (nonlinear_arith)
            requires
                0 <= i,
                s >= 1,
        ;
        assert(0 <= (bins - 1) * s) by (nonlinear_arith)
            requires
                1 <= bins,
                s >= 1,
        ;
    } else {
        assert(len / bins == 0) by (nonlinear_arith)
            requires
                0 <= len < bins,
        ;
    }
}

} // verus!
