//! Transform-size selection and resampling for the spectral-flatness
//! analyzer.
use vstd::prelude::*;

use crate::hilbert::is_pow2;

verus! {

/// Smallest transform length.
pub const MIN_FFT: usize = 64;

/// Largest transform length a plan may be made for.
pub const MAX_FFT: usize = 16384;

/// The plan limit actually used for a requested limit: clamped to
/// `MIN_FFT..=MAX_FFT`.
pub open spec fn clamped_max(max_n: usize) -> int {
    if max_n < MIN_FFT {
        MIN_FFT as int
    } else if max_n > MAX_FFT {
        MAX_FFT as int
    } else {
        max_n as int
    }
}

/// The requested plan limit clamped to `MIN_FFT..=MAX_FFT`.
pub fn clamp_max_n(max_n: usize) -> (r: usize)
    ensures
        r == clamped_max(max_n),
{
    if max_n < MIN_FFT {
        MIN_FFT
    } else if max_n > MAX_FFT {
        MAX_FFT
    } else {
        max_n
    }
}

/// Transform lengths to plan for a limit `max_n` (already clamped): the
/// powers of two from `MIN_FFT` up to `max_n`, in increasing order.
pub fn plan_sizes(max_n: usize) -> (r: Vec<usize>)
    requires
        MIN_FFT <= max_n <= MAX_FFT,
    ensures
        r@.len() >= 1,
        r@[0] == MIN_FFT,
        forall|i: int| 0 <= i < r@.len() ==> is_pow2(#[trigger] r@[i] as int) && r@[i] <= max_n,
        forall|i: int| 0 <= i < r@.len() - 1 ==> #[trigger] r@[i + 1] == 2 * r@[i],
        2 * r@[r@.len() - 1] > max_n,
{
    let mut r: Vec<usize> = Vec::new();
    let mut n: usize = MIN_FFT;
    assert(is_pow2(64)) by {
        reveal_with_fuel(is_pow2, 8);
    }
    while n <= max_n
        invariant
            MIN_FFT <= max_n <= MAX_FFT,
            MIN_FFT <= n <= 2 * MAX_FFT,
            is_pow2(n as int),
            r@.len() == 0 ==> n == MIN_FFT,
            r@.len() > 0 ==> r@[0] == MIN_FFT && n == 2 * r@[r@.len() - 1],
            forall|i: int| 0 <= i < r@.len() ==> is_pow2(#[trigger] r@[i] as int) && r@[i] <= max_n,
            forall|i: int| 0 <= i < r@.len() - 1 ==> #[trigger] r@[i + 1] == 2 * r@[i],
        decreases 2 * MAX_FFT - n,
    {
        r.push(n);
        assert((2 * n) / 2 == n);
        n = n * 2;
    }
    r
}

/// Smallest power of two not below `len` (`len` at least 1).
pub open spec fn next_pow2(len: int) -> int
    decreases len,
{
    if len <= 1 {
        1
    } else {
        2 * next_pow2((len + 1) / 2)
    }
}

proof fn lemma_next_pow2(len: int)
    requires
        len >= 1,
    ensures
        is_pow2(next_pow2(len)),
        len <= next_pow2(len),
        next_pow2(len) < 2 * len,
    decreases len,
{
    if len > 1 {
        lemma_next_pow2((len + 1) / 2);
        let p = next_pow2((len + 1) / 2);
        assert((2 * p) / 2 == p);
    }
}

/// Transform length for a slice of `len` bytes with plan limit `max_n`: the
/// next power of two of `len`, capped at `max_n`; `None` for slices shorter
/// than `MIN_FFT` bytes or when the length falls below `MIN_FFT`.
pub open spec fn fft_len(max_n: usize, len: usize) -> Option<usize> {
    if len < MIN_FFT {
        None
    } else {
        let n = if next_pow2(len as int) > max_n {
            max_n as int
        } else {
            next_pow2(len as int)
        };
        if n < MIN_FFT {
            None
        } else {
            Some(n as usize)
        }
    }
}

/// `fft_len`, computed by doubling.
pub fn pick_n(max_n: usize, len: usize) -> (r: Option<usize>)
    requires
        len <= usize::MAX / 2 + 1,
    ensures
        r == fft_len(max_n, len),
{
    if len < MIN_FFT {
        return None;
    }
    let mut p: usize = 1;
    proof {
        lemma_next_pow2(len as int);
    }
    while p < len
        invariant
            1 <= p,
            is_pow2(p as int),
            p < 2 * len,
            MIN_FFT <= len <= usize::MAX / 2 + 1,
            forall|q: int| is_pow2(q) && q < p ==> q < len,
        decreases 2 * len - p,
    {
        proof {
            lemma_pow2_step(p as int);
        }
        p = p * 2;
    }
    proof {
        lemma_next_pow2_unique(len as int, p as int);
    }
    let mut n = p;
    if n > max_n {
        n = max_n;
    }
    if n < MIN_FFT {
        return None;
    }
    Some(n)
}

/// Every power of two below `2p` other than `2p` itself is at most `p`.
proof fn lemma_pow2_step(p: int)
    requires
        is_pow2(p),
    ensures
        is_pow2(2 * p),
        forall|q: int| is_pow2(q) && q < 2 * p ==> q <= p,
{
    assert((2 * p) / 2 == p);
    assert forall|q: int| is_pow2(q) && q < 2 * p implies q <= p by {
        lemma_pow2_ordered(q, p);
    }
}

/// Two powers of two: either the first is at most the second, or at least
/// twice it.
proof fn lemma_pow2_ordered(q: int, p: int)
    requires
        is_pow2(q),
        is_pow2(p),
    ensures
        q <= p || q >= 2 * p,
    decreases q,
{
    if q > 1 && p > 1 {
        lemma_pow2_ordered(q / 2, p / 2);
    }
}

/// The smallest power of two not below `len` is `next_pow2(len)`.
proof fn lemma_next_pow2_unique(len: int, p: int)
    requires
        len >= 1,
        is_pow2(p),
        p >= len,
        forall|q: int| is_pow2(q) && q < p ==> q < len,
    ensures
        p == next_pow2(len),
{
    lemma_next_pow2(len);
    let np = next_pow2(len);
    lemma_pow2_ordered(np, p);
    lemma_pow2_ordered(p, np);
    if np < p {
        assert(np < len);
    }
}

/// The transform length for a slice of `len` bytes, stated with the power
/// of two `p` that `len` reaches (`len <= p < 2 * len`): `p` capped at the
/// limit `max_n`; no transform for slices shorter than `MIN_FFT` bytes or
/// a limit below `MIN_FFT`.
pub proof fn lemma_fft_len(max_n: usize, len: usize, p: int)
    requires
        is_pow2(p),
        len <= p < 2 * len,
    ensures
        len < MIN_FFT ==> fft_len(max_n, len) is None,
        len >= MIN_FFT && max_n < MIN_FFT ==> fft_len(max_n, len) is None,
        len >= MIN_FFT && max_n >= MIN_FFT ==> fft_len(max_n, len) == Some(
            (if p <= max_n {
                p
            } else {
                max_n as int
            }) as usize,
        ),
{
    assert forall|q: int| is_pow2(q) && q < p implies q < len by {
        lemma_pow2_ordered(p, q);
    }
    lemma_next_pow2_unique(len as int, p);
}

/// Evenly resamples `sample` to `n` points: point `i` is byte
/// `sample[i * len / n]`.
pub fn resample(sample: &[u8], n: usize) -> (r: Vec<u8>)
    requires
        sample.len() > 0,
        n > 0,
        (n - 1) * sample.len() <= usize::MAX,
    ensures
        r@.len() == n,
        forall|i: int| 0 <= i < n ==> #[trigger] r@[i] == sample@[(i * sample.len()) / (n as int)],
{
    let len = sample.len();
    let mut r: Vec<u8> = Vec::new();
    let mut i: usize = 0;
    while i < n
        invariant
            len == sample.len(),
            len > 0,
            n > 0,
            (n - 1) * len <= usize::MAX,
            i <= n,
            r@.len() == i,
            forall|k: int| 0 <= k < i ==> #[trigger] r@[k] == sample@[(k * len) / (n as int)],
        decreases n - i,
    {
        proof {
            assert(i * len <= (n - 1) * len) by (nonlinear_arith)
                requires
                    i < n,
                    len > 0,
            ;
            assert((i * len) / (n as int) < len) by (nonlinear_arith)
                requires
                    i < n,
                    len > 0,
                    n > 0,
            ;
            assert((i * len) / (n as int) >= 0) by (nonlinear_arith)
                requires
                    n > 0,
                    i >= 0,
                    len >= 0,
            ;
        }
        let idx = (i * len) / n;
        r.push(sample[idx]);
        i = i + 1;
    }
    r
}

/// Number of spectrum bins used for flatness: `n / 2`, at least 2.
pub fn spectrum_end(n: usize) -> (r: usize)
    ensures
        r == if n / 2 < 2 {
            2
        } else {
            n / 2
        },
{
    if n / 2 < 2 {
        2
    } else {
        n / 2
    }
}

} // verus!
