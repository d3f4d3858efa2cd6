//! Hilbert-curve layout of the window for the heat-map view.
use vstd::arithmetic::div_mod::{
    lemma_div_denominator, lemma_fundamental_div_mod, lemma_fundamental_div_mod_converse,
    lemma_mod_breakdown, lemma_mod_mod,
};
use vstd::arithmetic::power2::{lemma2_to64, lemma_pow2_unfold, pow2};
use vstd::prelude::*;
use vstd::set_lib::{lemma_int_range, lemma_map_size, lemma_subset_equality, set_int_range};

verus! {

/// `n` is a power of two.
pub open spec fn is_pow2(n: int) -> bool
    decreases n,
{
    if n <= 0 {
        false
    } else if n == 1 {
        true
    } else {
        n % 2 == 0 && is_pow2(n / 2)
    }
}

/// The powers of two are exactly the numbers `2^k`.
pub proof fn lemma_is_pow2_exp(n: int)
    ensures
        is_pow2(n) <==> exists|k: nat| n == pow2(k),
    decreases (if n > 0 {
        n
    } else {
        0
    }),
{
    if n <= 0 {
        assert forall|k: nat| n != pow2(k) by {
            vstd::arithmetic::power2::lemma_pow2_pos(k);
        }
    } else if n == 1 {
        lemma2_to64();
        assert(n == pow2(0));
    } else {
        lemma_is_pow2_exp(n / 2);
        if is_pow2(n) {
            let k = choose|k: nat| n / 2 == pow2(k);
            lemma_pow2_unfold(k + 1);
            assert(n == pow2(k + 1));
        }
        if exists|k: nat| n == pow2(k) {
            let k = choose|k: nat| n == pow2(k);
            if k == 0 {
                lemma2_to64();
            } else {
                lemma_pow2_unfold(k);
                let j = (k - 1) as nat;
                assert(n / 2 == pow2(j));
            }
        }
    }
}

proof fn lemma_pow2_double(n: int)
    requires
        is_pow2(n),
    ensures
        is_pow2(2 * n),
{
    assert((2 * n) / 2 == n);
}

/// The largest power of two not above `max_side`, or 0 when `max_side` is 0.
pub fn best_pow2_side(max_side: u16) -> (r: u16)
    ensures
        max_side == 0 ==> r == 0,
        max_side >= 1 ==> is_pow2(r as int) && r <= max_side < 2 * r,
{
    if max_side == 0 {
        return 0;
    }
    let mut s: u16 = 1;
    while s <= max_side / 2
        invariant
            1 <= max_side,
            1 <= s <= max_side,
            is_pow2(s as int),
        decreases max_side - s,
    {
        proof {
            lemma_pow2_double(s as int);
        }
        s = s * 2;
    }
    s
}

/// One level of the curve: the point `(x, y)` of the `s × s` sub-square is
/// reflected or transposed by the two low bits of `t` and placed in the
/// quadrant they select.
pub open spec fn hilbert_step(s: int, x: int, y: int, t: int) -> (int, int) {
    let rx = (t / 2) % 2;
    let ry = if t % 2 == rx {
        0int
    } else {
        1int
    };
    let (nx, ny) = if ry == 0 {
        if rx == 1 {
            (s - 1 - y, s - 1 - x)
        } else {
            (y, x)
        }
    } else {
        (x, y)
    };
    (nx + s * rx, ny + s * ry)
}

/// Continues the walk from level `s` with the remaining digits `t`.
pub open spec fn hilbert_from(n: int, s: int, x: int, y: int, t: int) -> (int, int)
    decreases (if s < n {
        n - s
    } else {
        0
    }),
{
    if s < 1 || s >= n {
        (x, y)
    } else {
        let (x2, y2) = hilbert_step(s, x, y, t);
        hilbert_from(n, 2 * s, x2, y2, t / 4)
    }
}

/// Cell `(x, y)` of distance `d` along the Hilbert curve of an `n × n` grid.
pub open spec fn hilbert_d2xy(n: int, d: int) -> (int, int) {
    hilbert_from(n, 1, 0, 0, d)
}

proof fn lemma_step_bounds(s: int, x: int, y: int, t: int)
    requires
        s >= 1,
        0 <= x < s,
        0 <= y < s,
        t >= 0,
    ensures
        0 <= hilbert_step(s, x, y, t).0 < 2 * s,
        0 <= hilbert_step(s, x, y, t).1 < 2 * s,
{
}

proof fn lemma_from_bounds(n: int, s: int, x: int, y: int, t: int)
    requires
        s >= 1,
        is_pow2(s),
        0 <= x < s,
        0 <= y < s,
        t >= 0,
        s <= n,
        is_pow2(n),
    ensures
        0 <= hilbert_from(n, s, x, y, t).0 < n,
        0 <= hilbert_from(n, s, x, y, t).1 < n,
    decreases n - s,
{
    if s < n {
        lemma_step_bounds(s, x, y, t);
        lemma_pow2_double(s);
        lemma_pow2_le(s, n);
        let (x2, y2) = hilbert_step(s, x, y, t);
        lemma_from_bounds(n, 2 * s, x2, y2, t / 4);
    }
}

/// Between two powers of two, the smaller one at most halves the larger one.
proof fn lemma_pow2_le(s: int, n: int)
    requires
        is_pow2(s),
        is_pow2(n),
        s < n,
    ensures
        2 * s <= n,
    decreases n,
{
    if s > 1 {
        lemma_pow2_le(s / 2, n / 2);
    }
}

/// On a grid whose side is a power of two, every distance lands on a cell
/// inside the grid.
pub proof fn lemma_d2xy_in_grid(n: int, d: int)
    requires
        is_pow2(n),
        d >= 0,
    ensures
        0 <= hilbert_d2xy(n, d).0 < n,
        0 <= hilbert_d2xy(n, d).1 < n,
{
    lemma_from_bounds(n, 1, 0, 0, d);
}

/// Reflects and transposes `(x, y)` within an `s × s` square according to
/// the quadrant bits `rx`, `ry`.
fn rot(s: u32, x: u32, y: u32, rx: u32, ry: u32) -> (r: (u32, u32))
    requires
        x < s,
        y < s,
        rx <= 1,
        ry <= 1,
    ensures
        r == (if ry == 0 {
            if rx == 1 {
                ((s - 1 - y) as u32, (s - 1 - x) as u32)
            } else {
                (y, x)
            }
        } else {
            (x, y)
        }),
{
    if ry == 0 {
        if rx == 1 {
            (s - 1 - y, s - 1 - x)
        } else {
            (y, x)
        }
    } else {
        (x, y)
    }
}

/// Cell `(x, y)` of distance `d` along the Hilbert curve of a `side × side`
/// grid (`side` should be a power of two for the cell to lie in the grid).
/// Coordinates are truncated to 16 bits.
pub fn d2xy(side: u16, d: u32) -> (r: (u16, u16))
    ensures
        r.0 == hilbert_d2xy(side as int, d as int).0 as u16,
        r.1 == hilbert_d2xy(side as int, d as int).1 as u16,
{
    let n = side as u32;
    let mut x: u32 = 0;
    let mut y: u32 = 0;
    let mut t: u32 = d;
    let mut s: u32 = 1;
    while s < n
        invariant
            n == side,
            1 <= s,
            s < 131072,
            x < s,
            y < s,
            hilbert_from(n as int, s as int, x as int, y as int, t as int) == hilbert_d2xy(
                n as int,
                d as int,
            ),
        decreases 131072 - s,
    {
        let rx = (t / 2) & 1;
        let ry = (t ^ rx) & 1;
        proof {
            assert((t / 2) & 1 == (t / 2) % 2) by (bit_vector);
            assert(rx <= 1 ==> ((t ^ rx) & 1) == (if t % 2 == rx {
                0u32
            } else {
                1u32
            })) by (bit_vector);
        }
        let (nx, ny) = rot(s, x, y, rx, ry);
        x = nx + s * rx;
        y = ny + s * ry;
        t = t / 4;
        s = s * 2;
    }
    (#[verifier::truncate] (x as u16), #[verifier::truncate] (y as u16))
}

/// Side used for the Hilbert cells: at least 2.
pub open spec fn grid_side(side: u16) -> int {
    if side < 2 {
        2
    } else {
        side as int
    }
}

/// Row-major index of the cell that distance `d` is drawn in, or `None` when
/// the curve point falls outside the grid.
pub open spec fn hilbert_target(side: u16, d: int) -> Option<usize> {
    let (hx, hy) = hilbert_d2xy(side as int, d);
    let x = (hx as u16) as int;
    let y = (hy as u16) as int;
    let n = grid_side(side);
    if x < n && y < n {
        Some((y * n + x) as usize)
    } else {
        None
    }
}

/// Distance `d` lies on the curve of the grid and is drawn in cell `i`.
pub open spec fn targets_cell(side: u16, d: int, i: usize) -> bool {
    0 <= d < grid_side(side) * grid_side(side) && hilbert_target(side, d) == Some(i)
}

/// The least distance along the curve that is drawn in row-major cell `i`,
/// or `None` when no distance is.
#[verifier::opaque]
pub open spec fn first_distance(side: u16, i: usize) -> Option<int> {
    if exists|d: int| targets_cell(side, d, i) {
        Some(
            choose|d: int|
                targets_cell(side, d, i) && forall|e: int| 0 <= e < d ==> !targets_cell(side, e, i),
        )
    } else {
        None
    }
}

proof fn lemma_first_distance_is(side: u16, i: usize, d: int)
    requires
        targets_cell(side, d, i),
        forall|e: int| 0 <= e < d ==> !targets_cell(side, e, i),
    ensures
        first_distance(side, i) == Some(d),
{
    reveal(first_distance);
    let c = choose|c: int|
        targets_cell(side, c, i) && forall|e: int| 0 <= e < c ==> !targets_cell(side, e, i);
    if c < d {
        assert(!targets_cell(side, c, i));
    }
    if d < c {
        assert(!targets_cell(side, d, i));
    }
}

/// The distance along the curve of the `side × side` grid that is drawn in
/// row-major cell `i` (the least one, should there be several); `None` when
/// no distance is. On a grid whose side is a power of two every cell has
/// one.
pub fn hilbert_distance_of(side: u16, i: usize) -> (r: Option<usize>)
    ensures
        r matches Some(d) ==> first_distance(side, i) == Some(d as int) && d < grid_side(side)
            * grid_side(side),
        r is None ==> first_distance(side, i) is None,
        side >= 2 && is_pow2(side as int) && i < side * side ==> r is Some,
{
    let t = hilbert_targets(side);
    let mut d: usize = 0;
    while d < t.len()
        invariant
            t@.len() == grid_side(side) * grid_side(side),
            forall|e: int| 0 <= e < t@.len() ==> #[trigger] t@[e] == hilbert_target(side, e),
            side >= 2 && is_pow2(side as int) ==> forall|k: int|
                0 <= k < t@.len() ==> #[trigger] cell_reached(t@, k),
            d <= t@.len(),
            forall|e: int| 0 <= e < d ==> !targets_cell(side, e, i),
        decreases t@.len() - d,
    {
        if t[d] == Some(i) {
            proof {
                lemma_first_distance_is(side, i, d as int);
            }
            return Some(d);
        }
        d = d + 1;
    }
    proof {
        reveal(first_distance);
        assert(forall|e: int| !targets_cell(side, e, i));
        if side >= 2 && is_pow2(side as int) && i < side * side {
            assert(cell_reached(t@, i as int));
            let e = choose|e: int| 0 <= e < t@.len() && #[trigger] t@[e] == Some(i as usize);
            assert(targets_cell(side, e, i));
        }
    }
    None
}

/// On a grid whose side is a power of two, the cell that distance `d`
/// reaches is drawn for `d` and for no other distance.
pub proof fn lemma_first_distance_of_cell(side: u16, d: int)
    requires
        side >= 2,
        is_pow2(side as int),
        0 <= d < side * side,
    ensures
        first_distance(
            side,
            (hilbert_d2xy(side as int, d).1 * side + hilbert_d2xy(side as int, d).0) as usize,
        ) == Some(d),
{
    let n = side as int;
    let (x, y) = hilbert_d2xy(n, d);
    lemma_d2xy_bijective(n, d, d, 0, 0);
    let i = (y * n + x) as usize;
    lemma_cell_in_grid(x, y, n);
    assert(i as int == y * n + x);
    assert(hilbert_target(side, d) == Some(i));
    assert forall|e: int| 0 <= e < d implies !targets_cell(side, e, i) by {
        if targets_cell(side, e, i) {
            lemma_d2xy_bijective(n, e, d, 0, 0);
            let (x2, y2) = hilbert_d2xy(n, e);
            assert((x2 as u16) as int == x2 && (y2 as u16) as int == y2);
            lemma_cell_in_grid(x2, y2, n);
            assert(x2 == x && y2 == y) by (nonlinear_arith)
                requires
                    y2 * n + x2 == y * n + x,
                    0 <= x < n,
                    0 <= x2 < n,
                    0 <= y < n,
                    0 <= y2 < n,
            ;
        }
    }
    lemma_first_distance_is(side, i, d);
}

proof fn lemma_cell_in_grid(x: int, y: int, n: int)
    requires
        0 <= x < n,
        0 <= y < n,
        n <= 65535,
    ensures
        0 <= y * n + x < n * n,
        n * n <= 65535 * 65535,
{
    assert(0 <= y * n + x < n * n) by (nonlinear_arith)
        requires
            0 <= x < n,
            0 <= y < n,
    ;
    assert(n * n <= 65535 * 65535) by (nonlinear_arith)
        requires
            0 <= n <= 65535,
    ;
}

/// Cell `i` is the target of some distance.
pub open spec fn cell_reached(r: Seq<Option<usize>>, i: int) -> bool {
    exists|d: int| 0 <= d < r.len() && #[trigger] r[d] == Some(i as usize)
}

/// For each distance `d` along the curve (one per cell of the
/// `grid_side × grid_side` grid), the row-major index of its cell; on a grid
/// whose side is a power of two every distance has a cell.
pub fn hilbert_targets(side: u16) -> (r: Vec<Option<usize>>)
    ensures
        r@.len() == grid_side(side) * grid_side(side),
        forall|d: int| 0 <= d < r@.len() ==> #[trigger] r@[d] == hilbert_target(side, d),
        side >= 2 && is_pow2(side as int) ==> forall|d: int| 0 <= d < r@.len() ==> #[trigger] r@[d] is Some,
        side >= 2 && is_pow2(side as int) ==> forall|d1: int, d2: int|
            0 <= d1 < r@.len() && 0 <= d2 < r@.len() && d1 != d2 ==> #[trigger] r@[d1] != #[trigger] r@[d2],
        side >= 2 && is_pow2(side as int) ==> forall|i: int|
            0 <= i < r@.len() ==> #[trigger] cell_reached(r@, i),
{
    let n: usize = if side < 2 {
        2
    } else {
        side as usize
    };
    proof {
        assert(n * n <= 65535 * 65535) by (nonlinear_arith)
            requires
                n <= 65535,
        ;
    }
    let cells = n * n;
    let mut r: Vec<Option<usize>> = Vec::new();
    let mut d: usize = 0;
    while d < cells
        invariant
            n == grid_side(side),
            cells == n * n,
            cells <= 65535 * 65535,
            d <= cells,
            r@.len() == d,
            forall|e: int| 0 <= e < d ==> #[trigger] r@[e] == hilbert_target(side, e),
        decreases cells - d,
    {
        let (x, y) = d2xy(side, d as u32);
        let x = x as usize;
        let y = y as usize;
        if x < n && y < n {
            proof {
                assert(y * n + x < n * n) by (nonlinear_arith)
                    requires
                        x < n,
                        y < n,
                ;
            }
            r.push(Some(y * n + x));
        } else {
            r.push(None);
        }
        d = d + 1;
    }
    proof {
        if side >= 2 && is_pow2(side as int) {
            assert forall|e: int| 0 <= e < r@.len() implies #[trigger] r@[e] is Some by {
                lemma_d2xy_in_grid(side as int, e);
            }
            lemma_targets_permutation(side, r@);
        }
    }
    r
}

/// On a power-of-two grid, the targets of distinct distances differ and every
/// cell is the target of some distance.
proof fn lemma_targets_permutation(side: u16, r: Seq<Option<usize>>)
    requires
        side >= 2,
        is_pow2(side as int),
        r.len() == (side as int) * (side as int),
        forall|d: int| 0 <= d < r.len() ==> #[trigger] r[d] == hilbert_target(side, d),
    ensures
        forall|d1: int, d2: int|
            0 <= d1 < r.len() && 0 <= d2 < r.len() && d1 != d2 ==> #[trigger] r[d1] != #[trigger] r[d2],
        forall|i: int| 0 <= i < r.len() ==> #[trigger] cell_reached(r, i),
{
    let n = side as int;
    assert(grid_side(side) == n);
    assert(n * n <= 65535 * 65535) by (nonlinear_arith)
        requires
            0 <= n <= 65535,
    ;
    assert forall|d1: int, d2: int|
        0 <= d1 < r.len() && 0 <= d2 < r.len() && d1 != d2 implies #[trigger] r[d1] != #[trigger] r[d2] by {
        lemma_d2xy_bijective(n, d1, d2, 0, 0);
        lemma_d2xy_bijective(n, d2, d1, 0, 0);
        let (x1, y1) = hilbert_d2xy(n, d1);
        let (x2, y2) = hilbert_d2xy(n, d2);
        assert((x1 as u16) as int == x1 && (y1 as u16) as int == y1);
        assert((x2 as u16) as int == x2 && (y2 as u16) as int == y2);
        assert(0 <= y1 * n + x1 < n * n) by (nonlinear_arith)
            requires
                0 <= x1 < n,
                0 <= y1 < n,
        ;
        assert(0 <= y2 * n + x2 < n * n) by (nonlinear_arith)
            requires
                0 <= x2 < n,
                0 <= y2 < n,
        ;
        if y1 * n + x1 == y2 * n + x2 {
            assert(x1 == x2 && y1 == y2) by (nonlinear_arith)
                requires
                    y1 * n + x1 == y2 * n + x2,
                    0 <= x1 < n,
                    0 <= x2 < n,
                    0 <= y1 < n,
                    0 <= y2 < n,
            ;
            assert(hilbert_d2xy(n, d1) == hilbert_d2xy(n, d2));
            assert(false);
        }
        assert(r[d1] == Some((y1 * n + x1) as usize));
        assert(r[d2] == Some((y2 * n + x2) as usize));
    }
    assert forall|i: int| 0 <= i < r.len() implies #[trigger] cell_reached(r, i) by {
        let x = i % n;
        let y = i / n;
        assert(0 <= x < n && 0 <= y < n && i == y * n + x) by (nonlinear_arith)
            requires
                0 <= i < n * n,
                n >= 2,
                x == i % n,
                y == i / n,
        ;
        lemma_d2xy_bijective(n, 0, 0, x, y);
        let d = choose|d: int| 0 <= d < n * n && #[trigger] hilbert_d2xy(n, d) == (x, y);
        assert((x as u16) as int == x && (y as u16) as int == y);
        assert(r[d] == Some(i as usize));
    }
}

/// The point of the `s × s` curve (`s` a power of two) that distance `d`
/// reaches, built level by level from the lowest digits of `d` in base 4.
pub open spec fn hpos(s: int, d: int) -> (int, int)
    decreases s,
{
    if s <= 1 {
        (0, 0)
    } else {
        let h = s / 2;
        let p = hpos(h, d);
        hilbert_step(h, p.0, p.1, d / (h * h))
    }
}

proof fn lemma_pow2_half(s: int)
    requires
        is_pow2(s),
        s > 1,
    ensures
        is_pow2(s / 2),
        s == 2 * (s / 2),
        s * s == 4 * ((s / 2) * (s / 2)),
        s / 2 >= 1,
{
    let h = s / 2;
    assert(s * s == 4 * (h * h)) by (nonlinear_arith)
        requires
            s == 2 * h,
    ;
}

proof fn lemma_pow2_pos(s: int)
    requires
        is_pow2(s),
    ensures
        s >= 1,
{
}

/// The level-by-level walk started at level `s` ends where the curve puts `d`.
proof fn lemma_from_hpos(n: int, s: int, d: int)
    requires
        is_pow2(s),
        is_pow2(n),
        s <= n,
        d >= 0,
    ensures
        hilbert_from(n, s, hpos(s, d).0, hpos(s, d).1, d / (s * s)) == hpos(n, d),
    decreases n - s,
{
    lemma_pow2_pos(s);
    if s < n {
        lemma_pow2_le(s, n);
        lemma_pow2_double(s);
        let s2 = 2 * s;
        assert(s2 / 2 == s);
        assert(s * s > 0) by (nonlinear_arith)
            requires
                s >= 1,
        ;
        lemma_div_denominator(d, s * s, 4);
        assert(s2 * s2 == (s * s) * 4) by (nonlinear_arith)
            requires
                s2 == 2 * s,
        ;
        lemma_from_hpos(n, s2, d);
    }
}

/// The curve position is the level-by-level point at full size.
proof fn lemma_d2xy_hpos(n: int, d: int)
    requires
        is_pow2(n),
        d >= 0,
    ensures
        hilbert_d2xy(n, d) == hpos(n, d),
{
    lemma_from_hpos(n, 1, d);
}

proof fn lemma_hpos_bounds(s: int, d: int)
    requires
        is_pow2(s),
        d >= 0,
    ensures
        0 <= hpos(s, d).0 < s,
        0 <= hpos(s, d).1 < s,
    decreases s,
{
    lemma_pow2_pos(s);
    if s > 1 {
        lemma_pow2_half(s);
        let h = s / 2;
        lemma_hpos_bounds(h, d);
        assert(h * h > 0) by (nonlinear_arith)
            requires
                h >= 1,
        ;
        assert(d / (h * h) >= 0) by (nonlinear_arith)
            requires
                h * h > 0,
                d >= 0,
        ;
        lemma_step_bounds(h, hpos(h, d).0, hpos(h, d).1, d / (h * h));
    }
}

/// One level depends only on the two low bits of its digit.
proof fn lemma_step_low_bits(s: int, x: int, y: int, t: int)
    requires
        t >= 0,
    ensures
        hilbert_step(s, x, y, t) == hilbert_step(s, x, y, t % 4),
{
    lemma_mod_breakdown(t, 2, 2);
    let a = (t / 2) % 2;
    let b = t % 2;
    assert(t % 4 == 2 * a + b);
    assert(0 <= a < 2 && 0 <= b < 2);
    assert(((2 * a + b) / 2) % 2 == a);
    assert((2 * a + b) % 2 == b);
}

/// Different digits or different sub-square points give different points:
/// the digit selects the quadrant and the reflection within it is one-to-one.
proof fn lemma_step_injective(s: int, x1: int, y1: int, t1: int, x2: int, y2: int, t2: int)
    requires
        s >= 1,
        0 <= x1 < s,
        0 <= y1 < s,
        0 <= x2 < s,
        0 <= y2 < s,
        0 <= t1 < 4,
        0 <= t2 < 4,
        hilbert_step(s, x1, y1, t1) == hilbert_step(s, x2, y2, t2),
    ensures
        t1 == t2,
        x1 == x2,
        y1 == y2,
{
    assert(t1 == 0 || t1 == 1 || t1 == 2 || t1 == 3);
    assert(t2 == 0 || t2 == 1 || t2 == 2 || t2 == 3);
}

/// The point at level `s` depends only on `d` modulo `s * s`.
proof fn lemma_hpos_mod(s: int, d: int)
    requires
        is_pow2(s),
        d >= 0,
    ensures
        s * s > 0,
        hpos(s, d) == hpos(s, d % (s * s)),
    decreases s,
{
    lemma_pow2_pos(s);
    assert(s * s > 0) by (nonlinear_arith)
        requires
            s >= 1,
    ;
    if s > 1 {
        lemma_pow2_half(s);
        let h = s / 2;
        let hh = h * h;
        assert(hh > 0) by (nonlinear_arith)
            requires
                h >= 1,
                hh == h * h,
        ;
        let dm = d % (s * s);
        assert(s * s == hh * 4);
        lemma_hpos_mod(h, d);
        lemma_hpos_mod(h, dm);
        lemma_mod_mod(d, hh, 4);
        assert(dm % hh == d % hh);
        lemma_mod_breakdown(d, hh, 4);
        let q = (d / hh) % 4;
        let r = d % hh;
        assert(dm == hh * q + r);
        assert(0 <= r < hh);
        assert(0 <= q < 4);
        assert(dm / hh == q) by (nonlinear_arith)
            requires
                dm == hh * q + r,
                0 <= r < hh,
                hh > 0,
        ;
        assert(d / hh >= 0) by (nonlinear_arith)
            requires
                d >= 0,
                hh > 0,
        ;
        lemma_step_low_bits(h, hpos(h, d).0, hpos(h, d).1, d / hh);
        lemma_step_low_bits(h, hpos(h, dm).0, hpos(h, dm).1, dm / hh);
        assert(q % 4 == q);
    }
}

/// Distinct distances below `s * s` reach distinct points.
proof fn lemma_hpos_injective(s: int, d1: int, d2: int)
    requires
        is_pow2(s),
        0 <= d1 < s * s,
        0 <= d2 < s * s,
        hpos(s, d1) == hpos(s, d2),
    ensures
        d1 == d2,
    decreases s,
{
    lemma_pow2_pos(s);
    if s > 1 {
        lemma_pow2_half(s);
        let h = s / 2;
        let hh = h * h;
        assert(hh > 0) by (nonlinear_arith)
            requires
                h >= 1,
                hh == h * h,
        ;
        let t1 = d1 / hh;
        let t2 = d2 / hh;
        assert(0 <= t1 < 4 && 0 <= t2 < 4) by (nonlinear_arith)
            requires
                0 <= d1 < 4 * hh,
                0 <= d2 < 4 * hh,
                hh > 0,
                t1 == d1 / hh,
                t2 == d2 / hh,
        ;
        lemma_hpos_bounds(h, d1);
        lemma_hpos_bounds(h, d2);
        lemma_step_injective(h, hpos(h, d1).0, hpos(h, d1).1, t1, hpos(h, d2).0, hpos(h, d2).1, t2);
        lemma_hpos_mod(h, d1);
        lemma_hpos_mod(h, d2);
        assert(0 <= d1 % hh < hh && 0 <= d2 % hh < hh) by (nonlinear_arith)
            requires
                hh > 0,
                d1 >= 0,
                d2 >= 0,
        ;
        lemma_hpos_injective(h, d1 % hh, d2 % hh);
        assert(d1 % hh == d2 % hh);
        assert(t1 == t2);
        lemma_fundamental_div_mod(d1, hh);
        lemma_fundamental_div_mod(d2, hh);
        assert(d1 == hh * t1 + d1 % hh);
        assert(d2 == hh * t2 + d2 % hh);
    } else {
        assert(s == 1);
        assert(s * s == 1) by (nonlinear_arith)
            requires
                s == 1,
        ;
    }
}

/// On a grid whose side `n` is a power of two, the curve visits every cell
/// exactly once: each distance below `n * n` lands in the grid, distinct
/// distances land on distinct cells, and every cell is reached by some
/// distance below `n * n`.
pub proof fn lemma_d2xy_bijective(n: int, d1: int, d2: int, x: int, y: int)
    requires
        is_pow2(n),
        0 <= d1 < n * n,
        0 <= d2 < n * n,
        0 <= x < n,
        0 <= y < n,
    ensures
        0 <= hilbert_d2xy(n, d1).0 < n,
        0 <= hilbert_d2xy(n, d1).1 < n,
        hilbert_d2xy(n, d1) == hilbert_d2xy(n, d2) ==> d1 == d2,
        exists|d: int| 0 <= d < n * n && #[trigger] hilbert_d2xy(n, d) == (x, y),
{
    lemma_d2xy_hpos(n, d1);
    lemma_d2xy_hpos(n, d2);
    lemma_hpos_bounds(n, d1);
    if hilbert_d2xy(n, d1) == hilbert_d2xy(n, d2) {
        lemma_hpos_injective(n, d1, d2);
    }
    lemma_d2xy_onto(n, x, y);
}

/// Row-major index of the cell that distance `d` reaches.
spec fn cell_index(n: int, d: int) -> int {
    hilbert_d2xy(n, d).1 * n + hilbert_d2xy(n, d).0
}

proof fn lemma_d2xy_onto(n: int, x: int, y: int)
    requires
        is_pow2(n),
        0 <= x < n,
        0 <= y < n,
    ensures
        exists|d: int| 0 <= d < n * n && #[trigger] hilbert_d2xy(n, d) == (x, y),
{
    lemma_pow2_pos(n);
    let nn = n * n;
    assert(nn >= 1) by (nonlinear_arith)
        requires
            n >= 1,
            nn == n * n,
    ;
    let dom = set_int_range(0, nn);
    let f = |d: int| cell_index(n, d);
    lemma_int_range(0, nn);
    assert forall|d1: int, d2: int| dom.contains(d1) && dom.contains(d2) && #[trigger] f(d1) == #[trigger] f(d2) implies d1 == d2 by {
        lemma_d2xy_hpos(n, d1);
        lemma_d2xy_hpos(n, d2);
        lemma_hpos_bounds(n, d1);
        lemma_hpos_bounds(n, d2);
        let (x1, y1) = hilbert_d2xy(n, d1);
        let (x2, y2) = hilbert_d2xy(n, d2);
        assert(x1 == x2 && y1 == y2) by (nonlinear_arith)
            requires
                y1 * n + x1 == y2 * n + x2,
                0 <= x1 < n,
                0 <= x2 < n,
                0 <= y1 < n,
                0 <= y2 < n,
        ;
        lemma_hpos_injective(n, d1, d2);
    }
    let img = dom.map(f);
    lemma_map_size(dom, img, f);
    assert forall|i: int| img.contains(i) implies #[trigger] set_int_range(0, nn).contains(i) by {
        let d = choose|d: int| dom.contains(d) && f(d) == i;
        lemma_d2xy_hpos(n, d);
        lemma_hpos_bounds(n, d);
        let (a, b) = hilbert_d2xy(n, d);
        assert(0 <= b * n + a < n * n) by (nonlinear_arith)
            requires
                0 <= a < n,
                0 <= b < n,
        ;
    }
    lemma_subset_equality(img, set_int_range(0, nn));
    let target = y * n + x;
    assert(0 <= target < nn) by (nonlinear_arith)
        requires
            0 <= x < n,
            0 <= y < n,
            nn == n * n,
            target == y * n + x,
    ;
    assert(img.contains(target));
    let d = choose|d: int| dom.contains(d) && f(d) == target;
    lemma_d2xy_hpos(n, d);
    lemma_hpos_bounds(n, d);
    let (a, b) = hilbert_d2xy(n, d);
    assert(a == x && b == y) by (nonlinear_arith)
        requires
            b * n + a == y * n + x,
            0 <= a < n,
            0 <= x < n,
            0 <= b < n,
            0 <= y < n,
    ;
    assert(hilbert_d2xy(n, d) == (x, y));
}

/// Cells `p` and `q` share a side: they differ by 1 in exactly one
/// coordinate.
pub open spec fn cells_adjacent(p: (int, int), q: (int, int)) -> bool {
    ||| p.0 == q.0 && (p.1 - q.1 == 1 || q.1 - p.1 == 1)
    ||| p.1 == q.1 && (p.0 - q.0 == 1 || q.0 - p.0 == 1)
}

/// One level with a fixed digit maps neighbouring cells to neighbouring
/// cells: it is a transposition, a reflection or a shift.
proof fn lemma_step_adjacent(s: int, p: (int, int), q: (int, int), t: int)
    requires
        t >= 0,
        cells_adjacent(p, q),
    ensures
        cells_adjacent(hilbert_step(s, p.0, p.1, t), hilbert_step(s, q.0, q.1, t)),
{
    lemma_step_low_bits(s, p.0, p.1, t);
    lemma_step_low_bits(s, q.0, q.1, t);
    let u = t % 4;
    assert(u == 0 || u == 1 || u == 2 || u == 3);
}

/// The `s × s` curve starts in the corner `(0, 0)` and ends in the corner
/// `(s - 1, 0)`.
proof fn lemma_hpos_ends(s: int)
    requires
        is_pow2(s),
    ensures
        hpos(s, 0) == (0int, 0int),
        hpos(s, s * s - 1) == (s - 1, 0int),
    decreases s,
{
    lemma_pow2_pos(s);
    if s > 1 {
        lemma_pow2_half(s);
        let h = s / 2;
        let hh = h * h;
        assert(hh >= 1) by (nonlinear_arith)
            requires
                h >= 1,
                hh == h * h,
        ;
        lemma_hpos_ends(h);
        assert(0int / hh == 0);
        let last = s * s - 1;
        lemma_fundamental_div_mod_converse(last, hh, 3, hh - 1);
        lemma_hpos_mod(h, last);
    } else {
        assert(s * s - 1 == 0) by (nonlinear_arith)
            requires
                s == 1,
        ;
    }
}

/// Consecutive distances on the `s × s` curve reach neighbouring cells.
proof fn lemma_hpos_adjacent(s: int, d: int)
    requires
        is_pow2(s),
        0 <= d,
        d + 1 < s * s,
    ensures
        cells_adjacent(hpos(s, d), hpos(s, d + 1)),
    decreases s,
{
    lemma_pow2_pos(s);
    if s > 1 {
        lemma_pow2_half(s);
        let h = s / 2;
        let hh = h * h;
        assert(hh >= 1) by (nonlinear_arith)
            requires
                h >= 1,
                hh == h * h,
        ;
        let t = d / hh;
        let r = d % hh;
        lemma_fundamental_div_mod(d, hh);
        assert(0 <= r < hh);
        assert(0 <= t < 4) by (nonlinear_arith)
            requires
                d == hh * t + r,
                0 <= r < hh,
                0 <= d,
                d + 1 < 4 * hh,
        ;
        lemma_hpos_mod(h, d);
        lemma_hpos_mod(h, d + 1);
        if r + 1 < hh {
            assert(d + 1 == t * hh + (r + 1)) by (nonlinear_arith)
                requires
                    d == hh * t + r,
            ;
            lemma_fundamental_div_mod_converse(d + 1, hh, t, r + 1);
            lemma_hpos_adjacent(h, r);
            lemma_step_adjacent(h, hpos(h, d), hpos(h, d + 1), t);
            assert(hpos(s, d) == hilbert_step(h, hpos(h, d).0, hpos(h, d).1, t));
            assert(hpos(s, d + 1) == hilbert_step(h, hpos(h, d + 1).0, hpos(h, d + 1).1, t));
            assert(cells_adjacent(hpos(s, d), hpos(s, d + 1)));
        } else {
            assert(t < 3) by (nonlinear_arith)
                requires
                    hh >= 1,
                    d == hh * t + r,
                    r + 1 == hh,
                    d + 1 < 4 * hh,
            ;
            assert(d + 1 == (t + 1) * hh + 0) by (nonlinear_arith)
                requires
                    d == hh * t + r,
                    r + 1 == hh,
            ;
            lemma_fundamental_div_mod_converse(d + 1, hh, t + 1, 0);
            lemma_hpos_ends(h);
            assert(hpos(h, d) == (h - 1, 0int));
            assert(hpos(h, d + 1) == (0int, 0int));
            assert(hpos(s, d) == hilbert_step(h, h - 1, 0, t));
            assert(hpos(s, d + 1) == hilbert_step(h, 0, 0, t + 1));
            // The last cell of quadrant `t` borders the first of quadrant `t + 1`.
            if t == 0 {
                assert(hilbert_step(h, h - 1, 0, 0) == (0int, h - 1));
                assert(hilbert_step(h, 0, 0, 1) == (0int, h));
            } else if t == 1 {
                assert(hilbert_step(h, h - 1, 0, 1) == (h - 1, h));
                assert(hilbert_step(h, 0, 0, 2) == (h, h));
            } else {
                assert(hilbert_step(h, h - 1, 0, 2) == (2 * h - 1, h));
                assert(hilbert_step(h, 0, 0, 3) == (2 * h - 1, h - 1));
            }
        }
    } else {
        assert(s * s == 1) by (nonlinear_arith)
            requires
                s == 1,
        ;
    }
}

/// The curve on an `n × n` grid (`n` a power of two) is a path of
/// neighbouring cells: consecutive distances reach cells that differ by 1 in
/// exactly one coordinate.
pub proof fn lemma_d2xy_adjacent(n: int, d: int)
    requires
        is_pow2(n),
        0 <= d,
        d + 1 < n * n,
    ensures
        cells_adjacent(hilbert_d2xy(n, d), hilbert_d2xy(n, d + 1)),
{
    lemma_d2xy_hpos(n, d);
    lemma_d2xy_hpos(n, d + 1);
    lemma_hpos_adjacent(n, d);
}

/// The curve on an `n × n` grid (`n` a power of two) starts at `(0, 0)` and
/// ends at `(n - 1, 0)`.
pub proof fn lemma_d2xy_ends(n: int)
    requires
        is_pow2(n),
    ensures
        hilbert_d2xy(n, 0) == (0int, 0int),
        hilbert_d2xy(n, n * n - 1) == (n - 1, 0int),
{
    lemma_pow2_pos(n);
    assert(n * n >= 1) by (nonlinear_arith)
        requires
            n >= 1,
    ;
    lemma_d2xy_hpos(n, 0);
    lemma_d2xy_hpos(n, n * n - 1);
    lemma_hpos_ends(n);
}

} // verus!
