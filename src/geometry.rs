//! Fixed-point plane geometry: squared distances, integer square roots and
//! scaling a direction to a given length.
use vstd::prelude::*;
use vstd::arithmetic::div_mod::{lemma_div_is_ordered, lemma_div_multiples_vanish};

verus! {

/// One grid cell spans this many position units.
pub const UNIT: i64 = 1000;

/// Largest value whose square root `isqrt` computes.
pub const ROOT_LIMIT: u64 = 0x4000_0000_0000_0000;

/// `r` is the integer square root of `n`.
pub open spec fn is_root(n: int, r: int) -> bool {
    0 <= r && r * r <= n && n < (r + 1) * (r + 1)
}

/// The integer square root of a non-negative `n`.
pub open spec fn root(n: int) -> int {
    choose|r: int| is_root(n, r)
}

/// Squared Euclidean distance between two points.
pub open spec fn dist_sq(ax: int, ay: int, bx: int, by: int) -> int {
    (ax - bx) * (ax - bx) + (ay - by) * (ay - by)
}

/// One component of a direction scaled to length `s`, rounded toward zero,
/// where `len` is the (integer) length of the direction.
pub open spec fn scaled_component(d: int, s: int, len: int) -> int {
    if d >= 0 {
        (d * s) / len
    } else {
        -(((-d) * s) / len)
    }
}

/// The direction `(dx, dy)` scaled to length `s`; the zero vector stays zero.
pub open spec fn scaled(dx: int, dy: int, s: int) -> (int, int) {
    let len = root(dx * dx + dy * dy);
    if len == 0 {
        (0, 0)
    } else {
        (scaled_component(dx, s, len), scaled_component(dy, s, len))
    }
}

proof fn lemma_root_unique(n: int, r: int, t: int)
    requires
        is_root(n, r),
        is_root(n, t),
    ensures
        r == t,
{
    if r < t {
        assert((r + 1) * (r + 1) <= t * t) by (nonlinear_arith)
            requires
                0 <= r + 1 <= t,
        ;
    }
    if t < r {
        assert((t + 1) * (t + 1) <= r * r) by (nonlinear_arith)
            requires
                0 <= t + 1 <= r,
        ;
    }
}

/// The root of `n` is the one value that is its integer square root.
pub proof fn lemma_root_is(n: int, r: int)
    requires
        is_root(n, r),
    ensures
        root(n) == r,
{
    lemma_root_unique(n, r, root(n));
}

/// Every non-negative integer has an integer square root.
pub proof fn lemma_root_exists(n: int)
    requires
        n >= 0,
    ensures
        is_root(n, root(n)),
    decreases n,
{
    if n == 0 {
        assert(is_root(0, 0));
    } else {
        lemma_root_exists(n - 1);
        let r = root(n - 1);
        if (r + 1) * (r + 1) <= n {
            assert(n < (r + 2) * (r + 2)) by (nonlinear_arith)
                requires
                    n - 1 < (r + 1) * (r + 1),
                    0 <= r,
            ;
            assert(is_root(n, r + 1));
        } else {
            assert(is_root(n, r));
        }
    }
}

/// Integer square root by bisection.
pub fn isqrt(n: u64) -> (r: u64)
    requires
        n < ROOT_LIMIT,
    ensures
        is_root(n as int, r as int),
        r == root(n as int),
{
    let mut lo: u64 = 0;
    let mut hi: u64 = 0x8000_0000;
    assert(hi * hi == ROOT_LIMIT);
    while hi - lo > 1
        invariant
            lo < hi <= 0x8000_0000,
            lo * lo <= n,
            n < hi * hi,
        decreases hi - lo,
    {
        let mid: u64 = lo + (hi - lo) / 2;
        assert(mid * mid <= 0x8000_0000u64 * 0x8000_0000u64) by (nonlinear_arith)
            requires
                mid <= 0x8000_0000u64,
        ;
        if mid * mid <= n {
            lo = mid;
        } else {
            hi = mid;
        }
    }
    proof {
        lemma_root_is(n as int, lo as int);
    }
    lo
}

/// Squared distance between two points with coordinates in `[0, 2^30)`.
pub fn distance_sq(ax: i64, ay: i64, bx: i64, by: i64) -> (r: i64)
    requires
        0 <= ax < 0x4000_0000,
        0 <= ay < 0x4000_0000,
        0 <= bx < 0x4000_0000,
        0 <= by < 0x4000_0000,
    ensures
        r == dist_sq(ax as int, ay as int, bx as int, by as int),
        0 <= r < 0x8000_0000_0000_0000,
{
    let dx = ax - bx;
    let dy = ay - by;
    assert(0 <= dx * dx < 0x1000_0000_0000_0000) by (nonlinear_arith)
        requires
            -0x4000_0000 < dx < 0x4000_0000,
    ;
    assert(0 <= dy * dy < 0x1000_0000_0000_0000) by (nonlinear_arith)
        requires
            -0x4000_0000 < dy < 0x4000_0000,
    ;
    dx * dx + dy * dy
}

proof fn lemma_component_bound(d: int, s: int, len: int)
    requires
        0 <= d <= len,
        0 < len,
        0 <= s,
    ensures
        0 <= (d * s) / len <= s,
{
    assert(0 <= d * s <= len * s) by (nonlinear_arith)
        requires
            0 <= d <= len,
            0 <= s,
    ;
    lemma_div_is_ordered(d * s, len * s, len);
    lemma_div_multiples_vanish(s, len);
    lemma_div_is_ordered(0, d * s, len);
}

/// Scales the direction `(dx, dy)` to length `s`, leaving the zero vector as
/// it is. Each component of the result is at most `s` in magnitude.
pub fn scale_to(dx: i64, dy: i64, s: i64) -> (r: (i64, i64))
    requires
        -0x4000_0000 < dx < 0x4000_0000,
        -0x4000_0000 < dy < 0x4000_0000,
        0 <= s < 0x1_0000_0000,
    ensures
        (r.0 as int, r.1 as int) == scaled(dx as int, dy as int, s as int),
        -s <= r.0 <= s,
        -s <= r.1 <= s,
{
    assert(0 <= dx * dx < 0x1000_0000_0000_0000) by (nonlinear_arith)
        requires
            -0x4000_0000 < dx < 0x4000_0000,
    ;
    assert(0 <= dy * dy < 0x1000_0000_0000_0000) by (nonlinear_arith)
        requires
            -0x4000_0000 < dy < 0x4000_0000,
    ;
    let n: u64 = (dx * dx + dy * dy) as u64;
    let len = isqrt(n);
    if len == 0 {
        return (0, 0);
    }
    let ax: i64 = if dx >= 0 { dx } else { -dx };
    let ay: i64 = if dy >= 0 { dy } else { -dy };
    proof {
        assert(ax * ax == dx * dx) by (nonlinear_arith)
            requires
                ax == dx || ax == -dx,
        ;
        assert(ay * ay == dy * dy) by (nonlinear_arith)
            requires
                ay == dy || ay == -dy,
        ;
        assert(ax <= len) by (nonlinear_arith)
            requires
                ax * ax <= n,
                n < (len + 1) * (len + 1),
                0 <= ax,
                0 <= len,
        ;
        assert(ay <= len) by (nonlinear_arith)
            requires
                ay * ay <= n,
                n < (len + 1) * (len + 1),
                0 <= ay,
                0 <= len,
        ;
        lemma_component_bound(ax as int, s as int, len as int);
        lemma_component_bound(ay as int, s as int, len as int);
        assert(ax * s <= 0x4000_0000 * 0x1_0000_0000) by (nonlinear_arith)
            requires
                0 <= ax <= 0x4000_0000,
                0 <= s <= 0x1_0000_0000,
        ;
        assert(ay * s <= 0x4000_0000 * 0x1_0000_0000) by (nonlinear_arith)
            requires
                0 <= ay <= 0x4000_0000,
                0 <= s <= 0x1_0000_0000,
        ;
    }
    let qx: i64 = ((ax as u64 * s as u64) / len) as i64;
    let qy: i64 = ((ay as u64 * s as u64) / len) as i64;
    let rx: i64 = if dx >= 0 { qx } else { -qx };
    let ry: i64 = if dy >= 0 { qy } else { -qy };
    (rx, ry)
}

} // verus!
