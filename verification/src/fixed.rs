//! Fixed-point scalars.
//!
//! A coordinate is an `i64` number of micro-units: `SCALE` micro-units
//! make one canvas unit, and the canvas spans `[0, COORD_MAX]` on each
//! axis (0 to 100 canvas units).

use vstd::prelude::*;
use vstd::arithmetic::div_mod::lemma_div_basics_5;

verus! {

/// Micro-units per canvas unit.
pub const SCALE: i64 = 1_000_000;

/// The canvas bound: 100 canvas units, in micro-units.
pub const COORD_MAX: i64 = 100_000_000;

/// Displacement accumulators saturate at this magnitude, far above
/// any per-iteration movement cap.
pub const DISP_LIMIT: i64 = 1_000_000_000_000;

/// The factor bound of `mul3_div`: 2^40.
pub const FACTOR_LIMIT: u64 = 0x100_0000_0000;

/// The largest accepted algorithm parameter (one million canvas
/// units, in micro-units): large enough for any sensible gravity or
/// scaling ratio, small enough that every product the force laws form
/// stays within `mul3_div`'s factor bound.
pub const PARAM_LIMIT: i64 = 1_000_000_000_000;

/// The contribution bound of `disp_add`: above any `mul3_div` result.
pub const CONTRIB_LIMIT: i128 = 10_000_000_000_000_000_000_000_000_000_000_000_000;

/// Wide accumulators saturate at this magnitude.
pub const WIDE_LIMIT: i128 = 100_000_000_000_000_000_000_000_000_000_000_000;

/// What clamping a scalar into `[lo, hi]` yields.
pub open spec fn clamped(v: int, lo: int, hi: int) -> int {
    if v < lo {
        lo
    } else if v > hi {
        hi
    } else {
        v
    }
}

/// Clamp a scalar into `[lo, hi]`.
pub fn clamp_i64(v: i64, lo: i64, hi: i64) -> (r: i64)
    requires
        lo <= hi,
    ensures
        r == clamped(v as int, lo as int, hi as int),
        lo <= r <= hi,
{
    if v < lo {
        lo
    } else if v > hi {
        hi
    } else {
        v
    }
}

/// The integer square root: the greatest `r` with `r * r <= n`.
pub open spec fn is_isqrt(n: int, r: int) -> bool {
    &&& 0 <= r
    &&& r * r <= n
    &&& n < (r + 1) * (r + 1)
}

/// The rounded-down square root, as a function.
pub open spec fn sqrt_floor(n: nat) -> nat
    decreases n,
{
    if n == 0 {
        0
    } else {
        let r = sqrt_floor((n - 1) as nat);
        if (r + 1) * (r + 1) <= n {
            r + 1
        } else {
            r
        }
    }
}

/// `sqrt_floor` satisfies the square-root inequalities.
pub proof fn lemma_sqrt_floor(n: nat)
    ensures
        is_isqrt(n as int, sqrt_floor(n) as int),
    decreases n,
{
    if n > 0 {
        lemma_sqrt_floor((n - 1) as nat);
        let r = sqrt_floor((n - 1) as nat);
        if (r + 1) * (r + 1) <= n {
            assert(n - 1 < (r + 1) * (r + 1));
            assert((r + 1) * (r + 1) < (r + 2) * (r + 2)) by (nonlinear_arith)
                requires
                    0 <= r,
            ;
        }
    }
}

/// Two values meeting the square-root inequalities are the same.
pub proof fn lemma_isqrt_unique(n: int, a: int, b: int)
    requires
        is_isqrt(n, a),
        is_isqrt(n, b),
    ensures
        a == b,
{
    assert(a == b) by (nonlinear_arith)
        requires
            0 <= a,
            0 <= b,
            a * a <= n,
            n < (a + 1) * (a + 1),
            b * b <= n,
            n < (b + 1) * (b + 1),
    ;
}

/// Compute the integer square root of `n` by binary search.
pub fn isqrt_u128(n: u128) -> (r: u64)
    requires
        n < 0x4000_0000_0000_0000_0000_0000_0000_0000u128,
    ensures
        is_isqrt(n as int, r as int),
        r == sqrt_floor(n as nat),
{
    // The root lies in [lo, hi]: lo * lo stays at most n, (hi + 1)^2 stays above n.
    let mut lo: u64 = 0;
    let mut hi: u64 = 0x8000_0000_0000_0000u64 - 1;
    while lo < hi
        invariant
            lo <= hi < 0x8000_0000_0000_0000u64,
            (lo as int) * (lo as int) <= n as int,
            n + 1 <= (hi + 1) * (hi + 1),
        decreases hi - lo,
    {
        let mid: u64 = lo + (hi - lo + 1) / 2;
        proof {
            assert((mid as int) * (mid as int) < 0x1_0000_0000_0000_0000_0000_0000_0000_0000int)
                by (nonlinear_arith)
                requires
                    mid < 0x8000_0000_0000_0000u64,
            ;
        }
        if (mid as u128) * (mid as u128) <= n {
            proof {
                assert((mid as int) * (mid as int) <= n as int);
            }
            lo = mid;
        } else {
            hi = mid - 1;
        }
    }
    proof {
        lemma_sqrt_floor(n as nat);
        lemma_isqrt_unique(n as int, lo as int, sqrt_floor(n as nat) as int);
    }
    lo
}

/// The magnitude of a scalar.
pub open spec fn abs_spec(v: int) -> int {
    if v < 0 {
        -v
    } else {
        v
    }
}

/// Compute the magnitude of a (non-minimal) scalar.
pub fn abs_i64(v: i64) -> (r: u64)
    requires
        v != i64::MIN,
    ensures
        r == abs_spec(v as int),
{
    if v < 0 {
        (-v) as u64
    } else {
        v as u64
    }
}

/// Compute `a * b * c / e` exactly, for factors below `FACTOR_LIMIT`.
pub fn mul3_div(a: u64, b: u64, c: u64, e: u128) -> (r: u128)
    requires
        a <= FACTOR_LIMIT,
        b <= FACTOR_LIMIT,
        c <= FACTOR_LIMIT,
        e > 0,
    ensures
        r == (a as int) * (b as int) * (c as int) / (e as int),
        r <= (a as int) * (b as int) * (c as int),
        r <= 0x100_0000_0000_0000_0000_0000_0000_0000u128,
{
    proof {
        assert((a as int) * (b as int) <= (FACTOR_LIMIT as int) * (FACTOR_LIMIT as int) && (a
            as int) * (b as int) * (c as int) <= (FACTOR_LIMIT as int) * (FACTOR_LIMIT as int) * (
        FACTOR_LIMIT as int)) by (nonlinear_arith)
            requires
                0 <= a <= FACTOR_LIMIT,
                0 <= b <= FACTOR_LIMIT,
                0 <= c <= FACTOR_LIMIT,
        ;
    }
    let p = (a as u128) * (b as u128) * (c as u128);
    proof {
        lemma_div_basics_5(p as int, e as int);
    }
    p / e
}

/// Add a bounded contribution into a displacement accumulator,
/// saturating at the displacement limit.
pub fn disp_add(d: i64, c: i128) -> (r: i64)
    requires
        -DISP_LIMIT <= d <= DISP_LIMIT,
        -CONTRIB_LIMIT <= c <= CONTRIB_LIMIT,
    ensures
        r == clamped(d + c, -DISP_LIMIT as int, DISP_LIMIT as int),
        -DISP_LIMIT <= r <= DISP_LIMIT,
{
    let s = (d as i128) + c;
    if s > DISP_LIMIT as i128 {
        DISP_LIMIT
    } else if s < -DISP_LIMIT as i128 {
        -DISP_LIMIT
    } else {
        s as i64
    }
}

/// Add a bounded term into a wide accumulator, saturating at the
/// wide limit.
pub fn wide_add(a: i128, c: i128) -> (r: i128)
    requires
        -WIDE_LIMIT <= a <= WIDE_LIMIT,
        -CONTRIB_LIMIT <= c <= CONTRIB_LIMIT,
    ensures
        r == clamped(a + c, -WIDE_LIMIT as int, WIDE_LIMIT as int),
        -WIDE_LIMIT <= r <= WIDE_LIMIT,
{
    let s = a + c;
    if s > WIDE_LIMIT {
        WIDE_LIMIT
    } else if s < -WIDE_LIMIT {
        -WIDE_LIMIT
    } else {
        s
    }
}

/// Clamp a wide scalar into the canvas range.
pub fn clamp_canvas(v: i128) -> (r: i64)
    ensures
        r == clamped(v as int, 0, COORD_MAX as int),
        0 <= r <= COORD_MAX,
{
    if v < 0 {
        0
    } else if v > COORD_MAX as i128 {
        COORD_MAX
    } else {
        v as i64
    }
}

/// The rounded-down Euclidean length of a displacement vector, with
/// the component bounds it implies.
pub fn vec_len(dx: i64, dy: i64) -> (r: u64)
    requires
        -4_000_000_000_000 <= dx <= 4_000_000_000_000,
        -4_000_000_000_000 <= dy <= 4_000_000_000_000,
    ensures
        is_isqrt((dx as int) * (dx as int) + (dy as int) * (dy as int), r as int),
        r == sqrt_floor(((dx as int) * (dx as int) + (dy as int) * (dy as int)) as nat),
        abs_spec(dx as int) <= r,
        abs_spec(dy as int) <= r,
        r == 0 ==> dx == 0 && dy == 0,
        r <= 6_000_000_000_000,
{
    let ax = abs_i64(dx);
    let ay = abs_i64(dy);
    proof {
        assert((ax as int) * (ax as int) == (dx as int) * (dx as int) && (ay as int) * (ay
            as int) == (dy as int) * (dy as int)) by (nonlinear_arith)
            requires
                ax == abs_spec(dx as int),
                ay == abs_spec(dy as int),
        ;
        assert((ax as int) * (ax as int) + (ay as int) * (ay as int)
            < 0x4000_0000_0000_0000_0000_0000_0000_0000int) by (nonlinear_arith)
            requires
                0 <= ax <= 4_000_000_000_000,
                0 <= ay <= 4_000_000_000_000,
        ;
    }
    let sq = (ax as u128) * (ax as u128) + (ay as u128) * (ay as u128);
    let r = isqrt_u128(sq);
    proof {
        assert(ax <= r && ay <= r && (r == 0 ==> ax == 0 && ay == 0) && r
            <= 6_000_000_000_000) by (nonlinear_arith)
            requires
                (r as int) * (r as int) <= sq as int,
                sq as int + 1 <= (r + 1) * (r + 1),
                sq == (ax as int) * (ax as int) + (ay as int) * (ay as int),
                0 <= ax <= 4_000_000_000_000,
                0 <= ay <= 4_000_000_000_000,
        ;
    }
    r
}

} // verus!
