//! Fixed-point circle functions for the circular layout.
//!
//! Angles are given as the fraction `i / n` of a full turn.  The
//! computation reduces the angle to a quarter turn and evaluates a
//! truncated series there; at the four quarter-turn points the result
//! is exact, which is what the layout's contract pins down.

use vstd::prelude::*;
use crate::fixed::{SCALE, clamp_i64, clamped};
use vstd::arithmetic::div_mod::{lemma_div_multiples_vanish, lemma_mod_multiples_basic};

verus! {

/// What the quarter-turn cosine computes: the truncated series
/// `1 - x^2/2 + x^4/24 - x^6/720 + x^8/40320` at `x = t * pi/2`, in
/// fixed point, clamped into `[0, SCALE]`.
pub open spec fn quarter_cos_spec(t: int) -> int {
    let x = t * 1_570_796 / 1_000_000;
    let x2 = x * x;
    let c2 = x2 / 2_000_000;
    let t4 = x2 * x2 / 24_000_000_000_000_000_000;
    let t6 = t4 * x2 / 30_000_000_000_000;
    let t8 = t6 * x2 / 56_000_000_000_000;
    clamped(1_000_000 - c2 + t4 - t6 + t8, 0, 1_000_000)
}

/// What the quarter-turn sine computes: the truncated series
/// `x - x^3/6 + x^5/120 - x^7/5040` at `x = t * pi/2`, in fixed
/// point, clamped into `[0, SCALE]`.
pub open spec fn quarter_sin_spec(t: int) -> int {
    let x = t * 1_570_796 / 1_000_000;
    let x2 = x * x;
    let t3 = x * x2 / 6_000_000_000_000;
    let t5 = t3 * x2 / 20_000_000_000_000;
    let t7 = t5 * x2 / 42_000_000_000_000;
    clamped(x - t3 + t5 - t7, 0, 1_000_000)
}

/// What the full-turn cosine computes: reduce the angle `i / n` to a
/// quarter and apply the quarter-wave symmetry.
pub open spec fn cos_turn_spec(i: int, n: int) -> int {
    let q = 4 * i / n;
    let t = (4 * i % n) * 1_000_000 / n;
    if q == 0 {
        quarter_cos_spec(t)
    } else if q == 1 {
        -quarter_sin_spec(t)
    } else if q == 2 {
        -quarter_cos_spec(t)
    } else {
        quarter_sin_spec(t)
    }
}

/// What the full-turn sine computes.
pub open spec fn sin_turn_spec(i: int, n: int) -> int {
    let q = 4 * i / n;
    let t = (4 * i % n) * 1_000_000 / n;
    if q == 0 {
        quarter_sin_spec(t)
    } else if q == 1 {
        quarter_cos_spec(t)
    } else if q == 2 {
        -quarter_sin_spec(t)
    } else {
        -quarter_cos_spec(t)
    }
}

/// Cosine and sine on `[0, 1/4]` turn, scaled to micro-units: the
/// argument `t` is the fraction of the quarter turn, in micro-units.
/// Exact at `t == 0`.
fn quarter_cos_sin(t: u64) -> (r: (i64, i64))
    requires
        t <= SCALE,
    ensures
        0 <= r.0 <= SCALE,
        0 <= r.1 <= SCALE,
        r.0 == quarter_cos_spec(t as int),
        r.1 == quarter_sin_spec(t as int),
        t == 0 ==> r.0 == SCALE && r.1 == 0,
{
    // x = t * (pi / 2), in micro-radians
    let x = (t * 1_570_796) / 1_000_000;
    proof {
        assert(t * 1_570_796 <= 1_570_796_000_000) by (nonlinear_arith)
            requires
                t <= 1_000_000,
        ;
    }
    proof {
        assert(x * x <= 1_570_796 * 1_570_796) by (nonlinear_arith)
            requires
                x <= 1_570_796,
        ;
    }
    let x2 = x * x;
    // cosine: 1 - x^2/2 + x^4/24 - x^6/720 + x^8/40320, in micro-units
    let c2 = x2 / 2_000_000;
    proof {
        assert((x2 as int) * (x2 as int) <= 2_467_400_073_616 * 2_467_400_073_616)
            by (nonlinear_arith)
            requires
                x2 <= 2_467_400_073_616,
        ;
    }
    let t4 = ((x2 as u128) * (x2 as u128) / 24_000_000_000_000_000_000) as u64;
    proof {
        assert(t4 * x2 <= 253_669 * 2_467_400_073_616) by (nonlinear_arith)
            requires
                t4 <= 253_669,
                x2 <= 2_467_400_073_616,
        ;
    }
    let t6 = (t4 * x2) / 30_000_000_000_000;
    proof {
        assert(t6 * x2 <= 20_863 * 2_467_400_073_616) by (nonlinear_arith)
            requires
                t6 <= 20_863,
                x2 <= 2_467_400_073_616,
        ;
    }
    let t8 = (t6 * x2) / 56_000_000_000_000;
    let c_raw: i64 = SCALE - (c2 as i64) + (t4 as i64) - (t6 as i64) + (t8 as i64);
    let c = clamp_i64(c_raw, 0, SCALE);
    // sine: x - x^3/6 + x^5/120 - x^7/5040, in micro-units
    proof {
        assert(x * x2 <= 1_570_796 * 2_467_400_073_616) by (nonlinear_arith)
            requires
                x <= 1_570_796,
                x2 <= 2_467_400_073_616,
        ;
    }
    let t3 = (x * x2) / 6_000_000_000_000;
    proof {
        assert(t3 * x2 <= 645_963 * 2_467_400_073_616) by (nonlinear_arith)
            requires
                t3 <= 645_963,
                x2 <= 2_467_400_073_616,
        ;
    }
    let t5 = (t3 * x2) / 20_000_000_000_000;
    proof {
        assert(t5 * x2 <= 79_692 * 2_467_400_073_616) by (nonlinear_arith)
            requires
                t5 <= 79_692,
                x2 <= 2_467_400_073_616,
        ;
    }
    let t7 = (t5 * x2) / 42_000_000_000_000;
    let s_raw: i64 = (x as i64) - (t3 as i64) + (t5 as i64) - (t7 as i64);
    let s = clamp_i64(s_raw, 0, SCALE);
    proof {
        if t == 0 {
            assert(x == 0);
            assert(x2 == 0) by (nonlinear_arith)
                requires
                    x == 0,
                    x2 == x * x,
            ;
            assert(c2 == 0);
            assert(t4 == 0);
            assert(t6 == 0);
            assert(t8 == 0);
            assert(c_raw == SCALE);
            assert(t3 == 0);
            assert(t5 == 0);
            assert(t7 == 0);
            assert(s_raw == 0);
        }
    }
    (c, s)
}

/// Cosine and sine of the angle `(i / n)` of a full turn, in
/// micro-units.  Exact at the four quarter-turn points.
pub fn cos_sin_turn(i: usize, n: usize) -> (r: (i64, i64))
    requires
        0 < n,
        i < n,
    ensures
        -SCALE <= r.0 <= SCALE,
        -SCALE <= r.1 <= SCALE,
        r.0 == cos_turn_spec(i as int, n as int),
        r.1 == sin_turn_spec(i as int, n as int),
        i == 0 ==> r.0 == SCALE && r.1 == 0,
        4 * i == n ==> r.0 == 0 && r.1 == SCALE,
        4 * i == 2 * n ==> r.0 == -SCALE && r.1 == 0,
        4 * i == 3 * n ==> r.0 == 0 && r.1 == -SCALE,
{
    let four_i = 4u128 * (i as u128);
    let q = (four_i / (n as u128)) as u64;
    let rem = (four_i % (n as u128)) as u64;
    proof {
        assert(four_i < 4 * (n as int)) by (nonlinear_arith)
            requires
                four_i == 4 * (i as int),
                i < n,
        ;
        assert((four_i as int) / (n as int) < 4 && (four_i as int) % (n as int) < n) by (nonlinear_arith)
            requires
                0 <= four_i < 4 * (n as int),
                0 < n,
        ;
        if i == 0 {
            assert((four_i as int) / (n as int) == 0 && (four_i as int) % (n as int) == 0) by (nonlinear_arith)
                requires
                    four_i == 0,
                    0 < n,
            ;
        }
        if 4 * i == n {
            lemma_div_multiples_vanish(1, n as int);
            lemma_mod_multiples_basic(1, n as int);
        }
        if 4 * i == 2 * n {
            lemma_div_multiples_vanish(2, n as int);
            lemma_mod_multiples_basic(2, n as int);
        }
        if 4 * i == 3 * n {
            lemma_div_multiples_vanish(3, n as int);
            lemma_mod_multiples_basic(3, n as int);
        }
    }
    let t = (((rem as u128) * (SCALE as u128)) / (n as u128)) as u64;
    proof {
        assert((rem as int) * (SCALE as int) < (n as int) * (SCALE as int) && ((rem as int) * (
        SCALE as int)) / (n as int) <= SCALE && (rem == 0 ==> (rem as int) * (SCALE as int) / (n
            as int) == 0)) by (nonlinear_arith)
            requires
                0 <= rem < n,
                0 < n,
        ;
    }
    let cs = quarter_cos_sin(t);
    let c = cs.0;
    let s = cs.1;
    if q == 0 {
        (c, s)
    } else if q == 1 {
        (-s, c)
    } else if q == 2 {
        (-c, -s)
    } else {
        (s, -c)
    }
}

} // verus!
