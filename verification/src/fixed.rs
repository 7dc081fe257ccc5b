//! Fixed-point arithmetic for the UCB1 rule.
//!
//! The UCB1 score `wins / visits + C * sqrt(ln(parent_visits) / visits)`
//! is computed over integers with 16 fractional bits: an integer square
//! root, a base-2 logarithm found bit by bit through repeated squaring,
//! and the natural logarithm recovered with a fixed-point `ln 2`.  Every
//! executable function is pinned exactly to its spec-level counterpart,
//! so selection is a deterministic function of the node statistics.

use vstd::prelude::*;
use vstd::arithmetic::power2::{pow2, lemma2_to64, lemma_pow2_strictly_increases};
use vstd::arithmetic::div_mod::{
    lemma_div_denominator,
    lemma_fundamental_div_mod,
    lemma_div_is_ordered,
    lemma_div_is_ordered_by_denominator,
    lemma_mod_bound,
};
use crate::state::RESULT_SCALE;

verus! {

/// One in fixed point: 16 fractional bits.
pub const FP_ONE: u64 = 65536;

/// `ln 2` in fixed point: `round(ln 2 * 65536)`.
pub const LN2_FP: u64 = 45426;

/// The classic exploration constant `sqrt 2` in fixed point:
/// `round(sqrt 2 * 65536)`.
pub const EXPLORATION_SQRT2_FP: u64 = 92682;

/// Largest parent visit count the logarithm accepts.
pub const LOG_ARG_MAX: u64 = 0x2_0000_0000;

/// Largest exploration constant the score accepts (16 in fixed point
/// is already far beyond any useful setting).
pub const EXPLORATION_MAX_FP: u64 = 0x10_0000;

/// The integer square root: the unique `r >= 0` with
/// `r * r <= x < (r + 1) * (r + 1)`.
pub open spec fn sqrt_floor(x: int) -> int {
    choose|r: int| 0 <= r && #[trigger] (r * r) <= x && x < (r + 1) * (r + 1)
}

/// Any two integer square roots of the same value agree, so `sqrt_floor`
/// names the one the executable search finds.
pub proof fn lemma_sqrt_floor_unique(x: int, r: int)
    requires
        0 <= r,
        r * r <= x,
        x < (r + 1) * (r + 1),
    ensures
        sqrt_floor(x) == r,
{
    assert(0 <= r && r * r <= x && x < (r + 1) * (r + 1));
    let s = sqrt_floor(x);
    assert(0 <= s && s * s <= x && x < (s + 1) * (s + 1)) by {
        assert(exists|q: int| 0 <= q && #[trigger] (q * q) <= x && x < (q + 1) * (q + 1)) by {
            assert(0 <= r && r * r <= x && x < (r + 1) * (r + 1));
        }
    }
    assert(s == r) by (nonlinear_arith)
        requires
            0 <= r,
            r * r <= x,
            x < (r + 1) * (r + 1),
            0 <= s,
            s * s <= x,
            x < (s + 1) * (s + 1),
    ;
}

/// The integer square root, found by binary search.
pub fn int_sqrt(n: u64) -> (r: u64)
    ensures
        r * r <= n < (r + 1) * (r + 1),
        r == sqrt_floor(n as int),
{
    let mut lo: u64 = 0;
    let mut hi: u64 = 0x1_0000_0000;
    proof {
        assert((0x1_0000_0000u64 as int) * (0x1_0000_0000u64 as int) > n as int);
    }
    while hi - lo > 1
        invariant
            lo < hi <= 0x1_0000_0000,
            lo * lo <= n,
            n < hi * hi,
        decreases hi - lo,
    {
        let mid = lo + (hi - lo) / 2;
        proof {
            assert(mid < hi);
            assert(mid as int * mid as int <= 0xFFFF_FFFFu64 as int
                * 0xFFFF_FFFFu64 as int) by (nonlinear_arith)
                requires
                    0 <= mid as int <= 0xFFFF_FFFF,
            ;
        }
        if mid * mid <= n {
            lo = mid;
        } else {
            hi = mid;
        }
    }
    proof {
        lemma_sqrt_floor_unique(n as int, lo as int);
    }
    lo
}

/// `floor(log2 n)` for `n >= 1`; 0 below 2.
pub open spec fn spec_floor_log2(n: int) -> int
    decreases n,
{
    if n < 2 {
        0
    } else {
        1 + spec_floor_log2(n / 2)
    }
}

/// One bit of the fractional part of `log2`: square the mantissa and
/// renormalize.  `x` is a fixed-point mantissa in `[1, 2)`; the first
/// component is the fraction accumulated after `steps` bits.
pub open spec fn spec_frac_iter(x0: int, steps: nat) -> (int, int)
    decreases steps,
{
    if steps == 0 {
        (0, x0)
    } else {
        let prev = spec_frac_iter(x0, (steps - 1) as nat);
        let y = (prev.1 * prev.1) / (FP_ONE as int);
        if y >= 2 * (FP_ONE as int) {
            (2 * prev.0 + 1, y / 2)
        } else {
            (2 * prev.0, y)
        }
    }
}

/// The fixed-point natural logarithm the engine uses: 16 fractional bits
/// of `log2` recovered by repeated squaring, scaled by `ln 2`.  Total,
/// with 0 at 0, so callers never divide by an undefined value.
pub open spec fn spec_ln_fp(n: u64) -> int {
    if n == 0 {
        0
    } else {
        let k = spec_floor_log2(n as int);
        let x0 = (n * FP_ONE) / pow2(k as nat) as int;
        let f = spec_frac_iter(x0, 16).0;
        ((k * FP_ONE + f) * LN2_FP) / (FP_ONE as int)
    }
}

/// The fixed-point natural logarithm, computed bit by bit.
pub fn log_fp(n: u64) -> (r: u64)
    requires
        n <= LOG_ARG_MAX,
    ensures
        r == spec_ln_fp(n),
        r < 0x20_0000,
{
    if n == 0 {
        return 0;
    }
    // Integer part: halve until the mantissa reaches [1, 2).
    let mut k: u64 = 0;
    let mut pw: u64 = 1;
    let mut m: u64 = n;
    proof {
        lemma2_to64();
    }
    while m >= 2
        invariant
            n <= LOG_ARG_MAX,
            1 <= m,
            1 <= pw,
            pw == pow2(k as nat),
            pw <= n,
            m == n as int / pw as int,
            spec_floor_log2(n as int) == k + spec_floor_log2(m as int),
            k <= 33,
        decreases m,
    {
        proof {
            lemma_div_denominator(n as int, pw as int, 2);
            assert(pow2((k + 1) as nat) == 2 * pow2(k as nat)) by {
                vstd::arithmetic::power2::lemma_pow2_unfold((k + 1) as nat);
            }
            lemma_fundamental_div_mod(n as int, pw as int);
            lemma_mod_bound(n as int, pw as int);
            assert(pw as int * 2 <= n as int) by (nonlinear_arith)
                requires
                    n as int == pw as int * (n as int / pw as int) + n as int % (pw as int),
                    0 <= n as int % (pw as int),
                    n as int / pw as int >= 2,
                    1 <= pw,
            ;
            if k + 1 > 33 {
                vstd::arithmetic::power2::lemma2_to64_rest();
                lemma_pow2_strictly_increases(33, (k + 1) as nat);
            }
        }
        m = m / 2;
        k = k + 1;
        pw = pw * 2;
    }
    proof {
        assert(m == 1);
        assert(spec_floor_log2(n as int) == k as int);
        lemma_fundamental_div_mod(n as int, pw as int);
        lemma_mod_bound(n as int, pw as int);
        assert(pw <= n < (2 * pw)) by (nonlinear_arith)
            requires
                n as int == pw as int * (n as int / pw as int) + n as int % (pw as int),
                0 <= n as int % (pw as int) < pw as int,
                n as int / pw as int == 1,
                1 <= pw,
        ;
    }
    // Mantissa in fixed point: x0 = n * 2^16 / 2^k, in [FP_ONE, 2*FP_ONE).
    let x0 = (n * FP_ONE) / pw;
    proof {
        lemma_fundamental_div_mod(n as int * FP_ONE as int, pw as int);
        lemma_mod_bound(n as int * FP_ONE as int, pw as int);
        assert(FP_ONE <= x0 < (2 * FP_ONE)) by (nonlinear_arith)
            requires
                pw as int <= n as int && (n as int) < (2 * (pw as int)),
                0 < pw,
                n as int * FP_ONE as int == pw as int * (x0 as int) + (n as int * FP_ONE as int) % (
                pw as int),
                0 <= (n as int * FP_ONE as int) % (pw as int) < pw as int,
        ;
    }
    // Fractional part: 16 bits by repeated squaring.
    let mut frac: u64 = 0;
    let mut x: u64 = x0;
    let mut i: u64 = 0;
    while i < 16
        invariant
            i <= 16,
            FP_ONE <= x < (2 * FP_ONE),
            frac < pow2(i as nat),
            frac == spec_frac_iter(x0 as int, i as nat).0,
            x == spec_frac_iter(x0 as int, i as nat).1,
            FP_ONE <= x0 < (2 * FP_ONE),
        decreases 16 - i,
    {
        proof {
            assert(x as int * (x as int) < 4 * FP_ONE as int * FP_ONE as int && FP_ONE as int
                * FP_ONE as int <= x as int * x as int) by (nonlinear_arith)
                requires
                    FP_ONE as int <= x as int && (x as int) < (2 * (FP_ONE as int)),
            ;
            lemma_fundamental_div_mod(x as int * x as int, FP_ONE as int);
            lemma_mod_bound(x as int * x as int, FP_ONE as int);
            assert(FP_ONE as int <= (x as int * x as int) / (FP_ONE as int) < (4 * FP_ONE as int))
                by (nonlinear_arith)
                requires
                    FP_ONE as int * FP_ONE as int <= x as int * (x as int) < (4 * FP_ONE as int
                        * FP_ONE as int),
                    x as int * x as int == FP_ONE as int * ((x as int * x as int) / (
                    FP_ONE as int)) + (x as int * x as int) % (FP_ONE as int),
                    0 <= (x as int * x as int) % (FP_ONE as int) < FP_ONE as int,
            ;
            assert(pow2((i + 1) as nat) == 2 * pow2(i as nat)) by {
                vstd::arithmetic::power2::lemma_pow2_unfold((i + 1) as nat);
            }
            lemma2_to64();
            if i < 15 {
                lemma_pow2_strictly_increases(i as nat, 15);
            }
            assert(frac < 32768);
        }
        let y = (x * x) / FP_ONE;
        if y >= 2 * FP_ONE {
            frac = 2 * frac + 1;
            x = y / 2;
        } else {
            frac = 2 * frac;
            x = y;
        }
        i = i + 1;
    }
    proof {
        lemma2_to64();
        assert(frac < 65536);
    }
    let log2fp = k * FP_ONE + frac;
    let r = (log2fp * LN2_FP) / FP_ONE;
    proof {
        assert(r as int == spec_ln_fp(n));
        lemma_div_is_ordered(
            log2fp as int * LN2_FP as int,
            35 * FP_ONE as int * LN2_FP as int,
            FP_ONE as int,
        );
        assert(35 * FP_ONE as int * LN2_FP as int / (FP_ONE as int) < 0x20_0000);
    }
    r
}

/// The UCB1 score of a visited child in fixed point:
/// exploitation `wins / visits` plus `c * sqrt(ln(parent) / visits)`,
/// every division taken as the integer floor.
pub open spec fn spec_ucb1_score(wins: u64, visits: u64, parent_visits: u64, c_fp: u64) -> int {
    let exploit = (wins * FP_ONE) / (visits * RESULT_SCALE);
    let ratio = spec_ln_fp(parent_visits) / (visits as int);
    let explore = sqrt_floor(ratio * FP_ONE);
    exploit + (c_fp * explore) / (FP_ONE as int)
}

/// The UCB1 score, computed exactly as `spec_ucb1_score` states it.
pub fn ucb1_score(wins: u64, visits: u64, parent_visits: u64, c_fp: u64) -> (r: u64)
    requires
        1 <= visits <= 0x1_0000_0000,
        wins <= RESULT_SCALE * visits,
        parent_visits <= LOG_ARG_MAX,
        c_fp <= EXPLORATION_MAX_FP,
    ensures
        r == spec_ucb1_score(wins, visits, parent_visits, c_fp),
        r < 0x1_0000_0000_0000,
{
    proof {
        assert(wins as int * FP_ONE as int <= RESULT_SCALE as int * visits as int
            * FP_ONE as int) by (nonlinear_arith)
            requires
                wins as int <= RESULT_SCALE as int * visits as int,
        ;
    }
    let exploit = (wins * FP_ONE) / (visits * RESULT_SCALE);
    proof {
        lemma_div_is_ordered(
            wins as int * FP_ONE as int,
            RESULT_SCALE as int * visits as int * FP_ONE as int,
            visits as int * RESULT_SCALE as int,
        );
        assert(RESULT_SCALE as int * visits as int * FP_ONE as int / (visits as int
            * RESULT_SCALE as int) == FP_ONE) by (nonlinear_arith)
            requires
                1 <= visits,
        ;
        assert(exploit <= FP_ONE);
    }
    let ln_n = log_fp(parent_visits);
    let ratio = ln_n / visits;
    proof {
        lemma_div_is_ordered_by_denominator(ln_n as int, 1, visits as int);
        assert(ratio as int <= ln_n as int);
    }
    let explore = int_sqrt(ratio * FP_ONE);
    proof {
        assert(explore < 0x800_0000) by (nonlinear_arith)
            requires
                explore as int * explore as int <= ratio as int * FP_ONE as int,
                (ratio as int) < 0x20_0000,
                FP_ONE == 65536,
                0 <= explore,
        ;
        assert(c_fp as int * (explore as int) < 0x8000_0000_0000) by (nonlinear_arith)
            requires
                0 <= explore,
                (explore as int) < 0x800_0000,
                c_fp <= 0x10_0000,
        ;
    }
    exploit + (c_fp * explore) / FP_ONE
}

} // verus!
