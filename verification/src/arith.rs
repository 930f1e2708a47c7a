//! Floor division for signed fixed-point values.
//!
//! The pipeline's arithmetic is specified with the mathematical integer
//! division `/`, which rounds toward negative infinity. Machine division
//! of signed integers rounds toward zero instead, so the executable code
//! shifts the dividend into nonnegative territory, divides there, and
//! shifts back.

use vstd::prelude::*;

verus! {

/// Largest dividend magnitude `div_floor` accepts.
pub const DIV_RANGE: i64 = 1_000_000_000_000_000;

/// Largest divisor `div_floor` accepts.
pub const DIV_MAX_DIVISOR: u64 = 1_000_000_000;

/// Divide `t` by `d`, rounding toward negative infinity, exactly as the
/// mathematical `/` on `int` does for a positive divisor.
pub fn div_floor(t: i64, d: u64) -> (q: i64)
    requires
        1 <= d <= DIV_MAX_DIVISOR,
        -DIV_RANGE <= t <= DIV_RANGE,
    ensures
        q == t as int / d as int,
{
    let k: u64 = (DIV_RANGE as u64) / d + 1;
    proof {
        let a: int = DIV_RANGE as int;
        let dd: int = d as int;
        vstd::arithmetic::div_mod::lemma_fundamental_div_mod(a, dd);
        vstd::arithmetic::div_mod::lemma_mod_division_less_than_divisor(a, dd);
        assert(dd * (a / dd) <= a);
        assert((a / dd + 1) * dd == dd * (a / dd) + dd) by (nonlinear_arith);
        assert(k as int * dd <= a + dd);
        assert(k as int * dd > a) by (nonlinear_arith)
            requires
                k as int == a / dd + 1,
                dd * (a / dd) <= a,
                dd >= 1,
                a >= 0,
                dd * (a / dd) + dd > a,
        ;
    }
    let offset: u64 = k * d;
    let shifted: u64 = ((t as i64) + (offset as i64)) as u64;
    let q0: u64 = shifted / d;
    proof {
        vstd::arithmetic::div_mod::lemma_hoist_over_denominator(t as int, k as int, d as nat);
        assert(shifted as int == t as int + (k as int) * (d as int));
        assert(q0 as int == t as int / d as int + k as int);
    }
    (q0 as i64) - (k as i64)
}

} // verus!
