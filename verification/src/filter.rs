//! The smoothing stage: one exponential-moving-average filter per
//! waveform, each blending seven tenths of its previous output with three
//! tenths of the new input.

use vstd::prelude::*;
use vstd::arithmetic::power::{lemma_pow1, lemma_pow_adds, lemma_pow_positive, pow};
use crate::arith::div_floor;
use crate::sample::{PublishedSample, RawSample, VALUE_BOUND, value_in_range};

verus! {

/// One filter update on mathematical integers: keep seven tenths of the
/// old state and take three tenths of the input, rounding the blend
/// toward negative infinity.
pub open spec fn ema_step(y: int, x: int) -> int {
    (7 * y + 3 * x) / 10
}

/// An exponential-moving-average filter over fixed-point values.
pub struct Filter {
    pub value: i64,
}

impl Filter {
    /// The filter state stays within the pipeline's value range.
    pub open spec fn wf(self) -> bool {
        value_in_range(self.value as int)
    }

    /// A fresh filter, at rest at zero.
    pub fn new() -> (f: Filter)
        ensures
            f.wf(),
            f.value == 0,
    {
        Filter { value: 0 }
    }

    /// Feed one input into the filter; the new state is returned and is
    /// exactly one `ema_step` from the old one.
    pub fn filter(&mut self, x: i64) -> (y: i64)
        requires
            old(self).wf(),
            value_in_range(x as int),
        ensures
            final(self).wf(),
            final(self).value == ema_step(old(self).value as int, x as int),
            y == final(self).value,
    {
        let blend: i64 = 7 * self.value + 3 * x;
        let y: i64 = div_floor(blend, 10);
        proof {
            assert(value_in_range(ema_step(old(self).value as int, x as int))) by {
                let b: int = 7 * old(self).value + 3 * x;
                assert(-10 * VALUE_BOUND <= b <= 10 * VALUE_BOUND);
                assert(10 * (-VALUE_BOUND as int) <= b ==> -VALUE_BOUND <= b / 10) by (nonlinear_arith);
                assert(b <= 10 * (VALUE_BOUND as int) ==> b / 10 <= VALUE_BOUND) by (nonlinear_arith);
            }
        }
        self.value = y;
        y
    }
}

/// One step of the implemented filter drives the state toward the input
/// and never past it: for a state at or below the input, the next state
/// lies between the two, so repeated filtering of a constant input
/// climbs monotonically and never overshoots.
pub proof fn lemma_ema_step_monotone_toward_input(y: int, x: int)
    requires
        y <= x,
    ensures
        y <= ema_step(y, x) <= x,
{
    vstd::arithmetic::div_mod::lemma_div_is_ordered(10 * y, 7 * y + 3 * x, 10);
    vstd::arithmetic::div_mod::lemma_div_is_ordered(7 * y + 3 * x, 10 * x, 10);
    vstd::arithmetic::div_mod::lemma_div_multiples_vanish(y, 10);
    vstd::arithmetic::div_mod::lemma_div_multiples_vanish(x, 10);
}

/// The mirror image: for a state at or above the input, the next state
/// lies between the two, so repeated filtering of a constant input from
/// above descends monotonically and never undershoots.
pub proof fn lemma_ema_step_monotone_from_above(y: int, x: int)
    requires
        x <= y,
    ensures
        x <= ema_step(y, x) <= y,
{
    vstd::arithmetic::div_mod::lemma_div_is_ordered(10 * x, 7 * y + 3 * x, 10);
    vstd::arithmetic::div_mod::lemma_div_is_ordered(7 * y + 3 * x, 10 * y, 10);
    vstd::arithmetic::div_mod::lemma_div_multiples_vanish(x, 10);
    vstd::arithmetic::div_mod::lemma_div_multiples_vanish(y, 10);
}

/// The filter's output after feeding the constant input `x` for `n` steps
/// from initial state `0`, computed in exact arithmetic and scaled by
/// `10^n` so that it stays an integer: `ema_scaled(x, n) / 10^n` is the
/// `n`-th output of the recurrence `y' = (7*y + 3*x) / 10`.
pub open spec fn ema_scaled(x: int, n: nat) -> int
    decreases n,
{
    if n == 0 {
        0
    } else {
        7 * ema_scaled(x, (n - 1) as nat) + 3 * x * pow(10, (n - 1) as nat)
    }
}

/// Closed form of the constant-input filter run: after `n` steps the
/// scaled output is `x * (10^n - 7^n)`.
pub proof fn lemma_ema_scaled_closed_form(x: int, n: nat)
    ensures
        ema_scaled(x, n) == x * (pow(10, n) - pow(7, n)),
    decreases n,
{
    if n == 0 {
        vstd::arithmetic::power::lemma_pow0(10);
        vstd::arithmetic::power::lemma_pow0(7);
        assert(x * (1 - 1) == 0) by (nonlinear_arith);
    } else {
        let m = (n - 1) as nat;
        lemma_ema_scaled_closed_form(x, m);
        let p10 = pow(10, m);
        let p7 = pow(7, m);
        assert(pow(10, n) == 10 * p10) by {
            lemma_pow_adds(10, 1, m);
            lemma_pow1(10);
        }
        assert(pow(7, n) == 7 * p7) by {
            lemma_pow_adds(7, 1, m);
            lemma_pow1(7);
        }
        assert(7 * (x * (p10 - p7)) + 3 * x * p10 == x * (10 * p10 - 7 * p7)) by (nonlinear_arith);
    }
}

/// Filtering a constant input `x` repeatedly from initial state `0`
/// leaves, after `n` steps, a residual of exactly `(7/10)^n * x`: scaled
/// by `10^n`, the distance from `x` to the output is `x * 7^n`.
pub proof fn lemma_ema_constant_input_residual(x: int, n: nat)
    ensures
        x * pow(10, n) - ema_scaled(x, n) == x * pow(7, n),
{
    lemma_ema_scaled_closed_form(x, n);
    assert(x * pow(10, n) - x * (pow(10, n) - pow(7, n)) == x * pow(7, n)) by (nonlinear_arith);
}

/// For a nonnegative constant input the outputs climb monotonically and
/// never pass the input: comparing consecutive outputs over a common
/// denominator, `y_n <= y_{n+1}` and `y_n <= x`.
pub proof fn lemma_ema_constant_input_monotone(x: int, n: nat)
    requires
        x >= 0,
    ensures
        ema_scaled(x, n + 1) * pow(10, n) >= ema_scaled(x, n) * pow(10, n + 1),
        ema_scaled(x, n) <= x * pow(10, n),
{
    lemma_ema_scaled_closed_form(x, n);
    lemma_ema_scaled_closed_form(x, n + 1);
    lemma_pow_positive(10, n);
    lemma_pow_positive(7, n);
    let p10 = pow(10, n);
    let p7 = pow(7, n);
    assert(pow(10, n + 1) == 10 * p10) by {
        lemma_pow_adds(10, 1, n);
        lemma_pow1(10);
    }
    assert(pow(7, n + 1) == 7 * p7) by {
        lemma_pow_adds(7, 1, n);
        lemma_pow1(7);
    }
    assert((x * (10 * p10 - 7 * p7)) * p10 - (x * (p10 - p7)) * (10 * p10) == 3 * x * p7 * p10)
        by (nonlinear_arith);
    assert(3 * x * p7 * p10 >= 0) by (nonlinear_arith)
        requires
            x >= 0,
            p7 > 0,
            p10 > 0,
    ;
    assert(x * (p10 - p7) <= x * p10) by (nonlinear_arith)
        requires
            x >= 0,
            p7 > 0,
    ;
}

/// For a nonpositive constant input the outputs descend monotonically
/// and never pass the input: comparing consecutive outputs over a common
/// denominator, `y_n >= y_{n+1}` and `y_n >= x`.
pub proof fn lemma_ema_constant_input_monotone_nonpositive(x: int, n: nat)
    requires
        x <= 0,
    ensures
        ema_scaled(x, n + 1) * pow(10, n) <= ema_scaled(x, n) * pow(10, n + 1),
        ema_scaled(x, n) >= x * pow(10, n),
{
    lemma_ema_scaled_closed_form(x, n);
    lemma_ema_scaled_closed_form(x, n + 1);
    lemma_pow_positive(10, n);
    lemma_pow_positive(7, n);
    let p10 = pow(10, n);
    let p7 = pow(7, n);
    assert(pow(10, n + 1) == 10 * p10) by {
        lemma_pow_adds(10, 1, n);
        lemma_pow1(10);
    }
    assert(pow(7, n + 1) == 7 * p7) by {
        lemma_pow_adds(7, 1, n);
        lemma_pow1(7);
    }
    assert((x * (10 * p10 - 7 * p7)) * p10 - (x * (p10 - p7)) * (10 * p10) == 3 * x * p7 * p10)
        by (nonlinear_arith);
    assert(3 * x * p7 * p10 <= 0) by (nonlinear_arith)
        requires
            x <= 0,
            p7 > 0,
            p10 > 0,
    ;
    assert(x * (p10 - p7) >= x * p10) by (nonlinear_arith)
        requires
            x <= 0,
            p7 > 0,
    ;
}

/// The whole smoothing stage: two independent filters, one per waveform
/// kind, which never share or cross-update state.
pub struct FilterStage {
    pub sine: Filter,
    pub square: Filter,
}

impl FilterStage {
    /// Both filters are in range.
    pub open spec fn wf(self) -> bool {
        self.sine.wf() && self.square.wf()
    }

    /// A fresh stage with both filters at rest.
    pub fn new() -> (s: FilterStage)
        ensures
            s.wf(),
            s.sine.value == 0,
            s.square.value == 0,
    {
        FilterStage { sine: Filter::new(), square: Filter::new() }
    }

    /// Consume one raw sample: update only the filter of its waveform and
    /// publish the raw value next to the filtered one, under the same tag.
    pub fn process(&mut self, s: RawSample) -> (p: PublishedSample)
        requires
            old(self).wf(),
            s.wf(),
        ensures
            final(self).wf(),
            match s {
                RawSample::Sine(v) => {
                    &&& final(self).sine.value == ema_step(old(self).sine.value as int, v as int)
                    &&& final(self).square == old(self).square
                    &&& p == PublishedSample::Sine(v, final(self).sine.value)
                },
                RawSample::Square(v) => {
                    &&& final(self).square.value == ema_step(old(self).square.value as int, v as int)
                    &&& final(self).sine == old(self).sine
                    &&& p == PublishedSample::Square(v, final(self).square.value)
                },
            },
            p.wf(),
    {
        match s {
            RawSample::Sine(v) => {
                let y = self.sine.filter(v);
                PublishedSample::Sine(v, y)
            },
            RawSample::Square(v) => {
                let y = self.square.filter(v);
                PublishedSample::Square(v, y)
            },
        }
    }
}

} // verus!
