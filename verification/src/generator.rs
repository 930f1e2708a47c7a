//! The two waveform generators and the noise they inject.
//!
//! Each generator owns a deterministic tick counter; the transcendental
//! part of the sine wave and the uniform random draw behind the noise are
//! handed in as fixed-point values, so that everything the generators
//! decide — phase accounting, the square wave's level, noise scaling and
//! sample assembly — is stated and proved here.

use vstd::prelude::*;
use crate::arith::div_floor;
use crate::config::valid_level;
use crate::sample::{MICRO, RawSample};

verus! {

/// Half a unit in micro-units: a uniform draw from `[0, 1)` is centred by
/// subtracting it.
pub const HALF_MICRO: i64 = 500_000;

/// Number of ticks the square wave holds each level.
pub const SQUARE_HALF_PERIOD: u32 = 50;

/// Number of ticks after which the square counter wraps back to zero:
/// the largest multiple of the wave's hundred-tick period a `u32`
/// holds, so that the fifty-high/fifty-low alternation continues
/// unbroken across the wrap.
pub const SQUARE_COUNTER_MODULUS: u32 = 4_294_967_200;

/// The noise added to a sample: a uniform draw `u` from `[0, 1)` (in
/// micro-units), centred around zero and scaled by the noise level
/// percentage, rounded toward negative infinity.
pub open spec fn spec_noise(u: int, level: int) -> int {
    ((u - HALF_MICRO) * level) / 100
}

/// Scale one uniform draw by the current noise level. The result always
/// stays within half a unit of zero.
pub fn noise_value(u: i64, level: u16) -> (n: i64)
    requires
        0 <= u < MICRO,
        valid_level(level as int),
    ensures
        n == spec_noise(u as int, level as int),
        -HALF_MICRO <= n <= HALF_MICRO,
{
    let centred: i64 = u - HALF_MICRO;
    proof {
        assert(-100 * HALF_MICRO <= centred as int * level as int <= 100 * HALF_MICRO)
            by (nonlinear_arith)
            requires
                -HALF_MICRO <= (centred as int) < HALF_MICRO,
                1 <= (level as int) <= 100,
        ;
    }
    let scaled: i64 = centred * (level as i64);
    let n = div_floor(scaled, 100);
    proof {
        assert(-HALF_MICRO <= (scaled as int / 100) <= HALF_MICRO) by (nonlinear_arith)
            requires
                -100 * HALF_MICRO <= (scaled as int) <= 100 * HALF_MICRO,
        ;
    }
    n
}

/// Whether the square wave is at its high level on a given tick: high for
/// the first fifty ticks of every hundred, low for the next fifty.
pub open spec fn spec_square_high(counter: u32) -> bool {
    (counter as int / SQUARE_HALF_PERIOD as int) % 2 == 0
}

/// The square wave's noise-free value on a given tick, in micro-units:
/// one unit when high, zero when low.
pub open spec fn spec_square_base(counter: u32) -> int {
    if spec_square_high(counter) {
        MICRO as int
    } else {
        0
    }
}

/// The square-wave producer: a wrapping tick counter that fully
/// determines the noise-free value of each sample.
pub struct SquareGenerator {
    pub counter: u32,
}

impl SquareGenerator {
    /// A fresh generator at tick zero.
    pub fn new() -> (g: SquareGenerator)
        ensures
            g.counter == 0,
    {
        SquareGenerator { counter: 0 }
    }

    /// The noise-free value of the current tick.
    pub fn base_value(&self) -> (v: i64)
        ensures
            v == spec_square_base(self.counter),
    {
        if (self.counter / SQUARE_HALF_PERIOD) % 2 == 0 {
            MICRO
        } else {
            0
        }
    }

    /// Assemble the sample for the current tick from the given noise.
    pub fn sample(&self, noise: i64) -> (s: RawSample)
        requires
            -HALF_MICRO <= noise <= HALF_MICRO,
        ensures
            s == RawSample::Square((spec_square_base(self.counter) + noise) as i64),
            s.wf(),
    {
        RawSample::Square(self.base_value() + noise)
    }

    /// Advance to the next tick; the counter wraps back to zero after a
    /// whole number of wave periods, so the alternation keeps its
    /// hundred-tick period across the wrap, and the generator never
    /// halts.
    pub fn advance(&mut self)
        ensures
            final(self).counter == if old(self).counter >= SQUARE_COUNTER_MODULUS - 1 {
                0int
            } else {
                old(self).counter + 1
            },
    {
        if self.counter >= SQUARE_COUNTER_MODULUS - 1 {
            self.counter = 0;
        } else {
            self.counter = self.counter + 1;
        }
    }
}

/// The square wave's level depends only on the tick's place within one
/// hundred-tick period: high exactly in the first fifty of each hundred.
pub proof fn lemma_square_high_mod_period(c: int)
    requires
        c >= 0,
    ensures
        ((c / 50) % 2 == 0) <==> (c % 100 < 50),
{
    let q = c / 100;
    let r = c % 100;
    vstd::arithmetic::div_mod::lemma_fundamental_div_mod(c, 100);
    vstd::arithmetic::div_mod::lemma_mod_division_less_than_divisor(c, 100);
    assert(c / 50 == 2 * q + r / 50) by {
        vstd::arithmetic::div_mod::lemma_hoist_over_denominator(r, 2 * q, 50);
        assert((2 * q) * 50 == 100 * q) by (nonlinear_arith);
    }
    assert((2 * q + r / 50) % 2 == (r / 50) % 2) by {
        vstd::arithmetic::div_mod::lemma_mod_multiples_vanish(q, r / 50, 2);
    }
    if r < 50 {
        vstd::arithmetic::div_mod::lemma_basic_div(r, 50);
    } else {
        assert(r / 50 == 1) by {
            vstd::arithmetic::div_mod::lemma_basic_div(r - 50, 50);
            vstd::arithmetic::div_mod::lemma_hoist_over_denominator(r - 50, 1, 50);
        }
    }
}

/// One hundred ticks later the square wave is at the same level again —
/// across the counter's wrap as well, since the counter cycles through a
/// whole number of periods.
pub proof fn lemma_square_period(counter: u32)
    requires
        counter < SQUARE_COUNTER_MODULUS,
    ensures
        spec_square_high(
            (((counter as int) + 100) % (SQUARE_COUNTER_MODULUS as int)) as u32,
        ) == spec_square_high(counter),
{
    let m: int = SQUARE_COUNTER_MODULUS as int;
    let c: int = counter as int;
    let c2: int = (c + 100) % m;
    vstd::arithmetic::div_mod::lemma_mod_division_less_than_divisor(c + 100, m);
    if c + 100 < m {
        vstd::arithmetic::div_mod::lemma_small_mod((c + 100) as nat, m as nat);
        assert(c2 % 100 == c % 100) by {
            vstd::arithmetic::div_mod::lemma_mod_add_multiples_vanish(c, 100);
        }
    } else {
        assert(c2 == c + 100 - m) by {
            vstd::arithmetic::div_mod::lemma_mod_sub_multiples_vanish(c + 100, m);
            vstd::arithmetic::div_mod::lemma_small_mod((c + 100 - m) as nat, m as nat);
        }
        assert(c2 == 100 * (-42_949_671) + c);
        assert(c2 % 100 == c % 100) by {
            vstd::arithmetic::div_mod::lemma_mod_multiples_vanish(-42_949_671, c, 100);
        }
    }
    lemma_square_high_mod_period(c);
    lemma_square_high_mod_period(c2);
}

/// The sine-wave producer: a monotonically growing phase index. The
/// phase, in radians, is the index over one hundred; it grows without
/// wrapping, mirroring the unreduced phase accumulator of the waveform.
pub struct SineGenerator {
    pub ticks: u64,
}

impl SineGenerator {
    /// A fresh generator at phase zero.
    pub fn new() -> (g: SineGenerator)
        ensures
            g.ticks == 0,
    {
        SineGenerator { ticks: 0 }
    }

    /// The current phase index: the phase in hundredths of a radian.
    pub fn phase_hundredths(&self) -> (p: u64)
        ensures
            p == self.ticks,
    {
        self.ticks
    }

    /// Assemble the sample for the current tick from the sine of the
    /// current phase (in micro-units) and the given noise.
    pub fn sample(&self, sine_base: i64, noise: i64) -> (s: RawSample)
        requires
            -MICRO <= sine_base <= MICRO,
            -HALF_MICRO <= noise <= HALF_MICRO,
        ensures
            s == RawSample::Sine((sine_base + noise) as i64),
            s.wf(),
    {
        RawSample::Sine(sine_base + noise)
    }

    /// Advance the phase by one hundredth of a radian.
    pub fn advance(&mut self)
        requires
            old(self).ticks < u64::MAX,
        ensures
            final(self).ticks == old(self).ticks + 1,
    {
        self.ticks = self.ticks + 1;
    }
}

} // verus!
