//! The generators' private pseudo-random streams.
//!
//! Each generator owns a seeded `fastrand::Rng`; the stream it yields is
//! fully determined by that seed. Nothing about an individual draw can
//! be promised, so the uniform draw is specified only by its range, and
//! everything downstream of it — centring, scaling by the noise level —
//! is verified for every value the draw could take.

use vstd::prelude::*;
use crate::sample::MICRO;

verus! {

#[verifier::external_type_specification]
#[verifier::external_body]
pub struct ExRng(fastrand::Rng);

/// Relies on `fastrand::Rng::u32` over the full range (which never
/// panics): one pseudo-random draw, advancing the generator's private
/// stream. Nothing is promised of the value drawn.
#[verifier::external_body]
fn draw_u32(rng: &mut fastrand::Rng) -> (r: u32) {
    rng.u32(..)
}

/// Scale one full-range draw down to micro-units: exactly the floor of
/// `draw / 2^32` of a unit, which always lands in `[0, MICRO)`.
pub fn scale_draw(draw: u32) -> (u: i64)
    ensures
        u == (draw as int) * 1_000_000 / 4_294_967_296,
        0 <= u < MICRO,
{
    let wide: u64 = (draw as u64) * 1_000_000;
    let scaled: u64 = wide / 4_294_967_296;
    proof {
        assert((wide as int) < 4_294_967_296 * 1_000_000) by (nonlinear_arith)
            requires
                wide as int == (draw as int) * 1_000_000,
                draw as int <= 0xffff_ffff,
        ;
        vstd::arithmetic::div_mod::lemma_multiply_divide_lt(
            wide as int,
            4_294_967_296,
            1_000_000,
        );
    }
    scaled as i64
}

/// One uniform draw from `[0, 1)`, in micro-units: a fresh 32-bit draw,
/// scaled. Whatever the stream yields, the result lies in `[0, MICRO)`.
pub fn uniform_micro(rng: &mut fastrand::Rng) -> (u: i64)
    ensures
        0 <= u < MICRO,
{
    let r: u32 = draw_u32(rng);
    scale_draw(r)
}

} // verus!
