//! The one source of chance in the simulation: a seedable generator owned by
//! the game and handed by `&mut` to every phase that draws.
use rand::Rng;
use vstd::prelude::*;

verus! {

#[verifier::external_type_specification]
#[verifier::external_body]
pub struct ExStdRng(rand::rngs::StdRng);

/// Relies on rand's `Rng::gen_range` over `0..n` for `u64`: a value drawn
/// uniformly from the half-open range, which panics only when the range is
/// empty.
#[verifier::external_body]
pub(crate) fn draw_below(rng: &mut rand::rngs::StdRng, n: u64) -> (r: u64)
    requires
        n > 0,
    ensures
        r < n,
{
    rng.gen_range(0..n)
}

/// Parts per million: the scale of every probability and uniform draw.
pub const PPM: u64 = 1_000_000;

/// A uniform draw in `[0, PPM)`, compared against probabilities in ppm.
pub fn draw_ppm(rng: &mut rand::rngs::StdRng) -> (r: u64)
    ensures
        r < PPM,
{
    draw_below(rng, PPM)
}

} // verus!
