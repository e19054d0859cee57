//! The injectable random source of a simulation run: site draws and the
//! Metropolis acceptance draw.  Production code backs it with a thread-local
//! generator (`ThreadRngSource`); tests pass scripted implementations in, so
//! runs are reproducible.

use vstd::prelude::*;
use rand::RngExt;

verus! {

/// Supplier of the randomness a Metropolis step consumes.
///
/// `pick_index` draws a site coordinate; an implementation is expected to
/// draw uniformly, and must return a value below `bound`.
///
/// `boltzmann_accept` decides the acceptance draw for a positive exponent:
/// the intended behaviour is to answer true with probability
/// `exp(-beta * exponent)`, but nothing is assumed of the answer, and the
/// stepper is verified for both.
pub trait RandomSource {
    fn pick_index(&mut self, bound: usize) -> (r: usize)
        requires
            bound >= 1,
        ensures
            r < bound,
    ;

    fn boltzmann_accept(&mut self, beta: i64, exponent: i64) -> (accept: bool)
        requires
            exponent >= 1,
    ;
}

/// Relies on `rand::rng`: a handle to the thread-local generator.
#[verifier::external_body]
fn fresh_rng() -> rand::rngs::ThreadRng {
    rand::rng()
}

/// Relies on `rand::RngExt::random_range` over `0..bound`: a value drawn
/// uniformly from that range, so below `bound`; the range is non-empty, so
/// the call does not panic.
#[verifier::external_body]
fn draw_below(rng: &mut rand::rngs::ThreadRng, bound: usize) -> (r: usize)
    requires
        bound >= 1,
    ensures
        r < bound,
{
    rng.random_range(0..bound)
}

/// Relies on `rand::RngExt::random::<u32>`: some 32-bit value, uniform over
/// all of `u32`; nothing is assumed of the result.
#[verifier::external_body]
fn draw_u32(rng: &mut rand::rngs::ThreadRng) -> u32 {
    rng.random()
}

/// Opaque holder of the `rand` thread-local generator state.
#[verifier::external_type_specification]
#[verifier::external_body]
pub struct ExThreadRng(rand::rngs::ThreadRng);

/// The production random source: a thread-local generator together with a
/// table of 32-bit acceptance thresholds, one per positive exponent the run
/// can produce.  A Boltzmann draw for exponent `d` accepts when a uniform
/// 32-bit draw falls below the threshold paired with `d`, so with
/// probability `threshold / 2^32`; the caller builds the table so that the
/// threshold approximates `exp(-beta * d) * 2^32`.  An exponent without an
/// entry is never accepted.
pub struct ThreadRngSource {
    rng: rand::rngs::ThreadRng,
    accept_thresholds: Vec<(i64, u32)>,
}

impl ThreadRngSource {
    /// A source drawing from the thread-local generator, accepting positive
    /// exponents by the given threshold table.
    pub fn new(accept_thresholds: Vec<(i64, u32)>) -> (s: ThreadRngSource) {
        ThreadRngSource { rng: fresh_rng(), accept_thresholds }
    }
}

impl RandomSource for ThreadRngSource {
    fn pick_index(&mut self, bound: usize) -> (r: usize) {
        draw_below(&mut self.rng, bound)
    }

    fn boltzmann_accept(&mut self, _beta: i64, exponent: i64) -> (accept: bool) {
        let mut k: usize = 0;
        let mut threshold: u32 = 0;
        let mut found = false;
        while k < self.accept_thresholds.len()
            invariant
                k <= self.accept_thresholds.len(),
            decreases self.accept_thresholds.len() - k,
        {
            let entry = self.accept_thresholds[k];
            if entry.0 == exponent {
                threshold = entry.1;
                found = true;
            }
            k = k + 1;
        }
        if found {
            draw_u32(&mut self.rng) < threshold
        } else {
            false
        }
    }
}

} // verus!
