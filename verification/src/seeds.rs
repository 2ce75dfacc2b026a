//! Seed generation: random points on the grid, drawn from a source of
//! numbers that the caller chooses.

use vstd::prelude::*;
use crate::geometry::{all_within, Point};

verus! {

/// A source of numbers for placing seeds. The generator takes the source as
/// a parameter, so that a run can draw from the system's randomness and a
/// test from a fixed sequence.
pub trait RandomSource {
    /// Draws a number below `bound`.
    fn below(&mut self, bound: usize) -> (drawn: usize)
        requires
            bound > 0,
        ensures
            drawn < bound,
    ;
}

/// `rand::rngs::ThreadRng`, the thread-local generator of the `rand` crate.
/// Nothing is known of what it holds.
#[verifier::external_type_specification]
#[verifier::external_body]
pub struct ExThreadRng(rand::rngs::ThreadRng);

/// `rand::thread_rng` hands out the thread-local generator, which the system
/// seeds; the call fails only where the system has no randomness to give.
/// Nothing is claimed of the generator.
pub assume_specification[ rand::thread_rng ]() -> (rng: rand::rngs::ThreadRng)
;

/// `rand::Rng::gen_range` on the half-open range from 0 to `bound`. The call
/// panics on an empty range, so the bound must not be 0; the number that it
/// samples lies in the range, and that is all that is claimed of it.
#[verifier::external_body]
fn sample_below(rng: &mut rand::rngs::ThreadRng, bound: usize) -> (drawn: usize)
    requires
        bound > 0,
    ensures
        drawn < bound,
{
    rand::Rng::gen_range(rng, 0..bound)
}

/// The system's randomness: numbers drawn uniformly from the thread-local
/// generator. Two runs give different numbers.
pub struct ThreadSource {
    rng: rand::rngs::ThreadRng,
}

impl ThreadSource {
    /// Takes hold of the thread-local generator.
    pub fn new() -> (source: ThreadSource) {
        ThreadSource { rng: rand::thread_rng() }
    }
}

impl RandomSource for ThreadSource {
    fn below(&mut self, bound: usize) -> (drawn: usize) {
        sample_below(&mut self.rng, bound)
    }
}

/// A fixed sequence of numbers, handed out in turn and started over when it
/// runs out. Each number is reduced modulo the bound asked for; an empty
/// sequence hands out 0.
pub struct SequenceSource {
    values: Vec<usize>,
    next: usize,
}

impl SequenceSource {
    /// The numbers of the sequence.
    pub closed spec fn values(&self) -> Seq<usize> {
        self.values@
    }

    /// The place in the sequence of the number that is handed out next.
    pub closed spec fn position(&self) -> int {
        if self.next < self.values@.len() {
            self.next as int
        } else {
            0
        }
    }

    /// The number that the source hands out for `bound`.
    pub open spec fn upcoming(&self, bound: int) -> int {
        if self.values().len() == 0 {
            0
        } else {
            (self.values()[self.position()] as int) % bound
        }
    }

    /// The place that follows the one handed out.
    pub open spec fn following(&self) -> int {
        if self.position() + 1 < self.values().len() {
            self.position() + 1
        } else {
            0
        }
    }

    /// Makes a source that hands out `values` from the first on.
    pub fn new(values: Vec<usize>) -> (source: SequenceSource)
        ensures
            source.values() == values@,
            source.position() == 0,
    {
        SequenceSource { values, next: 0 }
    }
}

impl RandomSource for SequenceSource {
    fn below(&mut self, bound: usize) -> (drawn: usize)
        ensures
            drawn == old(self).upcoming(bound as int),
            final(self).values() == old(self).values(),
            final(self).position() == old(self).following(),
    {
        let len: usize = self.values.len();
        if len == 0 {
            return 0;
        }
        let at: usize = if self.next < len {
            self.next
        } else {
            0
        };
        let drawn: usize = self.values[at] % bound;
        self.next = if at + 1 < len {
            at + 1
        } else {
            0
        };
        drawn
    }
}

/// Places `count` seeds on a grid of `width` columns and `height` rows. For
/// each seed in turn a column is drawn below `width`, then a row below
/// `height`. Two seeds may fall on the same pixel.
pub fn generate_random_seeds<R: RandomSource>(
    rng: &mut R,
    count: usize,
    width: usize,
    height: usize,
) -> (seeds: Vec<Point>)
    requires
        count > 0 ==> width > 0 && height > 0,
    ensures
        seeds@.len() == count,
        all_within(seeds@, width as int, height as int),
{
    let mut seeds: Vec<Point> = Vec::new();
    let mut k: usize = 0;
    while k < count
        invariant
            k <= count,
            count > 0 ==> width > 0 && height > 0,
            seeds@.len() == k,
            all_within(seeds@, width as int, height as int),
        decreases count - k,
    {
        let x: usize = rng.below(width);
        let y: usize = rng.below(height);
        seeds.push(Point { x, y });
        k = k + 1;
    }
    seeds
}

} // verus!
