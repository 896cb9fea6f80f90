//! The source of the ghosts' luck: the thread's generator for play, a
//! script for sessions that must come out the same each time.

use rand::rngs::ThreadRng;
use rand::Rng;
use vstd::prelude::*;

verus! {

/// Where the ghosts get their luck. A session draws from it twice: to decide
/// whether a ghost chases, and to pick one of several directions.
pub trait RandomSource {
    /// Decides a check that is meant to succeed `percent` times in a hundred.
    /// At 0 it never succeeds, at 100 it always does.
    fn chance(&mut self, percent: u8) -> (hit: bool)
        requires
            percent <= 100,
        ensures
            percent == 0 ==> !hit,
            percent == 100 ==> hit,
    ;

    /// Picks an index below `bound`.
    fn index(&mut self, bound: usize) -> (i: usize)
        requires
            bound > 0,
        ensures
            i < bound,
    ;
}

/// `rand::rngs::ThreadRng`, the handle to the thread's generator. Nothing is
/// known of what it holds.
#[verifier::external_type_specification]
#[verifier::external_body]
pub struct ExThreadRng(ThreadRng);

/// `rand::rng` hands out the handle to the thread's generator. Nothing is
/// claimed of it. It takes no argument, so there is none to rule out; the
/// crate lets it panic where the system has no randomness to seed the
/// generator with.
pub assume_specification[ rand::rng ]() -> (r: ThreadRng)
;

/// `Rng::random_ratio`: true with probability `numerator / denominator`. The
/// crate documents that equal arguments always give true and a zero
/// numerator always gives false, and that it panics on a zero denominator or
/// a numerator above the denominator, which the precondition leaves out.
#[verifier::external_body]
fn draw_ratio(rng: &mut ThreadRng, numerator: u32, denominator: u32) -> (hit: bool)
    requires
        denominator > 0,
        numerator <= denominator,
    ensures
        numerator == 0 ==> !hit,
        numerator == denominator ==> hit,
{
    rng.random_ratio(numerator, denominator)
}

/// `Rng::random_range` on `0..bound`: a value of that range. The crate
/// panics on an empty range, which the precondition leaves out.
#[verifier::external_body]
fn draw_below(rng: &mut ThreadRng, bound: usize) -> (i: usize)
    requires
        bound > 0,
    ensures
        i < bound,
{
    rng.random_range(0..bound)
}

/// The random source of an ordinary session: the thread's generator.
pub struct ThreadRandom {
    rng: ThreadRng,
}

impl ThreadRandom {
    /// A source that draws from the generator of the thread that calls.
    pub fn new() -> (source: Self) {
        ThreadRandom { rng: rand::rng() }
    }
}

impl RandomSource for ThreadRandom {
    fn chance(&mut self, percent: u8) -> (hit: bool) {
        draw_ratio(&mut self.rng, percent as u32, 100)
    }

    fn index(&mut self, bound: usize) -> (i: usize) {
        draw_below(&mut self.rng, bound)
    }
}

/// A random source that plays back what it was given, for sessions that
/// must come out the same each time.
///
/// `rolls` answers the checks: a check at `percent` succeeds where the roll,
/// taken below a hundred, is below `percent`. `picks` answers the choices: a
/// pick is taken below the bound. Once a list is used up it goes on with
/// zeros.
pub struct Scripted {
    rolls: Vec<u8>,
    picks: Vec<usize>,
    rolls_used: usize,
    picks_used: usize,
}

impl Scripted {
    /// The rolls not yet played back.
    pub closed spec fn rolls_left(&self) -> Seq<u8> {
        if self.rolls_used <= self.rolls@.len() {
            self.rolls@.skip(self.rolls_used as int)
        } else {
            Seq::empty()
        }
    }

    /// The picks not yet played back.
    pub closed spec fn picks_left(&self) -> Seq<usize> {
        if self.picks_used <= self.picks@.len() {
            self.picks@.skip(self.picks_used as int)
        } else {
            Seq::empty()
        }
    }

    /// The roll that the next check gets.
    pub open spec fn next_roll(&self) -> int {
        if self.rolls_left().len() > 0 {
            self.rolls_left()[0] as int % 100
        } else {
            0
        }
    }

    /// The pick that the next choice below `bound` gets.
    pub open spec fn next_pick(&self, bound: usize) -> int {
        if self.picks_left().len() > 0 {
            self.picks_left()[0] as int % bound as int
        } else {
            0
        }
    }

    /// A source that plays back `rolls` and `picks` from their beginnings.
    pub fn new(rolls: Vec<u8>, picks: Vec<usize>) -> (source: Self)
        ensures
            source.rolls_left() == rolls@,
            source.picks_left() == picks@,
    {
        Scripted { rolls, picks, rolls_used: 0, picks_used: 0 }
    }
}

impl RandomSource for Scripted {
    fn chance(&mut self, percent: u8) -> (hit: bool)
        ensures
            hit == (old(self).next_roll() < percent),
            final(self).rolls_left() == if old(self).rolls_left().len() > 0 {
                old(self).rolls_left().skip(1)
            } else {
                old(self).rolls_left()
            },
            final(self).picks_left() == old(self).picks_left(),
    {
        if self.rolls_used < self.rolls.len() {
            let roll = self.rolls[self.rolls_used] % 100;
            assert(old(self).rolls_left()[0] == self.rolls@[self.rolls_used as int]);
            self.rolls_used += 1;
            assert(self.rolls_left() =~= old(self).rolls_left().skip(1));
            roll < percent
        } else {
            0 < percent
        }
    }

    fn index(&mut self, bound: usize) -> (i: usize)
        ensures
            i == old(self).next_pick(bound),
            final(self).picks_left() == if old(self).picks_left().len() > 0 {
                old(self).picks_left().skip(1)
            } else {
                old(self).picks_left()
            },
            final(self).rolls_left() == old(self).rolls_left(),
    {
        if self.picks_used < self.picks.len() {
            let pick = self.picks[self.picks_used] % bound;
            assert(old(self).picks_left()[0] == self.picks@[self.picks_used as int]);
            self.picks_used += 1;
            assert(self.picks_left() =~= old(self).picks_left().skip(1));
            pick
        } else {
            0
        }
    }
}


} // verus!
