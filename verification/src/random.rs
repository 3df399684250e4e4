//! The random source: a seedable linear congruential generator that draws
//! whole numbers from a closed range.
//!
//! A source is either unseeded or holds a 64-bit state. Seeding replaces the
//! state; every draw moves it one step. A source that is asked to draw before
//! it was seeded first seeds itself from the clock.

use vstd::arithmetic::div_mod::{lemma_add_mod_noop, lemma_mod_bound, lemma_small_mod};
use vstd::prelude::*;

verus! {

/// The multiplier of the generator.
pub const MULTIPLIER: u64 = 6364136223846793005;

/// The increment of the generator.
pub const INCREMENT: u64 = 1442695040888963407;

/// The state that seeding with `seed` leaves.
pub open spec fn seed_state(seed: u32) -> u64 {
    seed as u64
}

/// The state that follows `state`.
pub open spec fn step(state: u64) -> u64 {
    ((state * MULTIPLIER + INCREMENT) % 0x1_0000_0000_0000_0000) as u64
}

/// The state that `draws` steps lead to from `state`.
pub open spec fn advance(state: u64, draws: nat) -> u64
    decreases draws,
{
    if draws == 0 {
        state
    } else {
        step(advance(state, (draws - 1) as nat))
    }
}

/// The number that a state shows: its upper half.
pub open spec fn output(state: u64) -> u32 {
    (state / 0x1_0000_0000) as u32
}

/// The number in `[low, high]` that a source in `state` draws: it steps once
/// and reduces what the new state shows to the width of the range.
pub open spec fn pick(state: u64, low: int, high: int) -> int
    recommends
        low <= high,
{
    low + output(step(state)) as int % (high - low + 1)
}

/// Whether `start` can be the state from which a source that was in `before`
/// makes its next draw: the state it holds or, for an unseeded source, the
/// state of any seed.
pub open spec fn starts_at(before: Option<u64>, start: u64) -> bool {
    match before {
        Some(state) => start == state,
        None => exists|seed: u32| start == #[trigger] seed_state(seed),
    }
}

/// What `init` may do: a given seed fixes the state; without one the state
/// is that of some seed.
pub open spec fn seeded(seed: Option<u32>, after: Option<u64>) -> bool {
    match seed {
        Some(seed) => after == Some(seed_state(seed)),
        None => after is Some && starts_at(None, after->0),
    }
}

/// What one draw from `[low, high]` may do to a source that was in `before`.
pub open spec fn drew(before: Option<u64>, low: int, high: int, value: int, after: Option<u64>) -> bool {
    exists|start: u64|
        #[trigger] starts_at(before, start) && value == pick(start, low, high) && after == Some(
            step(start),
        )
}

/// The seed that a clock reading gives: the seconds since the epoch modulo
/// 2^32, and 0 where the clock stood before the epoch.
pub open spec fn clock_seed(seconds: Option<u64>) -> u32 {
    match seconds {
        Some(seconds) => (seconds % 0x1_0000_0000) as u32,
        None => 0,
    }
}

/// A draw lies in the range it was asked for.
pub proof fn lemma_pick_in_range(state: u64, low: int, high: int)
    requires
        low <= high,
    ensures
        low <= pick(state, low, high) <= high,
{
    lemma_mod_bound(output(step(state)) as int, high - low + 1);
}

/// Reads the system clock through `std::time::SystemTime::elapsed`, called on
/// `UNIX_EPOCH`: the whole seconds that have passed since the epoch, or `None`
/// where the clock stands before it. Nothing is claimed of the reading.
#[verifier::external_body]
fn seconds_since_epoch() -> Option<u64> {
    match std::time::UNIX_EPOCH.elapsed() {
        Ok(elapsed) => Some(elapsed.as_secs()),
        Err(_) => None,
    }
}

/// Turns a clock reading into a seed.
pub fn seed_from_clock(seconds: Option<u64>) -> (seed: u32)
    ensures
        seed == clock_seed(seconds),
{
    match seconds {
        Some(seconds) => (seconds % 0x1_0000_0000) as u32,
        None => 0,
    }
}

/// A seedable source of random numbers.
#[derive(Debug, Clone)]
pub struct RandomSource {
    state: Option<u64>,
}

impl View for RandomSource {
    type V = Option<u64>;

    closed spec fn view(&self) -> Option<u64> {
        self.state
    }
}

impl RandomSource {
    /// A source that has not been seeded yet.
    pub fn new() -> (source: RandomSource)
        ensures
            source@ is None,
    {
        RandomSource { state: None }
    }

    /// The state of the source, or `None` where it has not been seeded.
    pub fn state(&self) -> (state: Option<u64>)
        ensures
            state == self@,
    {
        self.state
    }

    /// Seeds the source anew: with `seed` where one is given, from the clock
    /// otherwise. Nothing of the earlier state remains.
    pub fn init(&mut self, seed: Option<u32>)
        ensures
            seeded(seed, final(self)@),
    {
        let seed: u32 = match seed {
            Some(seed) => seed,
            None => seed_from_clock(seconds_since_epoch()),
        };
        self.state = Some(seed as u64);
        assert(starts_at(None, seed_state(seed)));
    }

    /// Seeds the source from the clock if it has not been seeded.
    pub fn ensure_seeded(&mut self)
        ensures
            final(self)@ is Some,
            starts_at(old(self)@, final(self)@->0),
    {
        if self.state.is_none() {
            self.init(None);
        }
    }

    /// Draws a number from `[low, high]` and moves the state one step. An
    /// unseeded source seeds itself from the clock first.
    pub fn next_in_range(&mut self, low: i32, high: i32) -> (value: i32)
        requires
            low <= high,
        ensures
            drew(old(self)@, low as int, high as int, value as int, final(self)@),
            low <= value <= high,
    {
        self.ensure_seeded();
        let start = self.state.unwrap();
        let next = next_state(start);
        let width: u64 = (high as i64 - low as i64 + 1) as u64;
        let offset: u64 = (next / 0x1_0000_0000) % width;
        self.state = Some(next);
        proof {
            lemma_pick_in_range(start, low as int, high as int);
        }
        (low as i64 + offset as i64) as i32
    }
}

/// Computes the state that follows `state`.
fn next_state(state: u64) -> (next: u64)
    ensures
        next == step(state),
{
    let scaled = state.wrapping_mul(MULTIPLIER);
    let next = scaled.wrapping_add(INCREMENT);
    proof {
        let product = state as int * MULTIPLIER as int;
        lemma_add_mod_noop(product, INCREMENT as int, 0x1_0000_0000_0000_0000);
        lemma_small_mod(INCREMENT as nat, 0x1_0000_0000_0000_0000);
        lemma_mod_bound(product, 0x1_0000_0000_0000_0000);
        assert(scaled == product % 0x1_0000_0000_0000_0000);
        assert(next == (scaled + INCREMENT) % 0x1_0000_0000_0000_0000);
    }
    next
}

} // verus!
