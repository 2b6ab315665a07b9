//! The run's single pseudo-random number resource. Every piece of
//! generation randomness (room placement, spawn rolls) flows through one
//! instance of this generator, so a test can seed it and replay a layout.
//!
//! Each draw is an exact, contract-stated function of the generator
//! state, so a seeded run is reproducible down to the contracts; the
//! range of every draw is stated as well.

use vstd::prelude::*;

verus! {

/// A small xorshift generator. Quality is irrelevant to correctness:
/// nothing downstream may depend on which value comes out, but every
/// draw is an exact function of the state, so a seed fixes the run.
pub struct Rng {
    pub state: u64,
}

/// One xorshift step of the generator state.
pub open spec fn next_state(s: u64) -> u64 {
    let a = s ^ (s << 13);
    let b = a ^ (a >> 7);
    b ^ (b << 17)
}

/// The sum accumulated by rolling `k` more dice of `die` sides from
/// state `s`, starting at `acc`, together with the state afterwards.
pub open spec fn roll_acc(s: u64, k: int, die: int, acc: int) -> (int, u64)
    decreases k,
{
    if k <= 0 {
        (acc, s)
    } else {
        let s1 = next_state(s);
        roll_acc(s1, k - 1, die, acc + 1 + ((s1 % (die as u64)) as int))
    }
}

/// The total of `roll(n, die)` drawn from state `s`.
pub open spec fn roll_of(s: u64, n: int, die: int) -> int {
    roll_acc(s, n, die, 0).0
}

/// The generator state after `roll(n, die)` drawn from state `s`.
pub open spec fn state_after_roll(s: u64, n: int, die: int) -> u64 {
    roll_acc(s, n, die, 0).1
}

impl Rng {
    /// A generator from a caller-chosen seed; equal seeds replay the
    /// same sequence of draws.
    pub fn seeded(seed: u64) -> (r: Rng) {
        if seed == 0 {
            Rng { state: 0x9E3779B97F4A7C15 }
        } else {
            Rng { state: seed }
        }
    }

    /// A generator with a fixed default seed.
    pub fn new() -> (r: Rng) {
        Rng::seeded(0)
    }

    /// The next raw draw: the new state itself.
    fn next_u64(&mut self) -> (r: u64)
        ensures
            r == next_state(old(self).state),
            final(self).state == next_state(old(self).state),
    {
        let mut x = self.state;
        x = x ^ (x << 13);
        x = x ^ (x >> 7);
        x = x ^ (x << 17);
        self.state = x;
        x
    }

    /// Roll `n` dice of `die` sides each and sum them, as `roll(n, die)`:
    /// an exact function of the generator state.
    pub fn roll_dice(&mut self, n: i32, die: i32) -> (r: i32)
        requires
            1 <= n <= 1000,
            1 <= die <= 100_000,
        ensures
            n <= r <= n * die,
            r == roll_of(old(self).state, n as int, die as int),
            final(self).state == state_after_roll(old(self).state, n as int, die as int),
    {
        let mut total: i32 = 0;
        let mut i: i32 = 0;
        while i < n
            invariant
                0 <= i <= n,
                n <= 1000,
                1 <= die <= 100_000,
                i <= total <= i * die,
                roll_acc(old(self).state, n as int, die as int, 0) == roll_acc(
                    self.state,
                    n as int - i,
                    die as int,
                    total as int,
                ),
            decreases n - i,
        {
            let raw = self.next_u64() % (die as u64);
            let face: i32 = 1 + (raw as i32);
            assert(1 <= face <= die);
            assert(total + face <= (i + 1) * die && (i + 1) * die <= 100_100_000)
                by (nonlinear_arith)
                requires
                    total <= i * die,
                    face <= die,
                    0 <= i < n <= 1000,
                    1 <= die <= 100_000,
            ;
            total = total + face;
            i = i + 1;
        }
        total
    }

    /// A draw from `lo..hi` (inclusive of `lo`, exclusive of `hi`).
    pub fn range(&mut self, lo: i32, hi: i32) -> (r: i32)
        requires
            lo < hi,
        ensures
            lo <= r < hi,
    {
        let span: i64 = (hi as i64) - (lo as i64);
        assert(1 <= span <= 0xFFFF_FFFFi64);
        let raw: u64 = self.next_u64() % (span as u64);
        assert(raw < span as u64);
        let res: i64 = (lo as i64) + (raw as i64);
        assert(lo <= res < hi);
        res as i32
    }
}

} // verus!
