//! Random numbers: a small seedable xorshift generator, and draws from the
//! process-wide generator of the rendering toolkit.
use vstd::prelude::*;

verus! {

/// Seed used in place of zero, which is a fixed point of xorshift.
pub const DEFAULT_SEED: u64 = 0x853c49e6748fea9b;

/// One xorshift64 step (shifts 13, 7, 17).
pub open spec fn xorshift(x: u64) -> u64 {
    let a = x ^ (x << 13u64);
    let b = a ^ (a >> 7u64);
    b ^ (b << 17u64)
}

/// A deterministic xorshift64 generator.
pub struct SimpleRandom {
    state: u64,
}

impl SimpleRandom {
    pub closed spec fn state(&self) -> u64 {
        self.state
    }

    /// A generator seeded with `seed`; zero is replaced by [`DEFAULT_SEED`].
    pub fn new(seed: u64) -> (r: Self)
        ensures
            r.state() == if seed == 0 { DEFAULT_SEED } else { seed },
    {
        let seed = if seed == 0 { DEFAULT_SEED } else { seed };
        SimpleRandom { state: seed }
    }

    /// Advances the generator and returns the new state.
    pub fn next_u64(&mut self) -> (r: u64)
        ensures
            r == xorshift(old(self).state()),
            final(self).state() == r,
    {
        let mut x = self.state;
        x = x ^ (x << 13u64);
        x = x ^ (x >> 7u64);
        x = x ^ (x << 17u64);
        self.state = x;
        x
    }

    /// A value in `[min, max)`, or `min` when the range is empty.
    pub fn gen_range(&mut self, min: i32, max: i32) -> (r: i32)
        ensures
            max <= min ==> r == min && final(self).state() == old(self).state(),
            min < max ==> {
                &&& final(self).state() == xorshift(old(self).state())
                &&& r == min + (final(self).state() as int) % (max - min)
            },
    {
        if max <= min {
            return min;
        }
        let span: u64 = (max as i64 - min as i64) as u64;
        let x = self.next_u64();
        let off: u64 = x % span;
        (min as i64 + off as i64) as i32
    }

    /// A uniformly drawn element of `slice`, or `None` when it is empty.
    pub fn pick<'a, T>(&mut self, slice: &'a [T]) -> (r: Option<&'a T>)
        ensures
            slice@.len() == 0 ==> r.is_none() && final(self).state() == old(self).state(),
            slice@.len() > 0 ==> {
                &&& final(self).state() == xorshift(old(self).state())
                &&& r == Some(&slice@[(final(self).state() as int) % (slice@.len() as int)])
            },
    {
        if slice.len() == 0 {
            return None;
        }
        let x = self.next_u64();
        let i: usize = (x % (slice.len() as u64)) as usize;
        Some(&slice[i])
    }
}

} // verus!

verus! {

/// Relies on `macroquad::rand::gen_range` (quad-rand's process-wide generator):
/// with `low = 0 < high` it scales a 32-bit draw from `[0, 1)` onto `[0, high)`,
/// so the result is below `high`.
#[verifier::external_body]
pub(crate) fn random_below(high: u32) -> (r: u32)
    requires
        high > 0,
    ensures
        r < high,
{
    macroquad::rand::gen_range(0u32, high)
}

} // verus!
