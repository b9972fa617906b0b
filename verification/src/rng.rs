//! A small xorshift generator of pseudo-random numbers.

use vstd::prelude::*;

verus! {

/// The state of a 128-bit xorshift generator. One generator belongs to one
/// worker; equal seeds give equal streams.
#[derive(Clone, Copy, Debug, PartialEq, Eq)]
pub struct XorShiftRng {
    pub x: u32,
    pub y: u32,
    pub z: u32,
    pub w: u32,
}

impl XorShiftRng {
    /// The state after one step. The word that the step gives is its `w`.
    pub open spec fn step(self) -> XorShiftRng {
        let t = self.x ^ (self.x << 11);
        XorShiftRng {
            x: self.y,
            y: self.z,
            z: self.w,
            w: self.w ^ (self.w >> 19) ^ (t ^ (t >> 8)),
        }
    }

    /// The state after `steps` steps.
    pub open spec fn after(self, steps: nat) -> XorShiftRng
        decreases steps,
    {
        if steps == 0 {
            self
        } else {
            self.step().after((steps - 1) as nat)
        }
    }

    /// The `k`th 64-bit word of the stream, counted from 0.
    pub open spec fn draw(self, k: nat) -> u64 {
        self.after(2 * k).word64()
    }

    /// One step more at the end is one step more.
    pub proof fn lemma_after_step(self, steps: nat)
        ensures
            self.after(steps).step() == self.after(steps + 1),
        decreases steps,
    {
        if steps > 0 {
            self.step().lemma_after_step((steps - 1) as nat);
            assert(self.after(steps + 1) == self.step().after(steps));
        } else {
            assert(self.step().after(0) == self.step());
        }
    }

    /// The 64-bit word that the next two steps give, the first step's word on top.
    pub open spec fn word64(self) -> u64 {
        ((self.step().w as u64) << 32) | (self.step().step().w as u64)
    }

    /// The generator whose state is the four given words.
    pub fn new_seeded(x: u32, y: u32, z: u32, w: u32) -> (rng: XorShiftRng)
        ensures
            rng == (XorShiftRng { x, y, z, w }),
    {
        XorShiftRng { x, y, z, w }
    }

    /// The state that `seed` stands for: its low and high halves and two fixed words.
    pub open spec fn seeded(seed: u64) -> XorShiftRng {
        XorShiftRng {
            x: (seed & 0xffff_ffff) as u32,
            y: (seed >> 32) as u32,
            z: 0x97830e05,
            w: 0x113ba7bb,
        }
    }

    /// The generator that `seed` stands for.
    pub fn from_seed(seed: u64) -> (rng: XorShiftRng)
        ensures
            rng == XorShiftRng::seeded(seed),
    {
        assert(seed & 0xffff_ffff <= 0xffff_ffff) by (bit_vector);
        assert(seed >> 32 <= 0xffff_ffff) by (bit_vector);
        XorShiftRng {
            x: (seed & 0xffff_ffff) as u32,
            y: (seed >> 32) as u32,
            z: 0x97830e05,
            w: 0x113ba7bb,
        }
    }

    /// The next 32-bit word.
    pub fn next_u32(&mut self) -> (r: u32)
        ensures
            *final(self) == old(self).step(),
            r == final(self).w,
    {
        let x = self.x;
        let t = x ^ (x << 11);
        self.x = self.y;
        self.y = self.z;
        self.z = self.w;
        let w = self.w;
        self.w = w ^ (w >> 19) ^ (t ^ (t >> 8));
        self.w
    }

    /// The next 64-bit word.
    pub fn next_u64(&mut self) -> (r: u64)
        ensures
            *final(self) == old(self).step().step(),
            r == old(self).word64(),
    {
        let hi = self.next_u32();
        let lo = self.next_u32();
        ((hi as u64) << 32) | (lo as u64)
    }

    /// A number from `low` up to, not including, `high`: `low` and the next
    /// 64-bit word modulo the width of the range.
    pub fn gen_range(&mut self, low: usize, high: usize) -> (r: usize)
        requires
            low < high,
        ensures
            *final(self) == old(self).step().step(),
            r == low + old(self).word64() % ((high - low) as u64),
            low <= r < high,
    {
        let width = (high - low) as u64;
        let offset = self.next_u64() % width;
        low + (offset as usize)
    }

    /// `n` 64-bit words, one after the other.
    pub fn gen_words(&mut self, n: usize) -> (words: Vec<u64>)
        ensures
            *final(self) == old(self).after(2 * n as nat),
            words@.len() == n,
            forall|k: int| 0 <= k < n ==> words@[k] == old(self).draw(k as nat),
    {
        let mut words: Vec<u64> = Vec::new();
        let mut i: usize = 0;
        while i < n
            invariant
                0 <= i <= n,
                *self == old(self).after(2 * i as nat),
                words@.len() == i,
                forall|k: int| 0 <= k < i ==> words@[k] == old(self).draw(k as nat),
            decreases n - i,
        {
            proof {
                old(self).lemma_after_step(2 * i as nat);
                old(self).lemma_after_step(2 * i as nat + 1);
            }
            let word = self.next_u64();
            words.push(word);
            i = i + 1;
        }
        words
    }

    /// A coin: the lowest bit of the next 32-bit word.
    pub fn gen_bool(&mut self) -> (b: bool)
        ensures
            *final(self) == old(self).step(),
            b == (final(self).w & 1 == 1),
    {
        self.next_u32() & 1 == 1
    }
}

} // verus!
