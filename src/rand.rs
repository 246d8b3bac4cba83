use vstd::prelude::*;

verus! {

/// A xorshift generator with a 64-bit state, meant for fuzzing only.
pub struct FastRng(pub u64);

/// One xorshift step on the state.
pub open spec fn xorshift_step(s: u64) -> u64 {
    let a = s ^ (s << 13u64);
    let b = a ^ (a >> 7u64);
    b ^ (b << 17u64)
}

impl FastRng {
    /// Advances the state by one xorshift step and returns the new state.
    pub fn rand_u64(&mut self) -> (r: u64)
        ensures
            r == xorshift_step(old(self).0),
            final(self).0 == r,
    {
        self.0 = self.0 ^ (self.0 << 13u64);
        self.0 = self.0 ^ (self.0 >> 7u64);
        self.0 = self.0 ^ (self.0 << 17u64);
        self.0
    }

    /// True when the next value is even.
    pub fn rand_bool(&mut self) -> (r: bool)
        ensures
            final(self).0 == xorshift_step(old(self).0),
            r == (final(self).0 % 2 == 0),
    {
        self.rand_u64() % 2 == 0
    }

    /// A value in `min..max` from the low 16 bits of the next value.
    pub fn rand_range_u16(&mut self, min: u16, max: u16) -> (r: u16)
        requires
            min < max,
        ensures
            final(self).0 == xorshift_step(old(self).0),
            r == (final(self).0 as u16) as int % (max - min) as int + min,
            min <= r < max,
    {
        let val = self.rand_u64() as u16;
        (val % (max - min)) + min
    }

    /// A value in `min..max` from the low 8 bits of the next value.
    pub fn rand_range_u8(&mut self, min: u8, max: u8) -> (r: u8)
        requires
            min < max,
        ensures
            final(self).0 == xorshift_step(old(self).0),
            r == (final(self).0 as u8) as int % (max - min) as int + min,
            min <= r < max,
    {
        let val = self.rand_u64() as u8;
        (val % (max - min)) + min
    }
}

} // verus!
