//! A deterministic xorshift random source, threaded explicitly through every
//! routine that needs entropy, so that renders are reproducible from a seed.

use vstd::prelude::*;

verus! {

/// 128-bit xorshift generator state.
#[derive(Clone, Copy, PartialEq, Eq, Structural, Debug)]
pub struct XorShift {
    pub x: u32,
    pub y: u32,
    pub z: u32,
    pub w: u32,
}

/// One xorshift step.
pub open spec fn next_spec(s: XorShift) -> XorShift {
    let t = s.x ^ (s.x << 11);
    XorShift { x: s.y, y: s.z, z: s.w, w: s.w ^ (s.w >> 19) ^ t ^ (t >> 8) }
}

/// The unit fraction in `[0, SCALE)` that one generator step yields.
pub open spec fn unit_draw(s: XorShift) -> int {
    (next_spec(s).w & 0xffff) as int
}

/// The signed unit fraction in `[-SCALE, SCALE)` that one generator step
/// yields.
pub open spec fn signed_draw(s: XorShift) -> int {
    2 * unit_draw(s) - crate::SCALE as int
}

impl XorShift {
    /// A generator from four seed words; an all-zero seed (on which xorshift
    /// would be stuck) is replaced by a fixed nonzero one.
    pub fn from_seed(x: u32, y: u32, z: u32, w: u32) -> (s: XorShift)
        ensures
            (x == 0 && y == 0 && z == 0 && w == 0) ==> s == (XorShift {
                x: 0x193a_6754,
                y: 0xa8a7_d469,
                z: 0x9783_0e05,
                w: 0x113b_a7bb,
            }),
            !(x == 0 && y == 0 && z == 0 && w == 0) ==> s == (XorShift { x, y, z, w }),
    {
        if x == 0 && y == 0 && z == 0 && w == 0 {
            XorShift { x: 0x193a_6754, y: 0xa8a7_d469, z: 0x9783_0e05, w: 0x113b_a7bb }
        } else {
            XorShift { x, y, z, w }
        }
    }

    /// The next raw 32-bit word.
    pub fn next_u32(&mut self) -> (r: u32)
        ensures
            *final(self) == next_spec(*old(self)),
            r == next_spec(*old(self)).w,
    {
        let t = self.x ^ (self.x << 11u32);
        let w = self.w ^ (self.w >> 19u32) ^ t ^ (t >> 8u32);
        self.x = self.y;
        self.y = self.z;
        self.z = self.w;
        self.w = w;
        w
    }

    /// A sample in `[0, SCALE)`: a uniform fixed-point fraction of one.
    pub fn next_unit(&mut self) -> (r: i64)
        ensures
            *final(self) == next_spec(*old(self)),
            r == unit_draw(*old(self)),
            0 <= r < crate::SCALE as int,
    {
        let w = self.next_u32();
        let masked = w & 0xffff;
        proof {
            assert(masked < 65536 && masked == w & 0xffff) by (bit_vector)
                requires
                    masked == w & 0xffff,
            ;
        }
        masked as i64
    }

    /// A sample in `[-SCALE, SCALE)`: a uniform fixed-point fraction of
    /// magnitude at most one.
    pub fn next_signed_unit(&mut self) -> (r: i64)
        ensures
            *final(self) == next_spec(*old(self)),
            r == signed_draw(*old(self)),
            -(crate::SCALE as int) <= r < crate::SCALE as int,
    {
        let u = self.next_unit();
        2 * u - crate::SCALE
    }

    /// An axis index in `{0, 1, 2}`.
    pub fn next_axis(&mut self) -> (r: u8)
        ensures
            *final(self) == next_spec(*old(self)),
            r == next_spec(*old(self)).w as int % 3,
            r < 3,
    {
        let w = self.next_u32();
        (w % 3) as u8
    }
}

} // verus!
