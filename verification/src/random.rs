//! Animations that draw pixels randomly.

use vstd::prelude::*;

verus! {

use crate::led::hsv_rgb_convert::Rgb8;
use crate::led::{Animation, LedMatrix, WriteLeds};
use crate::rng::{rng_below, rng_from_seed, rng_u8};

/// Each pixel has a probability of 30% of getting colored randomly on
/// each frame.  The frame rate is chosen at random between 100 ms and
/// 1 s.
pub struct P30(rand::rngs::SmallRng);

impl P30 {
    /// The flicker animation, deterministic in its seed.
    pub fn build(seed: u64) -> P30 {
        P30(rng_from_seed(seed))
    }
}

impl<C, B> Animation<C> for P30 where C: LedMatrix<Driver = B>, B: WriteLeds<Color = Rgb8> {
    fn init(&mut self, _matrix: &mut C) -> (rate: Option<u64>)
        ensures
            rate matches Some(pace) && 100 <= pace < 1000,
    {
        let pace = 100 + rng_below(&mut self.0, 900);
        Some(pace)
    }

    fn update(&mut self, _tick: u64, matrix: &mut C) {
        let area = matrix.area();
        let mut buf: Vec<Rgb8> = Vec::new();
        let mut i: usize = 0;
        while i < area
            invariant
                i <= area,
                buf@.len() == i,
            decreases area - i,
        {
            let lit = rng_below(&mut self.0, 10) < 3;
            if lit {
                let r = rng_u8(&mut self.0);
                let g = rng_u8(&mut self.0);
                let b = rng_u8(&mut self.0);
                buf.push(Rgb8 { r, g, b });
            } else {
                buf.push(Rgb8 { r: 0, g: 0, b: 0 });
            }
            i = i + 1;
        }
        let _ = matrix.set_buf(buf.as_slice());
    }
}

/// Each pixel has a 50% chance of being off or on at each frame; lit
/// pixels all share one color drawn once from the seed.
pub struct Flip {
    color: Rgb8,
    rng: rand::rngs::SmallRng,
}

impl Flip {
    /// The color of the lit pixels.
    pub closed spec fn color_spec(&self) -> Rgb8 {
        self.color
    }

    /// The coin-flip animation, deterministic in its seed.
    pub fn build(seed: u64) -> Flip {
        let mut rng = rng_from_seed(seed);
        let r = rng_u8(&mut rng);
        let g = rng_u8(&mut rng);
        let b = rng_u8(&mut rng);
        Flip { color: Rgb8 { r, g, b }, rng }
    }
}

impl<C, B> Animation<C> for Flip where C: LedMatrix<Driver = B>, B: WriteLeds<Color = Rgb8> {
    fn init(&mut self, _matrix: &mut C) -> (rate: Option<u64>)
        ensures
            rate == Some(1000u64),
            *final(self) == *old(self),
    {
        Some(1000)
    }

    fn update(&mut self, _tick: u64, matrix: &mut C)
        ensures
            final(self).color_spec() == old(self).color_spec(),
            forall|i: int|
                0 <= i < final(matrix).buf_spec().len() ==> (#[trigger] final(matrix).buf_spec()[i]
                    == old(self).color_spec() || final(matrix).buf_spec()[i] == (Rgb8 {
                    r: 0,
                    g: 0,
                    b: 0,
                })),
    {
        let area = matrix.area();
        let mut buf: Vec<Rgb8> = Vec::new();
        let mut i: usize = 0;
        while i < area
            invariant
                i <= area,
                buf@.len() == i,
                self.color == old(self).color,
                forall|j: int|
                    0 <= j < i ==> (#[trigger] buf@[j] == self.color_spec() || buf@[j] == (Rgb8 {
                        r: 0,
                        g: 0,
                        b: 0,
                    })),
            decreases area - i,
        {
            let lit = rng_below(&mut self.rng, 2) == 0;
            if lit {
                buf.push(self.color);
            } else {
                buf.push(Rgb8 { r: 0, g: 0, b: 0 });
            }
            i = i + 1;
        }
        let ok = matrix.set_buf(buf.as_slice());
        proof {
            if !ok {
                matrix.lemma_wf();
            }
        }
    }
}

} // verus!
