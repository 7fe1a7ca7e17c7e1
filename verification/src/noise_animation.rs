//! A noise-flavored flicker: each pixel has a 30% chance of a random
//! color on each frame, at a frame rate drawn once from the seed.

use vstd::prelude::*;

verus! {

use crate::led::hsv_rgb_convert::Rgb8;
use crate::led::{Animation, LedMatrix, WriteLeds};
use crate::rng::{rng_below, rng_from_seed, rng_u8};

/// Random flicker over the whole matrix, deterministic in its seed.
pub struct PerlinAnimation(rand::rngs::SmallRng);

impl PerlinAnimation {
    pub fn build(seed: u64) -> PerlinAnimation {
        PerlinAnimation(rng_from_seed(seed))
    }
}

impl<C, B> Animation<C> for PerlinAnimation where
    C: LedMatrix<Driver = B>,
    B: WriteLeds<Color = Rgb8>,
 {
    fn init(&mut self, _matrix: &mut C) -> (rate: Option<u64>)
        ensures
            rate matches Some(pace) && 100 <= pace < 1000,
    {
        let pace = 100 + rng_below(&mut self.0, 900);
        Some(pace)
    }

    fn update(&mut self, _tick: u64, matrix: &mut C) {
        let area = matrix.area();
        let mut buf: Vec<Rgb8> = Vec::new();
        let mut i: usize = 0;
        while i < area
            invariant
                i <= area,
                buf@.len() == i,
            decreases area - i,
        {
            let lit = rng_below(&mut self.0, 10) < 3;
            if lit {
                let r = rng_u8(&mut self.0);
                let g = rng_u8(&mut self.0);
                let b = rng_u8(&mut self.0);
                buf.push(Rgb8 { r, g, b });
            } else {
                buf.push(Rgb8 { r: 0, g: 0, b: 0 });
            }
            i = i + 1;
        }
        let _ = matrix.set_buf(buf.as_slice());
    }
}

} // verus!
