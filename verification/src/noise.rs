//! Animations based on noise functions.

use vstd::prelude::*;

verus! {

use crate::led::hsv_rgb_convert::{Hsv8, Rgb8};
use crate::led::{Animation, LedMatrix, WriteLeds};
use crate::rgb2hsv::hsv2rgb;
use crate::rng::{rng_from_seed, rng_u8};

/// A grid of precomputed noise: one sequence of 100 random bytes per
/// cell, and a cursor over those frames.
struct PerlinNoiseLight {
    seed: Vec<Vec<Vec<u8>>>,
    frame: usize,
}

impl PerlinNoiseLight {
    fn new(width: usize, height: usize) -> (p: PerlinNoiseLight) {
        let mut rnd = rng_from_seed(1);
        let mut seed: Vec<Vec<Vec<u8>>> = Vec::new();
        let mut x: usize = 0;
        while x < width
            decreases width - x,
        {
            let mut column: Vec<Vec<u8>> = Vec::new();
            let mut y: usize = 0;
            while y < height
                decreases height - y,
            {
                let mut cell: Vec<u8> = Vec::new();
                let mut t: usize = 0;
                while t < 100
                    decreases 100 - t,
                {
                    cell.push(rng_u8(&mut rnd));
                    t = t + 1;
                }
                column.push(cell);
                y = y + 1;
            }
            seed.push(column);
            x = x + 1;
        }
        PerlinNoiseLight { seed, frame: 0 }
    }
}

/// A slow shimmer: the whole matrix follows one cell's noise sequence,
/// redrawn only every 250 ms.
pub struct PerlinAnimation(PerlinNoiseLight);

impl PerlinAnimation {
    /// Noise for a matrix of `width` by `height` pixels, precomputed
    /// from a fixed seed.
    pub fn build(width: usize, height: usize) -> PerlinAnimation {
        PerlinAnimation(PerlinNoiseLight::new(width, height))
    }
}

impl<C, B> Animation<C> for PerlinAnimation where
    C: LedMatrix<Driver = B>,
    B: WriteLeds<Color = Rgb8>,
 {
    fn init(&mut self, _matrix: &mut C) -> (rate: Option<u64>)
        ensures
            rate == Some(250u64),
            *final(self) == *old(self),
    {
        Some(250)
    }

    /// Redraw the whole matrix in one color taken from the noise
    /// sequence, and advance the sequence cursor.
    fn update(&mut self, _tick: u64, matrix: &mut C)
        ensures
            forall|i: int, j: int|
                0 <= i < final(matrix).buf_spec().len() && 0 <= j < final(matrix).buf_spec().len()
                    ==> #[trigger] final(matrix).buf_spec()[i] == #[trigger] final(matrix).buf_spec()[j],
    {
        let hue: u8 = if self.0.seed.len() > 1 {
            let column = &self.0.seed[1];
            if column.len() > 1 {
                let cell = &column[1];
                if self.0.frame < cell.len() {
                    cell[self.0.frame]
                } else {
                    127
                }
            } else {
                127
            }
        } else {
            127
        };
        let color = hsv2rgb(Hsv8 { hue, sat: 255, val: 25 });
        let area = matrix.area();
        let mut buf: Vec<Rgb8> = Vec::new();
        let mut i: usize = 0;
        while i < area
            invariant
                i <= area,
                buf@.len() == i,
                forall|j: int| 0 <= j < i ==> buf@[j] == color,
            decreases area - i,
        {
            buf.push(color);
            i = i + 1;
        }
        self.0.frame = if self.0.frame >= 99 {
            0
        } else {
            self.0.frame + 1
        };
        let ok = matrix.set_buf(buf.as_slice());
        proof {
            assert(ok);
        }
    }
}

} // verus!
