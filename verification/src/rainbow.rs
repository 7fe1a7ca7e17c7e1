//! Rainbow animations (classic HSV).

use vstd::prelude::*;

verus! {

use crate::led::hsv_rgb_convert::{hsv_to_rgb_spec, Hsv8, Rgb8};
use crate::led::{Animation, LedMatrix, WriteLeds};
use crate::rgb2hsv::hsv2rgb;

/// The hue of pixel `i` of the sliding band at base hue `hue`: the
/// pixel's index scales the step, both wrapping at 256 as the hue does.
pub open spec fn slide_hue(hue: u8, step: u8, i: int) -> u8 {
    vstd::wrapping::u8_specs::wrapping_add(
        hue,
        vstd::wrapping::u8_specs::wrapping_mul((i % 256) as u8, step),
    )
}

/// Shared state of the rainbow animations: the current hue, how far the
/// hue moves each frame, and an optional pace of their own.
pub struct Inner {
    fading_speed: Option<u64>,
    hue: u8,
    step_size: u8,
}

impl Inner {
    /// The current hue.
    pub closed spec fn hue_spec(&self) -> u8 {
        self.hue
    }

    /// The hue step per frame.
    pub closed spec fn step_spec(&self) -> u8 {
        self.step_size
    }

    /// The animation's own tick interval, if any.
    pub closed spec fn speed_spec(&self) -> Option<u64> {
        self.fading_speed
    }

    /// Fresh state: the hue starts at 0.
    pub fn new(step_size: u8, fading_speed: Option<u64>) -> (s: Self)
        ensures
            s.hue_spec() == 0,
            s.step_spec() == step_size,
            s.speed_spec() == fading_speed,
    {
        Self { fading_speed, hue: 0, step_size }
    }
}

/// Fill the entire screen with a fading rainbow.
pub struct Fade(Inner);

impl Fade {
    /// The shared rainbow state.
    pub closed spec fn inner_spec(&self) -> Inner {
        self.0
    }

    /// A fading rainbow stepping the hue by `step_size` per frame, at
    /// its own `fading_speed` if one is given.
    pub fn build(step_size: u8, fading_speed: Option<u64>) -> (a: Fade)
        ensures
            a.inner_spec().hue_spec() == 0,
            a.inner_spec().step_spec() == step_size,
            a.inner_spec().speed_spec() == fading_speed,
    {
        Fade(Inner::new(step_size, fading_speed))
    }
}

impl<C, B> Animation<C> for Fade where C: LedMatrix<Driver = B>, B: WriteLeds<Color = Rgb8> {
    fn init(&mut self, _matrix: &mut C) -> (rate: Option<u64>)
        ensures
            rate == old(self).inner_spec().speed_spec(),
            *final(self) == *old(self),
    {
        self.0.fading_speed
    }

    /// Advance the hue one step (overflow is what we want here) and
    /// fill the whole screen with that hue's color.
    fn update(&mut self, _tick: u64, matrix: &mut C)
        ensures
            final(self).inner_spec().hue_spec() == vstd::wrapping::u8_specs::wrapping_add(
                old(self).inner_spec().hue_spec(),
                old(self).inner_spec().step_spec(),
            ),
            final(self).inner_spec().step_spec() == old(self).inner_spec().step_spec(),
            final(self).inner_spec().speed_spec() == old(self).inner_spec().speed_spec(),
            forall|i: int|
                0 <= i < final(matrix).buf_spec().len() ==> crate::led_matrix::channels(
                    #[trigger] final(matrix).buf_spec()[i],
                ) == hsv_to_rgb_spec(final(self).inner_spec().hue_spec() as int, 255, 255),
    {
        self.0.hue = self.0.hue.wrapping_add(self.0.step_size);
        let color = hsv2rgb(Hsv8 { hue: self.0.hue, sat: 255, val: 255 });
        let area = matrix.area();
        let mut buf: Vec<Rgb8> = Vec::new();
        let mut i: usize = 0;
        while i < area
            invariant
                i <= area,
                buf@.len() == i,
                forall|j: int| 0 <= j < i ==> buf@[j] == color,
            decreases area - i,
        {
            buf.push(color);
            i = i + 1;
        }
        let ok = matrix.set_buf(buf.as_slice());
        proof {
            assert(ok);
        }
    }
}

/// Fill the entire screen with a sliding rainbow.
pub struct Slide(Inner);

impl Slide {
    /// The shared rainbow state.
    pub closed spec fn inner_spec(&self) -> Inner {
        self.0
    }

    /// A sliding rainbow: neighbouring pixels sit `step_size` hue units
    /// apart and the whole band moves by `step_size` per frame.
    pub fn build(step_size: u8, fading_speed: Option<u64>) -> (a: Slide)
        ensures
            a.inner_spec().hue_spec() == 0,
            a.inner_spec().step_spec() == step_size,
            a.inner_spec().speed_spec() == fading_speed,
    {
        Slide(Inner::new(step_size, fading_speed))
    }
}

impl<C, B> Animation<C> for Slide where C: LedMatrix<Driver = B>, B: WriteLeds<Color = Rgb8> {
    fn init(&mut self, _matrix: &mut C) -> (rate: Option<u64>)
        ensures
            rate == old(self).inner_spec().speed_spec(),
            *final(self) == *old(self),
    {
        self.0.fading_speed
    }

    /// Advance the band one step and fill the screen with the band:
    /// pixel `i` sits `i * step_size` hue units further along.
    fn update(&mut self, _tick: u64, matrix: &mut C)
        ensures
            final(self).inner_spec().hue_spec() == vstd::wrapping::u8_specs::wrapping_add(
                old(self).inner_spec().hue_spec(),
                old(self).inner_spec().step_spec(),
            ),
            final(self).inner_spec().step_spec() == old(self).inner_spec().step_spec(),
            final(self).inner_spec().speed_spec() == old(self).inner_spec().speed_spec(),
            forall|i: int|
                0 <= i < final(matrix).buf_spec().len() ==> crate::led_matrix::channels(
                    #[trigger] final(matrix).buf_spec()[i],
                ) == hsv_to_rgb_spec(
                    slide_hue(
                        final(self).inner_spec().hue_spec(),
                        final(self).inner_spec().step_spec(),
                        i,
                    ) as int,
                    255,
                    255,
                ),
    {
        self.0.hue = self.0.hue.wrapping_add(self.0.step_size);
        let area = matrix.area();
        let mut buf: Vec<Rgb8> = Vec::new();
        let mut i: usize = 0;
        while i < area
            invariant
                i <= area,
                buf@.len() == i,
                forall|j: int|
                    0 <= j < i ==> crate::led_matrix::channels(#[trigger] buf@[j])
                        == hsv_to_rgb_spec(
                        slide_hue(self.0.hue, self.0.step_size, j) as int,
                        255,
                        255,
                    ),
            decreases area - i,
        {
            let low = (i % 256) as u8;
            let offset = low.wrapping_mul(self.0.step_size);
            let hue = self.0.hue.wrapping_add(offset);
            buf.push(hsv2rgb(Hsv8 { hue, sat: 255, val: 255 }));
            proof {
                assert(hue == slide_hue(self.0.hue, self.0.step_size, i as int));
            }
            i = i + 1;
        }
        let ok = matrix.set_buf(buf.as_slice());
        proof {
            assert(ok);
        }
    }
}

} // verus!
