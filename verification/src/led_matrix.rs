//! A small fixed-state matrix: two built-in rainbow animations driven by
//! an explicit state value, over a runtime-sized pixel grid.

use vstd::prelude::*;

verus! {

use crate::led::hsv_rgb_convert::{hsv_to_rgb_spec, Hsv8, Rgb8};
use crate::led::WriteLeds;
use crate::rgb2hsv::hsv2rgb;

/// The animations the fixed-state matrix can play.
#[derive(Copy, Clone)]
pub enum Animations {
    Rainbow,
    RainbowSlide,
}

/// The display state: either one of the built-in animations with its
/// frame counter and the timestamp of its last applied frame, or off.
#[derive(Copy, Clone)]
pub enum LedState {
    Animation { animation: Animations, frame: u16, last_tick: u64 },
    Off,
}

/// The channels of the uniform rainbow frame at `frame`.
pub open spec fn rainbow_pixel(frame: u16) -> (int, int, int) {
    hsv_to_rgb_spec(frame as int % 255, 255, 25)
}

/// The channels of pixel `i` of the sliding rainbow frame at `frame`.
pub open spec fn slide_pixel(frame: u16, i: int) -> (int, int, int) {
    hsv_to_rgb_spec((frame + i * 5) % 255, 255, 25)
}

/// The storage offset of column `x` of row `y`: pixels are stored row
/// by row.
pub open spec fn pixel_index(x: int, y: int, cols: int) -> int {
    x + y * cols
}

/// The channels of a stored color, for comparing against a conversion.
pub open spec fn channels(c: Rgb8) -> (int, int, int) {
    (c.r as int, c.g as int, c.b as int)
}

impl LedState {
    /// A fresh state: the sliding rainbow from frame 0, with `now_ms` as
    /// its last tick.
    pub fn new(now_ms: u64) -> (s: Self)
        ensures
            s == (LedState::Animation {
                animation: Animations::RainbowSlide,
                frame: 0u16,
                last_tick: now_ms,
            }),
    {
        LedState::Animation { animation: Animations::RainbowSlide, frame: 0, last_tick: now_ms }
    }

    /// Switch to `animation`, restarting from frame 0 at `now_ms`.
    pub fn set_animation(self, animation: Animations, now_ms: u64) -> (s: Self)
        ensures
            s == (LedState::Animation { animation, frame: 0u16, last_tick: now_ms }),
    {
        LedState::Animation { animation, frame: 0, last_tick: now_ms }
    }

    /// Turn the display logic off: later ticks leave the matrix alone.
    pub fn set_off(self) -> (s: Self)
        ensures
            s is Off,
    {
        LedState::Off
    }

    /// One cooperative tick at `now_ms`.  Off states do nothing.  An
    /// animation redraws and advances its frame by 5 (wrapping at 255)
    /// only once more than 100 ms have passed since its last applied
    /// frame; otherwise everything stays as it was.  A driver failure is
    /// surfaced and the state is not advanced.
    pub fn tick<D: WriteLeds<Color = Rgb8>>(
        self,
        now_ms: u64,
        led_matrix: &mut LedMatrix<D>,
    ) -> (r: Result<Self, D::Error>)
        requires
            old(led_matrix).wf(),
        ensures
            final(led_matrix).wf(),
            final(led_matrix).rows_spec() == old(led_matrix).rows_spec(),
            final(led_matrix).cols_spec() == old(led_matrix).cols_spec(),
            final(led_matrix).pixels_spec().len() == old(led_matrix).pixels_spec().len(),
            self is Off ==> (r matches Ok(s) && s == self
                && *final(led_matrix) == *old(led_matrix)),
            self matches LedState::Animation { animation, frame, last_tick } ==> ({
                &&& last_tick + 100 >= now_ms ==> (r matches Ok(s) && s == self
                    && *final(led_matrix) == *old(led_matrix))
                &&& last_tick + 100 < now_ms ==> ({
                    &&& r matches Ok(s) ==> s == (LedState::Animation {
                        animation,
                        frame: ((frame + 5) as int % 255) as u16,
                        last_tick: now_ms,
                    })
                    &&& animation is Rainbow ==> forall|i: int|
                        0 <= i < final(led_matrix).pixels_spec().len() ==> channels(
                            #[trigger] final(led_matrix).pixels_spec()[i],
                        ) == rainbow_pixel(frame)
                    &&& animation is RainbowSlide ==> forall|i: int|
                        0 <= i < final(led_matrix).pixels_spec().len() ==> channels(
                            #[trigger] final(led_matrix).pixels_spec()[i],
                        ) == slide_pixel(frame, i)
                })
            }),
    {
        match self {
            LedState::Animation { animation, frame, last_tick } => {
                match animation {
                    Animations::Rainbow => Self::rainbow(led_matrix, animation, frame, last_tick, now_ms),
                    Animations::RainbowSlide => Self::rainbow_slide(
                        led_matrix,
                        animation,
                        frame,
                        last_tick,
                        now_ms,
                    ),
                }
            },
            LedState::Off => Ok(self),
        }
    }

    /// The state after an applied animation frame: advanced by 5,
    /// wrapping at 255, with `now_ms` as the last applied tick.
    fn advanced(animation: Animations, frame: u16, now_ms: u64) -> (s: LedState)
        ensures
            s == (LedState::Animation {
                animation,
                frame: ((frame + 5) as int % 255) as u16,
                last_tick: now_ms,
            }),
    {
        let next: u16 = (((frame as u32) + 5) % 255) as u16;
        proof {
            assert((frame as u32 + 5) as int % 255 == (frame + 5) as int % 255);
        }
        LedState::Animation { animation, frame: next, last_tick: now_ms }
    }

    fn rainbow_slide<D: WriteLeds<Color = Rgb8>>(
        led_matrix: &mut LedMatrix<D>,
        animation: Animations,
        frame: u16,
        last_tick: u64,
        now_ms: u64,
    ) -> (r: Result<LedState, D::Error>)
        requires
            old(led_matrix).wf(),
        ensures
            final(led_matrix).wf(),
            final(led_matrix).rows_spec() == old(led_matrix).rows_spec(),
            final(led_matrix).cols_spec() == old(led_matrix).cols_spec(),
            final(led_matrix).pixels_spec().len() == old(led_matrix).pixels_spec().len(),
            last_tick + 100 >= now_ms ==> (r matches Ok(s) && s == (LedState::Animation {
                animation,
                frame,
                last_tick,
            }) && *final(led_matrix) == *old(led_matrix)),
            last_tick + 100 < now_ms ==> {
                &&& r matches Ok(s) ==> s == (LedState::Animation {
                    animation,
                    frame: ((frame + 5) as int % 255) as u16,
                    last_tick: now_ms,
                })
                &&& forall|i: int|
                    0 <= i < final(led_matrix).pixels_spec().len() ==> channels(
                        #[trigger] final(led_matrix).pixels_spec()[i],
                    ) == slide_pixel(frame, i)
            },
    {
        if now_ms >= last_tick && now_ms - last_tick > 100 {
            let len = led_matrix.pixels.len();
            let mut i: usize = 0;
            while i < len
                invariant
                    led_matrix.wf(),
                    led_matrix.rows_spec() == old(led_matrix).rows_spec(),
                    led_matrix.cols_spec() == old(led_matrix).cols_spec(),
                    led_matrix.pixels_spec().len() == old(led_matrix).pixels_spec().len(),
                    len == led_matrix.pixels_spec().len(),
                    i <= len,
                    forall|j: int|
                        0 <= j < i ==> channels(#[trigger] led_matrix.pixels_spec()[j])
                            == slide_pixel(frame, j),
                decreases len - i,
            {
                proof {
                    assert(led_matrix.rows_spec() as int * led_matrix.cols_spec() as int <= 255
                        * 255) by (nonlinear_arith)
                        requires
                            0 <= led_matrix.rows_spec() <= 255,
                            0 <= led_matrix.cols_spec() <= 255,
                    ;
                }
                let hue: u8 = (((frame as usize) + i * 5) % 255) as u8;
                proof {
                    assert(hue as int == (frame + i * 5) % 255);
                }
                let color = hsv2rgb(Hsv8 { hue, sat: 255, val: 25 });
                led_matrix.pixels.set(i, color);
                i = i + 1;
            }
            match led_matrix.write_pixels() {
                Ok(()) => Ok(Self::advanced(animation, frame, now_ms)),
                Err(e) => Err(e),
            }
        } else {
            Ok(LedState::Animation { animation, frame, last_tick })
        }
    }

    fn rainbow<D: WriteLeds<Color = Rgb8>>(
        led_matrix: &mut LedMatrix<D>,
        animation: Animations,
        frame: u16,
        last_tick: u64,
        now_ms: u64,
    ) -> (r: Result<LedState, D::Error>)
        requires
            old(led_matrix).wf(),
        ensures
            final(led_matrix).wf(),
            final(led_matrix).rows_spec() == old(led_matrix).rows_spec(),
            final(led_matrix).cols_spec() == old(led_matrix).cols_spec(),
            final(led_matrix).pixels_spec().len() == old(led_matrix).pixels_spec().len(),
            last_tick + 100 >= now_ms ==> (r matches Ok(s) && s == (LedState::Animation {
                animation,
                frame,
                last_tick,
            }) && *final(led_matrix) == *old(led_matrix)),
            last_tick + 100 < now_ms ==> {
                &&& r matches Ok(s) ==> s == (LedState::Animation {
                    animation,
                    frame: ((frame + 5) as int % 255) as u16,
                    last_tick: now_ms,
                })
                &&& forall|i: int|
                    0 <= i < final(led_matrix).pixels_spec().len() ==> channels(
                        #[trigger] final(led_matrix).pixels_spec()[i],
                    ) == rainbow_pixel(frame)
            },
    {
        if now_ms >= last_tick && now_ms - last_tick > 100 {
            let hue: u8 = (frame % 255) as u8;
            let color = hsv2rgb(Hsv8 { hue, sat: 255, val: 25 });
            led_matrix.set_all_pixel(color);
            match led_matrix.write_pixels() {
                Ok(()) => Ok(Self::advanced(animation, frame, now_ms)),
                Err(e) => Err(e),
            }
        } else {
            Ok(LedState::Animation { animation, frame, last_tick })
        }
    }
}

/// A matrix of `led_rows` by `led_columns` pixels with its own driver:
/// pixel `(x, y)` sits at offset `x + y * led_columns`.
pub struct LedMatrix<D: WriteLeds<Color = Rgb8>> {
    led_rows: u8,
    led_columns: u8,
    pixels: Vec<Rgb8>,
    driver: D,
}

impl<D: WriteLeds<Color = Rgb8>> LedMatrix<D> {
    /// The number of rows.
    pub closed spec fn rows_spec(&self) -> u8 {
        self.led_rows
    }

    /// The number of columns.
    pub closed spec fn cols_spec(&self) -> u8 {
        self.led_columns
    }

    /// The pixels, row by row.
    pub closed spec fn pixels_spec(&self) -> Seq<Rgb8> {
        self.pixels@
    }

    /// One buffer slot per pixel.
    pub closed spec fn wf(&self) -> bool {
        self.pixels@.len() == self.led_rows as int * self.led_columns as int
    }

    /// What the invariant guarantees: one buffer slot per pixel, so any
    /// in-range `(x, y)` indexes inside the buffer.
    pub proof fn lemma_wf(&self)
        requires
            self.wf(),
        ensures
            self.pixels_spec().len() == self.rows_spec() as int * self.cols_spec() as int,
            forall|x: int, y: int|
                0 <= x < self.cols_spec() && 0 <= y < self.rows_spec() ==> 0 <= #[trigger] pixel_index(
                    x,
                    y,
                    self.cols_spec() as int,
                ) < self.pixels_spec().len(),
    {
        assert forall|x: int, y: int|
            0 <= x < self.cols_spec() && 0 <= y < self.rows_spec() implies 0 <= #[trigger] pixel_index(
            x,
            y,
            self.cols_spec() as int,
        ) < self.pixels_spec().len() by {
            assert(0 <= x + y * self.led_columns < self.led_rows as int * self.led_columns as int)
                by (nonlinear_arith)
                requires
                    0 <= x < self.led_columns,
                    0 <= y < self.led_rows,
            ;
        }
    }

    /// A matrix of the given dimensions, all pixels black, owning the
    /// given driver.
    pub fn new(driver: D, led_rows: u8, led_columns: u8) -> (m: Self)
        ensures
            m.wf(),
            m.rows_spec() == led_rows,
            m.cols_spec() == led_columns,
            forall|i: int|
                0 <= i < m.pixels_spec().len() ==> m.pixels_spec()[i] == (Rgb8 {
                    r: 0,
                    g: 0,
                    b: 0,
                }),
    {
        proof {
            assert(led_rows as int * led_columns as int <= 255 * 255) by (nonlinear_arith)
                requires
                    0 <= led_rows <= 255,
                    0 <= led_columns <= 255,
            ;
        }
        let count: usize = (led_rows as usize) * (led_columns as usize);
        let mut pixels: Vec<Rgb8> = Vec::new();
        let mut i: usize = 0;
        while i < count
            invariant
                i <= count,
                pixels@.len() == i,
                forall|j: int| 0 <= j < i ==> pixels@[j] == (Rgb8 { r: 0, g: 0, b: 0 }),
            decreases count - i,
        {
            pixels.push(Rgb8 { r: 0, g: 0, b: 0 });
            i = i + 1;
        }
        LedMatrix { led_rows, led_columns, pixels, driver }
    }

    /// Write one pixel at column `x` of row `y`.
    pub fn set_pixel(&mut self, x: u8, y: u8, color: Rgb8)
        requires
            old(self).wf(),
            x < old(self).cols_spec(),
            y < old(self).rows_spec(),
        ensures
            final(self).wf(),
            final(self).rows_spec() == old(self).rows_spec(),
            final(self).cols_spec() == old(self).cols_spec(),
            final(self).pixels_spec() == old(self).pixels_spec().update(
                x + y * old(self).cols_spec(),
                color,
            ),
    {
        proof {
            assert(x + y * self.led_columns < self.led_rows as int * self.led_columns as int
                && self.led_rows as int * self.led_columns as int <= 255 * 255)
                by (nonlinear_arith)
                requires
                    0 <= x < self.led_columns <= 255,
                    0 <= y < self.led_rows <= 255,
            ;
        }
        let idx: usize = (x as usize) + (y as usize) * (self.led_columns as usize);
        self.pixels.set(idx, color);
    }

    /// Fill the whole matrix with one color.
    pub fn set_all_pixel(&mut self, color: Rgb8)
        requires
            old(self).wf(),
        ensures
            final(self).wf(),
            final(self).rows_spec() == old(self).rows_spec(),
            final(self).cols_spec() == old(self).cols_spec(),
            final(self).pixels_spec().len() == old(self).pixels_spec().len(),
            forall|i: int|
                0 <= i < final(self).pixels_spec().len() ==> final(self).pixels_spec()[i] == color,
    {
        let len = self.pixels.len();
        let mut i: usize = 0;
        while i < len
            invariant
                self.wf(),
                self.rows_spec() == old(self).rows_spec(),
                self.cols_spec() == old(self).cols_spec(),
                len == self.pixels_spec().len(),
                i <= len,
                forall|j: int| 0 <= j < i ==> self.pixels_spec()[j] == color,
            decreases len - i,
        {
            self.pixels.set(i, color);
            i = i + 1;
        }
    }

    /// Read one pixel back.
    pub fn get_pixel(&mut self, x: u8, y: u8) -> (c: Rgb8)
        requires
            old(self).wf(),
            x < old(self).cols_spec(),
            y < old(self).rows_spec(),
        ensures
            *final(self) == *old(self),
            c == old(self).pixels_spec()[x + y * old(self).cols_spec()],
    {
        proof {
            assert(x + y * self.led_columns < self.led_rows as int * self.led_columns as int
                && self.led_rows as int * self.led_columns as int <= 255 * 255)
                by (nonlinear_arith)
                requires
                    0 <= x < self.led_columns <= 255,
                    0 <= y < self.led_rows <= 255,
            ;
        }
        let idx: usize = (x as usize) + (y as usize) * (self.led_columns as usize);
        self.pixels[idx]
    }

    /// Push the current pixels to the driver, in storage order.
    pub fn write_pixels(&mut self) -> (r: Result<(), D::Error>)
        requires
            old(self).wf(),
        ensures
            final(self).wf(),
            final(self).rows_spec() == old(self).rows_spec(),
            final(self).cols_spec() == old(self).cols_spec(),
            final(self).pixels_spec() == old(self).pixels_spec(),
    {
        self.driver.write(self.pixels.as_slice())
    }

    pub fn led_rows(&self) -> (n: u8)
        ensures
            n == self.rows_spec(),
    {
        self.led_rows
    }

    pub fn led_columns(&self) -> (n: u8)
        ensures
            n == self.cols_spec(),
    {
        self.led_columns
    }
}

} // verus!
