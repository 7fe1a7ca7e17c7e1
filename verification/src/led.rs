//! Matrix abstractions: the driver contract, the frame-buffer backend
//! contract, dimming, and the animation contract.

pub mod hsv_rgb_convert;
pub mod matrix;

use vstd::prelude::*;

verus! {

use crate::led::hsv_rgb_convert::{Hsv8, Rgb8};

/// Driver contract: transmits exactly one frame's worth of colors to the
/// hardware, in the backend's physical pixel order.  A failure is
/// surfaced, never swallowed; nothing more can be promised of hardware,
/// so the contract promises nothing of the result.
pub trait WriteLeds {
    type Error;

    type Color;

    fn write(&mut self, buf: &[Self::Color]) -> Result<(), Self::Error>;
}

/// Configuration trait for implementing the LED matrix being used.
///
/// Each physical matrix routes its LEDs differently, where animations
/// just want to write pixels at `x` and `y` coordinates.  An
/// implementation fixes the dimensions, keeps an internal frame buffer of
/// exactly one slot per pixel, and maps logical coordinates to physical
/// storage offsets (`offset_spec`).  The cached area and volume never
/// have to be recomputed from the dimensions.
pub trait LedMatrix: Sized {
    type Driver: WriteLeds;

    /// The X dimension of the matrix.
    spec fn x_spec(&self) -> usize;

    /// The Y dimension of the matrix.
    spec fn y_spec(&self) -> usize;

    /// The Z dimension, zero for flat matrices.
    spec fn z_spec(&self) -> usize;

    /// The total area of the matrix, cached at construction.
    spec fn area_spec(&self) -> usize;

    /// The total volume of a cube, cached at construction.
    spec fn volume_spec(&self) -> usize;

    /// The frame buffer, in physical storage order.
    spec fn buf_spec(&self) -> Seq<<Self::Driver as WriteLeds>::Color>;

    /// The physical storage offset of a logical coordinate: the one piece
    /// that legitimately differs per physical board.
    spec fn offset_spec(&self, x: int, y: int) -> int;

    /// The backend's invariant.
    spec fn wf(&self) -> bool;

    /// What the invariant guarantees: the cached products are right, the
    /// buffer holds one slot per pixel, and the wiring maps the
    /// coordinates onto distinct in-range slots.
    proof fn lemma_wf(&self)
        requires
            self.wf(),
        ensures
            self.area_spec() == self.x_spec() * self.y_spec(),
            self.volume_spec() == self.area_spec() * self.z_spec(),
            self.buf_spec().len() == self.area_spec(),
            forall|x: int, y: int|
                0 <= x < self.x_spec() && 0 <= y < self.y_spec() ==> 0 <= #[trigger] self.offset_spec(
                    x,
                    y,
                ) < self.area_spec(),
            forall|x1: int, y1: int, x2: int, y2: int|
                0 <= x1 < self.x_spec() && 0 <= y1 < self.y_spec() && 0 <= x2 < self.x_spec() && 0
                    <= y2 < self.y_spec() && !(x1 == x2 && y1 == y2) ==> #[trigger] self.offset_spec(
                    x1,
                    y1,
                ) != #[trigger] self.offset_spec(x2, y2),
    ;

    fn x(&self) -> (n: usize)
        ensures
            n == self.x_spec(),
    ;

    fn y(&self) -> (n: usize)
        ensures
            n == self.y_spec(),
    ;

    fn z(&self) -> (n: usize)
        ensures
            n == self.z_spec(),
    ;

    fn area(&self) -> (n: usize)
        ensures
            n == self.area_spec(),
    ;

    fn volume(&self) -> (n: usize)
        ensures
            n == self.volume_spec(),
    ;

    /// Read the entire internal frame buffer: a snapshot copy in physical
    /// order, ready to hand to the driver.
    fn read_buf(&self) -> (out: Vec<<Self::Driver as WriteLeds>::Color>)
        requires
            self.wf(),
        ensures
            out@ == self.buf_spec(),
    ;

    /// Write the entire internal frame buffer.  A slice of any length
    /// other than the area is rejected: the buffer stays untouched and
    /// `false` comes back.
    fn set_buf(&mut self, buf: &[<Self::Driver as WriteLeds>::Color]) -> (ok: bool)
        requires
            old(self).wf(),
        ensures
            final(self).wf(),
            final(self).x_spec() == old(self).x_spec(),
            final(self).y_spec() == old(self).y_spec(),
            final(self).z_spec() == old(self).z_spec(),
            final(self).area_spec() == old(self).area_spec(),
            final(self).volume_spec() == old(self).volume_spec(),
            forall|x: int, y: int| #[trigger] final(self).offset_spec(x, y) == old(self).offset_spec(x, y),
            ok <==> buf@.len() == old(self).area_spec(),
            ok ==> final(self).buf_spec() == buf@,
            !ok ==> final(self).buf_spec() == old(self).buf_spec(),
    ;

    /// Write a pixel to the given `x` / `y` coordinate of a flat matrix.
    fn set_2d(&mut self, x: usize, y: usize, color: &<Self::Driver as WriteLeds>::Color)
        requires
            old(self).wf(),
            x < old(self).x_spec(),
            y < old(self).y_spec(),
        ensures
            final(self).wf(),
            final(self).x_spec() == old(self).x_spec(),
            final(self).y_spec() == old(self).y_spec(),
            final(self).z_spec() == old(self).z_spec(),
            final(self).area_spec() == old(self).area_spec(),
            final(self).volume_spec() == old(self).volume_spec(),
            forall|x: int, y: int| #[trigger] final(self).offset_spec(x, y) == old(self).offset_spec(x, y),
            final(self).buf_spec() == old(self).buf_spec().update(
                old(self).offset_spec(x as int, y as int),
                *color,
            ),
    ;

    /// Write a pixel of an LED cube.  Flat matrices need not implement
    /// it: the default falls back to `set_2d`, ignoring `z`.
    fn set_3d(&mut self, x: usize, y: usize, z: usize, color: &<Self::Driver as WriteLeds>::Color)
        requires
            old(self).wf(),
            x < old(self).x_spec(),
            y < old(self).y_spec(),
        ensures
            final(self).wf(),
            final(self).x_spec() == old(self).x_spec(),
            final(self).y_spec() == old(self).y_spec(),
            final(self).z_spec() == old(self).z_spec(),
            final(self).area_spec() == old(self).area_spec(),
            final(self).volume_spec() == old(self).volume_spec(),
            forall|x: int, y: int| #[trigger] final(self).offset_spec(x, y) == old(self).offset_spec(x, y),
            final(self).buf_spec() == old(self).buf_spec().update(
                old(self).offset_spec(x as int, y as int),
                *color,
            ),
    {
        self.set_2d(x, y, color)
    }
}

/// Two backend values agree on everything but the buffer contents: the
/// dimensions, the cached products and the wiring are the same.  The
/// backend contract's operations preserve exactly this.
pub open spec fn same_shape<S: LedMatrix>(a: &S, b: &S) -> bool {
    &&& b.x_spec() == a.x_spec()
    &&& b.y_spec() == a.y_spec()
    &&& b.z_spec() == a.z_spec()
    &&& b.area_spec() == a.area_spec()
    &&& b.volume_spec() == a.volume_spec()
    &&& forall|x: int, y: int| #[trigger] b.offset_spec(x, y) == a.offset_spec(x, y)
}

/// Paint an image onto a matrix: coordinate `(x, y)` takes the color
/// `image[y][x]`, for every coordinate that both the image and the
/// matrix cover.  The wiring maps distinct coordinates to distinct
/// slots, so no write clobbers another.
pub fn paint_image<C, B>(matrix: &mut C, image: &Vec<Vec<<B as WriteLeds>::Color>>) where
    C: LedMatrix<Driver = B>,
    B: WriteLeds,
    B::Color: Copy,

    requires
        old(matrix).wf(),
    ensures
        final(matrix).wf(),
        same_shape(old(matrix), final(matrix)),
        forall|x: int, y: int|
            0 <= x < old(matrix).x_spec() && 0 <= y < old(matrix).y_spec() && y < image@.len() && x
                < image@[y]@.len() ==> final(matrix).buf_spec()[#[trigger] old(matrix).offset_spec(
                x,
                y,
            )] == image@[y]@[x],
        forall|o: int|
            0 <= o < final(matrix).buf_spec().len() && (forall|x: int, y: int|
                0 <= x < old(matrix).x_spec() && 0 <= y < old(matrix).y_spec() && y < image@.len()
                    && x < image@[y]@.len() ==> #[trigger] old(matrix).offset_spec(x, y) != o)
                ==> final(matrix).buf_spec()[o] == #[trigger] old(matrix).buf_spec()[o],
{
    proof {
        old(matrix).lemma_wf();
    }
    let xs = matrix.x();
    let ys = matrix.y();
    let mut y: usize = 0;
    while y < ys
        invariant
            matrix.wf(),
            same_shape(old(matrix), matrix),
            matrix.x_spec() == xs,
            matrix.y_spec() == ys,
            y <= ys,
            old(matrix).wf(),
            old(matrix).x_spec() == xs,
            old(matrix).y_spec() == ys,
            forall|xx: int, yy: int|
                0 <= xx < xs && 0 <= yy < y && yy < image@.len() && xx < image@[yy]@.len()
                    ==> matrix.buf_spec()[#[trigger] old(matrix).offset_spec(xx, yy)]
                    == image@[yy]@[xx],
            forall|o: int|
                0 <= o < matrix.buf_spec().len() && (forall|xx: int, yy: int|
                    0 <= xx < xs && 0 <= yy < ys && yy < image@.len() && xx < image@[yy]@.len()
                        ==> #[trigger] old(matrix).offset_spec(xx, yy) != o) ==> matrix.buf_spec()[o]
                    == #[trigger] old(matrix).buf_spec()[o],
        decreases ys - y,
    {
        let mut x: usize = 0;
        while x < xs
            invariant
                matrix.wf(),
                same_shape(old(matrix), matrix),
                matrix.x_spec() == xs,
                matrix.y_spec() == ys,
                y < ys,
                x <= xs,
                old(matrix).wf(),
                old(matrix).x_spec() == xs,
                old(matrix).y_spec() == ys,
                forall|xx: int, yy: int|
                    0 <= xx < xs && 0 <= yy < y && yy < image@.len() && xx < image@[yy]@.len()
                        ==> matrix.buf_spec()[#[trigger] old(matrix).offset_spec(xx, yy)]
                        == image@[yy]@[xx],
                forall|xx: int|
                    0 <= xx < x && (y as int) < image@.len() && xx < image@[y as int]@.len()
                        ==> matrix.buf_spec()[#[trigger] old(matrix).offset_spec(xx, y as int)]
                        == image@[y as int]@[xx],
            forall|o: int|
                0 <= o < matrix.buf_spec().len() && (forall|xx: int, yy: int|
                    0 <= xx < xs && 0 <= yy < ys && yy < image@.len() && xx < image@[yy]@.len()
                        ==> #[trigger] old(matrix).offset_spec(xx, yy) != o) ==> matrix.buf_spec()[o]
                    == #[trigger] old(matrix).buf_spec()[o],
            decreases xs - x,
        {
            if y < image.len() {
                let row = &image[y];
                if x < row.len() {
                    let color = row[x];
                    let ghost prev = *matrix;
                    matrix.set_2d(x, y, &color);
                    proof {
                        old(matrix).lemma_wf();
                        prev.lemma_wf();
                        matrix.lemma_wf();
                        assert(prev.offset_spec(x as int, y as int) == old(matrix).offset_spec(
                            x as int,
                            y as int,
                        ));
                        assert(prev.buf_spec().len() == old(matrix).area_spec());
                        assert(0 <= old(matrix).offset_spec(x as int, y as int) < old(matrix).area_spec());
                        assert forall|xx: int, yy: int|
                            0 <= xx < xs && 0 <= yy < ys && !(xx == x && yy == y) implies old(matrix).offset_spec(xx, yy) != old(matrix).offset_spec(x as int, y as int) by {}
                        assert(matrix.buf_spec()[old(matrix).offset_spec(x as int, y as int)]
                            == image@[y as int]@[x as int]);
                        assert forall|o: int|
                            0 <= o < matrix.buf_spec().len() && (forall|xx: int, yy: int|
                                0 <= xx < xs && 0 <= yy < ys && yy < image@.len() && xx
                                    < image@[yy]@.len() ==> #[trigger] old(matrix).offset_spec(
                                    xx,
                                    yy,
                                ) != o) implies matrix.buf_spec()[o] == #[trigger] old(
                            matrix,
                        ).buf_spec()[o] by {
                            assert(old(matrix).offset_spec(x as int, y as int) != o);
                        }
                    }
                }
            }
            x = x + 1;
        }
        y = y + 1;
    }
}

/// Paint a grid of cells onto a matrix: coordinate `(x, y)` becomes `on`
/// where `cells[y][x]` holds and `off` where it does not, for every
/// coordinate that both the grid and the matrix cover.
pub fn paint_cells<C, B>(
    matrix: &mut C,
    cells: &Vec<Vec<bool>>,
    on: <B as WriteLeds>::Color,
    off: <B as WriteLeds>::Color,
) where
    C: LedMatrix<Driver = B>,
    B: WriteLeds,
    B::Color: Copy,

    requires
        old(matrix).wf(),
    ensures
        final(matrix).wf(),
        same_shape(old(matrix), final(matrix)),
        forall|x: int, y: int|
            0 <= x < old(matrix).x_spec() && 0 <= y < old(matrix).y_spec() && y < cells@.len() && x
                < cells@[y]@.len() ==> final(matrix).buf_spec()[#[trigger] old(matrix).offset_spec(
                x,
                y,
            )] == (if cells@[y]@[x] {
                on
            } else {
                off
            }),
{
    let mut image: Vec<Vec<<B as WriteLeds>::Color>> = Vec::new();
    let mut y: usize = 0;
    while y < cells.len()
        invariant
            image@.len() == y,
            y <= cells@.len(),
            forall|yy: int| 0 <= yy < y ==> (#[trigger] image@[yy])@.len() == cells@[yy]@.len(),
            forall|xx: int, yy: int|
                0 <= yy < y && 0 <= xx < cells@[yy]@.len() ==> #[trigger] image@[yy]@[xx] == (
                if cells@[yy]@[xx] {
                    on
                } else {
                    off
                }),
        decreases cells@.len() - y,
    {
        let row = &cells[y];
        let mut colors: Vec<<B as WriteLeds>::Color> = Vec::new();
        let mut x: usize = 0;
        while x < row.len()
            invariant
                colors@.len() == x,
                x <= row@.len(),
                forall|xx: int|
                    0 <= xx < x ==> #[trigger] colors@[xx] == (if row@[xx] {
                        on
                    } else {
                        off
                    }),
            decreases row@.len() - x,
        {
            if row[x] {
                colors.push(on);
            } else {
                colors.push(off);
            }
            x = x + 1;
        }
        image.push(colors);
        y = y + 1;
    }
    paint_image(matrix, &image);
}

/// RGB or HSV values are dimmable. Usually, full send will bleach your
/// eyes out anyways.
pub trait Dimmable: Sized {
    /// The value after dimming by the divisor `level`.
    spec fn dim_spec(&self, level: u8) -> Self;

    /// Dimm `self` according to `level`, where `level` is a divisor of
    /// the full brightness.
    fn dimm(&mut self, level: u8)
        requires
            level >= 1,
        ensures
            *final(self) == old(self).dim_spec(level),
    ;
}

impl Dimmable for Rgb8 {
    open spec fn dim_spec(&self, level: u8) -> Rgb8 {
        Rgb8 {
            r: (self.r as int / level as int) as u8,
            g: (self.g as int / level as int) as u8,
            b: (self.b as int / level as int) as u8,
        }
    }

    fn dimm(&mut self, level: u8) {
        self.r = self.r / level;
        self.g = self.g / level;
        self.b = self.b / level;
    }
}

impl Dimmable for Hsv8 {
    open spec fn dim_spec(&self, level: u8) -> Hsv8 {
        Hsv8 { hue: self.hue, sat: self.sat, val: (self.val as int / level as int) as u8 }
    }

    fn dimm(&mut self, level: u8) {
        self.val = self.val / level;
    }
}

/// Trait for implementing animations that can run on a variety of LED
/// matrices.
///
/// State lives in `self`; the runtime never inspects it.  Side effects
/// are confined to the frame buffer: neither call may change the
/// backend's shape, and neither may touch the driver.
pub trait Animation<C: LedMatrix> {
    /// Initialization, called exactly once when the animation becomes
    /// active.  Useful for clearing the frame buffer or drawing a static
    /// scene.  The returned value, if any, is the animation's own tick
    /// interval in milliseconds; `None` leaves the matrix's frame rate in
    /// charge.
    fn init(&mut self, matrix: &mut C) -> (rate: Option<u64>)
        requires
            old(matrix).wf(),
        ensures
            final(matrix).wf(),
            same_shape(old(matrix), final(matrix)),
    {
        None
    }

    /// The draw function, called once per scheduled tick with the tick's
    /// timestamp in milliseconds.  It may leave the buffer untouched; the
    /// runtime redraws whatever was last written.
    fn update(&mut self, tick: u64, matrix: &mut C)
        requires
            old(matrix).wf(),
        ensures
            final(matrix).wf(),
            same_shape(old(matrix), final(matrix)),
    {
    }
}

} // verus!
