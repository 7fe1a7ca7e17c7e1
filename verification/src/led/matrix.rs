//! Generic, panic-free and swap-safe runtime over an LED matrix.
//!
//! * Correct usage is guaranteed at compile time: the builder hands out a
//!   runnable matrix only once an animation was supplied.
//! * Animations are abstracted via the [`crate::led::Animation`] trait.
//! * LED backends (drivers) are abstracted via [`crate::led::WriteLeds`].
//!
//! The runtime itself is single-threaded: it decides, for each tick, how
//! long to sleep and whether to draw.  The surrounding program runs the
//! loop on a thread of its own, checks a stop flag between ticks, and
//! joins the thread before the runtime changes hands, so at most one
//! writer ever touches the buffer.

use vstd::prelude::*;

verus! {

use core::marker::PhantomData;
use crate::led::hsv_rgb_convert::Rgb8;
use crate::led::{Animation, Dimmable, LedMatrix, WriteLeds};

/// What can go wrong while the matrix runs.
#[derive(Debug)]
pub enum Error<T> {
    /// A thread holding a lock on the runtime or its stop flag panicked.
    Poisoned,
    /// The thread running the matrix animations panicked.
    Paniced,
    /// The LED matrix driver backend returned an error while writing
    /// pixels.
    Driver(T),
}

/// Builder state: the animation is set, the matrix may run.
pub struct AnimationSet;

/// Builder state: the mandatory field `State` was not yet supplied.
pub struct Missing<State>(PhantomData<State>);

/// Default backend that does nothing.
pub struct DummyBackend;

impl WriteLeds for DummyBackend {
    type Error = ();

    type Color = ();

    fn write(&mut self, _buf: &[()]) -> (r: Result<(), ()>)
        ensures
            r is Ok,
            *final(self) == *old(self),
    {
        Ok(())
    }
}

/// Default matrix configuration without a meaningful config: zero by
/// zero pixels, an empty buffer, and the backend that does nothing.
#[derive(Clone, Copy)]
pub struct DummyMatrix;

impl LedMatrix for DummyMatrix {
    type Driver = DummyBackend;

    closed spec fn x_spec(&self) -> usize {
        0
    }

    closed spec fn y_spec(&self) -> usize {
        0
    }

    closed spec fn z_spec(&self) -> usize {
        0
    }

    closed spec fn area_spec(&self) -> usize {
        0
    }

    closed spec fn volume_spec(&self) -> usize {
        0
    }

    closed spec fn buf_spec(&self) -> Seq<()> {
        Seq::empty()
    }

    closed spec fn offset_spec(&self, x: int, y: int) -> int {
        0
    }

    closed spec fn wf(&self) -> bool {
        true
    }

    proof fn lemma_wf(&self) {
        assert(0int * 0 == 0) by (nonlinear_arith);
    }

    fn x(&self) -> usize {
        0
    }

    fn y(&self) -> usize {
        0
    }

    fn z(&self) -> usize {
        0
    }

    fn area(&self) -> usize {
        0
    }

    fn volume(&self) -> usize {
        0
    }

    fn read_buf(&self) -> (out: Vec<()>) {
        let out: Vec<()> = Vec::new();
        assert(out@ =~= self.buf_spec());
        out
    }

    fn set_buf(&mut self, buf: &[()]) -> (ok: bool) {
        let ok = buf.len() == 0;
        proof {
            if ok {
                assert(final(self).buf_spec() =~= buf@);
            }
        }
        ok
    }

    fn set_2d(&mut self, _x: usize, _y: usize, _color: &()) {
    }
}

impl Animation<DummyMatrix> for () {

}

/// Builder for [`Matrix`] where setting an animation is mandatory.
/// Ensures that only valid instances of [`Matrix`] are created at compile
/// time: the animation must be set (only the `AnimationSet` state offers
/// `build`), and it must be compatible with the targeted backend.
#[must_use]
pub struct MatrixBuilder<S, A, State> {
    animation: Option<A>,
    fps: u8,
    matrix: S,
    marker: PhantomData<State>,
}

impl<S, A, State> MatrixBuilder<S, A, State> {
    /// The configured frame rate.
    pub closed spec fn fps_spec(&self) -> u8 {
        self.fps
    }

    /// The backend the runtime will own.
    pub closed spec fn matrix_spec(&self) -> S {
        self.matrix
    }

    /// The initial animation, once set.
    pub closed spec fn animation_spec(&self) -> Option<A> {
        self.animation
    }

    /// Set the `frames per second` (FPS) rate of the animations.  In
    /// other words, define the refresh rate of the LED matrix.
    pub fn fps(self, n: u8) -> (r: Self)
        requires
            n >= 1,
        ensures
            r.fps_spec() == n,
            r.matrix_spec() == self.matrix_spec(),
            r.animation_spec() == self.animation_spec(),
    {
        let mut r = self;
        r.fps = n;
        r
    }
}

impl<S, A> MatrixBuilder<S, A, Missing<AnimationSet>> {
    /// Set the initial animation to be displayed.  It can be replaced
    /// later through [`Matrix::set_animation`].
    pub fn animation(self, animation: A) -> (r: MatrixBuilder<S, A, AnimationSet>)
        ensures
            r.fps_spec() == self.fps_spec(),
            r.matrix_spec() == self.matrix_spec(),
            r.animation_spec() == Some(animation),
    {
        MatrixBuilder {
            animation: Some(animation),
            fps: self.fps,
            matrix: self.matrix,
            marker: PhantomData,
        }
    }
}

impl<S, B, A> MatrixBuilder<S, A, AnimationSet> where
    S: LedMatrix<Driver = B>,
    B: WriteLeds,
    A: Animation<S>,
    B::Color: Dimmable + Copy,
 {
    /// Assemble the runtime around the given driver: run the animation's
    /// one-time init pass and push the resulting first frame to the
    /// driver once, unconditionally, so the matrix shows the starting
    /// frame even if the first updates rate-limit themselves away.
    /// `now_ms` becomes the first tick's timestamp.  The runtime comes
    /// back stopped: the caller decides when ticks happen.
    pub fn build(self, driver: B, now_ms: u64) -> (r: Result<Matrix<S, A>, Error<B::Error>>)
        requires
            self.matrix_spec().wf(),
            self.fps_spec() >= 1,
            self.animation_spec() is Some,
        ensures
            r matches Ok(m) ==> {
                &&& m.wf()
                &&& m.brightness_spec() is None
                &&& m.tick_spec() == now_ms
                &&& m.cycle_time_spec() == 1000 as u64 / self.fps_spec() as u64
                &&& crate::led::same_shape(&self.matrix_spec(), &m.backend_spec())
            },
            r matches Err(e) ==> e is Driver,
    {
        proof {
            assert(1000int / self.fps as int >= 1) by (nonlinear_arith)
                requires
                    1 <= self.fps <= 255,
            ;
        }
        let mut matrix = Matrix {
            animation: self.animation.unwrap(),
            backend: self.matrix,
            brightness: None,
            driver,
            cycle_time_ms: 1000 / (self.fps as u64),
            frame_rate_ms: None,
            tick_ms: now_ms,
        };
        match matrix.init_animation() {
            Ok(()) => Ok(matrix),
            Err(e) => Err(e),
        }
    }
}

/// A generic LED matrix runtime.
///
/// Create an instance via the [`MatrixBuilder`] (see [`Matrix::new`]).
/// The runtime owns the frame buffer backend, the driver and the active
/// animation; it decides how long to sleep before each tick
/// ([`Matrix::sleep_duration`]) and performs one tick at a time
/// ([`Matrix::tick_once`]).  Brightness is a presentation-time transform:
/// it scales the copy handed to the driver and never the stored buffer.
pub struct Matrix<S: LedMatrix, A> {
    animation: A,
    backend: S,
    brightness: Option<u8>,
    driver: <S as LedMatrix>::Driver,
    cycle_time_ms: u64,
    frame_rate_ms: Option<u64>,
    tick_ms: u64,
}

impl<S: LedMatrix, A> Matrix<S, A> {
    /// The frame buffer backend.
    pub closed spec fn backend_spec(&self) -> S {
        self.backend
    }

    /// The stored frame buffer, in physical order.
    pub open spec fn buf_spec(&self) -> Seq<<S::Driver as WriteLeds>::Color> {
        self.backend_spec().buf_spec()
    }

    /// The active animation.
    pub closed spec fn animation_spec(&self) -> A {
        self.animation
    }

    /// The driver.
    pub closed spec fn driver_spec(&self) -> <S as LedMatrix>::Driver {
        self.driver
    }

    /// The brightness divisor, if dimming is on.
    pub closed spec fn brightness_spec(&self) -> Option<u8> {
        self.brightness
    }

    /// The scheduler's target frame interval in milliseconds.
    pub closed spec fn cycle_time_spec(&self) -> u64 {
        self.cycle_time_ms
    }

    /// The active animation's own tick interval, if it declared one.
    pub closed spec fn frame_rate_spec(&self) -> Option<u64> {
        self.frame_rate_ms
    }

    /// The timestamp of the last applied tick, in milliseconds.
    pub closed spec fn tick_spec(&self) -> u64 {
        self.tick_ms
    }

    /// The runtime's invariant: the backend is well formed, a brightness
    /// divisor is never zero, and the frame interval is at least a
    /// millisecond.
    pub closed spec fn wf(&self) -> bool {
        &&& self.backend.wf()
        &&& (self.brightness matches Some(l) ==> l >= 1)
        &&& self.cycle_time_ms >= 1
    }

    /// A tick at `now_ms` is skipped: the animation declared its own
    /// interval and that interval has not yet elapsed since the last
    /// applied tick.
    pub open spec fn skip_at(&self, now_ms: u64) -> bool {
        self.frame_rate_spec() matches Some(step) && self.tick_spec() + step > now_ms
    }

    /// How long the loop sleeps at time `now_ms`: the frame interval
    /// minus whatever the last draw already used up, floored at zero.
    pub open spec fn sleep_spec(&self, now_ms: u64) -> int {
        let elapsed: int = if now_ms >= self.tick_spec() {
            now_ms - self.tick_spec()
        } else {
            0
        };
        if elapsed >= self.cycle_time_spec() {
            0
        } else {
            self.cycle_time_spec() - elapsed
        }
    }
}

/// Frame pacing does not drift: as long as the work since the last
/// applied tick used up at most one frame interval, sleeping for
/// `sleep_duration` wakes the loop exactly one interval after that tick,
/// whatever the work cost.  Each applied tick therefore lands one frame
/// interval after the one before, and no error accumulates over a run.
pub proof fn lemma_pacing_self_corrects<S: LedMatrix, A>(m: &Matrix<S, A>, now_ms: u64)
    requires
        m.tick_spec() <= now_ms <= m.tick_spec() + m.cycle_time_spec(),
    ensures
        now_ms + m.sleep_spec(now_ms) == m.tick_spec() + m.cycle_time_spec(),
{
}

impl<S, B, A> Matrix<S, A> where
    S: LedMatrix<Driver = B>,
    B: WriteLeds,
    A: Animation<S>,
    B::Color: Dimmable + Copy,
 {
    /// Creates a new [`MatrixBuilder`] with the default frame rate of 24
    /// FPS and no animation.
    pub fn new(matrix: S) -> (r: MatrixBuilder<S, A, Missing<AnimationSet>>)
        ensures
            r.fps_spec() == 24,
            r.matrix_spec() == matrix,
            r.animation_spec() is None,
    {
        MatrixBuilder { animation: None, fps: 24, matrix, marker: PhantomData }
    }

    /// The driver, for inspection; the runtime never hands out a
    /// mutable reference to it.
    pub fn driver_ref(&self) -> (d: &<S as LedMatrix>::Driver)
        ensures
            d == self.driver_spec(),
    {
        &self.driver
    }

    /// A snapshot of the stored frame buffer, in physical order.
    pub fn buffer(&self) -> (out: Vec<B::Color>)
        requires
            self.wf(),
        ensures
            out@ == self.buf_spec(),
    {
        self.backend.read_buf()
    }

    /// Push one frame to the driver, dimming a copy first when a
    /// brightness divisor is set.  The stored buffer is never touched:
    /// brightness is re-applied fresh on every push, so restoring full
    /// brightness later needs no buffer rewrite.
    /// The frame as the driver is to see it: every stored pixel dimmed
    /// by the divisor `level`, in order.
    fn dim_frame(pixels: &Vec<B::Color>, level: u8) -> (out: Vec<B::Color>)
        requires
            level >= 1,
        ensures
            out@.len() == pixels@.len(),
            forall|i: int| 0 <= i < pixels@.len() ==> out@[i] == pixels@[i].dim_spec(level),
    {
        let mut out: Vec<B::Color> = Vec::new();
        let mut i: usize = 0;
        while i < pixels.len()
            invariant
                i <= pixels@.len(),
                out@.len() == i,
                level >= 1,
                forall|j: int| 0 <= j < i ==> out@[j] == pixels@[j].dim_spec(level),
            decreases pixels@.len() - i,
        {
            let mut pixel = pixels[i];
            pixel.dimm(level);
            out.push(pixel);
            i = i + 1;
        }
        out
    }

    fn draw(&mut self, pixels: Vec<B::Color>) -> (r: Result<(), Error<B::Error>>)
        requires
            old(self).wf(),
        ensures
            final(self).wf(),
            final(self).backend_spec() == old(self).backend_spec(),
            final(self).animation_spec() == old(self).animation_spec(),
            final(self).brightness_spec() == old(self).brightness_spec(),
            final(self).cycle_time_spec() == old(self).cycle_time_spec(),
            final(self).frame_rate_spec() == old(self).frame_rate_spec(),
            final(self).tick_spec() == old(self).tick_spec(),
            r matches Err(e) ==> e is Driver,
    {
        let write_result = match self.brightness {
            Some(level) => {
                let dimmed = Self::dim_frame(&pixels, level);
                self.driver.write(dimmed.as_slice())
            },
            None => self.driver.write(pixels.as_slice()),
        };
        match write_result {
            Ok(()) => Ok(()),
            Err(e) => Err(Error::Driver(e)),
        }
    }

    /// Run the active animation's init pass, remember the tick interval
    /// it asks for, and push the resulting buffer to the driver once,
    /// unconditionally.
    fn init_animation(&mut self) -> (r: Result<(), Error<B::Error>>)
        requires
            old(self).wf(),
        ensures
            final(self).wf(),
            crate::led::same_shape(&old(self).backend_spec(), &final(self).backend_spec()),
            final(self).brightness_spec() == old(self).brightness_spec(),
            final(self).cycle_time_spec() == old(self).cycle_time_spec(),
            final(self).tick_spec() == old(self).tick_spec(),
            r matches Err(e) ==> e is Driver,
    {
        self.frame_rate_ms = self.animation.init(&mut self.backend);
        let frame = self.backend.read_buf();
        self.draw(frame)
    }

    /// Install a new animation as the active one and initialize it: the
    /// previous animation is dropped on the spot and receives no further
    /// calls; the new one's init pass observes the buffer state the old
    /// one left behind.
    pub fn set_animation(&mut self, animation: A) -> (r: Result<(), Error<B::Error>>)
        requires
            old(self).wf(),
        ensures
            final(self).wf(),
            crate::led::same_shape(&old(self).backend_spec(), &final(self).backend_spec()),
            final(self).brightness_spec() == old(self).brightness_spec(),
            final(self).cycle_time_spec() == old(self).cycle_time_spec(),
            final(self).tick_spec() == old(self).tick_spec(),
            r matches Err(e) ==> e is Driver,
    {
        self.animation = animation;
        self.init_animation()
    }

    /// Set the brightness divisor and redraw the current buffer at the
    /// new brightness right away, without waiting for the next
    /// animation-driven update.  The stored buffer is left bit-identical:
    /// restoring full brightness later reproduces the exact colors with
    /// no animation redraw.
    pub fn set_brightness(&mut self, level: Option<u8>) -> (r: Result<(), Error<B::Error>>)
        requires
            old(self).wf(),
            level matches Some(l) ==> l >= 1,
        ensures
            final(self).wf(),
            final(self).brightness_spec() == level,
            final(self).backend_spec() == old(self).backend_spec(),
            final(self).animation_spec() == old(self).animation_spec(),
            final(self).cycle_time_spec() == old(self).cycle_time_spec(),
            final(self).frame_rate_spec() == old(self).frame_rate_spec(),
            final(self).tick_spec() == old(self).tick_spec(),
            r matches Err(e) ==> e is Driver,
    {
        self.brightness = level;
        let frame = self.backend.read_buf();
        self.draw(frame)
    }

    /// How long to sleep before the next tick at time `now_ms`: the
    /// frame interval minus the time the last draw already used up,
    /// floored at zero.  The loop's period thereby converges to the
    /// frame interval regardless of how long each draw takes.
    pub fn sleep_duration(&self, now_ms: u64) -> (d: u64)
        ensures
            d == self.sleep_spec(now_ms),
    {
        let elapsed: u64 = if now_ms >= self.tick_ms {
            now_ms - self.tick_ms
        } else {
            0
        };
        if elapsed >= self.cycle_time_ms {
            0
        } else {
            self.cycle_time_ms - elapsed
        }
    }

    /// One scheduled tick at time `now_ms`.  If the animation's own
    /// interval has not elapsed yet, nothing at all happens and `false`
    /// comes back.  Otherwise the tick is recorded, the animation
    /// updates the buffer, and the frame goes to the driver; a driver
    /// failure is returned, never swallowed.
    pub fn tick_once(&mut self, now_ms: u64) -> (r: Result<bool, Error<B::Error>>)
        requires
            old(self).wf(),
        ensures
            final(self).wf(),
            old(self).skip_at(now_ms) ==> (r matches Ok(k) && k == false && *final(self)
                == *old(self)),
            !old(self).skip_at(now_ms) ==> {
                &&& crate::led::same_shape(&old(self).backend_spec(), &final(self).backend_spec())
                &&& final(self).tick_spec() == now_ms
                &&& final(self).brightness_spec() == old(self).brightness_spec()
                &&& final(self).cycle_time_spec() == old(self).cycle_time_spec()
                &&& final(self).frame_rate_spec() == old(self).frame_rate_spec()
                &&& (r matches Ok(k) ==> k == true)
            },
            r matches Err(e) ==> e is Driver,
    {
        if let Some(step) = self.frame_rate_ms {
            if now_ms < self.tick_ms || step > now_ms - self.tick_ms {
                return Ok(false);
            }
        }
        self.tick_ms = now_ms;
        self.animation.update(now_ms, &mut self.backend);
        let frame = self.backend.read_buf();
        match self.draw(frame) {
            Ok(()) => Ok(true),
            Err(e) => Err(e),
        }
    }
}

/// A driver that performs no I/O and keeps every frame it was handed,
/// oldest first: the in-memory stand-in for a pixel-push driver, for
/// tests and simulations.
pub struct RecordingDriver {
    /// All frames written so far.
    pub frames: Vec<Vec<Rgb8>>,
}

impl RecordingDriver {
    pub fn new() -> (d: RecordingDriver)
        ensures
            d.frames@.len() == 0,
    {
        RecordingDriver { frames: Vec::new() }
    }
}

impl WriteLeds for RecordingDriver {
    type Error = ();

    type Color = Rgb8;

    fn write(&mut self, buf: &[Rgb8]) -> (r: Result<(), ()>)
        ensures
            final(self).frames@.len() == old(self).frames@.len() + 1,
            final(self).frames@.last()@ == buf@,
            final(self).frames@.subrange(0, old(self).frames@.len() as int) == old(self).frames@,
            r is Ok,
    {
        let frame = vstd::slice::slice_to_vec(buf);
        self.frames.push(frame);
        proof {
            assert(final(self).frames@.subrange(0, old(self).frames@.len() as int) =~= old(self).frames@);
        }
        Ok(())
    }
}

/// A flat matrix backend with row-major wiring: logical `(x, y)` sits at
/// physical offset `y * X + x`.  Dimensions are chosen at construction,
/// so tests and boards of any size share one implementation; a board
/// whose routing differs supplies its own `LedMatrix` implementation
/// instead.
pub struct GridMatrix<D: WriteLeds<Color = Rgb8>> {
    x: usize,
    y: usize,
    area: usize,
    pixels: Vec<Rgb8>,
    marker: PhantomData<D>,
}

impl<D: WriteLeds<Color = Rgb8>> GridMatrix<D> {
    /// A matrix of `x` by `y` pixels, all black.
    pub fn new(x: usize, y: usize) -> (m: GridMatrix<D>)
        requires
            x * y <= usize::MAX,
        ensures
            m.wf(),
            m.x_spec() == x,
            m.y_spec() == y,
            m.z_spec() == 0,
            m.area_spec() == x * y,
            m.buf_spec().len() == x * y,
            forall|i: int|
                0 <= i < m.buf_spec().len() ==> m.buf_spec()[i] == (Rgb8 { r: 0, g: 0, b: 0 }),
            forall|cx: int, cy: int| #[trigger] m.offset_spec(cx, cy) == cy * x + cx,
    {
        proof {
            assert(x * y >= 0) by (nonlinear_arith)
                requires
                    x >= 0,
                    y >= 0,
            ;
        }
        let area: usize = x * y;
        let mut pixels: Vec<Rgb8> = Vec::new();
        let mut i: usize = 0;
        while i < area
            invariant
                i <= area,
                pixels@.len() == i,
                forall|j: int| 0 <= j < i ==> pixels@[j] == (Rgb8 { r: 0, g: 0, b: 0 }),
            decreases area - i,
        {
            pixels.push(Rgb8 { r: 0, g: 0, b: 0 });
            i = i + 1;
        }
        GridMatrix { x, y, area, pixels, marker: PhantomData }
    }
}

impl<D: WriteLeds<Color = Rgb8>> LedMatrix for GridMatrix<D> {
    type Driver = D;

    closed spec fn x_spec(&self) -> usize {
        self.x
    }

    closed spec fn y_spec(&self) -> usize {
        self.y
    }

    closed spec fn z_spec(&self) -> usize {
        0
    }

    closed spec fn area_spec(&self) -> usize {
        self.area
    }

    closed spec fn volume_spec(&self) -> usize {
        0
    }

    closed spec fn buf_spec(&self) -> Seq<Rgb8> {
        self.pixels@
    }

    closed spec fn offset_spec(&self, x: int, y: int) -> int {
        y * self.x + x
    }

    closed spec fn wf(&self) -> bool {
        self.area == self.x * self.y && self.pixels@.len() == self.area
    }

    proof fn lemma_wf(&self) {
        assert(self.area_spec() * 0 == 0) by (nonlinear_arith);
        assert forall|x: int, y: int|
            0 <= x < self.x_spec() && 0 <= y < self.y_spec() implies 0 <= #[trigger] self
            .offset_spec(x, y) < self.area_spec() by {
            assert(0 <= y * self.x + x < self.x * self.y) by (nonlinear_arith)
                requires
                    0 <= x < self.x,
                    0 <= y < self.y,
            ;
        }
        assert forall|x1: int, y1: int, x2: int, y2: int|
            0 <= x1 < self.x_spec() && 0 <= y1 < self.y_spec() && 0 <= x2 < self.x_spec() && 0 <= y2
            < self.y_spec() && !(x1 == x2 && y1 == y2) implies #[trigger] self.offset_spec(x1, y1)
            != #[trigger] self.offset_spec(x2, y2) by {
            assert(y1 * self.x + x1 != y2 * self.x + x2) by (nonlinear_arith)
                requires
                    0 <= x1 < self.x,
                    0 <= x2 < self.x,
                    !(x1 == x2 && y1 == y2),
            ;
        }
    }

    fn x(&self) -> usize {
        self.x
    }

    fn y(&self) -> usize {
        self.y
    }

    fn z(&self) -> usize {
        0
    }

    fn area(&self) -> usize {
        self.area
    }

    fn volume(&self) -> usize {
        0
    }

    fn read_buf(&self) -> (out: Vec<Rgb8>) {
        let out = vstd::slice::slice_to_vec(self.pixels.as_slice());
        out
    }

    fn set_buf(&mut self, buf: &[Rgb8]) -> (ok: bool) {
        if buf.len() == self.area {
            self.pixels = vstd::slice::slice_to_vec(buf);
            true
        } else {
            false
        }
    }

    fn set_2d(&mut self, x: usize, y: usize, color: &Rgb8) {
        proof {
            assert(0 <= y * self.x + x < self.x * self.y) by (nonlinear_arith)
                requires
                    0 <= x < self.x,
                    0 <= y < self.y,
            ;
        }
        let idx: usize = y * self.x + x;
        self.pixels.set(idx, *color);
    }
}

} // verus!
