use std::cell::RefCell;
use std::rc::Rc;

use lux_camp_badge::led::hsv_rgb_convert::Rgb8;
use lux_camp_badge::led::matrix::{Error, GridMatrix, Matrix, RecordingDriver};
use lux_camp_badge::led::{Animation, LedMatrix, WriteLeds};
use lux_camp_badge::scene::Static;

type TestMatrix = GridMatrix<RecordingDriver>;

fn red() -> Rgb8 {
    Rgb8::new(25, 0, 0)
}

#[test]
fn write_all_rejects_wrong_length_and_keeps_buffer() {
    let mut m: TestMatrix = GridMatrix::new(5, 5);
    assert!(m.set_buf(&vec![red(); 25]));
    let before = m.read_buf();

    assert!(!m.set_buf(&vec![red(); 24]));
    assert_eq!(m.read_buf(), before);
    assert!(!m.set_buf(&vec![red(); 26]));
    assert_eq!(m.read_buf(), before);
    assert!(!m.set_buf(&Vec::new()));
    assert_eq!(m.read_buf(), before);
}

#[test]
fn set_2d_uses_row_major_wiring() {
    let mut m: TestMatrix = GridMatrix::new(5, 5);
    m.set_2d(1, 2, &Rgb8::new(9, 8, 7));
    let buf = m.read_buf();
    assert_eq!(buf[2 * 5 + 1], Rgb8::new(9, 8, 7));
    assert_eq!(buf.iter().filter(|c| **c == Rgb8::new(9, 8, 7)).count(), 1);
}

#[test]
fn geometry_is_cached_at_construction() {
    let m: TestMatrix = GridMatrix::new(5, 4);
    assert_eq!(m.x(), 5);
    assert_eq!(m.y(), 4);
    assert_eq!(m.z(), 0);
    assert_eq!(m.area(), 20);
    assert_eq!(m.read_buf().len(), 20);
}

#[test]
fn build_pushes_exactly_one_frame_of_the_initial_scene() {
    let m: TestMatrix = GridMatrix::new(5, 5);
    let matrix = Matrix::new(m)
        .animation(Static::filled(5, 5, red()))
        .build(RecordingDriver::new(), 0)
        .unwrap();
    let frames = &matrix.driver_ref().frames;
    assert_eq!(frames.len(), 1);
    assert_eq!(frames[0], vec![red(); 25]);
}

#[test]
fn driver_failure_is_surfaced_not_swallowed() {
    struct FailingDriver;

    impl WriteLeds for FailingDriver {
        type Error = &'static str;
        type Color = Rgb8;

        fn write(&mut self, _buf: &[Rgb8]) -> Result<(), &'static str> {
            Err("link down")
        }
    }

    let m: GridMatrix<FailingDriver> = GridMatrix::new(2, 2);
    let r = Matrix::new(m).animation(Static::filled(2, 2, red())).build(FailingDriver, 0);
    assert!(matches!(r, Err(Error::Driver("link down"))));
}

/// An animation that reports its calls into shared counters.
struct Counting {
    init_calls: Rc<RefCell<u32>>,
    update_calls: Rc<RefCell<u32>>,
    rate: Option<u64>,
}

impl Counting {
    fn new(rate: Option<u64>) -> (Self, Rc<RefCell<u32>>, Rc<RefCell<u32>>) {
        let init_calls = Rc::new(RefCell::new(0));
        let update_calls = Rc::new(RefCell::new(0));
        let a = Counting { init_calls: init_calls.clone(), update_calls: update_calls.clone(), rate };
        (a, init_calls, update_calls)
    }
}

impl Animation<TestMatrix> for Counting {
    fn init(&mut self, _matrix: &mut TestMatrix) -> Option<u64> {
        *self.init_calls.borrow_mut() += 1;
        self.rate
    }

    fn update(&mut self, _tick: u64, matrix: &mut TestMatrix) {
        *self.update_calls.borrow_mut() += 1;
        let n = (*self.update_calls.borrow() % 256) as u8;
        let area = matrix.area();
        let _ = matrix.set_buf(&vec![Rgb8::new(n, n, n); area]);
    }
}

#[test]
fn replacing_the_animation_stops_the_old_and_inits_the_new_once() {
    let (first, first_inits, first_updates) = Counting::new(None);
    let m: TestMatrix = GridMatrix::new(3, 3);
    let mut matrix = Matrix::new(m).animation(first).build(RecordingDriver::new(), 0).unwrap();
    assert_eq!(*first_inits.borrow(), 1);
    assert_eq!(*first_updates.borrow(), 0);

    matrix.tick_once(40).unwrap();
    matrix.tick_once(80).unwrap();
    assert_eq!(*first_updates.borrow(), 2);

    let (second, second_inits, second_updates) = Counting::new(None);
    matrix.set_animation(second).unwrap();
    // The new animation was initialized exactly once, before any update.
    assert_eq!(*second_inits.borrow(), 1);
    assert_eq!(*second_updates.borrow(), 0);

    matrix.tick_once(120).unwrap();
    matrix.tick_once(160).unwrap();
    // The old animation receives no further calls.
    assert_eq!(*first_updates.borrow(), 2);
    assert_eq!(*first_inits.borrow(), 1);
    assert_eq!(*second_updates.borrow(), 2);
}

#[test]
fn brightness_never_touches_the_stored_buffer() {
    let m: TestMatrix = GridMatrix::new(5, 5);
    let stored = Rgb8::new(200, 100, 50);
    let mut matrix = Matrix::new(m)
        .animation(Static::filled(5, 5, stored))
        .build(RecordingDriver::new(), 0)
        .unwrap();
    assert_eq!(matrix.buffer(), vec![stored; 25]);

    matrix.set_brightness(Some(2)).unwrap();
    let frames = &matrix.driver_ref().frames;
    assert_eq!(frames.last().unwrap(), &vec![Rgb8::new(100, 50, 25); 25]);
    // The stored buffer is bit-identical.
    assert_eq!(matrix.buffer(), vec![stored; 25]);

    // Restoring full brightness reproduces the colors exactly, with no
    // animation redraw in between.
    matrix.set_brightness(None).unwrap();
    let frames = &matrix.driver_ref().frames;
    assert_eq!(frames.last().unwrap(), &vec![stored; 25]);
}

#[test]
fn animations_own_interval_skips_ticks() {
    let (paced, _inits, updates) = Counting::new(Some(250));
    let m: TestMatrix = GridMatrix::new(3, 3);
    let mut matrix = Matrix::new(m).animation(paced).build(RecordingDriver::new(), 0).unwrap();
    let pushes_after_build = matrix.driver_ref().frames.len();

    // 100 ms after the last applied tick: skipped entirely.
    assert!(!matrix.tick_once(100).unwrap());
    assert_eq!(*updates.borrow(), 0);
    assert_eq!(matrix.driver_ref().frames.len(), pushes_after_build);

    // 300 ms after: applied.
    assert!(matrix.tick_once(300).unwrap());
    assert_eq!(*updates.borrow(), 1);
    assert_eq!(matrix.driver_ref().frames.len(), pushes_after_build + 1);

    // Only 200 ms since the applied tick at 300: skipped again.
    assert!(!matrix.tick_once(500).unwrap());
    assert_eq!(*updates.borrow(), 1);
}

#[test]
fn pacing_converges_to_the_frame_interval() {
    let (anim, _inits, _updates) = Counting::new(None);
    let m: TestMatrix = GridMatrix::new(3, 3);
    let mut matrix = Matrix::new(m)
        .fps(25)
        .animation(anim)
        .build(RecordingDriver::new(), 0)
        .unwrap();

    // Near-zero draw cost: the loop period is exactly the 40 ms frame
    // interval, with no drift over many ticks.
    let mut now: u64 = 0;
    for _ in 0..100 {
        now += matrix.sleep_duration(now);
        matrix.tick_once(now).unwrap();
    }
    assert_eq!(now, 100 * 40);

    // A constant draw cost below the interval does not stretch the
    // period: the sleep self-corrects.
    let mut now: u64 = 0;
    let draw_cost: u64 = 7;
    for _ in 0..100 {
        now += matrix.sleep_duration(now);
        matrix.tick_once(now).unwrap();
        now += draw_cost;
    }
    assert_eq!(now, 100 * 40 + draw_cost);
}

#[test]
fn set_3d_on_a_flat_matrix_falls_back_to_set_2d() {
    let mut m: TestMatrix = GridMatrix::new(4, 4);
    m.set_3d(1, 2, 3, &Rgb8::new(5, 6, 7));
    assert_eq!(m.read_buf()[2 * 4 + 1], Rgb8::new(5, 6, 7));
}

#[test]
fn default_frame_rate_is_24_fps() {
    let (anim, _inits, _updates) = Counting::new(None);
    let m: TestMatrix = GridMatrix::new(2, 2);
    let matrix = Matrix::new(m).animation(anim).build(RecordingDriver::new(), 0).unwrap();
    // 1000 ms / 24 frames, rounded down.
    assert_eq!(matrix.sleep_duration(0), 41);
}

#[test]
fn overrunning_draws_sleep_zero() {
    let (anim, _inits, _updates) = Counting::new(None);
    let m: TestMatrix = GridMatrix::new(3, 3);
    let mut matrix = Matrix::new(m)
        .fps(25)
        .animation(anim)
        .build(RecordingDriver::new(), 0)
        .unwrap();
    matrix.tick_once(10).unwrap();
    // 50 ms have already passed since the applied tick: no sleep at all.
    assert_eq!(matrix.sleep_duration(60), 0);
    // Right at the tick: a full interval.
    assert_eq!(matrix.sleep_duration(10), 40);
    // Halfway through: the remainder.
    assert_eq!(matrix.sleep_duration(30), 20);
}
