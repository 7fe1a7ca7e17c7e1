use lux_camp_badge::led::hsv_rgb_convert::{Hsv8, Rgb8};
use lux_camp_badge::led::matrix::RecordingDriver;
use lux_camp_badge::led_matrix::{Animations, LedMatrix, LedState};
use lux_camp_badge::rgb2hsv::hsv2rgb;

fn fresh_matrix() -> LedMatrix<RecordingDriver> {
    LedMatrix::new(RecordingDriver::new(), 5, 5)
}

#[test]
fn new_matrix_starts_black() {
    let mut m = fresh_matrix();
    assert_eq!(m.led_rows(), 5);
    assert_eq!(m.led_columns(), 5);
    for y in 0..5 {
        for x in 0..5 {
            assert_eq!(m.get_pixel(x, y), Rgb8::new(0, 0, 0));
        }
    }
}

#[test]
fn set_pixel_and_get_pixel_agree() {
    let mut m = fresh_matrix();
    m.set_pixel(3, 2, Rgb8::new(7, 8, 9));
    assert_eq!(m.get_pixel(3, 2), Rgb8::new(7, 8, 9));
    assert_eq!(m.get_pixel(2, 3), Rgb8::new(0, 0, 0));
}

#[test]
fn set_all_pixel_fills_the_matrix() {
    let mut m = fresh_matrix();
    m.set_all_pixel(Rgb8::new(1, 2, 3));
    for y in 0..5 {
        for x in 0..5 {
            assert_eq!(m.get_pixel(x, y), Rgb8::new(1, 2, 3));
        }
    }
}

#[test]
fn off_state_leaves_the_matrix_alone() {
    let mut m = fresh_matrix();
    let state = LedState::new(0).set_off();
    let state = state.tick(1000, &mut m).unwrap();
    assert!(matches!(state, LedState::Off));
    let state = state.tick(5000, &mut m).unwrap();
    assert!(matches!(state, LedState::Off));
}

#[test]
fn rainbow_waits_a_hundred_milliseconds_between_frames() {
    let mut m = fresh_matrix();
    let state = LedState::new(0).set_animation(Animations::Rainbow, 0);
    // 100 ms have not passed: nothing is drawn, nothing advances.
    let state = state.tick(100, &mut m).unwrap();
    match state {
        LedState::Animation { frame, last_tick, .. } => {
            assert_eq!(frame, 0);
            assert_eq!(last_tick, 0);
        },
        LedState::Off => panic!("state must stay an animation"),
    }
    assert_eq!(m.get_pixel(0, 0), Rgb8::new(0, 0, 0));

    // Once they have, the uniform rainbow frame appears and the state
    // advances by 5.
    let state = state.tick(101, &mut m).unwrap();
    match state {
        LedState::Animation { frame, last_tick, .. } => {
            assert_eq!(frame, 5);
            assert_eq!(last_tick, 101);
        },
        LedState::Off => panic!("state must stay an animation"),
    }
    let expected = hsv2rgb(Hsv8::new(0, 255, 25));
    for y in 0..5 {
        for x in 0..5 {
            assert_eq!(m.get_pixel(x, y), expected);
        }
    }
}

#[test]
fn rainbow_slide_shifts_the_hue_per_pixel() {
    let mut m = fresh_matrix();
    let state = LedState::new(0);
    let state = state.tick(200, &mut m).unwrap();
    match state {
        LedState::Animation { animation, frame, last_tick } => {
            assert!(matches!(animation, Animations::RainbowSlide));
            assert_eq!(frame, 5);
            assert_eq!(last_tick, 200);
        },
        LedState::Off => panic!("state must stay an animation"),
    }
    for i in 0..25u16 {
        let x = (i % 5) as u8;
        let y = (i / 5) as u8;
        let hue = ((i * 5) % 255) as u8;
        assert_eq!(m.get_pixel(x, y), hsv2rgb(Hsv8::new(hue, 255, 25)));
    }
}
