use lux_camp_badge::led::hsv_rgb_convert::{Hsv8, Rgb8};
use lux_camp_badge::led::matrix::{GridMatrix, RecordingDriver};
use lux_camp_badge::led::{Animation, LedMatrix};
use lux_camp_badge::noise::PerlinAnimation;
use lux_camp_badge::noise_animation::PerlinAnimation as NoiseFlicker;
use lux_camp_badge::rainbow::{Fade, Slide};
use lux_camp_badge::random::{Flip, P30};
use lux_camp_badge::rgb2hsv::hsv2rgb;
use lux_camp_badge::scene::Static;
use lux_camp_badge::static_scene::Scene;

type TestMatrix = GridMatrix<RecordingDriver>;

fn black() -> Rgb8 {
    Rgb8::new(0, 0, 0)
}

#[test]
fn fade_paints_the_whole_screen_in_one_color() {
    let mut m: TestMatrix = GridMatrix::new(4, 4);
    let mut fade = Fade::build(10, None);
    assert_eq!(fade.init(&mut m), None);
    fade.update(0, &mut m);
    let expected = hsv2rgb(Hsv8::new(10, 255, 255));
    assert_eq!(m.read_buf(), vec![expected; 16]);
    fade.update(0, &mut m);
    let expected = hsv2rgb(Hsv8::new(20, 255, 255));
    assert_eq!(m.read_buf(), vec![expected; 16]);
}

#[test]
fn slide_offsets_neighbouring_pixels() {
    let mut m: TestMatrix = GridMatrix::new(4, 4);
    let mut slide = Slide::build(5, Some(30));
    assert_eq!(slide.init(&mut m), Some(30));
    slide.update(0, &mut m);
    let buf = m.read_buf();
    for (i, pixel) in buf.iter().enumerate() {
        let hue = 5u8.wrapping_add((i as u8).wrapping_mul(5));
        assert_eq!(*pixel, hsv2rgb(Hsv8::new(hue, 255, 255)));
    }
}

#[test]
fn p30_rate_is_between_100_and_1000_ms() {
    for seed in 0..20 {
        let mut m: TestMatrix = GridMatrix::new(3, 3);
        let mut a = P30::build(seed);
        let rate = a.init(&mut m).unwrap();
        assert!((100..1000).contains(&rate));
    }
}

#[test]
fn p30_is_deterministic_in_its_seed() {
    let mut m1: TestMatrix = GridMatrix::new(4, 4);
    let mut m2: TestMatrix = GridMatrix::new(4, 4);
    let mut a1 = P30::build(7);
    let mut a2 = P30::build(7);
    a1.init(&mut m1);
    a2.init(&mut m2);
    a1.update(0, &mut m1);
    a2.update(0, &mut m2);
    assert_eq!(m1.read_buf(), m2.read_buf());
}

#[test]
fn flip_pixels_are_either_off_or_the_one_color() {
    let mut m: TestMatrix = GridMatrix::new(5, 5);
    let mut a = Flip::build(3);
    assert_eq!(a.init(&mut m), Some(1000));
    for round in 0..10 {
        a.update(round, &mut m);
        let buf = m.read_buf();
        let lit: Vec<&Rgb8> = buf.iter().filter(|c| **c != black()).collect();
        for c in &lit {
            assert_eq!(**c, *lit[0]);
        }
    }
}

#[test]
fn perlin_redraws_uniformly_every_250_ms() {
    let mut m: TestMatrix = GridMatrix::new(4, 4);
    let mut a = PerlinAnimation::build(4, 4);
    assert_eq!(a.init(&mut m), Some(250));
    a.update(0, &mut m);
    let buf = m.read_buf();
    for pixel in &buf {
        assert_eq!(*pixel, buf[0]);
    }
}

#[test]
fn noise_flicker_rate_is_between_100_and_1000_ms() {
    for seed in 0..10 {
        let mut m: TestMatrix = GridMatrix::new(3, 3);
        let mut a = NoiseFlicker::build(seed);
        let rate = a.init(&mut m).unwrap();
        assert!((100..1000).contains(&rate));
    }
}

#[test]
fn static_scene_covers_only_its_grid() {
    let mut m: TestMatrix = GridMatrix::new(3, 2);
    let mut scene = Static(vec![vec![Rgb8::new(1, 2, 3); 2]]);
    assert_eq!(scene.init(&mut m), Some(u64::MAX));
    let buf = m.read_buf();
    // Row 0, columns 0 and 1 are painted; everything else stays black.
    assert_eq!(buf[0], Rgb8::new(1, 2, 3));
    assert_eq!(buf[1], Rgb8::new(1, 2, 3));
    assert_eq!(buf[2], black());
    assert_eq!(buf[3], black());
    assert_eq!(buf[4], black());
    assert_eq!(buf[5], black());
}

#[test]
fn default_scene_paints_nothing() {
    let mut m: TestMatrix = GridMatrix::new(2, 2);
    m.set_2d(0, 0, &Rgb8::new(9, 9, 9));
    let mut scene: Scene<Rgb8> = Scene::default();
    assert_eq!(scene.init(&mut m), Some(u64::MAX));
    assert_eq!(m.read_buf()[0], Rgb8::new(9, 9, 9));
}
