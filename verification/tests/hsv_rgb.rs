use lux_camp_badge::led::hsv_rgb_convert::{Hsv2Rgb, Hsv8, Rgb2Hsv, Rgb8};
use lux_camp_badge::led::Dimmable;
use lux_camp_badge::rgb2hsv::{hsv2rgb, rgb2hsv};

fn distance(i: u8, j: u8) -> u8 {
    if i < j {
        j - i
    } else {
        i - j
    }
}

fn rgb_table() -> [Rgb8; 16] {
    [
        Rgb8 { r: 255, g: 0, b: 0 },
        Rgb8 { r: 255, g: 127, b: 0 },
        Rgb8 { r: 255, g: 255, b: 0 },
        Rgb8 { r: 127, g: 255, b: 0 },
        Rgb8 { r: 0, g: 255, b: 0 },
        Rgb8 { r: 0, g: 255, b: 127 },
        Rgb8 { r: 0, g: 255, b: 255 },
        Rgb8 { r: 0, g: 127, b: 255 },
        Rgb8 { r: 0, g: 0, b: 255 },
        Rgb8 { r: 127, g: 0, b: 255 },
        Rgb8 { r: 255, g: 0, b: 255 },
        Rgb8 { r: 255, g: 0, b: 127 },
        Rgb8 { r: 255, g: 0, b: 0 },
        Rgb8 { r: 19, g: 35, b: 29 },
        Rgb8 { r: 137, g: 137, b: 136 },
        Rgb8 { r: 4, g: 41, b: 8 },
    ]
}

fn hsv_table() -> [Hsv8; 16] {
    [
        Hsv8 { hue: 0, sat: 255, val: 255 },
        Hsv8 { hue: 21, sat: 255, val: 255 },
        Hsv8 { hue: 42, sat: 255, val: 255 },
        Hsv8 { hue: 64, sat: 255, val: 255 },
        Hsv8 { hue: 85, sat: 255, val: 255 },
        Hsv8 { hue: 106, sat: 255, val: 255 },
        Hsv8 { hue: 127, sat: 255, val: 255 },
        Hsv8 { hue: 149, sat: 255, val: 255 },
        Hsv8 { hue: 170, sat: 255, val: 255 },
        Hsv8 { hue: 191, sat: 255, val: 255 },
        Hsv8 { hue: 212, sat: 255, val: 255 },
        Hsv8 { hue: 234, sat: 255, val: 255 },
        Hsv8 { hue: 255, sat: 255, val: 255 },
        Hsv8 { hue: 111, sat: 123, val: 35 },
        Hsv8 { hue: 21, sat: 3, val: 138 },
        Hsv8 { hue: 89, sat: 230, val: 42 },
    ]
}

#[test]
fn test_identity() {
    assert_eq!(hsv2rgb(rgb2hsv(Rgb8::new(255, 0, 0))), Rgb8::new(255, 0, 0));
    assert_eq!(hsv2rgb(rgb2hsv(Rgb8::new(0, 255, 0))), Rgb8::new(0, 255, 0));
    assert_eq!(hsv2rgb(rgb2hsv(Rgb8::new(0, 0, 255))), Rgb8::new(0, 0, 255));
}

#[test]
fn test_hsv2rgb_1() {
    let rgb = rgb_table();
    let hsv = hsv_table();
    for i in 0..hsv.len() {
        let new_hsv = <Hsv8 as Hsv2Rgb>::hsv2rgb(hsv[i]);
        assert!(distance(new_hsv.r, rgb[i].r) < 4);
        assert!(distance(new_hsv.g, rgb[i].g) < 4);
        assert!(distance(new_hsv.b, rgb[i].b) < 4);
    }
}

#[test]
// if sat == 0 then all colors are equal
fn test_hsv2rgb_2() {
    for i in 0..=255 {
        let rgb = <Hsv8 as Hsv2Rgb>::hsv2rgb(Hsv8 { hue: i, sat: 0, val: 42 });
        assert!(rgb.r == rgb.b);
        assert!(rgb.b == rgb.g);
    }
}

#[test]
fn identity() {
    // The round trip is lossy for arbitrary colors: quantizing to bytes
    // moves a channel by up to 4.  The saturated primaries sit in sector
    // middles and survive unchanged.
    for c in rgb_table() {
        let back = <Hsv8 as Hsv2Rgb>::hsv2rgb(<Rgb8 as Rgb2Hsv>::rgb2hsv(c));
        assert!(distance(back.r, c.r) <= 4);
        assert!(distance(back.g, c.g) <= 4);
        assert!(distance(back.b, c.b) <= 4);
    }
    for c in [Rgb8::new(255, 0, 0), Rgb8::new(0, 255, 0), Rgb8::new(0, 0, 255)] {
        assert_eq!(<Hsv8 as Hsv2Rgb>::hsv2rgb(<Rgb8 as Rgb2Hsv>::rgb2hsv(c)), c);
    }
}

#[test]
fn round_trip_bound_is_tight() {
    // An extreme case of the quantization: one channel moves by exactly
    // 4, the proven worst case.
    let c = Rgb8::new(11, 58, 246);
    let back = hsv2rgb(rgb2hsv(c));
    assert_eq!(back, Rgb8::new(10, 54, 246));
}

#[test]
fn round_trip_near_red_stays_close() {
    // A color one sliver of green away from pure red keeps that sliver
    // to within one.
    let c = Rgb8::new(255, 5, 0);
    let back = hsv2rgb(rgb2hsv(c));
    assert_eq!(back, Rgb8::new(255, 6, 0));
}

#[test]
fn secondaries_quantize_within_three() {
    let pairs = [
        (Rgb8::new(255, 255, 0), Rgb8::new(252, 255, 0)),
        (Rgb8::new(0, 255, 255), Rgb8::new(0, 252, 255)),
        (Rgb8::new(255, 0, 255), Rgb8::new(255, 0, 252)),
    ];
    for (c, expected) in pairs {
        assert_eq!(hsv2rgb(rgb2hsv(c)), expected);
    }
}

#[test]
fn gray_and_black_round_trip_exactly() {
    for v in [0u8, 1, 42, 137, 255] {
        let c = Rgb8::new(v, v, v);
        let h = rgb2hsv(c);
        assert_eq!(h.hue, 0);
        assert_eq!(h.sat, 0);
        assert_eq!(h.val, v);
        assert_eq!(hsv2rgb(h), c);
    }
}

#[test]
fn known_conversions() {
    let h = rgb2hsv(Rgb8::new(255, 127, 0));
    assert_eq!((h.hue, h.sat, h.val), (21, 255, 255));
    let h = rgb2hsv(Rgb8::new(19, 35, 29));
    assert_eq!((h.hue, h.sat, h.val), (112, 117, 35));
    let h = rgb2hsv(Rgb8::new(137, 137, 136));
    assert_eq!((h.hue, h.sat, h.val), (43, 2, 137));
}

#[test]
fn dimm_divides_every_channel() {
    let mut c = Rgb8::new(200, 100, 50);
    c.dimm(2);
    assert_eq!(c, Rgb8::new(100, 50, 25));
    let mut c = Rgb8::new(201, 101, 51);
    c.dimm(100);
    assert_eq!(c, Rgb8::new(2, 1, 0));
    let mut h = Hsv8::new(10, 20, 200);
    h.dimm(4);
    assert_eq!(h, Hsv8::new(10, 20, 50));
}
