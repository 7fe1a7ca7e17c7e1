//! 8-bit HSV and RGB color values and the lossy conversions between them.
//!
//! Both conversions work on integer arithmetic scaled by 255, rounding to
//! the nearest byte on the way to HSV.  The round trip RGB -> HSV -> RGB
//! is lossy: quantization moves a channel by up to 4, never more (see
//! `lemma_round_trip_bound`).

use vstd::prelude::*;

verus! {

use vstd::arithmetic::div_mod::{
    lemma_fundamental_div_mod,
    lemma_fundamental_div_mod_converse,
    lemma_mod_division_less_than_divisor,
};

/// A color as three 8-bit channels. Equality is componentwise.
#[derive(Clone, Copy, Debug, PartialEq, Eq, Structural)]
pub struct Rgb8 {
    pub r: u8,
    pub g: u8,
    pub b: u8,
}

impl Rgb8 {
    pub fn new(r: u8, g: u8, b: u8) -> (c: Rgb8)
        ensures
            c.r == r,
            c.g == g,
            c.b == b,
    {
        Rgb8 { r, g, b }
    }
}

/// 8bit HSV value. Each channel is a fraction of 256 over its natural
/// range, so the hue wraps at 256 rather than 360.
#[derive(Clone, Copy, Debug, PartialEq, Eq, Structural)]
pub struct Hsv8 {
    pub hue: u8,
    pub sat: u8,
    pub val: u8,
}

impl Hsv8 {
    pub fn new(hue: u8, sat: u8, val: u8) -> (c: Hsv8)
        ensures
            c.hue == hue,
            c.sat == sat,
            c.val == val,
    {
        Hsv8 { hue, sat, val }
    }
}

impl Default for Hsv8 {
    fn default() -> (c: Hsv8)
        ensures
            c.hue == 0 && c.sat == 0 && c.val == 0,
    {
        Hsv8 { hue: 0, sat: 0, val: 0 }
    }
}

/// Position of a hue within its sector, scaled to 0..=252: the hue byte is
/// split into 6 sectors of width 42.5, so `hue * 2 % 85` runs over a
/// sector's double width and `* 3` rescales to (almost) a full byte.
pub open spec fn rel_interval(h: int) -> int {
    (h * 2 % 85) * 3
}

/// Chroma intermediate for the channel at the sector's low end.
pub open spec fn chroma_p(s: int, v: int) -> int {
    v * (255 - s) / 255
}

/// Chroma intermediate for the channel falling over the sector.
pub open spec fn chroma_q(s: int, v: int, f: int) -> int {
    v * (255 - s * f / 255) / 255
}

/// Chroma intermediate for the channel rising over the sector.
pub open spec fn chroma_t(s: int, v: int, f: int) -> int {
    v * (255 - s * (255 - f) / 255) / 255
}

/// The HSV -> RGB conversion on unbounded integers: one (r, g, b)
/// assignment of `v` and two chroma intermediates per hue sector.
pub open spec fn hsv_to_rgb_spec(h: int, s: int, v: int) -> (int, int, int) {
    let f = rel_interval(h);
    let p = chroma_p(s, v);
    let q = chroma_q(s, v, f);
    let t = chroma_t(s, v, f);
    if h <= 42 {
        (v, t, p)
    } else if h <= 84 {
        (q, v, p)
    } else if h <= 127 {
        (p, v, t)
    } else if h <= 169 {
        (p, q, v)
    } else if h <= 212 {
        (t, p, v)
    } else if h <= 254 {
        (v, p, q)
    } else {
        (v, t, p)
    }
}

/// Convert HSV values into RGB values.
pub trait Hsv2Rgb {
    type Rgb;

    type Hsv;

    fn hsv2rgb(hsv: Self::Hsv) -> Self::Rgb;
}

/// Convert RGB values into HSV values.
pub trait Rgb2Hsv {
    type Rgb;

    type Hsv;

    fn rgb2hsv(rgb: Self::Rgb) -> Self::Hsv;
}

/// The products behind the chroma intermediates stay under 255 * 255 and
/// the intermediates themselves stay under 255, so the conversion can run
/// in 16-bit arithmetic.
proof fn lemma_scaled_product_bounds(s: int, v: int, f: int)
    requires
        0 <= s <= 255,
        0 <= v <= 255,
        0 <= f <= 255,
    ensures
        0 <= v * (255 - s) <= 255 * 255,
        0 <= s * f <= 255 * 255,
        0 <= s * (255 - f) <= 255 * 255,
        0 <= v * (255 - s * f / 255) <= 255 * 255,
        0 <= v * (255 - s * (255 - f) / 255) <= 255 * 255,
        chroma_p(s, v) <= 255,
        chroma_q(s, v, f) <= 255,
        chroma_t(s, v, f) <= 255,
        0 <= chroma_p(s, v),
        0 <= chroma_q(s, v, f),
        0 <= chroma_t(s, v, f),
{
    assert(0 <= s * f <= 255 * 255) by (nonlinear_arith)
        requires
            0 <= s <= 255,
            0 <= f <= 255,
    ;
    assert(0 <= s * (255 - f) <= 255 * 255) by (nonlinear_arith)
        requires
            0 <= s <= 255,
            0 <= f <= 255,
    ;
    assert(0 <= s * f / 255 <= 255 && 0 <= s * (255 - f) / 255 <= 255) by (nonlinear_arith)
        requires
            0 <= s * f <= 255 * 255,
            0 <= s * (255 - f) <= 255 * 255,
    ;
    lemma_shrinking_ratio(v, 255 - s);
    lemma_shrinking_ratio(v, 255 - s * f / 255);
    lemma_shrinking_ratio(v, 255 - s * (255 - f) / 255);
}

/// For channels `v` and `w` of at most 255, `v * w` fits 16 bits and
/// `v * w / 255` is again a channel, at most `v` itself.
proof fn lemma_shrinking_ratio(v: int, w: int)
    requires
        0 <= v <= 255,
        0 <= w <= 255,
    ensures
        0 <= v * w <= 255 * 255,
        0 <= v * w / 255 <= v,
{
    assert(0 <= v * w <= v * 255 <= 255 * 255) by (nonlinear_arith)
        requires
            0 <= v <= 255,
            0 <= w <= 255,
    ;
    assert(0 <= v * w / 255 <= v) by (nonlinear_arith)
        requires
            0 <= v * w <= v * 255,
    ;
}

/// Converts a hsv value into RGB values, exactly as `hsv_to_rgb_spec` says.
/// Because the hsv values are integers, the precision of a round trip
/// through `rgb_to_hsv_exec` is limited (see `lemma_round_trip_bound`).
/// When the saturation is 0 all three output channels equal the value:
/// the color is achromatic, whatever the hue.
pub fn hsv_to_rgb_exec(hsv: Hsv8) -> (rgb: Rgb8)
    ensures
        (rgb.r as int, rgb.g as int, rgb.b as int) == hsv_to_rgb_spec(
            hsv.hue as int,
            hsv.sat as int,
            hsv.val as int,
        ),
        hsv.sat == 0 ==> rgb.r == hsv.val && rgb.g == hsv.val && rgb.b == hsv.val,
{
    let v: u16 = hsv.val as u16;
    let s: u16 = hsv.sat as u16;
    let f: u16 = (hsv.hue as u16 * 2 % 85) * 3;  // relative interval

    proof {
        lemma_scaled_product_bounds(s as int, v as int, f as int);
    }
    let p_wide: u16 = v * (255 - s) / 255;
    let q_wide: u16 = v * (255 - (s * f) / 255) / 255;
    let t_wide: u16 = v * (255 - (s * (255 - f)) / 255) / 255;
    proof {
        if s == 0 {
            assert(v * 255 / 255 == v) by (nonlinear_arith)
                requires
                    0 <= v <= 255,
            ;
            assert(s * f == 0 && s * (255 - f) == 0) by (nonlinear_arith)
                requires
                    s == 0,
            ;
            assert(p_wide == v && q_wide == v && t_wide == v);
        }
    }
    let p: u8 = p_wide as u8;
    let q: u8 = q_wide as u8;
    let t: u8 = t_wide as u8;
    let va: u8 = v as u8;
    if hsv.hue <= 42 {
        Rgb8 { r: va, g: t, b: p }
    } else if hsv.hue <= 84 {
        Rgb8 { r: q, g: va, b: p }
    } else if hsv.hue <= 127 {
        Rgb8 { r: p, g: va, b: t }
    } else if hsv.hue <= 169 {
        Rgb8 { r: p, g: q, b: va }
    } else if hsv.hue <= 212 {
        Rgb8 { r: t, g: p, b: va }
    } else if hsv.hue <= 254 {
        Rgb8 { r: va, g: p, b: q }
    } else {
        Rgb8 { r: va, g: t, b: p }
    }
}

impl Hsv2Rgb for Hsv8 {
    type Rgb = Rgb8;

    type Hsv = Self;

    fn hsv2rgb(hsv: Self::Hsv) -> (rgb: Self::Rgb)
        ensures
            (rgb.r as int, rgb.g as int, rgb.b as int) == hsv_to_rgb_spec(
                hsv.hue as int,
                hsv.sat as int,
                hsv.val as int,
            ),
            hsv.sat == 0 ==> rgb.r == hsv.val && rgb.g == hsv.val && rgb.b == hsv.val,
    {
        hsv_to_rgb_exec(hsv)
    }
}

/// The largest of three channels.
pub open spec fn max3(r: int, g: int, b: int) -> int {
    if r >= g && r >= b {
        r
    } else if g >= b {
        g
    } else {
        b
    }
}

/// The smallest of three channels.
pub open spec fn min3(r: int, g: int, b: int) -> int {
    if r <= g && r <= b {
        r
    } else if g <= b {
        g
    } else {
        b
    }
}

/// Numerator of the hue as a fraction of the full turn: the turn is split
/// in 6 sectors of width `delta`, and the branch on the dominant channel
/// adds the sector offset (0, 2 or 4 sectors) to the position inside it.
/// Meaningful only when the channels are not all equal.
pub open spec fn hue_numerator(r: int, g: int, b: int) -> int {
    let mx = max3(r, g, b);
    let d = mx - min3(r, g, b);
    if mx == r {
        if g >= b {
            g - b
        } else {
            6 * d - (b - g)
        }
    } else if mx == g {
        b - r + 2 * d
    } else {
        r - g + 4 * d
    }
}

/// The RGB -> HSV conversion on unbounded integers: value is the largest
/// channel, saturation the spread over the largest channel, and hue the
/// position around the color wheel, each scaled by 255 and rounded to the
/// nearest byte (halves go up): `(510n + 6d) / (12d)` is `255n / (6d)`
/// plus one half, rounded down.  A gray or black input (no spread, or no
/// light) has hue 0.
pub open spec fn rgb_to_hsv_spec(r: int, g: int, b: int) -> (int, int, int) {
    let mx = max3(r, g, b);
    let d = mx - min3(r, g, b);
    let h = if d == 0 || mx == 0 {
        0
    } else {
        (510 * hue_numerator(r, g, b) + 6 * d) / (12 * d)
    };
    let s = if mx == 0 {
        0
    } else {
        (510 * d + mx) / (2 * mx)
    };
    (h, s, mx)
}

/// Converts an RGB value to HSV, exactly as `rgb_to_hsv_spec` says.
pub fn rgb_to_hsv_exec(rgb: Rgb8) -> (hsv: Hsv8)
    ensures
        (hsv.hue as int, hsv.sat as int, hsv.val as int) == rgb_to_hsv_spec(
            rgb.r as int,
            rgb.g as int,
            rgb.b as int,
        ),
{
    let r = rgb.r;
    let g = rgb.g;
    let b = rgb.b;
    let mx: u8 = if r >= g && r >= b {
        r
    } else if g >= b {
        g
    } else {
        b
    };
    let mn: u8 = if r <= g && r <= b {
        r
    } else if g <= b {
        g
    } else {
        b
    };
    let d: u8 = mx - mn;
    let hue: u8 = if d == 0 || mx == 0 {
        0
    } else {
        let dd: u32 = d as u32;
        let num: u32 = if mx == r {
            if g >= b {
                (g - b) as u32
            } else {
                6 * dd - (b - g) as u32
            }
        } else if mx == g {
            (b as u32 + 2 * dd) - r as u32
        } else {
            (r as u32 + 4 * dd) - g as u32
        };
        let h32: u32 = (510 * num + 6 * dd) / (12 * dd);
        proof {
            assert(num < 6 * dd);
            assert(h32 <= 255) by (nonlinear_arith)
                requires
                    h32 == (510 * (num as int) + 6 * (dd as int)) / (12 * (dd as int)),
                    0 <= num <= 6 * (dd as int) - 1,
                    1 <= dd,
            ;
        }
        h32 as u8
    };
    let sat: u8 = if mx == 0 {
        0
    } else {
        let s32: u32 = (510 * d as u32 + mx as u32) / (2 * mx as u32);
        proof {
            assert(s32 <= 255) by (nonlinear_arith)
                requires
                    s32 == (510 * (d as int) + mx) / (2 * (mx as int)),
                    0 <= d <= mx,
                    1 <= mx,
            ;
        }
        s32 as u8
    };
    Hsv8 { hue, sat, val: mx }
}

impl Rgb2Hsv for Rgb8 {
    type Rgb = Self;

    type Hsv = Hsv8;

    fn rgb2hsv(rgb: Self::Rgb) -> (hsv: Self::Hsv)
        ensures
            (hsv.hue as int, hsv.sat as int, hsv.val as int) == rgb_to_hsv_spec(
                rgb.r as int,
                rgb.g as int,
                rgb.b as int,
            ),
    {
        rgb_to_hsv_exec(rgb)
    }
}

/// The round trip RGB -> HSV -> RGB moves no channel of `(r, g, b)` by
/// more than `k`.
pub open spec fn round_trip_within(r: int, g: int, b: int, k: int) -> bool {
    let (h, s, v) = rgb_to_hsv_spec(r, g, b);
    let (r2, g2, b2) = hsv_to_rgb_spec(h, s, v);
    &&& -k <= r2 - r <= k
    &&& -k <= g2 - g <= k
    &&& -k <= b2 - b <= k
}

/// A saturation rounded to the nearest byte out of `mx` and `mn` puts
/// `chroma_p` back within one of `mn`: scaling the saturation's
/// complement back up by the value recovers the smallest channel, give
/// or take the half byte the rounding moved.
proof fn lemma_p_close(mx: int, mn: int)
    requires
        1 <= mx <= 255,
        0 <= mn <= mx,
    ensures
        mn - 1 <= chroma_p((510 * (mx - mn) + mx) / (2 * mx), mx) <= mn,
{
    let d = mx - mn;
    let s = (510 * d + mx) / (2 * mx);
    let es = (510 * d + mx) % (2 * mx);
    lemma_fundamental_div_mod(510 * d + mx, 2 * mx);
    lemma_mod_division_less_than_divisor(510 * d + mx, 2 * mx);
    assert(2 * (mx * (255 - s)) == 510 * mn + es - mx) by (nonlinear_arith)
        requires
            (2 * mx) * s + es == 510 * d + mx,
            d == mx - mn,
    ;
    let q = mx * (255 - s) / 255;
    let uq = mx * (255 - s) % 255;
    lemma_fundamental_div_mod(mx * (255 - s), 255);
    lemma_mod_division_less_than_divisor(mx * (255 - s), 255);
    assert(mn - 1 <= q <= mn) by (nonlinear_arith)
        requires
            2 * (mx * (255 - s)) == 510 * mn + es - mx,
            mx * (255 - s) == 255 * q + uq,
            0 <= uq < 255,
            0 <= es < 2 * mx,
            1 <= mx <= 255,
            0 <= mn,
    ;
    assert(chroma_p(s, mx) == q);
}

/// The chroma intermediate `chroma_q` built from the rounded saturation
/// of `mx` and `mn` and a sector position `w` stays within 4 of the
/// channel `y` it stands for, provided `2 * (mx - mn) * w` sits within
/// half a hue step (6 units of the spread) of `510 * (mx - y)`.  The
/// slack of 4 collects that half step, the saturation's rounding, and
/// the floors of the two scalings.
proof fn lemma_mid_channel(mx: int, mn: int, y: int, w: int)
    requires
        1 <= mx <= 255,
        0 <= mn < mx,
        mn <= y <= mx,
        0 <= w <= 255,
        510 * (mx - y) - 6 * (mx - mn) <= 2 * ((mx - mn) * w) <= 510 * (mx - y) + 6 * (mx - mn),
    ensures
        y - 4 <= chroma_q((510 * (mx - mn) + mx) / (2 * mx), mx, w) <= y + 4,
{
    let d = mx - mn;
    let s = (510 * d + mx) / (2 * mx);
    let es = (510 * d + mx) % (2 * mx);
    lemma_fundamental_div_mod(510 * d + mx, 2 * mx);
    lemma_mod_division_less_than_divisor(510 * d + mx, 2 * mx);
    assert(0 <= s <= 255) by (nonlinear_arith)
        requires
            (2 * mx) * s + es == 510 * d + mx,
            0 <= es < 2 * mx,
            1 <= d <= mx <= 255,
    ;
    let a = s * w / 255;
    let ua = s * w % 255;
    lemma_fundamental_div_mod(s * w, 255);
    lemma_mod_division_less_than_divisor(s * w, 255);
    assert(0 <= a <= 255) by (nonlinear_arith)
        requires
            s * w == 255 * a + ua,
            0 <= ua < 255,
            0 <= s <= 255,
            0 <= w <= 255,
    ;
    let c = mx * (255 - a) / 255;
    let uc = mx * (255 - a) % 255;
    lemma_fundamental_div_mod(mx * (255 - a), 255);
    lemma_mod_division_less_than_divisor(mx * (255 - a), 255);
    assert(130050 * c == 130050 * mx - 255 * (2 * (d * w)) - mx * w + es * w + 2 * (mx * ua)
        - 510 * uc) by (nonlinear_arith)
        requires
            (2 * mx) * s + es == 510 * d + mx,
            s * w == 255 * a + ua,
            mx * (255 - a) == 255 * c + uc,
    ;
    assert(-255 * 255 <= es * w - mx * w <= 254 * 255) by (nonlinear_arith)
        requires
            0 <= es < 2 * mx,
            1 <= mx <= 255,
            0 <= w <= 255,
    ;
    assert(0 <= mx * ua <= 255 * 254) by (nonlinear_arith)
        requires
            0 <= mx <= 255,
            0 <= ua <= 254,
    ;
    assert(y - 4 <= c <= y + 4) by (nonlinear_arith)
        requires
            130050 * c == 130050 * mx - 255 * (2 * (d * w)) - mx * w + es * w + 2 * (mx * ua)
                - 510 * uc,
            -255 * 255 <= es * w - mx * w <= 254 * 255,
            0 <= mx * ua <= 255 * 254,
            0 <= uc <= 254,
            510 * (mx - y) - 6 * d <= 2 * (d * w) <= 510 * (mx - y) + 6 * d,
            1 <= d <= 255,
    ;
    assert(chroma_q(s, mx, w) == c);
}

/// Hues from `h` up to 254 fall in sector `j` when twice the hue lies in
/// the sector's double width; there the relative interval is affine in the
/// hue.
proof fn lemma_sector_f(h: int, j: int)
    requires
        0 <= h,
        0 <= j,
        85 * j <= 2 * h <= 85 * j + 84,
    ensures
        rel_interval(h) == 6 * h - 255 * j,
{
    lemma_fundamental_div_mod_converse(2 * h, 85, j, 2 * h - 85 * j);
}

/// Round trip of a color whose largest channel is red and whose green is
/// at least its blue: the hue lands in the first sector, or right at the
/// bottom of the second when green matches red.
proof fn lemma_rt_red_up(r: int, g: int, b: int)
    requires
        0 <= r <= 255,
        0 <= g <= 255,
        0 <= b <= 255,
        max3(r, g, b) == r,
        g >= b,
        min3(r, g, b) < max3(r, g, b),
    ensures
        round_trip_within(r, g, b, 4),
{
    let mx = max3(r, g, b);
    let mn = min3(r, g, b);
    let d = mx - mn;
    let s = (510 * d + mx) / (2 * mx);
    let num = hue_numerator(r, g, b);
    let h = (510 * num + 6 * d) / (12 * d);
    let e = (510 * num + 6 * d) % (12 * d);
    assert(mn == b && num == g - b);
    lemma_fundamental_div_mod(510 * num + 6 * d, 12 * d);
    lemma_mod_division_less_than_divisor(510 * num + 6 * d, 12 * d);
    assert(0 <= h <= 43) by (nonlinear_arith)
        requires
            (12 * d) * h + e == 510 * num + 6 * d,
            0 <= e < 12 * d,
            0 <= 510 * num <= 510 * d,
            1 <= d,
    ;
    lemma_p_close(mx, mn);
    if h <= 42 {
        lemma_sector_f(h, 0);
        let f = rel_interval(h);
        assert(2 * (d * (255 - f)) == 510 * (mx - g) - 6 * d + e) by (nonlinear_arith)
            requires
                f == 6 * h,
                (12 * d) * h + e == 510 * num + 6 * d,
                num == d - (mx - g),
        ;
        lemma_mid_channel(mx, mn, g, 255 - f);
        assert(chroma_t(s, mx, f) == chroma_q(s, mx, 255 - f));
    } else {
        assert(h == 43);
        assert(510 * num >= 510 * d) by (nonlinear_arith)
            requires
                (12 * d) * h + e == 510 * num + 6 * d,
                h == 43,
                0 <= e,
        ;
        assert(num == d && g == mx);
        lemma_sector_f(h, 1);
        let f = rel_interval(h);
        assert(f == 3);
        assert(2 * (d * f) == 6 * d) by (nonlinear_arith)
            requires
                f == 3,
        ;
        lemma_mid_channel(mx, mn, r, f);
    }
}

/// Round trip of a color whose largest channel is red and whose blue
/// exceeds its green: the hue lands in the last sector, or on the hue
/// byte 255 itself when blue nearly matches red.
proof fn lemma_rt_red_down(r: int, g: int, b: int)
    requires
        0 <= r <= 255,
        0 <= g <= 255,
        0 <= b <= 255,
        max3(r, g, b) == r,
        g < b,
        min3(r, g, b) < max3(r, g, b),
    ensures
        round_trip_within(r, g, b, 4),
{
    let mx = max3(r, g, b);
    let mn = min3(r, g, b);
    let d = mx - mn;
    let s = (510 * d + mx) / (2 * mx);
    let num = hue_numerator(r, g, b);
    let h = (510 * num + 6 * d) / (12 * d);
    let e = (510 * num + 6 * d) % (12 * d);
    let nb = b - mn;
    assert(mn == g && num == 6 * d - nb && 1 <= nb <= d);
    lemma_fundamental_div_mod(510 * num + 6 * d, 12 * d);
    lemma_mod_division_less_than_divisor(510 * num + 6 * d, 12 * d);
    assert(213 <= h <= 255) by (nonlinear_arith)
        requires
            (12 * d) * h + e == 510 * num + 6 * d,
            0 <= e < 12 * d,
            2550 * d <= 510 * num <= 3060 * d - 510,
            1 <= d <= 255,
    ;
    lemma_p_close(mx, mn);
    if h <= 254 {
        lemma_sector_f(h, 5);
        let f = rel_interval(h);
        assert(2 * (d * f) == 510 * (mx - b) + 6 * d - e) by (nonlinear_arith)
            requires
                f == 6 * h - 1275,
                (12 * d) * h + e == 510 * num + 6 * d,
                num == 6 * d - nb,
                mx - b == d - nb,
        ;
        lemma_mid_channel(mx, mn, b, f);
    } else {
        assert(h == 255);
        assert(510 * nb <= 6 * d) by (nonlinear_arith)
            requires
                (12 * d) * h + e == 510 * num + 6 * d,
                h == 255,
                0 <= e,
                num == 6 * d - nb,
        ;
        assert(b - mn <= 3);
        assert(rel_interval(255) == 0) by {
            lemma_fundamental_div_mod_converse(510, 85, 6, 0);
        }
        assert(s * 255 / 255 == s) by (nonlinear_arith)
            requires
                0 <= s,
        ;
        assert(chroma_t(s, mx, 0) == chroma_p(s, mx));
    }
}

/// Round trip of a color whose largest channel is green and whose red is
/// at least its blue: the hue lands in the second sector, or right at
/// the bottom of the third when red nearly matches green.
proof fn lemma_rt_green_low(r: int, g: int, b: int)
    requires
        0 <= r <= 255,
        0 <= g <= 255,
        0 <= b <= 255,
        max3(r, g, b) != r,
        max3(r, g, b) == g,
        r >= b,
        min3(r, g, b) < max3(r, g, b),
    ensures
        round_trip_within(r, g, b, 4),
{
    let mx = max3(r, g, b);
    let mn = min3(r, g, b);
    let d = mx - mn;
    let s = (510 * d + mx) / (2 * mx);
    let num = hue_numerator(r, g, b);
    let h = (510 * num + 6 * d) / (12 * d);
    let e = (510 * num + 6 * d) % (12 * d);
    let nr = r - mn;
    assert(mn == b && num == 2 * d - nr && 0 <= nr <= d);
    lemma_fundamental_div_mod(510 * num + 6 * d, 12 * d);
    lemma_mod_division_less_than_divisor(510 * num + 6 * d, 12 * d);
    assert(43 <= h <= 85) by (nonlinear_arith)
        requires
            (12 * d) * h + e == 510 * num + 6 * d,
            0 <= e < 12 * d,
            510 * d <= 510 * num <= 1020 * d,
            1 <= d,
    ;
    lemma_p_close(mx, mn);
    if h <= 84 {
        lemma_sector_f(h, 1);
        let f = rel_interval(h);
        assert(2 * (d * f) == 510 * (mx - r) + 6 * d - e) by (nonlinear_arith)
            requires
                f == 6 * h - 255,
                (12 * d) * h + e == 510 * num + 6 * d,
                num == 2 * d - nr,
                mx - r == d - nr,
        ;
        lemma_mid_channel(mx, mn, r, f);
    } else {
        assert(h == 85);
        assert(510 * nr <= 6 * d) by (nonlinear_arith)
            requires
                (12 * d) * h + e == 510 * num + 6 * d,
                h == 85,
                0 <= e,
                num == 2 * d - nr,
        ;
        assert(r - mn <= 3);
        lemma_sector_f(h, 2);
        let f = rel_interval(h);
        assert(f == 0);
        assert(2 * (d * (255 - f)) == 510 * (mx - b)) by (nonlinear_arith)
            requires
                f == 0,
                mx - b == d,
        ;
        lemma_mid_channel(mx, mn, b, 255 - f);
        assert(chroma_t(s, mx, f) == chroma_q(s, mx, 255 - f));
    }
}

/// Round trip of a color whose largest channel is green and whose blue
/// exceeds its red: the hue lands in the third sector, or right at the
/// bottom of the fourth when blue matches green.
proof fn lemma_rt_green_high(r: int, g: int, b: int)
    requires
        0 <= r <= 255,
        0 <= g <= 255,
        0 <= b <= 255,
        max3(r, g, b) != r,
        max3(r, g, b) == g,
        r < b,
        min3(r, g, b) < max3(r, g, b),
    ensures
        round_trip_within(r, g, b, 4),
{
    let mx = max3(r, g, b);
    let mn = min3(r, g, b);
    let d = mx - mn;
    let s = (510 * d + mx) / (2 * mx);
    let num = hue_numerator(r, g, b);
    let h = (510 * num + 6 * d) / (12 * d);
    let e = (510 * num + 6 * d) % (12 * d);
    let nb = b - mn;
    assert(mn == r && num == 2 * d + nb && 1 <= nb <= d);
    lemma_fundamental_div_mod(510 * num + 6 * d, 12 * d);
    lemma_mod_division_less_than_divisor(510 * num + 6 * d, 12 * d);
    assert(85 <= h <= 128) by (nonlinear_arith)
        requires
            (12 * d) * h + e == 510 * num + 6 * d,
            0 <= e < 12 * d,
            1020 * d + 510 <= 510 * num <= 1530 * d,
            1 <= d <= 255,
    ;
    lemma_p_close(mx, mn);
    if h <= 127 {
        lemma_sector_f(h, 2);
        let f = rel_interval(h);
        assert(2 * (d * (255 - f)) == 510 * (mx - b) - 6 * d + e) by (nonlinear_arith)
            requires
                f == 6 * h - 510,
                (12 * d) * h + e == 510 * num + 6 * d,
                num == 2 * d + nb,
                mx - b == d - nb,
        ;
        lemma_mid_channel(mx, mn, b, 255 - f);
        assert(chroma_t(s, mx, f) == chroma_q(s, mx, 255 - f));
    } else {
        assert(h == 128);
        assert(510 * nb >= 510 * d) by (nonlinear_arith)
            requires
                (12 * d) * h + e == 510 * num + 6 * d,
                h == 128,
                0 <= e,
                num == 2 * d + nb,
        ;
        assert(nb == d && b == mx);
        lemma_sector_f(h, 3);
        let f = rel_interval(h);
        assert(f == 3);
        assert(2 * (d * f) == 6 * d) by (nonlinear_arith)
            requires
                f == 3,
        ;
        lemma_mid_channel(mx, mn, g, f);
    }
}

/// Round trip of a color whose largest channel is blue and whose green
/// is at least its red: the hue lands in the fourth sector, or right at
/// the bottom of the fifth when green nearly matches blue.
proof fn lemma_rt_blue_low(r: int, g: int, b: int)
    requires
        0 <= r <= 255,
        0 <= g <= 255,
        0 <= b <= 255,
        max3(r, g, b) != r,
        max3(r, g, b) != g,
        max3(r, g, b) == b,
        g >= r,
        min3(r, g, b) < max3(r, g, b),
    ensures
        round_trip_within(r, g, b, 4),
{
    let mx = max3(r, g, b);
    let mn = min3(r, g, b);
    let d = mx - mn;
    let s = (510 * d + mx) / (2 * mx);
    let num = hue_numerator(r, g, b);
    let h = (510 * num + 6 * d) / (12 * d);
    let e = (510 * num + 6 * d) % (12 * d);
    let ng = g - mn;
    assert(mn == r && num == 4 * d - ng && 0 <= ng <= d);
    lemma_fundamental_div_mod(510 * num + 6 * d, 12 * d);
    lemma_mod_division_less_than_divisor(510 * num + 6 * d, 12 * d);
    assert(128 <= h <= 170) by (nonlinear_arith)
        requires
            (12 * d) * h + e == 510 * num + 6 * d,
            0 <= e < 12 * d,
            1530 * d <= 510 * num <= 2040 * d,
            1 <= d,
    ;
    lemma_p_close(mx, mn);
    if h <= 169 {
        lemma_sector_f(h, 3);
        let f = rel_interval(h);
        assert(2 * (d * f) == 510 * (mx - g) + 6 * d - e) by (nonlinear_arith)
            requires
                f == 6 * h - 765,
                (12 * d) * h + e == 510 * num + 6 * d,
                num == 4 * d - ng,
                mx - g == d - ng,
        ;
        lemma_mid_channel(mx, mn, g, f);
    } else {
        assert(h == 170);
        assert(510 * ng <= 6 * d) by (nonlinear_arith)
            requires
                (12 * d) * h + e == 510 * num + 6 * d,
                h == 170,
                0 <= e,
                num == 4 * d - ng,
        ;
        assert(g - mn <= 3);
        lemma_sector_f(h, 4);
        let f = rel_interval(h);
        assert(f == 0);
        assert(2 * (d * (255 - f)) == 510 * (mx - r)) by (nonlinear_arith)
            requires
                f == 0,
                mx - r == d,
        ;
        lemma_mid_channel(mx, mn, r, 255 - f);
        assert(chroma_t(s, mx, f) == chroma_q(s, mx, 255 - f));
    }
}

/// Round trip of a color whose largest channel is blue and whose red
/// exceeds its green: the hue lands in the fifth sector, or right at the
/// bottom of the sixth when red matches blue.
proof fn lemma_rt_blue_high(r: int, g: int, b: int)
    requires
        0 <= r <= 255,
        0 <= g <= 255,
        0 <= b <= 255,
        max3(r, g, b) != r,
        max3(r, g, b) != g,
        max3(r, g, b) == b,
        g < r,
        min3(r, g, b) < max3(r, g, b),
    ensures
        round_trip_within(r, g, b, 4),
{
    let mx = max3(r, g, b);
    let mn = min3(r, g, b);
    let d = mx - mn;
    let s = (510 * d + mx) / (2 * mx);
    let num = hue_numerator(r, g, b);
    let h = (510 * num + 6 * d) / (12 * d);
    let e = (510 * num + 6 * d) % (12 * d);
    let nr = r - mn;
    assert(mn == g && num == 4 * d + nr && 1 <= nr <= d);
    lemma_fundamental_div_mod(510 * num + 6 * d, 12 * d);
    lemma_mod_division_less_than_divisor(510 * num + 6 * d, 12 * d);
    assert(170 <= h <= 213) by (nonlinear_arith)
        requires
            (12 * d) * h + e == 510 * num + 6 * d,
            0 <= e < 12 * d,
            2040 * d + 510 <= 510 * num <= 2550 * d,
            1 <= d <= 255,
    ;
    lemma_p_close(mx, mn);
    if h <= 212 {
        lemma_sector_f(h, 4);
        let f = rel_interval(h);
        assert(2 * (d * (255 - f)) == 510 * (mx - r) - 6 * d + e) by (nonlinear_arith)
            requires
                f == 6 * h - 1020,
                (12 * d) * h + e == 510 * num + 6 * d,
                num == 4 * d + nr,
                mx - r == d - nr,
        ;
        lemma_mid_channel(mx, mn, r, 255 - f);
        assert(chroma_t(s, mx, f) == chroma_q(s, mx, 255 - f));
    } else {
        assert(h == 213);
        assert(510 * nr >= 510 * d) by (nonlinear_arith)
            requires
                (12 * d) * h + e == 510 * num + 6 * d,
                h == 213,
                0 <= e,
                num == 4 * d + nr,
        ;
        assert(nr == d && r == mx);
        lemma_sector_f(h, 5);
        let f = rel_interval(h);
        assert(f == 3);
        assert(2 * (d * f) == 6 * d) by (nonlinear_arith)
            requires
                f == 3,
        ;
        lemma_mid_channel(mx, mn, b, f);
    }
}

/// Converting a color to HSV and back moves every channel by at most 4,
/// the quantization tolerance of the 8-bit model: the dominant channel
/// is carried through as the value, the smallest comes back within one
/// out of the rounded saturation, and the remaining channel pays at most
/// half a hue step for the quantization of the hue to one byte.
pub proof fn lemma_round_trip_bound(r: int, g: int, b: int)
    requires
        0 <= r <= 255,
        0 <= g <= 255,
        0 <= b <= 255,
    ensures
        round_trip_within(r, g, b, 4),
{
    let mx = max3(r, g, b);
    let mn = min3(r, g, b);
    if mx == mn {
        assert(r == mx && g == mx && b == mx);
        lemma_gray_round_trip(mx);
    } else if mx == r {
        if g >= b {
            lemma_rt_red_up(r, g, b);
        } else {
            lemma_rt_red_down(r, g, b);
        }
    } else if mx == g {
        if r >= b {
            lemma_rt_green_low(r, g, b);
        } else {
            lemma_rt_green_high(r, g, b);
        }
    } else {
        if g >= r {
            lemma_rt_blue_low(r, g, b);
        } else {
            lemma_rt_blue_high(r, g, b);
        }
    }
}

/// A gray (or black) value converts to HSV and back without loss: with
/// no spread between the channels the hue and saturation are 0, and an
/// achromatic conversion returns the value on all three channels.
pub proof fn lemma_gray_round_trip(v: int)
    requires
        0 <= v <= 255,
    ensures
        round_trip_within(v, v, v, 0),
{
    if v != 0 {
        lemma_fundamental_div_mod_converse(v, 2 * v, 0, v);
    }
    assert(rgb_to_hsv_spec(v, v, v) == (0int, 0int, v));
    assert(v * 255 / 255 == v) by (nonlinear_arith)
        requires
            0 <= v,
    ;
    assert(hsv_to_rgb_spec(0, 0, v) == (v, v, v));
}

/// The three saturated primaries convert to HSV and back without loss:
/// their hues sit in the middle of sectors, where rounding to a byte
/// loses nothing that the chroma intermediates would see.
pub proof fn lemma_primary_round_trip()
    ensures
        round_trip_within(255, 0, 0, 0),
        round_trip_within(0, 255, 0, 0),
        round_trip_within(0, 0, 255, 0),
{
    assert((510int * 255 + 255) / (2int * 255) == 255) by {
        lemma_fundamental_div_mod_converse(510int * 255 + 255, 2int * 255, 255, 255);
    }
    assert((510int * 0 + 6 * 255) / (12int * 255) == 0) by {
        lemma_fundamental_div_mod_converse(510int * 0 + 6 * 255, 12int * 255, 0, 1530);
    }
    assert((510int * 510 + 6 * 255) / (12int * 255) == 85) by {
        lemma_fundamental_div_mod_converse(510int * 510 + 6 * 255, 12int * 255, 85, 1530);
    }
    assert((510int * 1020 + 6 * 255) / (12int * 255) == 170) by {
        lemma_fundamental_div_mod_converse(510int * 1020 + 6 * 255, 12int * 255, 170, 1530);
    }
    assert(rgb_to_hsv_spec(255, 0, 0) == (0int, 255int, 255int));
    assert(hsv_to_rgb_spec(0, 255, 255) == (255int, 0int, 0int));
    assert(rgb_to_hsv_spec(0, 255, 0) == (85int, 255int, 255int));
    assert(hsv_to_rgb_spec(85, 255, 255) == (0int, 255int, 0int));
    assert(rgb_to_hsv_spec(0, 0, 255) == (170int, 255int, 255int));
    assert(hsv_to_rgb_spec(170, 255, 255) == (0int, 0int, 255int));
}

/// The three saturated secondaries sit exactly on hue-sector boundaries,
/// which no byte encodes: the hue rounds half a step up into the next
/// sector and the falling channel comes back as 252 instead of 255.  No
/// channel moves by more than 3.
pub proof fn lemma_secondary_round_trip()
    ensures
        round_trip_within(255, 255, 0, 3),
        round_trip_within(0, 255, 255, 3),
        round_trip_within(255, 0, 255, 3),
{
    assert((510int * 255 + 255) / (2int * 255) == 255) by {
        lemma_fundamental_div_mod_converse(510int * 255 + 255, 2int * 255, 255, 255);
    }
    assert((510int * 255 + 6 * 255) / (12int * 255) == 43) by {
        lemma_fundamental_div_mod_converse(510int * 255 + 6 * 255, 12int * 255, 43, 0);
    }
    assert((510int * 765 + 6 * 255) / (12int * 255) == 128) by {
        lemma_fundamental_div_mod_converse(510int * 765 + 6 * 255, 12int * 255, 128, 0);
    }
    assert((510int * 1275 + 6 * 255) / (12int * 255) == 213) by {
        lemma_fundamental_div_mod_converse(510int * 1275 + 6 * 255, 12int * 255, 213, 0);
    }
    assert(86int % 85 == 1) by {
        lemma_fundamental_div_mod_converse(86, 85, 1, 1);
    }
    assert(256int % 85 == 1) by {
        lemma_fundamental_div_mod_converse(256, 85, 3, 1);
    }
    assert(426int % 85 == 1) by {
        lemma_fundamental_div_mod_converse(426, 85, 5, 1);
    }
    assert(255int * 3 / 255 == 3) by {
        lemma_fundamental_div_mod_converse(255int * 3, 255, 3, 0);
    }
    assert(255int * 252 / 255 == 252) by {
        lemma_fundamental_div_mod_converse(255int * 252, 255, 252, 0);
    }
    assert(rgb_to_hsv_spec(255, 255, 0) == (43int, 255int, 255int));
    assert(hsv_to_rgb_spec(43, 255, 255) == (252int, 255int, 0int));
    assert(rgb_to_hsv_spec(0, 255, 255) == (128int, 255int, 255int));
    assert(hsv_to_rgb_spec(128, 255, 255) == (0int, 252int, 255int));
    assert(rgb_to_hsv_spec(255, 0, 255) == (213int, 255int, 255int));
    assert(hsv_to_rgb_spec(213, 255, 255) == (255int, 0int, 252int));
}

} // verus!
