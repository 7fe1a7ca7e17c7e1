//! Free-function form of the HSV/RGB conversions.

use vstd::prelude::*;

verus! {

use crate::led::hsv_rgb_convert::{
    hsv_to_rgb_exec,
    hsv_to_rgb_spec,
    rgb_to_hsv_exec,
    rgb_to_hsv_spec,
    Hsv8,
    Rgb8,
};

/// Convert an HSV value to RGB.  When the saturation is 0 all three
/// output channels equal the value, whatever the hue.
pub fn hsv2rgb(hsv: Hsv8) -> (rgb: Rgb8)
    ensures
        (rgb.r as int, rgb.g as int, rgb.b as int) == hsv_to_rgb_spec(
            hsv.hue as int,
            hsv.sat as int,
            hsv.val as int,
        ),
        hsv.sat == 0 ==> rgb.r == hsv.val && rgb.g == hsv.val && rgb.b == hsv.val,
{
    hsv_to_rgb_exec(hsv)
}

/// Convert an RGB value to HSV.
pub fn rgb2hsv(rgb: Rgb8) -> (hsv: Hsv8)
    ensures
        (hsv.hue as int, hsv.sat as int, hsv.val as int) == rgb_to_hsv_spec(
            rgb.r as int,
            rgb.g as int,
            rgb.b as int,
        ),
{
    rgb_to_hsv_exec(rgb)
}

} // verus!
