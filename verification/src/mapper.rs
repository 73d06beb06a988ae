use vstd::prelude::*;
use vstd::arithmetic::div_mod::{lemma_div_is_ordered, lemma_div_pos_is_pos, lemma_div_multiples_vanish};
use crate::color::{Rgb, LightCommand};

verus! {

/// Largest of three channel values.
pub open spec fn max3(r: int, g: int, b: int) -> int {
    if r >= g && r >= b {
        r
    } else if g >= b {
        g
    } else {
        b
    }
}

/// Smallest of three channel values.
pub open spec fn min3(r: int, g: int, b: int) -> int {
    if r <= g && r <= b {
        r
    } else if g <= b {
        g
    } else {
        b
    }
}

/// Hue of the RGB-to-HSL transform, scaled to the full 16-bit range and
/// truncated. The channels are compared un-normalized: dividing by 255 cancels
/// out of every ratio, so the fractions of the transform become exact integer
/// divisions of channel differences.
pub open spec fn spec_hue(r: int, g: int, b: int) -> int {
    let mx = max3(r, g, b);
    let mn = min3(r, g, b);
    if mx == mn {
        0
    } else {
        let d = mx - mn;
        if mx == r {
            if g < b {
                (65535 * (6 * d - (b - g))) / (6 * d)
            } else {
                (65535 * (g - b)) / (6 * d)
            }
        } else if mx == g {
            (65535 * (2 * d + b - r)) / (6 * d)
        } else {
            (65535 * (4 * d + r - g)) / (6 * d)
        }
    }
}

/// Saturation of the transform, scaled to the 8-bit range and truncated.
/// `mx + mn > 255` is the un-normalized form of the lightness test `l > 1/2`.
pub open spec fn spec_sat(r: int, g: int, b: int) -> int {
    let mx = max3(r, g, b);
    let mn = min3(r, g, b);
    if mx == mn {
        0
    } else {
        let d = mx - mn;
        let sum = mx + mn;
        if sum > 255 {
            (255 * d) / (510 - sum)
        } else {
            (255 * d) / sum
        }
    }
}

/// Brightness (lightness) of the transform, scaled to the 8-bit range and
/// truncated: `trunc(255 * (mx + mn) / 510) == (mx + mn) / 2`.
pub open spec fn spec_bri(r: int, g: int, b: int) -> int {
    (max3(r, g, b) + min3(r, g, b)) / 2
}

/// The transform is total on byte channels and lands in the command ranges:
/// hue in [0, 65535], saturation and brightness in [0, 255].
pub proof fn lemma_hsl_in_range(r: int, g: int, b: int)
    requires
        0 <= r <= 255,
        0 <= g <= 255,
        0 <= b <= 255,
    ensures
        0 <= spec_hue(r, g, b) <= 65535,
        0 <= spec_sat(r, g, b) <= 255,
        0 <= spec_bri(r, g, b) <= 255,
{
    let mx = max3(r, g, b);
    let mn = min3(r, g, b);
    lemma_div_pos_is_pos(mx + mn, 2);
    lemma_div_is_ordered(mx + mn, 510, 2);
    if mx != mn {
        let d = mx - mn;
        let sum = mx + mn;
        let sdenom = if sum > 255 { 510 - sum } else { sum };
        assert(d <= sdenom);
        lemma_div_pos_is_pos(255 * d, sdenom);
        lemma_div_is_ordered(255 * d, 255 * sdenom, sdenom);
        lemma_div_multiples_vanish(255, sdenom);
        let hnum = if mx == r {
            if g < b {
                6 * d - (b - g)
            } else {
                g - b
            }
        } else if mx == g {
            2 * d + b - r
        } else {
            4 * d + r - g
        };
        assert(0 <= hnum <= 6 * d);
        lemma_div_pos_is_pos(65535 * hnum, 6 * d);
        lemma_div_is_ordered(65535 * hnum, 65535 * (6 * d), 6 * d);
        lemma_div_multiples_vanish(65535, 6 * d);
    }
}

/// Map one RGB color to the hue/saturation/brightness triple of a light
/// command, bit for bit the scaled and truncated RGB-to-HSL transform.
/// Total: every RGB triple is accepted, and an achromatic color (all channels
/// equal) takes the division-free branch with hue 0 and saturation 0.
pub fn color_to_hsl(color: &Rgb) -> (hsl: (u16, u8, u8))
    ensures
        hsl.0 as int == spec_hue(color.r as int, color.g as int, color.b as int),
        hsl.1 as int == spec_sat(color.r as int, color.g as int, color.b as int),
        hsl.2 as int == spec_bri(color.r as int, color.g as int, color.b as int),
{
    let r = color.r as u64;
    let g = color.g as u64;
    let b = color.b as u64;
    let mx = if r >= g && r >= b {
        r
    } else if g >= b {
        g
    } else {
        b
    };
    let mn = if r <= g && r <= b {
        r
    } else if g <= b {
        g
    } else {
        b
    };
    let bri = ((mx + mn) / 2) as u8;
    if mx == mn {
        (0u16, 0u8, bri)
    } else {
        let d = mx - mn;
        let sum = mx + mn;
        let sdenom = if sum > 255 { 510 - sum } else { sum };
        let sat_q = (255 * d) / sdenom;
        let hnum: u64 = if mx == r {
            if g < b {
                6 * d - (b - g)
            } else {
                g - b
            }
        } else if mx == g {
            2 * d + b - r
        } else {
            4 * d + r - g
        };
        let hue_q = (65535 * hnum) / (6 * d);
        proof {
            lemma_hsl_in_range(color.r as int, color.g as int, color.b as int);
        }
        (hue_q as u16, sat_q as u8, bri)
    }
}

/// Build the light command for one palette color: the scaled HSL triple of
/// the RGB-to-HSL transform.
pub fn color_to_light_command(color: &Rgb) -> (cmd: LightCommand)
    ensures
        cmd.hue as int == spec_hue(color.r as int, color.g as int, color.b as int),
        cmd.sat as int == spec_sat(color.r as int, color.g as int, color.b as int),
        cmd.bri as int == spec_bri(color.r as int, color.g as int, color.b as int),
{
    let hsl = color_to_hsl(color);
    LightCommand { hue: hsl.0, sat: hsl.1, bri: hsl.2 }
}

} // verus!
