use vstd::prelude::*;
use vstd::arithmetic::div_mod::{lemma_div_is_ordered, lemma_div_pos_is_pos, lemma_div_nonincreasing, lemma_hoist_over_denominator};
use vstd::arithmetic::mul::{lemma_mul_inequality, lemma_mul_nonnegative, lemma_mul_is_commutative, lemma_mul_is_associative, lemma_mul_is_distributive_add_other_way, lemma_mul_is_distributive_sub_other_way};
use crate::clamp;

verus! {

/// Mathematical clamp into an inclusive range.
pub open spec fn spec_clamp(v: int, lo: int, hi: int) -> int {
    if v < lo {
        lo
    } else if v > hi {
        hi
    } else {
        v
    }
}

/// Index of the full-resolution luma sample for the pixel at column `x`, row `y`.
pub open spec fn luma_index(x: int, y: int, w: int) -> int {
    y * w + x
}

/// Index of the quarter-resolution chroma U sample shared by the 2x2 block of
/// the pixel at `(x, y)`; the U plane follows the luma plane in memory.
pub open spec fn chroma_u_index(x: int, y: int, w: int, h: int) -> int {
    (y / 2) * w / 2 + x / 2 + w * h
}

/// Index of the chroma V sample for the pixel at `(x, y)`; the V plane is
/// offset by one quarter of the pixel count after the U plane.
pub open spec fn chroma_v_index(x: int, y: int, w: int, h: int) -> int {
    chroma_u_index(x, y, w, h) + (w * h) / 4
}

/// Red channel of the studio-range transform; the division by 256 rounds
/// toward negative infinity, as the arithmetic right shift does.
pub open spec fn red_of(yv: int, u: int, v: int) -> int {
    spec_clamp((298 * (yv - 16) + 409 * (v - 128) + 128) / 256, 0, 255)
}

/// Green channel of the studio-range transform.
pub open spec fn green_of(yv: int, u: int, v: int) -> int {
    spec_clamp((298 * (yv - 16) - 100 * (u - 128) - 208 * (v - 128) + 128) / 256, 0, 255)
}

/// Blue channel of the studio-range transform.
pub open spec fn blue_of(yv: int, u: int, v: int) -> int {
    spec_clamp((298 * (yv - 16) + 516 * (u - 128) + 128) / 256, 0, 255)
}

/// The three output bytes of the pixel at `(x, y)` are the transform of the
/// luma and chroma samples that the planar layout assigns to that pixel.
pub open spec fn pixel_ok(rgb: Seq<u8>, yuv: Seq<u8>, w: int, h: int, x: int, y: int) -> bool {
    let yv = yuv[luma_index(x, y, w)] as int;
    let u = yuv[chroma_u_index(x, y, w, h)] as int;
    let v = yuv[chroma_v_index(x, y, w, h)] as int;
    &&& rgb[3 * (y * w + x)] as int == red_of(yv, u, v)
    &&& rgb[3 * (y * w + x) + 1] as int == green_of(yv, u, v)
    &&& rgb[3 * (y * w + x) + 2] as int == blue_of(yv, u, v)
}

/// Byte `k` of the converted frame: channel `k % 3` of pixel `k / 3`.
pub open spec fn rgb_byte_at(yuv: Seq<u8>, w: int, h: int, k: int) -> u8 {
    let p = k / 3;
    let chan = k % 3;
    let x = p % w;
    let y = p / w;
    let yv = yuv[luma_index(x, y, w)] as int;
    let u = yuv[chroma_u_index(x, y, w, h)] as int;
    let v = yuv[chroma_v_index(x, y, w, h)] as int;
    if chan == 0 {
        red_of(yv, u, v) as u8
    } else if chan == 1 {
        green_of(yv, u, v) as u8
    } else {
        blue_of(yv, u, v) as u8
    }
}

/// The whole converted frame as a function of the input buffer alone.
pub open spec fn rgb_frame(yuv: Seq<u8>, w: int, h: int) -> Seq<u8> {
    Seq::new((3 * w * h) as nat, |k: int| rgb_byte_at(yuv, w, h, k))
}

/// The pixel at `(x, y)` has the same three output bytes as the first pixel.
pub open spec fn same_color_as_first(rgb: Seq<u8>, w: int, x: int, y: int) -> bool {
    &&& rgb[3 * (y * w + x)] == rgb[0]
    &&& rgb[3 * (y * w + x) + 1] == rgb[1]
    &&& rgb[3 * (y * w + x) + 2] == rgb[2]
}

/// A frame with even dimensions whose luma plane holds a single value and
/// whose two chroma planes hold a single value each converts to the same RGB
/// color at every pixel.
pub proof fn lemma_uniform_frame_uniform_rgb(rgb: Seq<u8>, yuv: Seq<u8>, w: int, h: int)
    requires
        0 < w,
        0 < h,
        w % 2 == 0,
        h % 2 == 0,
        chroma_v_index(w - 1, h - 1, w, h) < yuv.len(),
        forall|i: int| 0 <= i < w * h ==> #[trigger] yuv[i] == yuv[0],
        forall|i: int| w * h <= i < w * h + (w * h) / 4 ==> #[trigger] yuv[i] == yuv[w * h],
        forall|i: int|
            w * h + (w * h) / 4 <= i < w * h + (w * h) / 2 ==> #[trigger] yuv[i] == yuv[w * h
            + (w * h) / 4],
        forall|x: int, y: int|
            0 <= x < w && 0 <= y < h ==> #[trigger] pixel_ok(rgb, yuv, w, h, x, y),
    ensures
        forall|x: int, y: int|
            0 <= x < w && 0 <= y < h ==> #[trigger] same_color_as_first(rgb, w, x, y),
{
    let a = w / 2;
    let b = h / 2;
    assert(w == 2 * a && h == 2 * b);
    assert forall|x: int, y: int| 0 <= x < w && 0 <= y < h implies #[trigger] same_color_as_first(
        rgb,
        w,
        x,
        y,
    ) by {
        lemma_index_bounds(x, y, w, h);
        assert((h - 1) / 2 == b - 1) by {
            vstd::arithmetic::div_mod::lemma_fundamental_div_mod_converse(2 * b - 1, 2, b - 1, 1);
        }
        assert((w - 1) / 2 == a - 1) by {
            vstd::arithmetic::div_mod::lemma_fundamental_div_mod_converse(2 * a - 1, 2, a - 1, 1);
        }
        assert(((b - 1) * w) / 2 == (b - 1) * a) by {
            lemma_mul_is_associative(b - 1, 2, a);
            lemma_mul_is_commutative(b - 1, 2);
            lemma_mul_is_associative(2, b - 1, a);
            vstd::arithmetic::div_mod::lemma_div_multiples_vanish((b - 1) * a, 2);
        }
        assert((w * h) / 4 == a * b) by {
            lemma_mul_is_associative(2 * a, 2, b);
            lemma_mul_is_commutative(2 * a, 2);
            lemma_mul_is_associative(2, 2 * a, b);
            lemma_mul_is_associative(2, 2, a * b);
            lemma_mul_is_associative(4int, a, b);
            vstd::arithmetic::div_mod::lemma_div_multiples_vanish(a * b, 4);
        }
        assert((w * h) / 2 == 2 * (a * b)) by {
            lemma_mul_is_associative(2 * a, 2, b);
            lemma_mul_is_commutative(2 * a, 2);
            lemma_mul_is_associative(2, 2 * a, b);
            lemma_mul_is_associative(2, a, b);
            vstd::arithmetic::div_mod::lemma_div_multiples_vanish(2 * (a * b), 2);
        }
        assert((b - 1) * a + a == b * a) by {
            lemma_mul_is_distributive_add_other_way(a, b - 1, 1);
        }
        lemma_mul_is_commutative(b, a);
        assert(chroma_u_index(x, y, w, h) < w * h + (w * h) / 4);
        assert(chroma_v_index(x, y, w, h) < w * h + (w * h) / 2);
        assert(yuv[luma_index(x, y, w)] == yuv[0]);
        assert(yuv[chroma_u_index(x, y, w, h)] == yuv[w * h]);
        assert(yuv[chroma_v_index(x, y, w, h)] == yuv[w * h + (w * h) / 4]);
        lemma_index_bounds(0, 0, w, h);
        assert(yuv[luma_index(0, 0, w)] == yuv[0]);
        assert(yuv[chroma_u_index(0, 0, w, h)] == yuv[w * h]);
        assert(yuv[chroma_v_index(0, 0, w, h)] == yuv[w * h + (w * h) / 4]);
        assert(pixel_ok(rgb, yuv, w, h, x, y));
        assert(pixel_ok(rgb, yuv, w, h, 0, 0));
    }
}

/// Quotient of `t / 256` rounded toward negative infinity, computed without
/// signed division by shifting into the non-negative range first.
fn floor_div_256(t: i32) -> (q: i32)
    requires
        -262144 <= t < 262144,
    ensures
        q as int == (t as int) / 256,
{
    let shifted: u32 = (t + 262144) as u32;
    let d: u32 = shifted / 256;
    proof {
        lemma_hoist_over_denominator(t as int, 1024, 256nat);
        assert(shifted as int == t as int + 1024 * 256);
        assert(d as int == (t as int) / 256 + 1024);
        assert(-1024 <= (t as int) / 256 < 1024) by {
            lemma_div_is_ordered(-262144, t as int, 256);
            lemma_div_is_ordered(t as int, 262143, 256);
        }
    }
    (d as i32) - 1024
}

/// Clamp a transform quotient into a byte.
fn clamp_byte(q: i32) -> (b: u8)
    ensures
        b as int == spec_clamp(q as int, 0, 255),
{
    clamp(q as i64, 0, 255) as u8
}

/// All sample indices touched for a pixel of a `w` by `h` frame are bounded by
/// those of the last pixel.
proof fn lemma_index_bounds(x: int, y: int, w: int, h: int)
    requires
        0 <= x < w,
        0 <= y < h,
    ensures
        0 <= y * w + x < w * h,
        0 <= (y / 2) * w / 2 + x / 2,
        (y / 2) * w / 2 + x / 2 <= ((h - 1) / 2) * w / 2 + (w - 1) / 2,
        (y / 2) * w <= y * w,
{
    lemma_mul_nonnegative(y, w);
    lemma_mul_inequality(y, h - 1, w);
    lemma_mul_is_distributive_sub_other_way(w, h, 1);
    lemma_mul_is_commutative(h, w);
    lemma_div_is_ordered(y, h - 1, 2);
    lemma_mul_inequality(y / 2, (h - 1) / 2, w);
    lemma_div_is_ordered((y / 2) * w, ((h - 1) / 2) * w, 2);
    lemma_div_is_ordered(x, w - 1, 2);
    lemma_div_pos_is_pos(y, 2);
    lemma_div_pos_is_pos(x, 2);
    lemma_mul_nonnegative(y / 2, w);
    lemma_div_pos_is_pos((y / 2) * w, 2);
    lemma_div_nonincreasing(y, 2);
    lemma_mul_inequality(y / 2, y, w);
}

/// Convert a planar 4:2:0 luma/chroma frame of the given dimensions into an
/// interleaved RGB buffer of the same pixel count, row-major, one byte per
/// channel, each channel given by the studio-range transform.
pub fn yuv_to_rgb(yuv_buffer: &Vec<u8>, width: usize, height: usize) -> (rgb: Vec<u8>)
    requires
        3 * (width as int) * (height as int) <= usize::MAX as int,
        width > 0 && height > 0 ==> chroma_v_index(
            width as int - 1,
            height as int - 1,
            width as int,
            height as int,
        ) < yuv_buffer@.len(),
    ensures
        rgb@.len() == 3 * (width as int) * (height as int),
        forall|x: int, y: int|
            0 <= x < width && 0 <= y < height ==> #[trigger] pixel_ok(
                rgb@,
                yuv_buffer@,
                width as int,
                height as int,
                x,
                y,
            ),
        rgb@ == rgb_frame(yuv_buffer@, width as int, height as int),
{
    let ghost w = width as int;
    let ghost h = height as int;
    let mut rgb: Vec<u8> = Vec::new();
    proof {
        lemma_mul_is_associative(3, w, h);
        lemma_mul_nonnegative(w, h);
    }
    let total_pixels: usize = width * height;
    let mut y: usize = 0;
    while y < height
        invariant
            y <= height,
            w == width as int,
            h == height as int,
            total_pixels == width * height,
            3 * w * h <= usize::MAX as int,
            width > 0 && height > 0 ==> chroma_v_index(w - 1, h - 1, w, h) < yuv_buffer@.len(),
            rgb@.len() == 3 * ((y as int) * w),
            forall|xx: int, yy: int|
                0 <= xx < w && 0 <= yy < y ==> #[trigger] pixel_ok(rgb@, yuv_buffer@, w, h, xx, yy),
        decreases height - y,
    {
        let mut x: usize = 0;
        while x < width
            invariant
                x <= width,
                y < height,
                w == width as int,
                h == height as int,
                total_pixels == width * height,
                3 * w * h <= usize::MAX as int,
                width > 0 && height > 0 ==> chroma_v_index(w - 1, h - 1, w, h)
                    < yuv_buffer@.len(),
                rgb@.len() == 3 * ((y as int) * w + x as int),
                forall|xx: int, yy: int|
                    0 <= xx < w && 0 <= yy < y ==> #[trigger] pixel_ok(
                        rgb@,
                        yuv_buffer@,
                        w,
                        h,
                        xx,
                        yy,
                    ),
                forall|xx: int|
                    0 <= xx < x ==> #[trigger] pixel_ok(rgb@, yuv_buffer@, w, h, xx, y as int),
            decreases width - x,
        {
            proof {
                lemma_index_bounds(x as int, y as int, w, h);
                lemma_mul_is_associative(3, w, h);
                assert((y as int) * w + (x as int) < w * h);
            }
            let li: usize = y * width + x;
            let ci: usize = (y / 2) * width / 2 + x / 2 + total_pixels;
            let vi: usize = ci + total_pixels / 4;
            let yv = yuv_buffer[li] as i32;
            let u = yuv_buffer[ci] as i32;
            let v = yuv_buffer[vi] as i32;
            let c = yv - 16;
            let d = u - 128;
            let e = v - 128;
            let r = clamp_byte(floor_div_256(298 * c + 409 * e + 128));
            let g = clamp_byte(floor_div_256(298 * c - 100 * d - 208 * e + 128));
            let b = clamp_byte(floor_div_256(298 * c + 516 * d + 128));
            let ghost rgb_before = rgb@;
            rgb.push(r);
            rgb.push(g);
            rgb.push(b);
            proof {
                assert(pixel_ok(rgb@, yuv_buffer@, w, h, x as int, y as int));
                assert forall|xx: int, yy: int| 0 <= xx < w && 0 <= yy < y implies #[trigger]
                    pixel_ok(rgb@, yuv_buffer@, w, h, xx, yy) by {
                    assert(pixel_ok(rgb_before, yuv_buffer@, w, h, xx, yy));
                    lemma_mul_nonnegative(yy, w);
                    lemma_mul_inequality(yy + 1, y as int, w);
                    lemma_mul_is_distributive_add_other_way(w, yy, 1);
                    assert(3 * (yy * w + xx) + 3 <= rgb_before.len());
                }
                assert forall|xx: int| 0 <= xx < x implies #[trigger] pixel_ok(
                    rgb@,
                    yuv_buffer@,
                    w,
                    h,
                    xx,
                    y as int,
                ) by {
                    assert(pixel_ok(rgb_before, yuv_buffer@, w, h, xx, y as int));
                    lemma_mul_nonnegative(y as int, w);
                    assert(3 * (y as int * w + xx) + 3 <= rgb_before.len());
                }
            }
            x = x + 1;
        }
        proof {
            lemma_mul_is_distributive_add_other_way(w, y as int, 1);
        }
        y = y + 1;
    }
    proof {
        lemma_mul_is_associative(3, y as int, w);
        lemma_mul_is_commutative(y as int, w);
        lemma_mul_is_associative(3, w, y as int);
        if width > 0 && height > 0 {
            assert forall|k: int| 0 <= k < rgb@.len() implies rgb@[k] == rgb_byte_at(
                yuv_buffer@,
                w,
                h,
                k,
            ) by {
                vstd::arithmetic::div_mod::lemma_fundamental_div_mod(k, 3);
                vstd::arithmetic::div_mod::lemma_mod_division_less_than_divisor(k, 3);
                lemma_div_pos_is_pos(k, 3);
                let p = k / 3;
                let chan = k % 3;
                assert(p < w * h);
                vstd::arithmetic::div_mod::lemma_fundamental_div_mod(p, w);
                vstd::arithmetic::div_mod::lemma_mod_division_less_than_divisor(p, w);
                lemma_div_pos_is_pos(p, w);
                let py = p / w;
                let px = p % w;
                if py >= h {
                    lemma_mul_inequality(h, py, w);
                    lemma_mul_is_commutative(h, w);
                    assert(false);
                }
                assert(pixel_ok(rgb@, yuv_buffer@, w, h, px, py));
                assert(k == 3 * (py * w + px) + chan);
            }
            assert(rgb@ =~= rgb_frame(yuv_buffer@, w, h));
        } else {
            assert(w * h == 0);
            assert(rgb@ =~= rgb_frame(yuv_buffer@, w, h));
        }
    }
    rgb
}

} // verus!
