use cam_to_hue::clamp;
use cam_to_hue::color::Rgb;
use cam_to_hue::convert::yuv_to_rgb;
use cam_to_hue::mapper::{color_to_hsl, color_to_light_command};
use cam_to_hue::palette::generate_palette_from_rgb_buffer;

/// A 4x2 planar frame: 8 luma bytes, then 2 chroma U bytes, then 2 chroma V
/// bytes, every pixel carrying Y=81, U=90, V=240 (a saturated red).
fn uniform_red_frame() -> Vec<u8> {
    let mut buf = vec![81u8; 8];
    buf.extend_from_slice(&[90, 90]);
    buf.extend_from_slice(&[240, 240]);
    buf
}

#[test]
fn clamp_picks_the_nearer_bound() {
    assert_eq!(clamp(-3, 0, 255), 0);
    assert_eq!(clamp(300, 0, 255), 255);
    assert_eq!(clamp(42, 0, 255), 42);
}

#[test]
fn convert_empty_frame_is_empty() {
    let rgb = yuv_to_rgb(&Vec::new(), 0, 0);
    assert!(rgb.is_empty());
}

#[test]
fn convert_output_length_is_three_per_pixel() {
    let buf = uniform_red_frame();
    let rgb = yuv_to_rgb(&buf, 4, 2);
    assert_eq!(rgb.len(), 3 * 4 * 2);
}

#[test]
fn convert_uniform_frame_gives_uniform_color() {
    let buf = uniform_red_frame();
    let rgb = yuv_to_rgb(&buf, 4, 2);
    // Y=81, U=90, V=240: R = (298*65 + 409*112 + 128) >> 8 = 255;
    // G = (298*65 - 100*(-38) - 208*112 + 128) >> 8 = 0;
    // B = (298*65 + 516*(-38) + 128) >> 8 = floor(-110/256) clamped to 0.
    for p in 0..8 {
        assert_eq!(&rgb[3 * p..3 * p + 3], &[255, 0, 0]);
    }
}

#[test]
fn convert_grayscale_ramp_matches_transform() {
    // 2x2 frame, chroma neutral at 128: each pixel is (298*(Y-16)+128)>>8 in
    // all three channels, clamped.
    let buf = vec![16u8, 100, 200, 235, 128, 128];
    let rgb = yuv_to_rgb(&buf, 2, 2);
    assert_eq!(
        rgb,
        vec![0, 0, 0, 98, 98, 98, 214, 214, 214, 255, 255, 255]
    );
}

#[test]
fn palette_request_of_zero_is_empty() {
    let buf = uniform_red_frame();
    let rgb = yuv_to_rgb(&buf, 4, 2);
    let palette = generate_palette_from_rgb_buffer(&rgb, 0);
    assert!(palette.is_empty());
}

#[test]
fn palette_of_all_overexposed_input_is_empty() {
    // Every sampled pixel has all three channels above 240.
    let rgb = vec![255u8; 3 * 9];
    let palette = generate_palette_from_rgb_buffer(&rgb, 3);
    assert!(palette.is_empty());
}

#[test]
fn palette_overexposure_needs_all_channels_above_threshold() {
    // A channel exactly at the threshold keeps the pixel: one distinct
    // surviving color, so the palette holds one color however many are asked.
    let palette = generate_palette_from_rgb_buffer(&vec![241, 241, 240], 2);
    assert_eq!(palette.len(), 1);
    // All three channels above the threshold drop it.
    let palette = generate_palette_from_rgb_buffer(&vec![241, 241, 241], 2);
    assert!(palette.is_empty());
}

/// Nine pixels; the sampled ones (0, 3 and 6) carry three distinct colors.
fn three_distinct_buffer() -> Vec<u8> {
    let mut rgb = vec![120u8, 120, 120].repeat(9);
    rgb[0..3].copy_from_slice(&[200, 30, 30]);
    rgb[9..12].copy_from_slice(&[30, 200, 30]);
    rgb[18..21].copy_from_slice(&[30, 30, 200]);
    rgb
}

#[test]
fn palette_holds_the_requested_count() {
    // Three distinct sampled colors cover a request of two...
    let palette = generate_palette_from_rgb_buffer(&three_distinct_buffer(), 2);
    assert_eq!(palette.len(), 2);
    // ...and exactly three are asked for, three come back.
    let palette = generate_palette_from_rgb_buffer(&three_distinct_buffer(), 3);
    assert_eq!(palette.len(), 3);
}

#[test]
fn palette_is_capped_at_the_distinct_sample_count() {
    // Only three distinct colors survive: a request of five yields three.
    let palette = generate_palette_from_rgb_buffer(&three_distinct_buffer(), 5);
    assert_eq!(palette.len(), 3);
    // A uniform frame has one distinct sampled color: a request of two
    // yields that single color, never an invented second one.
    let buf = uniform_red_frame();
    let rgb = yuv_to_rgb(&buf, 4, 2);
    let palette = generate_palette_from_rgb_buffer(&rgb, 2);
    assert_eq!(palette.len(), 1);
    assert_eq!(palette[0], Rgb { r: 255, g: 0, b: 0 });
}

#[test]
fn palette_samples_every_third_pixel() {
    // Nine pixels; only pixels 0, 3 and 6 are examined. Make those three
    // overexposed and all others vivid: the palette must come out empty.
    let mut rgb = vec![200u8, 30, 30].repeat(9);
    for p in [0usize, 3, 6] {
        rgb[3 * p..3 * p + 3].copy_from_slice(&[250, 250, 250]);
    }
    let palette = generate_palette_from_rgb_buffer(&rgb, 4);
    assert!(palette.is_empty());
}

#[test]
fn mapper_red_is_full_saturation_half_light() {
    assert_eq!(color_to_hsl(&Rgb { r: 255, g: 0, b: 0 }), (0, 255, 127));
}

#[test]
fn mapper_achromatic_has_zero_hue_and_saturation() {
    assert_eq!(color_to_hsl(&Rgb { r: 100, g: 100, b: 100 }), (0, 0, 100));
    assert_eq!(color_to_hsl(&Rgb { r: 0, g: 0, b: 0 }), (0, 0, 0));
    assert_eq!(color_to_hsl(&Rgb { r: 255, g: 255, b: 255 }), (0, 0, 255));
}

#[test]
fn mapper_light_chromatic_color() {
    // (200,150,100): max 200, min 100, sum 300 > 255:
    // s = 255*100/210 = 121, h = 65535*50/600 = 5461, l = 150.
    assert_eq!(color_to_hsl(&Rgb { r: 200, g: 150, b: 100 }), (5461, 121, 150));
}

#[test]
fn mapper_green_and_blue_maxima() {
    // (50,200,100): h = 65535*(2*150 + 100 - 50)/900 = 25485, s = 255*150/250.
    assert_eq!(color_to_hsl(&Rgb { r: 50, g: 200, b: 100 }), (25485, 153, 125));
    // (100,50,200): h = 65535*(4*150 + 100 - 50)/900 = 47330.
    assert_eq!(color_to_hsl(&Rgb { r: 100, g: 50, b: 200 }), (47330, 153, 125));
}

#[test]
fn mapper_red_maximum_wraps_below_one() {
    // (200,50,100): g < b, h = 65535*(6*150 - 50)/900 = 61894.
    assert_eq!(color_to_hsl(&Rgb { r: 200, g: 50, b: 100 }), (61894, 153, 125));
}

#[test]
fn light_command_carries_the_hsl_triple() {
    let cmd = color_to_light_command(&Rgb { r: 255, g: 0, b: 0 });
    assert_eq!(cmd.hue, 0);
    assert_eq!(cmd.sat, 255);
    assert_eq!(cmd.bri, 127);
}

#[test]
fn end_to_end_red_frame_to_light_command() {
    // The synthetic frame converts to pure red everywhere; with one light the
    // palette is that dominant color, and its command is hue 0, saturation
    // 255, brightness 127.
    let buf = uniform_red_frame();
    let rgb = yuv_to_rgb(&buf, 4, 2);
    let palette = generate_palette_from_rgb_buffer(&rgb, 1);
    assert_eq!(palette.len(), 1);
    assert_eq!(palette[0], Rgb { r: 255, g: 0, b: 0 });
    let cmd = color_to_light_command(&palette[0]);
    assert_eq!((cmd.hue, cmd.sat, cmd.bri), (0, 255, 127));
}
