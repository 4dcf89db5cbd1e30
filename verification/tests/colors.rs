use eruption::color::{
    blend_overlay, blend_pixel, clear_canvas, copy_canvas, dim, mix_channels, RGBA,
};

fn float_level(mixed: f32, brightness: i64) -> u8 {
    ((mixed.floor() * brightness as f32 / 100.0) as u32 >> 8) as u8
}

fn float_channel(alpha: u8, foreground: u8, background: u8, brightness: i64) -> u8 {
    float_level(
        (alpha as f32) * foreground as f32 + (255 - alpha) as f32 * background as f32,
        brightness,
    )
}

fn color(r: u8, g: u8, b: u8, a: u8) -> RGBA {
    RGBA { r, g, b, a }
}

#[test]
fn dims_like_single_precision_up_to_full_brightness() {
    for brightness in [-1, 0, 1, 7, 33, 50, 66, 99, 100] {
        for mixed in 0..=65025u32 {
            assert_eq!(dim(mixed, brightness), float_level(mixed as f32, brightness));
        }
    }
}

#[test]
fn dims_like_single_precision_beyond_full_brightness() {
    for brightness in [101, 255, 258, 259, 300, 511, 1000, 4099, 65537] {
        for mixed in 0..=65025u32 {
            assert_eq!(dim(mixed, brightness), float_level(mixed as f32, brightness));
        }
    }
}

#[test]
fn dims_like_single_precision_at_any_brightness() {
    let mut brightness: i64 = 1;
    while brightness < i64::MAX / 3 {
        for offset in [-1, 0, 1] {
            for mixed in (0..=65025u32).step_by(997) {
                let value = brightness + offset;
                assert_eq!(dim(mixed, value), float_level(mixed as f32, value));
            }
        }
        brightness = brightness * 3 - 1;
        if brightness < 3 {
            brightness = 3;
        }
    }
    for value in [i64::MIN, -100, 16777217, i64::MAX - 1, i64::MAX] {
        for mixed in (0..=65025u32).step_by(101) {
            assert_eq!(dim(mixed, value), float_level(mixed as f32, value));
        }
    }
}

#[test]
fn mixes_channels_exactly() {
    assert_eq!(mix_channels(128, 200, 10), 128 * 200 + 127 * 10);
    assert_eq!(mix_channels(255, 255, 0), 65025);
    assert_eq!(mix_channels(0, 255, 0), 0);
}

#[test]
fn blends_like_single_precision() {
    let mut seed: u32 = 12345;
    for _ in 0..200000 {
        seed = seed.wrapping_mul(1664525).wrapping_add(1013904223);
        let [a, f, b, _] = seed.to_be_bytes();
        seed = seed.wrapping_mul(1664525).wrapping_add(1013904223);
        let brightness = (seed >> 24) as i64 % 101;
        let pixel = blend_pixel(color(f, f, f, a), color(b, b, b, 9), brightness);
        let expected = float_channel(a, f, b, brightness);
        assert_eq!(pixel, color(expected, expected, expected, a));
    }
}

#[test]
fn blends_one_pixel() {
    let pixel = blend_pixel(color(200, 100, 0, 128), color(10, 20, 30, 255), 100);
    assert_eq!(pixel, color(104, 59, 14, 128));
    let pixel = blend_pixel(color(200, 100, 0, 128), color(10, 20, 30, 255), 50);
    assert_eq!(pixel, color(52, 29, 7, 128));
}

#[test]
fn nothing_shines_without_brightness() {
    let pixel = blend_pixel(color(255, 255, 255, 255), color(255, 255, 255, 255), 0);
    assert_eq!(pixel, color(0, 0, 0, 255));
    let pixel = blend_pixel(color(255, 255, 255, 255), color(255, 255, 255, 255), -5);
    assert_eq!(pixel, color(0, 0, 0, 255));
}

#[test]
fn blending_never_brightens() {
    for alpha in [0u8, 1, 127, 254, 255] {
        for foreground in [0u8, 3, 128, 255] {
            for background in [0u8, 5, 200, 255] {
                let level = dim(mix_channels(alpha, foreground, background), 100);
                assert!(level <= foreground.max(background));
            }
        }
    }
}

#[test]
fn alpha_extremes_hide_one_side() {
    let opaque = color(1, 2, 3, 255);
    assert_eq!(
        blend_pixel(opaque, color(9, 9, 9, 9), 80),
        blend_pixel(opaque, color(200, 0, 100, 0), 80)
    );
    let canvas = color(50, 60, 70, 255);
    assert_eq!(
        blend_pixel(color(0, 0, 0, 0), canvas, 80),
        blend_pixel(color(255, 255, 255, 0), canvas, 80)
    );
}

#[test]
fn brightness_is_monotonic() {
    for mixed in [0u32, 1, 255, 256, 30000, 65025] {
        for brightness in -3..100 {
            assert!(dim(mixed, brightness) <= dim(mixed, brightness + 1));
        }
    }
}

#[test]
fn overlays_are_blended_pixel_by_pixel() {
    let mut canvas = vec![color(10, 20, 30, 255), color(0, 0, 0, 0)];
    let overlay = vec![color(200, 100, 0, 128), color(255, 255, 255, 255), color(1, 1, 1, 1)];
    blend_overlay(&mut canvas, &overlay, 100);
    assert_eq!(canvas, vec![color(104, 59, 14, 128), color(254, 254, 254, 255)]);
}

#[test]
fn the_canvas_is_cleared_and_copied() {
    let mut canvas = vec![color(1, 2, 3, 4), color(5, 6, 7, 8)];
    let mut shown = vec![color(9, 9, 9, 9), color(9, 9, 9, 9)];
    copy_canvas(&mut shown, &canvas);
    assert_eq!(shown, canvas);
    clear_canvas(&mut canvas);
    assert_eq!(canvas, vec![color(0, 0, 0, 0); 2]);
    assert_eq!(shown, vec![color(1, 2, 3, 4), color(5, 6, 7, 8)]);
}

#[test]
fn a_higher_brightness_makes_no_pixel_darker() {
    let base = vec![color(10, 120, 255, 0), color(0, 3, 200, 9)];
    let below = vec![color(250, 7, 90, 128), color(1, 2, 3, 255)];
    let above = vec![color(40, 180, 6, 77), color(255, 255, 255, 0)];
    let render = |brightness: i64| -> Vec<RGBA> {
        let mut canvas = base.clone();
        blend_overlay(&mut canvas, &below, brightness);
        blend_overlay(&mut canvas, &above, brightness);
        canvas
    };
    for brightness in -2..100 {
        let (dark, bright) = (render(brightness), render(brightness + 1));
        for (one, other) in dark.iter().zip(bright.iter()) {
            assert!(one.r <= other.r && one.g <= other.g && one.b <= other.b);
            assert_eq!(one.a, other.a);
        }
    }
}
