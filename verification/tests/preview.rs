use camera_latency_test::arithmetic::{Arithmetic, Raster};
use camera_latency_test::preview::{
    apply_mask_to_roi, build_preview, check_previewable, mask_pixels, resample, rgb_to_color_image, PREVIEW_WIDTH,
};
use camera_latency_test::roi::{PixelBounds, RoiError, RoiNorm};

struct Ieee;

impl Arithmetic for Ieee {
    type Value = f32;

    fn from_count(n: u64) -> f32 {
        n as f32
    }

    fn plus(a: f32, b: f32) -> f32 {
        a + b
    }

    fn minus(a: f32, b: f32) -> f32 {
        a - b
    }

    fn times(a: f32, b: f32) -> f32 {
        a * b
    }

    fn over(a: f32, b: f32) -> f32 {
        a / b
    }
}

impl Raster for Ieee {
    fn floor_index(a: f32) -> usize {
        a.floor() as usize
    }

    fn ceil_index(a: f32) -> usize {
        a.ceil() as usize
    }

    fn round_index(a: f32) -> usize {
        a.round() as usize
    }

    fn lesser(a: f32, b: f32) -> f32 {
        a.min(b)
    }

    fn greater(a: f32, b: f32) -> f32 {
        a.max(b)
    }
}

fn picture(width: usize, height: usize) -> Vec<u8> {
    (0..width * height * 3).map(|i| (i * 7 % 251) as u8).collect()
}

/// Scaling by floating point coordinates, pixel by pixel.
fn float_preview(raw: &[u8], width: usize, height: usize, max_w: usize) -> (usize, Vec<u8>) {
    let scale = max_w as f32 / width as f32;
    let out_h = ((height as f32 * scale).round() as usize).max(1);
    let mut out = vec![0u8; max_w * out_h * 3];
    for oy in 0..out_h {
        for ox in 0..max_w {
            let ix = ((ox as f32 / max_w as f32) * width as f32).floor() as usize;
            let iy = ((oy as f32 / out_h as f32) * height as f32).floor() as usize;
            let src = (iy.min(height - 1) * width + ix.min(width - 1)) * 3;
            let dst = (oy * max_w + ox) * 3;
            out[dst..dst + 3].copy_from_slice(&raw[src..src + 3]);
        }
    }
    (out_h, out)
}

#[test]
fn narrow_images_are_shown_as_they_are() {
    let raw = picture(5, 3);
    let frame = build_preview::<Ieee>(&raw, 5, 3, 5);
    assert_eq!((frame.width, frame.height), (5, 3));
    assert_eq!(frame.rgb, raw);
}

#[test]
fn wide_images_are_scaled() {
    for (width, height, max_w) in [(7, 5, 3), (1280, 720, 640), (1000, 3, 640), (641, 17, 640)] {
        let raw = picture(width, height);
        let frame = build_preview::<Ieee>(&raw, width, height, max_w);
        let (out_h, rgb) = float_preview(&raw, width, height, max_w);
        assert_eq!((frame.width, frame.height), (max_w, out_h));
        assert!(frame.rgb == rgb);
    }
    assert_eq!(PREVIEW_WIDTH, 640);
}

#[test]
fn scaled_images_have_a_row() {
    let raw = picture(100, 1);
    let frame = build_preview::<Ieee>(&raw, 100, 1, 10);
    assert_eq!((frame.width, frame.height), (10, 1));
    assert_eq!(frame.rgb.len(), 30);
    assert_eq!(frame.rgb[3..6], raw[30..33]);
    let frame = build_preview::<Ieee>(&raw, 100, 1, 0);
    assert_eq!((frame.width, frame.height, frame.rgb.len()), (0, 1, 0));
}

#[test]
fn cut_images_are_not_scaled() {
    let raw = picture(10, 4);
    assert!(check_previewable(&raw, 10, 4, 5));
    assert!(!check_previewable(&raw[1..], 10, 4, 5));
    assert!(!check_previewable(&raw, 10, 0, 5));
    assert!(!check_previewable(&raw, usize::MAX, usize::MAX, 5));
    assert!(check_previewable(&raw[1..], 10, 4, 10));
    assert!(check_previewable(&[], 10, 4, 0));
}

#[test]
fn resampling_picks_columns_and_rows() {
    let raw: Vec<u8> = (0..18).collect();
    let rgb = resample(&raw, 3, 2, &vec![2, 0], &vec![1]);
    assert_eq!(rgb, vec![15, 16, 17, 9, 10, 11]);
}

#[test]
fn mask_dims_as_floating_point_does() {
    for level in 0..=255u8 {
        let mut rgb = vec![level; 3];
        mask_pixels(&mut rgb, 1, 1, PixelBounds { x0: 0, y0: 0, x1: 1, y1: 1 });
        assert_eq!(rgb, vec![(level as f32 * 0.15) as u8; 3]);
    }
}

#[test]
fn mask_covers_the_region_only() {
    let mut rgb = vec![100u8; 3 * 4 * 3];
    mask_pixels(&mut rgb, 4, 3, PixelBounds { x0: 1, y0: 1, x1: 3, y1: 9 });
    for y in 0..3 {
        for x in 0..4 {
            let inside = (1..3).contains(&x) && y >= 1;
            let i = (y * 4 + x) * 3;
            assert_eq!(rgb[i..i + 3], if inside { [15u8; 3] } else { [100u8; 3] });
        }
    }
}

#[test]
fn mask_skips_what_is_missing() {
    let mut rgb = vec![100u8; 8];
    mask_pixels(&mut rgb, 2, 2, PixelBounds { x0: 0, y0: 0, x1: 2, y1: 2 });
    assert_eq!(rgb, vec![15, 15, 15, 15, 15, 15, 100, 100]);
    let mut empty: Vec<u8> = Vec::new();
    mask_pixels(&mut empty, 0, 5, PixelBounds { x0: 0, y0: 0, x1: 2, y1: 2 });
    assert!(empty.is_empty());
}

#[test]
fn mask_of_a_region_of_interest() {
    let mut rgb = vec![200u8; 3 * 10 * 10];
    let roi = RoiNorm { x: 0.5f32, y: 0.0, w: 0.5, h: 0.1 };
    assert_eq!(apply_mask_to_roi::<Ieee>(&mut rgb, 10, 10, roi), Ok(()));
    assert_eq!(rgb[0..15], [200u8; 15]);
    assert_eq!(rgb[15..30], [30u8; 15]);
    assert!(rgb[30..].iter().all(|level| *level == 200));

    let before = rgb.clone();
    let outside = RoiNorm { x: 1.0f32, y: 0.0, w: 0.5, h: 0.1 };
    assert_eq!(apply_mask_to_roi::<Ieee>(&mut rgb, 10, 10, outside), Err(RoiError::NoRoom));
    assert_eq!(rgb, before);
}

#[test]
fn color_image_lists_whole_pixels() {
    let image = rgb_to_color_image(2, 1, &[1, 2, 3, 4, 5, 6, 7]);
    assert_eq!(image.size, [2, 1]);
    assert_eq!(image.pixels, vec![[1, 2, 3], [4, 5, 6]]);
}
