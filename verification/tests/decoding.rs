use camera_latency_test::arithmetic::{Arithmetic, Raster};
use camera_latency_test::decoding::{
    camera_image, check_decodable, decode_frame, DecodeError, SourceFormat,
};
use camera_latency_test::preview::build_preview;

struct Ieee;

impl Arithmetic for Ieee {
    type Value = f32;

    fn from_count(n: u64) -> f32 {
        n as f32
    }

    fn plus(a: f32, b: f32) -> f32 {
        a + b
    }

    fn minus(a: f32, b: f32) -> f32 {
        a - b
    }

    fn times(a: f32, b: f32) -> f32 {
        a * b
    }

    fn over(a: f32, b: f32) -> f32 {
        a / b
    }
}

impl Raster for Ieee {
    fn floor_index(a: f32) -> usize {
        a.floor() as usize
    }

    fn ceil_index(a: f32) -> usize {
        a.ceil() as usize
    }

    fn round_index(a: f32) -> usize {
        a.round() as usize
    }

    fn lesser(a: f32, b: f32) -> f32 {
        a.min(b)
    }

    fn greater(a: f32, b: f32) -> f32 {
        a.max(b)
    }
}

/// The level of a colour channel that brightness and colour differences stand for.
fn level(scaled: i32) -> u8 {
    ((scaled + 128) >> 8).clamp(0, 255) as u8
}

fn rgb_of(y: u8, u: u8, v: u8) -> [u8; 3] {
    let c = 298 * (y as i32 - 16);
    let (d, e) = (u as i32 - 128, v as i32 - 128);
    [level(c + 409 * e), level(c - 100 * d - 208 * e), level(c + 516 * d)]
}

#[test]
fn raw_colours_are_kept() {
    let data: Vec<u8> = (10..22).collect();
    assert_eq!(decode_frame(SourceFormat::RawRgb, 2, 2, &data), Ok(data.clone()));
    let turned = vec![12, 11, 10, 15, 14, 13, 18, 17, 16, 21, 20, 19];
    assert_eq!(decode_frame(SourceFormat::RawBgr, 2, 2, &data), Ok(turned));
}

#[test]
fn grey_is_the_same_in_all_colours() {
    let rgb = decode_frame(SourceFormat::Gray, 3, 1, &[7, 8, 9]);
    assert_eq!(rgb, Ok(vec![7, 7, 7, 8, 8, 8, 9, 9, 9]));
}

#[test]
fn surplus_bytes_are_kept() {
    assert_eq!(decode_frame(SourceFormat::RawRgb, 1, 1, &[1, 2, 3, 4]), Ok(vec![1, 2, 3, 4]));
    assert_eq!(decode_frame(SourceFormat::RawBgr, 1, 1, &[1, 2, 3, 4]), Ok(vec![3, 2, 1, 0]));
    assert_eq!(decode_frame(SourceFormat::Gray, 1, 1, &[5, 6]), Ok(vec![5, 5, 5, 6, 6, 6]));
}

#[test]
fn coded_colours_are_decoded() {
    let rgb = decode_frame(SourceFormat::Yuyv, 2, 1, &[81, 90, 200, 240]).unwrap();
    assert_eq!(rgb, [rgb_of(81, 90, 240), rgb_of(200, 90, 240)].concat());
    let data = [16, 235, 81, 200, 90, 240];
    let rgb = decode_frame(SourceFormat::Nv12, 2, 2, &data).unwrap();
    let expected: Vec<u8> = data[..4].iter().flat_map(|y| rgb_of(*y, 90, 240)).collect();
    assert_eq!(rgb, expected);
}

#[test]
fn malformed_frames_have_no_image() {
    let short = [0u8; 11];
    let malformed = Err(DecodeError::Malformed);
    assert_eq!(decode_frame(SourceFormat::RawRgb, 2, 2, &short), malformed);
    assert_eq!(decode_frame(SourceFormat::RawBgr, 2, 2, &short), malformed);
    assert_eq!(decode_frame(SourceFormat::Gray, 3, 4, &short), malformed);
    assert_eq!(decode_frame(SourceFormat::Yuyv, 2, 2, &short), malformed);
    assert_eq!(decode_frame(SourceFormat::Yuyv, 2, 3, &short[..8]), malformed);
    assert_eq!(decode_frame(SourceFormat::Nv12, 2, 2, &short), malformed);
    assert_eq!(decode_frame(SourceFormat::Nv12, 3, 2, &short[..9]), malformed);
    assert_eq!(decode_frame(SourceFormat::Nv12, 0, 2, &short), malformed);
    assert_eq!(decode_frame(SourceFormat::RawRgb, u32::MAX, u32::MAX, &short), malformed);
}

#[test]
fn empty_images_are_images() {
    assert_eq!(decode_frame(SourceFormat::RawRgb, 0, 5, &[]), Ok(vec![]));
    assert_eq!(decode_frame(SourceFormat::Yuyv, 5, 0, &[]), Ok(vec![]));
    assert_eq!(decode_frame(SourceFormat::Nv12, 4, 0, &[]), Ok(vec![]));
}

#[test]
fn frames_out_of_range_are_not_decoded() {
    for (width, height) in [(u32::MAX, 2), (u32::MAX, 0), (40_000, 40_000), (0, 2)] {
        assert!(!check_decodable(SourceFormat::Nv12, width, height, 0));
        let r = decode_frame(SourceFormat::Nv12, width, height, &[]);
        assert_eq!(r, Err(DecodeError::OutOfRange));
    }
    assert!(check_decodable(SourceFormat::Nv12, 0, 3, 0));
    assert!(!check_decodable(SourceFormat::Gray, 1, 1, usize::MAX / 2));
    assert!(!check_decodable(SourceFormat::Yuyv, 1, 1, usize::MAX / 2));
    assert!(check_decodable(SourceFormat::RawBgr, 1, 1, usize::MAX / 2));
}

#[test]
fn images_come_with_their_preview() {
    let data: Vec<u8> = (0..1280 * 4).map(|i| (i % 241) as u8).collect();
    let image = camera_image::<Ieee>(SourceFormat::Gray, 1280, 4, &data).unwrap();
    assert_eq!((image.width, image.height), (1280, 4));
    assert_eq!(image.rgb[3 * 77..3 * 78], [77; 3]);
    let preview = build_preview::<Ieee>(&image.rgb, 1280, 4, 640);
    assert_eq!((image.preview.width, image.preview.height), (640, 2));
    assert_eq!(image.preview.rgb, preview.rgb);

    let small = camera_image::<Ieee>(SourceFormat::Gray, 2, 1, &[3, 4]).unwrap();
    assert_eq!(small.preview.rgb, small.rgb);
    let r = camera_image::<Ieee>(SourceFormat::Gray, 641, 0, &[]);
    assert_eq!(r.err(), Some(DecodeError::NoRows));
    let r = camera_image::<Ieee>(SourceFormat::Gray, 2, 2, &[]);
    assert_eq!(r.err(), Some(DecodeError::Malformed));
    let r = camera_image::<Ieee>(SourceFormat::Nv12, u32::MAX, 2, &[]);
    assert_eq!(r.err(), Some(DecodeError::OutOfRange));
}
