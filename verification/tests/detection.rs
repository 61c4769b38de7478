use camera_latency_test::arithmetic::{Arithmetic, Raster};
use camera_latency_test::detection::{
    check_headroom, detect_in_bounds, detect_transition_id, luma, read_in_bounds, FrameReading,
};
use camera_latency_test::layout::{quadrant_rect, Point, ScreenRect};
use camera_latency_test::roi::{
    normalized_roi_to_rect, pixel_bounds, rect_to_normalized_roi, select_roi, PixelBounds,
    RoiError, RoiNorm,
};
use camera_latency_test::stimulus::state_for;
use camera_latency_test::MeasurementMethod;

struct Ieee;

impl Arithmetic for Ieee {
    type Value = f32;

    fn from_count(n: u64) -> f32 {
        n as f32
    }

    fn plus(a: f32, b: f32) -> f32 {
        a + b
    }

    fn minus(a: f32, b: f32) -> f32 {
        a - b
    }

    fn times(a: f32, b: f32) -> f32 {
        a * b
    }

    fn over(a: f32, b: f32) -> f32 {
        a / b
    }
}

impl Raster for Ieee {
    fn floor_index(a: f32) -> usize {
        a.floor() as usize
    }

    fn ceil_index(a: f32) -> usize {
        a.ceil() as usize
    }

    fn round_index(a: f32) -> usize {
        a.round() as usize
    }

    fn lesser(a: f32, b: f32) -> f32 {
        a.min(b)
    }

    fn greater(a: f32, b: f32) -> f32 {
        a.max(b)
    }
}

const LUMA_STEP: MeasurementMethod = MeasurementMethod::LumaStep;
const QUAD_CODE: MeasurementMethod = MeasurementMethod::QuadCode;

/// A frame that shows the pattern of a transition on the pixels `x0..x1`, `y0..y1`
/// and is black elsewhere.
fn frame(
    method: MeasurementMethod,
    id: u64,
    width: usize,
    height: usize,
    bounds: PixelBounds,
) -> Vec<u8> {
    let colors = state_for(method, id).colors;
    let mut rgb = vec![0u8; width * height * 3];
    for y in bounds.y0..bounds.y1 {
        for x in bounds.x0..bounds.x1 {
            let right = x >= (bounds.x0 + bounds.x1) / 2;
            let bottom = y >= (bounds.y0 + bounds.y1) / 2;
            let quadrant = (right as usize) + 2 * (bottom as usize);
            let i = (y * width + x) * 3;
            rgb[i..i + 3].copy_from_slice(&colors[quadrant]);
        }
    }
    rgb
}

fn everything() -> RoiNorm<f32> {
    RoiNorm { x: 0.0, y: 0.0, w: 1.0, h: 1.0 }
}

#[test]
fn luma_weighs_the_channels() {
    for pixel in [[0u8, 0, 0], [255, 255, 255], [12, 200, 77], [240, 240, 240], [1, 2, 3]] {
        let [r, g, b] = pixel;
        let expected = 0.2126 * r as f32 + 0.7152 * g as f32 + 0.0722 * b as f32;
        assert_eq!(luma::<Ieee>(pixel), expected);
    }
    assert_eq!(luma::<Ieee>([0, 0, 0]), 0.0);
}

#[test]
fn shown_transitions_are_read_back() {
    let region = PixelBounds { x0: 20, y0: 10, x1: 60, y1: 40 };
    let roi = RoiNorm { x: 0.25, y: 0.2, w: 0.5, h: 0.6 };
    assert_eq!(pixel_bounds::<Ieee>(roi, 80, 50), region);
    for method in [LUMA_STEP, QUAD_CODE] {
        let mut previous = None;
        for id in 0..40u64 {
            let rgb = frame(method, id, 80, 50, region);
            let read = detect_transition_id::<Ieee>(method, 128.0, &rgb, 80, 50, roi, previous);
            assert_eq!(read, Ok(Some(id)));
            previous = Some(id);
        }
    }
}

#[test]
fn repeated_frames_are_ignored() {
    let region = PixelBounds { x0: 0, y0: 0, x1: 16, y1: 16 };
    for method in [LUMA_STEP, QUAD_CODE] {
        for id in [0u64, 3, 15, 16, 31, 100] {
            let rgb = frame(method, id, 16, 16, region);
            let read =
                detect_transition_id::<Ieee>(method, 128.0, &rgb, 16, 16, everything(), Some(id));
            assert_eq!(read, Ok(None));
        }
    }
}

#[test]
fn skipped_transitions_are_bridged() {
    let region = PixelBounds { x0: 0, y0: 0, x1: 16, y1: 16 };
    for step in 1..16u64 {
        let rgb = frame(QUAD_CODE, 9 + step, 16, 16, region);
        let read = detect_in_bounds::<Ieee>(QUAD_CODE, 128.0, &rgb, 16, 16, region, Some(9));
        assert_eq!(read, Some(9 + step));
    }
}

#[test]
fn first_reading_is_within_the_cycle() {
    let region = PixelBounds { x0: 0, y0: 0, x1: 16, y1: 16 };
    let rgb = frame(QUAD_CODE, 35, 16, 16, region);
    assert_eq!(detect_in_bounds::<Ieee>(QUAD_CODE, 128.0, &rgb, 16, 16, region, None), Some(3));
    let rgb = frame(LUMA_STEP, 35, 16, 16, region);
    assert_eq!(detect_in_bounds::<Ieee>(LUMA_STEP, 128.0, &rgb, 16, 16, region, None), Some(1));
}

#[test]
fn small_frames_are_not_read() {
    let rgb = vec![255u8; 3 * 4 * 4];
    for (width, height) in [(3usize, 4usize), (4, 3), (0, 0)] {
        let read =
            detect_transition_id::<Ieee>(LUMA_STEP, 128.0, &rgb, width, height, everything(), None);
        assert_eq!(read, Ok(None));
    }
    let read = detect_transition_id::<Ieee>(LUMA_STEP, 128.0, &rgb, 4, 4, everything(), None);
    assert_eq!(read, Ok(Some(1)));
}

#[test]
fn missing_pixels_are_black() {
    let read = detect_transition_id::<Ieee>(LUMA_STEP, 128.0, &[], 8, 8, everything(), Some(1));
    assert_eq!(read, Ok(Some(2)));
    let read = detect_transition_id::<Ieee>(QUAD_CODE, 128.0, &[], 8, 8, everything(), None);
    assert_eq!(read, Ok(Some(0)));
    let read = detect_transition_id::<Ieee>(QUAD_CODE, -1.0, &[], 8, 8, everything(), None);
    assert_eq!(read, Ok(Some(15)));
}

#[test]
fn samples_stay_within_the_frame() {
    let far = PixelBounds { x0: usize::MAX, y0: usize::MAX, x1: 0, y1: 0 };
    let mut rgb = vec![0u8; 3 * 6 * 5];
    let last = rgb.len();
    rgb[last - 3..].copy_from_slice(&[255, 255, 255]);
    assert_eq!(detect_in_bounds::<Ieee>(QUAD_CODE, 128.0, &rgb, 6, 5, far, None), Some(15));
}

#[test]
fn clamp_keeps_the_region_in_the_image() {
    let roi = RoiNorm { x: -0.5f32, y: 0.25, w: 2.0, h: 0.001 };
    let clamped = roi.clamp::<Ieee>().unwrap();
    assert_eq!((clamped.x, clamped.y, clamped.w, clamped.h), (0.0, 0.25, 1.0, 0.01));
    let again = clamped.clamp::<Ieee>().unwrap();
    assert_eq!((again.x, again.y, again.w, again.h), (0.0, 0.25, 1.0, 0.01));
}

#[test]
fn clamp_fails_without_room() {
    let narrow = RoiNorm { x: 0.995f32, y: 0.0, w: 0.5, h: 0.5 };
    assert_eq!(narrow.clamp::<Ieee>().err(), Some(RoiError::NoRoom));
    let low = RoiNorm { x: 0.0f32, y: 1.5, w: 0.5, h: 0.5 };
    assert_eq!(low.clamp::<Ieee>().err(), Some(RoiError::NoRoom));
    let nan = RoiNorm { x: f32::NAN, y: 0.0, w: 0.5, h: 0.5 };
    assert_eq!(nan.clamp::<Ieee>().err(), Some(RoiError::NoRoom));
    let rgb = vec![0u8; 3 * 64];
    let read = detect_transition_id::<Ieee>(LUMA_STEP, 128.0, &rgb, 8, 8, narrow, None);
    assert_eq!(read, Err(RoiError::NoRoom));
}

#[test]
fn bounds_round_outwards() {
    let roi = RoiNorm { x: 0.15f32, y: 0.0, w: 0.5, h: 0.01 };
    assert_eq!(
        pixel_bounds::<Ieee>(roi, 10, 10),
        PixelBounds { x0: 1, y0: 0, x1: 7, y1: 1 }
    );
}

#[test]
fn drags_become_regions() {
    let bounds = ScreenRect { left: 100.0f32, top: 50.0, right: 300.0, bottom: 150.0 };
    let start = Point { x: 250.0, y: 75.0 };
    let end = Point { x: 150.0, y: 500.0 };
    let roi = rect_to_normalized_roi::<Ieee>(start, end, bounds).unwrap();
    assert_eq!((roi.x, roi.y, roi.w, roi.h), (0.25, 0.25, 0.5, 0.75));
    let rect = normalized_roi_to_rect::<Ieee>(roi, bounds);
    assert_eq!((rect.left, rect.top, rect.right, rect.bottom), (150.0, 75.0, 250.0, 150.0));
}

#[test]
fn drags_of_no_extent_get_the_smallest_side() {
    let bounds = ScreenRect { left: 0.0f32, top: 0.0, right: 100.0, bottom: 100.0 };
    let point = Point { x: 40.0, y: 60.0 };
    let roi = rect_to_normalized_roi::<Ieee>(point, point, bounds).unwrap();
    assert_eq!((roi.x, roi.y, roi.w, roi.h), (0.4, 0.6, 0.01, 0.01));
    let crossed = ScreenRect { left: 1.0f32, top: 0.0, right: 0.0, bottom: 1.0 };
    assert_eq!(
        rect_to_normalized_roi::<Ieee>(point, point, crossed).err(),
        Some(RoiError::NoRoom)
    );
}

#[test]
fn selection_needs_both_ends() {
    let bounds = ScreenRect { left: 0.0f32, top: 0.0, right: 100.0, bottom: 100.0 };
    let near = Point { x: 10.0, y: 20.0 };
    let far = Point { x: 60.0, y: 70.0 };
    assert!(select_roi::<Ieee>(None, Some(far), bounds).is_none());
    assert!(select_roi::<Ieee>(Some(near), None, bounds).is_none());
    let roi = select_roi::<Ieee>(Some(near), Some(far), bounds).unwrap().unwrap();
    assert_eq!((roi.x, roi.y, roi.w, roi.h), (0.1, 0.2, 0.5, 0.5));
    let corner = Point { x: 100.0, y: 100.0 };
    let refused = select_roi::<Ieee>(Some(corner), Some(corner), bounds).unwrap();
    assert_eq!(refused.err(), Some(RoiError::NoRoom));
}

#[test]
fn quadrants_tile_the_square() {
    let whole = ScreenRect { left: 10.0f32, top: 20.0, right: 30.0, bottom: 60.0 };
    let sides: Vec<(f32, f32, f32, f32)> = (0..4)
        .map(|q| quadrant_rect::<Ieee>(whole, q))
        .map(|r| (r.left, r.top, r.right, r.bottom))
        .collect();
    assert_eq!(
        sides,
        vec![
            (10.0, 20.0, 20.0, 40.0),
            (20.0, 20.0, 30.0, 40.0),
            (10.0, 40.0, 20.0, 60.0),
            (20.0, 40.0, 30.0, 60.0),
        ]
    );
}

#[test]
fn filled_regions_of_any_size_are_read() {
    for x1 in 5..=16usize {
        for y1 in 4..=12usize {
            let region = PixelBounds { x0: 3, y0: 2, x1, y1 };
            for id in 1..16u64 {
                let rgb = frame(QUAD_CODE, id, 16, 12, region);
                let read = detect_in_bounds::<Ieee>(QUAD_CODE, 128.0, &rgb, 16, 12, region, Some(0));
                assert_eq!(read, Some(id));
            }
        }
    }
}

#[test]
fn torn_frame_is_filtered_out() {
    let rgb = [[255u8; 24], [0u8; 24]].concat();
    for previous in [None, Some(0), Some(1), Some(6)] {
        let read =
            detect_transition_id::<Ieee>(LUMA_STEP, 128.0, &rgb, 4, 4, everything(), previous);
        assert_eq!(read, Ok(None));
    }
    let region = PixelBounds { x0: 0, y0: 0, x1: 4, y1: 4 };
    let read = read_in_bounds::<Ieee>(LUMA_STEP, 128.0, &rgb, 4, 4, region, None);
    assert_eq!(read, FrameReading::Torn);
}

#[test]
fn sideways_steps_are_not_torn() {
    let mut rgb = Vec::new();
    for _ in 0..4 {
        rgb.extend_from_slice(&[255, 255, 255, 255, 255, 255, 0, 0, 0, 0, 0, 0]);
    }
    let read = detect_transition_id::<Ieee>(LUMA_STEP, 128.0, &rgb, 4, 4, everything(), None);
    assert_eq!(read, Ok(Some(1)));
}

/// Rows above `tear` of one frame, the rest of another.
fn torn(above: &[u8], below: &[u8], width: usize, tear: usize) -> Vec<u8> {
    let cut = tear * width * 3;
    [&above[..cut], &below[cut..]].concat()
}

#[test]
fn torn_codes_are_filtered_out() {
    let region = PixelBounds { x0: 0, y0: 0, x1: 16, y1: 16 };
    let above = frame(QUAD_CODE, 15, 16, 16, region);
    let below = frame(QUAD_CODE, 0, 16, 16, region);
    for tear in 0..=16 {
        let rgb = torn(&above, &below, 16, tear);
        let read = read_in_bounds::<Ieee>(QUAD_CODE, 128.0, &rgb, 16, 16, region, None);
        let expected = match tear {
            0..=2 => FrameReading::Transition(0),
            3..=5 => FrameReading::Torn,
            // Between the sampled rows of the top and the bottom quadrants.
            6..=10 => FrameReading::Transition(3),
            11..=14 => FrameReading::Torn,
            _ => FrameReading::Transition(15),
        };
        assert_eq!(read, expected);
    }
}

#[test]
fn torn_codes_of_the_smallest_frame_are_filtered_out() {
    let region = PixelBounds { x0: 0, y0: 0, x1: 4, y1: 4 };
    let above = frame(QUAD_CODE, 15, 4, 4, region);
    let below = frame(QUAD_CODE, 0, 4, 4, region);
    for tear in [1, 3] {
        let rgb = torn(&above, &below, 4, tear);
        let read = detect_transition_id::<Ieee>(QUAD_CODE, 128.0, &rgb, 4, 4, everything(), None);
        assert_eq!(read, Ok(None));
    }
}

#[test]
fn small_frames_show_nothing_after_any_transition() {
    let nowhere = RoiNorm { x: f32::NAN, y: 2.0, w: 0.0, h: 0.0 };
    for method in [LUMA_STEP, QUAD_CODE] {
        for (width, height) in [(3usize, 9usize), (9, 3), (0, 0)] {
            let read = detect_transition_id::<Ieee>(
                method, 128.0, &[255; 81], width, height, nowhere, Some(u64::MAX),
            );
            assert_eq!(read, Ok(None));
        }
    }
}

#[test]
fn last_transition_shown_still_is_ignored() {
    let rgb = vec![255u8; 3 * 16];
    let read = detect_transition_id::<Ieee>(
        LUMA_STEP, 128.0, &rgb, 4, 4, everything(), Some(u64::MAX),
    );
    assert_eq!(read, Ok(None));
}

#[test]
fn headroom_is_what_the_method_needs() {
    assert!(check_headroom(QUAD_CODE, None) && check_headroom(LUMA_STEP, None));
    assert!(check_headroom(LUMA_STEP, Some(u64::MAX - 1)));
    assert!(!check_headroom(LUMA_STEP, Some(u64::MAX)));
    assert!(check_headroom(QUAD_CODE, Some(u64::MAX - 32)));
    assert!(!check_headroom(QUAD_CODE, Some(u64::MAX - 31)));
}

#[test]
fn pixels_outside_the_region_have_no_influence() {
    let region = PixelBounds { x0: 5, y0: 3, x1: 12, y1: 9 };
    let plain = frame(QUAD_CODE, 11, 20, 14, region);
    let mut noisy = plain.clone();
    for y in 0..14 {
        for x in 0..20 {
            if !((5..12).contains(&x) && (3..9).contains(&y)) {
                noisy[(y * 20 + x) * 3] = 255;
                noisy[(y * 20 + x) * 3 + 1] = 255;
            }
        }
    }
    for rgb in [plain, noisy] {
        let read = detect_in_bounds::<Ieee>(QUAD_CODE, 128.0, &rgb, 20, 14, region, None);
        assert_eq!(read, Some(11));
    }
}

#[test]
fn clamping_twice_is_clamping_once() {
    for roi in [
        RoiNorm { x: -3.0f32, y: 0.4, w: 0.9, h: 0.9 },
        RoiNorm { x: 0.3, y: 0.2, w: 0.1, h: 0.0 },
        RoiNorm { x: 0.98, y: -0.0, w: 5.0, h: 1.0 },
    ] {
        let once = roi.clamp::<Ieee>().unwrap();
        let twice = once.clamp::<Ieee>().unwrap();
        assert_eq!((once.x, once.y, once.w, once.h), (twice.x, twice.y, twice.w, twice.h));
        assert!(0.0 <= once.x && once.x <= 1.0 && 0.01 <= once.w && once.w <= 1.0 - once.x);
        assert!(0.0 <= once.y && once.y <= 1.0 && 0.01 <= once.h && once.h <= 1.0 - once.y);
    }
}

#[test]
fn drag_direction_does_not_matter() {
    let bounds = ScreenRect { left: 10.0f32, top: 20.0, right: 110.0, bottom: 220.0 };
    let (a, b) = (Point { x: 30.0, y: 500.0 }, Point { x: 5.0, y: 60.0 });
    let corners = [
        (a, b),
        (b, a),
        (Point { x: a.x, y: b.y }, Point { x: b.x, y: a.y }),
        (Point { x: b.x, y: a.y }, Point { x: a.x, y: b.y }),
    ];
    for (start, end) in corners {
        let roi = rect_to_normalized_roi::<Ieee>(start, end, bounds).unwrap();
        assert_eq!((roi.x, roi.y, roi.w, roi.h), (0.0, 0.2, 0.2, 0.8));
    }
}

#[test]
fn drag_undoes_placing() {
    let bounds = ScreenRect { left: 0.0f32, top: 64.0, right: 256.0, bottom: 192.0 };
    let roi = RoiNorm { x: 0.25, y: 0.125, w: 0.5, h: 0.75 };
    let rect = normalized_roi_to_rect::<Ieee>(roi, bounds);
    let start = Point { x: rect.left, y: rect.top };
    let end = Point { x: rect.right, y: rect.bottom };
    let back = rect_to_normalized_roi::<Ieee>(start, end, bounds).unwrap();
    assert_eq!((back.x, back.y, back.w, back.h), (roi.x, roi.y, roi.w, roi.h));
}

#[test]
fn thresholds_between_the_levels_separate() {
    let region = PixelBounds { x0: 0, y0: 0, x1: 9, y1: 7 };
    for threshold in [17.0, 64.5, 128.0, 239.0] {
        for id in 3..18u64 {
            let rgb = frame(QUAD_CODE, id, 9, 7, region);
            let read = detect_transition_id::<Ieee>(
                QUAD_CODE, threshold, &rgb, 9, 7, everything(), Some(2),
            );
            assert_eq!(read, Ok(Some(id)));
        }
    }
}

#[test]
fn clamped_regions_lie_in_the_frame() {
    for (width, height) in [(4usize, 4usize), (7, 5), (640, 480)] {
        for x in [-1.0f32, 0.0, 0.3, 0.75, 0.98] {
            for w in [0.0f32, 0.2, 0.5, 3.0] {
                let roi = RoiNorm { x, y: x, w, h: w }.clamp::<Ieee>().unwrap();
                let b = pixel_bounds::<Ieee>(roi, width, height);
                assert!(b.x0 < b.x1 && b.x1 <= width && b.y0 < b.y1 && b.y1 <= height);
            }
        }
        assert_eq!(
            pixel_bounds::<Ieee>(everything(), width, height),
            PixelBounds { x0: 0, y0: 0, x1: width, y1: height }
        );
    }
}
