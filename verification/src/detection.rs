//! Reading the shown transition off a camera frame.
//!
//! A frame is a row by row sequence of pixels, three bytes each: red, green, blue.

#[allow(unused_imports)]
use vstd::math::{max, min};
use vstd::prelude::*;

use crate::analysis::MeasurementMethod;
#[allow(unused_imports)]
use crate::arithmetic::{fraction, is_above, is_count, is_fraction, is_product, is_sum};
use crate::arithmetic::{Arithmetic, Raster};
#[allow(unused_imports)]
use crate::roi::{are_bounds, is_clamped_roi};
use crate::roi::{pixel_bounds, PixelBounds, RoiError, RoiNorm};
use crate::stimulus::decode_pattern;
#[allow(unused_imports)]
use crate::stimulus::{
    code_of, decoded, grey, is_bottom, is_light, is_right, law_decoding_inverts_display,
    law_decoding_moves_forward, law_first_decoding_is_id_within_cycle, law_pattern_spells_id, shown,
    DARK_LEVEL, LIGHT_LEVEL,
};

verus! {

/// The smallest image side in which transitions are looked for.
pub const MIN_SIDE: usize = 4;

/// The heights at which a quadrant is sampled.
#[derive(Debug, Clone, Copy, PartialEq, Eq, Structural)]
pub enum SampleHeight {
    Centre,
    Upper,
    Lower,
}

/// How many pixels a region from `p0` to `p1` extends: at least two.
pub open spec fn extent_of(p0: usize, p1: usize) -> int {
    max(p1 - p0, 2)
}

/// The pixel `offset` into a region that begins at `p0`, within an image of `len` pixels.
pub open spec fn inside(p0: usize, offset: int, len: usize) -> int {
    min(p0 + offset, len - 1)
}

/// Where the centre of a quadrant lies along one axis, in a region from `p0` to
/// `p1` of an image of `len` pixels: a quarter into the region for the near
/// quadrants, three quarters for the far ones, and within the image.
pub open spec fn quadrant_centre(p0: usize, p1: usize, len: usize, far: bool) -> int {
    let extent = extent_of(p0, p1);
    inside(
        p0,
        if far {
            3 * extent / 4
        } else {
            extent / 4
        },
        len,
    )
}

/// The row in which a quadrant is sampled. Above and below the centre that is a
/// quarter and three quarters into the quadrant.
pub open spec fn quadrant_row(
    p0: usize,
    p1: usize,
    len: usize,
    far: bool,
    at: SampleHeight,
) -> int {
    let extent = extent_of(p0, p1);
    match at {
        SampleHeight::Centre => quadrant_centre(p0, p1, len, far),
        SampleHeight::Upper => inside(
            p0,
            if far {
                5 * extent / 8
            } else {
                extent / 8
            },
            len,
        ),
        SampleHeight::Lower => inside(
            p0,
            if far {
                7 * extent / 8
            } else {
                3 * (extent - 1) / 8
            },
            len,
        ),
    }
}

/// The pixel at position `p` of a frame; black where the frame ends before it.
pub open spec fn pixel_or_black(rgb: Seq<u8>, p: int) -> Seq<u8> {
    if 3 * p + 2 < rgb.len() {
        rgb.subrange(3 * p, 3 * p + 3)
    } else {
        seq![0, 0, 0]
    }
}

/// The pixel in which quadrant `q` of a region is sampled.
pub open spec fn quadrant_pixel(
    rgb: Seq<u8>,
    width: usize,
    height: usize,
    b: PixelBounds,
    at: SampleHeight,
    q: int,
) -> Seq<u8> {
    let x = quadrant_centre(b.x0, b.x1, width, is_right(q));
    let y = quadrant_row(b.y0, b.y1, height, is_bottom(q), at);
    pixel_or_black(rgb, y * width + x)
}

/// `r` is `level` times `weight` ten-thousandths.
pub open spec fn is_weighted<A: Arithmetic>(weight: u64, level: u8, r: A::Value) -> bool {
    exists|w: A::Value, v: A::Value|
        {
            &&& is_fraction::<A>(weight, 10000, w)
            &&& is_count::<A>(level as u64, v)
            &&& #[trigger] is_product::<A>(w, v, r)
        }
}

/// `luma` is the perceived brightness of a pixel:
/// 0.2126 of its red, 0.7152 of its green and 0.0722 of its blue.
pub open spec fn is_luma<A: Arithmetic>(pixel: Seq<u8>, luma: A::Value) -> bool {
    exists|red: A::Value, green: A::Value, blue: A::Value, warm: A::Value|
        {
            &&& is_weighted::<A>(2126, pixel[0], red)
            &&& is_weighted::<A>(7152, pixel[1], green)
            &&& is_weighted::<A>(722, pixel[2], blue)
            &&& #[trigger] is_sum::<A>(red, green, warm)
            &&& #[trigger] is_sum::<A>(warm, blue, luma)
        }
}

/// `bright` is the outcome of holding a pixel's brightness against the threshold.
pub open spec fn is_brightness<A: Arithmetic>(
    pixel: Seq<u8>,
    threshold: A::Value,
    bright: bool,
) -> bool {
    exists|luma: A::Value| #[trigger]
        is_luma::<A>(pixel, luma) && is_above(luma, threshold, bright)
}

/// `bright` tells which quadrants are bright at one height.
pub open spec fn is_pattern<A: Arithmetic>(
    threshold: A::Value,
    rgb: Seq<u8>,
    width: usize,
    height: usize,
    b: PixelBounds,
    at: SampleHeight,
    bright: Seq<bool>,
) -> bool {
    &&& bright.len() == 4
    &&& forall|q: int|
        0 <= q < 4 ==> is_brightness::<A>(
            quadrant_pixel(rgb, width, height, b, at, q),
            threshold,
            #[trigger] bright[q],
        )
}

/// The heights at which a method samples the quadrants, the centres first.
pub open spec fn heights_read(method: MeasurementMethod) -> Seq<SampleHeight> {
    match method {
        MeasurementMethod::LumaStep => seq![SampleHeight::Centre],
        MeasurementMethod::QuadCode => seq![
            SampleHeight::Centre,
            SampleHeight::Upper,
            SampleHeight::Lower,
        ],
    }
}

/// `patterns` are what the method sees at each of its heights.
pub open spec fn is_sampling<A: Arithmetic>(
    method: MeasurementMethod,
    threshold: A::Value,
    rgb: Seq<u8>,
    width: usize,
    height: usize,
    b: PixelBounds,
    patterns: Seq<Seq<bool>>,
) -> bool {
    &&& patterns.len() == heights_read(method).len()
    &&& forall|h: int|
        0 <= h < patterns.len() ==> is_pattern::<A>(
            threshold,
            rgb,
            width,
            height,
            b,
            heights_read(method)[h],
            #[trigger] patterns[h],
        )
}

/// The top and the bottom quadrants do not look alike.
pub open spec fn is_torn(bright: Seq<bool>) -> bool {
    bright[0] != bright[2] || bright[1] != bright[3]
}

/// The frame is torn: it shows one transition at its top and another one at its
/// bottom. A step of brightness is the same all over, so there the top and the
/// bottom quadrants differ; with coded quadrants what is read at one height
/// differs from what is read at another.
pub open spec fn is_torn_frame(method: MeasurementMethod, patterns: Seq<Seq<bool>>) -> bool {
    match method {
        MeasurementMethod::LumaStep => is_torn(patterns[0]),
        MeasurementMethod::QuadCode => patterns[1] != patterns[0] || patterns[2] != patterns[0],
    }
}

/// The transition that follows `previous_id` when the quadrants look like
/// `bright`; none where they show the previous transition still.
pub open spec fn followed(
    method: MeasurementMethod,
    bright: Seq<bool>,
    previous_id: Option<u64>,
) -> Option<int> {
    match method {
        MeasurementMethod::LumaStep => {
            let bit: int = if bright[0] {
                1
            } else {
                0
            };
            match previous_id {
                None => Some(bit),
                Some(previous) => if previous % 2 == bit {
                    None
                } else {
                    Some(previous + 1)
                },
            }
        },
        MeasurementMethod::QuadCode => match previous_id {
            Some(previous) if previous % 16 == code_of(bright) => None,
            _ => Some(decoded(code_of(bright), previous_id)),
        },
    }
}

/// What a frame shows.
#[derive(Debug, Clone, Copy, PartialEq, Eq, Structural)]
pub enum FrameReading {
    /// No transition that is new.
    Nothing,
    /// Parts of two transitions.
    Torn,
    Transition(u64),
}

/// What the patterns seen at the heights of a method mean.
pub open spec fn is_meaning(
    method: MeasurementMethod,
    patterns: Seq<Seq<bool>>,
    previous_id: Option<u64>,
    reading: FrameReading,
) -> bool {
    match reading {
        FrameReading::Torn => is_torn_frame(method, patterns),
        FrameReading::Nothing => !is_torn_frame(method, patterns) && followed(
            method,
            patterns[0],
            previous_id,
        ) is None,
        FrameReading::Transition(id) => !is_torn_frame(method, patterns) && followed(
            method,
            patterns[0],
            previous_id,
        ) == Some(id as int),
    }
}

/// `reading` is what a region of a frame shows.
pub open spec fn is_reading<A: Arithmetic>(
    method: MeasurementMethod,
    threshold: A::Value,
    rgb: Seq<u8>,
    width: usize,
    height: usize,
    b: PixelBounds,
    previous_id: Option<u64>,
    reading: FrameReading,
) -> bool {
    exists|patterns: Seq<Seq<bool>>| #[trigger]
        is_sampling::<A>(method, threshold, rgb, width, height, b, patterns) && is_meaning(
            method,
            patterns,
            previous_id,
            reading,
        )
}

/// The transition of a reading, if it is one.
pub open spec fn transition_of(reading: FrameReading) -> Option<u64> {
    match reading {
        FrameReading::Transition(id) => Some(id),
        _ => None,
    }
}

/// `id` is the transition that is read off a region of a frame; torn frames show none.
pub open spec fn is_detection<A: Arithmetic>(
    method: MeasurementMethod,
    threshold: A::Value,
    rgb: Seq<u8>,
    width: usize,
    height: usize,
    b: PixelBounds,
    previous_id: Option<u64>,
    id: Option<u64>,
) -> bool {
    exists|reading: FrameReading| #[trigger]
        is_reading::<A>(method, threshold, rgb, width, height, b, previous_id, reading) && id
            == transition_of(reading)
}

/// The ids that can follow `previous_id` fit their type.
pub open spec fn has_headroom(method: MeasurementMethod, previous_id: Option<u64>) -> bool {
    match (method, previous_id) {
        (_, None) => true,
        (MeasurementMethod::LumaStep, Some(previous)) => previous < u64::MAX,
        (MeasurementMethod::QuadCode, Some(previous)) => previous + 32 <= u64::MAX,
    }
}

/// Nothing follows `previous_id` in the region.
pub open spec fn is_settled<A: Arithmetic>(
    method: MeasurementMethod,
    threshold: A::Value,
    rgb: Seq<u8>,
    width: usize,
    height: usize,
    b: PixelBounds,
    previous_id: Option<u64>,
) -> bool {
    forall|patterns: Seq<Seq<bool>>| #[trigger]
        is_sampling::<A>(method, threshold, rgb, width, height, b, patterns) ==> is_torn_frame(
            method,
            patterns,
        ) || followed(method, patterns[0], previous_id) is None
}

/// Tells whether the ids that can follow `previous_id` fit their type.
pub fn check_headroom(method: MeasurementMethod, previous_id: Option<u64>) -> (ok: bool)
    ensures
        ok == has_headroom(method, previous_id),
{
    match (method, previous_id) {
        (_, None) => true,
        (MeasurementMethod::LumaStep, Some(previous)) => previous < u64::MAX,
        (MeasurementMethod::QuadCode, Some(previous)) => previous <= u64::MAX - 32,
    }
}

/// The pixel `eighths` eighths of `extent` into a region.
fn pixel_inside(p0: usize, extent: usize, eighths: u128, len: usize) -> (p: usize)
    requires
        len > 0,
        eighths <= 8,
    ensures
        p == inside(p0, eighths * extent / 8, len),
{
    assert(0 <= eighths * extent <= 8 * extent) by (nonlinear_arith)
        requires
            0 <= eighths <= 8,
            0 <= extent,
    ;
    let at: u128 = p0 as u128 + eighths * extent as u128 / 8;
    if at < len as u128 {
        at as usize
    } else {
        len - 1
    }
}

/// How many pixels a region extends.
fn extent(p0: usize, p1: usize) -> (e: usize)
    ensures
        e == extent_of(p0, p1),
{
    if p1 > p0 && p1 - p0 > 2 {
        p1 - p0
    } else {
        2
    }
}

/// Where the centre of a quadrant lies along one axis.
fn centre(p0: usize, p1: usize, len: usize, far: bool) -> (p: usize)
    requires
        len > 0,
    ensures
        p == quadrant_centre(p0, p1, len, far),
{
    let e: usize = extent(p0, p1);
    if far {
        pixel_inside(p0, e, 6, len)
    } else {
        pixel_inside(p0, e, 2, len)
    }
}

/// The row in which a quadrant is sampled.
fn row(p0: usize, p1: usize, len: usize, far: bool, at: SampleHeight) -> (p: usize)
    requires
        len > 0,
    ensures
        p == quadrant_row(p0, p1, len, far, at),
{
    let e: usize = extent(p0, p1);
    match (at, far) {
        (SampleHeight::Centre, _) => centre(p0, p1, len, far),
        (SampleHeight::Upper, false) => pixel_inside(p0, e, 1, len),
        (SampleHeight::Upper, true) => pixel_inside(p0, e, 5, len),
        (SampleHeight::Lower, false) => pixel_inside(p0, e - 1, 3, len),
        (SampleHeight::Lower, true) => pixel_inside(p0, e, 7, len),
    }
}

/// The pixel in column `x` of row `y`; black where the frame ends before it.
fn pixel_at(rgb: &[u8], width: usize, x: usize, y: usize) -> (pixel: [u8; 3])
    ensures
        pixel@ == pixel_or_black(rgb@, y * width + x),
{
    assert(0 <= y * width <= usize::MAX * usize::MAX) by (nonlinear_arith)
        requires
            y <= usize::MAX,
            width <= usize::MAX,
    ;
    let p: u128 = y as u128 * width as u128 + x as u128;
    if p < (rgb.len() / 3) as u128 {
        let i: usize = p as usize * 3;
        let pixel = [rgb[i], rgb[i + 1], rgb[i + 2]];
        assert(pixel@ == pixel_or_black(rgb@, y * width + x));
        pixel
    } else {
        [0, 0, 0]
    }
}

/// A colour channel's share of the brightness.
fn weighted<A: Arithmetic>(weight: u64, level: u8) -> (r: A::Value)
    ensures
        is_weighted::<A>(weight, level, r),
{
    let w = fraction::<A>(weight, 10000);
    let v = A::from_count(level as u64);
    let r = A::times(w, v);
    assert(is_product::<A>(w, v, r));
    r
}

/// The perceived brightness of a pixel.
pub fn luma<A: Arithmetic>(pixel: [u8; 3]) -> (luma: A::Value)
    ensures
        is_luma::<A>(pixel@, luma),
{
    let red = weighted::<A>(2126, pixel[0]);
    let green = weighted::<A>(7152, pixel[1]);
    let blue = weighted::<A>(722, pixel[2]);
    let warm = A::plus(red, green);
    let luma = A::plus(warm, blue);
    assert(is_sum::<A>(red, green, warm));
    assert(is_sum::<A>(warm, blue, luma));
    luma
}

/// The brightness of a quadrant.
fn sample<A: Arithmetic>(
    rgb: &[u8],
    width: usize,
    height: usize,
    b: PixelBounds,
    at: SampleHeight,
    right: bool,
    bottom: bool,
    Ghost(q): Ghost<int>,
) -> (luma: A::Value)
    requires
        width > 0,
        height > 0,
        right == is_right(q),
        bottom == is_bottom(q),
    ensures
        is_luma::<A>(quadrant_pixel(rgb@, width, height, b, at, q), luma),
{
    let x = centre(b.x0, b.x1, width, right);
    let y = row(b.y0, b.y1, height, bottom, at);
    self::luma::<A>(pixel_at(rgb, width, x, y))
}

/// The brightness of the four quadrants at one height.
fn sample_all<A: Arithmetic>(
    rgb: &[u8],
    width: usize,
    height: usize,
    b: PixelBounds,
    at: SampleHeight,
) -> (lumas: [A::Value; 4])
    requires
        width > 0,
        height > 0,
    ensures
        forall|q: int|
            0 <= q < 4 ==> is_luma::<A>(
                quadrant_pixel(rgb@, width, height, b, at, q),
                #[trigger] lumas@[q],
            ),
{
    [
        sample::<A>(rgb, width, height, b, at, false, false, Ghost(0)),
        sample::<A>(rgb, width, height, b, at, true, false, Ghost(1)),
        sample::<A>(rgb, width, height, b, at, false, true, Ghost(2)),
        sample::<A>(rgb, width, height, b, at, true, true, Ghost(3)),
    ]
}

/// Which quadrants are bright at one height.
fn pattern<A: Arithmetic>(
    threshold: A::Value,
    rgb: &[u8],
    width: usize,
    height: usize,
    b: PixelBounds,
    at: SampleHeight,
) -> (bright: [bool; 4])
    requires
        width > 0,
        height > 0,
    ensures
        is_pattern::<A>(threshold, rgb@, width, height, b, at, bright@),
{
    let lumas = sample_all::<A>(rgb, width, height, b, at);
    let bright = [
        lumas[0] > threshold,
        lumas[1] > threshold,
        lumas[2] > threshold,
        lumas[3] > threshold,
    ];
    assert forall|q: int| 0 <= q < 4 implies is_brightness::<A>(
        quadrant_pixel(rgb@, width, height, b, at, q),
        threshold,
        #[trigger] bright@[q],
    ) by {
        assert(is_luma::<A>(quadrant_pixel(rgb@, width, height, b, at, q), lumas@[q]));
        assert(is_above(lumas@[q], threshold, bright@[q]));
    }
    bright
}

/// Two patterns are the same.
fn is_same(a: [bool; 4], b: [bool; 4]) -> (same: bool)
    ensures
        same == (a@ == b@),
{
    let same = a[0] == b[0] && a[1] == b[1] && a[2] == b[2] && a[3] == b[3];
    assert(same ==> a@ == b@);
    same
}

/// What a step of brightness means.
fn interpret_step(bright: [bool; 4], previous_id: Option<u64>) -> (reading: FrameReading)
    requires
        has_headroom(MeasurementMethod::LumaStep, previous_id) || is_torn(bright@) || followed(
            MeasurementMethod::LumaStep,
            bright@,
            previous_id,
        ) is None,
    ensures
        is_meaning(MeasurementMethod::LumaStep, seq![bright@], previous_id, reading),
{
    if bright[0] != bright[2] || bright[1] != bright[3] {
        return FrameReading::Torn;
    }
    let bit: u64 = if bright[0] {
        1
    } else {
        0
    };
    match previous_id {
        None => FrameReading::Transition(bit),
        Some(previous) => if previous % 2 == bit {
            FrameReading::Nothing
        } else {
            FrameReading::Transition(previous + 1)
        },
    }
}

/// What coded quadrants mean.
fn interpret_code(
    bright: [bool; 4],
    upper: [bool; 4],
    lower: [bool; 4],
    previous_id: Option<u64>,
) -> (reading: FrameReading)
    requires
        has_headroom(MeasurementMethod::QuadCode, previous_id),
    ensures
        is_meaning(
            MeasurementMethod::QuadCode,
            seq![bright@, upper@, lower@],
            previous_id,
            reading,
        ),
{
    if !is_same(upper, bright) || !is_same(lower, bright) {
        return FrameReading::Torn;
    }
    let id = decode_pattern(bright, previous_id);
    match previous_id {
        // A whole cycle ahead: the frame shows the previous code again.
        Some(previous) if id == previous + 16 => FrameReading::Nothing,
        _ => FrameReading::Transition(id),
    }
}

/// Reads a region of a frame that is given in pixels.
pub fn read_in_bounds<A: Arithmetic>(
    method: MeasurementMethod,
    luma_threshold: A::Value,
    rgb: &[u8],
    width: usize,
    height: usize,
    bounds: PixelBounds,
    previous_id: Option<u64>,
) -> (reading: FrameReading)
    requires
        width > 0,
        height > 0,
        has_headroom(method, previous_id) || method == MeasurementMethod::LumaStep
            && is_settled::<A>(method, luma_threshold, rgb@, width, height, bounds, previous_id),
    ensures
        is_reading::<A>(
            method,
            luma_threshold,
            rgb@,
            width,
            height,
            bounds,
            previous_id,
            reading,
        ),
{
    let centre = SampleHeight::Centre;
    match method {
        MeasurementMethod::LumaStep => {
            let bright = pattern::<A>(luma_threshold, rgb, width, height, bounds, centre);
            let ghost patterns = seq![bright@];
            assert(is_sampling::<A>(
                method,
                luma_threshold,
                rgb@,
                width,
                height,
                bounds,
                patterns,
            ));
            interpret_step(bright, previous_id)
        },
        MeasurementMethod::QuadCode => {
            let bright = pattern::<A>(luma_threshold, rgb, width, height, bounds, centre);
            let upper = pattern::<A>(
                luma_threshold,
                rgb,
                width,
                height,
                bounds,
                SampleHeight::Upper,
            );
            let lower = pattern::<A>(
                luma_threshold,
                rgb,
                width,
                height,
                bounds,
                SampleHeight::Lower,
            );
            let ghost patterns = seq![bright@, upper@, lower@];
            assert(is_sampling::<A>(
                method,
                luma_threshold,
                rgb@,
                width,
                height,
                bounds,
                patterns,
            ));
            interpret_code(bright, upper, lower, previous_id)
        },
    }
}

/// The transition of a reading, if it is one.
fn transition(reading: FrameReading) -> (id: Option<u64>)
    ensures
        id == transition_of(reading),
{
    match reading {
        FrameReading::Transition(id) => Some(id),
        _ => None,
    }
}

/// Reads the transition off a region of a frame that is given in pixels.
pub fn detect_in_bounds<A: Arithmetic>(
    method: MeasurementMethod,
    luma_threshold: A::Value,
    rgb: &[u8],
    width: usize,
    height: usize,
    bounds: PixelBounds,
    previous_id: Option<u64>,
) -> (id: Option<u64>)
    requires
        width > 0,
        height > 0,
        has_headroom(method, previous_id) || method == MeasurementMethod::LumaStep
            && is_settled::<A>(method, luma_threshold, rgb@, width, height, bounds, previous_id),
    ensures
        is_detection::<A>(
            method,
            luma_threshold,
            rgb@,
            width,
            height,
            bounds,
            previous_id,
            id,
        ),
{
    let reading = read_in_bounds::<A>(
        method,
        luma_threshold,
        rgb,
        width,
        height,
        bounds,
        previous_id,
    );
    transition(reading)
}

/// The frame is large enough to be read.
pub open spec fn is_readable(width: usize, height: usize) -> bool {
    width >= MIN_SIDE && height >= MIN_SIDE
}

/// `b` are the pixels of a region that was brought into the image.
pub open spec fn are_clamped_bounds<A: Raster>(
    roi: RoiNorm<A::Value>,
    width: usize,
    height: usize,
    b: PixelBounds,
) -> bool {
    exists|clamped: RoiNorm<A::Value>| #[trigger]
        is_clamped_roi::<A>(roi, Ok(clamped)) && are_bounds::<A>(clamped, width, height, b)
}

/// The ids that can follow `previous_id` fit their type, or none follows in the frame.
pub open spec fn has_room_for_next<A: Raster>(
    method: MeasurementMethod,
    threshold: A::Value,
    rgb: Seq<u8>,
    width: usize,
    height: usize,
    roi: RoiNorm<A::Value>,
    previous_id: Option<u64>,
) -> bool {
    ||| has_headroom(method, previous_id)
    ||| method == MeasurementMethod::LumaStep && forall|b: PixelBounds| #[trigger]
        are_clamped_bounds::<A>(roi, width, height, b) ==> is_settled::<A>(
            method,
            threshold,
            rgb,
            width,
            height,
            b,
            previous_id,
        )
}

/// `r` is what a frame shows in a region of interest.
pub open spec fn is_roi_reading<A: Raster>(
    method: MeasurementMethod,
    threshold: A::Value,
    rgb: Seq<u8>,
    width: usize,
    height: usize,
    roi: RoiNorm<A::Value>,
    previous_id: Option<u64>,
    r: Result<FrameReading, RoiError>,
) -> bool {
    if !is_readable(width, height) {
        r == Ok::<FrameReading, RoiError>(FrameReading::Nothing)
    } else {
        match r {
            Ok(reading) => exists|b: PixelBounds| #[trigger]
                are_clamped_bounds::<A>(roi, width, height, b) && is_reading::<A>(
                    method,
                    threshold,
                    rgb,
                    width,
                    height,
                    b,
                    previous_id,
                    reading,
                ),
            Err(e) => is_clamped_roi::<A>(roi, Err(e)),
        }
    }
}

/// Reads a frame: the region of interest is brought into the image and its
/// quadrants are sampled. Frames of fewer than four pixels a side are not read.
pub fn read_roi<A: Raster>(
    method: MeasurementMethod,
    luma_threshold: A::Value,
    rgb: &[u8],
    width: usize,
    height: usize,
    roi: RoiNorm<A::Value>,
    previous_id: Option<u64>,
) -> (r: Result<FrameReading, RoiError>)
    requires
        is_readable(width, height) ==> has_room_for_next::<A>(
            method,
            luma_threshold,
            rgb@,
            width,
            height,
            roi,
            previous_id,
        ),
    ensures
        is_roi_reading::<A>(
            method,
            luma_threshold,
            rgb@,
            width,
            height,
            roi,
            previous_id,
            r,
        ),
{
    if width < MIN_SIDE || height < MIN_SIDE {
        return Ok(FrameReading::Nothing);
    }
    match roi.clamp::<A>() {
        Err(e) => Err(e),
        Ok(clamped) => {
            let bounds = pixel_bounds::<A>(clamped, width, height);
            assert(are_clamped_bounds::<A>(roi, width, height, bounds));
            Ok(
                read_in_bounds::<A>(
                    method,
                    luma_threshold,
                    rgb,
                    width,
                    height,
                    bounds,
                    previous_id,
                ),
            )
        },
    }
}

/// `r` is the transition that a frame shows in a region of interest.
pub open spec fn is_roi_detection<A: Raster>(
    method: MeasurementMethod,
    threshold: A::Value,
    rgb: Seq<u8>,
    width: usize,
    height: usize,
    roi: RoiNorm<A::Value>,
    previous_id: Option<u64>,
    r: Result<Option<u64>, RoiError>,
) -> bool {
    if !is_readable(width, height) {
        r == Ok::<Option<u64>, RoiError>(None)
    } else {
        match r {
            Ok(id) => exists|b: PixelBounds| #[trigger]
                are_clamped_bounds::<A>(roi, width, height, b) && is_detection::<A>(
                    method,
                    threshold,
                    rgb,
                    width,
                    height,
                    b,
                    previous_id,
                    id,
                ),
            Err(e) => is_clamped_roi::<A>(roi, Err(e)),
        }
    }
}

/// Reads the transition off a frame, see [`read_roi`]. Torn frames show none.
pub fn detect_transition_id<A: Raster>(
    method: MeasurementMethod,
    luma_threshold: A::Value,
    rgb: &[u8],
    width: usize,
    height: usize,
    roi: RoiNorm<A::Value>,
    previous_id: Option<u64>,
) -> (r: Result<Option<u64>, RoiError>)
    requires
        is_readable(width, height) ==> has_room_for_next::<A>(
            method,
            luma_threshold,
            rgb@,
            width,
            height,
            roi,
            previous_id,
        ),
    ensures
        is_roi_detection::<A>(
            method,
            luma_threshold,
            rgb@,
            width,
            height,
            roi,
            previous_id,
            r,
        ),
{
    match read_roi::<A>(method, luma_threshold, rgb, width, height, roi, previous_id) {
        Ok(reading) => Ok(transition(reading)),
        Err(e) => Err(e),
    }
}

/// A frame that shows the previous transition still is ignored.
pub proof fn law_repeated_frame_is_ignored(method: MeasurementMethod, id: u64)
    ensures
        followed(method, shown(method, id), Some(id)) is None,
{
    law_pattern_spells_id(id);
}

/// Whatever a frame looks like, the transition read off it comes after the
/// previous one: jumps back are never reported. Nor are jumps of a whole cycle
/// of codes or more.
pub proof fn law_detection_moves_forward(
    method: MeasurementMethod,
    bright: Seq<bool>,
    previous: u64,
)
    ensures
        followed(method, bright, Some(previous)) matches Some(id) ==> previous < id < previous + 16,
{
    law_decoding_moves_forward(previous, code_of(bright));
}

/// A transition that is read off a frame comes after the previous one.
pub proof fn law_read_transition_is_new<A: Arithmetic>(
    method: MeasurementMethod,
    threshold: A::Value,
    rgb: Seq<u8>,
    width: usize,
    height: usize,
    b: PixelBounds,
    previous: u64,
    id: u64,
)
    requires
        is_reading::<A>(
            method,
            threshold,
            rgb,
            width,
            height,
            b,
            Some(previous),
            FrameReading::Transition(id),
        ),
    ensures
        previous < id < previous + 16,
{
    let patterns = choose|patterns: Seq<Seq<bool>>| #[trigger]
        is_sampling::<A>(method, threshold, rgb, width, height, b, patterns) && is_meaning(
            method,
            patterns,
            Some(previous),
            FrameReading::Transition(id),
        );
    law_detection_moves_forward(method, patterns[0], previous);
}

/// A transition that is detected in a frame comes after the previous one.
pub proof fn law_detected_transition_is_new<A: Arithmetic>(
    method: MeasurementMethod,
    threshold: A::Value,
    rgb: Seq<u8>,
    width: usize,
    height: usize,
    b: PixelBounds,
    previous: u64,
    id: u64,
)
    requires
        is_detection::<A>(method, threshold, rgb, width, height, b, Some(previous), Some(id)),
    ensures
        previous < id < previous + 16,
{
    law_read_transition_is_new::<A>(method, threshold, rgb, width, height, b, previous, id);
}

/// The transition after the previous one is read off its pattern.
pub proof fn law_next_transition_is_detected(method: MeasurementMethod, previous: u64)
    requires
        previous < u64::MAX,
    ensures
        followed(method, shown(method, (previous + 1) as u64), Some(previous)) == Some(
            previous + 1,
        ),
{
    let id = (previous + 1) as u64;
    law_pattern_spells_id(id);
    law_decoding_inverts_display(previous, id);
}

/// With coded quadrants, transitions that the camera missed do not disturb the
/// reading, as long as fewer than a whole cycle of codes went by.
pub proof fn law_skipped_transitions_are_bridged(previous: u64, id: u64)
    requires
        previous < id < previous + 16,
    ensures
        followed(
            MeasurementMethod::QuadCode,
            shown(MeasurementMethod::QuadCode, id),
            Some(previous),
        ) == Some(id as int),
{
    law_pattern_spells_id(id);
    law_decoding_inverts_display(previous, id);
}

/// The quadrants of a region show the pattern of transition `id` where they are sampled.
pub open spec fn shows(
    method: MeasurementMethod,
    rgb: Seq<u8>,
    width: usize,
    height: usize,
    b: PixelBounds,
    id: u64,
) -> bool {
    forall|at: SampleHeight, q: int|
        0 <= q < 4 ==> #[trigger] quadrant_pixel(rgb, width, height, b, at, q) == grey(
            is_light(method, id, q),
        )
}

/// The quadrant of a region that the pixel in column `x` of row `y` belongs to.
pub open spec fn quadrant_at(b: PixelBounds, x: int, y: int) -> int {
    let right = x >= b.x0 + (b.x1 - b.x0) / 2;
    let bottom = y >= b.y0 + (b.y1 - b.y0) / 2;
    (if right {
        1int
    } else {
        0
    }) + (if bottom {
        2int
    } else {
        0
    })
}

/// The pixel in column `x` of row `y` has the colour that its quadrant of the
/// region has in the pattern of transition `id`.
pub open spec fn is_painted(
    method: MeasurementMethod,
    rgb: Seq<u8>,
    width: usize,
    b: PixelBounds,
    id: u64,
    x: int,
    y: int,
) -> bool {
    let i = 3 * (y * width + x);
    let level = if is_light(method, id, quadrant_at(b, x, y)) {
        LIGHT_LEVEL
    } else {
        DARK_LEVEL
    };
    i + 2 < rgb.len() && rgb[i] == level && rgb[i + 1] == level && rgb[i + 2] == level
}

/// The pattern of transition `id` fills a region.
pub open spec fn fills(
    method: MeasurementMethod,
    rgb: Seq<u8>,
    width: usize,
    b: PixelBounds,
    id: u64,
) -> bool {
    forall|x: int, y: int|
        b.x0 <= x < b.x1 && b.y0 <= y < b.y1 ==> #[trigger] is_painted(
            method,
            rgb,
            width,
            b,
            id,
            x,
            y,
        )
}

/// Every quadrant is sampled inside itself: a region of at least two pixels a side
/// that the pattern of a transition fills shows the transition.
pub proof fn law_filled_region_shows_transition(
    method: MeasurementMethod,
    rgb: Seq<u8>,
    width: usize,
    height: usize,
    b: PixelBounds,
    id: u64,
)
    requires
        b.x0 + 2 <= b.x1 <= width,
        b.y0 + 2 <= b.y1 <= height,
        fills(method, rgb, width, b, id),
    ensures
        shows(method, rgb, width, height, b, id),
{
    assert forall|at: SampleHeight, q: int| 0 <= q < 4 implies #[trigger] quadrant_pixel(
        rgb,
        width,
        height,
        b,
        at,
        q,
    ) == grey(is_light(method, id, q)) by {
        let x = quadrant_centre(b.x0, b.x1, width, is_right(q));
        let y = quadrant_row(b.y0, b.y1, height, is_bottom(q), at);
        assert(is_painted(method, rgb, width, b, id, x, y));
        lemma_painted(method, rgb, width, b, id, x, y);
        assert(quadrant_at(b, x, y) == q);
    }
}

/// The threshold lies between the brightness of dark and light quadrants.
pub open spec fn separates<A: Arithmetic>(threshold: A::Value) -> bool {
    &&& forall|bright: bool| #[trigger]
        is_brightness::<A>(grey(true), threshold, bright) ==> bright
    &&& forall|bright: bool| #[trigger]
        is_brightness::<A>(grey(false), threshold, bright) ==> !bright
}

/// What is shown is read back. In a frame that shows the pattern of a transition,
/// with a threshold between dark and light, the transition is detected when it is
/// the next one, or, with coded quadrants, less than a whole cycle of codes ahead.
/// The previous transition, shown still, is ignored. The first reading gives the
/// transition's number within the cycle of patterns.
pub proof fn law_shown_transition_is_read_back<A: Arithmetic>(
    method: MeasurementMethod,
    threshold: A::Value,
    rgb: Seq<u8>,
    width: usize,
    height: usize,
    b: PixelBounds,
    previous_id: Option<u64>,
    id: u64,
    read: Option<u64>,
)
    requires
        is_detection::<A>(method, threshold, rgb, width, height, b, previous_id, read),
        shows(method, rgb, width, height, b, id),
        separates::<A>(threshold),
    ensures
        match (previous_id, method) {
            (None, MeasurementMethod::LumaStep) => read == Some((id % 2) as u64),
            (None, MeasurementMethod::QuadCode) => read == Some((id % 16) as u64),
            (Some(previous), _) => {
                &&& id == previous ==> read is None
                &&& id == previous + 1 ==> read == Some(id)
                &&& method == MeasurementMethod::QuadCode && previous < id < previous + 16
                    ==> read == Some(id)
            },
        },
{
    let reading = choose|reading: FrameReading| #[trigger]
        is_reading::<A>(method, threshold, rgb, width, height, b, previous_id, reading) && read
            == transition_of(reading);
    let patterns = choose|patterns: Seq<Seq<bool>>| #[trigger]
        is_sampling::<A>(method, threshold, rgb, width, height, b, patterns) && is_meaning(
            method,
            patterns,
            previous_id,
            reading,
        );
    assert forall|h: int| 0 <= h < patterns.len() implies #[trigger] patterns[h] == shown(
        method,
        id,
    ) by {
        let at = heights_read(method)[h];
        lemma_pattern_of_colors::<A>(
            method,
            threshold,
            rgb,
            width,
            height,
            b,
            at,
            patterns[h],
            Seq::new(4, |q: int| id),
        );
        assert(patterns[h] == shown(method, id));
    }
    assert(!is_torn_frame(method, patterns)) by {
        if method == MeasurementMethod::QuadCode {
            assert(patterns[1] == patterns[0] && patterns[2] == patterns[0]);
        }
    }
    lemma_shown_is_followed(method, previous_id, id);
}

proof fn lemma_shown_is_followed(method: MeasurementMethod, previous_id: Option<u64>, id: u64)
    ensures
        match (previous_id, method) {
            (None, MeasurementMethod::LumaStep) => followed(method, shown(method, id), previous_id)
                == Some(id as int % 2),
            (None, MeasurementMethod::QuadCode) => followed(method, shown(method, id), previous_id)
                == Some(id as int % 16),
            (Some(previous), _) => {
                &&& id == previous ==> followed(method, shown(method, id), previous_id) is None
                &&& id == previous + 1 ==> followed(method, shown(method, id), previous_id) == Some(
                    id as int,
                )
                &&& method == MeasurementMethod::QuadCode && previous < id < previous + 16
                    ==> followed(method, shown(method, id), previous_id) == Some(id as int)
            },
        },
{
    law_pattern_spells_id(id);
    law_repeated_frame_is_ignored(method, id);
    match previous_id {
        None => {
            law_first_decoding_is_id_within_cycle(id);
        },
        Some(previous) => {
            if id == previous + 1 {
                law_next_transition_is_detected(method, previous);
            }
            if previous < id < previous + 16 {
                law_skipped_transitions_are_bridged(previous, id);
            }
        },
    }
}

/// Quadrants that show the colours of transitions are seen as light or dark accordingly.
proof fn lemma_pattern_of_colors<A: Arithmetic>(
    method: MeasurementMethod,
    threshold: A::Value,
    rgb: Seq<u8>,
    width: usize,
    height: usize,
    b: PixelBounds,
    at: SampleHeight,
    bright: Seq<bool>,
    ids: Seq<u64>,
)
    requires
        is_pattern::<A>(threshold, rgb, width, height, b, at, bright),
        separates::<A>(threshold),
        forall|q: int|
            0 <= q < 4 ==> #[trigger] quadrant_pixel(rgb, width, height, b, at, q) == grey(
                is_light(method, ids[q], q),
            ),
    ensures
        forall|q: int| 0 <= q < 4 ==> #[trigger] bright[q] == is_light(method, ids[q], q),
{
    assert forall|q: int| 0 <= q < 4 implies #[trigger] bright[q] == is_light(
        method,
        ids[q],
        q,
    ) by {
        assert(is_brightness::<A>(
            quadrant_pixel(rgb, width, height, b, at, q),
            threshold,
            bright[q],
        ));
        assert(is_brightness::<A>(grey(is_light(method, ids[q], q)), threshold, bright[q]));
    }
}

/// The pixel in column `x` of row `y` has the colour of transition `above` where
/// its row lies above `tear`, else that of transition `below`.
pub open spec fn is_painted_torn(
    method: MeasurementMethod,
    rgb: Seq<u8>,
    width: usize,
    b: PixelBounds,
    above: u64,
    below: u64,
    tear: int,
    x: int,
    y: int,
) -> bool {
    is_painted(
        method,
        rgb,
        width,
        b,
        if y < tear {
            above
        } else {
            below
        },
        x,
        y,
    )
}

/// The pattern of `above` fills a region down to row `tear`, and that of `below`
/// from there on.
pub open spec fn fills_torn(
    method: MeasurementMethod,
    rgb: Seq<u8>,
    width: usize,
    b: PixelBounds,
    above: u64,
    below: u64,
    tear: int,
) -> bool {
    forall|x: int, y: int|
        b.x0 <= x < b.x1 && b.y0 <= y < b.y1 ==> #[trigger] is_painted_torn(
            method,
            rgb,
            width,
            b,
            above,
            below,
            tear,
            x,
            y,
        )
}

/// Row `tear` parts samples of quadrant `q`: one height lies above it and one does not.
pub open spec fn parts_quadrant(height: usize, b: PixelBounds, tear: int, q: int) -> bool {
    &&& quadrant_row(b.y0, b.y1, height, is_bottom(q), SampleHeight::Upper) < tear
    &&& tear <= quadrant_row(b.y0, b.y1, height, is_bottom(q), SampleHeight::Lower)
}

/// Row `tear` parts samples that the two transitions make different.
pub open spec fn tears_apart(
    method: MeasurementMethod,
    height: usize,
    b: PixelBounds,
    above: u64,
    below: u64,
    tear: int,
) -> bool {
    match method {
        MeasurementMethod::LumaStep => {
            &&& above % 2 != below % 2
            &&& quadrant_centre(b.y0, b.y1, height, false) < tear
            &&& tear <= quadrant_centre(b.y0, b.y1, height, true)
        },
        MeasurementMethod::QuadCode => exists|q: int|
            0 <= q < 4 && #[trigger] parts_quadrant(height, b, tear, q) && is_light(
                method,
                above,
                q,
            ) != is_light(method, below, q),
    }
}

/// Torn frames are filtered out: where the tear parts what is sampled of two
/// transitions, no transition is read, whatever came before.
#[verifier::spinoff_prover]
#[verifier::rlimit(30)]
pub proof fn law_torn_frame_is_filtered_out<A: Arithmetic>(
    method: MeasurementMethod,
    threshold: A::Value,
    rgb: Seq<u8>,
    width: usize,
    height: usize,
    b: PixelBounds,
    previous_id: Option<u64>,
    above: u64,
    below: u64,
    tear: int,
    reading: FrameReading,
)
    requires
        b.x0 + 2 <= b.x1 <= width,
        b.y0 + 2 <= b.y1 <= height,
        fills_torn(method, rgb, width, b, above, below, tear),
        tears_apart(method, height, b, above, below, tear),
        separates::<A>(threshold),
        is_reading::<A>(method, threshold, rgb, width, height, b, previous_id, reading),
    ensures
        reading == FrameReading::Torn,
{
    let patterns = choose|patterns: Seq<Seq<bool>>| #[trigger]
        is_sampling::<A>(method, threshold, rgb, width, height, b, patterns) && is_meaning(
            method,
            patterns,
            previous_id,
            reading,
        );
    assert forall|h: int, q: int|
        0 <= h < patterns.len() && 0 <= q < 4 implies #[trigger] patterns[h][q] == is_light(
        method,
        if quadrant_row(b.y0, b.y1, height, is_bottom(q), heights_read(method)[h]) < tear {
            above
        } else {
            below
        },
        q,
    ) by {
        let at = heights_read(method)[h];
        let ids = Seq::new(
            4,
            |q: int|
                if quadrant_row(b.y0, b.y1, height, is_bottom(q), at) < tear {
                    above
                } else {
                    below
                },
        );
        assert forall|q: int| 0 <= q < 4 implies #[trigger] quadrant_pixel(
            rgb,
            width,
            height,
            b,
            at,
            q,
        ) == grey(is_light(method, ids[q], q)) by {
            let x = quadrant_centre(b.x0, b.x1, width, is_right(q));
            let y = quadrant_row(b.y0, b.y1, height, is_bottom(q), at);
            assert(is_painted_torn(method, rgb, width, b, above, below, tear, x, y));
            lemma_painted(
                method,
                rgb,
                width,
                b,
                if y < tear {
                    above
                } else {
                    below
                },
                x,
                y,
            );
            assert(quadrant_at(b, x, y) == q);
        }
        assert(is_pattern::<A>(threshold, rgb, width, height, b, at, patterns[h]));
        lemma_pattern_of_colors::<A>(
            method,
            threshold,
            rgb,
            width,
            height,
            b,
            at,
            patterns[h],
            ids,
        );
    }
    if method == MeasurementMethod::LumaStep {
        assert(patterns[0][0] != patterns[0][2]);
    } else {
        let q = choose|q: int|
            0 <= q < 4 && #[trigger] parts_quadrant(height, b, tear, q) && is_light(
                method,
                above,
                q,
            ) != is_light(method, below, q);
        assert(heights_read(method)[1] == SampleHeight::Upper);
        assert(heights_read(method)[2] == SampleHeight::Lower);
        assert(patterns[1][q] != patterns[2][q]);
    }
}

/// Two frames agree on the pixels of a region.
pub open spec fn agree_inside(
    rgb1: Seq<u8>,
    rgb2: Seq<u8>,
    width: usize,
    height: usize,
    b: PixelBounds,
) -> bool {
    forall|x: int, y: int|
        b.x0 <= x < b.x1 && b.y0 <= y < b.y1 && x < width && y < height
            ==> #[trigger] agree_at(rgb1, rgb2, width, x, y)
}

/// Two frames have the same pixel in column `x` of row `y`.
pub open spec fn agree_at(rgb1: Seq<u8>, rgb2: Seq<u8>, width: usize, x: int, y: int) -> bool {
    let i = 3 * (y * width + x);
    if i + 2 < rgb1.len() {
        i + 2 < rgb2.len() && rgb1[i] == rgb2[i] && rgb1[i + 1] == rgb2[i + 1] && rgb1[i + 2]
            == rgb2[i + 2]
    } else {
        i + 2 >= rgb2.len()
    }
}

proof fn lemma_painted(
    method: MeasurementMethod,
    rgb: Seq<u8>,
    width: usize,
    b: PixelBounds,
    id: u64,
    x: int,
    y: int,
)
    requires
        0 <= x,
        0 <= y,
        is_painted(method, rgb, width, b, id, x, y),
    ensures
        pixel_or_black(rgb, y * width + x) == grey(is_light(method, id, quadrant_at(b, x, y))),
{
    assert(0 <= y * width) by (nonlinear_arith)
        requires
            0 <= y,
            0 <= width,
    ;
    assert(pixel_or_black(rgb, y * width + x) == grey(is_light(method, id, quadrant_at(b, x, y))));
}

proof fn lemma_agree(rgb1: Seq<u8>, rgb2: Seq<u8>, width: usize, x: int, y: int)
    requires
        0 <= x,
        0 <= y,
        agree_at(rgb1, rgb2, width, x, y),
    ensures
        pixel_or_black(rgb1, y * width + x) == pixel_or_black(rgb2, y * width + x),
{
    assert(0 <= y * width) by (nonlinear_arith)
        requires
            0 <= y,
            0 <= width,
    ;
    assert(pixel_or_black(rgb1, y * width + x) == pixel_or_black(rgb2, y * width + x));
}

/// Pixels outside the region have no influence: two frames that agree inside a
/// region of at least two pixels a side are read alike.
pub proof fn law_outside_pixels_have_no_influence<A: Arithmetic>(
    method: MeasurementMethod,
    threshold: A::Value,
    rgb1: Seq<u8>,
    rgb2: Seq<u8>,
    width: usize,
    height: usize,
    b: PixelBounds,
    previous_id: Option<u64>,
    reading: FrameReading,
)
    requires
        b.x0 + 2 <= b.x1,
        b.y0 + 2 <= b.y1,
        b.x0 < width,
        b.y0 < height,
        agree_inside(rgb1, rgb2, width, height, b),
    ensures
        is_reading::<A>(method, threshold, rgb1, width, height, b, previous_id, reading)
            <==> is_reading::<A>(method, threshold, rgb2, width, height, b, previous_id, reading),
{
    if is_reading::<A>(method, threshold, rgb1, width, height, b, previous_id, reading) {
        lemma_read_alike::<A>(
            method,
            threshold,
            rgb1,
            rgb2,
            width,
            height,
            b,
            previous_id,
            reading,
        );
    }
    if is_reading::<A>(method, threshold, rgb2, width, height, b, previous_id, reading) {
        assert forall|x: int, y: int|
            b.x0 <= x < b.x1 && b.y0 <= y < b.y1 && x < width && y < height implies #[trigger]
        agree_at(rgb2, rgb1, width, x, y) by {
            assert(agree_at(rgb1, rgb2, width, x, y));
        }
        lemma_read_alike::<A>(
            method,
            threshold,
            rgb2,
            rgb1,
            width,
            height,
            b,
            previous_id,
            reading,
        );
    }
}

/// Nor have they any influence on the transition that is detected.
pub proof fn law_detection_ignores_outside_pixels<A: Arithmetic>(
    method: MeasurementMethod,
    threshold: A::Value,
    rgb1: Seq<u8>,
    rgb2: Seq<u8>,
    width: usize,
    height: usize,
    b: PixelBounds,
    previous_id: Option<u64>,
    id: Option<u64>,
)
    requires
        b.x0 + 2 <= b.x1,
        b.y0 + 2 <= b.y1,
        b.x0 < width,
        b.y0 < height,
        agree_inside(rgb1, rgb2, width, height, b),
    ensures
        is_detection::<A>(method, threshold, rgb1, width, height, b, previous_id, id)
            <==> is_detection::<A>(method, threshold, rgb2, width, height, b, previous_id, id),
{
    assert forall|reading: FrameReading|
        #![trigger is_reading::<A>(method, threshold, rgb1, width, height, b, previous_id, reading)]
        #![trigger is_reading::<A>(method, threshold, rgb2, width, height, b, previous_id, reading)]
        is_reading::<A>(method, threshold, rgb1, width, height, b, previous_id, reading)
            <==> is_reading::<A>(
            method,
            threshold,
            rgb2,
            width,
            height,
            b,
            previous_id,
            reading,
        ) by {
        law_outside_pixels_have_no_influence::<A>(
            method,
            threshold,
            rgb1,
            rgb2,
            width,
            height,
            b,
            previous_id,
            reading,
        );
    }
}

proof fn lemma_read_alike<A: Arithmetic>(
    method: MeasurementMethod,
    threshold: A::Value,
    rgb1: Seq<u8>,
    rgb2: Seq<u8>,
    width: usize,
    height: usize,
    b: PixelBounds,
    previous_id: Option<u64>,
    reading: FrameReading,
)
    requires
        b.x0 + 2 <= b.x1,
        b.y0 + 2 <= b.y1,
        b.x0 < width,
        b.y0 < height,
        agree_inside(rgb1, rgb2, width, height, b),
        is_reading::<A>(method, threshold, rgb1, width, height, b, previous_id, reading),
    ensures
        is_reading::<A>(method, threshold, rgb2, width, height, b, previous_id, reading),
{
    let patterns = choose|patterns: Seq<Seq<bool>>| #[trigger]
        is_sampling::<A>(method, threshold, rgb1, width, height, b, patterns) && is_meaning(
            method,
            patterns,
            previous_id,
            reading,
        );
    assert forall|h: int| 0 <= h < patterns.len() implies is_pattern::<A>(
        threshold,
        rgb2,
        width,
        height,
        b,
        heights_read(method)[h],
        #[trigger] patterns[h],
    ) by {
        let at = heights_read(method)[h];
        let bright = patterns[h];
        assert forall|q: int| 0 <= q < 4 implies is_brightness::<A>(
            quadrant_pixel(rgb2, width, height, b, at, q),
            threshold,
            #[trigger] bright[q],
        ) by {
            let x = quadrant_centre(b.x0, b.x1, width, is_right(q));
            let y = quadrant_row(b.y0, b.y1, height, is_bottom(q), at);
            assert(agree_at(rgb1, rgb2, width, x, y));
            lemma_agree(rgb1, rgb2, width, x, y);
        }
    }
    assert(is_sampling::<A>(method, threshold, rgb2, width, height, b, patterns));
}

} // verus!
