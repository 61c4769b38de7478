//! What holds of reading frames from end to end: from a region of interest and a
//! threshold to the transition.

use vstd::prelude::*;

#[allow(unused_imports)]
use crate::analysis::MeasurementMethod;
#[allow(unused_imports)]
use crate::arithmetic::{
    follows_numbers, has_functional_indices, indexes_numbers, is_above, is_count, is_exact,
    is_fraction, is_functional, is_ordered, is_product, is_raster_functional, is_sum, Arithmetic,
    Raster,
};
#[allow(unused_imports)]
use crate::detection::{
    agree_inside, are_clamped_bounds, fills, heights_read, is_brightness, is_detection, is_luma,
    is_meaning, is_pattern, is_readable, is_reading, is_roi_detection, is_sampling, is_weighted,
    law_detection_ignores_outside_pixels, law_filled_region_shows_transition,
    law_shown_transition_is_read_back, quadrant_pixel, separates, transition_of, FrameReading,
};
#[allow(unused_imports)]
use crate::regions::{
    law_clamping_fails_without_room, law_clamping_is_a_function,
    law_region_covers_pixels_of_the_frame, law_region_in_image_keeps_its_numbers, lies_in_image,
};
#[allow(unused_imports)]
use crate::roi::{
    are_bounds, is_clamped_roi, is_end_pixel, is_first_pixel, PixelBounds, RoiError, RoiNorm,
};
#[allow(unused_imports)]
use crate::stimulus::{grey, DARK_LEVEL, LIGHT_LEVEL};

verus! {

proof fn lemma_exact_share<A: Arithmetic>(
    weight: u64,
    level: u8,
    r: A::Value,
    number: spec_fn(A::Value) -> real,
)
    requires
        is_exact::<A>(number),
        is_weighted::<A>(weight, level, r),
    ensures
        number(r) * 10000real == (weight as real) * (level as real),
{
    let (w, v) = choose|w: A::Value, v: A::Value|
        {
            &&& is_fraction::<A>(weight, 10000, w)
            &&& is_count::<A>(level as u64, v)
            &&& #[trigger] is_product::<A>(w, v, r)
        };
    assert(number(w) * 10000real == weight as real);
    assert(number(v) == level as real);
    let (x, y) = (number(w), number(v));
    assert(x * y * 10000real == (x * 10000real) * y) by (nonlinear_arith);
}

proof fn lemma_exact_grey<A: Arithmetic>(
    light: bool,
    luma: A::Value,
    number: spec_fn(A::Value) -> real,
)
    requires
        is_exact::<A>(number),
        is_luma::<A>(grey(light), luma),
    ensures
        number(luma) == if light {
            LIGHT_LEVEL as real
        } else {
            DARK_LEVEL as real
        },
{
    let pixel = grey(light);
    let (red, green, blue, warm) = choose|
        red: A::Value,
        green: A::Value,
        blue: A::Value,
        warm: A::Value,
    |
        {
            &&& is_weighted::<A>(2126, pixel[0], red)
            &&& is_weighted::<A>(7152, pixel[1], green)
            &&& is_weighted::<A>(722, pixel[2], blue)
            &&& #[trigger] is_sum::<A>(red, green, warm)
            &&& #[trigger] is_sum::<A>(warm, blue, luma)
        };
    lemma_exact_share::<A>(2126, pixel[0], red, number);
    lemma_exact_share::<A>(7152, pixel[1], green, number);
    lemma_exact_share::<A>(722, pixel[2], blue, number);
}

/// A threshold from the dark level up to, but not including, the light level tells
/// dark quadrants from light ones. Nothing is rounded.
pub proof fn law_threshold_between_the_levels_separates<A: Raster>(
    threshold: A::Value,
    number: spec_fn(A::Value) -> real,
)
    requires
        is_exact::<A>(number),
        follows_numbers::<A>(number),
        DARK_LEVEL as real <= number(threshold) < LIGHT_LEVEL as real,
    ensures
        separates::<A>(threshold),
{
    assert forall|light: bool, bright: bool| #[trigger]
        is_brightness::<A>(grey(light), threshold, bright) implies bright == light by {
        let luma = choose|luma: A::Value| #[trigger]
            is_luma::<A>(grey(light), luma) && is_above(luma, threshold, bright);
        lemma_exact_grey::<A>(light, luma, number);
    }
}

/// A region that was brought into the image begins and ends inside the frame.
/// Nothing is rounded but to indices.
pub proof fn law_clamped_region_lies_in_the_frame<A: Raster>(
    roi: RoiNorm<A::Value>,
    width: usize,
    height: usize,
    b: PixelBounds,
    number: spec_fn(A::Value) -> real,
)
    requires
        is_exact::<A>(number),
        follows_numbers::<A>(number),
        indexes_numbers::<A>(number),
        width > 0,
        height > 0,
        are_clamped_bounds::<A>(roi, width, height, b),
    ensures
        b.x0 < b.x1 <= width,
        b.y0 < b.y1 <= height,
{
    let c = choose|c: RoiNorm<A::Value>| #[trigger]
        is_clamped_roi::<A>(roi, Ok(c)) && are_bounds::<A>(c, width, height, b);
    law_clamping_fails_without_room::<A>(roi, Ok(c), number);
    law_region_covers_pixels_of_the_frame::<A>(c, width, height, b, number);
}

/// What fills a region is read back, end to end. In a frame whose region of interest
/// the pattern of a transition fills, with a threshold between dark and light, the
/// transition is detected when it is the next one, or, with coded quadrants, less
/// than a whole cycle of codes ahead. The previous transition, shown still, is
/// ignored. The first reading gives the transition's number within the cycle of
/// patterns. Nothing is rounded but to indices.
pub proof fn law_filled_region_is_read_back<A: Raster>(
    method: MeasurementMethod,
    threshold: A::Value,
    rgb: Seq<u8>,
    width: usize,
    height: usize,
    roi: RoiNorm<A::Value>,
    previous_id: Option<u64>,
    id: u64,
    r: Result<Option<u64>, RoiError>,
    number: spec_fn(A::Value) -> real,
)
    requires
        is_exact::<A>(number),
        follows_numbers::<A>(number),
        indexes_numbers::<A>(number),
        DARK_LEVEL as real <= number(threshold) < LIGHT_LEVEL as real,
        is_readable(width, height),
        lies_in_image(roi, number),
        forall|b: PixelBounds| #[trigger]
            are_clamped_bounds::<A>(roi, width, height, b) ==> b.x0 + 2 <= b.x1 && b.y0 + 2 <= b.y1
                && fills(method, rgb, width, b, id),
        is_roi_detection::<A>(method, threshold, rgb, width, height, roi, previous_id, r),
    ensures
        match (previous_id, method) {
            (None, MeasurementMethod::LumaStep) => r == Ok::<Option<u64>, RoiError>(
                Some((id % 2) as u64),
            ),
            (None, MeasurementMethod::QuadCode) => r == Ok::<Option<u64>, RoiError>(
                Some((id % 16) as u64),
            ),
            (Some(previous), _) => {
                &&& id == previous ==> r == Ok::<Option<u64>, RoiError>(None)
                &&& id == previous + 1 ==> r == Ok::<Option<u64>, RoiError>(Some(id))
                &&& method == MeasurementMethod::QuadCode && previous < id < previous + 16 ==> r
                    == Ok::<Option<u64>, RoiError>(Some(id))
            },
        },
{
    if r is Err {
        law_region_in_image_keeps_its_numbers::<A>(roi, Err(r->Err_0), number);
    }
    let read = r->Ok_0;
    let b = choose|b: PixelBounds| #[trigger]
        are_clamped_bounds::<A>(roi, width, height, b) && is_detection::<A>(
            method,
            threshold,
            rgb,
            width,
            height,
            b,
            previous_id,
            read,
        );
    law_clamped_region_lies_in_the_frame::<A>(roi, width, height, b, number);
    law_threshold_between_the_levels_separates::<A>(threshold, number);
    law_filled_region_shows_transition(method, rgb, width, height, b, id);
    law_shown_transition_is_read_back::<A>(
        method,
        threshold,
        rgb,
        width,
        height,
        b,
        previous_id,
        id,
        read,
    );
}

/// The whole frame as a region.
pub open spec fn is_whole<V>(roi: RoiNorm<V>, number: spec_fn(V) -> real) -> bool {
    &&& number(roi.x) == 0real
    &&& number(roi.y) == 0real
    &&& number(roi.w) == 1real
    &&& number(roi.h) == 1real
}

/// The pixels of the whole region are those of the frame.
pub proof fn law_whole_region_is_the_frame<A: Raster>(
    roi: RoiNorm<A::Value>,
    width: usize,
    height: usize,
    b: PixelBounds,
    number: spec_fn(A::Value) -> real,
)
    requires
        is_exact::<A>(number),
        follows_numbers::<A>(number),
        indexes_numbers::<A>(number),
        is_whole(roi, number),
        width > 0,
        height > 0,
        are_clamped_bounds::<A>(roi, width, height, b),
    ensures
        b == (PixelBounds { x0: 0, y0: 0, x1: width, y1: height }),
{
    let c = choose|c: RoiNorm<A::Value>| #[trigger]
        is_clamped_roi::<A>(roi, Ok(c)) && are_bounds::<A>(c, width, height, b);
    law_region_in_image_keeps_its_numbers::<A>(roi, Ok(c), number);
    law_region_covers_pixels_of_the_frame::<A>(c, width, height, b, number);
}

/// What fills the frame is read back: a frame of at least four pixels a side that
/// the pattern of a transition fills, looked at as a whole with a threshold between
/// dark and light, gives the transition that follows the previous one by one, or,
/// with coded quadrants, by less than a whole cycle of codes.
pub proof fn law_filled_frame_is_read_back<A: Raster>(
    method: MeasurementMethod,
    threshold: A::Value,
    rgb: Seq<u8>,
    width: usize,
    height: usize,
    roi: RoiNorm<A::Value>,
    previous: u64,
    id: u64,
    r: Result<Option<u64>, RoiError>,
    number: spec_fn(A::Value) -> real,
)
    requires
        is_exact::<A>(number),
        follows_numbers::<A>(number),
        indexes_numbers::<A>(number),
        DARK_LEVEL as real <= number(threshold) < LIGHT_LEVEL as real,
        is_readable(width, height),
        is_whole(roi, number),
        fills(method, rgb, width, (PixelBounds { x0: 0, y0: 0, x1: width, y1: height }), id),
        is_roi_detection::<A>(method, threshold, rgb, width, height, roi, Some(previous), r),
        id == previous + 1 || method == MeasurementMethod::QuadCode && previous < id < previous
            + 16,
    ensures
        r == Ok::<Option<u64>, RoiError>(Some(id)),
{
    assert forall|b: PixelBounds| #[trigger]
        are_clamped_bounds::<A>(roi, width, height, b) implies b.x0 + 2 <= b.x1 && b.y0 + 2 <= b.y1
        && fills(method, rgb, width, b, id) by {
        law_whole_region_is_the_frame::<A>(roi, width, height, b, number);
    }
    law_filled_region_is_read_back::<A>(
        method,
        threshold,
        rgb,
        width,
        height,
        roi,
        Some(previous),
        id,
        r,
        number,
    );
}

proof fn lemma_shares_agree<A: Arithmetic>(weight: u64, level: u8, a: A::Value, b: A::Value)
    requires
        is_functional::<A>(),
        is_weighted::<A>(weight, level, a),
        is_weighted::<A>(weight, level, b),
    ensures
        a == b,
{
}

proof fn lemma_lumas_agree<A: Arithmetic>(pixel: Seq<u8>, a: A::Value, b: A::Value)
    requires
        is_functional::<A>(),
        is_luma::<A>(pixel, a),
        is_luma::<A>(pixel, b),
    ensures
        a == b,
{
    let (red, green, blue, warm) = choose|
        red: A::Value,
        green: A::Value,
        blue: A::Value,
        warm: A::Value,
    |
        {
            &&& is_weighted::<A>(2126, pixel[0], red)
            &&& is_weighted::<A>(7152, pixel[1], green)
            &&& is_weighted::<A>(722, pixel[2], blue)
            &&& #[trigger] is_sum::<A>(red, green, warm)
            &&& #[trigger] is_sum::<A>(warm, blue, a)
        };
    let (red2, green2, blue2, warm2) = choose|
        red: A::Value,
        green: A::Value,
        blue: A::Value,
        warm: A::Value,
    |
        {
            &&& is_weighted::<A>(2126, pixel[0], red)
            &&& is_weighted::<A>(7152, pixel[1], green)
            &&& is_weighted::<A>(722, pixel[2], blue)
            &&& #[trigger] is_sum::<A>(red, green, warm)
            &&& #[trigger] is_sum::<A>(warm, blue, b)
        };
    lemma_shares_agree::<A>(2126, pixel[0], red, red2);
    lemma_shares_agree::<A>(7152, pixel[1], green, green2);
    lemma_shares_agree::<A>(722, pixel[2], blue, blue2);
}

proof fn lemma_brightness_agrees<A: Arithmetic>(
    pixel: Seq<u8>,
    threshold: A::Value,
    a: bool,
    b: bool,
)
    requires
        is_functional::<A>(),
        is_ordered::<A::Value>(),
        is_brightness::<A>(pixel, threshold, a),
        is_brightness::<A>(pixel, threshold, b),
    ensures
        a == b,
{
    let l = choose|l: A::Value| #[trigger]
        is_luma::<A>(pixel, l) && is_above(l, threshold, a);
    let m = choose|m: A::Value| #[trigger]
        is_luma::<A>(pixel, m) && is_above(m, threshold, b);
    lemma_lumas_agree::<A>(pixel, l, m);
    assert(is_above(l, threshold, a) && is_above(l, threshold, b));
}

proof fn lemma_readings_agree<A: Arithmetic>(
    method: MeasurementMethod,
    threshold: A::Value,
    rgb: Seq<u8>,
    width: usize,
    height: usize,
    b: PixelBounds,
    previous_id: Option<u64>,
    r: FrameReading,
    q: FrameReading,
)
    requires
        is_functional::<A>(),
        is_ordered::<A::Value>(),
        is_reading::<A>(method, threshold, rgb, width, height, b, previous_id, r),
        is_reading::<A>(method, threshold, rgb, width, height, b, previous_id, q),
    ensures
        r == q,
{
    let x = choose|x: Seq<Seq<bool>>| #[trigger]
        is_sampling::<A>(method, threshold, rgb, width, height, b, x) && is_meaning(
            method,
            x,
            previous_id,
            r,
        );
    let y = choose|y: Seq<Seq<bool>>| #[trigger]
        is_sampling::<A>(method, threshold, rgb, width, height, b, y) && is_meaning(
            method,
            y,
            previous_id,
            q,
        );
    assert forall|h: int| 0 <= h < x.len() implies x[h] == y[h] by {
        let at = heights_read(method)[h];
        assert(is_pattern::<A>(threshold, rgb, width, height, b, at, x[h]));
        assert(is_pattern::<A>(threshold, rgb, width, height, b, at, y[h]));
        assert forall|k: int| 0 <= k < 4 implies x[h][k] == y[h][k] by {
            lemma_brightness_agrees::<A>(
                quadrant_pixel(rgb, width, height, b, at, k),
                threshold,
                x[h][k],
                y[h][k],
            );
        }
        assert(x[h] == y[h]);
    }
    assert(x == y);
}

proof fn lemma_bounds_agree<A: Raster>(
    roi: RoiNorm<A::Value>,
    width: usize,
    height: usize,
    a: PixelBounds,
    b: PixelBounds,
)
    requires
        is_raster_functional::<A>(),
        is_ordered::<A::Value>(),
        has_functional_indices::<A>(),
        are_clamped_bounds::<A>(roi, width, height, a),
        are_clamped_bounds::<A>(roi, width, height, b),
    ensures
        a == b,
{
    let c = choose|c: RoiNorm<A::Value>| #[trigger]
        is_clamped_roi::<A>(roi, Ok(c)) && are_bounds::<A>(c, width, height, a);
    let d = choose|d: RoiNorm<A::Value>| #[trigger]
        is_clamped_roi::<A>(roi, Ok(d)) && are_bounds::<A>(d, width, height, b);
    law_clamping_is_a_function::<A>(roi, Ok(c), Ok(d));
    lemma_pixels_agree::<A>(c.x, c.w, width, a.x0, a.x1, b.x0, b.x1);
    lemma_pixels_agree::<A>(c.y, c.h, height, a.y0, a.y1, b.y0, b.y1);
}

proof fn lemma_pixels_agree<A: Raster>(
    start: A::Value,
    side: A::Value,
    len: usize,
    p0: usize,
    p1: usize,
    q0: usize,
    q1: usize,
)
    requires
        is_functional::<A>(),
        has_functional_indices::<A>(),
        is_first_pixel::<A>(start, len, p0),
        is_first_pixel::<A>(start, len, q0),
        is_end_pixel::<A>(start, side, len, p1),
        is_end_pixel::<A>(start, side, len, q1),
    ensures
        p0 == q0,
        p1 == q1,
{
}

/// Where the operations are functions, so is detection: the same frame, region,
/// threshold and previous transition give the same result.
pub proof fn law_detection_is_a_function<A: Raster>(
    method: MeasurementMethod,
    threshold: A::Value,
    rgb: Seq<u8>,
    width: usize,
    height: usize,
    roi: RoiNorm<A::Value>,
    previous_id: Option<u64>,
    r: Result<Option<u64>, RoiError>,
    q: Result<Option<u64>, RoiError>,
)
    requires
        is_raster_functional::<A>(),
        is_ordered::<A::Value>(),
        has_functional_indices::<A>(),
        is_roi_detection::<A>(method, threshold, rgb, width, height, roi, previous_id, r),
        is_roi_detection::<A>(method, threshold, rgb, width, height, roi, previous_id, q),
    ensures
        r == q,
{
    if is_readable(width, height) {
        match (r, q) {
            (Ok(i), Ok(j)) => {
                let a = choose|b: PixelBounds| #[trigger]
                    are_clamped_bounds::<A>(roi, width, height, b) && is_detection::<A>(
                        method,
                        threshold,
                        rgb,
                        width,
                        height,
                        b,
                        previous_id,
                        i,
                    );
                let b = choose|b: PixelBounds| #[trigger]
                    are_clamped_bounds::<A>(roi, width, height, b) && is_detection::<A>(
                        method,
                        threshold,
                        rgb,
                        width,
                        height,
                        b,
                        previous_id,
                        j,
                    );
                lemma_bounds_agree::<A>(roi, width, height, a, b);
                let x = choose|x: FrameReading| #[trigger]
                    is_reading::<A>(method, threshold, rgb, width, height, a, previous_id, x) && i
                        == transition_of(x);
                let y = choose|y: FrameReading| #[trigger]
                    is_reading::<A>(method, threshold, rgb, width, height, a, previous_id, y) && j
                        == transition_of(y);
                lemma_readings_agree::<A>(
                    method,
                    threshold,
                    rgb,
                    width,
                    height,
                    a,
                    previous_id,
                    x,
                    y,
                );
            },
            (Ok(_), Err(e)) | (Err(e), Ok(_)) => {
                let b = choose|b: PixelBounds| #[trigger]
                    are_clamped_bounds::<A>(roi, width, height, b);
                let c = choose|c: RoiNorm<A::Value>| #[trigger]
                    is_clamped_roi::<A>(roi, Ok(c)) && are_bounds::<A>(c, width, height, b);
                law_clamping_is_a_function::<A>(roi, Ok(c), Err(e));
            },
            (Err(RoiError::NoRoom), Err(RoiError::NoRoom)) => {
                assert(r->Err_0 == RoiError::NoRoom);
                assert(q->Err_0 == RoiError::NoRoom);
            },
        }
    }
}

/// Pixels outside the region of interest have no influence on what is detected. Of
/// two frames that agree on the pixels of the region, at least two a side, what can
/// be detected in one can be detected in the other; where the operations are
/// functions, the results are equal. Nothing is rounded but to indices.
pub proof fn law_pixels_outside_the_roi_have_no_influence<A: Raster>(
    method: MeasurementMethod,
    threshold: A::Value,
    rgb1: Seq<u8>,
    rgb2: Seq<u8>,
    width: usize,
    height: usize,
    roi: RoiNorm<A::Value>,
    previous_id: Option<u64>,
    r: Result<Option<u64>, RoiError>,
    q: Result<Option<u64>, RoiError>,
    number: spec_fn(A::Value) -> real,
)
    requires
        is_exact::<A>(number),
        follows_numbers::<A>(number),
        indexes_numbers::<A>(number),
        forall|b: PixelBounds| #[trigger]
            are_clamped_bounds::<A>(roi, width, height, b) ==> b.x0 + 2 <= b.x1 && b.y0 + 2 <= b.y1
                && agree_inside(rgb1, rgb2, width, height, b),
        is_roi_detection::<A>(method, threshold, rgb1, width, height, roi, previous_id, r),
        is_roi_detection::<A>(method, threshold, rgb2, width, height, roi, previous_id, q),
    ensures
        is_roi_detection::<A>(method, threshold, rgb2, width, height, roi, previous_id, r),
        is_raster_functional::<A>() && is_ordered::<A::Value>() && has_functional_indices::<A>()
            ==> r == q,
{
    if is_readable(width, height) && r is Ok {
        let b = choose|b: PixelBounds| #[trigger]
            are_clamped_bounds::<A>(roi, width, height, b) && is_detection::<A>(
                method,
                threshold,
                rgb1,
                width,
                height,
                b,
                previous_id,
                r->Ok_0,
            );
        law_clamped_region_lies_in_the_frame::<A>(roi, width, height, b, number);
        law_detection_ignores_outside_pixels::<A>(
            method,
            threshold,
            rgb1,
            rgb2,
            width,
            height,
            b,
            previous_id,
            r->Ok_0,
        );
    }
    if is_raster_functional::<A>() && is_ordered::<A::Value>() && has_functional_indices::<A>() {
        law_detection_is_a_function::<A>(
            method,
            threshold,
            rgb2,
            width,
            height,
            roi,
            previous_id,
            r,
            q,
        );
    }
}

} // verus!
