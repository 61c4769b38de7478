//! What reading a frame comes down to: the bytes of the frame, weighed and held
//! against the threshold. Nothing is rounded in what is stated here.

#[allow(unused_imports)]
use vstd::math::min;
use vstd::prelude::*;

#[allow(unused_imports)]
use crate::analysis::MeasurementMethod;
#[allow(unused_imports)]
use crate::arithmetic::{
    follows_numbers, indexes_numbers, is_above, is_count, is_exact, is_fraction, is_product, is_sum,
    Arithmetic, Raster,
};
#[allow(unused_imports)]
use crate::detection::{
    are_clamped_bounds, heights_read, is_brightness, is_detection, is_luma, is_meaning, is_pattern,
    is_readable, is_reading, is_roi_detection, is_roi_reading, is_sampling, is_weighted,
    pixel_or_black, quadrant_centre, quadrant_pixel, quadrant_row, transition_of, FrameReading,
    SampleHeight,
};
#[allow(unused_imports)]
use crate::readback::law_clamped_region_lies_in_the_frame;
#[allow(unused_imports)]
use crate::regions::{
    larger, law_clamped_region_in_numbers, law_clamping_fails_without_room, law_pixels_of_a_region,
    smaller,
};
#[allow(unused_imports)]
use crate::roi::{are_bounds, is_clamped_roi, PixelBounds, RoiError, RoiNorm};
#[allow(unused_imports)]
use crate::stimulus::{has_digits, is_bottom, is_right, lemma_decoded_digits, lemma_digits_of_code};

verus! {

proof fn lemma_share<A: Arithmetic>(
    weight: u64,
    level: u8,
    r: A::Value,
    number: spec_fn(A::Value) -> real,
)
    requires
        is_exact::<A>(number),
        is_weighted::<A>(weight, level, r),
    ensures
        number(r) * 10000real == (weight * level) as real,
{
    let (w, v) = choose|w: A::Value, v: A::Value|
        {
            &&& is_fraction::<A>(weight, 10000, w)
            &&& is_count::<A>(level as u64, v)
            &&& #[trigger] is_product::<A>(w, v, r)
        };
    let (x, y) = (number(w), number(v));
    assert(x * 10000real == weight as real);
    assert(y == level as real);
    assert(x * y * 10000real == (x * 10000real) * y) by (nonlinear_arith);
    assert((weight as real) * (level as real) == (weight * level) as real) by (nonlinear_arith);
}

/// The brightness of a pixel is 0.2126 of its red, 0.7152 of its green and 0.0722 of
/// its blue.
pub proof fn law_brightness_weighs_the_colours<A: Arithmetic>(
    pixel: Seq<u8>,
    luma: A::Value,
    number: spec_fn(A::Value) -> real,
)
    requires
        is_exact::<A>(number),
        is_luma::<A>(pixel, luma),
    ensures
        number(luma) * 10000real == (2126 * pixel[0] + 7152 * pixel[1] + 722 * pixel[2]) as real,
{
    let (red, green, blue, warm) = choose|
        red: A::Value,
        green: A::Value,
        blue: A::Value,
        warm: A::Value,
    |
        {
            &&& is_weighted::<A>(2126, pixel[0], red)
            &&& is_weighted::<A>(7152, pixel[1], green)
            &&& is_weighted::<A>(722, pixel[2], blue)
            &&& #[trigger] is_sum::<A>(red, green, warm)
            &&& #[trigger] is_sum::<A>(warm, blue, luma)
        };
    lemma_share::<A>(2126, pixel[0], red, number);
    lemma_share::<A>(7152, pixel[1], green, number);
    lemma_share::<A>(722, pixel[2], blue, number);
}

/// The pixel in column `x` of row `y` of a frame with rows of `width` pixels is
/// brighter than `threshold`, by its three bytes; where the frame ends before it, it
/// counts as black.
pub open spec fn is_bright_at(rgb: Seq<u8>, width: int, x: int, y: int, threshold: real) -> bool {
    let i = 3 * (y * width + x);
    if i + 2 < rgb.len() {
        (2126 * rgb[i] + 7152 * rgb[i + 1] + 722 * rgb[i + 2]) as real > threshold * 10000real
    } else {
        0real > threshold
    }
}

/// What is held against the threshold are the bytes of the frame.
pub proof fn law_brightness_is_read_off_the_bytes<A: Raster>(
    rgb: Seq<u8>,
    width: usize,
    x: int,
    y: int,
    threshold: A::Value,
    bright: bool,
    number: spec_fn(A::Value) -> real,
)
    requires
        is_exact::<A>(number),
        follows_numbers::<A>(number),
        0 <= x,
        0 <= y,
        is_brightness::<A>(pixel_or_black(rgb, y * width + x), threshold, bright),
    ensures
        bright == is_bright_at(rgb, width as int, x, y, number(threshold)),
{
    assert(0 <= y * width) by (nonlinear_arith)
        requires
            0 <= y,
            0 <= width,
    ;
    let pixel = pixel_or_black(rgb, y * width + x);
    let luma = choose|luma: A::Value| #[trigger]
        is_luma::<A>(pixel, luma) && is_above(luma, threshold, bright);
    law_brightness_weighs_the_colours::<A>(pixel, luma, number);
    let i = 3 * (y * width + x);
    if i + 2 < rgb.len() {
        assert(pixel[0] == rgb[i] && pixel[1] == rgb[i + 1] && pixel[2] == rgb[i + 2]);
    }
}

/// The pixel at `num` parts of `den` into a region from `p0` to `p1`, which counts as
/// two pixels where it is smaller, within `len` pixels.
pub open spec fn part_way(p0: usize, p1: usize, len: usize, num: int, den: int) -> int {
    let extent = if p1 - p0 > 2 {
        p1 - p0
    } else {
        2
    };
    min(p0 + num * extent / den, len - 1)
}

/// The quadrants are bright in the given columns and rows: top left, top right,
/// bottom left, bottom right.
pub open spec fn bright_quadrants(
    rgb: Seq<u8>,
    width: int,
    left: int,
    right: int,
    top: int,
    bottom: int,
    threshold: real,
) -> (bool, bool, bool, bool) {
    (
        is_bright_at(rgb, width, left, top, threshold),
        is_bright_at(rgb, width, right, top, threshold),
        is_bright_at(rgb, width, left, bottom, threshold),
        is_bright_at(rgb, width, right, bottom, threshold),
    )
}

proof fn lemma_rows(p0: usize, p1: usize, len: usize)
    requires
        len > 0,
    ensures
        quadrant_centre(p0, p1, len, false) == part_way(p0, p1, len, 1, 4),
        quadrant_centre(p0, p1, len, true) == part_way(p0, p1, len, 3, 4),
        quadrant_row(p0, p1, len, false, SampleHeight::Upper) == part_way(p0, p1, len, 1, 8),
        quadrant_row(p0, p1, len, true, SampleHeight::Upper) == part_way(p0, p1, len, 5, 8),
        quadrant_row(p0, p1, len, true, SampleHeight::Lower) == part_way(p0, p1, len, 7, 8),
{
}

/// The row a little above the middle of a region in which the top quadrants are
/// sampled for the third time.
pub open spec fn above_middle(p0: usize, p1: usize, len: usize) -> int {
    let extent = if p1 - p0 > 2 {
        p1 - p0
    } else {
        2
    };
    min(p0 + 3 * (extent - 1) / 8, len - 1)
}

proof fn lemma_pattern_in_bytes<A: Raster>(
    threshold: A::Value,
    rgb: Seq<u8>,
    width: usize,
    height: usize,
    b: PixelBounds,
    at: SampleHeight,
    bright: Seq<bool>,
    number: spec_fn(A::Value) -> real,
)
    requires
        is_exact::<A>(number),
        follows_numbers::<A>(number),
        width > 0,
        height > 0,
        is_pattern::<A>(threshold, rgb, width, height, b, at, bright),
    ensures
        bright.len() == 4,
        (bright[0], bright[1], bright[2], bright[3]) == bright_quadrants(
            rgb,
            width as int,
            part_way(b.x0, b.x1, width, 1, 4),
            part_way(b.x0, b.x1, width, 3, 4),
            quadrant_row(b.y0, b.y1, height, false, at),
            quadrant_row(b.y0, b.y1, height, true, at),
            number(threshold),
        ),
{
    lemma_rows(b.x0, b.x1, width);
    assert forall|q: int| 0 <= q < 4 implies #[trigger] bright[q] == is_bright_at(
        rgb,
        width as int,
        quadrant_centre(b.x0, b.x1, width, is_right(q)),
        quadrant_row(b.y0, b.y1, height, is_bottom(q), at),
        number(threshold),
    ) by {
        let x = quadrant_centre(b.x0, b.x1, width, is_right(q));
        let y = quadrant_row(b.y0, b.y1, height, is_bottom(q), at);
        assert(is_brightness::<A>(
            quadrant_pixel(rgb, width, height, b, at, q),
            threshold,
            bright[q],
        ));
        law_brightness_is_read_off_the_bytes::<A>(rgb, width, x, y, threshold, bright[q], number);
    }
    assert(bright[0] == bright[0] && bright[1] == bright[1] && bright[2] == bright[2] && bright[3]
        == bright[3]);
}

/// A step of brightness, read off a region: the quadrants are looked at in their
/// centres, a quarter and three quarters into the region. The frame is torn where a
/// top quadrant differs from the one below it. Else the top left quadrant tells
/// whether the transition is odd: without a previous transition it is 1 or 0, and
/// after one it is the next, unless it is as odd as the previous one.
pub proof fn law_step_is_read_off_the_bytes<A: Raster>(
    threshold: A::Value,
    rgb: Seq<u8>,
    width: usize,
    height: usize,
    b: PixelBounds,
    previous_id: Option<u64>,
    reading: FrameReading,
    number: spec_fn(A::Value) -> real,
)
    requires
        is_exact::<A>(number),
        follows_numbers::<A>(number),
        width > 0,
        height > 0,
        is_reading::<A>(
            MeasurementMethod::LumaStep,
            threshold,
            rgb,
            width,
            height,
            b,
            previous_id,
            reading,
        ),
    ensures
        ({
            let (q0, q1, q2, q3) = bright_quadrants(
                rgb,
                width as int,
                part_way(b.x0, b.x1, width, 1, 4),
                part_way(b.x0, b.x1, width, 3, 4),
                part_way(b.y0, b.y1, height, 1, 4),
                part_way(b.y0, b.y1, height, 3, 4),
                number(threshold),
            );
            &&& reading == FrameReading::Torn <==> q0 != q2 || q1 != q3
            &&& reading == FrameReading::Nothing ==> (previous_id matches Some(p) && (p % 2 == 1)
                == q0)
            &&& reading matches FrameReading::Transition(id) ==> match previous_id {
                None => id == (if q0 {
                    1int
                } else {
                    0
                }),
                Some(p) => (p % 2 == 1) != q0 && id == p + 1,
            }
        }),
{
    let m = MeasurementMethod::LumaStep;
    let patterns = choose|patterns: Seq<Seq<bool>>| #[trigger]
        is_sampling::<A>(m, threshold, rgb, width, height, b, patterns) && is_meaning(
            m,
            patterns,
            previous_id,
            reading,
        );
    assert(heights_read(m)[0] == SampleHeight::Centre);
    let bright = patterns[0];
    assert(is_pattern::<A>(threshold, rgb, width, height, b, SampleHeight::Centre, bright));
    lemma_rows(b.y0, b.y1, height);
    lemma_pattern_in_bytes::<A>(
        threshold,
        rgb,
        width,
        height,
        b,
        SampleHeight::Centre,
        bright,
        number,
    );
}

/// Coded quadrants, read off a region: they are looked at in their centres, and
/// again above and below them. The frame is torn where what is bright differs from
/// height to height. Else the bright quadrants are the binary digits of the
/// transition: without a previous transition it is the number below sixteen with
/// these digits, and after one it is the next number with them, unless the previous
/// one has them itself.
#[verifier::spinoff_prover]
#[verifier::rlimit(30)]
pub proof fn law_code_is_read_off_the_bytes<A: Raster>(
    threshold: A::Value,
    rgb: Seq<u8>,
    width: usize,
    height: usize,
    b: PixelBounds,
    previous_id: Option<u64>,
    reading: FrameReading,
    number: spec_fn(A::Value) -> real,
)
    requires
        is_exact::<A>(number),
        follows_numbers::<A>(number),
        width > 0,
        height > 0,
        is_reading::<A>(
            MeasurementMethod::QuadCode,
            threshold,
            rgb,
            width,
            height,
            b,
            previous_id,
            reading,
        ),
    ensures
        ({
            let left = part_way(b.x0, b.x1, width, 1, 4);
            let right = part_way(b.x0, b.x1, width, 3, 4);
            let t = number(threshold);
            let w = width as int;
            let centre = bright_quadrants(
                rgb,
                w,
                left,
                right,
                part_way(b.y0, b.y1, height, 1, 4),
                part_way(b.y0, b.y1, height, 3, 4),
                t,
            );
            let upper = bright_quadrants(
                rgb,
                w,
                left,
                right,
                part_way(b.y0, b.y1, height, 1, 8),
                part_way(b.y0, b.y1, height, 5, 8),
                t,
            );
            let lower = bright_quadrants(
                rgb,
                w,
                left,
                right,
                above_middle(b.y0, b.y1, height),
                part_way(b.y0, b.y1, height, 7, 8),
                t,
            );
            let (d0, d1, d2, d3) = centre;
            &&& reading == FrameReading::Torn <==> upper != centre || lower != centre
            &&& reading == FrameReading::Nothing ==> (previous_id matches Some(p) && has_digits(
                p as int,
                d0,
                d1,
                d2,
                d3,
            ))
            &&& reading matches FrameReading::Transition(id) ==> {
                &&& has_digits(id as int, d0, d1, d2, d3)
                &&& previous_id is None ==> id < 16
                &&& previous_id matches Some(p) ==> p < id && forall|k: int|
                    p <= k < id ==> !#[trigger] has_digits(k, d0, d1, d2, d3)
            }
        }),
{
    let m = MeasurementMethod::QuadCode;
    let patterns = choose|patterns: Seq<Seq<bool>>| #[trigger]
        is_sampling::<A>(m, threshold, rgb, width, height, b, patterns) && is_meaning(
            m,
            patterns,
            previous_id,
            reading,
        );
    let heights = heights_read(m);
    assert(heights[0] == SampleHeight::Centre && heights[1] == SampleHeight::Upper && heights[2]
        == SampleHeight::Lower);
    lemma_rows(b.y0, b.y1, height);
    let (c, u, l) = (patterns[0], patterns[1], patterns[2]);
    assert(is_pattern::<A>(threshold, rgb, width, height, b, heights[0], c));
    assert(is_pattern::<A>(threshold, rgb, width, height, b, heights[1], u));
    assert(is_pattern::<A>(threshold, rgb, width, height, b, heights[2], l));
    lemma_pattern_in_bytes::<A>(threshold, rgb, width, height, b, heights[0], c, number);
    lemma_pattern_in_bytes::<A>(threshold, rgb, width, height, b, heights[1], u, number);
    lemma_pattern_in_bytes::<A>(threshold, rgb, width, height, b, heights[2], l, number);
    assert(c == seq![c[0], c[1], c[2], c[3]]);
    assert(u == seq![u[0], u[1], u[2], u[3]]);
    assert(l == seq![l[0], l[1], l[2], l[3]]);
    assert(patterns == seq![c, u, l]);
    lemma_code_meaning(c, u, l, previous_id, reading);
}

proof fn lemma_code_meaning(
    c: Seq<bool>,
    u: Seq<bool>,
    l: Seq<bool>,
    previous_id: Option<u64>,
    reading: FrameReading,
)
    requires
        c.len() == 4,
        u.len() == 4,
        l.len() == 4,
        is_meaning(MeasurementMethod::QuadCode, seq![c, u, l], previous_id, reading),
    ensures
        reading == FrameReading::Torn <==> u != c || l != c,
        reading == FrameReading::Nothing ==> (previous_id matches Some(p) && has_digits(
            p as int,
            c[0],
            c[1],
            c[2],
            c[3],
        )),
        reading matches FrameReading::Transition(id) ==> {
            &&& has_digits(id as int, c[0], c[1], c[2], c[3])
            &&& previous_id is None ==> id < 16
            &&& previous_id matches Some(p) ==> p < id && forall|k: int|
                p <= k < id ==> !#[trigger] has_digits(k, c[0], c[1], c[2], c[3])
        },
{
    let s = seq![c, u, l];
    assert(s[0] == c && s[1] == u && s[2] == l);
    assert(c == seq![c[0], c[1], c[2], c[3]]);
    lemma_decoded_digits(c, previous_id);
    if let Some(p) = previous_id {
        lemma_digits_of_code(p as int, c[0], c[1], c[2], c[3]);
    }
}

/// The binary digit of a transition that a quadrant shows: the lowest one all over
/// for a step of brightness, and one of the lowest four with coded quadrants.
pub open spec fn digit_shown(method: MeasurementMethod, id: u64, right: bool, bottom: bool) -> bool {
    match method {
        MeasurementMethod::LumaStep => id % 2 == 1,
        MeasurementMethod::QuadCode => if !right && !bottom {
            id % 2 == 1
        } else if right && !bottom {
            id / 2 % 2 == 1
        } else if !right && bottom {
            id / 4 % 2 == 1
        } else {
            id / 8 % 2 == 1
        },
    }
}

/// The pixels of a region are in the frame, and each is brighter than the threshold
/// exactly where its quadrant, of the halves of the region, shows a one.
pub open spec fn is_lit(
    method: MeasurementMethod,
    rgb: Seq<u8>,
    width: int,
    b: PixelBounds,
    id: u64,
    threshold: real,
) -> bool {
    forall|x: int, y: int|
        b.x0 <= x < b.x1 && b.y0 <= y < b.y1 ==> #[trigger] is_bright_at(
            rgb,
            width,
            x,
            y,
            threshold,
        ) == digit_shown(
            method,
            id,
            x >= b.x0 + (b.x1 - b.x0) / 2,
            y >= b.y0 + (b.y1 - b.y0) / 2,
        )
}

/// Whatever colours a camera gives the pattern, it is read by its brightness. Where
/// the light quadrants of a region are brighter than the threshold, pixel by pixel,
/// and the dark ones are not, the region shows the transition: it is read when it is
/// the next one, or, with coded quadrants, less than sixteen ahead; the previous one
/// is not read again; and the first reading gives the transition modulo two or
/// sixteen.
pub proof fn law_lit_region_is_read<A: Raster>(
    method: MeasurementMethod,
    threshold: A::Value,
    rgb: Seq<u8>,
    width: usize,
    height: usize,
    roi: RoiNorm<A::Value>,
    previous_id: Option<u64>,
    id: u64,
    r: Result<Option<u64>, RoiError>,
    number: spec_fn(A::Value) -> real,
)
    requires
        is_exact::<A>(number),
        follows_numbers::<A>(number),
        indexes_numbers::<A>(number),
        is_readable(width, height),
        forall|b: PixelBounds| #[trigger]
            are_clamped_bounds::<A>(roi, width, height, b) ==> b.x0 + 2 <= b.x1 && b.y0 + 2 <= b.y1
                && is_lit(method, rgb, width as int, b, id, number(threshold)),
        r is Ok,
        is_roi_detection::<A>(method, threshold, rgb, width, height, roi, previous_id, r),
    ensures
        match (previous_id, method) {
            (None, MeasurementMethod::LumaStep) => r == Ok::<Option<u64>, RoiError>(
                Some((id % 2) as u64),
            ),
            (None, MeasurementMethod::QuadCode) => r == Ok::<Option<u64>, RoiError>(
                Some((id % 16) as u64),
            ),
            (Some(previous), _) => {
                &&& id == previous ==> r == Ok::<Option<u64>, RoiError>(None)
                &&& id == previous + 1 ==> r == Ok::<Option<u64>, RoiError>(Some(id))
                &&& method == MeasurementMethod::QuadCode && previous < id < previous + 16 ==> r
                    == Ok::<Option<u64>, RoiError>(Some(id))
            },
        },
{
    let read = r->Ok_0;
    let b = choose|b: PixelBounds| #[trigger]
        are_clamped_bounds::<A>(roi, width, height, b) && is_detection::<A>(
            method,
            threshold,
            rgb,
            width,
            height,
            b,
            previous_id,
            read,
        );
    law_clamped_region_lies_in_the_frame::<A>(roi, width, height, b, number);
    let reading = choose|reading: FrameReading| #[trigger]
        is_reading::<A>(method, threshold, rgb, width, height, b, previous_id, reading) && read
            == transition_of(reading);
    lemma_lit_region::<A>(
        method,
        threshold,
        rgb,
        width,
        height,
        b,
        previous_id,
        id,
        reading,
        number,
    );
}

proof fn lemma_lit_region<A: Raster>(
    method: MeasurementMethod,
    threshold: A::Value,
    rgb: Seq<u8>,
    width: usize,
    height: usize,
    b: PixelBounds,
    previous_id: Option<u64>,
    id: u64,
    reading: FrameReading,
    number: spec_fn(A::Value) -> real,
)
    requires
        is_exact::<A>(number),
        follows_numbers::<A>(number),
        b.x0 + 2 <= b.x1 <= width,
        b.y0 + 2 <= b.y1 <= height,
        is_lit(method, rgb, width as int, b, id, number(threshold)),
        is_reading::<A>(method, threshold, rgb, width, height, b, previous_id, reading),
    ensures
        match (previous_id, method) {
            (None, MeasurementMethod::LumaStep) => transition_of(reading) == Some((id % 2) as u64),
            (None, MeasurementMethod::QuadCode) => transition_of(reading) == Some((id % 16) as u64),
            (Some(previous), _) => {
                &&& id == previous ==> transition_of(reading) is None
                &&& id == previous + 1 ==> transition_of(reading) == Some(id)
                &&& method == MeasurementMethod::QuadCode && previous < id < previous + 16
                    ==> transition_of(reading) == Some(id)
            },
        },
{
    let (w, t) = (width as int, number(threshold));
    let left = part_way(b.x0, b.x1, width, 1, 4);
    let right = part_way(b.x0, b.x1, width, 3, 4);
    let (half_x, half_y) = (b.x0 + (b.x1 - b.x0) / 2, b.y0 + (b.y1 - b.y0) / 2);
    assert(b.x0 <= left < half_x <= right < b.x1);
    assert forall|top: int, bottom: int|
        b.y0 <= top < half_y <= bottom < b.y1 implies #[trigger] bright_quadrants(
        rgb,
        w,
        left,
        right,
        top,
        bottom,
        t,
    ) == (
        digit_shown(method, id, false, false),
        digit_shown(method, id, true, false),
        digit_shown(method, id, false, true),
        digit_shown(method, id, true, true),
    ) by {
        assert(is_bright_at(rgb, w, left, top, t) == digit_shown(method, id, false, false));
        assert(is_bright_at(rgb, w, right, top, t) == digit_shown(method, id, true, false));
        assert(is_bright_at(rgb, w, left, bottom, t) == digit_shown(method, id, false, true));
        assert(is_bright_at(rgb, w, right, bottom, t) == digit_shown(method, id, true, true));
    }
    match method {
        MeasurementMethod::LumaStep => {
            law_step_is_read_off_the_bytes::<A>(
                threshold,
                rgb,
                width,
                height,
                b,
                previous_id,
                reading,
                number,
            );
        },
        MeasurementMethod::QuadCode => {
            law_code_is_read_off_the_bytes::<A>(
                threshold,
                rgb,
                width,
                height,
                b,
                previous_id,
                reading,
                number,
            );
            lemma_digits_found(previous_id, id, reading);
        },
    }
}

/// A reading by the digits of `id`.
proof fn lemma_digits_found(previous_id: Option<u64>, id: u64, reading: FrameReading)
    requires
        reading != FrameReading::Torn,
        ({
            let m = MeasurementMethod::QuadCode;
            let (d0, d1) = (digit_shown(m, id, false, false), digit_shown(m, id, true, false));
            let (d2, d3) = (digit_shown(m, id, false, true), digit_shown(m, id, true, true));
            &&& reading == FrameReading::Nothing ==> (previous_id matches Some(p) && has_digits(
                p as int,
                d0,
                d1,
                d2,
                d3,
            ))
            &&& reading matches FrameReading::Transition(found) ==> {
                &&& has_digits(found as int, d0, d1, d2, d3)
                &&& previous_id is None ==> found < 16
                &&& previous_id matches Some(p) ==> p < found && forall|k: int|
                    p <= k < found ==> !#[trigger] has_digits(k, d0, d1, d2, d3)
            }
        }),
    ensures
        match previous_id {
            None => transition_of(reading) == Some((id % 16) as u64),
            Some(previous) => {
                &&& id == previous ==> transition_of(reading) is None
                &&& previous < id < previous + 16 ==> transition_of(reading) == Some(id)
            },
        },
{
    let m = MeasurementMethod::QuadCode;
    let (d0, d1) = (digit_shown(m, id, false, false), digit_shown(m, id, true, false));
    let (d2, d3) = (digit_shown(m, id, false, true), digit_shown(m, id, true, true));
    assert(has_digits(id as int, d0, d1, d2, d3)) by {
        reveal(has_digits);
    }
    lemma_digits_of_code(id as int, d0, d1, d2, d3);
    if let FrameReading::Transition(found) = reading {
        lemma_digits_of_code(found as int, d0, d1, d2, d3);
    }
    if let Some(p) = previous_id {
        lemma_digits_of_code(p as int, d0, d1, d2, d3);
    }
}

/// `b` are the pixels that a region reaches into, in an image of `width` by `height`
/// pixels: of the region brought into the image, with its origin between zero and one
/// and its sides between a hundredth and what is left up to one.
pub open spec fn spans<V>(
    roi: RoiNorm<V>,
    width: usize,
    height: usize,
    b: PixelBounds,
    number: spec_fn(V) -> real,
) -> bool {
    let left = larger(0real, smaller(number(roi.x), 1real));
    let top = larger(0real, smaller(number(roi.y), 1real));
    let right = left + larger(1real / 100real, smaller(number(roi.w), 1real - left));
    let bottom = top + larger(1real / 100real, smaller(number(roi.h), 1real - top));
    let (w, h) = (width as real, height as real);
    &&& b.x0 as real <= left * w < b.x0 as real + 1real
    &&& b.y0 as real <= top * h < b.y0 as real + 1real
    &&& b.x1 as real - 1real < right * w <= b.x1 as real
    &&& b.y1 as real - 1real < bottom * h <= b.y1 as real
}

proof fn lemma_bounds_span<A: Raster>(
    roi: RoiNorm<A::Value>,
    width: usize,
    height: usize,
    b: PixelBounds,
    number: spec_fn(A::Value) -> real,
)
    requires
        is_exact::<A>(number),
        follows_numbers::<A>(number),
        indexes_numbers::<A>(number),
        are_clamped_bounds::<A>(roi, width, height, b),
    ensures
        spans(roi, width, height, b, number),
        number(roi.x) * 100real <= 99real,
        number(roi.y) * 100real <= 99real,
{
    let c = choose|c: RoiNorm<A::Value>| #[trigger]
        is_clamped_roi::<A>(roi, Ok(c)) && are_bounds::<A>(c, width, height, b);
    law_clamping_fails_without_room::<A>(roi, Ok(c), number);
    law_clamped_region_in_numbers::<A>(roi, c, number);
    law_pixels_of_a_region::<A>(c, width, height, b, number);
}

/// What a frame shows in a region of interest is read off the pixels that the region
/// reaches into. A frame of fewer than four pixels a side shows nothing, and reading
/// fails exactly where the origin of the region lies closer than a hundredth to the far
/// edge, or beyond it.
pub proof fn law_region_is_read<A: Raster>(
    method: MeasurementMethod,
    threshold: A::Value,
    rgb: Seq<u8>,
    width: usize,
    height: usize,
    roi: RoiNorm<A::Value>,
    previous_id: Option<u64>,
    r: Result<FrameReading, RoiError>,
    number: spec_fn(A::Value) -> real,
)
    requires
        is_exact::<A>(number),
        follows_numbers::<A>(number),
        indexes_numbers::<A>(number),
        is_roi_reading::<A>(method, threshold, rgb, width, height, roi, previous_id, r),
    ensures
        width < 4 || height < 4 ==> r == Ok::<FrameReading, RoiError>(FrameReading::Nothing),
        width >= 4 && height >= 4 ==> {
            &&& r is Ok <==> number(roi.x) * 100real <= 99real && number(roi.y) * 100real <= 99real
            &&& r matches Ok(reading) ==> exists|b: PixelBounds| #[trigger]
                is_reading::<A>(method, threshold, rgb, width, height, b, previous_id, reading)
                    && spans(roi, width, height, b, number)
        },
{
    if width >= 4 && height >= 4 {
        match r {
            Ok(reading) => {
                let b = choose|b: PixelBounds| #[trigger]
                    are_clamped_bounds::<A>(roi, width, height, b) && is_reading::<A>(
                        method,
                        threshold,
                        rgb,
                        width,
                        height,
                        b,
                        previous_id,
                        reading,
                    );
                lemma_bounds_span::<A>(roi, width, height, b, number);
            },
            Err(e) => {
                law_clamping_fails_without_room::<A>(roi, Err(e), number);
            },
        }
    }
}

/// The transition that is detected in a frame is the one that its region of interest is
/// read to show. None is detected where the region shows nothing new or a torn pattern.
pub proof fn law_detection_is_what_is_read<A: Raster>(
    method: MeasurementMethod,
    threshold: A::Value,
    rgb: Seq<u8>,
    width: usize,
    height: usize,
    roi: RoiNorm<A::Value>,
    previous_id: Option<u64>,
    r: Result<Option<u64>, RoiError>,
    number: spec_fn(A::Value) -> real,
)
    requires
        is_exact::<A>(number),
        follows_numbers::<A>(number),
        indexes_numbers::<A>(number),
        is_roi_detection::<A>(method, threshold, rgb, width, height, roi, previous_id, r),
    ensures
        width < 4 || height < 4 ==> r == Ok::<Option<u64>, RoiError>(None),
        width >= 4 && height >= 4 ==> {
            &&& r is Ok <==> number(roi.x) * 100real <= 99real && number(roi.y) * 100real <= 99real
            &&& r matches Ok(found) ==> exists|b: PixelBounds, reading: FrameReading|
                {
                    &&& #[trigger] is_reading::<A>(
                        method,
                        threshold,
                        rgb,
                        width,
                        height,
                        b,
                        previous_id,
                        reading,
                    )
                    &&& spans(roi, width, height, b, number)
                    &&& found matches Some(id) ==> reading == FrameReading::Transition(id)
                    &&& found is None ==> reading is Torn || reading is Nothing
                }
        },
{
    if width >= 4 && height >= 4 {
        match r {
            Ok(found) => {
                let b = choose|b: PixelBounds| #[trigger]
                    are_clamped_bounds::<A>(roi, width, height, b) && is_detection::<A>(
                        method,
                        threshold,
                        rgb,
                        width,
                        height,
                        b,
                        previous_id,
                        found,
                    );
                lemma_bounds_span::<A>(roi, width, height, b, number);
                law_detection_in_bounds_is_what_is_read::<A>(
                    method,
                    threshold,
                    rgb,
                    width,
                    height,
                    b,
                    previous_id,
                    found,
                );
            },
            Err(e) => {
                law_clamping_fails_without_room::<A>(roi, Err(e), number);
            },
        }
    }
}

/// The same of given pixels of a frame.
pub proof fn law_detection_in_bounds_is_what_is_read<A: Raster>(
    method: MeasurementMethod,
    threshold: A::Value,
    rgb: Seq<u8>,
    width: usize,
    height: usize,
    b: PixelBounds,
    previous_id: Option<u64>,
    found: Option<u64>,
)
    requires
        is_detection::<A>(method, threshold, rgb, width, height, b, previous_id, found),
    ensures
        exists|reading: FrameReading|
            {
                &&& #[trigger] is_reading::<A>(
                    method,
                    threshold,
                    rgb,
                    width,
                    height,
                    b,
                    previous_id,
                    reading,
                )
                &&& found matches Some(id) ==> reading == FrameReading::Transition(id)
                &&& found is None ==> reading is Torn || reading is Nothing
            },
{
}

} // verus!
