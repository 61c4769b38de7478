//! What the images for the preview hold, pixel by pixel.

#[allow(unused_imports)]
use vstd::arithmetic::div_mod::{lemma_div_pos_is_pos, lemma_fundamental_div_mod_converse};
#[allow(unused_imports)]
use vstd::math::min;
use vstd::prelude::*;

#[allow(unused_imports)]
use crate::arithmetic::{
    follows_numbers, indexes_numbers, is_count, is_exact, is_floor, is_fraction, is_product,
    is_quotient, is_round, Raster,
};
#[allow(unused_imports)]
use crate::preview::{
    are_sources, dimmed, is_color_image, is_mask, is_masked, is_preview, is_previewable,
    is_resampled, is_roi_mask, is_source, resampled_byte, ColorImage, PreviewFrame,
};
#[allow(unused_imports)]
use crate::regions::{
    larger, law_clamped_region_in_numbers, law_clamping_fails_without_room, law_pixels_of_a_region,
    lies_in_image, smaller,
};
#[allow(unused_imports)]
use crate::roi::{are_bounds, is_clamped_roi, PixelBounds, RoiError, RoiNorm};

verus! {

/// Rounding to the closest index follows the numbers that `number` assigns to the
/// values, as far as they are indices.
pub open spec fn rounds_numbers<A: Raster>(number: spec_fn(A::Value) -> real) -> bool {
    forall|a: A::Value, r: usize| #[trigger]
        is_round::<A>(a, r) && 0real <= number(a) <= usize::MAX as real ==> 2real * (r as real)
            - 1real <= 2real * number(a) <= 2real * (r as real) + 1real
}

proof fn lemma_part<A: Raster>(
    num: u64,
    den: u64,
    part: A::Value,
    n: u64,
    count: A::Value,
    place: A::Value,
    number: spec_fn(A::Value) -> real,
)
    requires
        is_exact::<A>(number),
        den > 0,
        is_fraction::<A>(num, den, part),
        is_count::<A>(n, count),
        number(place) == number(part) * number(count),
    ensures
        number(place) * (den as real) == (num * n) as real,
{
    let (a, b) = choose|a: A::Value, b: A::Value|
        #![trigger is_quotient::<A>(a, b, part)]
        is_count::<A>(num, a) && is_count::<A>(den, b) && is_quotient::<A>(a, b, part);
    let (q, d, m) = (number(part), den as real, n as real);
    assert(q * d == num as real);
    assert((q * m) * d == (q * d) * m) by (nonlinear_arith);
    assert((num as real) * (n as real) == (num * n) as real) by (nonlinear_arith);
}

/// A scaled image keeps the proportions: its height is to its width as that of the
/// image, to the nearest pixel, and it has at least one row.
pub proof fn law_preview_keeps_proportions<A: Raster>(
    raw: Seq<u8>,
    width: usize,
    height: usize,
    max_w: usize,
    frame: PreviewFrame,
    number: spec_fn(A::Value) -> real,
)
    requires
        is_exact::<A>(number),
        rounds_numbers::<A>(number),
        is_preview::<A>(raw, width, height, max_w, frame),
    ensures
        width <= max_w ==> frame.width == width && frame.height == height && frame.rgb@ == raw,
        max_w == 0 && width > 0 ==> frame.rgb@.len() == 0,
        width > max_w ==> {
            &&& frame.width == max_w
            &&& frame.height >= 1
            &&& 2 * (height * max_w) <= 2 * (frame.height * width) + width
            &&& frame.height == 1 || 2 * (frame.height * width) <= 2 * (height * max_w) + width
        },
{
    if width > max_w {
        let (scale, h, scaled, rounded) = choose|
            scale: A::Value,
            h: A::Value,
            scaled: A::Value,
            rounded: usize,
        |
            {
                &&& is_fraction::<A>(max_w as u64, width as u64, scale)
                &&& is_count::<A>(height as u64, h)
                &&& #[trigger] is_product::<A>(h, scale, scaled)
                &&& #[trigger] is_round::<A>(scaled, rounded)
                &&& frame.height == vstd::math::max(rounded as int, 1)
            };
        let (x, y) = (number(h), number(scale));
        assert(x * y == y * x) by (nonlinear_arith);
        lemma_part::<A>(max_w as u64, width as u64, scale, height as u64, h, scaled, number);
        let (s, w, hr, m) = (number(scaled), width as real, height as real, max_w as real);
        assert(hr * m == (height * max_w) as real && hr * m == (max_w * height) as real)
            by (nonlinear_arith)
            requires
                hr == height as real,
                m == max_w as real,
        ;
        assert(0real <= s && s <= hr) by (nonlinear_arith)
            requires
                s * w == hr * m,
                0real <= hr,
                0real <= m,
                m <= w,
                w > 0real,
        ;
        assert(hr <= usize::MAX as real);
        let r = rounded as real;
        assert(2real * (r * w) - w <= 2real * (hr * m) && 2real * (hr * m) <= 2real * (r * w) + w)
            by (nonlinear_arith)
            requires
                s * w == hr * m,
                2real * r - 1real <= 2real * s,
                2real * s <= 2real * r + 1real,
                w > 0real,
        ;
        assert(r * w == (rounded * width) as real) by (nonlinear_arith)
            requires
                r == rounded as real,
                w == width as real,
        ;
        let (two_a, two_b) = (2 * (rounded * width), 2 * (height * max_w));
        assert(two_a - width <= two_b <= two_a + width);
        assert(rounded * width <= frame.height * width) by (nonlinear_arith)
            requires
                rounded <= frame.height,
                width >= 0,
        ;
    }
}

/// The row or column that one of a scaled image is taken from.
proof fn lemma_source<A: Raster>(
    at: int,
    out_len: usize,
    in_len: usize,
    r: usize,
    from: int,
    number: spec_fn(A::Value) -> real,
)
    requires
        is_exact::<A>(number),
        indexes_numbers::<A>(number),
        0 <= at < out_len,
        is_source::<A>(at as usize, out_len, in_len, r),
        from * out_len <= at * in_len < (from + 1) * out_len,
    ensures
        r == from,
        0 <= from < in_len,
{
    let (part, n, place, index) = choose|
        part: A::Value,
        n: A::Value,
        place: A::Value,
        index: usize,
    |
        {
            &&& is_fraction::<A>(at as u64, out_len as u64, part)
            &&& is_count::<A>(in_len as u64, n)
            &&& #[trigger] is_product::<A>(part, n, place)
            &&& #[trigger] is_floor::<A>(place, index)
            &&& r == min(index as int, in_len - 1)
        };
    lemma_part::<A>(at as u64, out_len as u64, part, in_len as u64, n, place, number);
    let (p, o) = (number(place), out_len as real);
    let ai = at * in_len;
    assert(0 <= ai && ai <= in_len * out_len) by (nonlinear_arith)
        requires
            ai == at * in_len,
            0 <= at < out_len,
            in_len >= 0,
    ;
    assert(in_len > 0);
    assert(from >= 0) by (nonlinear_arith)
        requires
            from * out_len <= at * in_len < (from + 1) * out_len,
            0 <= at < out_len,
            in_len >= 0,
    ;
    assert(from < in_len) by (nonlinear_arith)
        requires
            from * out_len <= at * in_len,
            0 <= at < out_len,
            in_len > 0,
    ;
    let (f, x) = (from as real, ai as real);
    assert(f * o == (from * out_len) as real) by (nonlinear_arith)
        requires
            f == from as real,
            o == out_len as real,
    ;
    assert((f + 1real) * o == ((from + 1) * out_len) as real) by (nonlinear_arith)
        requires
            f == from as real,
            o == out_len as real,
    ;
    assert(f <= p && p < f + 1real) by (nonlinear_arith)
        requires
            p * o == x,
            f * o <= x,
            x < (f + 1real) * o,
            o > 0real,
    ;
    assert(p <= usize::MAX as real);
    assert(index as real <= p && p < index as real + 1real);
    assert(index == from);
}

/// A pixel of a scaled image is the pixel of the image at the same part of the way from
/// left to right and from top to bottom.
pub proof fn law_preview_pixels<A: Raster>(
    raw: Seq<u8>,
    width: usize,
    height: usize,
    max_w: usize,
    frame: PreviewFrame,
    x: int,
    y: int,
    from_x: int,
    from_y: int,
    c: int,
    number: spec_fn(A::Value) -> real,
)
    requires
        is_exact::<A>(number),
        indexes_numbers::<A>(number),
        is_preview::<A>(raw, width, height, max_w, frame),
        width > max_w,
        0 <= x < frame.width,
        0 <= y < frame.height,
        from_x * frame.width <= x * width < (from_x + 1) * frame.width,
        from_y * frame.height <= y * height < (from_y + 1) * frame.height,
        0 <= c < 3,
    ensures
        frame.rgb@.len() == 3 * (frame.height * frame.width),
        0 <= from_x < width,
        0 <= from_y < height,
        0 <= 3 * (y * frame.width + x) + c < frame.rgb@.len(),
        frame.rgb@[3 * (y * frame.width + x) + c] == raw[3 * (from_y * width + from_x) + c],
{
    let (columns, rows) = choose|columns: Seq<usize>, rows: Seq<usize>|
        {
            &&& columns.len() == frame.width
            &&& rows.len() == frame.height
            &&& are_sources::<A>(columns, width)
            &&& are_sources::<A>(rows, height)
            &&& #[trigger] is_resampled(raw, width as int, columns, rows, frame.rgb@)
        };
    assert(is_source::<A>(x as usize, frame.width, width, columns[x]));
    assert(is_source::<A>(y as usize, frame.height, height, rows[y]));
    lemma_source::<A>(x, frame.width, width, columns[x], from_x, number);
    lemma_source::<A>(y, frame.height, height, rows[y], from_y, number);
    let (w, h) = (frame.width as int, frame.height as int);
    let p = y * w + x;
    assert(0 <= p && p < h * w) by (nonlinear_arith)
        requires
            p == y * w + x,
            0 <= x < w,
            0 <= y < h,
    ;
    lemma_fundamental_div_mod_converse(p, w, y, x);
    let k = 3 * p + c;
    assert(k / 3 == p && k % 3 == c);
    assert(frame.rgb@[k] == resampled_byte(raw, width as int, columns, rows, k));
}

/// An image that holds all its pixels, and has a row, can be previewed at any width. One
/// that has to be scaled to some pixels and lacks one of its own cannot.
pub proof fn law_whole_images_can_be_previewed(
    raw: Seq<u8>,
    width: usize,
    height: usize,
    max_w: usize,
)
    ensures
        height > 0 && raw.len() >= 3 * (width * height) ==> is_previewable(
            raw,
            width,
            height,
            max_w,
        ),
        width <= max_w || max_w == 0 ==> is_previewable(raw, width, height, max_w),
        0 < max_w < width && (height == 0 || raw.len() < 3 * (width * height)) ==> !is_previewable(
            raw,
            width,
            height,
            max_w,
        ),
{
}

/// A level is dimmed to 15 hundredths, rounded down, where its pixel lies in the bounds
/// and in the image, with all its bytes, and it stays as it is elsewhere.
pub proof fn law_masked_pixels(
    rgb: Seq<u8>,
    width: usize,
    height: usize,
    b: PixelBounds,
    masked: Seq<u8>,
    x: int,
    y: int,
    c: int,
)
    requires
        is_mask(rgb, width, height, b, masked),
        0 <= x < width,
        0 <= y,
        0 <= c < 3,
        3 * (y * width + x) + c < rgb.len(),
    ensures
        masked.len() == rgb.len(),
        0 <= 3 * (y * width + x) + c,
        ({
            let i = 3 * (y * width + x);
            let inside = b.x0 <= x < b.x1 && b.y0 <= y < b.y1 && y < height && i + 2 < rgb.len();
            &&& inside ==> 100 * masked[i + c] <= 15 * rgb[i + c] < 100 * (masked[i + c] + 1)
            &&& !inside ==> masked[i + c] == rgb[i + c]
        }),
{
    let p = y * width + x;
    assert(0 <= p) by (nonlinear_arith)
        requires
            p == y * width + x,
            0 <= x,
            0 <= y,
            width >= 0,
    ;
    lemma_fundamental_div_mod_converse(p, width as int, y, x);
    let k = 3 * p + c;
    assert(k / 3 == p);
    assert(masked[k] == if is_masked(rgb.len() as int, width, height, b, k) {
        dimmed(rgb[k])
    } else {
        rgb[k] as int
    });
}

/// The mask covers the region brought into the image: its pixels are those that the
/// region reaches into, from left to right and from top to bottom. Where the region
/// leaves no room, the image stays as it is.
pub proof fn law_region_is_dimmed<A: Raster>(
    rgb: Seq<u8>,
    width: usize,
    height: usize,
    roi: RoiNorm<A::Value>,
    masked: Seq<u8>,
    r: Result<(), RoiError>,
    x: int,
    y: int,
    c: int,
    number: spec_fn(A::Value) -> real,
)
    requires
        is_exact::<A>(number),
        follows_numbers::<A>(number),
        indexes_numbers::<A>(number),
        is_roi_mask::<A>(rgb, width, height, roi, masked, r),
        0 <= x < width,
        0 <= y < height,
        0 <= c < 3,
        3 * (y * width + x) + 2 < rgb.len(),
    ensures
        masked.len() == rgb.len(),
        r is Ok <==> number(roi.x) * 100real <= 99real && number(roi.y) * 100real <= 99real,
        r is Err ==> masked == rgb,
        r is Ok ==> {
            let left = larger(0real, smaller(number(roi.x), 1real));
            let top = larger(0real, smaller(number(roi.y), 1real));
            let right = left + larger(1real / 100real, smaller(number(roi.w), 1real - left));
            let bottom = top + larger(1real / 100real, smaller(number(roi.h), 1real - top));
            let (columns, rows) = (width as real, height as real);
            let inside = left * columns < (x + 1) as real && right * columns > (x as real) && top
                * rows < (y + 1) as real && bottom * rows > (y as real);
            let i = 3 * (y * width + x) + c;
            &&& inside ==> 100 * masked[i] <= 15 * rgb[i] < 100 * (masked[i] + 1)
            &&& !inside ==> masked[i] == rgb[i]
        },
{
    match r {
        Ok(()) => {
            let (clamped, b) = choose|clamped: RoiNorm<A::Value>, b: PixelBounds| #[trigger]
                is_clamped_roi::<A>(roi, Ok(clamped)) && #[trigger] are_bounds::<A>(
                    clamped,
                    width,
                    height,
                    b,
                ) && is_mask(rgb, width, height, b, masked);
            law_clamping_fails_without_room::<A>(roi, Ok(clamped), number);
            law_clamped_region_in_numbers::<A>(roi, clamped, number);
            assert(lies_in_image(clamped, number));
            law_pixels_of_a_region::<A>(clamped, width, height, b, number);
            law_masked_pixels(rgb, width, height, b, masked, x, y, c);
            let right = number(clamped.x) + number(clamped.w);
            let bottom = number(clamped.y) + number(clamped.h);
            lemma_columns_of(x, width, number(clamped.x), right, b.x0, b.x1);
            lemma_columns_of(y, height, number(clamped.y), bottom, b.y0, b.y1);
        },
        Err(e) => {
            law_clamping_fails_without_room::<A>(roi, Err(e), number);
        },
    }
}

proof fn lemma_columns_of(x: int, len: usize, left: real, right: real, x0: usize, x1: usize)
    requires
        x0 as real <= left * (len as real) < x0 as real + 1real,
        x1 as real - 1real < right * (len as real) <= x1 as real,
    ensures
        x0 <= x < x1 <==> left * (len as real) < (x + 1) as real && right * (len as real) > (
        x as real),
{
    let (a, z) = (left * (len as real), right * (len as real));
    assert((x + 1) as real == x as real + 1real);
    if x0 <= x {
        assert(x0 as real <= x as real);
    } else {
        assert((x + 1) as real <= x0 as real);
    }
    if x < x1 {
        assert((x + 1) as real <= x1 as real);
    } else {
        assert(x1 as real <= x as real);
    }
}

/// The pixels of an image, three bytes each: all the whole ones, in order.
pub proof fn law_listed_pixels(width: usize, height: usize, rgb: Seq<u8>, image: ColorImage, p: int)
    requires
        is_color_image(width, height, rgb, image),
    ensures
        image.size[0] == width,
        image.size[1] == height,
        3 * image.pixels@.len() <= rgb.len() < 3 * image.pixels@.len() + 3,
        0 <= p < image.pixels@.len() ==> {
            let pixel = image.pixels@[p];
            &&& pixel[0] == rgb[3 * p]
            &&& pixel[1] == rgb[3 * p + 1]
            &&& pixel[2] == rgb[3 * p + 2]
        },
{
    assert(image.size@[0] == width && image.size@[1] == height);
    if 0 <= p < image.pixels@.len() {
        let pixel = image.pixels@[p];
        assert(pixel@ == rgb.subrange(3 * p, 3 * p + 3));
        assert(pixel@[0] == rgb[3 * p]);
        assert(pixel@[1] == rgb[3 * p + 1]);
        assert(pixel@[2] == rgb[3 * p + 2]);
    }
}

/// Nothing is masked in an image without columns or rows.
pub proof fn law_empty_images_stay(
    rgb: Seq<u8>,
    width: usize,
    height: usize,
    b: PixelBounds,
    masked: Seq<u8>,
)
    requires
        is_mask(rgb, width, height, b, masked),
        width == 0 || height == 0,
    ensures
        masked == rgb,
{
    assert forall|k: int| 0 <= k < rgb.len() implies masked[k] == rgb[k] by {
        if width > 0 && is_masked(rgb.len() as int, width, height, b, k) {
            lemma_div_pos_is_pos(k / 3, width as int);
        }
    }
}

} // verus!
