//! The camera image as it is shown for picking the region of interest.
//!
//! An image is a row by row sequence of pixels, three bytes each: red, green, blue.

#[allow(unused_imports)]
use vstd::arithmetic::div_mod::{
    lemma_fundamental_div_mod, lemma_fundamental_div_mod_converse, lemma_mod_bound,
};
#[allow(unused_imports)]
use vstd::math::{max, min};
use vstd::prelude::*;
use vstd::slice::slice_to_vec;

#[allow(unused_imports)]
use crate::arithmetic::{is_count, is_floor, is_fraction, is_product, is_round};
use crate::arithmetic::{fraction, Raster};
#[allow(unused_imports)]
use crate::roi::{are_bounds, is_clamped_roi};
use crate::roi::{pixel_bounds, PixelBounds, RoiError, RoiNorm};

verus! {

/// The widest image that is shown as it is.
pub const PREVIEW_WIDTH: usize = 640;

/// An image for the preview.
#[derive(Debug, Clone)]
pub struct PreviewFrame {
    pub width: usize,
    pub height: usize,
    pub rgb: Vec<u8>,
}

/// An image as a list of pixels.
#[derive(Debug, Clone)]
pub struct ColorImage {
    pub size: [usize; 2],
    pub pixels: Vec<[u8; 3]>,
}

/// `r` is the height of the scaled image: `height * (max_w / width)` to the
/// nearest pixel, and at least one.
pub open spec fn is_scaled_height<A: Raster>(
    width: usize,
    height: usize,
    max_w: usize,
    r: usize,
) -> bool {
    exists|scale: A::Value, h: A::Value, scaled: A::Value, rounded: usize|
        {
            &&& is_fraction::<A>(max_w as u64, width as u64, scale)
            &&& is_count::<A>(height as u64, h)
            &&& #[trigger] is_product::<A>(h, scale, scaled)
            &&& #[trigger] is_round::<A>(scaled, rounded)
            &&& r == max(rounded as int, 1)
        }
}

/// `r` is the row or column that row or column `at` of `out_len` is taken from,
/// out of `in_len`: `at / out_len * in_len` rounded down, within the image.
pub open spec fn is_source<A: Raster>(at: usize, out_len: usize, in_len: usize, r: usize) -> bool {
    exists|part: A::Value, n: A::Value, place: A::Value, index: usize|
        {
            &&& is_fraction::<A>(at as u64, out_len as u64, part)
            &&& is_count::<A>(in_len as u64, n)
            &&& #[trigger] is_product::<A>(part, n, place)
            &&& #[trigger] is_floor::<A>(place, index)
            &&& r == min(index as int, in_len - 1)
        }
}

/// `sources` are the rows or columns that those of the scaled image are taken from.
pub open spec fn are_sources<A: Raster>(sources: Seq<usize>, in_len: usize) -> bool {
    forall|at: int|
        0 <= at < sources.len() ==> is_source::<A>(
            at as usize,
            sources.len() as usize,
            in_len,
            #[trigger] sources[at],
        )
}

/// Byte `k` of the image that takes its columns and rows from `columns` and
/// `rows` of an image with rows of `width` pixels.
pub open spec fn resampled_byte(
    raw: Seq<u8>,
    width: int,
    columns: Seq<usize>,
    rows: Seq<usize>,
    k: int,
) -> u8 {
    let p = k / 3;
    let x = columns[p % columns.len() as int];
    let y = rows[p / columns.len() as int];
    raw[3 * (y * width + x) + k % 3]
}

/// `rgb` is the image that takes its columns and rows from `columns` and `rows`
/// of an image with rows of `width` pixels.
pub open spec fn is_resampled(
    raw: Seq<u8>,
    width: int,
    columns: Seq<usize>,
    rows: Seq<usize>,
    rgb: Seq<u8>,
) -> bool {
    &&& rgb.len() == 3 * (rows.len() * columns.len())
    &&& forall|k: int|
        0 <= k < rgb.len() ==> #[trigger] rgb[k] == resampled_byte(raw, width, columns, rows, k)
}

/// `frame` is an image of `width` by `height` pixels, scaled to the frame's size.
pub open spec fn is_scaled<A: Raster>(
    raw: Seq<u8>,
    width: usize,
    height: usize,
    frame: PreviewFrame,
) -> bool {
    exists|columns: Seq<usize>, rows: Seq<usize>|
        {
            &&& columns.len() == frame.width
            &&& rows.len() == frame.height
            &&& are_sources::<A>(columns, width)
            &&& are_sources::<A>(rows, height)
            &&& #[trigger] is_resampled(raw, width as int, columns, rows, frame.rgb@)
        }
}

/// The row or column that row or column `at` of `out_len` is taken from.
fn source<A: Raster>(at: usize, out_len: usize, in_len: usize) -> (r: usize)
    requires
        in_len > 0,
    ensures
        is_source::<A>(at, out_len, in_len, r),
        r < in_len,
{
    let part = fraction::<A>(at as u64, out_len as u64);
    let n = A::from_count(in_len as u64);
    let place = A::times(part, n);
    let index = A::floor_index(place);
    assert(is_product::<A>(part, n, place));
    assert(is_floor::<A>(place, index));
    if index < in_len {
        index
    } else {
        in_len - 1
    }
}

/// The rows or columns that `out_len` rows or columns are taken from.
fn sources<A: Raster>(out_len: usize, in_len: usize) -> (r: Vec<usize>)
    requires
        in_len > 0,
    ensures
        r@.len() == out_len,
        are_sources::<A>(r@, in_len),
        forall|at: int| 0 <= at < out_len ==> #[trigger] r@[at] < in_len,
{
    let mut r: Vec<usize> = Vec::new();
    let mut at: usize = 0;
    while at < out_len
        invariant
            in_len > 0,
            at <= out_len,
            r@.len() == at,
            forall|i: int|
                0 <= i < at ==> is_source::<A>(i as usize, out_len, in_len, #[trigger] r@[i])
                    && r@[i] < in_len,
        decreases out_len - at,
    {
        let index = source::<A>(at, out_len, in_len);
        r.push(index);
        at = at + 1;
    }
    r
}

/// The image that takes its columns and rows from `columns` and `rows`.
pub fn resample(
    raw: &[u8],
    width: usize,
    height: usize,
    columns: &Vec<usize>,
    rows: &Vec<usize>,
) -> (rgb: Vec<u8>)
    requires
        3 * (width * height) <= raw@.len(),
        forall|i: int| 0 <= i < columns@.len() ==> #[trigger] columns@[i] < width,
        forall|i: int| 0 <= i < rows@.len() ==> #[trigger] rows@[i] < height,
    ensures
        is_resampled(raw@, width as int, columns@, rows@, rgb@),
{
    let mut rgb: Vec<u8> = Vec::new();
    let len: usize = raw.len();
    let ghost w = columns@.len() as int;
    let mut oy: usize = 0;
    assert(0 * w == 0);
    while oy < rows.len()
        invariant
            3 * (width * height) <= raw@.len() == len,
            w == columns@.len(),
            forall|i: int| 0 <= i < columns@.len() ==> #[trigger] columns@[i] < width,
            forall|i: int| 0 <= i < rows@.len() ==> #[trigger] rows@[i] < height,
            oy <= rows@.len(),
            rgb@.len() == 3 * (oy * w),
            forall|k: int|
                0 <= k < rgb@.len() ==> #[trigger] rgb@[k] == resampled_byte(
                    raw@,
                    width as int,
                    columns@,
                    rows@,
                    k,
                ),
        decreases rows@.len() - oy,
    {
        let mut ox: usize = 0;
        while ox < columns.len()
            invariant
                3 * (width * height) <= raw@.len() == len,
                w == columns@.len(),
                forall|i: int| 0 <= i < columns@.len() ==> #[trigger] columns@[i] < width,
                forall|i: int| 0 <= i < rows@.len() ==> #[trigger] rows@[i] < height,
                oy < rows@.len(),
                ox <= columns@.len(),
                rgb@.len() == 3 * (oy * w + ox),
                forall|k: int|
                    0 <= k < rgb@.len() ==> #[trigger] rgb@[k] == resampled_byte(
                        raw@,
                        width as int,
                        columns@,
                        rows@,
                        k,
                    ),
            decreases columns@.len() - ox,
        {
            let x: usize = columns[ox];
            let y: usize = rows[oy];
            let ghost p = oy * w + ox;
            proof {
                lemma_pixel_inside(x as int, y as int, width as int, height as int);
                lemma_fundamental_div_mod_converse(p, w, oy as int, ox as int);
            }
            let src: usize = (y * width + x) * 3;
            assert(src == 3 * (y * width + x));
            rgb.push(raw[src]);
            rgb.push(raw[src + 1]);
            rgb.push(raw[src + 2]);
            ox = ox + 1;
        }
        assert(oy * w + w == (oy + 1) * w) by (nonlinear_arith);
        oy = oy + 1;
    }
    rgb
}

proof fn lemma_pixel_inside(x: int, y: int, width: int, height: int)
    requires
        0 <= x < width,
        0 <= y < height,
    ensures
        0 <= y * width,
        y * width + x < width * height,
{
    assert(y * width + width <= width * height && 0 <= y * width) by (nonlinear_arith)
        requires
            0 <= x < width,
            0 <= y < height,
    ;
}

/// `frame` is the preview of an image: the image itself where it is at most `max_w`
/// pixels wide, else the image scaled to that width.
pub open spec fn is_preview<A: Raster>(
    raw: Seq<u8>,
    width: usize,
    height: usize,
    max_w: usize,
    frame: PreviewFrame,
) -> bool {
    if width <= max_w {
        frame.width == width && frame.height == height && frame.rgb@ == raw
    } else {
        &&& frame.width == max_w
        &&& is_scaled_height::<A>(width, height, max_w, frame.height)
        &&& if max_w == 0 {
            frame.rgb@.len() == 0
        } else {
            is_scaled::<A>(raw, width, height, frame)
        }
    }
}

/// An image of `width` by `height` pixels can be scaled to `max_w` pixels: where
/// that takes any pixels, all of them are there.
pub open spec fn is_previewable(raw: Seq<u8>, width: usize, height: usize, max_w: usize) -> bool {
    0 < max_w < width ==> height > 0 && 3 * (width * height) <= raw.len()
}

/// Tells whether an image can be scaled.
pub fn check_previewable(raw: &[u8], width: usize, height: usize, max_w: usize) -> (ok: bool)
    ensures
        ok == is_previewable(raw@, width, height, max_w),
{
    proof {
        lemma_area(width, height);
    }
    let area: u128 = width as u128 * height as u128;
    max_w == 0 || width <= max_w || height > 0 && area <= (raw.len() / 3) as u128
}

/// The image for the preview: as it is where it is at most `max_w` pixels wide,
/// else scaled to that width.
pub fn build_preview<A: Raster>(raw: &[u8], width: usize, height: usize, max_w: usize) -> (frame:
    PreviewFrame)
    requires
        is_previewable(raw@, width, height, max_w),
    ensures
        is_preview::<A>(raw@, width, height, max_w, frame),
{
    if width <= max_w {
        let rgb = slice_to_vec(raw);
        return PreviewFrame { width, height, rgb };
    }
    let scale = fraction::<A>(max_w as u64, width as u64);
    let h = A::from_count(height as u64);
    let scaled = A::times(h, scale);
    let rounded = A::round_index(scaled);
    assert(is_product::<A>(h, scale, scaled));
    assert(is_round::<A>(scaled, rounded));
    let out_h: usize = if rounded < 1 {
        1
    } else {
        rounded
    };
    if max_w == 0 {
        return PreviewFrame { width: max_w, height: out_h, rgb: Vec::new() };
    }
    let columns = sources::<A>(max_w, width);
    let rows = sources::<A>(out_h, height);
    let rgb = resample(raw, width, height, &columns, &rows);
    let frame = PreviewFrame { width: max_w, height: out_h, rgb };
    assert(is_resampled(raw@, width as int, columns@, rows@, frame.rgb@));
    frame
}

/// A colour level under the mask: 15 hundredths of what it was.
pub open spec fn dimmed(level: u8) -> int {
    level * 15 / 100
}

/// The byte at `k` belongs to a whole pixel inside the bounds.
pub open spec fn is_masked(len: int, width: usize, height: usize, b: PixelBounds, k: int) -> bool {
    let p = k / 3;
    let x = p % width as int;
    let y = p / width as int;
    &&& 3 * p + 2 < len
    &&& width > 0
    &&& b.x0 <= x < b.x1
    &&& b.y0 <= y < b.y1
    &&& y < height
}

/// `masked` is `rgb` with the pixels inside the bounds dimmed.
pub open spec fn is_mask(
    rgb: Seq<u8>,
    width: usize,
    height: usize,
    b: PixelBounds,
    masked: Seq<u8>,
) -> bool {
    &&& masked.len() == rgb.len()
    &&& forall|k: int|
        0 <= k < rgb.len() ==> #[trigger] masked[k] == if is_masked(
            rgb.len() as int,
            width,
            height,
            b,
            k,
        ) {
            dimmed(rgb[k])
        } else {
            rgb[k] as int
        }
}

fn dim(level: u8) -> (r: u8)
    ensures
        r == dimmed(level),
{
    (level as u32 * 15 / 100) as u8
}

/// The byte at `k` belongs to a row before `y`, or to row `y` before column `x`.
spec fn is_before(width: usize, k: int, y: int, x: int) -> bool {
    let p = k / 3;
    ||| p / (width as int) < y
    ||| p / (width as int) == y && p % (width as int) < x
}

/// `masked` is `rgb` with the pixels inside the bounds dimmed, as far as they
/// come before column `x` of row `y`.
spec fn is_mask_up_to(
    rgb: Seq<u8>,
    width: usize,
    height: usize,
    b: PixelBounds,
    masked: Seq<u8>,
    y: int,
    x: int,
) -> bool {
    &&& masked.len() == rgb.len()
    &&& forall|k: int|
        0 <= k < rgb.len() ==> #[trigger] masked[k] == if is_masked(
            rgb.len() as int,
            width,
            height,
            b,
            k,
        ) && is_before(width, k, y, x) {
            dimmed(rgb[k])
        } else {
            rgb[k] as int
        }
}

/// Dims the pixels inside the bounds.
pub fn mask_pixels(rgb: &mut [u8], width: usize, height: usize, bounds: PixelBounds)
    ensures
        is_mask(old(rgb)@, width, height, bounds, final(rgb)@),
{
    let ghost before = rgb@;
    let len: usize = rgb.len();
    let y_end: usize = if bounds.y1 < height {
        bounds.y1
    } else {
        height
    };
    let x_end: usize = if bounds.x1 < width {
        bounds.x1
    } else {
        width
    };
    let mut y: usize = if bounds.y0 < height {
        bounds.y0
    } else {
        height
    };
    while y < y_end
        invariant
            len == before.len(),
            y_end == min(bounds.y1 as int, height as int),
            x_end == min(bounds.x1 as int, width as int),
            y >= bounds.y0 || y == height,
            is_mask_up_to(before, width, height, bounds, rgb@, y as int, 0),
        decreases y_end - y,
    {
        let mut x: usize = if bounds.x0 < width {
            bounds.x0
        } else {
            width
        };
        proof {
            lemma_columns(width);
        }
        while x < x_end
            invariant
                len == before.len(),
                y < y_end,
                y_end == min(bounds.y1 as int, height as int),
                x_end == min(bounds.x1 as int, width as int),
                y >= bounds.y0,
                x >= bounds.x0 || x == width,
                is_mask_up_to(before, width, height, bounds, rgb@, y as int, x as int),
            decreases x_end - x,
        {
            let ghost at = y * width + x;
            proof {
                lemma_pixel_inside(x as int, y as int, width as int, height as int);
                lemma_area(width, height);
                lemma_fundamental_div_mod_converse(at, width as int, y as int, x as int);
            }
            let p: u128 = y as u128 * width as u128 + x as u128;
            if p < (len / 3) as u128 {
                let i: usize = p as usize * 3;
                rgb[i] = dim(rgb[i]);
                rgb[i + 1] = dim(rgb[i + 1]);
                rgb[i + 2] = dim(rgb[i + 2]);
            }
            x = x + 1;
            proof {
                assert forall|k: int| 0 <= k < before.len() implies #[trigger] rgb@[k]
                    == if is_masked(before.len() as int, width, height, bounds, k) && is_before(
                    width,
                    k,
                    y as int,
                    x as int,
                ) {
                    dimmed(before[k])
                } else {
                    before[k] as int
                } by {
                    let q = k / 3;
                    if q / (width as int) == y && q % (width as int) == x - 1 {
                        lemma_fundamental_div_mod(q, width as int);
                        assert(q == at) by (nonlinear_arith)
                            requires
                                q == width * (q / (width as int)) + q % (width as int),
                                q / (width as int) == y,
                                q % (width as int) == x - 1,
                                at == y * width + (x - 1),
                        ;
                    }
                }
            }
        }
        y = y + 1;
    }
    proof {
        lemma_columns(width);
    }
}

proof fn lemma_columns(width: usize)
    ensures
        width > 0 ==> forall|p: int| 0 <= #[trigger] (p % (width as int)) < width,
{
    if width > 0 {
        assert forall|p: int| 0 <= #[trigger] (p % (width as int)) < width by {
            lemma_mod_bound(p, width as int);
        }
    }
}

proof fn lemma_area(width: usize, height: usize)
    ensures
        width * height <= usize::MAX * usize::MAX,
{
    assert(width * height <= usize::MAX * usize::MAX) by (nonlinear_arith)
        requires
            width <= usize::MAX,
            height <= usize::MAX,
    ;
}

/// `masked` is `rgb` with a region dimmed, and `r` the outcome.
pub open spec fn is_roi_mask<A: Raster>(
    rgb: Seq<u8>,
    width: usize,
    height: usize,
    roi: RoiNorm<A::Value>,
    masked: Seq<u8>,
    r: Result<(), RoiError>,
) -> bool {
    match r {
        Ok(()) => exists|clamped: RoiNorm<A::Value>, b: PixelBounds| #[trigger]
            is_clamped_roi::<A>(roi, Ok(clamped)) && #[trigger] are_bounds::<A>(
                clamped,
                width,
                height,
                b,
            ) && is_mask(rgb, width, height, b, masked),
        Err(e) => is_clamped_roi::<A>(roi, Err(e)) && masked == rgb,
    }
}

/// Dims a region of an image, so that the pattern in it stands out from the rest.
/// The image stays as it is where the region leaves no room.
pub fn apply_mask_to_roi<A: Raster>(
    rgb: &mut [u8],
    width: usize,
    height: usize,
    roi: RoiNorm<A::Value>,
) -> (r: Result<(), RoiError>)
    ensures
        is_roi_mask::<A>(old(rgb)@, width, height, roi, final(rgb)@, r),
{
    match roi.clamp::<A>() {
        Err(e) => Err(e),
        Ok(clamped) => {
            let bounds = pixel_bounds::<A>(clamped, width, height);
            mask_pixels(rgb, width, height, bounds);
            Ok(())
        },
    }
}

/// `image` lists the pixels of an image.
pub open spec fn is_color_image(
    width: usize,
    height: usize,
    rgb: Seq<u8>,
    image: ColorImage,
) -> bool {
    &&& image.size@ == seq![width, height]
    &&& image.pixels@.len() == rgb.len() / 3
    &&& forall|p: int|
        0 <= p < image.pixels@.len() ==> (#[trigger] image.pixels@[p])@ == rgb.subrange(
            3 * p,
            3 * p + 3,
        )
}

/// Lists the pixels of an image; a rest that makes no whole pixel is left out.
pub fn rgb_to_color_image(width: usize, height: usize, rgb: &[u8]) -> (image: ColorImage)
    ensures
        is_color_image(width, height, rgb@, image),
{
    let mut pixels: Vec<[u8; 3]> = Vec::new();
    let count: usize = rgb.len() / 3;
    let mut p: usize = 0;
    while p < count
        invariant
            p <= count == rgb@.len() / 3,
            rgb@.len() <= usize::MAX,
            pixels@.len() == p,
            forall|q: int|
                0 <= q < p ==> (#[trigger] pixels@[q])@ == rgb@.subrange(3 * q, 3 * q + 3),
        decreases count - p,
    {
        let i: usize = p * 3;
        let pixel = [rgb[i], rgb[i + 1], rgb[i + 2]];
        assert(pixel@ == rgb@.subrange(3 * p, 3 * p + 3));
        pixels.push(pixel);
        p = p + 1;
    }
    ColorImage { size: [width, height], pixels }
}

} // verus!
