//! The region of interest: where in the camera image the pattern is looked for.

use vstd::prelude::*;

#[allow(unused_imports)]
use crate::arithmetic::{
    fraction, is_above, is_at_most, is_below, is_ceil, is_count, is_difference, is_floor,
    is_fraction, is_greater, is_lesser, is_product, is_quotient, is_sum,
};
use crate::arithmetic::{Arithmetic, Raster};
use crate::layout::{Point, ScreenRect};

verus! {

/// A region in coordinates that run from zero to one over the image.
#[derive(Debug, Clone, Copy)]
pub struct RoiNorm<V> {
    pub x: V,
    pub y: V,
    pub w: V,
    pub h: V,
}

/// A region in pixels: from `x0`, `y0` up to, but not including, `x1`, `y1`.
#[derive(Debug, Clone, Copy, PartialEq, Eq, Structural)]
pub struct PixelBounds {
    pub x0: usize,
    pub y0: usize,
    pub x1: usize,
    pub y1: usize,
}

/// Why a region cannot be used.
#[derive(Debug, Clone, Copy, PartialEq, Eq, Structural)]
pub enum RoiError {
    /// The bounds that a coordinate has to stay within leave no room: the lower
    /// one is not at most the upper one.
    NoRoom,
}

/// `r` is `v`, or `lo` where `v` is below it.
pub open spec fn is_raised<V: PartialOrd>(v: V, lo: V, r: V) -> bool {
    ||| is_below(v, lo, true) && r == lo
    ||| is_below(v, lo, false) && r == v
}

/// `r` is `v`, or `hi` where `v` is above it.
pub open spec fn is_lowered<V: PartialOrd>(v: V, hi: V, r: V) -> bool {
    ||| is_above(v, hi, true) && r == hi
    ||| is_above(v, hi, false) && r == v
}

/// `r` is the outcome of bringing `v` into the bounds `lo` and `hi`: it fails
/// where the bounds are crossed.
pub open spec fn is_clamp<V: PartialOrd>(v: V, lo: V, hi: V, r: Option<V>) -> bool {
    match r {
        Some(r) => is_at_most(lo, hi, true) && exists|raised: V| #[trigger]
            is_raised(v, lo, raised) && is_lowered(raised, hi, r),
        None => is_at_most(lo, hi, false),
    }
}

/// Brings `v` into the bounds `lo` and `hi`.
fn clamp_value<V: PartialOrd + Copy>(v: V, lo: V, hi: V) -> (r: Option<V>)
    ensures
        is_clamp(v, lo, hi, r),
{
    if lo <= hi {
        let low = v < lo;
        let raised = if low {
            lo
        } else {
            v
        };
        let high = raised > hi;
        assert(is_raised(v, lo, raised));
        if high {
            Some(hi)
        } else {
            Some(raised)
        }
    } else {
        None
    }
}

/// `r` is the outcome of bringing `start` between zero and one.
pub open spec fn is_start_clamp<A: Arithmetic>(start: A::Value, r: Option<A::Value>) -> bool {
    exists|zero: A::Value, one: A::Value| #[trigger]
        is_count::<A>(0, zero) && #[trigger] is_count::<A>(1, one) && is_clamp(start, zero, one, r)
}

/// `room` is what lies between `start` and one, and not less than zero.
pub open spec fn is_room<A: Raster>(start: A::Value, room: A::Value) -> bool {
    exists|zero: A::Value, one: A::Value, rest: A::Value|
        {
            &&& is_count::<A>(0, zero)
            &&& is_count::<A>(1, one)
            &&& #[trigger] is_difference::<A>(one, start, rest)
            &&& #[trigger] is_greater::<A>(rest, zero, room)
        }
}

/// `r` is the outcome of bringing the length of a side that begins at `start`
/// between a hundredth and the room that is left.
pub open spec fn is_side_clamp<A: Raster>(
    start: A::Value,
    side: A::Value,
    r: Option<A::Value>,
) -> bool {
    exists|smallest: A::Value, room: A::Value| #[trigger]
        is_fraction::<A>(1, 100, smallest) && #[trigger] is_room::<A>(start, room) && is_clamp(
            side,
            smallest,
            room,
            r,
        )
}

/// `r` is the outcome of clamping one axis of a region.
pub open spec fn is_axis_clamp<A: Raster>(
    start: A::Value,
    side: A::Value,
    r: Option<(A::Value, A::Value)>,
) -> bool {
    match r {
        Some((s, w)) => is_start_clamp::<A>(start, Some(s)) && is_side_clamp::<A>(s, side, Some(w)),
        None => is_start_clamp::<A>(start, None) || exists|s: A::Value| #[trigger]
            is_start_clamp::<A>(start, Some(s)) && is_side_clamp::<A>(s, side, None),
    }
}

fn clamp_axis<A: Raster>(start: A::Value, side: A::Value) -> (r: Option<(A::Value, A::Value)>)
    ensures
        is_axis_clamp::<A>(start, side, r),
{
    let zero = A::from_count(0);
    let one = A::from_count(1);
    let clamped = clamp_value(start, zero, one);
    assert(is_count::<A>(0, zero) && is_count::<A>(1, one));
    assert(is_start_clamp::<A>(start, clamped));
    match clamped {
        None => None,
        Some(s) => {
            let rest = A::minus(one, s);
            let room = A::greater(rest, zero);
            assert(is_difference::<A>(one, s, rest));
            assert(is_greater::<A>(rest, zero, room));
            let smallest = fraction::<A>(1, 100);
            assert(is_room::<A>(s, room));
            let fitted = clamp_value(side, smallest, room);
            assert(is_side_clamp::<A>(s, side, fitted));
            match fitted {
                None => None,
                Some(w) => Some((s, w)),
            }
        },
    }
}

/// `r` is the outcome of clamping a region into the image, axis by axis.
pub open spec fn is_clamped_roi<A: Raster>(
    roi: RoiNorm<A::Value>,
    r: Result<RoiNorm<A::Value>, RoiError>,
) -> bool {
    match r {
        Ok(c) => {
            &&& is_axis_clamp::<A>(roi.x, roi.w, Some((c.x, c.w)))
            &&& is_axis_clamp::<A>(roi.y, roi.h, Some((c.y, c.h)))
        },
        Err(RoiError::NoRoom) => {
            ||| is_axis_clamp::<A>(roi.x, roi.w, None)
            ||| is_axis_clamp::<A>(roi.y, roi.h, None)
        },
    }
}

impl<V: Copy + PartialOrd> RoiNorm<V> {
    /// Brings the region into the image: its origin between zero and one, its
    /// sides between a hundredth and the room that is left. An origin closer
    /// than that to the far edge leaves no room.
    pub fn clamp<A: Raster<Value = V>>(self) -> (r: Result<RoiNorm<V>, RoiError>)
        ensures
            is_clamped_roi::<A>(self, r),
    {
        match (clamp_axis::<A>(self.x, self.w), clamp_axis::<A>(self.y, self.h)) {
            (Some((x, w)), Some((y, h))) => Ok(RoiNorm { x, y, w, h }),
            _ => Err(RoiError::NoRoom),
        }
    }
}

/// `r` is the pixel that a coordinate falls on, in an image of `len` pixels.
pub open spec fn is_first_pixel<A: Raster>(start: A::Value, len: usize, r: usize) -> bool {
    exists|n: A::Value, p: A::Value|
        {
            &&& is_count::<A>(len as u64, n)
            &&& #[trigger] is_product::<A>(start, n, p)
            &&& is_floor::<A>(p, r)
        }
}

/// `r` is the pixel before which a side ends, in an image of `len` pixels.
pub open spec fn is_end_pixel<A: Raster>(
    start: A::Value,
    side: A::Value,
    len: usize,
    r: usize,
) -> bool {
    exists|end: A::Value, n: A::Value, p: A::Value|
        {
            &&& is_sum::<A>(start, side, end)
            &&& is_count::<A>(len as u64, n)
            &&& #[trigger] is_product::<A>(end, n, p)
            &&& is_ceil::<A>(p, r)
        }
}

/// `b` are the pixels that a region covers, in an image of `width` by `height` pixels.
pub open spec fn are_bounds<A: Raster>(
    roi: RoiNorm<A::Value>,
    width: usize,
    height: usize,
    b: PixelBounds,
) -> bool {
    &&& is_first_pixel::<A>(roi.x, width, b.x0)
    &&& is_first_pixel::<A>(roi.y, height, b.y0)
    &&& is_end_pixel::<A>(roi.x, roi.w, width, b.x1)
    &&& is_end_pixel::<A>(roi.y, roi.h, height, b.y1)
}

fn first_pixel<A: Raster>(start: A::Value, len: usize) -> (r: usize)
    ensures
        is_first_pixel::<A>(start, len, r),
{
    let n = A::from_count(len as u64);
    let p = A::times(start, n);
    assert(is_product::<A>(start, n, p));
    A::floor_index(p)
}

fn end_pixel<A: Raster>(start: A::Value, side: A::Value, len: usize) -> (r: usize)
    ensures
        is_end_pixel::<A>(start, side, len, r),
{
    let end = A::plus(start, side);
    let n = A::from_count(len as u64);
    let p = A::times(end, n);
    assert(is_product::<A>(end, n, p));
    A::ceil_index(p)
}

/// The pixels that a region covers, in an image of `width` by `height` pixels.
pub fn pixel_bounds<A: Raster>(roi: RoiNorm<A::Value>, width: usize, height: usize) -> (b:
    PixelBounds)
    ensures
        are_bounds::<A>(roi, width, height, b),
{
    PixelBounds {
        x0: first_pixel::<A>(roi.x, width),
        y0: first_pixel::<A>(roi.y, height),
        x1: end_pixel::<A>(roi.x, roi.w, width),
        y1: end_pixel::<A>(roi.y, roi.h, height),
    }
}

/// `r` is where `v` lies on the way from `lo` to `lo + extent`.
pub open spec fn is_relative<A: Arithmetic>(
    v: A::Value,
    lo: A::Value,
    extent: A::Value,
    r: A::Value,
) -> bool {
    exists|offset: A::Value| #[trigger]
        is_difference::<A>(v, lo, offset) && is_quotient::<A>(offset, extent, r)
}

/// `start` and `side` describe the stretch from `first` to `last` relative to
/// `lo` and `hi`; a side is not less than a hundredth.
pub open spec fn is_relative_stretch<A: Raster>(
    first: A::Value,
    last: A::Value,
    lo: A::Value,
    hi: A::Value,
    start: A::Value,
    side: A::Value,
) -> bool {
    exists|extent: A::Value, ratio: A::Value, smallest: A::Value|
        {
            &&& #[trigger] is_difference::<A>(hi, lo, extent)
            &&& is_relative::<A>(first, lo, extent, start)
            &&& is_relative::<A>(last, first, extent, ratio)
            &&& is_fraction::<A>(1, 100, smallest)
            &&& #[trigger] is_greater::<A>(ratio, smallest, side)
        }
}

/// `r` is the outcome of bringing the smaller of `a` and `b` between `lo` and `hi`.
pub open spec fn is_near_end<A: Raster>(
    a: A::Value,
    b: A::Value,
    lo: A::Value,
    hi: A::Value,
    r: Option<A::Value>,
) -> bool {
    exists|v: A::Value| #[trigger] is_lesser::<A>(a, b, v) && is_clamp(v, lo, hi, r)
}

/// `r` is the outcome of bringing the larger of `a` and `b` between `lo` and `hi`.
pub open spec fn is_far_end<A: Raster>(
    a: A::Value,
    b: A::Value,
    lo: A::Value,
    hi: A::Value,
    r: Option<A::Value>,
) -> bool {
    exists|v: A::Value| #[trigger] is_greater::<A>(a, b, v) && is_clamp(v, lo, hi, r)
}

/// `r` is the outcome of expressing the stretch between `a` and `b` relative to
/// `lo` and `hi`.
pub open spec fn is_normalized_axis<A: Raster>(
    a: A::Value,
    b: A::Value,
    lo: A::Value,
    hi: A::Value,
    r: Option<(A::Value, A::Value)>,
) -> bool {
    match r {
        Some((start, side)) => exists|first: A::Value, last: A::Value| #[trigger]
            is_near_end::<A>(a, b, lo, hi, Some(first)) && #[trigger] is_far_end::<A>(
                a,
                b,
                lo,
                hi,
                Some(last),
            ) && is_relative_stretch::<A>(first, last, lo, hi, start, side),
        None => is_near_end::<A>(a, b, lo, hi, None) || is_far_end::<A>(a, b, lo, hi, None),
    }
}

fn normalize_axis<A: Raster>(a: A::Value, b: A::Value, lo: A::Value, hi: A::Value) -> (r: Option<
    (A::Value, A::Value),
>)
    ensures
        is_normalized_axis::<A>(a, b, lo, hi, r),
{
    let lesser = A::lesser(a, b);
    let greater = A::greater(a, b);
    let near = clamp_value(lesser, lo, hi);
    let far = clamp_value(greater, lo, hi);
    assert(is_lesser::<A>(a, b, lesser));
    assert(is_greater::<A>(a, b, greater));
    assert(is_near_end::<A>(a, b, lo, hi, near));
    assert(is_far_end::<A>(a, b, lo, hi, far));
    match (near, far) {
        (Some(first), Some(last)) => {
            let extent = A::minus(hi, lo);
            let offset = A::minus(first, lo);
            let start = A::over(offset, extent);
            let length = A::minus(last, first);
            let ratio = A::over(length, extent);
            let smallest = fraction::<A>(1, 100);
            let side = A::greater(ratio, smallest);
            assert(is_difference::<A>(hi, lo, extent));
            assert(is_difference::<A>(first, lo, offset));
            assert(is_difference::<A>(last, first, length));
            assert(is_relative::<A>(first, lo, extent, start));
            assert(is_relative::<A>(last, first, extent, ratio));
            assert(is_greater::<A>(ratio, smallest, side));
            Some((start, side))
        },
        _ => None,
    }
}

/// `r` is the outcome of turning the rectangle between two corners into a region
/// relative to `bounds`.
pub open spec fn is_normalized_roi<A: Raster>(
    start: Point<A::Value>,
    end: Point<A::Value>,
    bounds: ScreenRect<A::Value>,
    r: Result<RoiNorm<A::Value>, RoiError>,
) -> bool {
    match r {
        Ok(roi) => {
            &&& is_normalized_axis::<A>(
                start.x,
                end.x,
                bounds.left,
                bounds.right,
                Some((roi.x, roi.w)),
            )
            &&& is_normalized_axis::<A>(
                start.y,
                end.y,
                bounds.top,
                bounds.bottom,
                Some((roi.y, roi.h)),
            )
        },
        Err(RoiError::NoRoom) => {
            ||| is_normalized_axis::<A>(start.x, end.x, bounds.left, bounds.right, None)
            ||| is_normalized_axis::<A>(start.y, end.y, bounds.top, bounds.bottom, None)
        },
    }
}

/// The region that was dragged from `start` to `end` over an image shown at `bounds`.
pub fn rect_to_normalized_roi<A: Raster>(
    start: Point<A::Value>,
    end: Point<A::Value>,
    bounds: ScreenRect<A::Value>,
) -> (r: Result<RoiNorm<A::Value>, RoiError>)
    ensures
        is_normalized_roi::<A>(start, end, bounds, r),
{
    let horizontal = normalize_axis::<A>(start.x, end.x, bounds.left, bounds.right);
    let vertical = normalize_axis::<A>(start.y, end.y, bounds.top, bounds.bottom);
    match (horizontal, vertical) {
        (Some((x, w)), Some((y, h))) => Ok(RoiNorm { x, y, w, h }),
        _ => Err(RoiError::NoRoom),
    }
}

/// `r` is the outcome of a drag over the image: no region where one of its ends
/// is missing, else the region between them, brought into the image.
pub open spec fn is_selection<A: Raster>(
    start: Option<Point<A::Value>>,
    end: Option<Point<A::Value>>,
    bounds: ScreenRect<A::Value>,
    r: Option<Result<RoiNorm<A::Value>, RoiError>>,
) -> bool {
    match (start, end, r) {
        (Some(start), Some(end), Some(Ok(clamped))) => exists|roi: RoiNorm<A::Value>| #[trigger]
            is_normalized_roi::<A>(start, end, bounds, Ok(roi)) && is_clamped_roi::<A>(
                roi,
                Ok(clamped),
            ),
        (Some(start), Some(end), Some(Err(e))) => {
            ||| is_normalized_roi::<A>(start, end, bounds, Err(e))
            ||| exists|roi: RoiNorm<A::Value>| #[trigger]
                is_normalized_roi::<A>(start, end, bounds, Ok(roi)) && is_clamped_roi::<A>(
                    roi,
                    Err(e),
                )
        },
        (Some(_), Some(_), None) => false,
        _ => r is None,
    }
}

/// The region that a drag over the image selects.
pub fn select_roi<A: Raster>(
    start: Option<Point<A::Value>>,
    end: Option<Point<A::Value>>,
    bounds: ScreenRect<A::Value>,
) -> (r: Option<Result<RoiNorm<A::Value>, RoiError>>)
    ensures
        is_selection::<A>(start, end, bounds, r),
{
    match (start, end) {
        (Some(start), Some(end)) => {
            let normalized = rect_to_normalized_roi::<A>(start, end, bounds);
            assert(is_normalized_roi::<A>(start, end, bounds, normalized));
            match normalized {
                Ok(roi) => Some(roi.clamp::<A>()),
                Err(e) => Some(Err(e)),
            }
        },
        _ => None,
    }
}

/// `r` is the point at the fraction `at` of the way from `lo` to `hi`.
pub open spec fn is_placed<A: Arithmetic>(
    at: A::Value,
    lo: A::Value,
    hi: A::Value,
    r: A::Value,
) -> bool {
    exists|extent: A::Value, offset: A::Value|
        {
            &&& is_difference::<A>(hi, lo, extent)
            &&& #[trigger] is_product::<A>(at, extent, offset)
            &&& #[trigger] is_sum::<A>(lo, offset, r)
        }
}

/// `r` is where a side that begins at the fraction `start` ends.
pub open spec fn is_end_placed<A: Arithmetic>(
    start: A::Value,
    side: A::Value,
    lo: A::Value,
    hi: A::Value,
    r: A::Value,
) -> bool {
    exists|end: A::Value| #[trigger]
        is_sum::<A>(start, side, end) && is_placed::<A>(end, lo, hi, r)
}

/// `r` is where a region lies on the screen, when the image is shown at `bounds`.
pub open spec fn is_roi_rect<A: Arithmetic>(
    roi: RoiNorm<A::Value>,
    bounds: ScreenRect<A::Value>,
    r: ScreenRect<A::Value>,
) -> bool {
    &&& is_placed::<A>(roi.x, bounds.left, bounds.right, r.left)
    &&& is_placed::<A>(roi.y, bounds.top, bounds.bottom, r.top)
    &&& is_end_placed::<A>(roi.x, roi.w, bounds.left, bounds.right, r.right)
    &&& is_end_placed::<A>(roi.y, roi.h, bounds.top, bounds.bottom, r.bottom)
}

fn place<A: Arithmetic>(at: A::Value, lo: A::Value, hi: A::Value) -> (r: A::Value)
    ensures
        is_placed::<A>(at, lo, hi, r),
{
    let extent = A::minus(hi, lo);
    let offset = A::times(at, extent);
    let r = A::plus(lo, offset);
    assert(is_product::<A>(at, extent, offset));
    assert(is_sum::<A>(lo, offset, r));
    r
}

/// Where a region lies on the screen, when the image is shown at `bounds`.
pub fn normalized_roi_to_rect<A: Raster>(
    roi: RoiNorm<A::Value>,
    bounds: ScreenRect<A::Value>,
) -> (r: ScreenRect<A::Value>)
    ensures
        is_roi_rect::<A>(roi, bounds, r),
{
    let left = place::<A>(roi.x, bounds.left, bounds.right);
    let top = place::<A>(roi.y, bounds.top, bounds.bottom);
    let x_end = A::plus(roi.x, roi.w);
    let y_end = A::plus(roi.y, roi.h);
    assert(is_sum::<A>(roi.x, roi.w, x_end));
    assert(is_sum::<A>(roi.y, roi.h, y_end));
    let right = place::<A>(x_end, bounds.left, bounds.right);
    let bottom = place::<A>(y_end, bounds.top, bounds.bottom);
    ScreenRect { left, top, right, bottom }
}

} // verus!
