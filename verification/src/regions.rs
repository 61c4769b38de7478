//! What holds of regions of interest: of bringing them into the image, and of
//! dragging them over it.

use vstd::prelude::*;

#[allow(unused_imports)]
use crate::arithmetic::{
    follows_numbers, indexes_numbers, is_above, is_at_most, is_ceil, is_comparable, is_count,
    is_difference, is_exact, is_floor, is_fraction, is_functional, is_greater, is_lesser,
    is_ordered, is_product, is_quotient, is_raster_functional, is_sum, is_symmetric, keeps_order,
    picks, Arithmetic, Raster,
};
#[allow(unused_imports)]
use crate::layout::{Point, ScreenRect};
#[allow(unused_imports)]
use crate::roi::{
    are_bounds, is_axis_clamp, is_clamp, is_clamped_roi, is_end_pixel, is_end_placed, is_far_end,
    is_first_pixel, is_lowered, is_near_end, is_normalized_axis, is_normalized_roi, is_placed,
    is_raised, is_relative, is_relative_stretch, is_room, is_side_clamp, is_start_clamp,
    is_roi_rect, is_selection, PixelBounds, RoiError, RoiNorm,
};

verus! {

proof fn lemma_clamps_agree<V: PartialOrd>(v: V, lo: V, hi: V, a: Option<V>, b: Option<V>)
    requires
        is_ordered::<V>(),
        is_clamp(v, lo, hi, a),
        is_clamp(v, lo, hi, b),
    ensures
        a == b,
{
}

proof fn lemma_clamp_twice<V: PartialOrd>(v: V, lo: V, hi: V, r: V, again: Option<V>)
    requires
        is_ordered::<V>(),
        is_clamp(v, lo, hi, Some(r)),
        is_clamp(r, lo, hi, again),
    ensures
        again == Some(r),
{
}

proof fn lemma_clamp_keeps<V: PartialOrd>(v: V, lo: V, hi: V, r: Option<V>)
    requires
        is_ordered::<V>(),
        is_at_most(lo, v, true),
        is_at_most(v, hi, true),
        is_clamp(v, lo, hi, r),
    ensures
        r == Some(v),
{
    assert(is_at_most(lo, hi, true));
}

proof fn lemma_clamp_bounds<V: PartialOrd>(v: V, lo: V, hi: V, r: V)
    requires
        is_ordered::<V>(),
        is_comparable(v),
        is_clamp(v, lo, hi, Some(r)),
    ensures
        is_at_most(lo, r, true),
        is_at_most(r, hi, true),
{
    let raised = choose|raised: V| #[trigger]
        is_raised(v, lo, raised) && is_lowered(raised, hi, r);
    assert(is_at_most(lo, hi, true));
    assert(is_at_most(lo, lo, true) && is_at_most(hi, hi, true));
    assert(is_at_most(lo, raised, true));
}

proof fn lemma_fractions_agree<A: Arithmetic>(num: u64, den: u64, a: A::Value, b: A::Value)
    requires
        is_functional::<A>(),
        is_fraction::<A>(num, den, a),
        is_fraction::<A>(num, den, b),
    ensures
        a == b,
{
}

proof fn lemma_rooms_agree<A: Raster>(start: A::Value, a: A::Value, b: A::Value)
    requires
        is_raster_functional::<A>(),
        is_room::<A>(start, a),
        is_room::<A>(start, b),
    ensures
        a == b,
{
}

/// A side that begins at `start` fits: it begins between zero and one, and its
/// length lies between a hundredth and the room that is left.
pub open spec fn fits_axis<A: Raster>(start: A::Value, side: A::Value) -> bool {
    exists|zero: A::Value, one: A::Value, smallest: A::Value, room: A::Value|
        {
            &&& #[trigger] is_count::<A>(0, zero)
            &&& #[trigger] is_count::<A>(1, one)
            &&& #[trigger] is_fraction::<A>(1, 100, smallest)
            &&& #[trigger] is_room::<A>(start, room)
            &&& is_at_most(zero, start, true)
            &&& is_at_most(start, one, true)
            &&& is_at_most(smallest, side, true)
            &&& is_at_most(side, room, true)
        }
}

/// The region lies in the image.
pub open spec fn fits<A: Raster>(roi: RoiNorm<A::Value>) -> bool {
    fits_axis::<A>(roi.x, roi.w) && fits_axis::<A>(roi.y, roi.h)
}

proof fn lemma_axis_twice<A: Raster>(
    start: A::Value,
    side: A::Value,
    s: A::Value,
    w: A::Value,
    again: Option<(A::Value, A::Value)>,
)
    requires
        is_raster_functional::<A>(),
        is_ordered::<A::Value>(),
        is_axis_clamp::<A>(start, side, Some((s, w))),
        is_axis_clamp::<A>(s, w, again),
    ensures
        again == Some((s, w)),
{
    assert forall|r: Option<A::Value>| #[trigger]
        is_start_clamp::<A>(s, r) implies r == Some(s) by {
        let (zero, one) = choose|zero: A::Value, one: A::Value| #[trigger]
            is_count::<A>(0, zero) && #[trigger] is_count::<A>(1, one) && is_clamp(
                start,
                zero,
                one,
                Some(s),
            );
        assert(is_clamp(s, zero, one, r));
        lemma_clamp_twice(start, zero, one, s, r);
    }
    assert forall|r: Option<A::Value>| #[trigger]
        is_side_clamp::<A>(s, w, r) implies r == Some(w) by {
        let (smallest, room) = choose|smallest: A::Value, room: A::Value| #[trigger]
            is_fraction::<A>(1, 100, smallest) && #[trigger] is_room::<A>(s, room) && is_clamp(
                side,
                smallest,
                room,
                Some(w),
            );
        let (smallest2, room2) = choose|smallest: A::Value, room: A::Value| #[trigger]
            is_fraction::<A>(1, 100, smallest) && #[trigger] is_room::<A>(s, room) && is_clamp(
                w,
                smallest,
                room,
                r,
            );
        lemma_fractions_agree::<A>(1, 100, smallest, smallest2);
        lemma_rooms_agree::<A>(s, room, room2);
        lemma_clamp_twice(side, smallest, room, w, r);
    }
}

/// Bringing a region into the image once is enough: a second time changes nothing.
pub proof fn law_clamping_twice_is_clamping_once<A: Raster>(
    roi: RoiNorm<A::Value>,
    clamped: RoiNorm<A::Value>,
    again: Result<RoiNorm<A::Value>, RoiError>,
)
    requires
        is_raster_functional::<A>(),
        is_ordered::<A::Value>(),
        is_clamped_roi::<A>(roi, Ok(clamped)),
        is_clamped_roi::<A>(clamped, again),
    ensures
        again == Ok::<RoiNorm<A::Value>, RoiError>(clamped),
{
    match again {
        Ok(c) => {
            lemma_axis_twice::<A>(roi.x, roi.w, clamped.x, clamped.w, Some((c.x, c.w)));
            lemma_axis_twice::<A>(roi.y, roi.h, clamped.y, clamped.h, Some((c.y, c.h)));
        },
        Err(_) => {
            if is_axis_clamp::<A>(clamped.x, clamped.w, None) {
                lemma_axis_twice::<A>(roi.x, roi.w, clamped.x, clamped.w, None);
            } else {
                lemma_axis_twice::<A>(roi.y, roi.h, clamped.y, clamped.h, None);
            }
        },
    }
}

proof fn lemma_fitting_axis_stays<A: Raster>(
    start: A::Value,
    side: A::Value,
    r: Option<(A::Value, A::Value)>,
)
    requires
        is_raster_functional::<A>(),
        is_ordered::<A::Value>(),
        fits_axis::<A>(start, side),
        is_axis_clamp::<A>(start, side, r),
    ensures
        r == Some((start, side)),
{
    let (zero, one, smallest, room) = choose|
        zero: A::Value,
        one: A::Value,
        smallest: A::Value,
        room: A::Value,
    |
        {
            &&& #[trigger] is_count::<A>(0, zero)
            &&& #[trigger] is_count::<A>(1, one)
            &&& #[trigger] is_fraction::<A>(1, 100, smallest)
            &&& #[trigger] is_room::<A>(start, room)
            &&& is_at_most(zero, start, true)
            &&& is_at_most(start, one, true)
            &&& is_at_most(smallest, side, true)
            &&& is_at_most(side, room, true)
        };
    assert forall|s: Option<A::Value>| #[trigger] is_start_clamp::<A>(start, s) implies s == Some(
        start,
    ) by {
        assert(is_clamp(start, zero, one, s));
        lemma_clamp_keeps(start, zero, one, s);
    }
    assert forall|w: Option<A::Value>| #[trigger]
        is_side_clamp::<A>(start, side, w) implies w == Some(side) by {
        let (smallest2, room2) = choose|smallest2: A::Value, room2: A::Value| #[trigger]
            is_fraction::<A>(1, 100, smallest2) && #[trigger] is_room::<A>(start, room2)
                && is_clamp(side, smallest2, room2, w);
        lemma_fractions_agree::<A>(1, 100, smallest, smallest2);
        lemma_rooms_agree::<A>(start, room, room2);
        lemma_clamp_keeps(side, smallest, room, w);
    }
}

/// A region that lies in the image stays as it is.
pub proof fn law_fitting_region_stays<A: Raster>(
    roi: RoiNorm<A::Value>,
    r: Result<RoiNorm<A::Value>, RoiError>,
)
    requires
        is_raster_functional::<A>(),
        is_ordered::<A::Value>(),
        fits::<A>(roi),
        is_clamped_roi::<A>(roi, r),
    ensures
        r == Ok::<RoiNorm<A::Value>, RoiError>(roi),
{
    match r {
        Ok(c) => {
            lemma_fitting_axis_stays::<A>(roi.x, roi.w, Some((c.x, c.w)));
            lemma_fitting_axis_stays::<A>(roi.y, roi.h, Some((c.y, c.h)));
        },
        Err(_) => {
            if is_axis_clamp::<A>(roi.x, roi.w, None) {
                lemma_fitting_axis_stays::<A>(roi.x, roi.w, None);
            } else {
                lemma_fitting_axis_stays::<A>(roi.y, roi.h, None);
            }
        },
    }
}

proof fn lemma_clamped_axis_fits<A: Raster>(
    start: A::Value,
    side: A::Value,
    s: A::Value,
    w: A::Value,
)
    requires
        is_ordered::<A::Value>(),
        is_comparable(start),
        is_comparable(side),
        is_axis_clamp::<A>(start, side, Some((s, w))),
    ensures
        fits_axis::<A>(s, w),
{
    let (zero, one) = choose|zero: A::Value, one: A::Value| #[trigger]
        is_count::<A>(0, zero) && #[trigger] is_count::<A>(1, one) && is_clamp(
            start,
            zero,
            one,
            Some(s),
        );
    let (smallest, room) = choose|smallest: A::Value, room: A::Value| #[trigger]
        is_fraction::<A>(1, 100, smallest) && #[trigger] is_room::<A>(s, room) && is_clamp(
            side,
            smallest,
            room,
            Some(w),
        );
    lemma_clamp_bounds(start, zero, one, s);
    lemma_clamp_bounds(side, smallest, room, w);
}

/// A region of comparable values that was brought into the image lies in it.
pub proof fn law_clamped_region_fits<A: Raster>(
    roi: RoiNorm<A::Value>,
    clamped: RoiNorm<A::Value>,
)
    requires
        is_ordered::<A::Value>(),
        is_comparable(roi.x),
        is_comparable(roi.y),
        is_comparable(roi.w),
        is_comparable(roi.h),
        is_clamped_roi::<A>(roi, Ok(clamped)),
    ensures
        fits::<A>(clamped),
{
    lemma_clamped_axis_fits::<A>(roi.x, roi.w, clamped.x, clamped.w);
    lemma_clamped_axis_fits::<A>(roi.y, roi.h, clamped.y, clamped.h);
}

/// `a` and `b` are `c` and `d`, in one order or the other.
pub open spec fn are_same_pair<V>(a: V, b: V, c: V, d: V) -> bool {
    a == c && b == d || a == d && b == c
}

proof fn lemma_near_ends_agree<A: Raster>(
    a: A::Value,
    b: A::Value,
    c: A::Value,
    d: A::Value,
    lo: A::Value,
    hi: A::Value,
    r: Option<A::Value>,
    s: Option<A::Value>,
)
    requires
        is_raster_functional::<A>(),
        is_symmetric::<A>(),
        is_ordered::<A::Value>(),
        are_same_pair(a, b, c, d),
        is_near_end::<A>(a, b, lo, hi, r),
        is_near_end::<A>(c, d, lo, hi, s),
    ensures
        r == s,
{
    let v = choose|v: A::Value| #[trigger] is_lesser::<A>(a, b, v) && is_clamp(v, lo, hi, r);
    let w = choose|w: A::Value| #[trigger] is_lesser::<A>(c, d, w) && is_clamp(w, lo, hi, s);
    assert(is_lesser::<A>(c, d, v));
    lemma_clamps_agree(v, lo, hi, r, s);
}

proof fn lemma_far_ends_agree<A: Raster>(
    a: A::Value,
    b: A::Value,
    c: A::Value,
    d: A::Value,
    lo: A::Value,
    hi: A::Value,
    r: Option<A::Value>,
    s: Option<A::Value>,
)
    requires
        is_raster_functional::<A>(),
        is_symmetric::<A>(),
        is_ordered::<A::Value>(),
        are_same_pair(a, b, c, d),
        is_far_end::<A>(a, b, lo, hi, r),
        is_far_end::<A>(c, d, lo, hi, s),
    ensures
        r == s,
{
    let v = choose|v: A::Value| #[trigger] is_greater::<A>(a, b, v) && is_clamp(v, lo, hi, r);
    let w = choose|w: A::Value| #[trigger] is_greater::<A>(c, d, w) && is_clamp(w, lo, hi, s);
    assert(is_greater::<A>(c, d, v));
    lemma_clamps_agree(v, lo, hi, r, s);
}

proof fn lemma_stretches_agree<A: Raster>(
    first: A::Value,
    last: A::Value,
    lo: A::Value,
    hi: A::Value,
    start: A::Value,
    side: A::Value,
    start2: A::Value,
    side2: A::Value,
)
    requires
        is_raster_functional::<A>(),
        is_relative_stretch::<A>(first, last, lo, hi, start, side),
        is_relative_stretch::<A>(first, last, lo, hi, start2, side2),
    ensures
        start == start2,
        side == side2,
{
    let (e, ratio, smallest) = choose|e: A::Value, ratio: A::Value, smallest: A::Value|
        {
            &&& #[trigger] is_difference::<A>(hi, lo, e)
            &&& is_relative::<A>(first, lo, e, start)
            &&& is_relative::<A>(last, first, e, ratio)
            &&& is_fraction::<A>(1, 100, smallest)
            &&& #[trigger] is_greater::<A>(ratio, smallest, side)
        };
    let (e2, ratio2, smallest2) = choose|e: A::Value, ratio: A::Value, smallest: A::Value|
        {
            &&& #[trigger] is_difference::<A>(hi, lo, e)
            &&& is_relative::<A>(first, lo, e, start2)
            &&& is_relative::<A>(last, first, e, ratio)
            &&& is_fraction::<A>(1, 100, smallest)
            &&& #[trigger] is_greater::<A>(ratio, smallest, side2)
        };
    lemma_fractions_agree::<A>(1, 100, smallest, smallest2);
}

proof fn lemma_axes_agree<A: Raster>(
    a: A::Value,
    b: A::Value,
    c: A::Value,
    d: A::Value,
    lo: A::Value,
    hi: A::Value,
    r: Option<(A::Value, A::Value)>,
    s: Option<(A::Value, A::Value)>,
)
    requires
        is_raster_functional::<A>(),
        is_symmetric::<A>(),
        is_ordered::<A::Value>(),
        are_same_pair(a, b, c, d),
        is_normalized_axis::<A>(a, b, lo, hi, r),
        is_normalized_axis::<A>(c, d, lo, hi, s),
    ensures
        r == s,
{
    match (r, s) {
        (Some((start, side)), Some((start2, side2))) => {
            let (f, l) = choose|f: A::Value, l: A::Value| #[trigger]
                is_near_end::<A>(a, b, lo, hi, Some(f)) && #[trigger] is_far_end::<A>(
                    a,
                    b,
                    lo,
                    hi,
                    Some(l),
                ) && is_relative_stretch::<A>(f, l, lo, hi, start, side);
            let (g, m) = choose|f: A::Value, l: A::Value| #[trigger]
                is_near_end::<A>(c, d, lo, hi, Some(f)) && #[trigger] is_far_end::<A>(
                    c,
                    d,
                    lo,
                    hi,
                    Some(l),
                ) && is_relative_stretch::<A>(f, l, lo, hi, start2, side2);
            lemma_near_ends_agree::<A>(a, b, c, d, lo, hi, Some(f), Some(g));
            lemma_far_ends_agree::<A>(a, b, c, d, lo, hi, Some(l), Some(m));
            lemma_stretches_agree::<A>(f, l, lo, hi, start, side, start2, side2);
        },
        (Some(_), None) => {
            let f = choose|f: A::Value| #[trigger] is_near_end::<A>(a, b, lo, hi, Some(f));
            let l = choose|l: A::Value| #[trigger] is_far_end::<A>(a, b, lo, hi, Some(l));
            if is_near_end::<A>(c, d, lo, hi, None) {
                lemma_near_ends_agree::<A>(a, b, c, d, lo, hi, Some(f), None);
            } else {
                lemma_far_ends_agree::<A>(a, b, c, d, lo, hi, Some(l), None);
            }
        },
        (None, Some(_)) => {
            let f = choose|f: A::Value| #[trigger] is_near_end::<A>(c, d, lo, hi, Some(f));
            let l = choose|l: A::Value| #[trigger] is_far_end::<A>(c, d, lo, hi, Some(l));
            if is_near_end::<A>(a, b, lo, hi, None) {
                lemma_near_ends_agree::<A>(a, b, c, d, lo, hi, None, Some(f));
            } else {
                lemma_far_ends_agree::<A>(a, b, c, d, lo, hi, None, Some(l));
            }
        },
        (None, None) => {},
    }
}

/// The direction of a drag does not matter: whichever two opposite corners of a
/// rectangle it runs between, and whichever way, it gives the same region.
pub proof fn law_drag_direction_does_not_matter<A: Raster>(
    start: Point<A::Value>,
    end: Point<A::Value>,
    start2: Point<A::Value>,
    end2: Point<A::Value>,
    bounds: ScreenRect<A::Value>,
    r: Result<RoiNorm<A::Value>, RoiError>,
    s: Result<RoiNorm<A::Value>, RoiError>,
)
    requires
        is_raster_functional::<A>(),
        is_symmetric::<A>(),
        is_ordered::<A::Value>(),
        are_same_pair(start.x, end.x, start2.x, end2.x),
        are_same_pair(start.y, end.y, start2.y, end2.y),
        is_normalized_roi::<A>(start, end, bounds, r),
        is_normalized_roi::<A>(start2, end2, bounds, s),
    ensures
        r == s,
{
    let (a, b, c, d) = (start.x, end.x, start2.x, end2.x);
    let (e, f, g, h) = (start.y, end.y, start2.y, end2.y);
    let (left, right, top, bottom) = (bounds.left, bounds.right, bounds.top, bounds.bottom);
    match (r, s) {
        (Ok(p), Ok(q)) => {
            lemma_axes_agree::<A>(a, b, c, d, left, right, Some((p.x, p.w)), Some((q.x, q.w)));
            lemma_axes_agree::<A>(e, f, g, h, top, bottom, Some((p.y, p.h)), Some((q.y, q.h)));
            assert(p == q);
        },
        (Ok(p), Err(_)) => {
            if is_normalized_axis::<A>(c, d, left, right, None) {
                lemma_axes_agree::<A>(a, b, c, d, left, right, Some((p.x, p.w)), None);
            } else {
                lemma_axes_agree::<A>(e, f, g, h, top, bottom, Some((p.y, p.h)), None);
            }
        },
        (Err(_), Ok(q)) => {
            if is_normalized_axis::<A>(a, b, left, right, None) {
                lemma_axes_agree::<A>(a, b, c, d, left, right, None, Some((q.x, q.w)));
            } else {
                lemma_axes_agree::<A>(e, f, g, h, top, bottom, None, Some((q.y, q.h)));
            }
        },
        (Err(RoiError::NoRoom), Err(RoiError::NoRoom)) => {
            assert(r->Err_0 == RoiError::NoRoom);
            assert(s->Err_0 == RoiError::NoRoom);
        },
    }
}

/// `v` brought between `lo` and `hi`.
spec fn clamped(v: real, lo: real, hi: real) -> real {
    if v < lo {
        lo
    } else if v > hi {
        hi
    } else {
        v
    }
}

proof fn lemma_exact_fraction<A: Arithmetic>(r: A::Value, number: spec_fn(A::Value) -> real)
    requires
        is_exact::<A>(number),
        is_fraction::<A>(1, 100, r),
    ensures
        number(r) * 100real == 1real,
{
}

proof fn lemma_exact_clamp<A: Raster>(
    v: A::Value,
    lo: A::Value,
    hi: A::Value,
    r: Option<A::Value>,
    number: spec_fn(A::Value) -> real,
)
    requires
        follows_numbers::<A>(number),
        number(lo) <= number(hi),
        is_clamp(v, lo, hi, r),
    ensures
        r is Some,
        number(r->0) == clamped(number(v), number(lo), number(hi)),
{
}

/// The exact values that a stretch between `a` and `b` is expressed by.
proof fn lemma_exact_axis<A: Raster>(
    a: A::Value,
    b: A::Value,
    lo: A::Value,
    hi: A::Value,
    r: Option<(A::Value, A::Value)>,
    number: spec_fn(A::Value) -> real,
)
    requires
        is_exact::<A>(number),
        follows_numbers::<A>(number),
        number(lo) < number(hi),
        is_normalized_axis::<A>(a, b, lo, hi, r),
    ensures
        r is Some,
        ({
            let (start, side) = (number((r->0).0), number((r->0).1));
            let extent = number(hi) - number(lo);
            let (x, y) = (number(a), number(b));
            let first = clamped(
                if x <= y {
                    x
                } else {
                    y
                },
                number(lo),
                number(hi),
            );
            let last = clamped(
                if x >= y {
                    x
                } else {
                    y
                },
                number(lo),
                number(hi),
            );
            &&& start * extent == first - number(lo)
            &&& side * 100real >= 1real
            &&& side * extent == last - first || side * 100real == 1real && last - first <= side
                * extent
            &&& side * extent >= last - first
        }),
{
    if r is None {
        if is_near_end::<A>(a, b, lo, hi, None) {
            let v = choose|v: A::Value| #[trigger]
                is_lesser::<A>(a, b, v) && is_clamp(v, lo, hi, None);
            lemma_exact_clamp::<A>(v, lo, hi, None, number);
        } else {
            let v = choose|v: A::Value| #[trigger]
                is_greater::<A>(a, b, v) && is_clamp(v, lo, hi, None);
            lemma_exact_clamp::<A>(v, lo, hi, None, number);
        }
    }
    let (start, side) = r->0;
    let (f, l) = choose|f: A::Value, l: A::Value| #[trigger]
        is_near_end::<A>(a, b, lo, hi, Some(f)) && #[trigger] is_far_end::<A>(
            a,
            b,
            lo,
            hi,
            Some(l),
        ) && is_relative_stretch::<A>(f, l, lo, hi, start, side);
    let v = choose|v: A::Value| #[trigger]
        is_lesser::<A>(a, b, v) && is_clamp(v, lo, hi, Some(f));
    let w = choose|w: A::Value| #[trigger]
        is_greater::<A>(a, b, w) && is_clamp(w, lo, hi, Some(l));
    lemma_exact_clamp::<A>(v, lo, hi, Some(f), number);
    lemma_exact_clamp::<A>(w, lo, hi, Some(l), number);
    let (e, ratio, smallest) = choose|e: A::Value, ratio: A::Value, smallest: A::Value|
        {
            &&& #[trigger] is_difference::<A>(hi, lo, e)
            &&& is_relative::<A>(f, lo, e, start)
            &&& is_relative::<A>(l, f, e, ratio)
            &&& is_fraction::<A>(1, 100, smallest)
            &&& #[trigger] is_greater::<A>(ratio, smallest, side)
        };
    lemma_exact_fraction::<A>(smallest, number);
    let extent = number(e);
    assert(number(ratio) * extent == number(l) - number(f));
    assert(number(side) * extent >= number(ratio) * extent) by (nonlinear_arith)
        requires
            number(side) >= number(ratio),
            extent > 0real,
    ;
}

/// A dragged region lies in the image and no side is below a hundredth, computed
/// without rounding over an image of positive size.
pub proof fn law_dragged_region_lies_in_image<A: Raster>(
    start: Point<A::Value>,
    end: Point<A::Value>,
    bounds: ScreenRect<A::Value>,
    r: Result<RoiNorm<A::Value>, RoiError>,
    number: spec_fn(A::Value) -> real,
)
    requires
        is_exact::<A>(number),
        follows_numbers::<A>(number),
        number(bounds.left) < number(bounds.right),
        number(bounds.top) < number(bounds.bottom),
        is_normalized_roi::<A>(start, end, bounds, r),
    ensures
        r is Ok,
        0real <= number((r->Ok_0).x) <= 1real,
        0real <= number((r->Ok_0).y) <= 1real,
        1real <= number((r->Ok_0).w) * 100real <= 100real,
        1real <= number((r->Ok_0).h) * 100real <= 100real,
{
    let (a, b, left, right) = (start.x, end.x, bounds.left, bounds.right);
    let (c, d, top, bottom) = (start.y, end.y, bounds.top, bounds.bottom);
    if r is Err {
        if is_normalized_axis::<A>(a, b, left, right, None) {
            lemma_exact_axis::<A>(a, b, left, right, None, number);
        } else {
            lemma_exact_axis::<A>(c, d, top, bottom, None, number);
        }
    }
    let roi = r->Ok_0;
    lemma_exact_axis::<A>(a, b, left, right, Some((roi.x, roi.w)), number);
    lemma_exact_axis::<A>(c, d, top, bottom, Some((roi.y, roi.h)), number);
    lemma_share(number(roi.x), number(right) - number(left));
    lemma_share(number(roi.y), number(bottom) - number(top));
    lemma_share(number(roi.w), number(right) - number(left));
    lemma_share(number(roi.h), number(bottom) - number(top));
}

proof fn lemma_share(part: real, extent: real)
    requires
        extent > 0real,
    ensures
        0real <= part * extent <= extent ==> 0real <= part <= 1real,
{
    if 0real <= part * extent <= extent {
        assert(0real <= part && part <= 1real) by (nonlinear_arith)
            requires
                extent > 0real,
                0real <= part * extent,
                part * extent <= extent,
        ;
    }
}

proof fn lemma_axis_round_trip<A: Raster>(
    start: A::Value,
    side: A::Value,
    lo: A::Value,
    hi: A::Value,
    a: A::Value,
    b: A::Value,
    r: Option<(A::Value, A::Value)>,
    number: spec_fn(A::Value) -> real,
)
    requires
        is_exact::<A>(number),
        follows_numbers::<A>(number),
        number(lo) < number(hi),
        0real <= number(start),
        1real <= number(side) * 100real,
        number(start) + number(side) <= 1real,
        is_placed::<A>(start, lo, hi, a),
        is_end_placed::<A>(start, side, lo, hi, b),
        is_normalized_axis::<A>(a, b, lo, hi, r),
    ensures
        r is Some,
        number((r->0).0) == number(start),
        number((r->0).1) == number(side),
{
    lemma_exact_axis::<A>(a, b, lo, hi, r, number);
    let (x, w) = (number(start), number(side));
    let (p, q) = (number((r->0).0), number((r->0).1));
    let extent = number(hi) - number(lo);
    assert(number(a) == number(lo) + x * extent);
    assert(number(b) == number(lo) + (x + w) * extent);
    assert((x + w) * extent == x * extent + w * extent) by (nonlinear_arith);
    assert(0real <= x * extent && 0real < w * extent && (x + w) * extent <= extent)
        by (nonlinear_arith)
        requires
            extent > 0real,
            0real <= x,
            0real < w,
            x + w <= 1real,
    ;
    assert(p * extent == x * extent);
    assert(p == x) by (nonlinear_arith)
        requires
            p * extent == x * extent,
            extent > 0real,
    ;
    assert(q * extent >= w * extent);
    assert(q >= w) by (nonlinear_arith)
        requires
            q * extent >= w * extent,
            extent > 0real,
    ;
    if q * extent == w * extent {
        assert(q == w) by (nonlinear_arith)
            requires
                q * extent == w * extent,
                extent > 0real,
        ;
    }
}

/// Dragging over what a region covers on the screen gives the region back, where
/// the region lies in an image of positive size and nothing is rounded.
pub proof fn law_drag_undoes_placing<A: Raster>(
    roi: RoiNorm<A::Value>,
    bounds: ScreenRect<A::Value>,
    rect: ScreenRect<A::Value>,
    r: Result<RoiNorm<A::Value>, RoiError>,
    number: spec_fn(A::Value) -> real,
)
    requires
        is_exact::<A>(number),
        follows_numbers::<A>(number),
        number(bounds.left) < number(bounds.right),
        number(bounds.top) < number(bounds.bottom),
        lies_in_image(roi, number),
        is_roi_rect::<A>(roi, bounds, rect),
        is_normalized_roi::<A>(
            (Point { x: rect.left, y: rect.top }),
            (Point { x: rect.right, y: rect.bottom }),
            bounds,
            r,
        ),
    ensures
        r is Ok,
        number((r->Ok_0).x) == number(roi.x),
        number((r->Ok_0).y) == number(roi.y),
        number((r->Ok_0).w) == number(roi.w),
        number((r->Ok_0).h) == number(roi.h),
{
    let (left, right, top, bottom) = (bounds.left, bounds.right, bounds.top, bounds.bottom);
    if r is Err {
        if is_normalized_axis::<A>(rect.left, rect.right, left, right, None) {
            lemma_exact_axis::<A>(rect.left, rect.right, left, right, None, number);
        } else {
            lemma_exact_axis::<A>(rect.top, rect.bottom, top, bottom, None, number);
        }
    }
    let back = r->Ok_0;
    lemma_axis_round_trip::<A>(
        roi.x,
        roi.w,
        left,
        right,
        rect.left,
        rect.right,
        Some((back.x, back.w)),
        number,
    );
    lemma_axis_round_trip::<A>(
        roi.y,
        roi.h,
        top,
        bottom,
        rect.top,
        rect.bottom,
        Some((back.y, back.h)),
        number,
    );
}

proof fn lemma_exact_start<A: Raster>(
    start: A::Value,
    r: Option<A::Value>,
    number: spec_fn(A::Value) -> real,
)
    requires
        is_exact::<A>(number),
        follows_numbers::<A>(number),
        is_start_clamp::<A>(start, r),
    ensures
        r is Some,
        number(r->0) == clamped(number(start), 0real, 1real),
{
    let (zero, one) = choose|zero: A::Value, one: A::Value| #[trigger]
        is_count::<A>(0, zero) && #[trigger] is_count::<A>(1, one) && is_clamp(start, zero, one, r);
    lemma_exact_clamp::<A>(start, zero, one, r, number);
}

proof fn lemma_exact_side<A: Raster>(
    start: A::Value,
    side: A::Value,
    r: Option<A::Value>,
    number: spec_fn(A::Value) -> real,
)
    requires
        is_exact::<A>(number),
        follows_numbers::<A>(number),
        0real <= number(start) <= 1real,
        is_side_clamp::<A>(start, side, r),
    ensures
        r is Some <==> number(start) * 100real <= 99real,
        r matches Some(w) ==> 1real <= number(w) * 100real && number(start) + number(w) <= 1real,
{
    let (smallest, room) = choose|smallest: A::Value, room: A::Value| #[trigger]
        is_fraction::<A>(1, 100, smallest) && #[trigger] is_room::<A>(start, room) && is_clamp(
            side,
            smallest,
            room,
            r,
        );
    lemma_exact_fraction::<A>(smallest, number);
    assert(number(room) == 1real - number(start));
    if number(smallest) <= number(room) {
        lemma_exact_clamp::<A>(side, smallest, room, r, number);
    }
}

proof fn lemma_exact_axis_clamp<A: Raster>(
    start: A::Value,
    side: A::Value,
    r: Option<(A::Value, A::Value)>,
    number: spec_fn(A::Value) -> real,
)
    requires
        is_exact::<A>(number),
        follows_numbers::<A>(number),
        is_axis_clamp::<A>(start, side, r),
    ensures
        r is Some <==> clamped(number(start), 0real, 1real) * 100real <= 99real,
        r matches Some((s, w)) ==> {
            &&& number(s) == clamped(number(start), 0real, 1real)
            &&& 1real <= number(w) * 100real
            &&& number(s) + number(w) <= 1real
        },
{
    match r {
        Some((s, w)) => {
            lemma_exact_start::<A>(start, Some(s), number);
            lemma_exact_side::<A>(s, side, Some(w), number);
        },
        None => {
            if is_start_clamp::<A>(start, None) {
                lemma_exact_start::<A>(start, None, number);
            } else {
                let s = choose|s: A::Value| #[trigger]
                    is_start_clamp::<A>(start, Some(s)) && is_side_clamp::<A>(s, side, None);
                lemma_exact_start::<A>(start, Some(s), number);
                lemma_exact_side::<A>(s, side, None, number);
            }
        },
    }
}

/// The origin of a side, brought between zero and one, leaves a hundredth of room.
pub open spec fn leaves_room(start: real) -> bool {
    start * 100real <= 99real
}

/// Bringing a region into the image fails exactly where its origin lies closer than
/// a hundredth to the far edge, or beyond it. What comes out lies in the image.
/// Nothing is rounded.
pub proof fn law_clamping_fails_without_room<A: Raster>(
    roi: RoiNorm<A::Value>,
    r: Result<RoiNorm<A::Value>, RoiError>,
    number: spec_fn(A::Value) -> real,
)
    requires
        is_exact::<A>(number),
        follows_numbers::<A>(number),
        is_clamped_roi::<A>(roi, r),
    ensures
        r is Ok <==> leaves_room(number(roi.x)) && leaves_room(number(roi.y)),
        r matches Ok(c) ==> lies_in_image(c, number),
{
    match r {
        Ok(c) => {
            lemma_exact_axis_clamp::<A>(roi.x, roi.w, Some((c.x, c.w)), number);
            lemma_exact_axis_clamp::<A>(roi.y, roi.h, Some((c.y, c.h)), number);
        },
        Err(_) => {
            if is_axis_clamp::<A>(roi.x, roi.w, None) {
                lemma_exact_axis_clamp::<A>(roi.x, roi.w, None, number);
            } else {
                lemma_exact_axis_clamp::<A>(roi.y, roi.h, None, number);
            }
        },
    }
}

/// The numbers of a region lie in the image, and no side is below a hundredth.
pub open spec fn lies_in_image<V>(roi: RoiNorm<V>, number: spec_fn(V) -> real) -> bool {
    &&& 0real <= number(roi.x)
    &&& 0real <= number(roi.y)
    &&& 1real <= number(roi.w) * 100real
    &&& 1real <= number(roi.h) * 100real
    &&& number(roi.x) + number(roi.w) <= 1real
    &&& number(roi.y) + number(roi.h) <= 1real
}

proof fn lemma_axis_pixels<A: Raster>(
    start: A::Value,
    side: A::Value,
    len: usize,
    p0: usize,
    p1: usize,
    number: spec_fn(A::Value) -> real,
)
    requires
        is_exact::<A>(number),
        indexes_numbers::<A>(number),
        0real <= number(start),
        0real < number(side),
        number(start) + number(side) <= 1real,
        len > 0,
        is_first_pixel::<A>(start, len, p0),
        is_end_pixel::<A>(start, side, len, p1),
    ensures
        p0 < p1 <= len,
        number(start) == 0real ==> p0 == 0,
        number(start) + number(side) == 1real ==> p1 == len,
{
    let (n, p) = choose|n: A::Value, p: A::Value|
        {
            &&& is_count::<A>(len as u64, n)
            &&& #[trigger] is_product::<A>(start, n, p)
            &&& is_floor::<A>(p, p0)
        };
    let (end, m, q) = choose|end: A::Value, m: A::Value, q: A::Value|
        {
            &&& is_sum::<A>(start, side, end)
            &&& is_count::<A>(len as u64, m)
            &&& #[trigger] is_product::<A>(end, m, q)
            &&& is_ceil::<A>(q, p1)
        };
    let (x, y, l) = (number(start), number(end), len as real);
    assert(number(n) == l && number(m) == l);
    assert(0real <= x * l && x * l < y * l && y * l <= l) by (nonlinear_arith)
        requires
            0real <= x,
            x < y,
            y <= 1real,
            0real < l,
    ;
    assert(x == 0real ==> x * l == 0real) by (nonlinear_arith);
    assert(y == 1real ==> y * l == l) by (nonlinear_arith);
    assert(l <= usize::MAX as real);
    assert(p0 as real <= x * l && x * l < p0 as real + 1real);
    assert(p1 as real - 1real < y * l && y * l <= p1 as real);
}

/// The pixels of a region that lies in the image lie in the frame, at least one in
/// each row and column, and those of the whole region are the whole frame. Nothing
/// is rounded but to indices.
pub proof fn law_region_covers_pixels_of_the_frame<A: Raster>(
    roi: RoiNorm<A::Value>,
    width: usize,
    height: usize,
    b: PixelBounds,
    number: spec_fn(A::Value) -> real,
)
    requires
        is_exact::<A>(number),
        indexes_numbers::<A>(number),
        lies_in_image(roi, number),
        width > 0,
        height > 0,
        are_bounds::<A>(roi, width, height, b),
    ensures
        b.x0 < b.x1 <= width,
        b.y0 < b.y1 <= height,
        number(roi.x) == 0real ==> b.x0 == 0,
        number(roi.y) == 0real ==> b.y0 == 0,
        number(roi.x) + number(roi.w) == 1real ==> b.x1 == width,
        number(roi.y) + number(roi.h) == 1real ==> b.y1 == height,
{
    lemma_axis_pixels::<A>(roi.x, roi.w, width, b.x0, b.x1, number);
    lemma_axis_pixels::<A>(roi.y, roi.h, height, b.y0, b.y1, number);
}

/// A region that lies in the image keeps its numbers when it is brought into it.
pub proof fn law_region_in_image_keeps_its_numbers<A: Raster>(
    roi: RoiNorm<A::Value>,
    r: Result<RoiNorm<A::Value>, RoiError>,
    number: spec_fn(A::Value) -> real,
)
    requires
        is_exact::<A>(number),
        follows_numbers::<A>(number),
        lies_in_image(roi, number),
        is_clamped_roi::<A>(roi, r),
    ensures
        r is Ok,
        number((r->Ok_0).x) == number(roi.x),
        number((r->Ok_0).y) == number(roi.y),
        number((r->Ok_0).w) == number(roi.w),
        number((r->Ok_0).h) == number(roi.h),
{
    law_clamping_fails_without_room::<A>(roi, r, number);
    let c = r->Ok_0;
    lemma_axis_in_image::<A>(roi.x, roi.w, c.x, c.w, number);
    lemma_axis_in_image::<A>(roi.y, roi.h, c.y, c.h, number);
}

proof fn lemma_axis_in_image<A: Raster>(
    start: A::Value,
    side: A::Value,
    s: A::Value,
    w: A::Value,
    number: spec_fn(A::Value) -> real,
)
    requires
        is_exact::<A>(number),
        follows_numbers::<A>(number),
        0real <= number(start),
        1real <= number(side) * 100real,
        number(start) + number(side) <= 1real,
        is_axis_clamp::<A>(start, side, Some((s, w))),
    ensures
        number(s) == number(start),
        number(w) == number(side),
{
    lemma_exact_start::<A>(start, Some(s), number);
    let (smallest, room) = choose|smallest: A::Value, room: A::Value| #[trigger]
        is_fraction::<A>(1, 100, smallest) && #[trigger] is_room::<A>(s, room) && is_clamp(
            side,
            smallest,
            room,
            Some(w),
        );
    lemma_exact_fraction::<A>(smallest, number);
    assert(number(room) == 1real - number(s));
    lemma_exact_clamp::<A>(side, smallest, room, Some(w), number);
}

proof fn lemma_clamped_axes_agree<A: Raster>(
    start: A::Value,
    side: A::Value,
    r: Option<(A::Value, A::Value)>,
    q: Option<(A::Value, A::Value)>,
)
    requires
        is_raster_functional::<A>(),
        is_ordered::<A::Value>(),
        is_axis_clamp::<A>(start, side, r),
        is_axis_clamp::<A>(start, side, q),
    ensures
        r == q,
{
    assert forall|a: Option<A::Value>, b: Option<A::Value>| #[trigger]
        is_start_clamp::<A>(start, a) && #[trigger] is_start_clamp::<A>(start, b) implies a
        == b by {
        let (zero, one) = choose|zero: A::Value, one: A::Value| #[trigger]
            is_count::<A>(0, zero) && #[trigger] is_count::<A>(1, one) && is_clamp(
                start,
                zero,
                one,
                a,
            );
        assert(is_clamp(start, zero, one, b));
        lemma_clamps_agree(start, zero, one, a, b);
    }
    assert forall|s: A::Value, a: Option<A::Value>, b: Option<A::Value>| #[trigger]
        is_side_clamp::<A>(s, side, a) && #[trigger] is_side_clamp::<A>(s, side, b) implies a
        == b by {
        let (smallest, room) = choose|smallest: A::Value, room: A::Value| #[trigger]
            is_fraction::<A>(1, 100, smallest) && #[trigger] is_room::<A>(s, room) && is_clamp(
                side,
                smallest,
                room,
                a,
            );
        let (smallest2, room2) = choose|smallest: A::Value, room: A::Value| #[trigger]
            is_fraction::<A>(1, 100, smallest) && #[trigger] is_room::<A>(s, room) && is_clamp(
                side,
                smallest,
                room,
                b,
            );
        lemma_fractions_agree::<A>(1, 100, smallest, smallest2);
        lemma_rooms_agree::<A>(s, room, room2);
        lemma_clamps_agree(side, smallest, room, a, b);
    }
}

/// Bringing a region into the image is a function where the operations are.
pub proof fn law_clamping_is_a_function<A: Raster>(
    roi: RoiNorm<A::Value>,
    r: Result<RoiNorm<A::Value>, RoiError>,
    q: Result<RoiNorm<A::Value>, RoiError>,
)
    requires
        is_raster_functional::<A>(),
        is_ordered::<A::Value>(),
        is_clamped_roi::<A>(roi, r),
        is_clamped_roi::<A>(roi, q),
    ensures
        r == q,
{
    match (r, q) {
        (Ok(a), Ok(b)) => {
            lemma_clamped_axes_agree::<A>(roi.x, roi.w, Some((a.x, a.w)), Some((b.x, b.w)));
            lemma_clamped_axes_agree::<A>(roi.y, roi.h, Some((a.y, a.h)), Some((b.y, b.h)));
            assert(a == b);
        },
        (Ok(a), Err(_)) | (Err(_), Ok(a)) => {
            if is_axis_clamp::<A>(roi.x, roi.w, None) {
                lemma_clamped_axes_agree::<A>(roi.x, roi.w, Some((a.x, a.w)), None);
            } else {
                lemma_clamped_axes_agree::<A>(roi.y, roi.h, Some((a.y, a.h)), None);
            }
        },
        (Err(RoiError::NoRoom), Err(RoiError::NoRoom)) => {
            assert(r->Err_0 == RoiError::NoRoom);
            assert(q->Err_0 == RoiError::NoRoom);
        },
    }
}

/// The stretch between `lo` and `hi` has a positive, finite length.
pub open spec fn has_extent<A: Arithmetic>(
    lo: A::Value,
    hi: A::Value,
    is_finite: spec_fn(A::Value) -> bool,
) -> bool {
    &&& is_finite(lo)
    &&& is_finite(hi)
    &&& forall|e: A::Value, zero: A::Value| #[trigger]
        is_difference::<A>(hi, lo, e) && #[trigger] is_count::<A>(0, zero) ==> is_finite(e)
            && is_above(e, zero, true)
}

proof fn lemma_dragged_axis<A: Raster>(
    a: A::Value,
    b: A::Value,
    lo: A::Value,
    hi: A::Value,
    start: A::Value,
    side: A::Value,
    zero: A::Value,
    one: A::Value,
    is_finite: spec_fn(A::Value) -> bool,
)
    requires
        is_ordered::<A::Value>(),
        picks::<A>(),
        keeps_order::<A>(is_finite),
        has_extent::<A>(lo, hi, is_finite),
        is_finite(a),
        is_finite(b),
        is_count::<A>(0, zero),
        is_count::<A>(1, one),
        is_normalized_axis::<A>(a, b, lo, hi, Some((start, side))),
    ensures
        is_at_most(zero, start, true),
        is_at_most(start, one, true),
        is_at_most(side, one, true),
        exists|smallest: A::Value| #[trigger]
            is_fraction::<A>(1, 100, smallest) && is_at_most(smallest, side, true),
{
    let (f, l) = choose|f: A::Value, l: A::Value| #[trigger]
        is_near_end::<A>(a, b, lo, hi, Some(f)) && #[trigger] is_far_end::<A>(
            a,
            b,
            lo,
            hi,
            Some(l),
        ) && is_relative_stretch::<A>(f, l, lo, hi, start, side);
    let v = choose|v: A::Value| #[trigger]
        is_lesser::<A>(a, b, v) && is_clamp(v, lo, hi, Some(f));
    let w = choose|w: A::Value| #[trigger]
        is_greater::<A>(a, b, w) && is_clamp(w, lo, hi, Some(l));
    assert(is_finite(v) && is_finite(w));
    assert(is_comparable(v) && is_comparable(w));
    assert(is_comparable(a) && is_comparable(b));
    lemma_clamp_bounds(v, lo, hi, f);
    lemma_clamp_bounds(w, lo, hi, l);
    assert(is_at_most(v, a, true) && is_at_most(a, w, true));
    assert(is_at_most(v, w, true));
    lemma_clamp_grows(v, w, lo, hi, f, l);
    let (e, ratio, smallest) = choose|e: A::Value, ratio: A::Value, smallest: A::Value|
        {
            &&& #[trigger] is_difference::<A>(hi, lo, e)
            &&& is_relative::<A>(f, lo, e, start)
            &&& is_relative::<A>(l, f, e, ratio)
            &&& is_fraction::<A>(1, 100, smallest)
            &&& #[trigger] is_greater::<A>(ratio, smallest, side)
        };
    assert(is_finite(e) && is_above(e, zero, true));
    assert(is_finite(f) && is_finite(l));
    let offset = choose|offset: A::Value| #[trigger]
        is_difference::<A>(f, lo, offset) && is_quotient::<A>(offset, e, start);
    let length = choose|length: A::Value| #[trigger]
        is_difference::<A>(l, f, length) && is_quotient::<A>(length, e, ratio);
    assert(is_at_most(lo, lo, true) && is_at_most(hi, hi, true));
    assert(is_at_most(zero, offset, true));
    assert(is_at_most(offset, e, true));
    assert(is_at_most(zero, length, true));
    assert(is_at_most(length, e, true));
    assert(is_at_most(ratio, one, true));
    assert(is_at_most(smallest, one, true));
    assert(is_comparable(ratio) && is_comparable(smallest));
    assert(is_at_most(smallest, side, true));
}

proof fn lemma_clamp_grows<V: PartialOrd>(v: V, w: V, lo: V, hi: V, f: V, l: V)
    requires
        is_ordered::<V>(),
        is_at_most(v, w, true),
        is_clamp(v, lo, hi, Some(f)),
        is_clamp(w, lo, hi, Some(l)),
    ensures
        is_at_most(f, l, true),
        f == lo || f == hi || f == v,
        l == lo || l == hi || l == w,
{
    assert(is_comparable(v) && is_comparable(w));
    lemma_clamp_bounds(v, lo, hi, f);
    lemma_clamp_bounds(w, lo, hi, l);
    let p = choose|p: V| #[trigger] is_raised(v, lo, p) && is_lowered(p, hi, f);
    let q = choose|q: V| #[trigger] is_raised(w, lo, q) && is_lowered(q, hi, l);
    assert(is_at_most(lo, hi, true));
    assert(is_at_most(lo, lo, true) && is_at_most(hi, hi, true));
    assert(is_at_most(f, hi, true) && is_at_most(lo, l, true));
    if f != lo && l != hi {
        assert(p == v && is_at_most(lo, v, true));
        assert(is_at_most(lo, w, true));
        assert(q == w && l == w && is_at_most(w, hi, true));
        assert(is_at_most(v, hi, true));
        assert(f == v);
    }
}

/// A dragged region lies in the image and no side is below a hundredth, over an
/// image of positive, finite size, also where operations round.
pub proof fn law_dragged_region_is_in_range<A: Raster>(
    start: Point<A::Value>,
    end: Point<A::Value>,
    bounds: ScreenRect<A::Value>,
    roi: RoiNorm<A::Value>,
    zero: A::Value,
    one: A::Value,
    is_finite: spec_fn(A::Value) -> bool,
)
    requires
        is_ordered::<A::Value>(),
        picks::<A>(),
        keeps_order::<A>(is_finite),
        has_extent::<A>(bounds.left, bounds.right, is_finite),
        has_extent::<A>(bounds.top, bounds.bottom, is_finite),
        is_finite(start.x),
        is_finite(start.y),
        is_finite(end.x),
        is_finite(end.y),
        is_count::<A>(0, zero),
        is_count::<A>(1, one),
        is_normalized_roi::<A>(start, end, bounds, Ok(roi)),
    ensures
        is_at_most(zero, roi.x, true) && is_at_most(roi.x, one, true),
        is_at_most(zero, roi.y, true) && is_at_most(roi.y, one, true),
        is_at_most(roi.w, one, true) && is_at_most(roi.h, one, true),
        exists|smallest: A::Value| #[trigger]
            is_fraction::<A>(1, 100, smallest) && is_at_most(smallest, roi.w, true),
        exists|smallest: A::Value| #[trigger]
            is_fraction::<A>(1, 100, smallest) && is_at_most(smallest, roi.h, true),
{
    lemma_dragged_axis::<A>(
        start.x,
        end.x,
        bounds.left,
        bounds.right,
        roi.x,
        roi.w,
        zero,
        one,
        is_finite,
    );
    lemma_dragged_axis::<A>(
        start.y,
        end.y,
        bounds.top,
        bounds.bottom,
        roi.y,
        roi.h,
        zero,
        one,
        is_finite,
    );
}

/// The smaller of two numbers.
pub open spec fn smaller(a: real, b: real) -> real {
    if a <= b {
        a
    } else {
        b
    }
}

/// The larger of two numbers.
pub open spec fn larger(a: real, b: real) -> real {
    if a >= b {
        a
    } else {
        b
    }
}

proof fn lemma_clamped_axis_in_numbers<A: Raster>(
    start: A::Value,
    side: A::Value,
    s: A::Value,
    w: A::Value,
    number: spec_fn(A::Value) -> real,
)
    requires
        is_exact::<A>(number),
        follows_numbers::<A>(number),
        is_axis_clamp::<A>(start, side, Some((s, w))),
    ensures
        number(s) == larger(0real, smaller(number(start), 1real)),
        number(w) == larger((1real / 100real), smaller(number(side), 1real - number(s))),
{
    lemma_exact_start::<A>(start, Some(s), number);
    let (smallest, room) = choose|smallest: A::Value, room: A::Value| #[trigger]
        is_fraction::<A>(1, 100, smallest) && #[trigger] is_room::<A>(s, room) && is_clamp(
            side,
            smallest,
            room,
            Some(w),
        );
    lemma_exact_fraction::<A>(smallest, number);
    assert(number(room) == 1real - number(s));
    assert(number(smallest) <= number(room));
    lemma_exact_clamp::<A>(side, smallest, room, Some(w), number);
}

/// What a region becomes in the image: its origin is moved between zero and one, and
/// its sides are brought between a hundredth and what is left up to one. Nothing is
/// rounded.
pub proof fn law_clamped_region_in_numbers<A: Raster>(
    roi: RoiNorm<A::Value>,
    c: RoiNorm<A::Value>,
    number: spec_fn(A::Value) -> real,
)
    requires
        is_exact::<A>(number),
        follows_numbers::<A>(number),
        is_clamped_roi::<A>(roi, Ok(c)),
    ensures
        number(c.x) == larger(0real, smaller(number(roi.x), 1real)),
        number(c.y) == larger(0real, smaller(number(roi.y), 1real)),
        number(c.w) == larger((1real / 100real), smaller(number(roi.w), 1real - number(c.x))),
        number(c.h) == larger((1real / 100real), smaller(number(roi.h), 1real - number(c.y))),
{
    lemma_clamped_axis_in_numbers::<A>(roi.x, roi.w, c.x, c.w, number);
    lemma_clamped_axis_in_numbers::<A>(roi.y, roi.h, c.y, c.h, number);
}

proof fn lemma_pixels_in_numbers<A: Raster>(
    start: A::Value,
    side: A::Value,
    len: usize,
    p0: usize,
    p1: usize,
    number: spec_fn(A::Value) -> real,
)
    requires
        is_exact::<A>(number),
        indexes_numbers::<A>(number),
        0real <= number(start),
        0real <= number(side),
        number(start) + number(side) <= 1real,
        is_first_pixel::<A>(start, len, p0),
        is_end_pixel::<A>(start, side, len, p1),
    ensures
        p0 as real <= number(start) * (len as real) < p0 as real + 1real,
        p1 as real - 1real < (number(start) + number(side)) * (len as real) <= p1 as real,
{
    let (n, p) = choose|n: A::Value, p: A::Value|
        {
            &&& is_count::<A>(len as u64, n)
            &&& #[trigger] is_product::<A>(start, n, p)
            &&& is_floor::<A>(p, p0)
        };
    let (end, m, q) = choose|end: A::Value, m: A::Value, q: A::Value|
        {
            &&& is_sum::<A>(start, side, end)
            &&& is_count::<A>(len as u64, m)
            &&& #[trigger] is_product::<A>(end, m, q)
            &&& is_ceil::<A>(q, p1)
        };
    let (x, y, l) = (number(start), number(end), len as real);
    assert(number(n) == l && number(m) == l);
    assert(0real <= x * l && x * l <= l && 0real <= y * l && y * l <= l) by (nonlinear_arith)
        requires
            0real <= x,
            x <= 1real,
            0real <= y,
            y <= 1real,
            0real <= l,
    ;
    assert(l <= usize::MAX as real);
}

/// The pixels of a region that lies in the image: from the one that the region's
/// origin falls on, up to, but not including, the first one that begins at or after
/// its far edge. Nothing is rounded but to indices.
pub proof fn law_pixels_of_a_region<A: Raster>(
    roi: RoiNorm<A::Value>,
    width: usize,
    height: usize,
    b: PixelBounds,
    number: spec_fn(A::Value) -> real,
)
    requires
        is_exact::<A>(number),
        indexes_numbers::<A>(number),
        lies_in_image(roi, number),
        are_bounds::<A>(roi, width, height, b),
    ensures
        b.x0 as real <= number(roi.x) * (width as real) < b.x0 as real + 1real,
        b.y0 as real <= number(roi.y) * (height as real) < b.y0 as real + 1real,
        b.x1 as real - 1real < (number(roi.x) + number(roi.w)) * (width as real) <= b.x1 as real,
        b.y1 as real - 1real < (number(roi.y) + number(roi.h)) * (height as real) <= b.y1 as real,
{
    lemma_pixels_in_numbers::<A>(roi.x, roi.w, width, b.x0, b.x1, number);
    lemma_pixels_in_numbers::<A>(roi.y, roi.h, height, b.y0, b.y1, number);
}

/// Where a region lies on the screen: its edges are at the same parts of the way from
/// left to right and from top to bottom. Nothing is rounded.
pub proof fn law_placed_region_in_numbers<A: Arithmetic>(
    roi: RoiNorm<A::Value>,
    bounds: ScreenRect<A::Value>,
    r: ScreenRect<A::Value>,
    number: spec_fn(A::Value) -> real,
)
    requires
        is_exact::<A>(number),
        is_roi_rect::<A>(roi, bounds, r),
    ensures
        ({
            let w = number(bounds.right) - number(bounds.left);
            let h = number(bounds.bottom) - number(bounds.top);
            &&& number(r.left) - number(bounds.left) == number(roi.x) * w
            &&& number(r.top) - number(bounds.top) == number(roi.y) * h
            &&& number(r.right) - number(r.left) == number(roi.w) * w
            &&& number(r.bottom) - number(r.top) == number(roi.h) * h
        }),
{
    let (x, y, w, h) = (number(roi.x), number(roi.y), number(roi.w), number(roi.h));
    let a = number(bounds.right) - number(bounds.left);
    let b = number(bounds.bottom) - number(bounds.top);
    assert((x + w) * a == x * a + w * a) by (nonlinear_arith);
    assert((y + h) * b == y * b + h * b) by (nonlinear_arith);
    assert(number(r.right) == number(bounds.left) + (x + w) * a);
    assert(number(r.bottom) == number(bounds.top) + (y + h) * b);
}

/// `v` brought between `lo` and `hi`.
pub open spec fn kept_between(v: real, lo: real, hi: real) -> real {
    larger(lo, smaller(v, hi))
}

proof fn lemma_dragged_axis_in_numbers<A: Raster>(
    a: A::Value,
    b: A::Value,
    lo: A::Value,
    hi: A::Value,
    start: A::Value,
    side: A::Value,
    number: spec_fn(A::Value) -> real,
)
    requires
        is_exact::<A>(number),
        follows_numbers::<A>(number),
        number(lo) < number(hi),
        is_normalized_axis::<A>(a, b, lo, hi, Some((start, side))),
    ensures
        ({
            let (l, h) = (number(lo), number(hi));
            let first = kept_between(smaller(number(a), number(b)), l, h);
            let last = kept_between(larger(number(a), number(b)), l, h);
            &&& number(start) * (h - l) == first - l
            &&& number(side) * (h - l) == larger(last - first, (1real / 100real) * (h - l))
        }),
{
    lemma_exact_axis::<A>(a, b, lo, hi, Some((start, side)), number);
    let extent = number(hi) - number(lo);
    let s = number(side);
    assert(s >= (1real / 100real));
    assert(s * extent >= (1real / 100real) * extent) by (nonlinear_arith)
        requires
            s >= (1real / 100real),
            extent > 0real,
    ;
}

/// The region that a drag describes: its edges are those of the drag, kept inside the
/// image, as parts of the image's width and height, but a side is never less than a
/// hundredth. Nothing is rounded.
pub proof fn law_dragged_region_in_numbers<A: Raster>(
    start: Point<A::Value>,
    end: Point<A::Value>,
    bounds: ScreenRect<A::Value>,
    roi: RoiNorm<A::Value>,
    number: spec_fn(A::Value) -> real,
)
    requires
        is_exact::<A>(number),
        follows_numbers::<A>(number),
        number(bounds.left) < number(bounds.right),
        number(bounds.top) < number(bounds.bottom),
        is_normalized_roi::<A>(start, end, bounds, Ok(roi)),
    ensures
        ({
            let (l, r) = (number(bounds.left), number(bounds.right));
            let (t, b) = (number(bounds.top), number(bounds.bottom));
            let x0 = kept_between(smaller(number(start.x), number(end.x)), l, r);
            let x1 = kept_between(larger(number(start.x), number(end.x)), l, r);
            let y0 = kept_between(smaller(number(start.y), number(end.y)), t, b);
            let y1 = kept_between(larger(number(start.y), number(end.y)), t, b);
            &&& number(roi.x) * (r - l) == x0 - l
            &&& number(roi.y) * (b - t) == y0 - t
            &&& number(roi.w) * (r - l) == larger(x1 - x0, (1real / 100real) * (r - l))
            &&& number(roi.h) * (b - t) == larger(y1 - y0, (1real / 100real) * (b - t))
        }),
{
    lemma_dragged_axis_in_numbers::<A>(
        start.x,
        end.x,
        bounds.left,
        bounds.right,
        roi.x,
        roi.w,
        number,
    );
    lemma_dragged_axis_in_numbers::<A>(
        start.y,
        end.y,
        bounds.top,
        bounds.bottom,
        roi.y,
        roi.h,
        number,
    );
}

/// A drag selects the region that it describes, brought into the image. It selects
/// none where it has no beginning or no end, and fails only where the region begins
/// closer than a hundredth to the far edge of the image. Nothing is rounded.
pub proof fn law_selected_region_in_numbers<A: Raster>(
    start: Option<Point<A::Value>>,
    end: Option<Point<A::Value>>,
    bounds: ScreenRect<A::Value>,
    r: Option<Result<RoiNorm<A::Value>, RoiError>>,
    number: spec_fn(A::Value) -> real,
)
    requires
        is_exact::<A>(number),
        follows_numbers::<A>(number),
        number(bounds.left) < number(bounds.right),
        number(bounds.top) < number(bounds.bottom),
        is_selection::<A>(start, end, bounds, r),
    ensures
        r is Some <==> start is Some && end is Some,
        r is Some ==> ({
            let (p, q) = (start->0, end->0);
            let (l, w) = (number(bounds.left), number(bounds.right) - number(bounds.left));
            let (t, h) = (number(bounds.top), number(bounds.bottom) - number(bounds.top));
            let x0 = kept_between(smaller(number(p.x), number(q.x)), l, l + w);
            let x1 = kept_between(larger(number(p.x), number(q.x)), l, l + w);
            let y0 = kept_between(smaller(number(p.y), number(q.y)), t, t + h);
            let y1 = kept_between(larger(number(p.y), number(q.y)), t, t + h);
            &&& r->0 is Ok <==> 100real * (x0 - l) <= 99real * w && 100real * (y0 - t) <= 99real * h
            &&& r->0 matches Ok(c) ==> {
                &&& number(c.x) * w == x0 - l
                &&& number(c.y) * h == y0 - t
                &&& number(c.w) * w == larger(x1 - x0, (1real / 100real) * w)
                &&& number(c.h) * h == larger(y1 - y0, (1real / 100real) * h)
            }
        }),
{
    if start is Some && end is Some {
        let (p, q) = (start->0, end->0);
        if exists|roi: RoiNorm<A::Value>| #[trigger]
            is_normalized_roi::<A>(p, q, bounds, Ok(roi)) && is_clamped_roi::<A>(roi, r->0) {
            let roi = choose|roi: RoiNorm<A::Value>| #[trigger]
                is_normalized_roi::<A>(p, q, bounds, Ok(roi)) && is_clamped_roi::<A>(roi, r->0);
            law_dragged_region_in_numbers::<A>(p, q, bounds, roi, number);
            law_dragged_region_lies_in_image::<A>(p, q, bounds, Ok(roi), number);
            law_clamping_fails_without_room::<A>(roi, r->0, number);
            let w = number(bounds.right) - number(bounds.left);
            let h = number(bounds.bottom) - number(bounds.top);
            lemma_room_scales(number(roi.x), w);
            lemma_room_scales(number(roi.y), h);
            if let Ok(c) = r->0 {
                law_clamped_region_in_numbers::<A>(roi, c, number);
                lemma_side_fits(number(roi.x), number(roi.w), w);
                lemma_side_fits(number(roi.y), number(roi.h), h);
            }
        } else {
            law_dragged_region_lies_in_image::<A>(p, q, bounds, Err(r->0->Err_0), number);
        }
    }
}

proof fn lemma_room_scales(start: real, extent: real)
    requires
        extent > 0real,
    ensures
        leaves_room(start) <==> 100real * (start * extent) <= 99real * extent,
{
    assert((start * 100real) * extent == 100real * (start * extent)) by (nonlinear_arith);
    if leaves_room(start) {
        assert((start * 100real) * extent <= 99real * extent) by (nonlinear_arith)
            requires
                start * 100real <= 99real,
                extent > 0real,
        ;
    } else {
        assert((start * 100real) * extent > 99real * extent) by (nonlinear_arith)
            requires
                start * 100real > 99real,
                extent > 0real,
        ;
    }
}

/// A side that ends inside the image, or that has the least length where a hundredth
/// of room is left, fits.
proof fn lemma_side_fits(start: real, side: real, extent: real)
    requires
        extent > 0real,
        leaves_room(start),
        side >= (1real / 100real),
        side * extent <= extent - start * extent || side == (1real / 100real),
    ensures
        side <= 1real - start,
{
    if side != (1real / 100real) {
        assert(side <= 1real - start) by (nonlinear_arith)
            requires
                side * extent <= extent - start * extent,
                extent > 0real,
        ;
    }
}

} // verus!
