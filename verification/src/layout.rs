//! Where the quadrants of the pattern are drawn.

use vstd::prelude::*;

use crate::arithmetic::Arithmetic;
#[allow(unused_imports)]
use crate::arithmetic::{is_count, is_difference, is_exact, is_quotient, is_sum};
#[allow(unused_imports)]
use crate::stimulus::{is_bottom, is_right};

verus! {

/// A position on the screen.
#[derive(Debug, Clone, Copy)]
pub struct Point<V> {
    pub x: V,
    pub y: V,
}

/// A rectangle on the screen.
#[derive(Debug, Clone, Copy)]
pub struct ScreenRect<V> {
    pub left: V,
    pub top: V,
    pub right: V,
    pub bottom: V,
}

/// `half` is half of the way from `lo` to `hi`.
pub open spec fn is_half<A: Arithmetic>(lo: A::Value, hi: A::Value, half: A::Value) -> bool {
    exists|extent: A::Value, two: A::Value|
        {
            &&& is_difference::<A>(hi, lo, extent)
            &&& is_count::<A>(2, two)
            &&& #[trigger] is_quotient::<A>(extent, two, half)
        }
}

/// `start` to `end` is the near or the far half of the way from `lo` to `hi`.
pub open spec fn is_half_stretch<A: Arithmetic>(
    lo: A::Value,
    hi: A::Value,
    far: bool,
    start: A::Value,
    end: A::Value,
) -> bool {
    exists|half: A::Value| #[trigger]
        is_half::<A>(lo, hi, half) && (if far {
            is_sum::<A>(lo, half, start)
        } else {
            start == lo
        }) && is_sum::<A>(start, half, end)
}

/// `part` is quadrant `q` of `whole`.
pub open spec fn is_quadrant<A: Arithmetic>(
    whole: ScreenRect<A::Value>,
    q: int,
    part: ScreenRect<A::Value>,
) -> bool {
    &&& is_half_stretch::<A>(whole.left, whole.right, is_right(q), part.left, part.right)
    &&& is_half_stretch::<A>(whole.top, whole.bottom, is_bottom(q), part.top, part.bottom)
}

fn half_stretch<A: Arithmetic>(lo: A::Value, hi: A::Value, far: bool) -> (r: (A::Value, A::Value))
    ensures
        is_half_stretch::<A>(lo, hi, far, r.0, r.1),
{
    let extent = A::minus(hi, lo);
    let two = A::from_count(2);
    let half = A::over(extent, two);
    assert(is_quotient::<A>(extent, two, half));
    assert(is_half::<A>(lo, hi, half));
    let start = if far {
        A::plus(lo, half)
    } else {
        lo
    };
    let end = A::plus(start, half);
    (start, end)
}

/// A quadrant of the square that the pattern is drawn in, in the order in which
/// the pattern lists its colours.
pub fn quadrant_rect<A: Arithmetic>(whole: ScreenRect<A::Value>, q: usize) -> (part: ScreenRect<
    A::Value,
>)
    requires
        q < 4,
    ensures
        is_quadrant::<A>(whole, q as int, part),
{
    let (left, right) = half_stretch::<A>(whole.left, whole.right, q == 1 || q == 3);
    let (top, bottom) = half_stretch::<A>(whole.top, whole.bottom, q == 2 || q == 3);
    ScreenRect { left, top, right, bottom }
}

proof fn lemma_half_stretch<A: Arithmetic>(
    lo: A::Value,
    hi: A::Value,
    far: bool,
    start: A::Value,
    end: A::Value,
    number: spec_fn(A::Value) -> real,
)
    requires
        is_exact::<A>(number),
        is_half_stretch::<A>(lo, hi, far, start, end),
    ensures
        !far ==> number(start) == number(lo) && number(end) * 2real == number(lo) + number(hi),
        far ==> number(start) * 2real == number(lo) + number(hi) && number(end) == number(hi),
{
}

/// The quadrants tile the square, wherever it lies on the screen. In the order top
/// left, top right, bottom left, bottom right, the left ones reach from its left edge
/// to its middle and the right ones from there to its right edge, and likewise from
/// top to bottom. Nothing is rounded.
pub proof fn law_quadrants_tile_the_square<A: Arithmetic>(
    whole: ScreenRect<A::Value>,
    q: int,
    part: ScreenRect<A::Value>,
    number: spec_fn(A::Value) -> real,
)
    requires
        is_exact::<A>(number),
        0 <= q < 4,
        is_quadrant::<A>(whole, q, part),
    ensures
        q == 0 || q == 2 ==> {
            &&& number(part.left) == number(whole.left)
            &&& number(part.right) * 2real == number(whole.left) + number(whole.right)
        },
        q == 1 || q == 3 ==> {
            &&& number(part.left) * 2real == number(whole.left) + number(whole.right)
            &&& number(part.right) == number(whole.right)
        },
        q == 0 || q == 1 ==> {
            &&& number(part.top) == number(whole.top)
            &&& number(part.bottom) * 2real == number(whole.top) + number(whole.bottom)
        },
        q == 2 || q == 3 ==> {
            &&& number(part.top) * 2real == number(whole.top) + number(whole.bottom)
            &&& number(part.bottom) == number(whole.bottom)
        },
        number(whole.left) <= number(whole.right) ==> number(whole.left) <= number(part.left)
            <= number(part.right) <= number(whole.right),
        number(whole.top) <= number(whole.bottom) ==> number(whole.top) <= number(part.top)
            <= number(part.bottom) <= number(whole.bottom),
{
    lemma_half_stretch::<A>(
        whole.left,
        whole.right,
        is_right(q),
        part.left,
        part.right,
        number,
    );
    lemma_half_stretch::<A>(
        whole.top,
        whole.bottom,
        is_bottom(q),
        part.top,
        part.bottom,
        number,
    );
}

} // verus!
