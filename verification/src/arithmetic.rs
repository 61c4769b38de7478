//! The arithmetic that measured values are computed with.
//!
//! A program picks the representation of measured values by implementing
//! [`Arithmetic`] and its two extensions, usually by one line of floating point
//! per operation. Nothing is assumed of the operations: a contract that involves
//! them says which operations were applied to which values, by the predicates
//! below (`is_sum`, `is_product` and so on). What an operation yields follows
//! from the implementation that is plugged in.

use vstd::prelude::*;

verus! {

/// Basic operations on measured values.
pub trait Arithmetic {
    type Value: Copy + PartialOrd;

    /// The value closest to the integer `n`.
    fn from_count(n: u64) -> Self::Value;

    /// `a + b`.
    fn plus(a: Self::Value, b: Self::Value) -> Self::Value;

    /// `a - b`.
    fn minus(a: Self::Value, b: Self::Value) -> Self::Value;

    /// `a * b`.
    fn times(a: Self::Value, b: Self::Value) -> Self::Value;

    /// `a / b`.
    fn over(a: Self::Value, b: Self::Value) -> Self::Value;
}

/// What summary statistics need besides the basic operations.
pub trait Statistical: Arithmetic {
    /// The square root of `a`.
    fn sqrt(a: Self::Value) -> Self::Value;

    /// An integer that orders values: `a` sorts before `b` when its key is smaller.
    fn order_key(a: Self::Value) -> i64;
}

/// What the mapping between normalised coordinates and pixels needs besides the
/// basic operations.
pub trait Raster: Arithmetic {
    /// The largest index that is at most `a`.
    fn floor_index(a: Self::Value) -> usize;

    /// The smallest index that is at least `a`.
    fn ceil_index(a: Self::Value) -> usize;

    /// The index closest to `a`.
    fn round_index(a: Self::Value) -> usize;

    /// The smaller of two values.
    fn lesser(a: Self::Value, b: Self::Value) -> Self::Value;

    /// The larger of two values.
    fn greater(a: Self::Value, b: Self::Value) -> Self::Value;
}

/// `r` is what the arithmetic yields for the integer `n`.
pub open spec fn is_count<A: Arithmetic>(n: u64, r: A::Value) -> bool {
    call_ensures(A::from_count, (n,), r)
}

/// `r` is what the arithmetic yields for `a + b`.
pub open spec fn is_sum<A: Arithmetic>(a: A::Value, b: A::Value, r: A::Value) -> bool {
    call_ensures(A::plus, (a, b), r)
}

/// `r` is what the arithmetic yields for `a - b`.
pub open spec fn is_difference<A: Arithmetic>(a: A::Value, b: A::Value, r: A::Value) -> bool {
    call_ensures(A::minus, (a, b), r)
}

/// `r` is what the arithmetic yields for `a * b`.
pub open spec fn is_product<A: Arithmetic>(a: A::Value, b: A::Value, r: A::Value) -> bool {
    call_ensures(A::times, (a, b), r)
}

/// `r` is what the arithmetic yields for `a / b`.
pub open spec fn is_quotient<A: Arithmetic>(a: A::Value, b: A::Value, r: A::Value) -> bool {
    call_ensures(A::over, (a, b), r)
}

/// `r` is what the arithmetic yields for the square root of `a`.
pub open spec fn is_root<A: Statistical>(a: A::Value, r: A::Value) -> bool {
    call_ensures(A::sqrt, (a,), r)
}

/// `key` is the integer by which `a` is ordered.
pub open spec fn is_order_key<A: Statistical>(a: A::Value, key: i64) -> bool {
    call_ensures(A::order_key, (a,), key)
}

/// `r` is the index that `a` is rounded down to.
pub open spec fn is_floor<A: Raster>(a: A::Value, r: usize) -> bool {
    call_ensures(A::floor_index, (a,), r)
}

/// `r` is the index that `a` is rounded up to.
pub open spec fn is_ceil<A: Raster>(a: A::Value, r: usize) -> bool {
    call_ensures(A::ceil_index, (a,), r)
}

/// `r` is the index that `a` is rounded to.
pub open spec fn is_round<A: Raster>(a: A::Value, r: usize) -> bool {
    call_ensures(A::round_index, (a,), r)
}

/// `r` is what the arithmetic yields for the smaller of `a` and `b`.
pub open spec fn is_lesser<A: Raster>(a: A::Value, b: A::Value, r: A::Value) -> bool {
    call_ensures(A::lesser, (a, b), r)
}

/// `r` is what the arithmetic yields for the larger of `a` and `b`.
pub open spec fn is_greater<A: Raster>(a: A::Value, b: A::Value, r: A::Value) -> bool {
    call_ensures(A::greater, (a, b), r)
}

/// `r` is the outcome of the comparison `a < b`.
pub open spec fn is_below<V: PartialOrd>(a: V, b: V, r: bool) -> bool {
    call_ensures(<V as PartialOrd>::lt, (&a, &b), r)
}

/// `r` is the outcome of the comparison `a <= b`.
pub open spec fn is_at_most<V: PartialOrd>(a: V, b: V, r: bool) -> bool {
    call_ensures(<V as PartialOrd>::le, (&a, &b), r)
}

/// `r` is the outcome of the comparison `a > b`.
pub open spec fn is_above<V: PartialOrd>(a: V, b: V, r: bool) -> bool {
    call_ensures(<V as PartialOrd>::gt, (&a, &b), r)
}

/// `r` is the outcome of the comparison `a >= b`.
pub open spec fn is_at_least<V: PartialOrd>(a: V, b: V, r: bool) -> bool {
    call_ensures(<V as PartialOrd>::ge, (&a, &b), r)
}

/// `r` is the fraction `num / den`, computed from the two integers.
pub open spec fn is_fraction<A: Arithmetic>(num: u64, den: u64, r: A::Value) -> bool {
    exists|n: A::Value, d: A::Value|
        #![trigger is_quotient::<A>(n, d, r)]
        is_count::<A>(num, n) && is_count::<A>(den, d) && is_quotient::<A>(n, d, r)
}

/// The fraction `num / den`.
pub fn fraction<A: Arithmetic>(num: u64, den: u64) -> (r: A::Value)
    ensures
        is_fraction::<A>(num, den, r),
{
    let n = A::from_count(num);
    let d = A::from_count(den);
    let r = A::over(n, d);
    assert(is_quotient::<A>(n, d, r));
    r
}

/// The order of binary numbers with a sign bit, by their bits: those without the
/// sign in the order of the bits, and before them those with the sign, the larger
/// the remaining bits the earlier.
pub open spec fn signed_rank(bits: u64) -> int {
    if bits < 0x8000_0000_0000_0000 {
        bits as int
    } else {
        -1 - (bits - 0x8000_0000_0000_0000)
    }
}

/// An integer that orders binary floating point numbers by their bits: below zero
/// before above zero, and by magnitude within each.
pub fn key_of_bits(bits: u64) -> (key: i64)
    ensures
        key == signed_rank(bits),
{
    if bits < 0x8000_0000_0000_0000 {
        bits as i64
    } else {
        -1 - (bits - 0x8000_0000_0000_0000) as i64
    }
}

/// Different bits have different keys. Without the sign the keys grow with the
/// bits, with the sign they fall, and every key with the sign is below every key
/// without it.
pub proof fn law_keys_order_bits(a: u64, b: u64)
    requires
        a < b,
    ensures
        signed_rank(a) != signed_rank(b),
        b < 0x8000_0000_0000_0000 ==> signed_rank(a) < signed_rank(b),
        b >= 0x8000_0000_0000_0000 ==> signed_rank(b) < signed_rank(a),
{
}

/// The operations are functions: they yield one result for the same values.
pub open spec fn is_functional<A: Arithmetic>() -> bool {
    &&& forall|n: u64, r: A::Value, s: A::Value| #[trigger]
        is_count::<A>(n, r) && #[trigger] is_count::<A>(n, s) ==> r == s
    &&& forall|a: A::Value, b: A::Value, r: A::Value, s: A::Value| #[trigger]
        is_sum::<A>(a, b, r) && #[trigger] is_sum::<A>(a, b, s) ==> r == s
    &&& forall|a: A::Value, b: A::Value, r: A::Value, s: A::Value| #[trigger]
        is_difference::<A>(a, b, r) && #[trigger] is_difference::<A>(a, b, s) ==> r == s
    &&& forall|a: A::Value, b: A::Value, r: A::Value, s: A::Value| #[trigger]
        is_product::<A>(a, b, r) && #[trigger] is_product::<A>(a, b, s) ==> r == s
    &&& forall|a: A::Value, b: A::Value, r: A::Value, s: A::Value| #[trigger]
        is_quotient::<A>(a, b, r) && #[trigger] is_quotient::<A>(a, b, s) ==> r == s
}

/// The square root is a function, and the key is one that tells values apart.
pub open spec fn is_statistically_functional<A: Statistical>() -> bool {
    &&& is_functional::<A>()
    &&& forall|a: A::Value, r: A::Value, s: A::Value| #[trigger]
        is_root::<A>(a, r) && #[trigger] is_root::<A>(a, s) ==> r == s
    &&& forall|a: A::Value, k: i64, l: i64| #[trigger]
        is_order_key::<A>(a, k) && #[trigger] is_order_key::<A>(a, l) ==> k == l
    &&& forall|a: A::Value, b: A::Value, k: i64| #[trigger]
        is_order_key::<A>(a, k) && #[trigger] is_order_key::<A>(b, k) ==> a == b
}

/// Picking the smaller or the larger of two values is a function as well.
pub open spec fn is_raster_functional<A: Raster>() -> bool {
    &&& is_functional::<A>()
    &&& forall|a: A::Value, b: A::Value, r: A::Value, s: A::Value| #[trigger]
        is_lesser::<A>(a, b, r) && #[trigger] is_lesser::<A>(a, b, s) ==> r == s
    &&& forall|a: A::Value, b: A::Value, r: A::Value, s: A::Value| #[trigger]
        is_greater::<A>(a, b, r) && #[trigger] is_greater::<A>(a, b, s) ==> r == s
}

/// Rounding to an index is a function as well.
pub open spec fn has_functional_indices<A: Raster>() -> bool {
    &&& forall|a: A::Value, r: usize, s: usize| #[trigger]
        is_floor::<A>(a, r) && #[trigger] is_floor::<A>(a, s) ==> r == s
    &&& forall|a: A::Value, r: usize, s: usize| #[trigger]
        is_ceil::<A>(a, r) && #[trigger] is_ceil::<A>(a, s) ==> r == s
}

/// Picking the smaller or the larger of two values does not depend on their order.
pub open spec fn is_symmetric<A: Raster>() -> bool {
    &&& forall|a: A::Value, b: A::Value, r: A::Value| #[trigger]
        is_lesser::<A>(a, b, r) ==> is_lesser::<A>(b, a, r)
    &&& forall|a: A::Value, b: A::Value, r: A::Value| #[trigger]
        is_greater::<A>(a, b, r) ==> is_greater::<A>(b, a, r)
}

/// `v` can be compared, if only with itself. Of floating point values all can but
/// for those that are not a number.
pub open spec fn is_comparable<V: PartialOrd>(v: V) -> bool {
    is_at_most(v, v, true)
}

/// The comparisons are functions that agree on an order of the comparable values,
/// as those of floating point do.
pub open spec fn is_ordered<V: PartialOrd>() -> bool {
    &&& forall|a: V, b: V|
        #![trigger is_below(a, b, true)]
        #![trigger is_below(a, b, false)]
        !(is_below(a, b, true) && is_below(a, b, false))
    &&& forall|a: V, b: V|
        #![trigger is_above(a, b, true)]
        #![trigger is_above(a, b, false)]
        !(is_above(a, b, true) && is_above(a, b, false))
    &&& forall|a: V, b: V|
        #![trigger is_at_most(a, b, true)]
        #![trigger is_at_most(a, b, false)]
        !(is_at_most(a, b, true) && is_at_most(a, b, false))
    &&& forall|a: V| !#[trigger] is_below(a, a, true)
    &&& forall|a: V| !#[trigger] is_above(a, a, true)
    &&& forall|a: V, b: V| #[trigger]
        is_at_most(a, b, true) ==> {
            &&& !is_below(b, a, true)
            &&& !is_above(a, b, true)
            &&& is_comparable(a)
            &&& is_comparable(b)
        }
    &&& forall|a: V, b: V, c: V| #[trigger]
        is_at_most(a, b, true) && #[trigger] is_at_most(b, c, true) ==> is_at_most(a, c, true)
    &&& forall|a: V, b: V|
        is_comparable(a) && is_comparable(b) && #[trigger] is_below(a, b, false) ==> is_at_most(
            b,
            a,
            true,
        )
    &&& forall|a: V, b: V|
        is_comparable(a) && is_comparable(b) && #[trigger] is_above(a, b, false) ==> is_at_most(
            a,
            b,
            true,
        )
}

/// The operations compute with the numbers that `number` assigns to the values,
/// without rounding.
pub open spec fn is_exact<A: Arithmetic>(number: spec_fn(A::Value) -> real) -> bool {
    &&& forall|n: u64, r: A::Value| #[trigger] is_count::<A>(n, r) ==> number(r) == n as real
    &&& forall|a: A::Value, b: A::Value, r: A::Value| #[trigger]
        is_sum::<A>(a, b, r) ==> number(r) == number(a) + number(b)
    &&& forall|a: A::Value, b: A::Value, r: A::Value| #[trigger]
        is_difference::<A>(a, b, r) ==> number(r) == number(a) - number(b)
    &&& forall|a: A::Value, b: A::Value, r: A::Value| #[trigger]
        is_product::<A>(a, b, r) ==> number(r) == number(a) * number(b)
    &&& forall|a: A::Value, b: A::Value, r: A::Value| #[trigger]
        is_quotient::<A>(a, b, r) && number(b) != 0real ==> number(r) * number(b) == number(a)
}

/// The comparisons, and picking the smaller or the larger of two values, follow
/// the numbers that `number` assigns to the values.
pub open spec fn follows_numbers<A: Raster>(number: spec_fn(A::Value) -> real) -> bool {
    &&& forall|a: A::Value, b: A::Value, r: bool| #[trigger]
        is_below(a, b, r) ==> r == (number(a) < number(b))
    &&& forall|a: A::Value, b: A::Value, r: bool| #[trigger]
        is_above(a, b, r) ==> r == (number(a) > number(b))
    &&& forall|a: A::Value, b: A::Value, r: bool| #[trigger]
        is_at_most(a, b, r) ==> r == (number(a) <= number(b))
    &&& forall|a: A::Value, b: A::Value, r: A::Value| #[trigger]
        is_lesser::<A>(a, b, r) ==> number(r) == if number(a) <= number(b) {
            number(a)
        } else {
            number(b)
        }
    &&& forall|a: A::Value, b: A::Value, r: A::Value| #[trigger]
        is_greater::<A>(a, b, r) ==> number(r) == if number(a) >= number(b) {
            number(a)
        } else {
            number(b)
        }
}

/// Rounding to an index follows the numbers that `number` assigns to the values, as
/// far as they are indices.
pub open spec fn indexes_numbers<A: Raster>(number: spec_fn(A::Value) -> real) -> bool {
    &&& forall|a: A::Value, r: usize| #[trigger]
        is_floor::<A>(a, r) && 0real <= number(a) <= usize::MAX as real ==> r as real <= number(a)
            < r as real + 1real
    &&& forall|a: A::Value, r: usize| #[trigger]
        is_ceil::<A>(a, r) && 0real <= number(a) <= usize::MAX as real ==> r as real - 1real
            < number(a) <= r as real
}

/// Picking the larger or the smaller of two comparable values gives one of them, and
/// the larger one is below neither.
pub open spec fn picks<A: Raster>() -> bool {
    &&& forall|a: A::Value, b: A::Value, r: A::Value| #[trigger]
        is_lesser::<A>(a, b, r) ==> r == a || r == b
    &&& forall|a: A::Value, b: A::Value, r: A::Value| #[trigger]
        is_greater::<A>(a, b, r) ==> r == a || r == b
    &&& forall|a: A::Value, b: A::Value, r: A::Value|
        is_comparable(a) && is_comparable(b) && #[trigger] is_lesser::<A>(a, b, r) ==> is_at_most(
            r,
            a,
            true,
        ) && is_at_most(r, b, true)
    &&& forall|a: A::Value, b: A::Value, r: A::Value|
        is_comparable(a) && is_comparable(b) && #[trigger] is_greater::<A>(a, b, r) ==> is_at_most(
            a,
            r,
            true,
        ) && is_at_most(b, r, true)
}

/// Operations that may round keep the order of the values that `is_finite` holds of,
/// as those of floating point do.
pub open spec fn keeps_order<A: Arithmetic>(is_finite: spec_fn(A::Value) -> bool) -> bool {
    &&& forall|v: A::Value| #[trigger] is_finite(v) ==> is_comparable(v)
    &&& forall|m: u64, n: u64, a: A::Value, b: A::Value| #[trigger]
        is_count::<A>(m, a) && #[trigger] is_count::<A>(n, b) && m <= n ==> is_at_most(a, b, true)
    &&& forall|m: u64, n: u64, r: A::Value, one: A::Value| #[trigger]
        is_fraction::<A>(m, n, r) && #[trigger] is_count::<A>(1, one) && 0 < n && m <= n
            ==> is_at_most(r, one, true)
    &&& forall|a: A::Value, b: A::Value, r: A::Value, zero: A::Value| #[trigger]
        is_difference::<A>(a, b, r) && #[trigger] is_count::<A>(0, zero) && is_finite(a)
            && is_finite(b) && is_at_most(b, a, true) ==> is_at_most(zero, r, true)
    &&& forall|a: A::Value, b: A::Value, c: A::Value, d: A::Value, r: A::Value, s: A::Value|
        #[trigger]
        is_difference::<A>(a, b, r) && #[trigger] is_difference::<A>(c, d, s) && is_finite(a)
            && is_finite(b) && is_finite(c) && is_finite(d) && is_at_most(a, c, true)
            && is_at_most(d, b, true) ==> is_at_most(r, s, true)
    &&& forall|a: A::Value, e: A::Value, r: A::Value, zero: A::Value| #[trigger]
        is_quotient::<A>(a, e, r) && #[trigger] is_count::<A>(0, zero) && is_finite(e) && is_above(
            e,
            zero,
            true,
        ) && is_at_most(zero, a, true) ==> is_at_most(zero, r, true)
    &&& forall|a: A::Value, e: A::Value, r: A::Value, zero: A::Value, one: A::Value| #[trigger]
        is_quotient::<A>(a, e, r) && #[trigger] is_count::<A>(0, zero) && #[trigger] is_count::<A>(
            1,
            one,
        ) && is_finite(e) && is_above(e, zero, true) && is_at_most(a, e, true) ==> is_at_most(
            r,
            one,
            true,
        )
}

/// A fraction times its denominator is its numerator, where nothing is rounded.
pub proof fn law_fractions_in_numbers<A: Arithmetic>(
    num: u64,
    den: u64,
    r: A::Value,
    number: spec_fn(A::Value) -> real,
)
    requires
        is_exact::<A>(number),
        is_fraction::<A>(num, den, r),
        den > 0,
    ensures
        number(r) * (den as real) == num as real,
{
}

} // verus!
