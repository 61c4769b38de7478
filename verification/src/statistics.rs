//! What holds of the summary statistics as a whole.

#[allow(unused_imports)]
use vstd::arithmetic::div_mod::lemma_mod_bound;
use vstd::prelude::*;
#[allow(unused_imports)]
use vstd::relations::sorted_by;
#[allow(unused_imports)]
use vstd::seq_lib::lemma_sorted_unique;

#[allow(unused_imports)]
use crate::analysis::{
    are_order_keys, arranged, clamped_part, is_interpolation, is_mean, is_percentile,
    is_rank_weight, is_sorted, is_squared_deviation, is_stddev, is_summary, is_summary_of_sorted,
    is_total, law_sorting_rearranges, lemma_rank_bounds, rank_floor, rank_is_whole, SummaryStats,
};
#[allow(unused_imports)]
use crate::arithmetic::{
    is_count, is_difference, is_exact, is_fraction, is_functional, is_order_key, is_product,
    is_quotient, is_root, is_statistically_functional, is_sum, Arithmetic, Statistical,
};
#[allow(unused_imports)]
use crate::stable_sort::{is_stable_order, key_before};

verus! {

proof fn lemma_totals_agree<A: Arithmetic>(values: Seq<A::Value>, a: A::Value, b: A::Value)
    requires
        is_functional::<A>(),
        is_total::<A>(values, a),
        is_total::<A>(values, b),
    ensures
        a == b,
    decreases values.len(),
{
    if values.len() > 1 {
        let p = choose|p: A::Value|
            is_total::<A>(values.drop_last(), p) && #[trigger] is_sum::<A>(p, values.last(), a);
        let q = choose|q: A::Value|
            is_total::<A>(values.drop_last(), q) && #[trigger] is_sum::<A>(q, values.last(), b);
        lemma_totals_agree::<A>(values.drop_last(), p, q);
    }
}

proof fn lemma_means_agree<A: Arithmetic>(values: Seq<A::Value>, a: A::Value, b: A::Value)
    requires
        is_functional::<A>(),
        is_mean::<A>(values, a),
        is_mean::<A>(values, b),
    ensures
        a == b,
{
    let (t, n) = choose|t: A::Value, n: A::Value|
        {
            &&& is_total::<A>(values, t)
            &&& is_count::<A>(values.len() as u64, n)
            &&& #[trigger] is_quotient::<A>(t, n, a)
        };
    let (u, o) = choose|u: A::Value, o: A::Value|
        {
            &&& is_total::<A>(values, u)
            &&& is_count::<A>(values.len() as u64, o)
            &&& #[trigger] is_quotient::<A>(u, o, b)
        };
    lemma_totals_agree::<A>(values, t, u);
}

proof fn lemma_percentiles_agree<A: Arithmetic>(
    sorted: Seq<A::Value>,
    num: u64,
    den: u64,
    a: A::Value,
    b: A::Value,
)
    requires
        is_functional::<A>(),
        is_percentile::<A>(sorted, num, den, a),
        is_percentile::<A>(sorted, num, den, b),
    ensures
        a == b,
{
}

proof fn lemma_stddevs_agree<A: Statistical>(
    values: Seq<A::Value>,
    mean: A::Value,
    a: A::Value,
    b: A::Value,
)
    requires
        is_statistically_functional::<A>(),
        is_stddev::<A>(values, mean, a),
        is_stddev::<A>(values, mean, b),
    ensures
        a == b,
{
    let (x, v) = choose|x: Seq<A::Value>, v: A::Value|
        {
            &&& x.len() == values.len()
            &&& forall|i: int|
                0 <= i < values.len() ==> is_squared_deviation::<A>(
                    values[i],
                    mean,
                    #[trigger] x[i],
                )
            &&& #[trigger] is_mean::<A>(x, v)
            &&& #[trigger] is_root::<A>(v, a)
        };
    let (y, w) = choose|y: Seq<A::Value>, w: A::Value|
        {
            &&& y.len() == values.len()
            &&& forall|i: int|
                0 <= i < values.len() ==> is_squared_deviation::<A>(
                    values[i],
                    mean,
                    #[trigger] y[i],
                )
            &&& #[trigger] is_mean::<A>(y, w)
            &&& #[trigger] is_root::<A>(w, b)
        };
    assert(x == y) by {
        assert forall|i: int| 0 <= i < values.len() implies x[i] == y[i] by {
            assert(is_squared_deviation::<A>(values[i], mean, x[i]));
            assert(is_squared_deviation::<A>(values[i], mean, y[i]));
        }
    }
    lemma_means_agree::<A>(x, v, w);
}

proof fn lemma_mapped_multiset<V, W>(x: Seq<V>, y: Seq<V>, f: spec_fn(V) -> W)
    requires
        x.to_multiset() == y.to_multiset(),
    ensures
        x.map_values(f).to_multiset() == y.map_values(f).to_multiset(),
    decreases x.len(),
{
    broadcast use vstd::seq_lib::group_to_multiset_ensures;

    assert(x.len() == x.to_multiset().len());
    assert(y.len() == y.to_multiset().len());
    if x.len() == 0 {
        assert(x.map_values(f) == y.map_values(f));
    } else {
        let v = x.last();
        assert(x.contains(v));
        assert(x.to_multiset().count(v) > 0);
        assert(y.contains(v));
        let k = choose|k: int| 0 <= k < y.len() && y[k] == v;
        let fewer = y.remove(k);
        assert(x == x.drop_last().push(v));
        assert(y.to_multiset() == fewer.to_multiset().insert(v));
        assert(x.to_multiset() == x.drop_last().to_multiset().insert(v));
        assert(x.drop_last().to_multiset() == x.to_multiset().remove(v));
        assert(fewer.to_multiset() == y.to_multiset().remove(v));
        lemma_mapped_multiset(x.drop_last(), fewer, f);
        assert(x.map_values(f) == x.drop_last().map_values(f).push(f(v)));
        let all = y.map_values(f);
        assert(all.remove(k) == fewer.map_values(f));
        assert(all.contains(all[k]));
        assert(all.to_multiset() == all.remove(k).to_multiset().insert(all[k]));
    }
}

/// The key of a value.
spec fn key<A: Statistical>(v: A::Value) -> i64 {
    choose|k: i64| is_order_key::<A>(v, k)
}

proof fn lemma_sorted_keys<A: Statistical>(values: Seq<A::Value>, sorted: Seq<A::Value>)
    requires
        is_statistically_functional::<A>(),
        values.len() <= usize::MAX,
        is_sorted::<A>(values, sorted),
    ensures
        sorted.to_multiset() == values.to_multiset(),
        forall|i: int|
            0 <= i < sorted.len() ==> is_order_key::<A>(#[trigger] sorted[i], key::<A>(sorted[i])),
        sorted_by(sorted.map_values(|v: A::Value| key::<A>(v)), |a: i64, b: i64| a <= b),
{
    law_sorting_rearranges::<A>(values, sorted);
    let (keys, order) = choose|keys: Seq<i64>, order: Seq<usize>|
        {
            &&& are_order_keys::<A>(values, keys)
            &&& #[trigger] is_stable_order(keys, order)
            &&& sorted == arranged(values, order)
        };
    assert forall|i: int| 0 <= i < sorted.len() implies is_order_key::<A>(
        #[trigger] sorted[i],
        key::<A>(sorted[i]),
    ) && key::<A>(sorted[i]) == keys[order[i] as int] by {
        assert(is_order_key::<A>(values[order[i] as int], keys[order[i] as int]));
    }
    let mapped = sorted.map_values(|v: A::Value| key::<A>(v));
    let leq = |a: i64, b: i64| a <= b;
    assert forall|i: int, j: int| 0 <= i < j < mapped.len() implies #[trigger] leq(
        mapped[i],
        mapped[j],
    ) by {
        assert(mapped[i] == key::<A>(sorted[i]));
        assert(mapped[j] == key::<A>(sorted[j]));
        assert(key_before(keys, order[i], order[j]));
    }
}

/// The statistics depend on which latencies there are and how often each occurs,
/// not on their order: where the operations are functions and keys tell values
/// apart, rearranged latencies have the same statistics.
pub proof fn law_statistics_ignore_order<A: Statistical>(
    a: Seq<A::Value>,
    b: Seq<A::Value>,
    stats_a: Option<SummaryStats<A::Value>>,
    stats_b: Option<SummaryStats<A::Value>>,
)
    requires
        is_statistically_functional::<A>(),
        a.len() <= usize::MAX,
        a.to_multiset() == b.to_multiset(),
        is_summary::<A>(a, stats_a),
        is_summary::<A>(b, stats_b),
    ensures
        stats_a == stats_b,
{
    broadcast use vstd::seq_lib::group_to_multiset_ensures;

    assert(a.len() == a.to_multiset().len());
    assert(b.len() == b.to_multiset().len());
    if a.len() > 0 {
        let sa = stats_a->0;
        let sb = stats_b->0;
        let x = choose|sorted: Seq<A::Value>| #[trigger]
            is_sorted::<A>(a, sorted) && is_summary_of_sorted::<A>(sorted, sa);
        let y = choose|sorted: Seq<A::Value>| #[trigger]
            is_sorted::<A>(b, sorted) && is_summary_of_sorted::<A>(sorted, sb);
        lemma_sorted_keys::<A>(a, x);
        lemma_sorted_keys::<A>(b, y);
        let f = |v: A::Value| key::<A>(v);
        lemma_mapped_multiset(x, y, f);
        lemma_sorted_unique(x.map_values(f), y.map_values(f), |p: i64, q: i64| p <= q);
        assert(x.len() == y.len());
        assert forall|i: int| 0 <= i < x.len() implies x[i] == y[i] by {
            assert(x.map_values(f)[i] == y.map_values(f)[i]);
            assert(is_order_key::<A>(x[i], key::<A>(x[i])));
            assert(is_order_key::<A>(y[i], key::<A>(y[i])));
        }
        assert(x == y);
        lemma_means_agree::<A>(x, sa.mean_ms, sb.mean_ms);
        lemma_percentiles_agree::<A>(x, 1, 2, sa.median_ms, sb.median_ms);
        lemma_percentiles_agree::<A>(x, 95, 100, sa.p95_ms, sb.p95_ms);
        lemma_stddevs_agree::<A>(x, sa.mean_ms, sa.stddev_ms, sb.stddev_ms);
    }
}

/// The numbers of the values do not decrease.
pub open spec fn is_ascending<A: Arithmetic>(
    values: Seq<A::Value>,
    number: spec_fn(A::Value) -> real,
) -> bool {
    forall|i: int, j: int|
        0 <= i <= j < values.len() ==> number(#[trigger] values[i]) <= number(
            #[trigger] values[j],
        )
}

/// The number at the part `part / den` of the way from `low` to `high`.
pub open spec fn between(low: real, high: real, part: int, den: u64) -> real {
    low + (high - low) * (part as real) / (den as real)
}

proof fn lemma_between(low: real, high: real, part: int, den: u64)
    requires
        low <= high,
        0 <= part <= den,
        den > 0,
    ensures
        low <= between(low, high, part, den) <= high,
{
    let (d, p, q) = (high - low, part as real, den as real);
    let way = d * p / q;
    assert(way * q == d * p) by (nonlinear_arith)
        requires
            way == d * p / q,
            q > 0real,
    ;
    assert(0real <= way && way <= d) by (nonlinear_arith)
        requires
            way * q == d * p,
            0real <= d,
            0real <= p,
            p <= q,
            q > 0real,
    ;
}

proof fn lemma_between_grows(low: real, high: real, s: int, d: u64, t: int, e: u64)
    requires
        low <= high,
        d > 0,
        e > 0,
        s * e <= t * d,
    ensures
        between(low, high, s, d) <= between(low, high, t, e),
{
    let h = high - low;
    let (x, y, p, q) = (s as real, t as real, d as real, e as real);
    let (v, w) = (h * x / p, h * y / q);
    assert(x * q <= y * p) by {
        assert((s as real) * (e as real) == (s * e) as real) by (nonlinear_arith);
        assert((t as real) * (d as real) == (t * d) as real) by (nonlinear_arith);
    }
    assert(v * p == h * x && w * q == h * y) by (nonlinear_arith)
        requires
            v == h * x / p,
            w == h * y / q,
            p > 0real,
            q > 0real,
    ;
    assert(v * (p * q) <= w * (p * q)) by (nonlinear_arith)
        requires
            v * p == h * x,
            w * q == h * y,
            x * q <= y * p,
            h >= 0real,
    ;
    assert(p * q > 0real) by (nonlinear_arith)
        requires
            p > 0real,
            q > 0real,
    ;
    assert(v <= w) by (nonlinear_arith)
        requires
            v * (p * q) <= w * (p * q),
            p * q > 0real,
    ;
}

/// A percentile between two elements, computed without rounding.
pub proof fn lemma_exact_percentile<A: Arithmetic>(
    sorted: Seq<A::Value>,
    num: u64,
    den: u64,
    r: A::Value,
    number: spec_fn(A::Value) -> real,
)
    requires
        is_exact::<A>(number),
        0 < sorted.len() <= usize::MAX,
        den > 0,
        is_percentile::<A>(sorted, num, den, r),
        !rank_is_whole(sorted.len() as int, num, den),
    ensures
        ({
            let len = sorted.len() as int;
            let lo = rank_floor(len, num, den);
            number(r) == between(
                number(sorted[lo]),
                number(sorted[lo + 1]),
                (len - 1) * clamped_part(num, den) % den as int,
                den,
            )
        }),
{
    let len = sorted.len() as int;
    let p = clamped_part(num, den);
    let lo = rank_floor(len, num, den);
    let n = (len - 1) * p;
    let part = n % den as int;
    lemma_rank_bounds(len, num, den);
    let w = choose|w: A::Value| #[trigger]
        is_rank_weight::<A>(len, num, den, w) && is_interpolation::<A>(
            sorted[lo],
            sorted[lo + 1],
            w,
            r,
        );
    let (pct, last, rank, low) = choose|
        pct: A::Value,
        last: A::Value,
        rank: A::Value,
        low: A::Value,
    |
        {
            &&& is_fraction::<A>(p as u64, den, pct)
            &&& is_count::<A>((len - 1) as u64, last)
            &&& #[trigger] is_product::<A>(pct, last, rank)
            &&& is_count::<A>(lo as u64, low)
            &&& #[trigger] is_difference::<A>(rank, low, w)
        };
    let (above, below) = choose|above: A::Value, below: A::Value|
        #![trigger is_quotient::<A>(above, below, pct)]
        is_count::<A>(p as u64, above) && is_count::<A>(den, below) && is_quotient::<A>(
            above,
            below,
            pct,
        );
    let d = den as real;
    let c = number(pct);
    let l = (len - 1) as real;
    assert(c * d == p as real);
    assert(number(rank) == c * l);
    assert(number(rank) * d == n as real) by {
        assert(c * l * d == (c * d) * l) by (nonlinear_arith);
        assert((p as real) * ((len - 1) as real) == ((len - 1) * p) as real) by (nonlinear_arith);
    }
    let t = number(w);
    assert(t * d == part as real) by {
        assert(t == number(rank) - lo as real);
        assert((number(rank) - lo as real) * d == number(rank) * d - (lo as real) * d)
            by (nonlinear_arith);
        assert((lo as real) * (den as real) == (lo * den) as real) by (nonlinear_arith);
    }
    let a = number(sorted[lo]);
    let b = number(sorted[lo + 1]);
    assert(number(r) == a * (1real - t) + b * t);
    let way = (b - a) * (part as real) / d;
    assert(way * d == (b - a) * (part as real)) by (nonlinear_arith)
        requires
            way == (b - a) * (part as real) / d,
            d > 0real,
    ;
    assert(way == (b - a) * t) by (nonlinear_arith)
        requires
            way * d == (b - a) * (part as real),
            t * d == part as real,
            d > 0real,
    ;
    assert(a * (1real - t) + b * t == a + (b - a) * t) by (nonlinear_arith);
}

/// `p / d` is at most `q / e`.
pub open spec fn is_part_at_most(p: u64, d: u64, q: u64, e: u64) -> bool {
    p * e <= q * d
}

/// Percentiles grow with the part that they stand for: of values in order, and
/// computed without rounding, a larger part gives no smaller percentile. All of them
/// lie between the first and the last of the values.
pub proof fn law_percentiles_grow<A: Arithmetic>(
    sorted: Seq<A::Value>,
    p: u64,
    d: u64,
    q: u64,
    e: u64,
    at_p: A::Value,
    at_q: A::Value,
    number: spec_fn(A::Value) -> real,
)
    requires
        is_exact::<A>(number),
        is_ascending::<A>(sorted, number),
        0 < sorted.len() <= usize::MAX,
        d > 0,
        e > 0,
        is_part_at_most(p, d, q, e),
        is_percentile::<A>(sorted, p, d, at_p),
        is_percentile::<A>(sorted, q, e, at_q),
    ensures
        number(sorted.first()) <= number(at_p) <= number(at_q) <= number(sorted.last()),
{
    let len = sorted.len() as int;
    law_ranks_grow(len, p, d, q, e);
    lemma_rank_bounds(len, p, d);
    lemma_rank_bounds(len, q, e);
    let (i, j) = (rank_floor(len, p, d), rank_floor(len, q, e));
    let s = (len - 1) * clamped_part(p, d) % d as int;
    let t = (len - 1) * clamped_part(q, e) % e as int;
    assert(0 <= s < d) by {
        lemma_mod_bound((len - 1) * clamped_part(p, d), d as int);
    }
    assert(0 <= t < e) by {
        lemma_mod_bound((len - 1) * clamped_part(q, e), e as int);
    }
    let p_whole = rank_is_whole(len, p, d);
    let q_whole = rank_is_whole(len, q, e);
    if !p_whole {
        lemma_exact_percentile::<A>(sorted, p, d, at_p, number);
        assert(number(sorted[i]) <= number(sorted[i + 1]));
        lemma_between(number(sorted[i]), number(sorted[i + 1]), s, d);
    }
    if !q_whole {
        lemma_exact_percentile::<A>(sorted, q, e, at_q, number);
        assert(number(sorted[j]) <= number(sorted[j + 1]));
        lemma_between(number(sorted[j]), number(sorted[j + 1]), t, e);
        assert(number(sorted[j + 1]) <= number(sorted[len - 1]));
    }
    assert(number(sorted[0]) <= number(sorted[i]));
    assert(number(sorted[j]) <= number(sorted[len - 1]));
    assert(number(sorted[i]) <= number(sorted[j]));
    if i < j {
        if !p_whole {
            assert(number(sorted[i + 1]) <= number(sorted[j]));
        }
    } else if !p_whole {
        assert(!q_whole) by {
            if t == 0 {
                assert(s * e <= 0 ==> s <= 0) by (nonlinear_arith)
                    requires
                        e > 0,
                ;
                assert(t * d == 0) by (nonlinear_arith)
                    requires
                        t == 0,
                ;
            }
        }
        lemma_between_grows(number(sorted[i]), number(sorted[i + 1]), s, d, t, e);
    }
}

/// The rank grows with the part, and with it both of its neighbours. Where it stays
/// between the same neighbours, it moves towards the upper one.
pub proof fn law_ranks_grow(len: int, p: u64, d: u64, q: u64, e: u64)
    requires
        len > 0,
        d > 0,
        e > 0,
        is_part_at_most(p, d, q, e),
    ensures
        rank_floor(len, p, d) <= rank_floor(len, q, e),
        rank_floor(len, p, d) == rank_floor(len, q, e) ==> ((len - 1) * clamped_part(p, d)
            % d as int) * e <= ((len - 1) * clamped_part(q, e) % e as int) * d,
{
    let (x, y) = (d as int, e as int);
    let (a, b) = (clamped_part(p, d), clamped_part(q, e));
    let n = len - 1;
    lemma_rank_bounds(len, p, d);
    lemma_rank_bounds(len, q, e);
    let (i, j) = (rank_floor(len, p, d), rank_floor(len, q, e));
    let (s, t) = (n * a % x, n * b % y);
    lemma_mod_bound(n * a, x);
    lemma_mod_bound(n * b, y);
    assert(a * y <= b * x) by {
        if p >= d {
            assert(q >= e) by (nonlinear_arith)
                requires
                    p * e <= q * d,
                    p >= d,
                    d > 0,
            ;
            assert(x * y == y * x) by (nonlinear_arith);
        } else if q > e {
            assert(a * y <= y * x) by (nonlinear_arith)
                requires
                    a <= x,
                    y > 0,
            ;
        }
    }
    assert((n * a) * y <= (n * b) * x) by (nonlinear_arith)
        requires
            a * y <= b * x,
            n >= 0,
    ;
    assert((i * x + s) * y <= (j * y + t) * x);
    assert(i <= j) by (nonlinear_arith)
        requires
            (i * x + s) * y <= (j * y + t) * x,
            0 <= s,
            0 <= t < y,
            x > 0,
            y > 0,
    ;
    if i == j {
        assert(s * y <= t * x) by (nonlinear_arith)
            requires
                (i * x + s) * y <= (i * y + t) * x,
        ;
    }
}

} // verus!
