//! What the figures of a report say in numbers: of every latency and every statistic,
//! what it is where the operations compute without rounding.

use vstd::prelude::*;

#[allow(unused_imports)]
use crate::alignment::{alignment, law_matches_pair_equal_ids};
#[allow(unused_imports)]
use crate::analysis::{
    are_order_keys, arranged, clamped_part, event_ids, is_mean, is_percentile, is_report,
    is_report_by_position, is_sample, is_sorted, is_squared_deviation, is_summary,
    is_summary_of_sorted, is_total, latencies, law_sorting_rearranges, lemma_rank_bounds,
    rank_floor, rank_is_whole, LatencyReport, LatencySample, SummaryStats,
};
#[allow(unused_imports)]
use crate::arithmetic::{
    is_count, is_difference, is_exact, is_order_key, is_product, is_quotient, is_root, is_sum,
    Arithmetic, Statistical,
};
#[allow(unused_imports)]
use crate::stable_sort::{is_stable_order, key_before};
#[allow(unused_imports)]
use crate::statistics::{is_ascending, lemma_exact_percentile};

verus! {

/// The sum of a number that is told of every element.
pub open spec fn sum_of<T>(items: Seq<T>, f: spec_fn(T) -> real) -> real {
    items.fold_left(0real, |total: real, item: T| total + f(item))
}

/// The square root is that of the numbers that `number` assigns to the values.
pub open spec fn roots_are_exact<A: Statistical>(number: spec_fn(A::Value) -> real) -> bool {
    forall|a: A::Value, r: A::Value| #[trigger]
        is_root::<A>(a, r) && number(a) >= 0real ==> number(r) >= 0real && number(r) * number(r)
            == number(a)
}

/// The keys order the values as their numbers do.
pub open spec fn keys_follow_numbers<A: Statistical>(number: spec_fn(A::Value) -> real) -> bool {
    forall|a: A::Value, b: A::Value, k: i64, l: i64| #[trigger]
        is_order_key::<A>(a, k) && #[trigger] is_order_key::<A>(b, l) && k <= l ==> number(a)
            <= number(b)
}

proof fn lemma_sum_without<T>(items: Seq<T>, k: int, f: spec_fn(T) -> real)
    requires
        0 <= k < items.len(),
    ensures
        sum_of(items, f) == sum_of(items.remove(k), f) + f(items[k]),
    decreases items.len(),
{
    let g = |total: real, item: T| total + f(item);
    if k == items.len() - 1 {
        assert(items.remove(k) == items.drop_last());
    } else {
        lemma_sum_without(items.drop_last(), k, f);
        assert(items.drop_last().remove(k) == items.remove(k).drop_last());
        assert(items.remove(k).last() == items.last());
        assert(items.drop_last()[k] == items[k]);
    }
}

/// A sum does not depend on the order of the elements.
pub proof fn lemma_sums_agree<T>(x: Seq<T>, y: Seq<T>, f: spec_fn(T) -> real)
    requires
        x.to_multiset() == y.to_multiset(),
    ensures
        sum_of(x, f) == sum_of(y, f),
    decreases x.len(),
{
    broadcast use vstd::seq_lib::group_to_multiset_ensures;

    assert(x.len() == x.to_multiset().len());
    assert(y.len() == y.to_multiset().len());
    if x.len() > 0 {
        let v = x.last();
        assert(x.contains(v));
        assert(x.to_multiset().count(v) > 0);
        assert(y.contains(v));
        let k = choose|k: int| 0 <= k < y.len() && y[k] == v;
        let fewer = y.remove(k);
        assert(x == x.drop_last().push(v));
        assert(y.to_multiset() == fewer.to_multiset().insert(v));
        assert(x.to_multiset() == x.drop_last().to_multiset().insert(v));
        assert(x.drop_last().to_multiset() == x.to_multiset().remove(v));
        assert(fewer.to_multiset() == y.to_multiset().remove(v));
        lemma_sums_agree(x.drop_last(), fewer, f);
        lemma_sum_without(y, k, f);
        assert(x.remove(x.len() - 1) == x.drop_last());
        lemma_sum_without(x, x.len() - 1, f);
    }
}

proof fn lemma_sum_of_mapped<S, T>(
    items: Seq<S>,
    others: Seq<T>,
    f: spec_fn(S) -> real,
    g: spec_fn(T) -> real,
)
    requires
        items.len() == others.len(),
        forall|i: int| 0 <= i < items.len() ==> f(#[trigger] items[i]) == g(others[i]),
    ensures
        sum_of(items, f) == sum_of(others, g),
    decreases items.len(),
{
    if items.len() > 0 {
        assert forall|i: int| 0 <= i < items.len() - 1 implies f(#[trigger] items.drop_last()[i])
            == g(others.drop_last()[i]) by {
            assert(items.drop_last()[i] == items[i]);
        }
        lemma_sum_of_mapped(items.drop_last(), others.drop_last(), f, g);
        assert(f(items[items.len() - 1]) == g(others[items.len() - 1]));
    }
}

proof fn lemma_sum_is_not_negative<T>(items: Seq<T>, f: spec_fn(T) -> real)
    requires
        forall|i: int| 0 <= i < items.len() ==> f(#[trigger] items[i]) >= 0real,
    ensures
        sum_of(items, f) >= 0real,
    decreases items.len(),
{
    if items.len() > 0 {
        assert forall|i: int| 0 <= i < items.len() - 1 implies f(#[trigger] items.drop_last()[i])
            >= 0real by {
            assert(items.drop_last()[i] == items[i]);
        }
        lemma_sum_is_not_negative(items.drop_last(), f);
        assert(f(items[items.len() - 1]) >= 0real);
    }
}

proof fn lemma_total_is_the_sum<A: Arithmetic>(
    values: Seq<A::Value>,
    total: A::Value,
    number: spec_fn(A::Value) -> real,
)
    requires
        is_exact::<A>(number),
        is_total::<A>(values, total),
    ensures
        number(total) == sum_of(values, number),
    decreases values.len(),
{
    reveal_with_fuel(Seq::fold_left, 2);
    if values.len() > 1 {
        let partial = choose|partial: A::Value|
            is_total::<A>(values.drop_last(), partial) && #[trigger] is_sum::<A>(
                partial,
                values.last(),
                total,
            );
        lemma_total_is_the_sum::<A>(values.drop_last(), partial, number);
    }
}

proof fn lemma_mean_is_the_sum<A: Arithmetic>(
    values: Seq<A::Value>,
    mean: A::Value,
    number: spec_fn(A::Value) -> real,
)
    requires
        is_exact::<A>(number),
        is_mean::<A>(values, mean),
        0 < values.len() <= usize::MAX,
    ensures
        number(mean) * (values.len() as real) == sum_of(values, number),
{
    let (total, n) = choose|total: A::Value, n: A::Value|
        {
            &&& is_total::<A>(values, total)
            &&& is_count::<A>(values.len() as u64, n)
            &&& #[trigger] is_quotient::<A>(total, n, mean)
        };
    lemma_total_is_the_sum::<A>(values, total, number);
    assert(number(n) == values.len() as real);
}

/// The square of the distance of a value from `mean`.
pub open spec fn squared_distance<V>(number: spec_fn(V) -> real, mean: V) -> spec_fn(V) -> real {
    |v: V| (number(v) - number(mean)) * (number(v) - number(mean))
}

/// The mean, times the number of latencies, is their sum. The square of the standard
/// deviation, times the number of latencies, is the sum of the squares of their
/// distances from the mean.
pub proof fn law_mean_and_deviation_in_numbers<A: Statistical>(
    values: Seq<A::Value>,
    stats: SummaryStats<A::Value>,
    number: spec_fn(A::Value) -> real,
)
    requires
        is_exact::<A>(number),
        roots_are_exact::<A>(number),
        values.len() <= usize::MAX,
        is_summary::<A>(values, Some(stats)),
    ensures
        stats.count == values.len() > 0,
        number(stats.mean_ms) * (values.len() as real) == sum_of(values, number),
        number(stats.stddev_ms) >= 0real,
        number(stats.stddev_ms) * number(stats.stddev_ms) * (values.len() as real) == sum_of(
            values,
            squared_distance(number, stats.mean_ms),
        ),
{
    let sorted = choose|sorted: Seq<A::Value>| #[trigger]
        is_sorted::<A>(values, sorted) && is_summary_of_sorted::<A>(sorted, stats);
    law_sorting_rearranges::<A>(values, sorted);
    lemma_mean_is_the_sum::<A>(sorted, stats.mean_ms, number);
    lemma_sums_agree(sorted, values, number);
    let (squares, variance) = choose|squares: Seq<A::Value>, variance: A::Value|
        {
            &&& squares.len() == sorted.len()
            &&& forall|i: int|
                0 <= i < sorted.len() ==> is_squared_deviation::<A>(
                    sorted[i],
                    stats.mean_ms,
                    #[trigger] squares[i],
                )
            &&& #[trigger] is_mean::<A>(squares, variance)
            &&& #[trigger] is_root::<A>(variance, stats.stddev_ms)
        };
    lemma_mean_is_the_sum::<A>(squares, variance, number);
    let f = squared_distance(number, stats.mean_ms);
    assert forall|i: int| 0 <= i < squares.len() implies number(#[trigger] squares[i]) == f(
        sorted[i],
    ) && number(squares[i]) >= 0real by {
        assert(is_squared_deviation::<A>(sorted[i], stats.mean_ms, squares[i]));
        let d = choose|d: A::Value| #[trigger]
            is_difference::<A>(sorted[i], stats.mean_ms, d) && is_product::<A>(d, d, squares[i]);
        assert(number(d) == number(sorted[i]) - number(stats.mean_ms));
        let x = number(d);
        assert(x * x >= 0real) by (nonlinear_arith);
    }
    lemma_sum_of_mapped(squares, sorted, number, f);
    lemma_sum_is_not_negative(squares, number);
    lemma_sums_agree(sorted, values, f);
    let (v, n) = (number(variance), values.len() as real);
    assert(v >= 0real) by (nonlinear_arith)
        requires
            v * n >= 0real,
            n > 0real,
    ;
}

/// The percentile at the part `num / den` of values in order: with the rank
/// `(len - 1) * num / den`, the value at the whole part of the rank and the one after
/// it, weighted by how close the rank is to each. A part of more than the whole counts
/// as the whole.
pub proof fn law_percentiles_in_numbers<A: Arithmetic>(
    sorted: Seq<A::Value>,
    num: u64,
    den: u64,
    r: A::Value,
    number: spec_fn(A::Value) -> real,
)
    requires
        is_exact::<A>(number),
        0 < sorted.len() <= usize::MAX,
        den > 0,
        is_percentile::<A>(sorted, num, den, r),
    ensures
        ({
            let scaled = (sorted.len() - 1) * (if num <= den {
                num
            } else {
                den
            });
            let (lo, part) = (scaled / den as int, scaled % den as int);
            let hi = if part == 0 {
                lo
            } else {
                lo + 1
            };
            &&& 0 <= lo <= hi < sorted.len()
            &&& number(r) * (den as real) == number(sorted[lo]) * ((den - part) as real) + number(
                sorted[hi],
            ) * (part as real)
        }),
{
    let len = sorted.len() as int;
    lemma_rank_bounds(len, num, den);
    let lo = rank_floor(len, num, den);
    let part = (len - 1) * clamped_part(num, den) % den as int;
    let a = number(sorted[lo]);
    let d = den as real;
    let p = part as real;
    assert((den - part) as real == d - p);
    if rank_is_whole(len, num, den) {
        assert(a * d == a * (d - 0real) + a * 0real) by (nonlinear_arith);
        assert(p == 0real);
    } else {
        lemma_exact_percentile::<A>(sorted, num, den, r, number);
        let b = number(sorted[lo + 1]);
        let x = number(r);
        assert(x == a + (b - a) * p / d);
        let way = (b - a) * p / d;
        assert(way * d == (b - a) * p) by (nonlinear_arith)
            requires
                way == (b - a) * p / d,
                d > 0real,
        ;
        assert((a + way) * d == a * (d - p) + b * p) by (nonlinear_arith)
            requires
                way * d == (b - a) * p,
        ;
    }
}

proof fn lemma_sorted_ascends<A: Statistical>(
    values: Seq<A::Value>,
    sorted: Seq<A::Value>,
    number: spec_fn(A::Value) -> real,
)
    requires
        keys_follow_numbers::<A>(number),
        is_sorted::<A>(values, sorted),
    ensures
        is_ascending::<A>(sorted, number),
{
    let (keys, order) = choose|keys: Seq<i64>, order: Seq<usize>|
        {
            &&& are_order_keys::<A>(values, keys)
            &&& #[trigger] is_stable_order(keys, order)
            &&& sorted == arranged(values, order)
        };
    assert forall|i: int, j: int| 0 <= i <= j < sorted.len() implies number(#[trigger] sorted[i])
        <= number(#[trigger] sorted[j]) by {
        let (a, b) = (order[i] as int, order[j] as int);
        assert(is_order_key::<A>(values[a], keys[a]));
        assert(is_order_key::<A>(values[b], keys[b]));
        if i < j {
            assert(key_before(keys, order[i], order[j]));
        }
    }
}

/// With the latencies in the order of their numbers: the least is the minimum and the
/// greatest the maximum, the median is halfway between the two in the middle, and the
/// 95th percentile lies at 95 hundredths of the way from the first to the last.
pub proof fn law_order_statistics_in_numbers<A: Statistical>(
    values: Seq<A::Value>,
    stats: SummaryStats<A::Value>,
    number: spec_fn(A::Value) -> real,
)
    requires
        is_exact::<A>(number),
        keys_follow_numbers::<A>(number),
        values.len() <= usize::MAX,
        is_summary::<A>(values, Some(stats)),
    ensures
        exists|sorted: Seq<A::Value>|
            {
                let n = values.len() as int;
                let (lo, part) = (95 * (n - 1) / 100, 95 * (n - 1) % 100);
                let hi = if part == 0 {
                    lo
                } else {
                    lo + 1
                };
                &&& #[trigger] sorted.to_multiset() == values.to_multiset()
                &&& sorted.len() == n
                &&& forall|i: int, j: int|
                    0 <= i <= j < n ==> number(#[trigger] sorted[i]) <= number(#[trigger] sorted[j])
                &&& stats.min_ms == sorted[0]
                &&& stats.max_ms == sorted[n - 1]
                &&& number(stats.median_ms) * 2real == number(sorted[(n - 1) / 2]) + number(
                    sorted[n / 2],
                )
                &&& number(stats.p95_ms) * 100real == number(sorted[lo]) * ((100 - part) as real)
                    + number(sorted[hi]) * (part as real)
            },
{
    let sorted = choose|sorted: Seq<A::Value>| #[trigger]
        is_sorted::<A>(values, sorted) && is_summary_of_sorted::<A>(sorted, stats);
    law_sorting_rearranges::<A>(values, sorted);
    lemma_sorted_ascends::<A>(values, sorted, number);
    law_percentiles_in_numbers::<A>(sorted, 1, 2, stats.median_ms, number);
    law_percentiles_in_numbers::<A>(sorted, 95, 100, stats.p95_ms, number);
    let n = values.len() as int;
    assert((n - 1) * 1 == n - 1 && (n - 1) * 95 == 95 * (n - 1)) by (nonlinear_arith);
    let (lo, part) = ((n - 1) / 2, (n - 1) % 2);
    if part == 0 {
        assert(n / 2 == lo);
        let a = number(sorted[lo]);
        assert(a * 2real + a * 0real == a + a) by (nonlinear_arith);
    } else {
        assert(n / 2 == lo + 1);
        assert((2 - part) as real == 1real && part as real == 1real);
    }
}

/// No latency is below the minimum or above the maximum.
pub proof fn law_extremes_in_numbers<A: Statistical>(
    values: Seq<A::Value>,
    stats: SummaryStats<A::Value>,
    number: spec_fn(A::Value) -> real,
)
    requires
        is_exact::<A>(number),
        keys_follow_numbers::<A>(number),
        values.len() <= usize::MAX,
        is_summary::<A>(values, Some(stats)),
    ensures
        values.contains(stats.min_ms),
        values.contains(stats.max_ms),
        forall|i: int|
            0 <= i < values.len() ==> number(stats.min_ms) <= number(#[trigger] values[i])
                <= number(stats.max_ms),
{
    broadcast use vstd::seq_lib::group_to_multiset_ensures;

    let sorted = choose|sorted: Seq<A::Value>| #[trigger]
        is_sorted::<A>(values, sorted) && is_summary_of_sorted::<A>(sorted, stats);
    law_sorting_rearranges::<A>(values, sorted);
    lemma_sorted_ascends::<A>(values, sorted, number);
    assert(sorted.contains(sorted[0]) && sorted.contains(sorted[sorted.len() - 1]));
    assert(values.to_multiset().count(sorted[0]) > 0);
    assert(values.to_multiset().count(sorted[sorted.len() - 1]) > 0);
    assert forall|i: int| 0 <= i < values.len() implies number(stats.min_ms) <= number(
        #[trigger] values[i],
    ) <= number(stats.max_ms) by {
        assert(values.contains(values[i]));
        assert(sorted.to_multiset().count(values[i]) > 0);
        let k = choose|k: int| 0 <= k < sorted.len() && sorted[k] == values[i];
        assert(number(sorted[0]) <= number(sorted[k]));
        assert(number(sorted[k]) <= number(sorted[sorted.len() - 1]));
    }
}

/// A sample tells of one transition, displayed and seen: its timestamps are those of a
/// displayed and of a camera event with its id, and its latency is the time from the
/// one to the other. Samples follow one another in the order of both logs.
pub proof fn law_samples_in_numbers<A: Statistical>(
    display: Seq<(u64, A::Value)>,
    camera: Seq<(u64, A::Value)>,
    report: LatencyReport<A::Value>,
    number: spec_fn(A::Value) -> real,
)
    requires
        is_exact::<A>(number),
        is_report::<A>(display, camera, report),
    ensures
        exists|places: Seq<(int, int)>|
            {
                &&& places.len() == report.samples@.len()
                &&& forall|k: int|
                    0 <= k < places.len() ==> {
                        let (i, j) = #[trigger] places[k];
                        let s = report.samples@[k];
                        &&& 0 <= i < display.len()
                        &&& 0 <= j < camera.len()
                        &&& display[i] == (s.transition_id, s.display_ms)
                        &&& camera[j] == (s.transition_id, s.camera_ms)
                        &&& number(s.latency_ms) == number(s.camera_ms) - number(s.display_ms)
                    }
                &&& forall|k: int, l: int|
                    0 <= k < l < places.len() ==> (#[trigger] places[k]).0 < (
                    #[trigger] places[l]).0 && places[k].1 < places[l].1
            },
{
    let (d, c) = (event_ids(display), event_ids(camera));
    let places = alignment(d, c);
    law_matches_pair_equal_ids(d, c);
    assert forall|k: int| 0 <= k < places.len() implies {
        let (i, j) = #[trigger] places[k];
        let s = report.samples@[k];
        &&& 0 <= i < display.len()
        &&& 0 <= j < camera.len()
        &&& display[i] == (s.transition_id, s.display_ms)
        &&& camera[j] == (s.transition_id, s.camera_ms)
        &&& number(s.latency_ms) == number(s.camera_ms) - number(s.display_ms)
    } by {
        let (i, j) = places[k];
        assert(is_sample::<A>(display[i], camera[j], report.samples@[k]));
        assert(d[i] == c[j]);
    }
}

/// Of timestamps that belong together by position, the `k`-th sample tells of the
/// `k`-th of either kind, and there is one sample for every position that both have.
pub proof fn law_samples_by_position_in_numbers<A: Statistical>(
    display_ms: Seq<A::Value>,
    camera_ms: Seq<A::Value>,
    report: LatencyReport<A::Value>,
    number: spec_fn(A::Value) -> real,
)
    requires
        is_exact::<A>(number),
        is_report_by_position::<A>(display_ms, camera_ms, report),
    ensures
        report.samples@.len() <= display_ms.len(),
        report.samples@.len() <= camera_ms.len(),
        report.samples@.len() == display_ms.len() || report.samples@.len() == camera_ms.len(),
        report.samples@.len() + report.dropped_display_events == display_ms.len(),
        report.samples@.len() + report.dropped_camera_events == camera_ms.len(),
        forall|k: int|
            0 <= k < report.samples@.len() ==> {
                let s = #[trigger] report.samples@[k];
                &&& s.transition_id == k
                &&& s.display_ms == display_ms[k]
                &&& s.camera_ms == camera_ms[k]
                &&& number(s.latency_ms) == number(camera_ms[k]) - number(display_ms[k])
            },
{
}

/// The latency of a sample.
pub open spec fn latency_number<V>(number: spec_fn(V) -> real) -> spec_fn(LatencySample<V>) -> real {
    |s: LatencySample<V>| number(s.latency_ms)
}

/// The statistics over the latencies of samples count every one of the samples: there
/// are statistics where there is a sample, their count is the number of samples, and
/// their mean times that number is the sum of all the latencies.
pub proof fn law_statistics_cover_the_samples<A: Statistical>(
    samples: Seq<LatencySample<A::Value>>,
    stats: Option<SummaryStats<A::Value>>,
    number: spec_fn(A::Value) -> real,
)
    requires
        is_exact::<A>(number),
        roots_are_exact::<A>(number),
        keys_follow_numbers::<A>(number),
        samples.len() <= usize::MAX,
        is_summary::<A>(latencies(samples), stats),
    ensures
        stats is None <==> samples.len() == 0,
        stats matches Some(s) ==> {
            &&& s.count == samples.len()
            &&& number(s.mean_ms) * (samples.len() as real) == sum_of(
                samples,
                latency_number(number),
            )
            &&& forall|k: int|
                0 <= k < samples.len() ==> number(s.min_ms) <= number(
                    (#[trigger] samples[k]).latency_ms,
                ) <= number(s.max_ms)
        },
{
    let values = latencies(samples);
    assert(values.len() == samples.len());
    if let Some(s) = stats {
        law_mean_and_deviation_in_numbers::<A>(values, s, number);
        law_extremes_in_numbers::<A>(values, s, number);
        assert forall|k: int| 0 <= k < samples.len() implies latency_number(number)(
            #[trigger] samples[k],
        ) == number(values[k]) by {}
        lemma_sum_of_mapped(samples, values, latency_number(number), number);
        assert forall|k: int| 0 <= k < samples.len() implies number(s.min_ms) <= number(
            (#[trigger] samples[k]).latency_ms,
        ) <= number(s.max_ms) by {
            assert(values[k] == samples[k].latency_ms);
        }
    }
}

} // verus!
