//! The analysis of a measurement run: latencies and their statistics.

#[allow(unused_imports)]
use vstd::arithmetic::div_mod::{
    lemma_fundamental_div_mod, lemma_fundamental_div_mod_converse, lemma_mod_bound,
};
#[allow(unused_imports)]
use vstd::math::min;
use vstd::prelude::*;

#[allow(unused_imports)]
use crate::alignment::{
    alignment, candidate, consumed, first_at_least, is_increasing, is_nondecreasing,
    law_common_ids_are_matched, law_matches_pair_equal_ids, law_matching_is_symmetric,
    law_numbered_logs_match_by_position, law_repeated_ids_are_matched, lemma_consumed_bounds,
    matched_ids, matches_up_to, occurrences,
};
use crate::arithmetic::{fraction, Arithmetic, Statistical};
#[allow(unused_imports)]
use crate::arithmetic::{
    is_count, is_difference, is_fraction, is_order_key, is_product, is_quotient, is_root, is_sum,
};
use crate::stable_sort::stable_order;
#[allow(unused_imports)]
use crate::stable_sort::{
    is_stable_order, law_stable_order_is_a_permutation, lemma_distinct_positions_cover,
};

verus! {

/// How transitions are shown and detected.
#[derive(Debug, Clone, Copy, PartialEq, Eq, Structural)]
pub enum MeasurementMethod {
    /// Alternate full-screen black/white state and detect by luma threshold.
    LumaStep,
    /// Use a 2x2 coded pattern that changes every transition for more robust matching.
    QuadCode,
}

/// One transition that was seen both on the display and by the camera.
#[derive(Debug, Clone, Copy)]
pub struct LatencySample<V> {
    pub transition_id: u64,
    pub display_ms: V,
    pub camera_ms: V,
    pub latency_ms: V,
}

/// Statistics of latencies.
#[derive(Debug, Clone, Copy)]
pub struct SummaryStats<V> {
    pub count: usize,
    pub mean_ms: V,
    pub median_ms: V,
    pub p95_ms: V,
    pub min_ms: V,
    pub max_ms: V,
    pub stddev_ms: V,
}

/// What a measurement run yields.
#[derive(Debug, Clone)]
pub struct LatencyReport<V> {
    pub samples: Vec<LatencySample<V>>,
    pub stats: Option<SummaryStats<V>>,
    pub dropped_display_events: usize,
    pub dropped_camera_events: usize,
}

/// The events of a measurement run: ids of transitions with timestamps.
#[derive(Debug, Clone)]
pub struct MeasurementRun<V> {
    pub display_events_ms: Vec<(u64, V)>,
    pub camera_events_ms: Vec<(u64, V)>,
}

/// `total` is the sum of `values`, added up from the first to the last.
pub open spec fn is_total<A: Arithmetic>(values: Seq<A::Value>, total: A::Value) -> bool
    decreases values.len(),
{
    if values.len() <= 1 {
        values.len() == 1 && total == values[0]
    } else {
        exists|partial: A::Value|
            is_total::<A>(values.drop_last(), partial) && #[trigger] is_sum::<A>(
                partial,
                values.last(),
                total,
            )
    }
}

/// The values at the positions that `order` lists.
pub open spec fn arranged<V>(values: Seq<V>, order: Seq<usize>) -> Seq<V> {
    order.map_values(|i: usize| values[i as int])
}

/// `keys` are the integers by which `values` are ordered.
pub open spec fn are_order_keys<A: Statistical>(values: Seq<A::Value>, keys: Seq<i64>) -> bool {
    &&& keys.len() == values.len()
    &&& forall|i: int| 0 <= i < values.len() ==> is_order_key::<A>(values[i], #[trigger] keys[i])
}

/// `sorted` holds `values` in the stable order of their keys.
pub open spec fn is_sorted<A: Statistical>(values: Seq<A::Value>, sorted: Seq<A::Value>) -> bool {
    exists|keys: Seq<i64>, order: Seq<usize>|
        {
            &&& are_order_keys::<A>(values, keys)
            &&& #[trigger] is_stable_order(keys, order)
            &&& sorted == arranged(values, order)
        }
}

/// The part `num / den` as it is used: at most the whole.
pub open spec fn clamped_part(num: u64, den: u64) -> int {
    min(num as int, den as int)
}

/// The whole part of the rank `num / den * (len - 1)`.
pub open spec fn rank_floor(len: int, num: u64, den: u64) -> int {
    (len - 1) * clamped_part(num, den) / den as int
}

/// The rank `num / den * (len - 1)` falls on an element.
pub open spec fn rank_is_whole(len: int, num: u64, den: u64) -> bool {
    (len - 1) * clamped_part(num, den) % den as int == 0
}

/// `w` is the distance of the rank `num / den * (len - 1)` from its whole part.
pub open spec fn is_rank_weight<A: Arithmetic>(len: int, num: u64, den: u64, w: A::Value) -> bool {
    exists|pct: A::Value, last: A::Value, rank: A::Value, lo: A::Value|
        {
            &&& is_fraction::<A>(clamped_part(num, den) as u64, den, pct)
            &&& is_count::<A>((len - 1) as u64, last)
            &&& #[trigger] is_product::<A>(pct, last, rank)
            &&& is_count::<A>(rank_floor(len, num, den) as u64, lo)
            &&& #[trigger] is_difference::<A>(rank, lo, w)
        }
}

/// `r` lies between `below` and `above`: `below * (1 - w) + above * w`.
pub open spec fn is_interpolation<A: Arithmetic>(
    below: A::Value,
    above: A::Value,
    w: A::Value,
    r: A::Value,
) -> bool {
    exists|one: A::Value, rest: A::Value, low_part: A::Value, high_part: A::Value|
        {
            &&& is_count::<A>(1, one)
            &&& #[trigger] is_difference::<A>(one, w, rest)
            &&& is_product::<A>(below, rest, low_part)
            &&& is_product::<A>(above, w, high_part)
            &&& #[trigger] is_sum::<A>(low_part, high_part, r)
        }
}

/// `r` is the percentile of `sorted` at the part `num / den`: the element at the
/// rank `num / den * (len - 1)`, interpolated between neighbours where the rank
/// falls between two elements.
pub open spec fn is_percentile<A: Arithmetic>(
    sorted: Seq<A::Value>,
    num: u64,
    den: u64,
    r: A::Value,
) -> bool {
    let len = sorted.len() as int;
    let lo = rank_floor(len, num, den);
    if rank_is_whole(len, num, den) {
        r == sorted[lo]
    } else {
        exists|w: A::Value| #[trigger]
            is_rank_weight::<A>(len, num, den, w) && is_interpolation::<A>(
                sorted[lo],
                sorted[lo + 1],
                w,
                r,
            )
    }
}

/// The rank of a percentile is that of an element, and so is the next one where it
/// falls between two.
pub proof fn lemma_rank_bounds(len: int, num: u64, den: u64)
    requires
        len > 0,
        den > 0,
    ensures
        0 <= (len - 1) * clamped_part(num, den) <= (len - 1) * den,
        0 <= rank_floor(len, num, den) < len,
        rank_is_whole(len, num, den) || rank_floor(len, num, den) + 1 < len,
        (len - 1) * clamped_part(num, den) == rank_floor(len, num, den) * den + (len - 1)
            * clamped_part(num, den) % den as int,
{
    let n = len - 1;
    let p = clamped_part(num, den);
    let d = den as int;
    let scaled = n * p;
    let lo = scaled / d;
    assert(0 <= scaled <= n * d) by (nonlinear_arith)
        requires
            scaled == n * p,
            n >= 0,
            0 <= p <= d,
    ;
    lemma_fundamental_div_mod(scaled, d);
    lemma_mod_bound(scaled, d);
    assert(d * lo == lo * d) by (nonlinear_arith);
    assert(0 <= lo <= n && (lo == n ==> scaled % d == 0)) by (nonlinear_arith)
        requires
            scaled == lo * d + scaled % d,
            0 <= scaled % d < d,
            0 <= scaled <= n * d,
            d > 0,
    ;
}

/// The percentile of sorted values at the part `num / den`.
pub fn percentile<A: Arithmetic>(sorted: &[A::Value], num: u64, den: u64) -> (r: A::Value)
    requires
        sorted@.len() > 0,
        den > 0,
    ensures
        is_percentile::<A>(sorted@, num, den, r),
{
    let p: u64 = if num > den {
        den
    } else {
        num
    };
    let len: usize = sorted.len();
    proof {
        lemma_rank_bounds(len as int, num, den);
    }
    assert((len - 1) * p <= u64::MAX * u64::MAX) by (nonlinear_arith)
        requires
            0 <= len - 1 <= u64::MAX,
            0 <= p <= u64::MAX,
    ;
    let scaled: u128 = (len - 1) as u128 * p as u128;
    let lo: usize = (scaled / den as u128) as usize;
    if scaled % den as u128 == 0 {
        return sorted[lo];
    }
    let pct = fraction::<A>(p, den);
    let last = A::from_count((len - 1) as u64);
    let rank = A::times(pct, last);
    let lo_value = A::from_count(lo as u64);
    let w = A::minus(rank, lo_value);
    let one = A::from_count(1);
    let rest = A::minus(one, w);
    let low_part = A::times(sorted[lo], rest);
    let high_part = A::times(sorted[lo + 1], w);
    let r = A::plus(low_part, high_part);
    proof {
        assert(is_product::<A>(pct, last, rank));
        assert(is_difference::<A>(rank, lo_value, w));
        assert(is_rank_weight::<A>(len as int, num, den, w));
        assert(is_difference::<A>(one, w, rest));
        assert(is_sum::<A>(low_part, high_part, r));
    }
    r
}

/// `mean` is the total of `values` over their number.
pub open spec fn is_mean<A: Arithmetic>(values: Seq<A::Value>, mean: A::Value) -> bool {
    exists|total: A::Value, n: A::Value|
        {
            &&& is_total::<A>(values, total)
            &&& is_count::<A>(values.len() as u64, n)
            &&& #[trigger] is_quotient::<A>(total, n, mean)
        }
}

/// `square` is the squared distance of `value` from `mean`.
pub open spec fn is_squared_deviation<A: Arithmetic>(
    value: A::Value,
    mean: A::Value,
    square: A::Value,
) -> bool {
    exists|d: A::Value| #[trigger]
        is_difference::<A>(value, mean, d) && is_product::<A>(d, d, square)
}

/// `stddev` is the population standard deviation of `values` around `mean`: the
/// root of the mean squared deviation.
pub open spec fn is_stddev<A: Statistical>(
    values: Seq<A::Value>,
    mean: A::Value,
    stddev: A::Value,
) -> bool {
    exists|squares: Seq<A::Value>, variance: A::Value|
        {
            &&& squares.len() == values.len()
            &&& forall|i: int|
                0 <= i < values.len() ==> is_squared_deviation::<A>(
                    values[i],
                    mean,
                    #[trigger] squares[i],
                )
            &&& #[trigger] is_mean::<A>(squares, variance)
            &&& #[trigger] is_root::<A>(variance, stddev)
        }
}

/// `stats` are the statistics of the sorted values.
pub open spec fn is_summary_of_sorted<A: Statistical>(
    sorted: Seq<A::Value>,
    stats: SummaryStats<A::Value>,
) -> bool {
    &&& stats.count == sorted.len()
    &&& is_mean::<A>(sorted, stats.mean_ms)
    &&& is_percentile::<A>(sorted, 1, 2, stats.median_ms)
    &&& is_percentile::<A>(sorted, 95, 100, stats.p95_ms)
    &&& stats.min_ms == sorted.first()
    &&& stats.max_ms == sorted.last()
    &&& is_stddev::<A>(sorted, stats.mean_ms, stats.stddev_ms)
}

/// `stats` are the statistics of `latencies`; there are none of no latencies.
pub open spec fn is_summary<A: Statistical>(
    latencies: Seq<A::Value>,
    stats: Option<SummaryStats<A::Value>>,
) -> bool {
    match stats {
        None => latencies.len() == 0,
        Some(stats) => latencies.len() > 0 && exists|sorted: Seq<A::Value>| #[trigger]
            is_sorted::<A>(latencies, sorted) && is_summary_of_sorted::<A>(sorted, stats),
    }
}

/// The latencies of `samples`, in order.
pub open spec fn latencies<V>(samples: Seq<LatencySample<V>>) -> Seq<V> {
    samples.map_values(|s: LatencySample<V>| s.latency_ms)
}

/// The mean of at least one value.
fn mean<A: Arithmetic>(values: &[A::Value]) -> (mean: A::Value)
    requires
        values@.len() > 0,
    ensures
        is_mean::<A>(values@, mean),
{
    let mut total = values[0];
    let mut i: usize = 1;
    assert(values@.take(1).len() == 1);
    while i < values.len()
        invariant
            1 <= i <= values@.len(),
            is_total::<A>(values@.take(i as int), total),
        decreases values@.len() - i,
    {
        let next = A::plus(total, values[i]);
        assert(values@.take(i + 1).drop_last() == values@.take(i as int));
        assert(is_total::<A>(values@.take(i + 1).drop_last(), total));
        assert(is_sum::<A>(total, values@.take(i + 1).last(), next));
        total = next;
        i = i + 1;
    }
    assert(values@.take(i as int) == values@);
    let n = A::from_count(values.len() as u64);
    let mean = A::over(total, n);
    assert(is_quotient::<A>(total, n, mean));
    mean
}

/// The population standard deviation of at least one value around `mean_value`.
fn stddev<A: Statistical>(values: &[A::Value], mean_value: A::Value) -> (r: A::Value)
    requires
        values@.len() > 0,
    ensures
        is_stddev::<A>(values@, mean_value, r),
{
    let mut squares: Vec<A::Value> = Vec::new();
    let mut i: usize = 0;
    while i < values.len()
        invariant
            i <= values@.len(),
            squares@.len() == i,
            forall|k: int|
                0 <= k < i ==> is_squared_deviation::<A>(
                    values@[k],
                    mean_value,
                    #[trigger] squares@[k],
                ),
        decreases values@.len() - i,
    {
        let d = A::minus(values[i], mean_value);
        let square = A::times(d, d);
        assert(is_difference::<A>(values@[i as int], mean_value, d));
        squares.push(square);
        i = i + 1;
    }
    let variance = mean::<A>(squares.as_slice());
    let r = A::sqrt(variance);
    assert(is_mean::<A>(squares@, variance));
    assert(is_root::<A>(variance, r));
    r
}

/// The values in the stable order of their keys.
fn sort_values<A: Statistical>(values: &[A::Value]) -> (sorted: Vec<A::Value>)
    ensures
        is_sorted::<A>(values@, sorted@),
        sorted@.len() == values@.len(),
{
    let mut keys: Vec<i64> = Vec::new();
    let mut i: usize = 0;
    while i < values.len()
        invariant
            i <= values@.len(),
            keys@.len() == i,
            forall|k: int| 0 <= k < i ==> is_order_key::<A>(values@[k], #[trigger] keys@[k]),
        decreases values@.len() - i,
    {
        let key = A::order_key(values[i]);
        assert(is_order_key::<A>(values@[i as int], key));
        keys.push(key);
        i = i + 1;
    }
    let order = stable_order(keys.as_slice());
    let mut sorted: Vec<A::Value> = Vec::new();
    let mut k: usize = 0;
    while k < order.len()
        invariant
            k <= order@.len(),
            keys@.len() == values@.len(),
            is_stable_order(keys@, order@),
            sorted@ == arranged(values@, order@.take(k as int)),
        decreases order@.len() - k,
    {
        sorted.push(values[order[k]]);
        assert(order@.take(k + 1) == order@.take(k as int).push(order@[k as int]));
        k = k + 1;
        assert(sorted@ == arranged(values@, order@.take(k as int)));
    }
    assert(order@.take(k as int) == order@);
    assert(is_stable_order(keys@, order@));
    sorted
}

/// The statistics of the samples' latencies, `None` where there is no sample.
pub fn summarize<A: Statistical>(samples: &[LatencySample<A::Value>]) -> (stats: Option<
    SummaryStats<A::Value>,
>)
    ensures
        is_summary::<A>(latencies(samples@), stats),
{
    if samples.len() == 0 {
        return None;
    }
    let mut values: Vec<A::Value> = Vec::new();
    let mut i: usize = 0;
    while i < samples.len()
        invariant
            i <= samples@.len(),
            values@ == latencies(samples@).take(i as int),
        decreases samples@.len() - i,
    {
        values.push(samples[i].latency_ms);
        i = i + 1;
        assert(values@ == latencies(samples@).take(i as int));
    }
    assert(values@ == latencies(samples@));
    let sorted = sort_values::<A>(values.as_slice());
    let count: usize = sorted.len();
    let mean_ms = mean::<A>(sorted.as_slice());
    let median_ms = percentile::<A>(sorted.as_slice(), 1, 2);
    let p95_ms = percentile::<A>(sorted.as_slice(), 95, 100);
    let min_ms = sorted[0];
    let max_ms = sorted[count - 1];
    let stddev_ms = stddev::<A>(sorted.as_slice(), mean_ms);
    let stats = SummaryStats { count, mean_ms, median_ms, p95_ms, min_ms, max_ms, stddev_ms };
    assert(is_sorted::<A>(latencies(samples@), sorted@));
    assert(is_summary_of_sorted::<A>(sorted@, stats));
    Some(stats)
}

/// The ids of a log of events.
pub open spec fn event_ids<V>(events: Seq<(u64, V)>) -> Seq<u64> {
    events.map_values(|e: (u64, V)| e.0)
}

/// `sample` is what a displayed event and the camera event matched with it yield.
pub open spec fn is_sample<A: Arithmetic>(
    display: (u64, A::Value),
    camera: (u64, A::Value),
    sample: LatencySample<A::Value>,
) -> bool {
    &&& sample.transition_id == display.0
    &&& sample.display_ms == display.1
    &&& sample.camera_ms == camera.1
    &&& is_difference::<A>(camera.1, display.1, sample.latency_ms)
}

/// `samples` are what the given matches of the two logs yield.
pub open spec fn are_samples<A: Arithmetic>(
    display: Seq<(u64, A::Value)>,
    camera: Seq<(u64, A::Value)>,
    matched: Seq<(int, int)>,
    samples: Seq<LatencySample<A::Value>>,
) -> bool {
    &&& samples.len() == matched.len()
    &&& forall|k: int|
        0 <= k < samples.len() ==> is_sample::<A>(
            display[matched[k].0],
            camera[matched[k].1],
            #[trigger] samples[k],
        )
}

/// `report` is the report on the two logs: one sample per match, their
/// statistics, and the numbers of events that found no match.
pub open spec fn is_report<A: Statistical>(
    display: Seq<(u64, A::Value)>,
    camera: Seq<(u64, A::Value)>,
    report: LatencyReport<A::Value>,
) -> bool {
    let matched = alignment(event_ids(display), event_ids(camera));
    &&& are_samples::<A>(display, camera, matched, report.samples@)
    &&& is_summary::<A>(latencies(report.samples@), report.stats)
    &&& report.dropped_display_events == display.len() - matched.len()
    &&& report.dropped_camera_events == camera.len() - matched.len()
}

/// The report on a measurement run.
pub fn build_report<A: Statistical>(run: &MeasurementRun<A::Value>) -> (report: LatencyReport<
    A::Value,
>)
    ensures
        is_report::<A>(run.display_events_ms@, run.camera_events_ms@, report),
{
    let ghost display = event_ids(run.display_events_ms@);
    let ghost camera = event_ids(run.camera_events_ms@);
    let mut samples: Vec<LatencySample<A::Value>> = Vec::new();
    let mut cam_idx: usize = 0;
    let mut dropped_display_events: usize = 0;
    let mut i: usize = 0;
    while i < run.display_events_ms.len()
        invariant
            display == event_ids(run.display_events_ms@),
            camera == event_ids(run.camera_events_ms@),
            i <= display.len(),
            cam_idx == consumed(display, camera, i as int),
            cam_idx <= camera.len(),
            are_samples::<A>(
                run.display_events_ms@,
                run.camera_events_ms@,
                matches_up_to(display, camera, i as int),
                samples@,
            ),
            dropped_display_events + samples@.len() == i,
        decreases display.len() - i,
    {
        let (id, display_ms) = run.display_events_ms[i];
        let ghost before = matches_up_to(display, camera, i as int);
        proof {
            lemma_consumed_bounds(display, camera, i as int);
        }
        while cam_idx < run.camera_events_ms.len() && run.camera_events_ms[cam_idx].0 < id
            invariant
                camera == event_ids(run.camera_events_ms@),
                cam_idx <= camera.len(),
                first_at_least(camera, cam_idx as int, id) == candidate(display, camera, i as int),
            decreases camera.len() - cam_idx,
        {
            cam_idx = cam_idx + 1;
        }
        if cam_idx < run.camera_events_ms.len() && run.camera_events_ms[cam_idx].0 == id {
            let camera_ms = run.camera_events_ms[cam_idx].1;
            let latency_ms = A::minus(camera_ms, display_ms);
            let ghost earlier = samples@;
            samples.push(LatencySample { transition_id: id, display_ms, camera_ms, latency_ms });
            assert(matches_up_to(display, camera, i + 1) == before.push((i as int, cam_idx as int)));
            assert(is_sample::<A>(
                run.display_events_ms@[i as int],
                run.camera_events_ms@[cam_idx as int],
                samples@.last(),
            ));
            assert forall|k: int| 0 <= k < samples@.len() implies is_sample::<A>(
                run.display_events_ms@[matches_up_to(display, camera, i + 1)[k].0],
                run.camera_events_ms@[matches_up_to(display, camera, i + 1)[k].1],
                #[trigger] samples@[k],
            ) by {
                if k < earlier.len() {
                    assert(samples@[k] == earlier[k]);
                }
            }
            cam_idx = cam_idx + 1;
        } else {
            dropped_display_events = dropped_display_events + 1;
        }
        i = i + 1;
    }
    proof {
        law_matches_pair_equal_ids(display, camera);
    }
    let dropped_camera_events: usize = run.camera_events_ms.len() - samples.len();
    let stats = summarize::<A>(samples.as_slice());
    LatencyReport { samples, stats, dropped_display_events, dropped_camera_events }
}

/// Numbers the timestamps from zero.
fn number_events<V: Copy>(times_ms: &Vec<V>) -> (events: Vec<(u64, V)>)
    ensures
        events@.len() == times_ms@.len(),
        forall|i: int|
            0 <= i < events@.len() ==> (#[trigger] events@[i]).0 == i && events@[i].1
                == times_ms@[i],
{
    let mut events: Vec<(u64, V)> = Vec::new();
    let mut i: usize = 0;
    while i < times_ms.len()
        invariant
            i <= times_ms@.len(),
            events@.len() == i,
            forall|k: int|
                0 <= k < i ==> (#[trigger] events@[k]).0 == k && events@[k].1 == times_ms@[k],
        decreases times_ms@.len() - i,
    {
        events.push((i as u64, times_ms[i]));
        i = i + 1;
    }
    events
}

/// `report` is the report on timestamps that belong together by position.
pub open spec fn is_report_by_position<A: Statistical>(
    display_ms: Seq<A::Value>,
    camera_ms: Seq<A::Value>,
    report: LatencyReport<A::Value>,
) -> bool {
    &&& report.samples@.len() == min(display_ms.len() as int, camera_ms.len() as int)
    &&& forall|k: int|
        0 <= k < report.samples@.len() ==> {
            let sample = #[trigger] report.samples@[k];
            &&& sample.transition_id == k
            &&& sample.display_ms == display_ms[k]
            &&& sample.camera_ms == camera_ms[k]
            &&& is_difference::<A>(camera_ms[k], display_ms[k], sample.latency_ms)
        }
    &&& is_summary::<A>(latencies(report.samples@), report.stats)
    &&& report.dropped_display_events == display_ms.len() - report.samples@.len()
    &&& report.dropped_camera_events == camera_ms.len() - report.samples@.len()
}

/// The report on timestamps that belong together by position: the `k`-th camera
/// timestamp is that of the `k`-th displayed transition.
pub fn build_report_from_ms<A: Statistical>(
    display_ms: Vec<A::Value>,
    camera_ms: Vec<A::Value>,
) -> (report: LatencyReport<A::Value>)
    ensures
        is_report_by_position::<A>(display_ms@, camera_ms@, report),
{
    let display_events_ms = number_events(&display_ms);
    let camera_events_ms = number_events(&camera_ms);
    proof {
        law_numbered_logs_match_by_position(
            event_ids(display_events_ms@),
            event_ids(camera_events_ms@),
        );
    }
    build_report::<A>(&MeasurementRun { display_events_ms, camera_events_ms })
}

/// A report accounts for every event: each is part of a sample or counted as dropped.
pub proof fn law_report_accounts_for_every_event<A: Statistical>(
    display: Seq<(u64, A::Value)>,
    camera: Seq<(u64, A::Value)>,
    report: LatencyReport<A::Value>,
)
    requires
        is_report::<A>(display, camera, report),
    ensures
        report.samples@.len() + report.dropped_display_events == display.len(),
        report.samples@.len() + report.dropped_camera_events == camera.len(),
{
}

/// On logs whose ids increase, the sampled transitions are exactly those that
/// were both displayed and seen.
pub proof fn law_samples_are_the_common_ids<A: Statistical>(
    display: Seq<(u64, A::Value)>,
    camera: Seq<(u64, A::Value)>,
    report: LatencyReport<A::Value>,
    id: u64,
)
    requires
        is_report::<A>(display, camera, report),
        is_increasing(event_ids(display)),
        is_increasing(event_ids(camera)),
    ensures
        (exists|k: int|
            0 <= k < report.samples@.len() && (#[trigger] report.samples@[k]).transition_id == id)
            <==> event_ids(display).contains(id) && event_ids(camera).contains(id),
{
    let d = event_ids(display);
    let c = event_ids(camera);
    let m = alignment(d, c);
    law_matches_pair_equal_ids(d, c);
    if exists|k: int|
        0 <= k < report.samples@.len() && (#[trigger] report.samples@[k]).transition_id == id {
        let k = choose|k: int|
            0 <= k < report.samples@.len() && (#[trigger] report.samples@[k]).transition_id == id;
        assert(d[m[k].0] == id);
        assert(c[m[k].1] == id);
    }
    if d.contains(id) && c.contains(id) {
        let i = choose|i: int| 0 <= i < d.len() && d[i] == id;
        let j = choose|j: int| 0 <= j < c.len() && c[j] == id;
        law_common_ids_are_matched(d, c, i, j);
        let k = choose|k: int| 0 <= k < m.len() && m[k] == (i, j);
        assert(report.samples@[k].transition_id == id);
    }
}

proof fn lemma_arranged_multiset<V>(values: Seq<V>, order: Seq<usize>)
    requires
        order.len() == values.len() <= usize::MAX,
        order.no_duplicates(),
        forall|i: int| 0 <= i < order.len() ==> #[trigger] order[i] < order.len(),
    ensures
        arranged(values, order).to_multiset() == values.to_multiset(),
    decreases values.len(),
{
    broadcast use vstd::seq_lib::group_to_multiset_ensures;

    if values.len() == 0 {
        assert(arranged(values, order) == values);
    } else {
        let last = (values.len() - 1) as usize;
        lemma_distinct_positions_cover(order, last);
        let k = choose|k: int| 0 <= k < order.len() && order[k] == last;
        let fewer = order.remove(k);
        assert forall|i: int| 0 <= i < fewer.len() implies #[trigger] fewer[i] < fewer.len() by {
            let source = if i < k {
                i
            } else {
                i + 1
            };
            assert(fewer[i] == order[source]);
            assert(order[source] != order[k]);
        }
        lemma_arranged_multiset(values.drop_last(), fewer);
        let all = arranged(values, order);
        assert(all.remove(k) == arranged(values.drop_last(), fewer));
        assert(all.contains(all[k]));
        assert(all.to_multiset() == all.remove(k).to_multiset().insert(all[k]));
        assert(values == values.drop_last().push(all[k]));
    }
}

/// Sorting rearranges the values: it adds none and loses none.
pub proof fn law_sorting_rearranges<A: Statistical>(
    values: Seq<A::Value>,
    sorted: Seq<A::Value>,
)
    requires
        values.len() <= usize::MAX,
        is_sorted::<A>(values, sorted),
    ensures
        sorted.len() == values.len(),
        sorted.to_multiset() == values.to_multiset(),
{
    let (keys, order) = choose|keys: Seq<i64>, order: Seq<usize>|
        {
            &&& are_order_keys::<A>(values, keys)
            &&& #[trigger] is_stable_order(keys, order)
            &&& sorted == arranged(values, order)
        };
    law_stable_order_is_a_permutation(keys, order);
    lemma_arranged_multiset(values, order);
}

/// The reported minimum and maximum are latencies of the samples, and no
/// latency orders before the minimum or after the maximum.
pub proof fn law_extremes_bound_the_latencies<A: Statistical>(
    values: Seq<A::Value>,
    stats: SummaryStats<A::Value>,
)
    requires
        values.len() <= usize::MAX,
        is_summary::<A>(values, Some(stats)),
    ensures
        values.contains(stats.min_ms),
        values.contains(stats.max_ms),
        exists|keys: Seq<i64>, low: i64, high: i64|
            {
                &&& #[trigger] are_order_keys::<A>(values, keys)
                &&& #[trigger] is_order_key::<A>(stats.min_ms, low)
                &&& #[trigger] is_order_key::<A>(stats.max_ms, high)
                &&& forall|i: int| 0 <= i < values.len() ==> low <= #[trigger] keys[i] <= high
            },
{
    let sorted = choose|sorted: Seq<A::Value>| #[trigger]
        is_sorted::<A>(values, sorted) && is_summary_of_sorted::<A>(sorted, stats);
    let (keys, order) = choose|keys: Seq<i64>, order: Seq<usize>|
        {
            &&& are_order_keys::<A>(values, keys)
            &&& #[trigger] is_stable_order(keys, order)
            &&& sorted == arranged(values, order)
        };
    law_stable_order_is_a_permutation(keys, order);
    let n = values.len() as int;
    let low = keys[order[0] as int];
    let high = keys[order[n - 1] as int];
    assert(sorted[0] == values[order[0] as int]);
    assert(sorted[n - 1] == values[order[n - 1] as int]);
    assert(is_order_key::<A>(stats.min_ms, low));
    assert(is_order_key::<A>(stats.max_ms, high));
    assert(are_order_keys::<A>(values, keys));
    assert forall|i: int| 0 <= i < n implies low <= #[trigger] keys[i] <= high by {
        assert(order.contains(i as usize));
        let k = choose|k: int| 0 <= k < order.len() && order[k] == i as usize;
        assert(order[k] == i);
    }
}

/// The percentiles run from the first to the last of the sorted values, also where
/// the part is more than the whole.
pub proof fn law_percentiles_span_the_values<A: Arithmetic>(
    sorted: Seq<A::Value>,
    num: u64,
    den: u64,
    r: A::Value,
)
    requires
        sorted.len() > 0,
        den > 0,
        is_percentile::<A>(sorted, num, den, r),
    ensures
        num == 0 ==> r == sorted.first(),
        num >= den ==> r == sorted.last(),
{
    let n = sorted.len() - 1;
    let d = den as int;
    assert(n * 0 == 0 && 0int / d == 0 && 0int % d == 0) by (nonlinear_arith)
        requires
            d > 0,
    ;
    lemma_fundamental_div_mod_converse(n * d, d, n, 0);
    assert(n * d == d * n) by (nonlinear_arith);
}

/// A single latency is its own median, 95th percentile, minimum and maximum.
pub proof fn law_single_latency<A: Statistical>(v: A::Value, stats: SummaryStats<A::Value>)
    requires
        is_summary::<A>(seq![v], Some(stats)),
    ensures
        stats.count == 1,
        stats.median_ms == v,
        stats.p95_ms == v,
        stats.min_ms == v,
        stats.max_ms == v,
{
    let values = seq![v];
    let sorted = choose|sorted: Seq<A::Value>| #[trigger]
        is_sorted::<A>(values, sorted) && is_summary_of_sorted::<A>(sorted, stats);
    law_sorting_rearranges::<A>(values, sorted);
    law_extremes_bound_the_latencies::<A>(values, stats);
}

/// The transitions of the samples.
pub open spec fn sample_ids<V>(samples: Seq<LatencySample<V>>) -> Seq<u64> {
    samples.map_values(|s: LatencySample<V>| s.transition_id)
}

/// On logs whose ids do not decrease, each transition is sampled as often as it
/// occurs in both logs.
pub proof fn law_repeated_ids_are_sampled<A: Statistical>(
    display: Seq<(u64, A::Value)>,
    camera: Seq<(u64, A::Value)>,
    report: LatencyReport<A::Value>,
    id: u64,
)
    requires
        is_report::<A>(display, camera, report),
        is_nondecreasing(event_ids(display)),
        is_nondecreasing(event_ids(camera)),
    ensures
        occurrences(sample_ids(report.samples@), id) == min(
            occurrences(event_ids(display), id),
            occurrences(event_ids(camera), id),
        ),
{
    let d = event_ids(display);
    let c = event_ids(camera);
    law_matches_pair_equal_ids(d, c);
    law_repeated_ids_are_matched(d, c, id);
    assert(sample_ids(report.samples@) == matched_ids(d, alignment(d, c)));
}

/// Exchanging the two logs exchanges the numbers of dropped events, keeps the
/// sampled transitions, and exchanges the operands of each latency. Where taking
/// two values from one another gives opposite results, so are the latencies.
pub proof fn law_exchanged_logs<A: Statistical>(
    display: Seq<(u64, A::Value)>,
    camera: Seq<(u64, A::Value)>,
    report: LatencyReport<A::Value>,
    turned: LatencyReport<A::Value>,
    is_opposite: spec_fn(A::Value, A::Value) -> bool,
)
    requires
        is_report::<A>(display, camera, report),
        is_report::<A>(camera, display, turned),
    ensures
        turned.dropped_display_events == report.dropped_camera_events,
        turned.dropped_camera_events == report.dropped_display_events,
        turned.samples@.len() == report.samples@.len(),
        forall|k: int|
            0 <= k < report.samples@.len() ==> {
                let a = #[trigger] report.samples@[k];
                let b = turned.samples@[k];
                &&& b.transition_id == a.transition_id
                &&& b.display_ms == a.camera_ms
                &&& b.camera_ms == a.display_ms
                &&& is_difference::<A>(a.camera_ms, a.display_ms, a.latency_ms)
                &&& is_difference::<A>(a.display_ms, a.camera_ms, b.latency_ms)
            },
        (forall|a: A::Value, b: A::Value, r: A::Value, s: A::Value| #[trigger]
            is_difference::<A>(a, b, r) && #[trigger] is_difference::<A>(b, a, s) ==> is_opposite(
                r,
                s,
            )) ==> forall|k: int|
            0 <= k < report.samples@.len() ==> is_opposite(
                (#[trigger] report.samples@[k]).latency_ms,
                turned.samples@[k].latency_ms,
            ),
{
    let d = event_ids(display);
    let c = event_ids(camera);
    let m = alignment(d, c);
    law_matches_pair_equal_ids(d, c);
    law_matching_is_symmetric(d, c);
    assert forall|k: int| 0 <= k < report.samples@.len() implies {
        let a = #[trigger] report.samples@[k];
        let b = turned.samples@[k];
        &&& b.transition_id == a.transition_id
        &&& b.display_ms == a.camera_ms
        &&& b.camera_ms == a.display_ms
        &&& is_difference::<A>(a.camera_ms, a.display_ms, a.latency_ms)
        &&& is_difference::<A>(a.display_ms, a.camera_ms, b.latency_ms)
    } by {
        assert(alignment(c, d)[k] == (m[k].1, m[k].0));
        assert(d[m[k].0] == c[m[k].1]);
    }
}

} // verus!
