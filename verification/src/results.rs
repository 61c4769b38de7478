//! The reports on the runs of a measurement, and the result that is handed out.

use vstd::prelude::*;

use crate::analysis::{
    build_report, summarize, LatencyReport, LatencySample, MeasurementRun, SummaryStats,
};
#[allow(unused_imports)]
use crate::analysis::{
    is_report, is_sorted, is_summary, is_summary_of_sorted, latencies, law_sorting_rearranges,
};
#[allow(unused_imports)]
use crate::arithmetic::{is_exact, is_fraction};
use crate::arithmetic::{fraction, Arithmetic, Statistical};
#[allow(unused_imports)]
use crate::figures::{
    keys_follow_numbers, latency_number, law_mean_and_deviation_in_numbers, law_samples_in_numbers,
    law_statistics_cover_the_samples, roots_are_exact, squared_distance, sum_of,
};
#[allow(unused_imports)]
use crate::logs::{count_before, events_of, is_ordered_log};
use crate::session::{run_count, FrameCount, RunMode, SharedState, TransitionEvent};
#[allow(unused_imports)]
use crate::session::{planned_runs, RunPhase};

verus! {

/// The result of a measurement.
#[derive(Debug, Clone)]
pub struct ResultEnvelope<V> {
    pub mode: RunMode,
    pub offline_runs: u32,
    pub report: LatencyReport<V>,
    pub per_run_stats: Vec<Option<SummaryStats<V>>>,
    /// The share of torn frames among those that were read, if any was.
    pub torn_frame_ratio: Option<V>,
    pub notice: String,
}

/// `report` is the report on one run of the measurement.
pub open spec fn is_run_report<A: Statistical>(
    state: SharedState<A::Value>,
    run: u32,
    report: LatencyReport<A::Value>,
) -> bool {
    is_report::<A>(
        events_of(state.display_events@, run),
        events_of(state.camera_events@, run),
        report,
    )
}

/// `reports` are the reports on the first runs of the measurement, one by one.
pub open spec fn are_run_reports<A: Statistical>(
    state: SharedState<A::Value>,
    reports: Seq<LatencyReport<A::Value>>,
) -> bool {
    forall|r: int|
        0 <= r < reports.len() ==> is_run_report::<A>(state, r as u32, #[trigger] reports[r])
}

/// The samples of all reports, in order.
pub open spec fn all_samples<V>(reports: Seq<LatencyReport<V>>) -> Seq<LatencySample<V>>
    decreases reports.len(),
{
    if reports.len() == 0 {
        Seq::empty()
    } else {
        all_samples(reports.drop_last()) + reports.last().samples@
    }
}

/// The displayed events that all reports together count as dropped.
pub open spec fn all_dropped_display<V>(reports: Seq<LatencyReport<V>>) -> int
    decreases reports.len(),
{
    if reports.len() == 0 {
        0
    } else {
        all_dropped_display(reports.drop_last()) + reports.last().dropped_display_events
    }
}

/// The camera events that all reports together count as dropped.
pub open spec fn all_dropped_camera<V>(reports: Seq<LatencyReport<V>>) -> int
    decreases reports.len(),
{
    if reports.len() == 0 {
        0
    } else {
        all_dropped_camera(reports.drop_last()) + reports.last().dropped_camera_events
    }
}

/// `report` gathers `reports`: their samples, with statistics over all of them,
/// and their dropped events.
pub open spec fn is_aggregate<A: Statistical>(
    reports: Seq<LatencyReport<A::Value>>,
    report: LatencyReport<A::Value>,
) -> bool {
    &&& report.samples@ == all_samples(reports)
    &&& is_summary::<A>(latencies(report.samples@), report.stats)
    &&& report.dropped_display_events == all_dropped_display(reports)
    &&& report.dropped_camera_events == all_dropped_camera(reports)
}

/// The statistics of each report.
pub open spec fn stats_of<V>(reports: Seq<LatencyReport<V>>) -> Seq<Option<SummaryStats<V>>> {
    reports.map_values(|r: LatencyReport<V>| r.stats)
}

/// `report` and `per_run_stats` are the outcome of a measurement: in online mode
/// the report on its one run, in offline mode the planned runs gathered.
pub open spec fn is_mode_report<A: Statistical>(
    mode: RunMode,
    offline_runs: u32,
    state: SharedState<A::Value>,
    report: LatencyReport<A::Value>,
    per_run_stats: Seq<Option<SummaryStats<A::Value>>>,
) -> bool {
    match mode {
        RunMode::Online => {
            &&& is_run_report::<A>(state, 0, report)
            &&& per_run_stats == seq![report.stats]
        },
        RunMode::Offline => exists|reports: Seq<LatencyReport<A::Value>>|
            {
                &&& #[trigger] are_run_reports::<A>(state, reports)
                &&& reports.len() == planned_runs(offline_runs)
                &&& per_run_stats == stats_of(reports)
                &&& is_aggregate::<A>(reports, report)
            },
    }
}

/// The events of one run.
fn select_run<V: Copy>(log: &Vec<TransitionEvent<V>>, run: u32) -> (events: Vec<(u64, V)>)
    ensures
        events@ == events_of(log@, run),
{
    let mut events: Vec<(u64, V)> = Vec::new();
    let mut i: usize = 0;
    while i < log.len()
        invariant
            i <= log@.len(),
            events@ == events_of(log@.take(i as int), run),
        decreases log@.len() - i,
    {
        let e = log[i];
        assert(log@.take(i + 1).drop_last() == log@.take(i as int));
        if e.run == run {
            events.push((e.id, e.ms));
        }
        i = i + 1;
    }
    assert(log@.take(i as int) == log@);
    events
}

/// The report on one run of a measurement.
pub fn build_report_for_run<A: Statistical>(state: &SharedState<A::Value>, run: u32) -> (report:
    LatencyReport<A::Value>)
    ensures
        is_run_report::<A>(*state, run, report),
{
    let measurement_run = MeasurementRun {
        display_events_ms: select_run(&state.display_events, run),
        camera_events_ms: select_run(&state.camera_events, run),
    };
    build_report::<A>(&measurement_run)
}

proof fn lemma_count_next<V>(log: Seq<TransitionEvent<V>>, run: u32)
    ensures
        count_before(log, run + 1) == count_before(log, run as int) + events_of(log, run).len(),
    decreases log.len(),
{
    if log.len() > 0 {
        lemma_count_next(log.drop_last(), run);
    }
}

proof fn lemma_count_bound<V>(log: Seq<TransitionEvent<V>>, run: int)
    ensures
        count_before(log, run) <= log.len(),
    decreases log.len(),
{
    if log.len() > 0 {
        lemma_count_bound(log.drop_last(), run);
    }
}

proof fn lemma_count_none<V>(log: Seq<TransitionEvent<V>>)
    ensures
        count_before(log, 0) == 0,
    decreases log.len(),
{
    if log.len() > 0 {
        lemma_count_none(log.drop_last());
    }
}

/// The outcome of a measurement: the report, and the statistics of each run.
pub fn build_mode_report<A: Statistical>(
    mode: RunMode,
    offline_runs: u32,
    state: &SharedState<A::Value>,
) -> (r: (LatencyReport<A::Value>, Vec<Option<SummaryStats<A::Value>>>))
    ensures
        is_mode_report::<A>(mode, offline_runs, *state, r.0, r.1@),
{
    if mode == RunMode::Online {
        let report = build_report_for_run::<A>(state, 0);
        let mut per_run_stats: Vec<Option<SummaryStats<A::Value>>> = Vec::new();
        per_run_stats.push(report.stats);
        assert(per_run_stats@ == seq![report.stats]);
        return (report, per_run_stats);
    }
    let runs: u32 = run_count(offline_runs);
    let mut per_run_stats: Vec<Option<SummaryStats<A::Value>>> = Vec::new();
    let mut samples: Vec<LatencySample<A::Value>> = Vec::new();
    let mut dropped_display_events: usize = 0;
    let mut dropped_camera_events: usize = 0;
    let ghost mut reports: Seq<LatencyReport<A::Value>> = Seq::empty();
    let mut run: u32 = 0;
    let display_count: usize = state.display_events.len();
    let camera_count: usize = state.camera_events.len();
    while run < runs
        invariant
            run <= runs,
            display_count == state.display_events@.len(),
            camera_count == state.camera_events@.len(),
            reports.len() == run,
            are_run_reports::<A>(*state, reports),
            per_run_stats@ == stats_of(reports),
            samples@ == all_samples(reports),
            dropped_display_events == all_dropped_display(reports),
            dropped_camera_events == all_dropped_camera(reports),
            dropped_display_events <= count_before(state.display_events@, run as int),
            dropped_camera_events <= count_before(state.camera_events@, run as int),
        decreases runs - run,
    {
        let report = build_report_for_run::<A>(state, run);
        let ghost before = reports;
        proof {
            reports = before.push(report);
            assert(reports.drop_last() == before);
            lemma_count_next(state.display_events@, run);
            lemma_count_next(state.camera_events@, run);
            lemma_count_bound(state.display_events@, run + 1);
            lemma_count_bound(state.camera_events@, run + 1);
        }
        per_run_stats.push(report.stats);
        assert(per_run_stats@ == stats_of(reports));
        dropped_display_events = dropped_display_events + report.dropped_display_events;
        dropped_camera_events = dropped_camera_events + report.dropped_camera_events;
        let ghost earlier = samples@;
        let mut i: usize = 0;
        while i < report.samples.len()
            invariant
                i <= report.samples@.len(),
                samples@ == earlier + report.samples@.take(i as int),
            decreases report.samples@.len() - i,
        {
            samples.push(report.samples[i]);
            i = i + 1;
            assert(samples@ == earlier + report.samples@.take(i as int));
        }
        assert(report.samples@.take(i as int) == report.samples@);
        run = run + 1;
    }
    let stats = summarize::<A>(samples.as_slice());
    let report = LatencyReport { samples, stats, dropped_display_events, dropped_camera_events };
    assert(are_run_reports::<A>(*state, reports));
    (report, per_run_stats)
}

/// What the status display says about the measurement.
#[derive(Debug, Clone, Copy)]
pub enum StatusLine<V> {
    Empty,
    /// The statistics so far.
    RealtimeLatency(SummaryStats<V>),
    /// The pause between two runs.
    Settling,
}

/// `line` is the status of the measurement.
pub open spec fn is_status<A: Statistical>(
    mode: RunMode,
    state: SharedState<A::Value>,
    line: StatusLine<A::Value>,
) -> bool {
    match mode {
        RunMode::Online => exists|report: LatencyReport<A::Value>| #[trigger]
            is_run_report::<A>(state, 0, report) && line == match report.stats {
                Some(stats) => StatusLine::RealtimeLatency(stats),
                None => StatusLine::Empty,
            },
        RunMode::Offline => line == if state.phase.capture_active {
            StatusLine::<A::Value>::Empty
        } else {
            StatusLine::<A::Value>::Settling
        },
    }
}

/// The status of the measurement: the statistics of an online run as soon as
/// there are some, and the pauses of an offline measurement.
pub fn status_line<A: Statistical>(mode: RunMode, state: &SharedState<A::Value>) -> (line: StatusLine<
    A::Value,
>)
    ensures
        is_status::<A>(mode, *state, line),
{
    if mode == RunMode::Online {
        let report = build_report_for_run::<A>(state, 0);
        assert(is_run_report::<A>(*state, 0, report));
        match report.stats {
            Some(stats) => StatusLine::RealtimeLatency(stats),
            None => StatusLine::Empty,
        }
    } else if !state.phase.capture_active {
        StatusLine::Settling
    } else {
        StatusLine::Empty
    }
}

/// The advice that goes with every result.
pub const NOTICE: &'static str =
    "Select ROI in camera view so the detector only tracks the displayed pattern. Disable AE if possible.";

/// `ratio` is the share of torn frames among those that were read; there is none
/// where none was read.
pub open spec fn is_torn_ratio<A: Arithmetic>(frames: FrameCount, ratio: Option<A::Value>) -> bool {
    match ratio {
        None => frames.read == 0,
        Some(r) => frames.read > 0 && is_fraction::<A>(frames.torn, frames.read, r),
    }
}

/// The share of torn frames among those that were read.
pub fn torn_frame_ratio<A: Arithmetic>(frames: FrameCount) -> (ratio: Option<A::Value>)
    ensures
        is_torn_ratio::<A>(frames, ratio),
{
    if frames.read == 0 {
        None
    } else {
        Some(fraction::<A>(frames.torn, frames.read))
    }
}

/// `envelope` is the outcome of a measurement together with its setup.
pub open spec fn is_envelope<A: Arithmetic>(
    mode: RunMode,
    offline_runs: u32,
    report: LatencyReport<A::Value>,
    per_run_stats: Vec<Option<SummaryStats<A::Value>>>,
    frames: FrameCount,
    envelope: ResultEnvelope<A::Value>,
) -> bool {
    &&& envelope.mode == mode
    &&& envelope.offline_runs == planned_runs(offline_runs)
    &&& envelope.report == report
    &&& envelope.per_run_stats == per_run_stats
    &&& is_torn_ratio::<A>(frames, envelope.torn_frame_ratio)
    &&& envelope.notice@ == NOTICE@
}

/// Puts the outcome of a measurement together with its setup.
pub fn result_envelope<A: Arithmetic>(
    mode: RunMode,
    offline_runs: u32,
    report: LatencyReport<A::Value>,
    per_run_stats: Vec<Option<SummaryStats<A::Value>>>,
    frames: FrameCount,
) -> (envelope: ResultEnvelope<A::Value>)
    ensures
        is_envelope::<A>(mode, offline_runs, report, per_run_stats, frames, envelope),
{
    ResultEnvelope {
        mode,
        offline_runs: run_count(offline_runs),
        report,
        per_run_stats,
        torn_frame_ratio: torn_frame_ratio::<A>(frames),
        notice: NOTICE.to_string(),
    }
}

proof fn lemma_reports_account<A: Statistical>(
    state: SharedState<A::Value>,
    reports: Seq<LatencyReport<A::Value>>,
)
    requires
        are_run_reports::<A>(state, reports),
        reports.len() <= u32::MAX,
    ensures
        all_samples(reports).len() + all_dropped_display(reports) == count_before(
            state.display_events@,
            reports.len() as int,
        ),
        all_samples(reports).len() + all_dropped_camera(reports) == count_before(
            state.camera_events@,
            reports.len() as int,
        ),
    decreases reports.len(),
{
    if reports.len() == 0 {
        lemma_count_none(state.display_events@);
        lemma_count_none(state.camera_events@);
    } else {
        let last = (reports.len() - 1) as u32;
        assert(are_run_reports::<A>(state, reports.drop_last())) by {
            assert forall|r: int| 0 <= r < reports.drop_last().len() implies is_run_report::<A>(
                state,
                r as u32,
                #[trigger] reports.drop_last()[r],
            ) by {
                assert(reports.drop_last()[r] == reports[r]);
            }
        }
        lemma_reports_account::<A>(state, reports.drop_last());
        assert(is_run_report::<A>(state, last, reports[last as int]));
        lemma_count_next(state.display_events@, last);
        lemma_count_next(state.camera_events@, last);
    }
}

proof fn lemma_count_all<V>(log: Seq<TransitionEvent<V>>, run: int)
    requires
        forall|i: int| 0 <= i < log.len() ==> (#[trigger] log[i]).run < run,
    ensures
        count_before(log, run) == log.len(),
    decreases log.len(),
{
    if log.len() > 0 {
        assert(log[log.len() - 1].run < run);
        assert forall|i: int| 0 <= i < log.drop_last().len() implies (#[trigger] log.drop_last()[i]).run
            < run by {
            assert(log.drop_last()[i] == log[i]);
        }
        lemma_count_all(log.drop_last(), run);
    }
}

proof fn lemma_logs_are_counted<V>(state: SharedState<V>, runs: int)
    requires
        is_ordered_log(state.phase, state.display_events@),
        is_ordered_log(state.phase, state.camera_events@),
        state.phase.current_run < runs,
    ensures
        count_before(state.display_events@, runs) == state.display_events@.len(),
        count_before(state.camera_events@, runs) == state.camera_events@.len(),
{
    lemma_log_is_counted(state.phase, state.display_events@, runs);
    lemma_log_is_counted(state.phase, state.camera_events@, runs);
}

proof fn lemma_log_is_counted<V>(phase: RunPhase, log: Seq<TransitionEvent<V>>, runs: int)
    requires
        is_ordered_log(phase, log),
        phase.current_run < runs,
    ensures
        count_before(log, runs) == log.len(),
{
    assert forall|i: int| 0 <= i < log.len() implies (#[trigger] log[i]).run < runs by {
        assert(log[log.len() - 1].run <= phase.current_run);
        if i < log.len() - 1 {
            assert(log[i].run <= log[log.len() - 1].run);
        }
    }
    lemma_count_all(log, runs);
}

/// The outcome of an offline measurement leaves out no event: all that was shown,
/// and all that was seen, is part of a sample or counted as dropped.
pub proof fn law_offline_report_accounts_for_every_event<A: Statistical>(
    offline_runs: u32,
    state: SharedState<A::Value>,
    report: LatencyReport<A::Value>,
    per_run_stats: Seq<Option<SummaryStats<A::Value>>>,
)
    requires
        is_mode_report::<A>(RunMode::Offline, offline_runs, state, report, per_run_stats),
        is_ordered_log(state.phase, state.display_events@),
        is_ordered_log(state.phase, state.camera_events@),
        state.phase.current_run < planned_runs(offline_runs),
    ensures
        per_run_stats.len() == planned_runs(offline_runs),
        report.samples@.len() + report.dropped_display_events == state.display_events@.len(),
        report.samples@.len() + report.dropped_camera_events == state.camera_events@.len(),
{
    let reports = choose|reports: Seq<LatencyReport<A::Value>>|
        {
            &&& #[trigger] are_run_reports::<A>(state, reports)
            &&& reports.len() == planned_runs(offline_runs)
            &&& per_run_stats == stats_of(reports)
            &&& is_aggregate::<A>(reports, report)
        };
    lemma_reports_account::<A>(state, reports);
    lemma_logs_are_counted(state, reports.len() as int);
}

/// The outcome of an online measurement leaves out no event either.
pub proof fn law_online_report_accounts_for_every_event<A: Statistical>(
    offline_runs: u32,
    state: SharedState<A::Value>,
    report: LatencyReport<A::Value>,
    per_run_stats: Seq<Option<SummaryStats<A::Value>>>,
)
    requires
        is_mode_report::<A>(RunMode::Online, offline_runs, state, report, per_run_stats),
        is_ordered_log(state.phase, state.display_events@),
        is_ordered_log(state.phase, state.camera_events@),
        state.phase.current_run == 0,
    ensures
        per_run_stats == seq![report.stats],
        report.samples@.len() + report.dropped_display_events == state.display_events@.len(),
        report.samples@.len() + report.dropped_camera_events == state.camera_events@.len(),
{
    lemma_logs_are_counted(state, 1);
    lemma_count_none(state.display_events@);
    lemma_count_none(state.camera_events@);
    lemma_count_next(state.display_events@, 0);
    lemma_count_next(state.camera_events@, 0);
}

/// The summary of latencies counts all of them, and there is none of no latencies.
proof fn lemma_summary_counts<A: Statistical>(report: LatencyReport<A::Value>)
    requires
        is_summary::<A>(latencies(report.samples@), report.stats),
    ensures
        report.stats is None <==> report.samples@.len() == 0,
        report.stats matches Some(stats) ==> stats.count == report.samples@.len(),
{
    let values = latencies(report.samples@);
    assert(report.samples.len() == report.samples@.len());
    if let Some(stats) = report.stats {
        let sorted = choose|sorted: Seq<A::Value>| #[trigger]
            is_sorted::<A>(values, sorted) && is_summary_of_sorted::<A>(sorted, stats);
        law_sorting_rearranges::<A>(values, sorted);
    }
}

/// The statistics of the outcome are those of all its samples, in either mode: there
/// are none exactly where there is no sample, and else their count is the number of
/// the samples.
pub proof fn law_outcome_summarizes_its_samples<A: Statistical>(
    mode: RunMode,
    offline_runs: u32,
    state: SharedState<A::Value>,
    report: LatencyReport<A::Value>,
    per_run_stats: Seq<Option<SummaryStats<A::Value>>>,
)
    requires
        is_mode_report::<A>(mode, offline_runs, state, report, per_run_stats),
    ensures
        is_summary::<A>(
            report.samples@.map_values(|s: LatencySample<A::Value>| s.latency_ms),
            report.stats,
        ),
        report.stats is None <==> report.samples@.len() == 0,
        report.stats matches Some(stats) ==> stats.count == report.samples@.len(),
{
    assert(latencies(report.samples@) == report.samples@.map_values(
        |s: LatencySample<A::Value>| s.latency_ms,
    ));
    lemma_summary_counts::<A>(report);
}

/// The mean of the outcome, times the number of its samples, is the sum of their
/// latencies, and no latency is below the minimum or above the maximum. The square of
/// the standard deviation, times that number, is the sum of the squares of their
/// distances from the mean.
pub proof fn law_outcome_in_numbers<A: Statistical>(
    mode: RunMode,
    offline_runs: u32,
    state: SharedState<A::Value>,
    report: LatencyReport<A::Value>,
    per_run_stats: Seq<Option<SummaryStats<A::Value>>>,
    stats: SummaryStats<A::Value>,
    number: spec_fn(A::Value) -> real,
)
    requires
        is_exact::<A>(number),
        roots_are_exact::<A>(number),
        keys_follow_numbers::<A>(number),
        is_mode_report::<A>(mode, offline_runs, state, report, per_run_stats),
        report.stats == Some(stats),
    ensures
        number(stats.mean_ms) * (report.samples@.len() as real) == sum_of(
            report.samples@,
            latency_number(number),
        ),
        number(stats.stddev_ms) * number(stats.stddev_ms) * (report.samples@.len() as real)
            == sum_of(latencies(report.samples@), squared_distance(number, stats.mean_ms)),
        forall|k: int|
            0 <= k < report.samples@.len() ==> number(stats.min_ms) <= number(
                (#[trigger] report.samples@[k]).latency_ms,
            ) <= number(stats.max_ms),
{
    assert(report.samples.len() == report.samples@.len());
    law_statistics_cover_the_samples::<A>(report.samples@, report.stats, number);
    law_mean_and_deviation_in_numbers::<A>(latencies(report.samples@), stats, number);
}

proof fn lemma_all_samples_are_joined<V>(reports: Seq<LatencyReport<V>>)
    ensures
        all_samples(reports) == reports.map_values(
            |r: LatencyReport<V>| r.samples@,
        ).flatten_alt(),
    decreases reports.len(),
{
    let parts = reports.map_values(|r: LatencyReport<V>| r.samples@);
    if reports.len() > 0 {
        lemma_all_samples_are_joined(reports.drop_last());
        assert(parts.drop_last() == reports.drop_last().map_values(
            |r: LatencyReport<V>| r.samples@,
        ));
    }
}

proof fn lemma_all_dropped_are_added<V>(reports: Seq<LatencyReport<V>>)
    ensures
        all_dropped_display(reports) == reports.fold_left(
            0int,
            |n: int, r: LatencyReport<V>| n + r.dropped_display_events,
        ),
        all_dropped_camera(reports) == reports.fold_left(
            0int,
            |n: int, r: LatencyReport<V>| n + r.dropped_camera_events,
        ),
    decreases reports.len(),
{
    if reports.len() > 0 {
        lemma_all_dropped_are_added(reports.drop_last());
    }
}

/// The outcome of an offline measurement joins the reports on its planned runs, of
/// which there is at least one: the samples of run after run, none left out, the
/// statistics of each run, and the dropped events of all of them.
pub proof fn law_offline_outcome_joins_the_runs<A: Statistical>(
    offline_runs: u32,
    state: SharedState<A::Value>,
    report: LatencyReport<A::Value>,
    per_run_stats: Seq<Option<SummaryStats<A::Value>>>,
)
    requires
        is_mode_report::<A>(RunMode::Offline, offline_runs, state, report, per_run_stats),
    ensures
        per_run_stats.len() == if offline_runs == 0 {
            1
        } else {
            offline_runs as int
        },
        exists|reports: Seq<LatencyReport<A::Value>>|
            {
                &&& #[trigger] are_run_reports::<A>(state, reports)
                &&& reports.len() == per_run_stats.len()
                &&& forall|r: int|
                    0 <= r < reports.len() ==> is_run_report::<A>(
                        state,
                        r as u32,
                        #[trigger] reports[r],
                    ) && per_run_stats[r] == reports[r].stats
                &&& report.samples@ == reports.map_values(
                    |r: LatencyReport<A::Value>| r.samples@,
                ).flatten()
                &&& report.dropped_display_events == reports.fold_left(
                    0int,
                    |n: int, r: LatencyReport<A::Value>| n + r.dropped_display_events,
                )
                &&& report.dropped_camera_events == reports.fold_left(
                    0int,
                    |n: int, r: LatencyReport<A::Value>| n + r.dropped_camera_events,
                )
            },
{
    let reports = choose|reports: Seq<LatencyReport<A::Value>>|
        {
            &&& #[trigger] are_run_reports::<A>(state, reports)
            &&& reports.len() == planned_runs(offline_runs)
            &&& per_run_stats == stats_of(reports)
            &&& is_aggregate::<A>(reports, report)
        };
    lemma_all_samples_are_joined(reports);
    lemma_all_dropped_are_added(reports);
    let parts = reports.map_values(|r: LatencyReport<A::Value>| r.samples@);
    parts.lemma_flatten_and_flatten_alt_are_equivalent();
}

proof fn lemma_events_are_selected<V>(log: Seq<TransitionEvent<V>>, run: u32)
    ensures
        events_of(log, run) == log.filter(|e: TransitionEvent<V>| e.run == run).map_values(
            |e: TransitionEvent<V>| (e.id, e.ms),
        ),
    decreases log.len(),
{
    reveal(Seq::filter);
    if log.len() > 0 {
        lemma_events_are_selected(log.drop_last(), run);
        let before = log.drop_last().filter(|e: TransitionEvent<V>| e.run == run);
        if log.last().run == run {
            assert(before.push(log.last()).map_values(|e: TransitionEvent<V>| (e.id, e.ms))
                == before.map_values(|e: TransitionEvent<V>| (e.id, e.ms)).push(
                (log.last().id, log.last().ms),
            ));
        }
    }
}

/// The report on a run is the report on the events that either log holds of that run,
/// ids with timestamps, in the order of the log.
pub proof fn law_run_report_is_on_its_events<A: Statistical>(
    state: SharedState<A::Value>,
    run: u32,
    report: LatencyReport<A::Value>,
)
    requires
        is_run_report::<A>(state, run, report),
    ensures
        is_report::<A>(
            state.display_events@.filter(|e: TransitionEvent<A::Value>| e.run == run).map_values(
                |e: TransitionEvent<A::Value>| (e.id, e.ms),
            ),
            state.camera_events@.filter(|e: TransitionEvent<A::Value>| e.run == run).map_values(
                |e: TransitionEvent<A::Value>| (e.id, e.ms),
            ),
            report,
        ),
{
    lemma_events_are_selected(state.display_events@, run);
    lemma_events_are_selected(state.camera_events@, run);
}

proof fn lemma_event_is_logged<V>(log: Seq<TransitionEvent<V>>, run: u32, k: int)
    requires
        0 <= k < events_of(log, run).len(),
    ensures
        log.contains(
            TransitionEvent { run, id: events_of(log, run)[k].0, ms: events_of(log, run)[k].1 },
        ),
    decreases log.len(),
{
    let event = TransitionEvent {
        run,
        id: events_of(log, run)[k].0,
        ms: events_of(log, run)[k].1,
    };
    let shorter = log.drop_last();
    if k < events_of(shorter, run).len() {
        lemma_event_is_logged(shorter, run, k);
        let i = choose|i: int| 0 <= i < shorter.len() && shorter[i] == event;
        assert(log[i] == event);
    } else {
        assert(log[log.len() - 1] == event);
    }
}

/// Every sample of a run tells of two events in the logs, one displayed and one seen,
/// both of that run and of the sample's transition. Its latency is the time from the
/// one to the other.
pub proof fn law_samples_are_of_their_run<A: Statistical>(
    state: SharedState<A::Value>,
    run: u32,
    report: LatencyReport<A::Value>,
    k: int,
    number: spec_fn(A::Value) -> real,
)
    requires
        is_exact::<A>(number),
        is_run_report::<A>(state, run, report),
        0 <= k < report.samples@.len(),
    ensures
        ({
            let s = report.samples@[k];
            let shown = TransitionEvent { run, id: s.transition_id, ms: s.display_ms };
            let seen = TransitionEvent { run, id: s.transition_id, ms: s.camera_ms };
            &&& state.display_events@.contains(shown)
            &&& state.camera_events@.contains(seen)
            &&& number(s.latency_ms) == number(seen.ms) - number(shown.ms)
        }),
{
    let display = events_of(state.display_events@, run);
    let camera = events_of(state.camera_events@, run);
    law_samples_in_numbers::<A>(display, camera, report, number);
    let places = choose|places: Seq<(int, int)>|
        {
            &&& places.len() == report.samples@.len()
            &&& forall|k: int|
                0 <= k < places.len() ==> {
                    let (i, j) = #[trigger] places[k];
                    let s = report.samples@[k];
                    &&& 0 <= i < display.len()
                    &&& 0 <= j < camera.len()
                    &&& display[i] == (s.transition_id, s.display_ms)
                    &&& camera[j] == (s.transition_id, s.camera_ms)
                    &&& number(s.latency_ms) == number(s.camera_ms) - number(s.display_ms)
                }
            &&& forall|k: int, l: int|
                0 <= k < l < places.len() ==> (#[trigger] places[k]).0 < (#[trigger] places[l]).0
                    && places[k].1 < places[l].1
        };
    let (i, j) = places[k];
    lemma_event_is_logged(state.display_events@, run, i);
    lemma_event_is_logged(state.camera_events@, run, j);
}

/// The status of an online measurement is empty as long as its run has no sample, and
/// then the statistics of the samples so far. An offline measurement settles where it
/// does not capture, and has nothing to say while it does.
pub proof fn law_status_tells_of_the_samples<A: Statistical>(
    mode: RunMode,
    state: SharedState<A::Value>,
    line: StatusLine<A::Value>,
)
    requires
        is_status::<A>(mode, state, line),
    ensures
        line is Settling <==> mode == RunMode::Offline && !state.phase.capture_active,
        mode == RunMode::Offline && state.phase.capture_active ==> line is Empty,
        mode == RunMode::Online ==> exists|report: LatencyReport<A::Value>|
            {
                &&& #[trigger] is_run_report::<A>(state, 0, report)
                &&& line is Empty <==> report.samples@.len() == 0
                &&& line matches StatusLine::RealtimeLatency(stats) ==> report.stats == Some(stats)
                    && stats.count == report.samples@.len()
            },
{
    if mode == RunMode::Online {
        let report = choose|report: LatencyReport<A::Value>| #[trigger]
            is_run_report::<A>(state, 0, report) && line == match report.stats {
                Some(stats) => StatusLine::RealtimeLatency(stats),
                None => StatusLine::Empty,
            };
        lemma_summary_counts::<A>(report);
    }
}

/// The result that is handed out holds the outcome as it is, a number of runs that is
/// at least one, and the share of torn frames: times the number of frames read, the
/// number of torn ones.
pub proof fn law_result_in_numbers<A: Arithmetic>(
    mode: RunMode,
    offline_runs: u32,
    report: LatencyReport<A::Value>,
    per_run_stats: Vec<Option<SummaryStats<A::Value>>>,
    frames: FrameCount,
    envelope: ResultEnvelope<A::Value>,
    number: spec_fn(A::Value) -> real,
)
    requires
        is_exact::<A>(number),
        is_envelope::<A>(mode, offline_runs, report, per_run_stats, frames, envelope),
    ensures
        envelope.mode == mode,
        envelope.report == report,
        envelope.per_run_stats == per_run_stats,
        envelope.offline_runs >= 1,
        offline_runs >= 1 ==> envelope.offline_runs == offline_runs,
        offline_runs == 0 ==> envelope.offline_runs == 1,
        envelope.notice@
            == "Select ROI in camera view so the detector only tracks the displayed pattern. Disable AE if possible."@,
        envelope.torn_frame_ratio is None <==> frames.read == 0,
        envelope.torn_frame_ratio matches Some(ratio) ==> number(ratio) * (frames.read as real)
            == frames.torn as real,
{
}

} // verus!
