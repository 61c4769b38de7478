use camera_latency_test::arithmetic::{key_of_bits, Arithmetic, Raster, Statistical};
use camera_latency_test::capture::{
    begin_frame, is_within_jump, jump_limit, read_frame, record_detection, record_reading,
    CaptureCursor, FrameError, FrameRead, FrameTask,
};
use camera_latency_test::detection::FrameReading;
use camera_latency_test::results::{
    build_mode_report, build_report_for_run, result_envelope, status_line, torn_frame_ratio,
    StatusLine,
};
use camera_latency_test::session::{
    check_updatable, elapsed_ns, milliseconds, run_count, update_mode_state, FrameCount, ModeAction,
    RunClock, RunMode, RunPlan, SharedState, TransitionEvent, PAUSE_NS,
};
use camera_latency_test::roi::RoiNorm;
use camera_latency_test::stimulus::state_for;
use camera_latency_test::warmup::{after_warmup, sampled_state};
use camera_latency_test::MeasurementMethod;

struct Ieee;

impl Arithmetic for Ieee {
    type Value = f64;

    fn from_count(n: u64) -> f64 {
        n as f64
    }

    fn plus(a: f64, b: f64) -> f64 {
        a + b
    }

    fn minus(a: f64, b: f64) -> f64 {
        a - b
    }

    fn times(a: f64, b: f64) -> f64 {
        a * b
    }

    fn over(a: f64, b: f64) -> f64 {
        a / b
    }
}

impl Statistical for Ieee {
    fn sqrt(a: f64) -> f64 {
        a.sqrt()
    }

    fn order_key(a: f64) -> i64 {
        key_of_bits(a.to_bits())
    }
}

impl Raster for Ieee {
    fn floor_index(a: f64) -> usize {
        a.floor() as usize
    }

    fn ceil_index(a: f64) -> usize {
        a.ceil() as usize
    }

    fn round_index(a: f64) -> usize {
        a.round() as usize
    }

    fn lesser(a: f64, b: f64) -> f64 {
        a.min(b)
    }

    fn greater(a: f64, b: f64) -> f64 {
        a.max(b)
    }
}

const MS: u64 = 1_000_000;

fn plan(mode: RunMode, offline_runs: u32) -> RunPlan {
    RunPlan { mode, offline_runs, period_ns: 10 * MS }
}

fn event(run: u32, id: u64, ms: f64) -> TransitionEvent<f64> {
    TransitionEvent { run, id, ms }
}

fn ids(log: &[TransitionEvent<f64>]) -> Vec<(u32, u64)> {
    log.iter().map(|e| (e.run, e.id)).collect()
}

#[test]
fn milliseconds_agree_with_durations() {
    for ns in [0u64, 1, 999_999_999, 1_000_000_000, 12_345_678_901, 86_400_000_000_123] {
        let duration = std::time::Duration::from_nanos(ns);
        assert_eq!(milliseconds::<Ieee>(ns), duration.as_secs_f64() * 1000.0);
    }
    assert_eq!(milliseconds::<Ieee>(1_500_000_000), 1500.0);
}

#[test]
fn elapsed_time_is_never_negative() {
    assert_eq!(elapsed_ns(10, 4), 6);
    assert_eq!(elapsed_ns(4, 10), 0);
}

#[test]
fn at_least_one_run_is_made() {
    assert_eq!(run_count(0), 1);
    assert_eq!(run_count(5), 5);
}

#[test]
fn first_update_starts_the_measurement() {
    let mut state = SharedState::<f64>::new(3 * MS);
    let mut clock = RunClock::new(3 * MS);
    assert!(!state.phase.run_started && !state.phase.capture_active);
    let online = plan(RunMode::Online, 1);
    let action = update_mode_state::<Ieee>(&mut state, &mut clock, online, 10.0, 5 * MS);
    assert_eq!(action, ModeAction::Continue);
    assert!(state.phase.run_started && state.phase.capture_active);
    assert_eq!(state.phase.epoch_ns, 5 * MS);
    assert!(state.display_events.is_empty());

    update_mode_state::<Ieee>(&mut state, &mut clock, online, 10.0, 13 * MS);
    assert_eq!(state.phase.epoch_ns, 5 * MS);
    assert_eq!(state.display_events.len(), 1);
    assert_eq!(state.display_events[0].ms, 8.0);
    assert_eq!(clock.last_tick_ns, 13 * MS);
    assert_eq!(state.phase.current_transition_id, 1);
}

#[test]
fn online_run_goes_on() {
    let mut state = SharedState::<f64>::new(0);
    let mut clock = RunClock::new(0);
    for step in 1..200u64 {
        let action = update_mode_state::<Ieee>(
            &mut state,
            &mut clock,
            plan(RunMode::Online, 1),
            0.0,
            step * 10 * MS,
        );
        assert_eq!(action, ModeAction::Continue);
    }
    assert_eq!(state.phase.current_run, 0);
    assert!(state.phase.capture_active && !state.phase.run_finished);
    let expected: Vec<(u32, u64)> = (0..199).map(|id| (0, id)).collect();
    assert_eq!(ids(&state.display_events), expected);
}

#[test]
fn offline_runs_pause_and_end() {
    let mut state = SharedState::<f64>::new(0);
    let mut clock = RunClock::new(0);
    let offline = plan(RunMode::Offline, 2);
    let update = |state: &mut SharedState<f64>, clock: &mut RunClock, now: u64| {
        update_mode_state::<Ieee>(state, clock, offline, 0.025, now)
    };

    assert_eq!(update(&mut state, &mut clock, 10 * MS), ModeAction::Continue);
    assert_eq!(update(&mut state, &mut clock, 20 * MS), ModeAction::Continue);
    assert_eq!(ids(&state.display_events), vec![(0, 0), (0, 1)]);

    assert_eq!(update(&mut state, &mut clock, 35 * MS), ModeAction::Continue);
    assert!(!state.phase.capture_active);
    assert_eq!(clock.pause_until_ns, Some(35 * MS + PAUSE_NS));
    assert_eq!(update(&mut state, &mut clock, 34 * MS + PAUSE_NS), ModeAction::Continue);
    assert_eq!(state.phase.current_run, 0);

    let resumed = 35 * MS + PAUSE_NS;
    assert_eq!(update(&mut state, &mut clock, resumed), ModeAction::Continue);
    assert_eq!(state.phase.current_run, 1);
    assert_eq!(state.phase.current_transition_id, 0);
    assert!(state.phase.capture_active);
    assert_eq!(clock.pause_until_ns, None);
    assert_eq!(update(&mut state, &mut clock, resumed + 10 * MS), ModeAction::Continue);
    assert_eq!(ids(&state.display_events), vec![(0, 0), (0, 1), (1, 0)]);

    let end = resumed + 25 * MS;
    assert_eq!(update(&mut state, &mut clock, end), ModeAction::Close { send_stop: true });
    assert!(state.phase.run_finished && !state.phase.capture_active);
    assert_eq!(update(&mut state, &mut clock, end + 50 * MS), ModeAction::Close { send_stop: false });
    assert_eq!(state.display_events.len(), 3);
}

#[test]
fn duration_is_reached_exactly() {
    let offline = plan(RunMode::Offline, 0);
    let mut state = SharedState::<f64>::new(0);
    let mut clock = RunClock::new(0);
    update_mode_state::<Ieee>(&mut state, &mut clock, offline, 0.5, 0);
    let action = update_mode_state::<Ieee>(&mut state, &mut clock, offline, 0.5, 500 * MS - 1);
    assert_eq!(action, ModeAction::Continue);
    let action = update_mode_state::<Ieee>(&mut state, &mut clock, offline, 0.5, 500 * MS);
    assert_eq!(action, ModeAction::Close { send_stop: true });
}

#[test]
fn frames_are_read_while_capturing() {
    let mut state = SharedState::<f64>::new(0);
    let mut cursor = CaptureCursor::new();
    assert_eq!(begin_frame(&mut cursor, state.phase, true), None);
    assert_eq!(cursor, CaptureCursor::new());

    state.phase.run_started = true;
    state.phase.capture_active = true;
    assert_eq!(begin_frame(&mut cursor, state.phase, false), None);
    assert_eq!(cursor.last_seen_run, Some(0));
    let task = begin_frame(&mut cursor, state.phase, true);
    assert_eq!(task, Some(FrameTask { run: 0, previous_id: None }));

    assert!(record_detection::<Ieee>(&mut state, &mut cursor, 0, 4, 7 * MS));
    assert_eq!(state.camera_events[0].ms, 7.0);
    let task = begin_frame(&mut cursor, state.phase, true);
    assert_eq!(task, Some(FrameTask { run: 0, previous_id: Some(4) }));

    state.phase.current_run = 1;
    let task = begin_frame(&mut cursor, state.phase, true);
    assert_eq!(task, Some(FrameTask { run: 1, previous_id: None }));
    state.phase.run_finished = true;
    assert_eq!(begin_frame(&mut cursor, state.phase, true), None);
}

#[test]
fn late_and_repeated_readings_are_not_logged() {
    let mut state = SharedState::<f64>::new(0);
    let mut cursor = CaptureCursor { last_seen_run: Some(0), last_seen_id: None };
    assert!(!record_detection::<Ieee>(&mut state, &mut cursor, 0, 1, MS));
    state.phase.run_started = true;
    state.phase.capture_active = true;
    assert!(record_detection::<Ieee>(&mut state, &mut cursor, 0, 1, MS));
    assert!(!record_detection::<Ieee>(&mut state, &mut cursor, 0, 1, 2 * MS));
    assert!(!record_detection::<Ieee>(&mut state, &mut cursor, 3, 2, 2 * MS));
    state.phase.run_finished = true;
    assert!(!record_detection::<Ieee>(&mut state, &mut cursor, 0, 2, 2 * MS));
    assert_eq!(ids(&state.camera_events), vec![(0, 1)]);
    assert_eq!(cursor.last_seen_id, Some(1));
}

fn measured() -> SharedState<f64> {
    let mut state = SharedState::<f64>::new(0);
    state.phase.current_run = 1;
    state.phase.current_transition_id = 2;
    state.display_events =
        vec![event(0, 0, 0.0), event(0, 1, 10.0), event(1, 0, 100.0), event(1, 1, 110.0)];
    state.camera_events = vec![event(0, 0, 4.0), event(0, 1, 16.0), event(1, 1, 112.0)];
    state
}

#[test]
fn run_reports_take_the_events_of_the_run() {
    let report = build_report_for_run::<Ieee>(&measured(), 1);
    assert_eq!(report.samples.len(), 1);
    assert_eq!(report.samples[0].transition_id, 1);
    assert_eq!(report.samples[0].latency_ms, 2.0);
    assert_eq!(report.dropped_display_events, 1);
    assert_eq!(report.dropped_camera_events, 0);
}

#[test]
fn online_report_is_that_of_the_first_run() {
    let (report, per_run) = build_mode_report::<Ieee>(RunMode::Online, 7, &measured());
    assert_eq!(report.samples.len(), 2);
    assert_eq!(per_run.len(), 1);
    assert_eq!(per_run[0].unwrap().mean_ms, 5.0);
    assert_eq!(report.stats.unwrap().mean_ms, 5.0);
}

#[test]
fn online_report_accounts_for_every_event() {
    let mut state = measured();
    state.phase.current_run = 0;
    state.display_events.retain(|e| e.run == 0);
    state.camera_events = vec![event(0, 1, 16.0), event(0, 5, 20.0)];
    let (report, _) = build_mode_report::<Ieee>(RunMode::Online, 1, &state);
    assert_eq!(report.samples.len(), 1);
    assert_eq!((report.dropped_display_events, report.dropped_camera_events), (1, 1));
}

#[test]
fn offline_report_gathers_the_runs() {
    let state = measured();
    let (report, per_run) = build_mode_report::<Ieee>(RunMode::Offline, 3, &state);
    let latencies: Vec<f64> = report.samples.iter().map(|s| s.latency_ms).collect();
    assert_eq!(latencies, vec![4.0, 6.0, 2.0]);
    let stats = report.stats.unwrap();
    assert_eq!((stats.count, stats.mean_ms, stats.median_ms), (3, 4.0, 4.0));
    assert_eq!((report.dropped_display_events, report.dropped_camera_events), (1, 0));
    assert_eq!(per_run.len(), 3);
    assert_eq!(per_run[0].unwrap().mean_ms, 5.0);
    assert_eq!(per_run[1].unwrap().mean_ms, 2.0);
    assert!(per_run[2].is_none());
    assert_eq!(report.samples.len() + report.dropped_display_events, state.display_events.len());
    assert_eq!(report.samples.len() + report.dropped_camera_events, state.camera_events.len());
}

#[test]
fn offline_report_makes_at_least_one_run() {
    let (report, per_run) = build_mode_report::<Ieee>(RunMode::Offline, 0, &measured());
    assert_eq!(per_run.len(), 1);
    assert_eq!(report.samples.len(), 2);
}

#[test]
fn envelope_counts_at_least_one_run() {
    let (report, per_run) = build_mode_report::<Ieee>(RunMode::Offline, 0, &measured());
    let envelope = result_envelope::<Ieee>(
        RunMode::Offline, 0, report, per_run, FrameCount { read: 8, torn: 2 },
    );
    assert_eq!(envelope.torn_frame_ratio, Some(0.25));
    assert_eq!(envelope.mode, RunMode::Offline);
    assert_eq!(envelope.offline_runs, 1);
    assert_eq!(envelope.per_run_stats.len(), 1);
    assert_eq!(
        envelope.notice,
        "Select ROI in camera view so the detector only tracks the displayed pattern. Disable AE if possible."
    );
}

#[test]
fn status_line_by_mode() {
    let mut state = measured();
    match status_line::<Ieee>(RunMode::Online, &state) {
        StatusLine::RealtimeLatency(stats) => assert_eq!((stats.count, stats.mean_ms), (2, 5.0)),
        _ => panic!("no statistics"),
    }
    assert!(matches!(status_line::<Ieee>(RunMode::Offline, &state), StatusLine::Settling));
    state.phase.capture_active = true;
    assert!(matches!(status_line::<Ieee>(RunMode::Offline, &state), StatusLine::Empty));
    state.camera_events.clear();
    assert!(matches!(status_line::<Ieee>(RunMode::Online, &state), StatusLine::Empty));
}

#[test]
fn logs_stay_in_order_through_a_measurement() {
    let mut state = SharedState::<f64>::new(0);
    let mut clock = RunClock::new(0);
    let mut cursor = CaptureCursor::new();
    let offline = plan(RunMode::Offline, 3);
    let mut now = 0;
    let mut closed = false;
    while !closed {
        now += 3 * MS;
        let action = update_mode_state::<Ieee>(&mut state, &mut clock, offline, 0.2, now);
        closed = matches!(action, ModeAction::Close { .. });
        if let Some(task) = begin_frame(&mut cursor, state.phase, true) {
            let shown = state.phase.current_transition_id;
            if shown % 4 != 3 && task.previous_id < Some(shown) {
                record_detection::<Ieee>(&mut state, &mut cursor, task.run, shown, now);
            }
        }
    }
    for run in 0..3u32 {
        let shown: Vec<u64> =
            state.display_events.iter().filter(|e| e.run == run).map(|e| e.id).collect();
        let expected: Vec<u64> = (0..shown.len() as u64).collect();
        assert!(!shown.is_empty());
        assert_eq!(shown, expected);
        let seen: Vec<u64> =
            state.camera_events.iter().filter(|e| e.run == run).map(|e| e.id).collect();
        assert!(seen.windows(2).all(|w| w[0] < w[1]));
        let report = build_report_for_run::<Ieee>(&state, run);
        let sampled: Vec<u64> = report.samples.iter().map(|s| s.transition_id).collect();
        let common: Vec<u64> = shown.iter().copied().filter(|id| seen.contains(id)).collect();
        assert_eq!(sampled, common);
    }
    let (report, per_run) = build_mode_report::<Ieee>(RunMode::Offline, 3, &state);
    assert_eq!(per_run.len(), 3);
    assert_eq!(report.samples.len() + report.dropped_display_events, state.display_events.len());
    assert_eq!(report.samples.len() + report.dropped_camera_events, state.camera_events.len());
}

#[test]
fn updates_need_room() {
    let state = SharedState::<f64>::new(0);
    let clock = RunClock::new(0);
    let offline = plan(RunMode::Offline, 1);
    assert!(check_updatable(offline, state.phase, clock, u64::MAX - PAUSE_NS));
    assert!(!check_updatable(offline, state.phase, clock, u64::MAX - PAUSE_NS + 1));
    let mut last = state.phase;
    last.current_transition_id = u64::MAX;
    assert!(!check_updatable(offline, last, clock, 0));
    let mut beyond = state.phase;
    beyond.current_run = 1;
    assert!(!check_updatable(offline, beyond, clock, 0));
    let mut paused = clock;
    paused.pause_until_ns = Some(5);
    assert!(!check_updatable(offline, state.phase, paused, 0));
    assert!(check_updatable(plan(RunMode::Offline, 2), state.phase, paused, 0));
}

#[test]
fn jumps_are_held_against_the_limit() {
    assert!(is_within_jump(None, 900, 0));
    assert!(is_within_jump(Some(4), 9, 5));
    assert!(!is_within_jump(Some(4), 10, 5));
    assert!(is_within_jump(Some(4), u64::MAX, u64::MAX));
    assert_eq!(jump_limit(None, 10), u64::MAX);
    assert_eq!(jump_limit(Some(99), 10), 9);
    assert_eq!(jump_limit(Some(99), 0), u64::MAX);
}

/// A frame of eight by eight pixels that the pattern of a transition fills.
fn pattern(id: u64) -> Vec<u8> {
    let colors = state_for(MeasurementMethod::QuadCode, id).colors;
    let mut rgb = Vec::new();
    for y in 0..8usize {
        for x in 0..8usize {
            rgb.extend_from_slice(&colors[x / 4 + 2 * (y / 4)]);
        }
    }
    rgb
}

fn capturing() -> SharedState<f64> {
    let mut state = SharedState::<f64>::new(0);
    state.phase.run_started = true;
    state.phase.capture_active = true;
    state
}

fn whole() -> Option<RoiNorm<f64>> {
    Some(RoiNorm { x: 0.0, y: 0.0, w: 1.0, h: 1.0 })
}

fn look(
    cursor: &mut CaptureCursor,
    state: &SharedState<f64>,
    rgb: &[u8],
    roi: Option<RoiNorm<f64>>,
    max_forward: u64,
) -> Result<Option<FrameRead>, FrameError> {
    let method = MeasurementMethod::QuadCode;
    read_frame::<Ieee>(cursor, state.phase, method, 128.0, rgb, 8, 8, roi, max_forward)
}

#[test]
fn frames_are_read_and_recorded() {
    let mut state = capturing();
    let mut cursor = CaptureCursor::new();
    for (id, recorded) in [(0, true), (0, false), (1, true), (5, true), (5, false)] {
        let read = look(&mut cursor, &state, &pattern(id), whole(), u64::MAX).unwrap().unwrap();
        assert_eq!(read.run, 0);
        assert_eq!(record_reading::<Ieee>(&mut state, &mut cursor, read, MS), recorded);
    }
    let torn = [&pattern(6)[..48], &pattern(9)[48..]].concat();
    let read = look(&mut cursor, &state, &torn, whole(), u64::MAX).unwrap().unwrap();
    assert_eq!(read.reading, FrameReading::Torn);
    assert!(!record_reading::<Ieee>(&mut state, &mut cursor, read, MS));
    assert_eq!(ids(&state.camera_events), vec![(0, 0), (0, 1), (0, 5)]);
    assert_eq!(state.frames, FrameCount { read: 6, torn: 1 });
    assert_eq!(torn_frame_ratio::<Ieee>(state.frames), Some(1.0 / 6.0));

    state.phase.capture_active = false;
    assert!(!record_reading::<Ieee>(&mut state, &mut cursor, read, MS));
    assert_eq!(state.frames, FrameCount { read: 6, torn: 1 });
}

#[test]
fn no_frames_have_no_torn_ratio() {
    assert_eq!(torn_frame_ratio::<Ieee>(FrameCount { read: 0, torn: 0 }), None);
    assert_eq!(torn_frame_ratio::<Ieee>(FrameCount { read: 4, torn: 1 }), Some(0.25));
}

#[test]
fn full_counts_stay() {
    let mut state = capturing();
    state.frames = FrameCount { read: u64::MAX, torn: 3 };
    let mut cursor = CaptureCursor { last_seen_run: Some(0), last_seen_id: None };
    let read = FrameRead { run: 0, reading: FrameReading::Torn };
    assert!(!record_reading::<Ieee>(&mut state, &mut cursor, read, MS));
    assert_eq!(state.frames, FrameCount { read: u64::MAX, torn: 3 });
}

#[test]
fn large_jumps_are_rejected() {
    let state = capturing();
    let mut cursor = CaptureCursor { last_seen_run: Some(0), last_seen_id: Some(7) };
    let read = |cursor: &mut CaptureCursor, id: u64| {
        look(cursor, &state, &pattern(id), whole(), 3).unwrap().unwrap().reading
    };
    assert_eq!(read(&mut cursor, 10), FrameReading::Transition(10));
    assert_eq!(read(&mut cursor, 11), FrameReading::Nothing);
    // The transition before the previous one looks like one far ahead.
    assert_eq!(read(&mut cursor, 6), FrameReading::Nothing);
}

#[test]
fn frames_that_cannot_be_read() {
    let mut state = capturing();
    let mut cursor = CaptureCursor::new();
    let rgb = pattern(3);
    assert_eq!(look(&mut cursor, &state, &rgb, None, 9), Ok(None));
    let outside = Some(RoiNorm { x: 1.0, y: 0.0, w: 0.5, h: 0.5 });
    assert_eq!(look(&mut cursor, &state, &rgb, outside, 9), Err(FrameError::NoRoom));
    cursor.last_seen_id = Some(u64::MAX - 3);
    assert_eq!(look(&mut cursor, &state, &rgb, whole(), 9), Err(FrameError::IdsUsedUp));
    state.phase.run_finished = true;
    assert_eq!(look(&mut cursor, &state, &rgb, whole(), 9), Ok(None));
}

#[test]
fn warmup_is_left_out() {
    let state = measured();
    let rest = after_warmup(&state.display_events, 10.0);
    assert_eq!(ids(&rest), vec![(0, 1), (1, 0), (1, 1)]);
    let sampled = sampled_state::<Ieee>(&state, 0.015);
    assert_eq!(ids(&sampled.display_events), vec![(1, 0), (1, 1)]);
    assert_eq!(ids(&sampled.camera_events), vec![(0, 1), (1, 1)]);
    assert_eq!(sampled.phase, state.phase);
    let all = sampled_state::<Ieee>(&state, 0.0);
    assert_eq!(ids(&all.display_events), ids(&state.display_events));
    assert_eq!(ids(&all.camera_events), ids(&state.camera_events));
}
