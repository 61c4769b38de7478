//! What the course of a measurement means in time: when runs begin, pause and end,
//! when transitions are logged, and with what timestamps. Nothing is rounded in what
//! is stated here.

use vstd::prelude::*;

#[allow(unused_imports)]
use crate::analysis::{is_sample, LatencySample};
#[allow(unused_imports)]
use crate::arithmetic::{
    is_at_least, is_count, is_exact, is_fraction, is_product, is_sum, Arithmetic,
};
#[allow(unused_imports)]
use crate::capture::{is_reading_step, is_record_step, is_recorded, CaptureCursor, FrameRead};
#[allow(unused_imports)]
use crate::detection::FrameReading;
#[allow(unused_imports)]
use crate::session::{
    action_for, advanced, begun, is_milliseconds, is_over, is_seconds, is_tick, is_tick_due,
    is_unbegun, is_unbegun_clock, is_updatable, is_update, since, ModeAction, RunClock, RunMode,
    RunPhase, RunPlan, SharedState,
};

verus! {

/// The time from `then` to `now`, none where `then` lies ahead.
pub open spec fn time_between(then: u64, now: u64) -> int {
    if now >= then {
        now - then
    } else {
        0
    }
}

/// A number of seconds is a thousand millionth of the nanoseconds.
pub proof fn law_seconds_of_nanoseconds<A: Arithmetic>(
    ns: u64,
    s: A::Value,
    number: spec_fn(A::Value) -> real,
)
    requires
        is_exact::<A>(number),
        is_seconds::<A>(ns, s),
    ensures
        number(s) * 1_000_000_000real == ns as real,
{
    let (whole, rest) = choose|whole: A::Value, rest: A::Value|
        {
            &&& is_count::<A>(ns / 1_000_000_000, whole)
            &&& is_fraction::<A>(ns % 1_000_000_000, 1_000_000_000, rest)
            &&& #[trigger] is_sum::<A>(whole, rest, s)
        };
    assert(number(rest) * 1_000_000_000real == (ns % 1_000_000_000) as real);
    assert(ns == 1_000_000_000 * (ns / 1_000_000_000) + ns % 1_000_000_000);
}

/// A number of milliseconds is a millionth of the nanoseconds.
pub proof fn law_milliseconds_of_nanoseconds<A: Arithmetic>(
    ns: u64,
    ms: A::Value,
    number: spec_fn(A::Value) -> real,
)
    requires
        is_exact::<A>(number),
        is_milliseconds::<A>(ns, ms),
    ensures
        number(ms) * 1_000_000real == ns as real,
{
    let (s, thousand) = choose|s: A::Value, thousand: A::Value|
        {
            &&& is_seconds::<A>(ns, s)
            &&& is_count::<A>(1000, thousand)
            &&& #[trigger] is_product::<A>(s, thousand, ms)
        };
    law_seconds_of_nanoseconds::<A>(ns, s, number);
    assert(number(thousand) == 1000real);
    assert(number(ms) == number(s) * 1000real);
}

/// The timestamp of a displayed transition is the time from the epoch of the
/// measurement to the update that logs it, in every run. The event names the run and
/// the transition that was shown, and nothing else enters the log.
pub proof fn law_display_timestamps_count_from_the_epoch<A: Arithmetic>(
    plan: RunPlan,
    duration_s: A::Value,
    now: u64,
    state: SharedState<A::Value>,
    clock: RunClock,
    new_state: SharedState<A::Value>,
    new_clock: RunClock,
    action: ModeAction,
    number: spec_fn(A::Value) -> real,
)
    requires
        is_exact::<A>(number),
        is_update::<A>(plan, duration_s, now, state, clock, new_state, new_clock, action),
    ensures
        new_state.camera_events@ == state.camera_events@,
        new_state.frames == state.frames,
        new_state.display_events@ == state.display_events@ || ({
            let log = new_state.display_events@;
            &&& log.len() == state.display_events@.len() + 1
            &&& log.drop_last() == state.display_events@
            &&& log.last().run == new_state.phase.current_run
            &&& number(log.last().ms) * 1_000_000real == time_between(
                new_state.phase.epoch_ns,
                now,
            ) as real
        }),
{
    let (phase1, clock1) = begun(state.phase, clock, now);
    let over = choose|over: bool|
        {
            let (phase2, clock2) = advanced(plan, phase1, clock1, now, over);
            &&& #[trigger] is_over::<A>(plan, duration_s, now, clock1, over)
            &&& action == action_for(plan, phase1, clock1, over)
            &&& is_tick::<A>(
                plan,
                now,
                phase2,
                clock2,
                state.display_events@,
                new_state.phase,
                new_clock,
                new_state.display_events@,
            )
            &&& new_state.camera_events@ == state.camera_events@
            &&& new_state.frames == state.frames
        };
    let (phase2, clock2) = advanced(plan, phase1, clock1, now, over);
    if is_tick_due(plan, phase2, clock2, now) {
        let log = new_state.display_events@;
        law_milliseconds_of_nanoseconds::<A>(
            since(now, phase2.epoch_ns),
            log.last().ms,
            number,
        );
        assert(log.drop_last() == state.display_events@);
    } else {
        assert(new_state.display_events@ == state.display_events@);
    }
}

/// The timestamp of a transition that the camera saw is the time from the same epoch
/// to its recording. It is recorded where its run still goes on and the log does not
/// end with it already, and else nothing changes.
pub proof fn law_camera_timestamps_count_from_the_epoch<A: Arithmetic>(
    state: SharedState<A::Value>,
    cursor: CaptureCursor,
    run: u32,
    id: u64,
    now: u64,
    new_state: SharedState<A::Value>,
    new_cursor: CaptureCursor,
    number: spec_fn(A::Value) -> real,
)
    requires
        is_exact::<A>(number),
        is_record_step::<A>(state, cursor, run, id, now, new_state, new_cursor),
    ensures
        new_state.phase == state.phase,
        new_state.display_events@ == state.display_events@,
        new_state.frames == state.frames,
        ({
            let log = state.camera_events@;
            let new_log = new_state.camera_events@;
            let phase = state.phase;
            let goes_on = phase.capture_active && !phase.run_finished && phase.current_run == run;
            let is_new = !(log.len() > 0 && log.last().run == run && log.last().id == id);
            if goes_on && is_new {
                &&& new_log.len() == log.len() + 1
                &&& new_log.drop_last() == log
                &&& new_log.last().run == run
                &&& new_log.last().id == id
                &&& number(new_log.last().ms) * 1_000_000real == time_between(
                    phase.epoch_ns,
                    now,
                ) as real
                &&& new_cursor.last_seen_id == Some(id)
                &&& new_cursor.last_seen_run == cursor.last_seen_run
            } else {
                new_log == log && new_cursor == cursor
            }
        }),
{
    if is_recorded(state, run, id) {
        let log = new_state.camera_events@;
        law_milliseconds_of_nanoseconds::<A>(
            since(now, state.phase.epoch_ns),
            log.last().ms,
            number,
        );
        assert(log.drop_last() == state.camera_events@);
    } else {
        assert(new_state.camera_events@ == state.camera_events@);
    }
}

/// The same of the transition that a frame shows: it is recorded where the run of the
/// frame still goes on and the log does not end with it already, and else nothing is.
pub proof fn law_frames_are_logged_from_the_epoch<A: Arithmetic>(
    state: SharedState<A::Value>,
    cursor: CaptureCursor,
    read: FrameRead,
    now: u64,
    new_state: SharedState<A::Value>,
    new_cursor: CaptureCursor,
    number: spec_fn(A::Value) -> real,
)
    requires
        is_exact::<A>(number),
        is_reading_step::<A>(state, cursor, read, now, new_state, new_cursor),
    ensures
        new_state.phase == state.phase,
        new_state.display_events@ == state.display_events@,
        ({
            let log = state.camera_events@;
            let new_log = new_state.camera_events@;
            let phase = state.phase;
            let goes_on = phase.capture_active && !phase.run_finished && phase.current_run
                == read.run;
            let is_new = match read.reading {
                FrameReading::Transition(id) => !(log.len() > 0 && log.last().run == read.run
                    && log.last().id == id),
                _ => false,
            };
            if goes_on && is_new {
                &&& new_log.len() == log.len() + 1
                &&& new_log.drop_last() == log
                &&& new_log.last().run == read.run
                &&& read.reading == FrameReading::Transition(new_log.last().id)
                &&& number(new_log.last().ms) * 1_000_000real == time_between(
                    phase.epoch_ns,
                    now,
                ) as real
                &&& new_cursor.last_seen_id == Some(new_log.last().id)
                &&& new_cursor.last_seen_run == cursor.last_seen_run
            } else {
                new_log == log && new_cursor == cursor
            }
        }),
        ({
            let phase = state.phase;
            let goes_on = phase.capture_active && !phase.run_finished && phase.current_run
                == read.run;
            let (old_count, count) = (state.frames, new_state.frames);
            if goes_on && old_count.read < u64::MAX && old_count.torn < u64::MAX {
                &&& count.read == old_count.read + 1
                &&& count.torn == old_count.torn + (if read.reading == FrameReading::Torn {
                    1int
                } else {
                    0
                })
            } else {
                count == old_count
            }
        }),
{
    if let FrameReading::Transition(id) = read.reading {
        if is_recorded(state, read.run, id) {
            let log = new_state.camera_events@;
            law_milliseconds_of_nanoseconds::<A>(
                since(now, state.phase.epoch_ns),
                log.last().ms,
                number,
            );
            assert(log.drop_last() == state.camera_events@);
        }
    }
}

/// A latency is the time between showing a transition and recording that the camera
/// saw it, whatever the epoch is and whichever run it is. The transition was logged
/// by an update at `shown`; later, with the epoch unchanged, it was recorded at
/// `seen`; the sample made of the two events tells the time from one to the other.
pub proof fn law_latency_is_the_time_between<A: Arithmetic>(
    plan: RunPlan,
    duration_s: A::Value,
    shown: u64,
    s0: SharedState<A::Value>,
    c0: RunClock,
    s1: SharedState<A::Value>,
    c1: RunClock,
    action: ModeAction,
    s2: SharedState<A::Value>,
    cursor: CaptureCursor,
    run: u32,
    id: u64,
    seen: u64,
    s3: SharedState<A::Value>,
    new_cursor: CaptureCursor,
    sample: LatencySample<A::Value>,
    number: spec_fn(A::Value) -> real,
)
    requires
        is_exact::<A>(number),
        is_update::<A>(plan, duration_s, shown, s0, c0, s1, c1, action),
        s1.display_events@.len() > s0.display_events@.len(),
        s2.phase.epoch_ns == s1.phase.epoch_ns,
        is_record_step::<A>(s2, cursor, run, id, seen, s3, new_cursor),
        s3.camera_events@.len() > s2.camera_events@.len(),
        s1.phase.epoch_ns <= shown,
        s1.phase.epoch_ns <= seen,
        is_sample::<A>(
            (s1.display_events@.last().id, s1.display_events@.last().ms),
            (s3.camera_events@.last().id, s3.camera_events@.last().ms),
            sample,
        ),
    ensures
        number(sample.latency_ms) * 1_000_000real == (seen - shown) as real,
{
    law_display_timestamps_count_from_the_epoch::<A>(
        plan,
        duration_s,
        shown,
        s0,
        c0,
        s1,
        c1,
        action,
        number,
    );
    law_camera_timestamps_count_from_the_epoch::<A>(
        s2,
        cursor,
        run,
        id,
        seen,
        s3,
        new_cursor,
        number,
    );
}

/// Times are held against durations as numbers are.
pub open spec fn follows_durations<A: Arithmetic>(number: spec_fn(A::Value) -> real) -> bool {
    forall|a: A::Value, b: A::Value, r: bool| #[trigger]
        is_at_least(a, b, r) ==> r == (number(a) >= number(b))
}

/// The first update begins the measurement: its time is the epoch, and the first run
/// begins with it. Later updates leave the epoch alone.
pub proof fn law_first_update_begins_the_measurement<A: Arithmetic>(
    plan: RunPlan,
    duration_s: A::Value,
    now: u64,
    state: SharedState<A::Value>,
    clock: RunClock,
    new_state: SharedState<A::Value>,
    new_clock: RunClock,
    action: ModeAction,
)
    requires
        is_update::<A>(plan, duration_s, now, state, clock, new_state, new_clock, action),
    ensures
        new_state.phase.run_started,
        new_state.phase.epoch_ns == if state.phase.run_started {
            state.phase.epoch_ns
        } else {
            now
        },
        !state.phase.run_started ==> new_clock.run_started_ns == now,
{
}

/// In online mode the clock and the phase stand still but for the transitions: no run
/// ends or begins, no pause begins, and capturing goes on from the first update.
pub proof fn law_online_updates_only_follow_the_period<A: Arithmetic>(
    plan: RunPlan,
    duration_s: A::Value,
    now: u64,
    state: SharedState<A::Value>,
    clock: RunClock,
    new_state: SharedState<A::Value>,
    new_clock: RunClock,
    action: ModeAction,
)
    requires
        plan.mode == RunMode::Online,
        is_update::<A>(plan, duration_s, now, state, clock, new_state, new_clock, action),
    ensures
        action == ModeAction::Continue,
        new_state.phase.current_run == state.phase.current_run,
        new_state.phase.run_finished == state.phase.run_finished,
        new_state.phase.capture_active == (state.phase.capture_active || !state.phase.run_started),
        new_clock.pause_until_ns == clock.pause_until_ns,
        new_clock.done_sent == clock.done_sent,
        state.phase.run_started ==> new_clock.run_started_ns == clock.run_started_ns,
{
}

/// A measurement set up at `then` begins with its first update: with run zero and
/// transition zero, no frame counted and nothing seen. The transition is logged at once
/// where a period has gone by since the setup.
pub proof fn law_new_measurement_begins<A: Arithmetic>(
    plan: RunPlan,
    duration_s: A::Value,
    then: u64,
    now: u64,
    state: SharedState<A::Value>,
    clock: RunClock,
    new_state: SharedState<A::Value>,
    new_clock: RunClock,
    action: ModeAction,
)
    requires
        plan.mode == RunMode::Online,
        is_unbegun(then, state),
        is_unbegun_clock(then, clock),
        is_update::<A>(plan, duration_s, now, state, clock, new_state, new_clock, action),
    ensures
        state.phase.epoch_ns == then,
        !state.phase.run_started,
        !state.phase.capture_active,
        new_state.phase.epoch_ns == now,
        new_state.phase.run_started,
        new_state.phase.capture_active,
        !new_state.phase.run_finished,
        new_state.phase.current_run == 0,
        new_state.camera_events@.len() == 0,
        new_state.frames.read == 0,
        new_state.frames.torn == 0,
        !new_clock.done_sent,
        new_clock.pause_until_ns is None,
        ({
            let log = new_state.display_events@;
            if time_between(then, now) >= plan.period_ns {
                &&& log.len() == 1
                &&& log[0].run == 0
                &&& log[0].id == 0
                &&& new_state.phase.current_transition_id == 1
            } else {
                &&& log.len() == 0
                &&& new_state.phase.current_transition_id == 0
            }
        }),
{
}

/// When an update can be made: the current run is one of those planned, of which there
/// is at least one, and not the last one while a pause goes on; a pause of 0.8 seconds
/// from now can be told; and the transition that is shown is not the last there is.
pub proof fn law_when_updates_can_be_made(plan: RunPlan, phase: RunPhase, clock: RunClock, now: u64)
    ensures
        ({
            let runs = if plan.offline_runs == 0 {
                1
            } else {
                plan.offline_runs as int
            };
            let left = runs - phase.current_run;
            &&& is_updatable(plan, phase, clock, now) ==> left >= 1 && phase.current_transition_id
                + 1 <= u64::MAX && now + 800_000_000 <= u64::MAX
            &&& is_updatable(plan, phase, clock, now) && clock.pause_until_ns is Some ==> left >= 2
            &&& left >= 2 && phase.current_transition_id + 1 <= u64::MAX && now + 800_000_000
                <= u64::MAX ==> is_updatable(plan, phase, clock, now)
            &&& left == 1 && clock.pause_until_ns is None && phase.current_transition_id + 1
                <= u64::MAX && now + 800_000_000 <= u64::MAX ==> is_updatable(
                plan,
                phase,
                clock,
                now,
            )
        }),
{
}

/// A run of an offline measurement ends with the first update that comes no earlier
/// than its duration after its beginning. If it is the last one planned, the
/// measurement is finished and the program is told to close; else a pause of 0.8
/// seconds begins. Capturing stops either way. Before that nothing of it happens.
pub proof fn law_run_ends_after_its_duration<A: Arithmetic>(
    plan: RunPlan,
    duration_s: A::Value,
    now: u64,
    state: SharedState<A::Value>,
    clock: RunClock,
    new_state: SharedState<A::Value>,
    new_clock: RunClock,
    action: ModeAction,
    number: spec_fn(A::Value) -> real,
)
    requires
        is_exact::<A>(number),
        follows_durations::<A>(number),
        plan.mode == RunMode::Offline,
        clock.pause_until_ns is None,
        now + 800_000_000 <= u64::MAX,
        is_update::<A>(plan, duration_s, now, state, clock, new_state, new_clock, action),
    ensures
        ({
            let beginning = if state.phase.run_started {
                clock.run_started_ns
            } else {
                now
            };
            let captured = state.phase.capture_active || !state.phase.run_started;
            let over = time_between(beginning, now) as real >= number(duration_s)
                * 1_000_000_000real;
            let runs = if plan.offline_runs == 0 {
                1
            } else {
                plan.offline_runs as int
            };
            let (before, after) = (state.phase, new_state.phase);
            &&& after.current_run == before.current_run
            &&& new_clock.run_started_ns == beginning
            &&& if !over {
                &&& action == ModeAction::Continue
                &&& new_clock.pause_until_ns is None
                &&& after.capture_active == captured
                &&& after.run_finished == before.run_finished
                &&& new_clock.done_sent == clock.done_sent
            } else if before.current_run + 1 < runs {
                &&& action == ModeAction::Continue
                &&& new_clock.pause_until_ns == Some((now + 800_000_000) as u64)
                &&& !after.capture_active
                &&& after.run_finished == before.run_finished
                &&& new_clock.done_sent == clock.done_sent
                &&& new_state.display_events@ == state.display_events@
            } else {
                &&& action == ModeAction::Close { send_stop: !clock.done_sent }
                &&& new_clock.pause_until_ns is None
                &&& !after.capture_active
                &&& after.run_finished
                &&& new_clock.done_sent
                &&& new_state.display_events@ == state.display_events@
            }
        }),
{
    let (phase1, clock1) = begun(state.phase, clock, now);
    let over = choose|over: bool|
        {
            let (phase2, clock2) = advanced(plan, phase1, clock1, now, over);
            &&& #[trigger] is_over::<A>(plan, duration_s, now, clock1, over)
            &&& action == action_for(plan, phase1, clock1, over)
            &&& is_tick::<A>(
                plan,
                now,
                phase2,
                clock2,
                state.display_events@,
                new_state.phase,
                new_clock,
                new_state.display_events@,
            )
            &&& new_state.camera_events@ == state.camera_events@
            &&& new_state.frames == state.frames
        };
    let ns = since(now, clock1.run_started_ns);
    let s = choose|s: A::Value| #[trigger]
        is_seconds::<A>(ns, s) && is_at_least(s, duration_s, over);
    law_seconds_of_nanoseconds::<A>(ns, s, number);
    assert(over == (ns as real >= number(duration_s) * 1_000_000_000real));
}

/// A pause lasts until its end is reached: before that no run begins. The first update
/// that comes no earlier than its end begins the next run, with transition zero, and
/// capturing goes on. The transition is logged at once only where transitions take no
/// time.
pub proof fn law_pause_ends_with_the_next_run<A: Arithmetic>(
    plan: RunPlan,
    duration_s: A::Value,
    now: u64,
    state: SharedState<A::Value>,
    clock: RunClock,
    new_state: SharedState<A::Value>,
    new_clock: RunClock,
    action: ModeAction,
    until: u64,
)
    requires
        plan.mode == RunMode::Offline,
        state.phase.run_started,
        state.phase.current_run < u32::MAX,
        clock.pause_until_ns == Some(until),
        is_update::<A>(plan, duration_s, now, state, clock, new_state, new_clock, action),
    ensures
        action == ModeAction::Continue,
        new_state.phase.run_finished == state.phase.run_finished,
        new_clock.done_sent == clock.done_sent,
        now < until ==> {
            &&& new_state.phase.current_run == state.phase.current_run
            &&& new_state.phase.capture_active == state.phase.capture_active
            &&& new_clock.pause_until_ns == Some(until)
            &&& new_clock.run_started_ns == clock.run_started_ns
        },
        now >= until ==> {
            let log = new_state.display_events@;
            &&& new_state.phase.current_run == state.phase.current_run + 1
            &&& new_state.phase.capture_active
            &&& new_clock.pause_until_ns is None
            &&& new_clock.run_started_ns == now
            &&& new_clock.last_tick_ns == now
            &&& if plan.period_ns == 0 && !state.phase.run_finished {
                &&& new_state.phase.current_transition_id == 1
                &&& log.len() == state.display_events@.len() + 1
                &&& log.last().run == state.phase.current_run + 1
                &&& log.last().id == 0
            } else {
                &&& new_state.phase.current_transition_id == 0
                &&& log == state.display_events@
            }
        },
{
}

/// Transitions follow one another by the period. While a run goes on, an update that
/// comes at least a period after the last transition, or after the beginning of the
/// run, logs the transition that was shown and moves on to the next one, and other
/// updates do neither.
pub proof fn law_transitions_follow_the_period<A: Arithmetic>(
    plan: RunPlan,
    duration_s: A::Value,
    now: u64,
    state: SharedState<A::Value>,
    clock: RunClock,
    new_state: SharedState<A::Value>,
    new_clock: RunClock,
    action: ModeAction,
)
    requires
        state.phase.current_transition_id < u64::MAX,
        is_update::<A>(plan, duration_s, now, state, clock, new_state, new_clock, action),
        plan.mode == RunMode::Online || clock.pause_until_ns is None || now < clock.pause_until_ns->0,
    ensures
        ({
            let due = new_state.phase.capture_active && !new_state.phase.run_finished
                && time_between(clock.last_tick_ns, now) >= plan.period_ns;
            if due {
                &&& new_state.display_events@.len() == state.display_events@.len() + 1
                &&& new_state.display_events@.last().id == state.phase.current_transition_id
                &&& new_state.display_events@.last().run == state.phase.current_run
                &&& new_state.phase.current_transition_id == state.phase.current_transition_id + 1
                &&& new_clock.last_tick_ns == now
            } else {
                &&& new_state.display_events@ == state.display_events@
                &&& new_state.phase.current_transition_id == state.phase.current_transition_id
                &&& new_clock.last_tick_ns == clock.last_tick_ns
            }
        }),
{
}

} // verus!
