//! The course of a measurement: when runs begin, pause and end, and which
//! transition is shown when.
//!
//! Time is counted in nanoseconds from an origin that the program fixes once.

#[allow(unused_imports)]
use vstd::math::max;
use vstd::prelude::*;

use crate::arithmetic::{fraction, Arithmetic};
#[allow(unused_imports)]
use crate::arithmetic::{is_at_least, is_count, is_fraction, is_product, is_sum};

verus! {

#[derive(Debug, Clone, Copy, PartialEq, Eq, Structural)]
pub enum RunMode {
    /// One run that goes on until the program is closed.
    Online,
    /// A number of runs of fixed duration.
    Offline,
}

/// A transition that was shown, or seen by the camera: in which run, its number
/// in the run, and when, in milliseconds since the epoch of the measurement.
#[derive(Debug, Clone, Copy)]
pub struct TransitionEvent<V> {
    pub run: u32,
    pub id: u64,
    pub ms: V,
}

/// Where the measurement stands.
#[derive(Debug, Clone, Copy, PartialEq, Eq, Structural)]
pub struct RunPhase {
    /// The instant that the timestamps of both logs are counted from.
    pub epoch_ns: u64,
    /// The transition that is shown.
    pub current_transition_id: u64,
    pub current_run: u32,
    pub capture_active: bool,
    pub run_started: bool,
    pub run_finished: bool,
}

/// How many frames were read, and how many of them were torn.
#[derive(Debug, Clone, Copy, PartialEq, Eq, Structural)]
pub struct FrameCount {
    pub read: u64,
    pub torn: u64,
}

/// What the display and the camera side share.
#[derive(Debug, Clone)]
pub struct SharedState<V> {
    pub phase: RunPhase,
    pub display_events: Vec<TransitionEvent<V>>,
    pub camera_events: Vec<TransitionEvent<V>>,
    pub frames: FrameCount,
}

/// What the display side keeps to itself.
#[derive(Debug, Clone, Copy, PartialEq, Eq, Structural)]
pub struct RunClock {
    pub last_tick_ns: u64,
    pub run_started_ns: u64,
    /// The end of the pause between two runs.
    pub pause_until_ns: Option<u64>,
    /// The camera side was told to stop.
    pub done_sent: bool,
}

/// What the measurement was set up to do.
#[derive(Debug, Clone, Copy, PartialEq, Eq, Structural)]
pub struct RunPlan {
    pub mode: RunMode,
    pub offline_runs: u32,
    /// How long a transition is shown.
    pub period_ns: u64,
}

/// What the program has to do after an update.
#[derive(Debug, Clone, Copy, PartialEq, Eq, Structural)]
pub enum ModeAction {
    Continue,
    /// The measurement is over: close the window, and tell the camera side to
    /// stop unless that was done before.
    Close { send_stop: bool },
}

/// The pause between two runs.
pub const PAUSE_NS: u64 = 800_000_000;

/// How many runs are made when the runs are counted: at least one.
pub open spec fn planned_runs(offline_runs: u32) -> int {
    max(offline_runs as int, 1)
}

/// The time from `then` to `now`, none where `then` lies ahead.
pub open spec fn since(now: u64, then: u64) -> u64 {
    if now >= then {
        (now - then) as u64
    } else {
        0
    }
}

/// `s` is a number of nanoseconds in seconds: the whole ones plus the rest.
pub open spec fn is_seconds<A: Arithmetic>(ns: u64, s: A::Value) -> bool {
    exists|whole: A::Value, rest: A::Value|
        {
            &&& is_count::<A>(ns / 1_000_000_000, whole)
            &&& is_fraction::<A>(ns % 1_000_000_000, 1_000_000_000, rest)
            &&& #[trigger] is_sum::<A>(whole, rest, s)
        }
}

/// `ms` is a number of nanoseconds in milliseconds: a thousand times the seconds.
pub open spec fn is_milliseconds<A: Arithmetic>(ns: u64, ms: A::Value) -> bool {
    exists|s: A::Value, thousand: A::Value|
        {
            &&& is_seconds::<A>(ns, s)
            &&& is_count::<A>(1000, thousand)
            &&& #[trigger] is_product::<A>(s, thousand, ms)
        }
}

/// `over` is the outcome of holding a time against a duration in seconds.
pub open spec fn is_duration_check<A: Arithmetic>(
    ns: u64,
    duration_s: A::Value,
    over: bool,
) -> bool {
    exists|s: A::Value| #[trigger] is_seconds::<A>(ns, s) && is_at_least(s, duration_s, over)
}

/// The first update starts the measurement and sets the epoch.
pub open spec fn begun(phase: RunPhase, clock: RunClock, now: u64) -> (RunPhase, RunClock) {
    if phase.run_started {
        (phase, clock)
    } else {
        (
            RunPhase { run_started: true, capture_active: true, epoch_ns: now, ..phase },
            RunClock { run_started_ns: now, ..clock },
        )
    }
}

/// The next run begins, with its first transition.
pub open spec fn resumed(phase: RunPhase, clock: RunClock, now: u64) -> (RunPhase, RunClock) {
    (
        RunPhase {
            current_run: (phase.current_run + 1) as u32,
            current_transition_id: 0,
            capture_active: true,
            ..phase
        },
        RunClock { run_started_ns: now, last_tick_ns: now, pause_until_ns: None, ..clock },
    )
}

/// A run has ended and another one follows after a pause.
pub open spec fn paused(phase: RunPhase, clock: RunClock, now: u64) -> (RunPhase, RunClock) {
    (
        RunPhase { capture_active: false, ..phase },
        RunClock { pause_until_ns: Some((now + PAUSE_NS) as u64), ..clock },
    )
}

/// The last run has ended.
pub open spec fn finished(phase: RunPhase, clock: RunClock) -> (RunPhase, RunClock) {
    (
        RunPhase { capture_active: false, run_finished: true, ..phase },
        RunClock { done_sent: true, ..clock },
    )
}

/// The duration of the run is looked at: runs are counted and none is paused.
pub open spec fn watches_duration(plan: RunPlan, clock: RunClock) -> bool {
    plan.mode == RunMode::Offline && clock.pause_until_ns is None
}

/// How the runs advance, given whether the duration of the current one is over.
pub open spec fn advanced(
    plan: RunPlan,
    phase: RunPhase,
    clock: RunClock,
    now: u64,
    over: bool,
) -> (RunPhase, RunClock) {
    match (plan.mode, clock.pause_until_ns) {
        (RunMode::Online, _) => (phase, clock),
        (RunMode::Offline, Some(until)) => if now >= until {
            resumed(phase, clock, now)
        } else {
            (phase, clock)
        },
        (RunMode::Offline, None) => if !over {
            (phase, clock)
        } else if phase.current_run + 1 >= planned_runs(plan.offline_runs) {
            finished(phase, clock)
        } else {
            paused(phase, clock, now)
        },
    }
}

/// What the program has to do, given whether the duration of the current run is over.
pub open spec fn action_for(
    plan: RunPlan,
    phase: RunPhase,
    clock: RunClock,
    over: bool,
) -> ModeAction {
    if watches_duration(plan, clock) && over && phase.current_run + 1 >= planned_runs(
        plan.offline_runs,
    ) {
        ModeAction::Close { send_stop: !clock.done_sent }
    } else {
        ModeAction::Continue
    }
}

/// A transition is due.
pub open spec fn is_tick_due(plan: RunPlan, phase: RunPhase, clock: RunClock, now: u64) -> bool {
    &&& phase.capture_active
    &&& !phase.run_finished
    &&& since(now, clock.last_tick_ns) >= plan.period_ns
}

/// The transition that is shown is logged and the next one follows, where it is due.
pub open spec fn is_tick<A: Arithmetic>(
    plan: RunPlan,
    now: u64,
    phase: RunPhase,
    clock: RunClock,
    log: Seq<TransitionEvent<A::Value>>,
    new_phase: RunPhase,
    new_clock: RunClock,
    new_log: Seq<TransitionEvent<A::Value>>,
) -> bool {
    if is_tick_due(plan, phase, clock, now) {
        &&& new_phase == RunPhase {
            current_transition_id: (phase.current_transition_id + 1) as u64,
            ..phase
        }
        &&& new_clock == RunClock { last_tick_ns: now, ..clock }
        &&& new_log == log.push(new_log.last())
        &&& new_log.last().run == phase.current_run
        &&& new_log.last().id == phase.current_transition_id
        &&& is_milliseconds::<A>(since(now, phase.epoch_ns), new_log.last().ms)
    } else {
        new_phase == phase && new_clock == clock && new_log == log
    }
}

/// One update: the measurement begins if it has not yet, the runs advance, and a
/// transition is logged where one is due.
pub open spec fn is_update<A: Arithmetic>(
    plan: RunPlan,
    duration_s: A::Value,
    now: u64,
    state: SharedState<A::Value>,
    clock: RunClock,
    new_state: SharedState<A::Value>,
    new_clock: RunClock,
    action: ModeAction,
) -> bool {
    let (phase1, clock1) = begun(state.phase, clock, now);
    exists|over: bool|
        {
            let (phase2, clock2) = advanced(plan, phase1, clock1, now, over);
            &&& #[trigger] is_over::<A>(plan, duration_s, now, clock1, over)
            &&& action == action_for(plan, phase1, clock1, over)
            &&& is_tick::<A>(
                plan,
                now,
                phase2,
                clock2,
                state.display_events@,
                new_state.phase,
                new_clock,
                new_state.display_events@,
            )
            &&& new_state.camera_events@ == state.camera_events@
            &&& new_state.frames == state.frames
        }
}

/// `over` tells whether the duration of the current run is over, where it is looked at.
pub open spec fn is_over<A: Arithmetic>(
    plan: RunPlan,
    duration_s: A::Value,
    now: u64,
    clock: RunClock,
    over: bool,
) -> bool {
    if watches_duration(plan, clock) {
        is_duration_check::<A>(since(now, clock.run_started_ns), duration_s, over)
    } else {
        !over
    }
}

/// The runs made so far are within the plan, and a pause is followed by a run of the plan.
pub open spec fn is_on_plan(plan: RunPlan, phase: RunPhase, clock: RunClock) -> bool {
    &&& phase.current_run < planned_runs(plan.offline_runs)
    &&& clock.pause_until_ns is Some ==> phase.current_run + 1 < planned_runs(plan.offline_runs)
}

/// An update can be made: the measurement is on plan, the end of a pause can be
/// told, and there is a transition to follow the one that is shown.
pub open spec fn is_updatable(plan: RunPlan, phase: RunPhase, clock: RunClock, now: u64) -> bool {
    &&& is_on_plan(plan, phase, clock)
    &&& now + PAUSE_NS <= u64::MAX
    &&& phase.current_transition_id < u64::MAX
}

/// Tells whether an update can be made.
pub fn check_updatable(plan: RunPlan, phase: RunPhase, clock: RunClock, now_ns: u64) -> (ok: bool)
    ensures
        ok == is_updatable(plan, phase, clock, now_ns),
{
    let runs: u32 = run_count(plan.offline_runs);
    let on_plan = phase.current_run < runs && (clock.pause_until_ns.is_none() || runs
        - phase.current_run > 1);
    on_plan && now_ns <= u64::MAX - PAUSE_NS && phase.current_transition_id < u64::MAX
}

fn seconds<A: Arithmetic>(ns: u64) -> (s: A::Value)
    ensures
        is_seconds::<A>(ns, s),
{
    let whole = A::from_count(ns / 1_000_000_000);
    let rest = fraction::<A>(ns % 1_000_000_000, 1_000_000_000);
    let s = A::plus(whole, rest);
    assert(is_sum::<A>(whole, rest, s));
    s
}

/// A number of nanoseconds in milliseconds.
pub fn milliseconds<A: Arithmetic>(ns: u64) -> (ms: A::Value)
    ensures
        is_milliseconds::<A>(ns, ms),
{
    let s = seconds::<A>(ns);
    let thousand = A::from_count(1000);
    let ms = A::times(s, thousand);
    assert(is_product::<A>(s, thousand, ms));
    ms
}

/// The time from `then` to `now`, none where `then` lies ahead.
pub fn elapsed_ns(now: u64, then: u64) -> (ns: u64)
    ensures
        ns == since(now, then),
{
    if now >= then {
        now - then
    } else {
        0
    }
}

/// How many runs are made when the runs are counted.
pub fn run_count(offline_runs: u32) -> (runs: u32)
    ensures
        runs == planned_runs(offline_runs),
{
    if offline_runs < 1 {
        1
    } else {
        offline_runs
    }
}

/// `state` is that of a measurement that was set up at `now` and has not begun.
pub open spec fn is_unbegun<V>(now: u64, state: SharedState<V>) -> bool {
    &&& state.phase == RunPhase {
        epoch_ns: now,
        current_transition_id: 0,
        current_run: 0,
        capture_active: false,
        run_started: false,
        run_finished: false,
    }
    &&& state.display_events@.len() == 0
    &&& state.camera_events@.len() == 0
    &&& state.frames == FrameCount { read: 0, torn: 0 }
}

/// `clock` is that of a measurement that was set up at `now` and has not begun.
pub open spec fn is_unbegun_clock(now: u64, clock: RunClock) -> bool {
    clock == RunClock {
        last_tick_ns: now,
        run_started_ns: now,
        pause_until_ns: None,
        done_sent: false,
    }
}

impl<V> SharedState<V> {
    /// A measurement that has not begun.
    pub fn new(now_ns: u64) -> (state: SharedState<V>)
        ensures
            is_unbegun(now_ns, state),
    {
        SharedState {
            phase: RunPhase {
                epoch_ns: now_ns,
                current_transition_id: 0,
                current_run: 0,
                capture_active: false,
                run_started: false,
                run_finished: false,
            },
            display_events: Vec::new(),
            camera_events: Vec::new(),
            frames: FrameCount { read: 0, torn: 0 },
        }
    }
}

impl RunClock {
    /// The clock of a measurement that has not begun.
    pub fn new(now_ns: u64) -> (clock: RunClock)
        ensures
            is_unbegun_clock(now_ns, clock),
    {
        RunClock {
            last_tick_ns: now_ns,
            run_started_ns: now_ns,
            pause_until_ns: None,
            done_sent: false,
        }
    }
}

/// Advances the runs of a plan that counts them.
fn advance_runs<A: Arithmetic>(
    phase: &mut RunPhase,
    clock: &mut RunClock,
    plan: RunPlan,
    duration_s: A::Value,
    now_ns: u64,
) -> (action: ModeAction)
    requires
        is_on_plan(plan, *old(phase), *old(clock)),
        now_ns + PAUSE_NS <= u64::MAX,
    ensures
        is_on_plan(plan, *final(phase), *final(clock)),
        exists|over: bool|
            {
                let next = advanced(plan, *old(phase), *old(clock), now_ns, over);
                &&& #[trigger] is_over::<A>(plan, duration_s, now_ns, *old(clock), over)
                &&& *final(phase) == next.0
                &&& *final(clock) == next.1
                &&& action == action_for(plan, *old(phase), *old(clock), over)
            },
{
    let ghost phase0 = *phase;
    let ghost clock0 = *clock;
    if plan.mode == RunMode::Online {
        assert(is_over::<A>(plan, duration_s, now_ns, clock0, false));
        return ModeAction::Continue;
    }
    match clock.pause_until_ns {
        Some(until) => {
            assert(is_over::<A>(plan, duration_s, now_ns, clock0, false));
            if now_ns >= until {
                phase.current_run = phase.current_run + 1;
                phase.current_transition_id = 0;
                phase.capture_active = true;
                clock.run_started_ns = now_ns;
                clock.last_tick_ns = now_ns;
                clock.pause_until_ns = None;
            }
            ModeAction::Continue
        },
        None => {
            let s = seconds::<A>(elapsed_ns(now_ns, clock.run_started_ns));
            let over = s >= duration_s;
            assert(is_at_least(s, duration_s, over));
            assert(is_duration_check::<A>(
                since(now_ns, clock0.run_started_ns),
                duration_s,
                over,
            ));
            assert(is_over::<A>(plan, duration_s, now_ns, clock0, over));
            if !over {
                return ModeAction::Continue;
            }
            phase.capture_active = false;
            if phase.current_run + 1 >= run_count(plan.offline_runs) {
                phase.run_finished = true;
                let send_stop = !clock.done_sent;
                clock.done_sent = true;
                ModeAction::Close { send_stop }
            } else {
                clock.pause_until_ns = Some(now_ns + PAUSE_NS);
                ModeAction::Continue
            }
        },
    }
}

/// Updates the measurement: begins it if it has not begun, advances the runs, and
/// logs the shown transition where the next one is due.
pub fn update_mode_state<A: Arithmetic>(
    state: &mut SharedState<A::Value>,
    clock: &mut RunClock,
    plan: RunPlan,
    duration_s: A::Value,
    now_ns: u64,
) -> (action: ModeAction)
    requires
        is_updatable(plan, old(state).phase, *old(clock), now_ns),
    ensures
        is_on_plan(plan, final(state).phase, *final(clock)),
        is_update::<A>(
            plan,
            duration_s,
            now_ns,
            *old(state),
            *old(clock),
            *final(state),
            *final(clock),
            action,
        ),
{
    let mut phase = state.phase;
    if !phase.run_started {
        phase.run_started = true;
        phase.capture_active = true;
        phase.epoch_ns = now_ns;
        clock.run_started_ns = now_ns;
    }
    let ghost clock1 = *clock;
    assert((phase, *clock) == begun(old(state).phase, *old(clock), now_ns));
    let action = advance_runs::<A>(&mut phase, clock, plan, duration_s, now_ns);
    if phase.capture_active && !phase.run_finished && elapsed_ns(now_ns, clock.last_tick_ns)
        >= plan.period_ns {
        let ms = milliseconds::<A>(elapsed_ns(now_ns, phase.epoch_ns));
        state.display_events.push(
            TransitionEvent { run: phase.current_run, id: phase.current_transition_id, ms },
        );
        phase.current_transition_id = phase.current_transition_id + 1;
        clock.last_tick_ns = now_ns;
    }
    state.phase = phase;
    action
}

} // verus!
