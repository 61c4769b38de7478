//! What the logs of a measurement look like at any time, and what that means for
//! the reports made from them.

use vstd::prelude::*;

#[allow(unused_imports)]
use crate::alignment::is_increasing;
#[allow(unused_imports)]
use crate::analysis::{event_ids, is_report, law_samples_are_the_common_ids, LatencyReport};
#[allow(unused_imports)]
use crate::arithmetic::{Arithmetic, Statistical};
#[allow(unused_imports)]
use crate::session::{
    action_for, advanced, begun, is_on_plan, is_over, is_tick, is_tick_due, is_update, planned_runs,
    ModeAction, RunClock, RunMode, RunPhase, RunPlan, SharedState,
};
use crate::session::TransitionEvent;

verus! {

/// The events of one run, in the order of the log: ids with timestamps.
pub open spec fn events_of<V>(log: Seq<TransitionEvent<V>>, run: u32) -> Seq<(u64, V)>
    decreases log.len(),
{
    if log.len() == 0 {
        Seq::empty()
    } else {
        let before = events_of(log.drop_last(), run);
        let e = log.last();
        if e.run == run {
            before.push((e.id, e.ms))
        } else {
            before
        }
    }
}

/// The number of events in the runs before `run`.
pub open spec fn count_before<V>(log: Seq<TransitionEvent<V>>, run: int) -> nat
    decreases log.len(),
{
    if log.len() == 0 {
        0
    } else {
        count_before(log.drop_last(), run) + (if log.last().run < run {
            1nat
        } else {
            0
        })
    }
}

/// The display log is in order: runs follow one another, each run numbers its
/// transitions from zero, and the transition that is shown continues the numbering.
pub open spec fn is_display_log<V>(phase: RunPhase, log: Seq<TransitionEvent<V>>) -> bool {
    &&& forall|i: int| 0 <= i < log.len() ==> #[trigger] continues(log, i)
    &&& log.len() > 0 ==> log.last().run <= phase.current_run
    &&& phase.current_transition_id == if log.len() > 0 && log.last().run == phase.current_run {
        log.last().id + 1
    } else {
        0
    }
}

/// Event `i` continues the run of the event before it, or begins a later run.
pub open spec fn continues<V>(log: Seq<TransitionEvent<V>>, i: int) -> bool {
    if i > 0 && log[i - 1].run == log[i].run {
        log[i].id == log[i - 1].id + 1
    } else {
        log[i].id == 0 && (i > 0 ==> log[i - 1].run < log[i].run)
    }
}

/// A log is in order: runs follow one another, and ids increase within a run.
pub open spec fn is_ordered_log<V>(phase: RunPhase, log: Seq<TransitionEvent<V>>) -> bool {
    &&& forall|i: int, j: int|
        0 <= i < j < log.len() ==> {
            &&& (#[trigger] log[i]).run <= (#[trigger] log[j]).run
            &&& log[i].run == log[j].run ==> log[i].id < log[j].id
        }
    &&& log.len() > 0 ==> log.last().run <= phase.current_run
}

/// A measurement that has not begun is on plan and its logs are in order.
pub proof fn law_new_measurement<V>(plan: RunPlan, state: SharedState<V>, clock: RunClock)
    requires
        state.phase.current_run == 0,
        state.phase.current_transition_id == 0,
        state.display_events@.len() == 0,
        state.camera_events@.len() == 0,
        clock.pause_until_ns is None,
    ensures
        is_on_plan(plan, state.phase, clock),
        is_display_log(state.phase, state.display_events@),
        is_ordered_log(state.phase, state.camera_events@),
{
}

/// Updates keep both logs in order.
pub proof fn law_updates_keep_logs_in_order<A: Arithmetic>(
    plan: RunPlan,
    duration_s: A::Value,
    now: u64,
    state: SharedState<A::Value>,
    clock: RunClock,
    new_state: SharedState<A::Value>,
    new_clock: RunClock,
    action: ModeAction,
)
    requires
        is_on_plan(plan, state.phase, clock),
        state.phase.current_transition_id < u64::MAX,
        is_update::<A>(plan, duration_s, now, state, clock, new_state, new_clock, action),
        is_display_log(state.phase, state.display_events@),
        is_ordered_log(state.phase, state.camera_events@),
    ensures
        is_display_log(new_state.phase, new_state.display_events@),
        is_ordered_log(new_state.phase, new_state.camera_events@),
        new_state.phase.current_run >= state.phase.current_run,
{
    let (phase1, clock1) = begun(state.phase, clock, now);
    let over = choose|over: bool|
        {
            let (phase2, clock2) = advanced(plan, phase1, clock1, now, over);
            &&& #[trigger] is_over::<A>(plan, duration_s, now, clock1, over)
            &&& action == action_for(plan, phase1, clock1, over)
            &&& is_tick::<A>(
                plan,
                now,
                phase2,
                clock2,
                state.display_events@,
                new_state.phase,
                new_clock,
                new_state.display_events@,
            )
            &&& new_state.camera_events@ == state.camera_events@
            &&& new_state.frames == state.frames
        };
    let (phase2, clock2) = advanced(plan, phase1, clock1, now, over);
    let log = state.display_events@;
    let new_log = new_state.display_events@;
    assert(is_display_log(phase2, log));
    if is_tick_due(plan, phase2, clock2, now) {
        assert forall|i: int| 0 <= i < new_log.len() implies #[trigger] continues(new_log, i) by {
            if i < log.len() {
                assert(continues(log, i));
                assert(new_log[i] == log[i]);
                if i > 0 {
                    assert(new_log[i - 1] == log[i - 1]);
                }
            } else if i > 0 {
                assert(new_log[i - 1] == log.last());
            }
        }
    }
}

pub proof fn lemma_runs_grow<V>(phase: RunPhase, log: Seq<TransitionEvent<V>>, i: int, j: int)
    requires
        is_display_log(phase, log),
        0 <= i <= j < log.len(),
    ensures
        log[i].run <= log[j].run,
    decreases j - i,
{
    if i < j {
        lemma_runs_grow(phase, log, i, j - 1);
        assert(continues(log, j));
    }
}

proof fn lemma_no_events_yet<V>(log: Seq<TransitionEvent<V>>, run: u32)
    requires
        forall|i: int| 0 <= i < log.len() ==> (#[trigger] log[i]).run < run,
    ensures
        events_of(log, run).len() == 0,
    decreases log.len(),
{
    if log.len() > 0 {
        assert(log.last().run < run);
        lemma_no_events_yet(log.drop_last(), run);
    }
}

proof fn lemma_numbered_from_zero<V>(
    phase: RunPhase,
    log: Seq<TransitionEvent<V>>,
    n: int,
    run: u32,
)
    requires
        is_display_log(phase, log),
        0 <= n <= log.len(),
    ensures
        forall|k: int|
            0 <= k < events_of(log.take(n), run).len() ==> (#[trigger] events_of(
                log.take(n),
                run,
            )[k]).0 == k,
        n > 0 && log[n - 1].run == run ==> events_of(log.take(n), run).len() == log[n - 1].id + 1,
    decreases n,
{
    if n > 0 {
        lemma_numbered_from_zero(phase, log, n - 1, run);
        assert(log.take(n).drop_last() == log.take(n - 1));
        assert(continues(log, n - 1));
        if log[n - 1].run == run && !(n > 1 && log[n - 2].run == run) {
            assert forall|i: int| 0 <= i < n - 1 implies (#[trigger] log.take(n - 1)[i]).run
                < run by {
                lemma_runs_grow(phase, log, i, n - 2);
            }
            lemma_no_events_yet(log.take(n - 1), run);
        }
        let earlier = events_of(log.take(n - 1), run);
        let now = events_of(log.take(n), run);
        assert(now == if log[n - 1].run == run {
            earlier.push((log[n - 1].id, log[n - 1].ms))
        } else {
            earlier
        });
        assert forall|k: int| 0 <= k < now.len() implies (#[trigger] now[k]).0 == k by {
            if k < earlier.len() {
                assert(now[k] == earlier[k]);
            }
        }
    }
}

/// Within each run the shown transitions are numbered from zero without a gap.
pub proof fn law_display_ids_count_up<V>(phase: RunPhase, log: Seq<TransitionEvent<V>>, run: u32)
    requires
        is_display_log(phase, log),
    ensures
        forall|k: int|
            0 <= k < events_of(log, run).len() ==> (#[trigger] events_of(log, run)[k]).0 == k,
        is_increasing(event_ids(events_of(log, run))),
{
    lemma_numbered_from_zero(phase, log, log.len() as int, run);
    assert(log.take(log.len() as int) == log);
}

proof fn lemma_selected_below<V>(log: Seq<TransitionEvent<V>>, run: u32, bound: u64)
    requires
        forall|i: int|
            0 <= i < log.len() && (#[trigger] log[i]).run == run ==> log[i].id < bound,
    ensures
        forall|k: int|
            0 <= k < events_of(log, run).len() ==> (#[trigger] events_of(log, run)[k]).0 < bound,
    decreases log.len(),
{
    if log.len() > 0 {
        let e = log[log.len() - 1];
        assert forall|i: int|
            0 <= i < log.drop_last().len() && (#[trigger] log.drop_last()[i]).run
                == run implies log.drop_last()[i].id < bound by {
            assert(log.drop_last()[i] == log[i]);
        }
        lemma_selected_below(log.drop_last(), run, bound);
        let earlier = events_of(log.drop_last(), run);
        let now = events_of(log, run);
        assert(now == if e.run == run {
            earlier.push((e.id, e.ms))
        } else {
            earlier
        });
        assert forall|k: int| 0 <= k < now.len() implies (#[trigger] now[k]).0 < bound by {
            if k < earlier.len() {
                assert(now[k] == earlier[k]);
            }
        }
    }
}

proof fn lemma_ids_grow<V>(phase: RunPhase, log: Seq<TransitionEvent<V>>, i: int, j: int)
    requires
        is_display_log(phase, log),
        0 <= i < j < log.len(),
        log[i].run == log[j].run,
    ensures
        log[i].id < log[j].id,
    decreases j - i,
{
    lemma_runs_grow(phase, log, i, j - 1);
    lemma_runs_grow(phase, log, j - 1, j);
    assert(continues(log, j));
    if i < j - 1 {
        lemma_ids_grow(phase, log, i, j - 1);
    }
}

/// A display log is in order.
pub proof fn law_display_log_is_ordered<V>(phase: RunPhase, log: Seq<TransitionEvent<V>>)
    requires
        is_display_log(phase, log),
    ensures
        is_ordered_log(phase, log),
{
    assert forall|i: int, j: int| 0 <= i < j < log.len() implies {
        &&& (#[trigger] log[i]).run <= (#[trigger] log[j]).run
        &&& log[i].run == log[j].run ==> log[i].id < log[j].id
    } by {
        lemma_runs_grow(phase, log, i, j);
        if log[i].run == log[j].run {
            lemma_ids_grow(phase, log, i, j);
        }
    }
}

/// Within each run of a log in order the ids increase.
pub proof fn law_logged_ids_increase<V>(phase: RunPhase, log: Seq<TransitionEvent<V>>, run: u32)
    requires
        is_ordered_log(phase, log),
    ensures
        is_increasing(event_ids(events_of(log, run))),
    decreases log.len(),
{
    if log.len() > 0 {
        let before = log.drop_last();
        let e = log[log.len() - 1];
        assert(is_ordered_log(phase, before)) by {
            if before.len() > 0 {
                assert(log[log.len() - 2].run <= e.run);
            }
        }
        law_logged_ids_increase(phase, before, run);
        if e.run == run {
            assert forall|i: int|
                0 <= i < before.len() && (#[trigger] before[i]).run == run implies before[i].id
                < e.id by {
                assert(before[i] == log[i]);
            }
            lemma_selected_below(before, run, e.id);
            let ids = event_ids(events_of(log, run));
            let earlier = event_ids(events_of(before, run));
            assert(ids == earlier.push(e.id));
            assert forall|i: int| 0 <= i < earlier.len() implies #[trigger] earlier[i] < e.id by {
                assert(earlier[i] == events_of(before, run)[i].0);
            }
        }
    }
}

/// The report on a run of logs in order samples exactly the transitions of the run
/// that were shown and seen.
pub proof fn law_run_samples_are_the_common_ids<A: Statistical>(
    state: SharedState<A::Value>,
    run: u32,
    report: LatencyReport<A::Value>,
    id: u64,
)
    requires
        is_ordered_log(state.phase, state.display_events@),
        is_ordered_log(state.phase, state.camera_events@),
        is_report::<A>(
            events_of(state.display_events@, run),
            events_of(state.camera_events@, run),
            report,
        ),
    ensures
        (exists|k: int|
            0 <= k < report.samples@.len() && (#[trigger] report.samples@[k]).transition_id == id)
            <==> event_ids(events_of(state.display_events@, run)).contains(id) && event_ids(
            events_of(state.camera_events@, run),
        ).contains(id),
{
    law_logged_ids_increase(state.phase, state.display_events@, run);
    law_logged_ids_increase(state.phase, state.camera_events@, run);
    law_samples_are_the_common_ids::<A>(
        events_of(state.display_events@, run),
        events_of(state.camera_events@, run),
        report,
        id,
    );
}

/// The epoch is set when the measurement begins and stays: the timestamps of both
/// logs are counted from the same instant.
pub proof fn law_epoch_is_set_once<A: Arithmetic>(
    plan: RunPlan,
    duration_s: A::Value,
    now: u64,
    state: SharedState<A::Value>,
    clock: RunClock,
    new_state: SharedState<A::Value>,
    new_clock: RunClock,
    action: ModeAction,
)
    requires
        is_update::<A>(plan, duration_s, now, state, clock, new_state, new_clock, action),
    ensures
        new_state.phase.run_started,
        state.phase.run_started ==> new_state.phase.epoch_ns == state.phase.epoch_ns,
        !state.phase.run_started ==> new_state.phase.epoch_ns == now,
{
}

/// In online mode the one run goes on: no update ends it or begins another.
pub proof fn law_online_run_goes_on<A: Arithmetic>(
    plan: RunPlan,
    duration_s: A::Value,
    now: u64,
    state: SharedState<A::Value>,
    clock: RunClock,
    new_state: SharedState<A::Value>,
    new_clock: RunClock,
    action: ModeAction,
)
    requires
        plan.mode == RunMode::Online,
        is_update::<A>(plan, duration_s, now, state, clock, new_state, new_clock, action),
    ensures
        action == ModeAction::Continue,
        new_state.phase.current_run == state.phase.current_run,
        new_state.phase.run_finished == state.phase.run_finished,
        new_state.phase.run_started,
        state.phase.run_started ==> new_state.phase.capture_active == state.phase.capture_active,
        !state.phase.run_started ==> new_state.phase.capture_active,
{
}

/// In offline mode the measurement ends with the last planned run and not before,
/// and from then on no transition is logged.
pub proof fn law_offline_ends_after_the_planned_runs<A: Arithmetic>(
    plan: RunPlan,
    duration_s: A::Value,
    now: u64,
    state: SharedState<A::Value>,
    clock: RunClock,
    new_state: SharedState<A::Value>,
    new_clock: RunClock,
    action: ModeAction,
)
    requires
        plan.mode == RunMode::Offline,
        is_on_plan(plan, state.phase, clock),
        is_update::<A>(plan, duration_s, now, state, clock, new_state, new_clock, action),
    ensures
        action is Close ==> new_state.phase.run_finished && new_state.phase.current_run + 1
            == planned_runs(plan.offline_runs),
        new_state.phase.run_finished <==> state.phase.run_finished || action is Close,
        new_state.phase.run_finished ==> new_state.display_events@ == state.display_events@,
{
}

/// The camera side is told to stop once at most.
pub proof fn law_stop_is_sent_once<A: Arithmetic>(
    plan: RunPlan,
    duration_s: A::Value,
    now: u64,
    state: SharedState<A::Value>,
    clock: RunClock,
    new_state: SharedState<A::Value>,
    new_clock: RunClock,
    action: ModeAction,
)
    requires
        is_update::<A>(plan, duration_s, now, state, clock, new_state, new_clock, action),
    ensures
        action == (ModeAction::Close { send_stop: true }) ==> !clock.done_sent,
        new_clock.done_sent <==> clock.done_sent || action is Close,
{
}

} // verus!
