//! The warm-up: what is logged before it is over is left out of the results.

use vstd::prelude::*;

use crate::arithmetic::Arithmetic;
#[allow(unused_imports)]
use crate::arithmetic::{is_at_least, is_count, is_exact, is_product};
#[allow(unused_imports)]
use crate::logs::is_ordered_log;
#[allow(unused_imports)]
use crate::session::RunPhase;
use crate::session::{SharedState, TransitionEvent};
#[allow(unused_imports)]
use crate::timing::follows_durations;

verus! {

/// The events of a log that are marked in `keep`, in order.
pub open spec fn kept<V>(log: Seq<TransitionEvent<V>>, keep: Seq<bool>) -> Seq<TransitionEvent<V>>
    decreases log.len(),
{
    if log.len() == 0 {
        Seq::empty()
    } else {
        let before = kept(log.drop_last(), keep.drop_last());
        if keep.last() {
            before.push(log.last())
        } else {
            before
        }
    }
}

/// `keep` marks the events that come no earlier than the end of the warm-up.
pub open spec fn are_late_enough<V: PartialOrd>(
    log: Seq<TransitionEvent<V>>,
    warmup_ms: V,
    keep: Seq<bool>,
) -> bool {
    &&& keep.len() == log.len()
    &&& forall|i: int|
        0 <= i < log.len() ==> is_at_least(log[i].ms, warmup_ms, #[trigger] keep[i])
}

/// `rest` are the events of a log that come no earlier than the end of the warm-up.
pub open spec fn is_after_warmup<V: PartialOrd>(
    log: Seq<TransitionEvent<V>>,
    warmup_ms: V,
    rest: Seq<TransitionEvent<V>>,
) -> bool {
    exists|keep: Seq<bool>| #[trigger]
        are_late_enough(log, warmup_ms, keep) && rest == kept(log, keep)
}

/// `ms` are the milliseconds of `s` seconds.
pub open spec fn is_in_milliseconds<A: Arithmetic>(s: A::Value, ms: A::Value) -> bool {
    exists|thousand: A::Value| #[trigger]
        is_count::<A>(1000, thousand) && is_product::<A>(s, thousand, ms)
}

/// `rest` is the state of a measurement without what was logged during the warm-up.
pub open spec fn is_sampled_state<A: Arithmetic>(
    state: SharedState<A::Value>,
    warmup_s: A::Value,
    rest: SharedState<A::Value>,
) -> bool {
    &&& rest.phase == state.phase
    &&& rest.frames == state.frames
    &&& exists|ms: A::Value| #[trigger]
        is_in_milliseconds::<A>(warmup_s, ms) && is_after_warmup(
            state.display_events@,
            ms,
            rest.display_events@,
        ) && is_after_warmup(state.camera_events@, ms, rest.camera_events@)
}

/// The events of a log that come no earlier than the end of the warm-up.
pub fn after_warmup<V: Copy + PartialOrd>(
    log: &Vec<TransitionEvent<V>>,
    warmup_ms: V,
) -> (rest: Vec<TransitionEvent<V>>)
    ensures
        is_after_warmup(log@, warmup_ms, rest@),
{
    let mut rest: Vec<TransitionEvent<V>> = Vec::new();
    let ghost mut keep: Seq<bool> = Seq::empty();
    let mut i: usize = 0;
    while i < log.len()
        invariant
            i <= log@.len(),
            are_late_enough(log@.take(i as int), warmup_ms, keep),
            rest@ == kept(log@.take(i as int), keep),
        decreases log@.len() - i,
    {
        let e = log[i];
        let late = e.ms >= warmup_ms;
        assert(is_at_least(e.ms, warmup_ms, late));
        assert(log@.take(i + 1).drop_last() == log@.take(i as int));
        assert(keep.push(late).drop_last() == keep);
        if late {
            rest.push(e);
        }
        proof {
            keep = keep.push(late);
        }
        i = i + 1;
    }
    assert(log@.take(i as int) == log@);
    assert(are_late_enough(log@, warmup_ms, keep));
    rest
}

/// The state of a measurement without what was logged during the warm-up.
pub fn sampled_state<A: Arithmetic>(state: &SharedState<A::Value>, warmup_s: A::Value) -> (rest:
    SharedState<A::Value>)
    ensures
        is_sampled_state::<A>(*state, warmup_s, rest),
{
    let thousand = A::from_count(1000);
    let ms = A::times(warmup_s, thousand);
    assert(is_count::<A>(1000, thousand));
    assert(is_in_milliseconds::<A>(warmup_s, ms));
    SharedState {
        phase: state.phase,
        display_events: after_warmup(&state.display_events, ms),
        camera_events: after_warmup(&state.camera_events, ms),
        frames: state.frames,
    }
}

/// What is left out comes before the end of the warm-up, and what is kept does not.
pub proof fn law_warmup_keeps_exactly_the_late_events<V: PartialOrd>(
    log: Seq<TransitionEvent<V>>,
    warmup_ms: V,
    keep: Seq<bool>,
    e: TransitionEvent<V>,
)
    requires
        are_late_enough(log, warmup_ms, keep),
    ensures
        kept(log, keep).contains(e) <==> exists|i: int|
            0 <= i < log.len() && log[i] == e && #[trigger] keep[i],
    decreases log.len(),
{
    if log.len() > 0 {
        let n = log.len() - 1;
        let (init, marks) = (log.drop_last(), keep.drop_last());
        assert(are_late_enough(init, warmup_ms, marks)) by {
            assert forall|i: int| 0 <= i < init.len() implies is_at_least(
                init[i].ms,
                warmup_ms,
                #[trigger] marks[i],
            ) by {
                assert(is_at_least(log[i].ms, warmup_ms, keep[i]));
            }
        }
        law_warmup_keeps_exactly_the_late_events(init, warmup_ms, marks, e);
        let before = kept(init, marks);
        let all = kept(log, keep);
        if all.contains(e) {
            let k = choose|k: int| 0 <= k < all.len() && all[k] == e;
            if k < before.len() {
                assert(before[k] == e);
                let i = choose|i: int| 0 <= i < init.len() && init[i] == e && #[trigger] marks[i];
                assert(log[i] == e && keep[i]);
            } else {
                assert(log[n] == e && keep[n]);
            }
        }
        if exists|i: int| 0 <= i < log.len() && log[i] == e && #[trigger] keep[i] {
            let i = choose|i: int| 0 <= i < log.len() && log[i] == e && #[trigger] keep[i];
            if i < n {
                assert(init[i] == e && marks[i]);
                let k = choose|k: int| 0 <= k < before.len() && before[k] == e;
                assert(all[k] == e);
            } else {
                assert(all.last() == e);
            }
        }
    }
}

/// The position in the log of each event that is kept: an increasing sequence.
proof fn lemma_kept_positions<V>(log: Seq<TransitionEvent<V>>, keep: Seq<bool>) -> (at: Seq<int>)
    ensures
        at.len() == kept(log, keep).len(),
        forall|k: int|
            0 <= k < at.len() ==> 0 <= #[trigger] at[k] < log.len() && kept(log, keep)[k]
                == log[at[k]],
        forall|k: int, l: int| 0 <= k < l < at.len() ==> #[trigger] at[k] < #[trigger] at[l],
    decreases log.len(),
{
    if log.len() == 0 {
        Seq::empty()
    } else {
        let before = lemma_kept_positions(log.drop_last(), keep.drop_last());
        if keep.last() {
            before.push(log.len() - 1)
        } else {
            before
        }
    }
}

/// Leaving out the warm-up keeps a log in order.
pub proof fn law_warmup_keeps_order<V: PartialOrd>(
    phase: RunPhase,
    log: Seq<TransitionEvent<V>>,
    warmup_ms: V,
    rest: Seq<TransitionEvent<V>>,
)
    requires
        is_ordered_log(phase, log),
        is_after_warmup(log, warmup_ms, rest),
    ensures
        is_ordered_log(phase, rest),
{
    let keep = choose|keep: Seq<bool>| #[trigger]
        are_late_enough(log, warmup_ms, keep) && rest == kept(log, keep);
    let at = lemma_kept_positions(log, keep);
    assert forall|i: int, j: int| 0 <= i < j < rest.len() implies {
        &&& (#[trigger] rest[i]).run <= (#[trigger] rest[j]).run
        &&& rest[i].run == rest[j].run ==> rest[i].id < rest[j].id
    } by {
        assert(at[i] < at[j]);
        assert(rest[i] == log[at[i]]);
        assert(rest[j] == log[at[j]]);
    }
    if rest.len() > 0 {
        let last = at[rest.len() - 1];
        assert(rest.last() == log[last]);
        if last < log.len() - 1 {
            assert(log[last].run <= log[log.len() - 1].run);
        }
    }
}

/// Without a warm-up nothing is left out: a log whose events all come late enough
/// stays as it is.
pub proof fn law_no_warmup_keeps_all<V>(log: Seq<TransitionEvent<V>>, keep: Seq<bool>)
    requires
        keep.len() == log.len(),
        forall|i: int| 0 <= i < log.len() ==> #[trigger] keep[i],
    ensures
        kept(log, keep) == log,
    decreases log.len(),
{
    if log.len() > 0 {
        assert(keep[log.len() - 1]);
        assert forall|i: int| 0 <= i < log.len() - 1 implies #[trigger] keep.drop_last()[i] by {
            assert(keep[i]);
        }
        law_no_warmup_keeps_all(log.drop_last(), keep.drop_last());
        assert(log == log.drop_last().push(log.last()));
    } else {
        assert(kept(log, keep) == log);
    }
}

proof fn lemma_kept_is_filtered<V: PartialOrd>(
    log: Seq<TransitionEvent<V>>,
    keep: Seq<bool>,
    is_kept: spec_fn(TransitionEvent<V>) -> bool,
)
    requires
        keep.len() == log.len(),
        forall|i: int| 0 <= i < log.len() ==> #[trigger] keep[i] == is_kept(log[i]),
    ensures
        kept(log, keep) == log.filter(is_kept),
    decreases log.len(),
{
    reveal(Seq::filter);
    if log.len() > 0 {
        let n = log.len() - 1;
        assert forall|i: int| 0 <= i < n implies #[trigger] keep.drop_last()[i] == is_kept(
            log.drop_last()[i],
        ) by {
            assert(keep[i] == is_kept(log[i]));
        }
        lemma_kept_is_filtered(log.drop_last(), keep.drop_last(), is_kept);
        assert(keep[n] == is_kept(log[n]));
    } else {
        assert(kept(log, keep) == log.filter(is_kept));
    }
}

/// What is left after the warm-up: of either log the events whose timestamps are at
/// least a thousand times the seconds of the warm-up, in order, and everything else
/// as it was. Nothing is rounded.
pub proof fn law_warmup_in_numbers<A: Arithmetic>(
    state: SharedState<A::Value>,
    warmup_s: A::Value,
    rest: SharedState<A::Value>,
    number: spec_fn(A::Value) -> real,
)
    requires
        is_exact::<A>(number),
        follows_durations::<A>(number),
        is_sampled_state::<A>(state, warmup_s, rest),
    ensures
        rest.phase == state.phase,
        rest.frames == state.frames,
        rest.display_events@ == state.display_events@.filter(
            |e: TransitionEvent<A::Value>| number(e.ms) >= number(warmup_s) * 1000real,
        ),
        rest.camera_events@ == state.camera_events@.filter(
            |e: TransitionEvent<A::Value>| number(e.ms) >= number(warmup_s) * 1000real,
        ),
{
    let ms = choose|ms: A::Value| #[trigger]
        is_in_milliseconds::<A>(warmup_s, ms) && is_after_warmup(
            state.display_events@,
            ms,
            rest.display_events@,
        ) && is_after_warmup(state.camera_events@, ms, rest.camera_events@);
    let thousand = choose|thousand: A::Value| #[trigger]
        is_count::<A>(1000, thousand) && is_product::<A>(warmup_s, thousand, ms);
    assert(number(thousand) == 1000real);
    assert(number(ms) == number(warmup_s) * 1000real);
    let is_kept = |e: TransitionEvent<A::Value>| number(e.ms) >= number(warmup_s) * 1000real;
    let shown = choose|keep: Seq<bool>| #[trigger]
        are_late_enough(state.display_events@, ms, keep) && rest.display_events@ == kept(
            state.display_events@,
            keep,
        );
    let seen = choose|keep: Seq<bool>| #[trigger]
        are_late_enough(state.camera_events@, ms, keep) && rest.camera_events@ == kept(
            state.camera_events@,
            keep,
        );
    lemma_kept_is_filtered(state.display_events@, shown, is_kept);
    lemma_kept_is_filtered(state.camera_events@, seen, is_kept);
}

/// Leaving out a warm-up from a log alone: the events whose timestamps are at least its
/// end, in order.
pub proof fn law_log_after_warmup_in_numbers<A: Arithmetic>(
    log: Seq<TransitionEvent<A::Value>>,
    warmup_ms: A::Value,
    rest: Seq<TransitionEvent<A::Value>>,
    number: spec_fn(A::Value) -> real,
)
    requires
        follows_durations::<A>(number),
        is_after_warmup(log, warmup_ms, rest),
    ensures
        rest == log.filter(|e: TransitionEvent<A::Value>| number(e.ms) >= number(warmup_ms)),
{
    let keep = choose|keep: Seq<bool>| #[trigger]
        are_late_enough(log, warmup_ms, keep) && rest == kept(log, keep);
    lemma_kept_is_filtered(
        log,
        keep,
        |e: TransitionEvent<A::Value>| number(e.ms) >= number(warmup_ms),
    );
}

} // verus!
