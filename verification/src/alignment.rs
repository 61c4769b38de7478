//! How displayed transitions are matched with the transitions that the camera saw.
//!
//! Both logs are walked from the front. A displayed transition is matched with
//! the first camera event, past those already consumed, whose id is not smaller;
//! it counts as seen when the two ids are equal.

#[allow(unused_imports)]
use vstd::math::min;
use vstd::prelude::*;

verus! {

/// The first position from `from` on whose id is at least `id`.
pub open spec fn first_at_least(ids: Seq<u64>, from: int, id: u64) -> int
    decreases ids.len() - from,
{
    if from >= ids.len() || ids[from] >= id {
        from
    } else {
        first_at_least(ids, from + 1, id)
    }
}

/// How many camera events the first `n` displayed transitions consume.
pub open spec fn consumed(display: Seq<u64>, camera: Seq<u64>, n: int) -> int
    decreases n,
{
    if n <= 0 {
        0
    } else {
        let at = first_at_least(camera, consumed(display, camera, n - 1), display[n - 1]);
        if at < camera.len() && camera[at] == display[n - 1] {
            at + 1
        } else {
            at
        }
    }
}

/// The camera event that displayed transition `i` is held against.
pub open spec fn candidate(display: Seq<u64>, camera: Seq<u64>, i: int) -> int {
    first_at_least(camera, consumed(display, camera, i), display[i])
}

/// Displayed transition `i` was seen by the camera.
pub open spec fn is_seen(display: Seq<u64>, camera: Seq<u64>, i: int) -> bool {
    let at = candidate(display, camera, i);
    at < camera.len() && camera[at] == display[i]
}

/// The matches among the first `n` displayed transitions: positions in the
/// display log with positions in the camera log.
pub open spec fn matches_up_to(display: Seq<u64>, camera: Seq<u64>, n: int) -> Seq<(int, int)>
    decreases n,
{
    if n <= 0 {
        Seq::empty()
    } else {
        let before = matches_up_to(display, camera, n - 1);
        if is_seen(display, camera, n - 1) {
            before.push((n - 1, candidate(display, camera, n - 1)))
        } else {
            before
        }
    }
}

/// All matches.
pub open spec fn alignment(display: Seq<u64>, camera: Seq<u64>) -> Seq<(int, int)> {
    matches_up_to(display, camera, display.len() as int)
}

/// Each id is larger than the one before it.
pub open spec fn is_increasing(ids: Seq<u64>) -> bool {
    forall|i: int, j: int| 0 <= i < j < ids.len() ==> #[trigger] ids[i] < #[trigger] ids[j]
}

pub proof fn lemma_first_at_least(ids: Seq<u64>, from: int, id: u64)
    requires
        0 <= from <= ids.len(),
    ensures
        from <= first_at_least(ids, from, id) <= ids.len(),
        forall|k: int| from <= k < first_at_least(ids, from, id) ==> #[trigger] ids[k] < id,
        first_at_least(ids, from, id) < ids.len() ==> ids[first_at_least(ids, from, id)] >= id,
    decreases ids.len() - from,
{
    if from < ids.len() && ids[from] < id {
        lemma_first_at_least(ids, from + 1, id);
    }
}

pub proof fn lemma_consumed_bounds(display: Seq<u64>, camera: Seq<u64>, n: int)
    requires
        0 <= n <= display.len(),
    ensures
        0 <= consumed(display, camera, n) <= camera.len(),
        n < display.len() ==> consumed(display, camera, n) <= candidate(display, camera, n)
            <= camera.len(),
    decreases n,
{
    if n > 0 {
        lemma_consumed_bounds(display, camera, n - 1);
        lemma_first_at_least(camera, consumed(display, camera, n - 1), display[n - 1]);
    }
    if n < display.len() {
        lemma_first_at_least(camera, consumed(display, camera, n), display[n]);
    }
}

proof fn lemma_matches(display: Seq<u64>, camera: Seq<u64>, n: int)
    requires
        0 <= n <= display.len(),
    ensures
        ({
            let m = matches_up_to(display, camera, n);
            &&& m.len() <= n
            &&& m.len() <= consumed(display, camera, n) <= camera.len()
            &&& forall|k: int|
                0 <= k < m.len() ==> {
                    &&& 0 <= (#[trigger] m[k]).0 < n
                    &&& 0 <= m[k].1 < consumed(display, camera, n)
                    &&& display[m[k].0] == camera[m[k].1]
                }
            &&& forall|k: int, l: int|
                0 <= k < l < m.len() ==> (#[trigger] m[k]).0 < (#[trigger] m[l]).0 && m[k].1
                    < m[l].1
        }),
    decreases n,
{
    if n > 0 {
        lemma_matches(display, camera, n - 1);
        lemma_consumed_bounds(display, camera, n - 1);
        lemma_consumed_bounds(display, camera, n);
    }
}

/// Matching is sound and never reuses an event: matched events carry the same
/// id, and both positions grow from match to match.
pub proof fn law_matches_pair_equal_ids(display: Seq<u64>, camera: Seq<u64>)
    ensures
        alignment(display, camera).len() <= display.len(),
        alignment(display, camera).len() <= camera.len(),
        forall|k: int|
            0 <= k < alignment(display, camera).len() ==> {
                let (i, j) = #[trigger] alignment(display, camera)[k];
                0 <= i < display.len() && 0 <= j < camera.len() && display[i] == camera[j]
            },
        forall|k: int, l: int|
            0 <= k < l < alignment(display, camera).len() ==> {
                &&& (#[trigger] alignment(display, camera)[k]).0 < (#[trigger] alignment(
                    display,
                    camera,
                )[l]).0
                &&& alignment(display, camera)[k].1 < alignment(display, camera)[l].1
            },
{
    lemma_matches(display, camera, display.len() as int);
}

proof fn lemma_consumed_are_smaller(display: Seq<u64>, camera: Seq<u64>, n: int, j: int)
    requires
        is_increasing(display),
        0 < n <= display.len(),
        0 <= j < consumed(display, camera, n),
    ensures
        j < camera.len(),
        camera[j] <= display[n - 1],
    decreases n,
{
    lemma_consumed_bounds(display, camera, n);
    lemma_consumed_bounds(display, camera, n - 1);
    let from = consumed(display, camera, n - 1);
    lemma_first_at_least(camera, from, display[n - 1]);
    if j < from {
        lemma_consumed_are_smaller(display, camera, n - 1, j);
    }
}

proof fn lemma_match_is_kept(display: Seq<u64>, camera: Seq<u64>, n: int, i: int)
    requires
        0 <= i < n,
        is_seen(display, camera, i),
    ensures
        matches_up_to(display, camera, n).contains((i, candidate(display, camera, i))),
    decreases n,
{
    let m = matches_up_to(display, camera, n);
    let before = matches_up_to(display, camera, n - 1);
    let pair = (i, candidate(display, camera, i));
    if i == n - 1 {
        assert(m.last() == pair);
    } else {
        lemma_match_is_kept(display, camera, n - 1, i);
        let k = choose|k: int| 0 <= k < before.len() && before[k] == pair;
        assert(m[k] == pair);
    }
}

/// Matching is complete on logs whose ids increase: every id that occurs in
/// both logs is matched.
pub proof fn law_common_ids_are_matched(display: Seq<u64>, camera: Seq<u64>, i: int, j: int)
    requires
        is_increasing(display),
        is_increasing(camera),
        0 <= i < display.len(),
        0 <= j < camera.len(),
        display[i] == camera[j],
    ensures
        alignment(display, camera).contains((i, j)),
{
    let from = consumed(display, camera, i);
    lemma_consumed_bounds(display, camera, i);
    if j < from {
        lemma_consumed_are_smaller(display, camera, i, j);
    }
    lemma_first_at_least(camera, from, display[i]);
    lemma_match_is_kept(display, camera, display.len() as int, i);
}

proof fn lemma_numbered_prefix(display: Seq<u64>, camera: Seq<u64>, n: int)
    requires
        0 <= n <= display.len(),
        forall|i: int| 0 <= i < display.len() ==> #[trigger] display[i] == i,
        forall|i: int| 0 <= i < camera.len() ==> #[trigger] camera[i] == i,
    ensures
        matches_up_to(display, camera, n) == Seq::new(
            min(n, camera.len() as int) as nat,
            |k: int| (k, k),
        ),
        consumed(display, camera, n) == min(n, camera.len() as int),
    decreases n,
{
    if n > 0 {
        lemma_numbered_prefix(display, camera, n - 1);
        lemma_first_at_least(camera, consumed(display, camera, n - 1), display[n - 1]);
    }
}

/// Two logs that both number their events from zero are matched position by
/// position, up to the end of the shorter one.
pub proof fn law_numbered_logs_match_by_position(display: Seq<u64>, camera: Seq<u64>)
    requires
        forall|i: int| 0 <= i < display.len() ==> #[trigger] display[i] == i,
        forall|i: int| 0 <= i < camera.len() ==> #[trigger] camera[i] == i,
    ensures
        alignment(display, camera) == Seq::new(
            min(display.len() as int, camera.len() as int) as nat,
            |k: int| (k, k),
        ),
{
    lemma_numbered_prefix(display, camera, display.len() as int);
}

/// The matches from position `i` of the display log and `j` of the camera log on,
/// as a walk through both logs at once: of two different ids the smaller one is
/// passed over, equal ones are matched.
pub open spec fn walk(display: Seq<u64>, camera: Seq<u64>, i: int, j: int) -> Seq<(int, int)>
    decreases display.len() - i + camera.len() - j,
{
    if i < 0 || j < 0 || i >= display.len() || j >= camera.len() {
        Seq::empty()
    } else if camera[j] < display[i] {
        walk(display, camera, i, j + 1)
    } else if camera[j] == display[i] {
        seq![(i, j)] + walk(display, camera, i + 1, j + 1)
    } else {
        walk(display, camera, i + 1, j)
    }
}

proof fn lemma_walk_skips(display: Seq<u64>, camera: Seq<u64>, i: int, j: int)
    requires
        0 <= i < display.len(),
        0 <= j <= camera.len(),
    ensures
        walk(display, camera, i, j) == walk(
            display,
            camera,
            i,
            first_at_least(camera, j, display[i]),
        ),
    decreases camera.len() - j,
{
    if j < camera.len() && camera[j] < display[i] {
        lemma_walk_skips(display, camera, i, j + 1);
    }
}

proof fn lemma_walk_from(display: Seq<u64>, camera: Seq<u64>, n: int)
    requires
        0 <= n <= display.len(),
    ensures
        alignment(display, camera) == matches_up_to(display, camera, n) + walk(
            display,
            camera,
            n,
            consumed(display, camera, n),
        ),
    decreases display.len() - n,
{
    if n < display.len() {
        let from = consumed(display, camera, n);
        let at = candidate(display, camera, n);
        lemma_consumed_bounds(display, camera, n);
        lemma_consumed_bounds(display, camera, n + 1);
        lemma_first_at_least(camera, from, display[n]);
        lemma_walk_skips(display, camera, n, from);
        lemma_walk_from(display, camera, n + 1);
        if is_seen(display, camera, n) {
            assert(matches_up_to(display, camera, n) + walk(display, camera, n, at)
                == matches_up_to(display, camera, n + 1) + walk(display, camera, n + 1, at + 1));
        } else {
            assert(walk(display, camera, n, at) == walk(display, camera, n + 1, at));
        }
    } else {
        let rest = walk(display, camera, n, consumed(display, camera, n));
        assert(rest == Seq::<(int, int)>::empty());
    }
}

/// The matches are those of a walk through both logs at once.
pub proof fn law_alignment_is_a_walk(display: Seq<u64>, camera: Seq<u64>)
    ensures
        alignment(display, camera) == walk(display, camera, 0, 0),
{
    lemma_walk_from(display, camera, 0);
    assert(matches_up_to(display, camera, 0) == Seq::<(int, int)>::empty());
    assert(alignment(display, camera) == walk(display, camera, 0, 0));
}

/// The matches with the two positions of each exchanged.
pub open spec fn exchanged(matched: Seq<(int, int)>) -> Seq<(int, int)> {
    matched.map_values(|m: (int, int)| (m.1, m.0))
}

proof fn lemma_walk_is_symmetric(display: Seq<u64>, camera: Seq<u64>, i: int, j: int)
    requires
        0 <= i,
        0 <= j,
    ensures
        walk(camera, display, j, i) == exchanged(walk(display, camera, i, j)),
    decreases display.len() - i + camera.len() - j,
{
    if i >= display.len() || j >= camera.len() {
        assert(walk(camera, display, j, i) == exchanged(walk(display, camera, i, j)));
    } else if camera[j] < display[i] {
        lemma_walk_is_symmetric(display, camera, i, j + 1);
    } else if camera[j] == display[i] {
        lemma_walk_is_symmetric(display, camera, i + 1, j + 1);
        assert(walk(camera, display, j, i) == exchanged(walk(display, camera, i, j)));
    } else {
        lemma_walk_is_symmetric(display, camera, i + 1, j);
    }
}

/// Matching treats the two logs alike: exchanging them exchanges the positions of
/// each match and nothing else.
pub proof fn law_matching_is_symmetric(display: Seq<u64>, camera: Seq<u64>)
    ensures
        alignment(camera, display) == exchanged(alignment(display, camera)),
{
    law_alignment_is_a_walk(display, camera);
    law_alignment_is_a_walk(camera, display);
    lemma_walk_is_symmetric(display, camera, 0, 0);
}

/// No id is smaller than the one before it.
pub open spec fn is_nondecreasing(ids: Seq<u64>) -> bool {
    forall|i: int, j: int| 0 <= i < j < ids.len() ==> #[trigger] ids[i] <= #[trigger] ids[j]
}

/// How often `id` occurs from position `from` on.
pub open spec fn occurrences_from(ids: Seq<u64>, from: int, id: u64) -> int
    decreases ids.len() - from,
{
    if from < 0 || from >= ids.len() {
        0
    } else {
        occurrences_from(ids, from + 1, id) + (if ids[from] == id {
            1int
        } else {
            0
        })
    }
}

/// How often `id` occurs.
pub open spec fn occurrences(ids: Seq<u64>, id: u64) -> int {
    occurrences_from(ids, 0, id)
}

/// The ids that were matched.
pub open spec fn matched_ids(display: Seq<u64>, matched: Seq<(int, int)>) -> Seq<u64> {
    matched.map_values(|m: (int, int)| display[m.0])
}

proof fn lemma_no_occurrence(ids: Seq<u64>, from: int, id: u64)
    requires
        is_nondecreasing(ids),
        0 <= from < ids.len(),
        ids[from] > id,
    ensures
        occurrences_from(ids, from, id) == 0,
    decreases ids.len() - from,
{
    if from + 1 < ids.len() {
        assert(ids[from] <= ids[from + 1]);
        lemma_no_occurrence(ids, from + 1, id);
    } else {
        assert(occurrences_from(ids, from + 1, id) == 0);
    }
}

proof fn lemma_occurrences_nonnegative(ids: Seq<u64>, from: int, id: u64)
    ensures
        occurrences_from(ids, from, id) >= 0,
    decreases ids.len() - from,
{
    if 0 <= from < ids.len() {
        lemma_occurrences_nonnegative(ids, from + 1, id);
    }
}

proof fn lemma_occurrences_shift(first: u64, rest: Seq<u64>, from: int, id: u64)
    requires
        0 <= from,
    ensures
        occurrences_from(seq![first] + rest, from + 1, id) == occurrences_from(rest, from, id),
    decreases rest.len() - from,
{
    if from < rest.len() {
        lemma_occurrences_shift(first, rest, from + 1, id);
        assert((seq![first] + rest)[from + 1] == rest[from]);
    }
}

proof fn lemma_walk_counts(display: Seq<u64>, camera: Seq<u64>, i: int, j: int, id: u64)
    requires
        is_nondecreasing(display),
        is_nondecreasing(camera),
        0 <= i,
        0 <= j,
    ensures
        occurrences(matched_ids(display, walk(display, camera, i, j)), id) == min(
            occurrences_from(display, i, id),
            occurrences_from(camera, j, id),
        ),
    decreases display.len() - i + camera.len() - j,
{
    lemma_occurrences_nonnegative(display, i, id);
    lemma_occurrences_nonnegative(camera, j, id);
    let matched = matched_ids(display, walk(display, camera, i, j));
    if i >= display.len() || j >= camera.len() {
        assert(matched.len() == 0);
    } else if camera[j] < display[i] {
        lemma_walk_counts(display, camera, i, j + 1, id);
        lemma_occurrences_nonnegative(camera, j + 1, id);
        if camera[j] == id {
            lemma_no_occurrence(display, i, id);
        }
    } else if camera[j] == display[i] {
        lemma_walk_counts(display, camera, i + 1, j + 1, id);
        let rest = matched_ids(display, walk(display, camera, i + 1, j + 1));
        assert(matched == seq![display[i]] + rest);
        lemma_occurrences_shift(display[i], rest, 0, id);
    } else {
        lemma_walk_counts(display, camera, i + 1, j, id);
        lemma_occurrences_nonnegative(display, i + 1, id);
        if display[i] == id {
            lemma_no_occurrence(camera, j, id);
        }
    }
}

/// Matching is complete on logs whose ids do not decrease: each id is matched as
/// often as it occurs in both logs.
pub proof fn law_repeated_ids_are_matched(display: Seq<u64>, camera: Seq<u64>, id: u64)
    requires
        is_nondecreasing(display),
        is_nondecreasing(camera),
    ensures
        occurrences(matched_ids(display, alignment(display, camera)), id) == min(
            occurrences(display, id),
            occurrences(camera, id),
        ),
{
    law_alignment_is_a_walk(display, camera);
    lemma_walk_counts(display, camera, 0, 0, id);
}

} // verus!
