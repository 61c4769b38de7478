//! The camera side of a measurement: which frames are read, and which readings
//! enter the log.
//!
//! Each frame takes two steps, and the measurement may move on between them:
//! [`read_frame`] decides whether the frame is read and reads it,
//! [`record_reading`] counts the frame and logs what was read.

#[allow(unused_imports)]
use vstd::arithmetic::div_mod::{lemma_fundamental_div_mod, lemma_mod_bound};
use vstd::prelude::*;

use crate::analysis::MeasurementMethod;
use crate::arithmetic::{Arithmetic, Raster};
use crate::detection::{check_headroom, read_roi, FrameReading, MIN_SIDE};
#[allow(unused_imports)]
use crate::detection::{
    are_clamped_bounds, has_headroom, is_detection, is_readable, is_reading, is_roi_detection,
    is_roi_reading, law_read_transition_is_new, transition_of,
};
#[allow(unused_imports)]
use crate::logs::is_ordered_log;
#[allow(unused_imports)]
use crate::roi::{is_clamped_roi, PixelBounds};
use crate::roi::{RoiError, RoiNorm};
use crate::session::{elapsed_ns, milliseconds, FrameCount, RunPhase, SharedState, TransitionEvent};
#[allow(unused_imports)]
use crate::session::{is_milliseconds, is_on_plan, is_update, since, ModeAction, RunClock, RunPlan};

verus! {

/// What the camera side remembers from frame to frame.
#[derive(Debug, Clone, Copy, PartialEq, Eq, Structural)]
pub struct CaptureCursor {
    pub last_seen_run: Option<u32>,
    pub last_seen_id: Option<u64>,
}

/// A frame that is to be read: the run that it belongs to, and the transition
/// that was seen before it.
#[derive(Debug, Clone, Copy, PartialEq, Eq, Structural)]
pub struct FrameTask {
    pub run: u32,
    pub previous_id: Option<u64>,
}

/// A frame that was read: the run that it belongs to, and what it shows.
#[derive(Debug, Clone, Copy, PartialEq, Eq, Structural)]
pub struct FrameRead {
    pub run: u32,
    pub reading: FrameReading,
}

/// Why a frame cannot be read.
#[derive(Debug, Clone, Copy, PartialEq, Eq, Structural)]
pub enum FrameError {
    /// The region of interest leaves no room in the image.
    NoRoom,
    /// The ids that can follow the previous transition do not fit their type.
    IdsUsedUp,
}

/// Frames are read in this phase.
pub open spec fn is_capturing(phase: RunPhase) -> bool {
    phase.capture_active && phase.run_started && !phase.run_finished
}

/// The cursor for a frame of `run`: a run that is new to it has no transition seen.
pub open spec fn turned_to(cursor: CaptureCursor, run: u32) -> CaptureCursor {
    if cursor.last_seen_run == Some(run) {
        cursor
    } else {
        CaptureCursor { last_seen_run: Some(run), last_seen_id: None }
    }
}

/// The task of a frame, given whether a region of interest is set.
pub open spec fn task_for(
    cursor: CaptureCursor,
    phase: RunPhase,
    has_roi: bool,
) -> Option<FrameTask> {
    if is_capturing(phase) && has_roi {
        Some(
            FrameTask {
                run: phase.current_run,
                previous_id: turned_to(cursor, phase.current_run).last_seen_id,
            },
        )
    } else {
        None
    }
}

/// What beginning a frame does to the cursor, and the task that comes out.
pub open spec fn is_begun(
    cursor: CaptureCursor,
    phase: RunPhase,
    has_roi: bool,
    new_cursor: CaptureCursor,
    task: Option<FrameTask>,
) -> bool {
    &&& task == task_for(cursor, phase, has_roi)
    &&& new_cursor == if is_capturing(phase) {
        turned_to(cursor, phase.current_run)
    } else {
        cursor
    }
}

/// The last event of the log is transition `id` of `run`.
pub open spec fn ends_with<V>(log: Seq<TransitionEvent<V>>, run: u32, id: u64) -> bool {
    log.len() > 0 && log.last().run == run && log.last().id == id
}

/// A reading of a frame of `run` enters the log: the run still goes on, and the
/// log does not end with it already.
pub open spec fn is_recorded<V>(state: SharedState<V>, run: u32, id: u64) -> bool {
    &&& state.phase.capture_active
    &&& !state.phase.run_finished
    &&& state.phase.current_run == run
    &&& !ends_with(state.camera_events@, run, id)
}

/// What recording a reading does to the state and the cursor.
pub open spec fn is_record_step<A: Arithmetic>(
    state: SharedState<A::Value>,
    cursor: CaptureCursor,
    run: u32,
    id: u64,
    now: u64,
    new_state: SharedState<A::Value>,
    new_cursor: CaptureCursor,
) -> bool {
    &&& new_state.phase == state.phase
    &&& new_state.display_events@ == state.display_events@
    &&& new_state.frames == state.frames
    &&& if is_recorded(state, run, id) {
        let log = new_state.camera_events@;
        &&& log == state.camera_events@.push(log.last())
        &&& log.last().run == run
        &&& log.last().id == id
        &&& is_milliseconds::<A>(since(now, state.phase.epoch_ns), log.last().ms)
        &&& new_cursor == CaptureCursor { last_seen_id: Some(id), ..cursor }
    } else {
        new_state.camera_events@ == state.camera_events@ && new_cursor == cursor
    }
}

/// What recording a reading does, and whether it entered the log.
pub open spec fn is_recording<A: Arithmetic>(
    state: SharedState<A::Value>,
    cursor: CaptureCursor,
    run: u32,
    id: u64,
    now: u64,
    new_state: SharedState<A::Value>,
    new_cursor: CaptureCursor,
    recorded: bool,
) -> bool {
    &&& recorded == is_recorded(state, run, id)
    &&& is_record_step::<A>(state, cursor, run, id, now, new_state, new_cursor)
}

/// The cursor has seen no frame.
pub open spec fn is_fresh(cursor: CaptureCursor) -> bool {
    cursor == CaptureCursor { last_seen_run: None, last_seen_id: None }
}

impl CaptureCursor {
    /// The cursor before the first frame.
    pub fn new() -> (cursor: CaptureCursor)
        ensures
            is_fresh(cursor),
    {
        CaptureCursor { last_seen_run: None, last_seen_id: None }
    }
}

/// Decides whether a frame is read.
pub fn begin_frame(cursor: &mut CaptureCursor, phase: RunPhase, has_roi: bool) -> (task: Option<
    FrameTask,
>)
    ensures
        is_begun(*old(cursor), phase, has_roi, *final(cursor), task),
{
    if !phase.capture_active || !phase.run_started || phase.run_finished {
        return None;
    }
    let known = match cursor.last_seen_run {
        Some(run) => run == phase.current_run,
        None => false,
    };
    if !known {
        cursor.last_seen_run = Some(phase.current_run);
        cursor.last_seen_id = None;
    }
    if !has_roi {
        return None;
    }
    Some(FrameTask { run: phase.current_run, previous_id: cursor.last_seen_id })
}

/// Logs transition `id`, read off a frame of `run`, unless the run is over by now
/// or the log ends with it already.
pub fn record_detection<A: Arithmetic>(
    state: &mut SharedState<A::Value>,
    cursor: &mut CaptureCursor,
    run: u32,
    id: u64,
    now_ns: u64,
) -> (recorded: bool)
    ensures
        is_recording::<A>(
            *old(state),
            *old(cursor),
            run,
            id,
            now_ns,
            *final(state),
            *final(cursor),
            recorded,
        ),
{
    if !state.phase.capture_active || state.phase.current_run != run || state.phase.run_finished {
        return false;
    }
    let count: usize = state.camera_events.len();
    if count > 0 {
        let last = state.camera_events[count - 1];
        if last.run == run && last.id == id {
            return false;
        }
    }
    let ms = milliseconds::<A>(elapsed_ns(now_ns, state.phase.epoch_ns));
    state.camera_events.push(TransitionEvent { run, id, ms });
    cursor.last_seen_id = Some(id);
    true
}

/// Transition `id` is no further ahead of the previous one than `max_forward`.
pub open spec fn within_jump(previous: Option<u64>, id: u64, max_forward: u64) -> bool {
    previous matches Some(p) ==> id <= p + max_forward
}

/// Tells whether transition `id` is no further ahead of the previous one than
/// `max_forward`.
pub fn is_within_jump(previous: Option<u64>, id: u64, max_forward: u64) -> (ok: bool)
    ensures
        ok == within_jump(previous, id, max_forward),
{
    match previous {
        None => true,
        Some(p) => id <= p || id - p <= max_forward,
    }
}

/// How many transitions are shown within a time; without bound where no time is
/// given or transitions take none.
pub open spec fn transitions_within(time_ns: Option<u64>, period_ns: u64) -> u64 {
    match time_ns {
        Some(ns) if period_ns > 0 => ns / period_ns,
        _ => u64::MAX,
    }
}

/// The largest jump ahead that is accepted, from the time that it may span.
pub fn jump_limit(time_ns: Option<u64>, period_ns: u64) -> (max_forward: u64)
    ensures
        max_forward == transitions_within(time_ns, period_ns),
{
    match time_ns {
        Some(ns) if period_ns > 0 => ns / period_ns,
        _ => u64::MAX,
    }
}

/// A reading with jumps ahead that are too large rejected.
pub open spec fn limited(
    reading: FrameReading,
    previous_id: Option<u64>,
    max_forward: u64,
) -> FrameReading {
    match reading {
        FrameReading::Transition(id) if !within_jump(previous_id, id, max_forward) =>
            FrameReading::Nothing,
        _ => reading,
    }
}

/// `r` is the outcome of reading a frame for `task`.
pub open spec fn is_task_outcome<A: Raster>(
    task: FrameTask,
    method: MeasurementMethod,
    threshold: A::Value,
    rgb: Seq<u8>,
    width: usize,
    height: usize,
    roi: RoiNorm<A::Value>,
    max_forward: u64,
    r: Result<Option<FrameRead>, FrameError>,
) -> bool {
    let has_room = is_readable(width, height) ==> has_headroom(method, task.previous_id);
    match r {
        Ok(None) => false,
        Ok(Some(read)) => {
            &&& has_room
            &&& read.run == task.run
            &&& exists|seen: FrameReading| #[trigger]
                is_roi_reading::<A>(
                    method,
                    threshold,
                    rgb,
                    width,
                    height,
                    roi,
                    task.previous_id,
                    Ok(seen),
                ) && read.reading == limited(seen, task.previous_id, max_forward)
        },
        Err(FrameError::NoRoom) => {
            &&& has_room
            &&& is_readable(width, height)
            &&& is_clamped_roi::<A>(roi, Err(RoiError::NoRoom))
        },
        Err(FrameError::IdsUsedUp) => !has_room,
    }
}

/// What deciding on a frame and reading it does to the cursor, and the outcome.
pub open spec fn is_frame_step<A: Raster>(
    cursor: CaptureCursor,
    phase: RunPhase,
    method: MeasurementMethod,
    threshold: A::Value,
    rgb: Seq<u8>,
    width: usize,
    height: usize,
    roi: Option<RoiNorm<A::Value>>,
    max_forward: u64,
    new_cursor: CaptureCursor,
    r: Result<Option<FrameRead>, FrameError>,
) -> bool {
    &&& new_cursor == if is_capturing(phase) {
        turned_to(cursor, phase.current_run)
    } else {
        cursor
    }
    &&& match (task_for(cursor, phase, roi is Some), roi) {
        (Some(task), Some(roi)) => {
            &&& is_task_outcome::<A>(
                task,
                method,
                threshold,
                rgb,
                width,
                height,
                roi,
                max_forward,
                r,
            )
            &&& r matches Ok(Some(read)) ==> comes_after(task, read)
        },
        _ => r == Ok::<Option<FrameRead>, FrameError>(None),
    }
}

/// Decides whether a frame is read, and reads it. Readings come after the
/// transition that was seen before, by no more than `max_forward`.
pub fn read_frame<A: Raster>(
    cursor: &mut CaptureCursor,
    phase: RunPhase,
    method: MeasurementMethod,
    luma_threshold: A::Value,
    rgb: &[u8],
    width: usize,
    height: usize,
    roi: Option<RoiNorm<A::Value>>,
    max_forward: u64,
) -> (r: Result<Option<FrameRead>, FrameError>)
    ensures
        is_frame_step::<A>(
            *old(cursor),
            phase,
            method,
            luma_threshold,
            rgb@,
            width,
            height,
            roi,
            max_forward,
            *final(cursor),
            r,
        ),
{
    let task = match begin_frame(cursor, phase, roi.is_some()) {
        Some(task) => task,
        None => return Ok(None),
    };
    let roi = match roi {
        Some(roi) => roi,
        None => return Ok(None),
    };
    if width >= MIN_SIDE && height >= MIN_SIDE && !check_headroom(method, task.previous_id) {
        return Err(FrameError::IdsUsedUp);
    }
    let seen = read_roi::<A>(method, luma_threshold, rgb, width, height, roi, task.previous_id);
    match seen {
        Err(RoiError::NoRoom) => {
            assert(seen->Err_0 == RoiError::NoRoom);
            Err(FrameError::NoRoom)
        },
        Ok(reading) => {
            proof {
                lemma_reading_comes_after::<A>(
                    task,
                    method,
                    luma_threshold,
                    rgb@,
                    width,
                    height,
                    roi,
                    reading,
                );
            }
            let kept = match reading {
                FrameReading::Transition(id) => if is_within_jump(
                    task.previous_id,
                    id,
                    max_forward,
                ) {
                    reading
                } else {
                    FrameReading::Nothing
                },
                _ => reading,
            };
            Ok(Some(FrameRead { run: task.run, reading: kept }))
        },
    }
}

/// A transition that was read comes after the one that was seen before it.
pub open spec fn comes_after(task: FrameTask, read: FrameRead) -> bool {
    &&& read.run == task.run
    &&& read.reading matches FrameReading::Transition(id) ==> (task.previous_id matches Some(
        previous,
    ) ==> previous < id)
}

proof fn lemma_reading_comes_after<A: Raster>(
    task: FrameTask,
    method: MeasurementMethod,
    threshold: A::Value,
    rgb: Seq<u8>,
    width: usize,
    height: usize,
    roi: RoiNorm<A::Value>,
    reading: FrameReading,
)
    requires
        is_roi_reading::<A>(
            method,
            threshold,
            rgb,
            width,
            height,
            roi,
            task.previous_id,
            Ok(reading),
        ),
    ensures
        comes_after(task, (FrameRead { run: task.run, reading })),
{
    if is_readable(width, height) && task.previous_id is Some {
        let b = choose|b: PixelBounds| #[trigger]
            are_clamped_bounds::<A>(roi, width, height, b) && is_reading::<A>(
                method,
                threshold,
                rgb,
                width,
                height,
                b,
                task.previous_id,
                reading,
            );
        if let FrameReading::Transition(id) = reading {
            law_read_transition_is_new::<A>(
                method,
                threshold,
                rgb,
                width,
                height,
                b,
                task.previous_id->0,
                id,
            );
        }
    }
}

/// The run of a frame still goes on.
pub open spec fn goes_on(phase: RunPhase, run: u32) -> bool {
    phase.capture_active && !phase.run_finished && phase.current_run == run
}

/// The counts with one more frame, as long as they fit their type.
pub open spec fn counted(frames: FrameCount, torn: bool) -> FrameCount {
    if frames.read == u64::MAX || frames.torn == u64::MAX {
        frames
    } else {
        FrameCount {
            read: (frames.read + 1) as u64,
            torn: if torn {
                (frames.torn + 1) as u64
            } else {
                frames.torn
            },
        }
    }
}

/// What recording a frame does to the state and the cursor: a frame whose run goes
/// on is counted, and the transition that it shows is recorded.
pub open spec fn is_reading_step<A: Arithmetic>(
    state: SharedState<A::Value>,
    cursor: CaptureCursor,
    read: FrameRead,
    now: u64,
    new_state: SharedState<A::Value>,
    new_cursor: CaptureCursor,
) -> bool {
    &&& new_state.phase == state.phase
    &&& new_state.display_events@ == state.display_events@
    &&& new_state.frames == if goes_on(state.phase, read.run) {
        counted(state.frames, read.reading == FrameReading::Torn)
    } else {
        state.frames
    }
    &&& match read.reading {
        FrameReading::Transition(id) if is_recorded(state, read.run, id) => {
            let log = new_state.camera_events@;
            &&& log == state.camera_events@.push(log.last())
            &&& log.last().run == read.run
            &&& log.last().id == id
            &&& is_milliseconds::<A>(since(now, state.phase.epoch_ns), log.last().ms)
            &&& new_cursor == CaptureCursor { last_seen_id: Some(id), ..cursor }
        },
        _ => new_state.camera_events@ == state.camera_events@ && new_cursor == cursor,
    }
}

/// What recording a frame does, and whether a transition entered the log.
pub open spec fn is_frame_recording<A: Arithmetic>(
    state: SharedState<A::Value>,
    cursor: CaptureCursor,
    read: FrameRead,
    now: u64,
    new_state: SharedState<A::Value>,
    new_cursor: CaptureCursor,
    recorded: bool,
) -> bool {
    &&& recorded == (read.reading matches FrameReading::Transition(id) && is_recorded(
        state,
        read.run,
        id,
    ))
    &&& is_reading_step::<A>(state, cursor, read, now, new_state, new_cursor)
}

/// Counts a frame and logs the transition that it shows, unless its run is over by
/// now.
pub fn record_reading<A: Arithmetic>(
    state: &mut SharedState<A::Value>,
    cursor: &mut CaptureCursor,
    read: FrameRead,
    now_ns: u64,
) -> (recorded: bool)
    ensures
        is_frame_recording::<A>(
            *old(state),
            *old(cursor),
            read,
            now_ns,
            *final(state),
            *final(cursor),
            recorded,
        ),
{
    if !state.phase.capture_active || state.phase.current_run != read.run
        || state.phase.run_finished {
        return false;
    }
    let frames = state.frames;
    if frames.read < u64::MAX && frames.torn < u64::MAX {
        let torn: u64 = if read.reading == FrameReading::Torn {
            frames.torn + 1
        } else {
            frames.torn
        };
        state.frames = FrameCount { read: frames.read + 1, torn };
    }
    match read.reading {
        FrameReading::Transition(id) => record_detection::<A>(state, cursor, read.run, id, now_ns),
        _ => false,
    }
}

/// No more frames are torn than were read.
pub proof fn law_torn_frames_were_read(frames: FrameCount, torn: bool)
    requires
        frames.torn <= frames.read,
    ensures
        counted(frames, torn).torn <= counted(frames, torn).read,
{
}

/// Jumps ahead beyond the limit are rejected, and others are not.
pub proof fn law_large_jumps_are_rejected(previous: u64, id: u64, max_forward: u64)
    ensures
        limited(FrameReading::Transition(id), Some(previous), max_forward) == if id <= previous
            + max_forward {
            FrameReading::Transition(id)
        } else {
            FrameReading::Nothing
        },
{
}

/// The last transition of `run` in the log, where the log ends with that run.
pub open spec fn last_id_of<V>(log: Seq<TransitionEvent<V>>, run: u32) -> Option<u64> {
    if log.len() > 0 && log.last().run == run {
        Some(log.last().id)
    } else {
        None
    }
}

/// The cursor agrees with the log: it remembers the last transition that was
/// logged in the current run, and a run that it has not turned to has none.
pub open spec fn is_in_step<V>(state: SharedState<V>, cursor: CaptureCursor) -> bool {
    &&& is_ordered_log(state.phase, state.camera_events@)
    &&& cursor.last_seen_run matches Some(run) ==> run <= state.phase.current_run
    &&& if cursor.last_seen_run == Some(state.phase.current_run) {
        cursor.last_seen_id == last_id_of(state.camera_events@, state.phase.current_run)
    } else {
        last_id_of(state.camera_events@, state.phase.current_run) is None
    }
}

/// The camera side begins in step with a measurement that has not begun.
pub proof fn law_begins_in_step<V>(state: SharedState<V>, cursor: CaptureCursor)
    requires
        state.camera_events@.len() == 0,
        is_fresh(cursor),
    ensures
        is_in_step(state, cursor),
{
}

/// Updates of the display side leave the camera side in step.
pub proof fn law_updates_keep_in_step<A: Arithmetic>(
    plan: RunPlan,
    duration_s: A::Value,
    now: u64,
    state: SharedState<A::Value>,
    clock: RunClock,
    new_state: SharedState<A::Value>,
    new_clock: RunClock,
    action: ModeAction,
    cursor: CaptureCursor,
)
    requires
        is_on_plan(plan, state.phase, clock),
        is_update::<A>(plan, duration_s, now, state, clock, new_state, new_clock, action),
        is_in_step(state, cursor),
    ensures
        is_in_step(new_state, cursor),
{
}

/// Beginning a frame leaves the camera side in step, and the previous transition
/// that it hands out is the last one that was logged in the run.
pub proof fn law_begin_frame_keeps_in_step<V>(
    state: SharedState<V>,
    cursor: CaptureCursor,
    has_roi: bool,
)
    requires
        is_in_step(state, cursor),
    ensures
        is_in_step(state, turned_to(cursor, state.phase.current_run)),
        task_for(cursor, state.phase, has_roi) matches Some(task) ==> {
            &&& task.run == state.phase.current_run
            &&& task.previous_id == last_id_of(state.camera_events@, task.run)
        },
{
}

/// Recording what [`read_frame`] read keeps the camera side in step, whatever
/// happened since the frame was begun: ids increase within each run of the log.
pub proof fn law_recording_keeps_in_step<A: Arithmetic>(
    state: SharedState<A::Value>,
    cursor: CaptureCursor,
    task: FrameTask,
    read: FrameRead,
    now: u64,
    new_state: SharedState<A::Value>,
    new_cursor: CaptureCursor,
)
    requires
        is_in_step(state, cursor),
        cursor.last_seen_run == Some(task.run),
        cursor.last_seen_id == task.previous_id,
        comes_after(task, read),
        is_reading_step::<A>(state, cursor, read, now, new_state, new_cursor),
    ensures
        is_in_step(new_state, new_cursor),
        is_ordered_log(new_state.phase, new_state.camera_events@),
{
    let log = state.camera_events@;
    let new_log = new_state.camera_events@;
    if new_log != log {
        assert forall|i: int, j: int| 0 <= i < j < new_log.len() implies {
            &&& (#[trigger] new_log[i]).run <= (#[trigger] new_log[j]).run
            &&& new_log[i].run == new_log[j].run ==> new_log[i].id < new_log[j].id
        } by {
            assert(new_log[i] == log[i]);
            if j < log.len() {
                assert(new_log[j] == log[j]);
            } else {
                let last = log[log.len() - 1];
                if i < log.len() - 1 {
                    assert(log[i].run <= last.run);
                }
            }
        }
    }
}

/// A frame is read while a started run captures and is not finished, and where a
/// region of interest is set. It belongs to the current run, and what was seen before
/// it is the last transition seen in that run: none where the camera side was at
/// another run until now.
pub proof fn law_frames_are_begun(
    cursor: CaptureCursor,
    phase: RunPhase,
    has_roi: bool,
    new_cursor: CaptureCursor,
    task: Option<FrameTask>,
)
    requires
        is_begun(cursor, phase, has_roi, new_cursor, task),
    ensures
        ({
            let captures = phase.capture_active && phase.run_started && !phase.run_finished;
            let seen = if cursor.last_seen_run == Some(phase.current_run) {
                cursor.last_seen_id
            } else {
                None
            };
            &&& task is Some <==> captures && has_roi
            &&& task matches Some(t) ==> t.run == phase.current_run && t.previous_id == seen
            &&& captures ==> new_cursor.last_seen_run == Some(phase.current_run)
                && new_cursor.last_seen_id == seen
            &&& !captures ==> new_cursor == cursor
        }),
{
}

/// A frame is read where a run captures and a region is set, and refused only where
/// the region leaves no room in the image or no id is left to follow the transition
/// seen before in the same run. A frame of fewer than four pixels a side is never
/// refused.
pub proof fn law_frames_are_read<A: Raster>(
    cursor: CaptureCursor,
    phase: RunPhase,
    method: MeasurementMethod,
    threshold: A::Value,
    rgb: Seq<u8>,
    width: usize,
    height: usize,
    roi: Option<RoiNorm<A::Value>>,
    max_forward: u64,
    new_cursor: CaptureCursor,
    r: Result<Option<FrameRead>, FrameError>,
)
    requires
        is_frame_step::<A>(
            cursor,
            phase,
            method,
            threshold,
            rgb,
            width,
            height,
            roi,
            max_forward,
            new_cursor,
            r,
        ),
    ensures
        ({
            let captures = phase.capture_active && phase.run_started && !phase.run_finished;
            let seen = if cursor.last_seen_run == Some(phase.current_run) {
                cursor.last_seen_id
            } else {
                None
            };
            let readable = width >= 4 && height >= 4;
            let last = match method {
                MeasurementMethod::LumaStep => u64::MAX - 1,
                MeasurementMethod::QuadCode => u64::MAX - 32,
            };
            &&& captures ==> new_cursor.last_seen_run == Some(phase.current_run)
                && new_cursor.last_seen_id == seen
            &&& !captures ==> new_cursor == cursor
            &&& r == Ok::<Option<FrameRead>, FrameError>(None) <==> !(captures && roi is Some)
            &&& r == Err::<Option<FrameRead>, FrameError>(FrameError::IdsUsedUp) <==> captures
                && roi is Some && readable && (seen matches Some(p) && p > last)
            &&& r == Err::<Option<FrameRead>, FrameError>(FrameError::NoRoom) ==> readable
                && is_clamped_roi::<A>(roi->0, Err(RoiError::NoRoom))
        }),
{
    match r {
        Ok(None) => {
            assert(r == Ok::<Option<FrameRead>, FrameError>(None));
        },
        Ok(Some(read)) => {},
        Err(FrameError::NoRoom) => {
            assert(r == Err::<Option<FrameRead>, FrameError>(FrameError::NoRoom));
        },
        Err(FrameError::IdsUsedUp) => {
            assert(r == Err::<Option<FrameRead>, FrameError>(FrameError::IdsUsedUp));
        },
    }
}

/// A transition that comes out of a frame was detected in it, after the one seen
/// before in the same run and no further ahead of it than `max_forward`. Every frame
/// comes out as it was read, torn ones as torn, but for one whose transition is too far
/// ahead: that comes out without one.
pub proof fn law_readings_are_detections<A: Raster>(
    cursor: CaptureCursor,
    phase: RunPhase,
    method: MeasurementMethod,
    threshold: A::Value,
    rgb: Seq<u8>,
    width: usize,
    height: usize,
    roi: Option<RoiNorm<A::Value>>,
    max_forward: u64,
    new_cursor: CaptureCursor,
    read: FrameRead,
)
    requires
        is_frame_step::<A>(
            cursor,
            phase,
            method,
            threshold,
            rgb,
            width,
            height,
            roi,
            max_forward,
            new_cursor,
            Ok(Some(read)),
        ),
    ensures
        ({
            let seen = new_cursor.last_seen_id;
            &&& read.run == phase.current_run
            &&& read.reading matches FrameReading::Transition(id) ==> {
                &&& seen matches Some(p) ==> p < id && id - p <= max_forward
                &&& is_roi_detection::<A>(
                    method,
                    threshold,
                    rgb,
                    width,
                    height,
                    roi->0,
                    seen,
                    Ok(Some(id)),
                )
            }
            &&& read.reading !is Transition ==> exists|found: Option<u64>| #[trigger]
                is_roi_detection::<A>(
                    method,
                    threshold,
                    rgb,
                    width,
                    height,
                    roi->0,
                    seen,
                    Ok(found),
                ) && (found matches Some(id) ==> (seen matches Some(p) && id - p > max_forward))
            &&& exists|shown: FrameReading|
                {
                    &&& #[trigger] is_roi_reading::<A>(
                        method,
                        threshold,
                        rgb,
                        width,
                        height,
                        roi->0,
                        seen,
                        Ok(shown),
                    )
                    &&& shown == read.reading || (read.reading is Nothing && shown is Transition
                        && (seen matches Some(p) && shown->Transition_0 - p > max_forward))
                }
        }),
{
    let task = task_for(cursor, phase, roi is Some)->0;
    let region = roi->0;
    let seen = choose|seen: FrameReading| #[trigger]
        is_roi_reading::<A>(
            method,
            threshold,
            rgb,
            width,
            height,
            region,
            task.previous_id,
            Ok(seen),
        ) && read.reading == limited(seen, task.previous_id, max_forward);
    lemma_reading_is_detection::<A>(
        method,
        threshold,
        rgb,
        width,
        height,
        region,
        task.previous_id,
        seen,
    );
    let found = transition_of(seen);
    if read.reading !is Transition {
        assert(is_roi_detection::<A>(
            method,
            threshold,
            rgb,
            width,
            height,
            region,
            task.previous_id,
            Ok(found),
        ));
        assert(found matches Some(id) ==> (task.previous_id matches Some(p) && id - p
            > max_forward));
    }
}

/// A reading is a detection of its transition.
proof fn lemma_reading_is_detection<A: Raster>(
    method: MeasurementMethod,
    threshold: A::Value,
    rgb: Seq<u8>,
    width: usize,
    height: usize,
    roi: RoiNorm<A::Value>,
    previous_id: Option<u64>,
    reading: FrameReading,
)
    requires
        is_roi_reading::<A>(
            method,
            threshold,
            rgb,
            width,
            height,
            roi,
            previous_id,
            Ok(reading),
        ),
    ensures
        is_roi_detection::<A>(
            method,
            threshold,
            rgb,
            width,
            height,
            roi,
            previous_id,
            Ok(transition_of(reading)),
        ),
{
    if is_readable(width, height) {
        let b = choose|b: PixelBounds| #[trigger]
            are_clamped_bounds::<A>(roi, width, height, b) && is_reading::<A>(
                method,
                threshold,
                rgb,
                width,
                height,
                b,
                previous_id,
                reading,
            );
        assert(is_detection::<A>(
            method,
            threshold,
            rgb,
            width,
            height,
            b,
            previous_id,
            transition_of(reading),
        ));
    }
}

/// The jumps that a time allows: as many transitions as its periods fit, and any
/// number where there is no time given or no period.
pub proof fn law_jumps_within_a_time(time_ns: Option<u64>, period_ns: u64)
    ensures
        time_ns is None || period_ns == 0 ==> transitions_within(time_ns, period_ns) == u64::MAX,
        time_ns matches Some(t) ==> period_ns > 0 ==> {
            let n = transitions_within(time_ns, period_ns);
            n * period_ns <= t < (n + 1) * period_ns
        },
{
    if let Some(t) = time_ns {
        if period_ns > 0 {
            let (a, d) = (t as int, period_ns as int);
            lemma_fundamental_div_mod(a, d);
            lemma_mod_bound(a, d);
            assert(d * (a / d) == (a / d) * d && (a / d + 1) * d == (a / d) * d + d)
                by (nonlinear_arith);
        }
    }
}

/// Before the first frame nothing was seen: it has no predecessor, whatever the run.
pub proof fn law_first_frame_has_no_predecessor(
    cursor: CaptureCursor,
    phase: RunPhase,
    has_roi: bool,
    new_cursor: CaptureCursor,
    task: Option<FrameTask>,
)
    requires
        is_fresh(cursor),
        is_begun(cursor, phase, has_roi, new_cursor, task),
    ensures
        cursor.last_seen_run is None,
        cursor.last_seen_id is None,
        new_cursor.last_seen_id is None,
        task matches Some(t) ==> t.previous_id is None,
{
}

/// Recording tells whether it did: it reports so exactly where the log has grown.
pub proof fn law_recording_reports_growth<A: Arithmetic>(
    state: SharedState<A::Value>,
    cursor: CaptureCursor,
    run: u32,
    id: u64,
    now: u64,
    new_state: SharedState<A::Value>,
    new_cursor: CaptureCursor,
    recorded: bool,
)
    requires
        is_recording::<A>(state, cursor, run, id, now, new_state, new_cursor, recorded),
    ensures
        recorded <==> new_state.camera_events@.len() == state.camera_events@.len() + 1,
        !recorded <==> new_state.camera_events@ == state.camera_events@,
{
}

/// The same of a frame.
pub proof fn law_frame_recording_reports_growth<A: Arithmetic>(
    state: SharedState<A::Value>,
    cursor: CaptureCursor,
    read: FrameRead,
    now: u64,
    new_state: SharedState<A::Value>,
    new_cursor: CaptureCursor,
    recorded: bool,
)
    requires
        is_frame_recording::<A>(state, cursor, read, now, new_state, new_cursor, recorded),
    ensures
        recorded <==> new_state.camera_events@.len() == state.camera_events@.len() + 1,
        !recorded <==> new_state.camera_events@ == state.camera_events@,
{
}

} // verus!
