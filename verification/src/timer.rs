//! What this library relies on of `livesplit_core::Timer`.
//!
//! The timer is not verified here. Its state is seen through a few names:
//! the phase of the attempt, the index of the current split, the number of
//! segments of the run, and the times stored for each split. The effect of
//! each of its operations is stated over these names as its source shows
//! it, and is believed, not proved. No operation changes the number of
//! segments. A split time is stored by a split and cleared when the split
//! is undone or skipped and when the attempt is reset.
//!
//! A timer has a current split exactly while an attempt is in progress or
//! has ended, and the index of that split is at most the number of
//! segments. The timer keeps this to itself, and nothing here rests on it.

use livesplit_core::Timer;
use vstd::prelude::*;

verus! {

/// `livesplit_core::Timer`, of which nothing is seen but through the names
/// below.
#[verifier::external_type_specification]
#[verifier::external_body]
pub struct ExTimer(livesplit_core::Timer);

/// The phase that an attempt is in.
#[derive(Clone, Copy, Debug, PartialEq, Eq, Structural)]
pub enum Phase {
    /// No attempt is in progress.
    NotRunning,
    /// An attempt is in progress and is not paused.
    Running,
    /// An attempt is in progress and is paused.
    Paused,
    /// The attempt has ended and was not reset yet.
    Ended,
}

/// The phase that `Timer::current_phase` reports.
pub uninterp spec fn timer_phase(timer: Timer) -> Phase;

/// The index that `Timer::current_split_index` reports.
pub uninterp spec fn timer_split_index(timer: Timer) -> Option<usize>;

/// The number of segments of the timer's run.
pub uninterp spec fn timer_segments(timer: Timer) -> nat;

/// The real time stored for the split `index` of the timer's run, as
/// `TimeSpan::to_seconds_and_subsec_nanoseconds` gives it: `None` while the
/// split was not reached.
pub uninterp spec fn timer_split_time(timer: Timer, index: int) -> Option<(i64, i32)>;

/// The real time of the best segment stored for the split `index` of the
/// timer's run, given likewise.
pub uninterp spec fn timer_best_segment(timer: Timer, index: int) -> Option<(i64, i32)>;

/// Whether `post` holds the times that `pre` holds: the split time of
/// every split but `index`, and the best segment of every split.
pub open spec fn same_times_but(pre: Timer, post: Timer, index: int) -> bool {
    forall|k: int|
        #![trigger timer_split_time(post, k)]
        #![trigger timer_best_segment(post, k)]
        0 <= k < timer_segments(pre) ==> {
            &&& k != index ==> timer_split_time(post, k) == timer_split_time(pre, k)
            &&& timer_best_segment(post, k) == timer_best_segment(pre, k)
        }
}

/// Whether `post` holds all the times that `pre` holds.
pub open spec fn same_times(pre: Timer, post: Timer) -> bool {
    same_times_but(pre, post, -1)
}

/// What `Timer::start` does: it starts an attempt at the first split if none
/// is in progress, and nothing otherwise. The times stay.
pub open spec fn start_effect(pre: Timer, post: Timer) -> bool {
    if timer_phase(pre) == Phase::NotRunning {
        &&& timer_phase(post) == Phase::Running
        &&& timer_split_index(post) == Some(0usize)
        &&& timer_segments(post) == timer_segments(pre)
        &&& same_times(pre, post)
    } else {
        post == pre
    }
}

/// What `Timer::split` does. While an attempt runs and its time is not
/// negative, it stores that time for the current split and moves on to the
/// next one, and ends the attempt after the last one. The other times
/// stay. Whether the time is negative depends on the clock, so a running
/// timer may also stay as it is. In the other phases nothing happens.
pub open spec fn split_effect(pre: Timer, post: Timer) -> bool {
    if timer_phase(pre) == Phase::Running {
        ||| post == pre
        ||| {
            &&& timer_split_index(pre) matches Some(i)
            &&& timer_split_index(post) == Some((i + 1) as usize)
            &&& timer_segments(post) == timer_segments(pre)
            &&& timer_phase(post) == if i + 1 == timer_segments(pre) {
                Phase::Ended
            } else {
                Phase::Running
            }
            &&& timer_split_time(post, i as int) is Some
            &&& same_times_but(pre, post, i as int)
        }
    } else {
        post == pre
    }
}

/// What `Timer::reset` does: it gives up the attempt in progress, if there
/// is one, which leaves the timer without a current split and without a
/// split time. Of the best segments nothing is said: a reset may store new
/// ones.
pub open spec fn reset_effect(pre: Timer, post: Timer) -> bool {
    if timer_phase(pre) != Phase::NotRunning {
        &&& timer_phase(post) == Phase::NotRunning
        &&& timer_split_index(post) is None
        &&& timer_segments(post) == timer_segments(pre)
        &&& forall|k: int|
            0 <= k < timer_segments(pre) ==> (#[trigger] timer_split_time(post, k)) is None
    } else {
        post == pre
    }
}

/// What `Timer::pause` does: it pauses a running attempt. The times stay.
pub open spec fn pause_effect(pre: Timer, post: Timer) -> bool {
    if timer_phase(pre) == Phase::Running {
        &&& timer_phase(post) == Phase::Paused
        &&& timer_split_index(post) == timer_split_index(pre)
        &&& timer_segments(post) == timer_segments(pre)
        &&& same_times(pre, post)
    } else {
        post == pre
    }
}

/// What `Timer::resume` does: it resumes a paused attempt. The times stay.
pub open spec fn resume_effect(pre: Timer, post: Timer) -> bool {
    if timer_phase(pre) == Phase::Paused {
        &&& timer_phase(post) == Phase::Running
        &&& timer_split_index(post) == timer_split_index(pre)
        &&& timer_segments(post) == timer_segments(pre)
        &&& same_times(pre, post)
    } else {
        post == pre
    }
}

/// Whether `Timer::undo_split` has a split to go back to.
pub open spec fn can_undo(timer: Timer) -> bool {
    &&& timer_phase(timer) != Phase::NotRunning
    &&& timer_split_index(timer) matches Some(i)
    &&& i > 0
}

/// What `Timer::undo_split` does: where an attempt is in progress or has
/// ended, and a split lies before the current one, it goes back to that
/// split and clears its time, and an ended attempt runs again. The other
/// times stay.
pub open spec fn undo_effect(pre: Timer, post: Timer) -> bool {
    if can_undo(pre) {
        &&& timer_split_index(post) == Some((timer_split_index(pre)->0 - 1) as usize)
        &&& timer_segments(post) == timer_segments(pre)
        &&& timer_phase(post) == if timer_phase(pre) == Phase::Ended {
            Phase::Running
        } else {
            timer_phase(pre)
        }
        &&& timer_split_time(post, timer_split_index(pre)->0 - 1) is None
        &&& same_times_but(pre, post, timer_split_index(pre)->0 - 1)
    } else {
        post == pre
    }
}

/// Whether `Timer::skip_split` has a split to skip: an attempt is in
/// progress and the current split is not the last one.
pub open spec fn can_skip(timer: Timer) -> bool {
    &&& timer_phase(timer) == Phase::Running || timer_phase(timer) == Phase::Paused
    &&& timer_split_index(timer) matches Some(i)
    &&& i + 1 < timer_segments(timer)
}

/// What `Timer::skip_split` does: it clears the time of the current split
/// and moves on to the next one. The other times stay.
pub open spec fn skip_effect(pre: Timer, post: Timer) -> bool {
    if can_skip(pre) {
        &&& timer_split_index(post) == Some((timer_split_index(pre)->0 + 1) as usize)
        &&& timer_segments(post) == timer_segments(pre)
        &&& timer_phase(post) == timer_phase(pre)
        &&& timer_split_time(post, timer_split_index(pre)->0 as int) is None
        &&& same_times_but(pre, post, timer_split_index(pre)->0 as int)
    } else {
        post == pre
    }
}

/// `Timer::current_split_index` returns the index of the current split,
/// which is `None` while no attempt is in progress.
pub assume_specification[ Timer::current_split_index ](timer: &Timer) -> (index: Option<usize>)
    ensures
        index == timer_split_index(*timer),
;

/// `Timer::start`: see `start_effect`.
pub assume_specification[ Timer::start ](timer: &mut Timer)
    ensures
        start_effect(*old(timer), *final(timer)),
        timer_segments(*final(timer)) == timer_segments(*old(timer)),
;

/// `Timer::split`: see `split_effect`.
pub assume_specification[ Timer::split ](timer: &mut Timer)
    ensures
        split_effect(*old(timer), *final(timer)),
        timer_segments(*final(timer)) == timer_segments(*old(timer)),
;

/// `Timer::reset`: see `reset_effect`. Whether the attempt is kept in the
/// run's history does not show in the names.
pub assume_specification[ Timer::reset ](timer: &mut Timer, update_splits: bool)
    ensures
        reset_effect(*old(timer), *final(timer)),
        timer_segments(*final(timer)) == timer_segments(*old(timer)),
;

/// `Timer::pause`: see `pause_effect`.
pub assume_specification[ Timer::pause ](timer: &mut Timer)
    ensures
        pause_effect(*old(timer), *final(timer)),
        timer_segments(*final(timer)) == timer_segments(*old(timer)),
;

/// `Timer::resume`: see `resume_effect`.
pub assume_specification[ Timer::resume ](timer: &mut Timer)
    ensures
        resume_effect(*old(timer), *final(timer)),
        timer_segments(*final(timer)) == timer_segments(*old(timer)),
;

/// `Timer::undo_split`: see `undo_effect`.
pub assume_specification[ Timer::undo_split ](timer: &mut Timer)
    ensures
        undo_effect(*old(timer), *final(timer)),
        timer_segments(*final(timer)) == timer_segments(*old(timer)),
;

/// `Timer::skip_split`: see `skip_effect`.
pub assume_specification[ Timer::skip_split ](timer: &mut Timer)
    ensures
        skip_effect(*old(timer), *final(timer)),
        timer_segments(*final(timer)) == timer_segments(*old(timer)),
;

/// Calls `Run::len` on the timer's run: the number of its segments.
#[verifier::external_body]
pub(crate) fn segment_count(timer: &Timer) -> (count: usize)
    ensures
        count == timer_segments(*timer),
{
    timer.run().len()
}

/// Reads the real time of `Segment::split_time` for the split `index` of
/// the timer's run, by `Run::segment`, which needs an index below the
/// number of segments.
#[verifier::external_body]
pub(crate) fn split_time_parts(timer: &Timer, index: usize) -> (parts: Option<(i64, i32)>)
    requires
        index < timer_segments(*timer),
    ensures
        parts == timer_split_time(*timer, index as int),
{
    match timer.run().segment(index).split_time().real_time {
        Some(span) => Some(span.to_seconds_and_subsec_nanoseconds()),
        None => None,
    }
}

/// Reads the real time of `Segment::best_segment_time` for the split
/// `index` of the timer's run, by `Run::segment`, which needs an index
/// below the number of segments.
#[verifier::external_body]
pub(crate) fn best_segment_parts(timer: &Timer, index: usize) -> (parts: Option<(i64, i32)>)
    requires
        index < timer_segments(*timer),
    ensures
        parts == timer_best_segment(*timer, index as int),
{
    match timer.run().segment(index).best_segment_time().real_time {
        Some(span) => Some(span.to_seconds_and_subsec_nanoseconds()),
        None => None,
    }
}

/// Calls `Timer::current_phase` and gives the phase as this library's own
/// enum.
#[verifier::external_body]
pub(crate) fn current_phase(timer: &Timer) -> (phase: Phase)
    ensures
        phase == timer_phase(*timer),
{
    match timer.current_phase() {
        livesplit_core::TimerPhase::NotRunning => Phase::NotRunning,
        livesplit_core::TimerPhase::Running => Phase::Running,
        livesplit_core::TimerPhase::Paused => Phase::Paused,
        livesplit_core::TimerPhase::Ended => Phase::Ended,
    }
}

} // verus!
