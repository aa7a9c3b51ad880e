//! What a renderer shows of a run: the state of each split, its segment time
//! and delta, and a time taken apart into hours, minutes and seconds.

use crate::segments::{
    calculate_delta, calculate_segment_time, delta, fits, millis_of, millis_of_delta,
    millis_of_parts, segment_time, Delta, TimeSpan, MAX_MODERATE_MILLIS,
};
use crate::timer::{
    best_segment_parts, can_skip, can_undo, current_phase, reset_effect, segment_count,
    skip_effect, split_time_parts, timer_best_segment, timer_phase, timer_segments,
    timer_split_index, timer_split_time, undo_effect, Phase,
};
use livesplit_core::Timer;
use vstd::arithmetic::div_mod::lemma_fundamental_div_mod_converse;
use vstd::prelude::*;

verus! {

/// Where a split stands in the attempt.
#[derive(Clone, Copy, Debug, PartialEq, Eq, Structural)]
pub enum SplitStatus {
    /// The split lies behind the current one.
    Completed,
    /// The attempt runs and is on this split.
    Current,
    /// The split is still to come, or no attempt runs.
    Upcoming,
}

/// The times that the timer holds of one split.
#[derive(Clone, Copy, Debug, PartialEq, Eq, Structural)]
pub struct SegmentTimes {
    /// The cumulative time at which the split was reached, if it was.
    pub split_time: Option<TimeSpan>,
    /// The best time of the segment that ends at the split, if one is known.
    pub best_segment: Option<TimeSpan>,
}

/// The times of one split, in milliseconds.
pub ghost struct SplitMillis {
    pub split_time: Option<int>,
    pub best_segment: Option<int>,
}

impl View for SegmentTimes {
    type V = SplitMillis;

    open spec fn view(&self) -> SplitMillis {
        SplitMillis {
            split_time: millis_of(self.split_time),
            best_segment: millis_of(self.best_segment),
        }
    }
}

/// What is shown of one split.
#[derive(Clone, Copy, Debug, PartialEq, Eq, Structural)]
pub struct SegmentRecord {
    pub status: SplitStatus,
    pub split_time: Option<TimeSpan>,
    pub best_segment: Option<TimeSpan>,
    /// The time of the segment that ends at the split.
    pub segment_time: Option<TimeSpan>,
    /// The segment time less the best segment.
    pub delta: Option<Delta>,
}

/// A span of time taken apart for display.
#[derive(Clone, Copy, Debug, PartialEq, Eq, Structural)]
pub struct Clock {
    pub negative: bool,
    pub hours: u64,
    pub minutes: u64,
    pub seconds: u64,
    pub millis: u64,
}

/// The times of each split, in milliseconds.
pub open spec fn millis_of_all(times: Seq<SegmentTimes>) -> Seq<SplitMillis> {
    Seq::new(times.len(), |i: int| times[i]@)
}

/// The status of the split `index` while the timer is on `current` in
/// `phase`.
pub open spec fn status_of(index: int, current: int, phase: Phase) -> SplitStatus {
    if index < current {
        SplitStatus::Completed
    } else if index == current && phase == Phase::Running {
        SplitStatus::Current
    } else {
        SplitStatus::Upcoming
    }
}

/// The cumulative time of the split before `index`, if there is such a
/// split and it was reached.
pub open spec fn previous_split(times: Seq<SplitMillis>, index: int) -> Option<int> {
    if index <= 0 {
        None
    } else {
        times[index - 1].split_time
    }
}

/// The segment time of the split `index`.
pub open spec fn segment_at(times: Seq<SplitMillis>, index: int) -> Option<int> {
    segment_time(times[index].split_time, previous_split(times, index))
}

/// The delta of the split `index`.
pub open spec fn delta_at(times: Seq<SplitMillis>, index: int) -> Option<int> {
    delta(segment_at(times, index), times[index].best_segment)
}

/// Whether `record` is what is shown of the split `index`.
pub open spec fn is_record_of(
    record: SegmentRecord,
    times: Seq<SplitMillis>,
    current: int,
    phase: Phase,
    index: int,
) -> bool {
    &&& record.status == status_of(index, current, phase)
    &&& millis_of(record.split_time) == times[index].split_time
    &&& millis_of(record.best_segment) == times[index].best_segment
    &&& millis_of(record.segment_time) == segment_at(times, index)
    &&& millis_of_delta(record.delta) == delta_at(times, index)
}

/// Whether `records` are what is shown of the splits with these times.
pub open spec fn are_records_of(
    records: Seq<SegmentRecord>,
    times: Seq<SplitMillis>,
    current: int,
    phase: Phase,
) -> bool {
    &&& records.len() == times.len()
    &&& forall|i: int|
        0 <= i < records.len() ==> is_record_of(#[trigger] records[i], times, current, phase, i)
}

/// Whether every segment time of `times` can be held.
pub open spec fn records_fit(times: Seq<SplitMillis>) -> bool {
    forall|i: int| 0 <= i < times.len() ==> #[trigger] fits(segment_at(times, i))
}

/// The milliseconds of an optional time given as seconds and nanoseconds.
pub open spec fn millis_of_optional_parts(parts: Option<(i64, i32)>) -> Option<int> {
    match parts {
        Some(p) => Some(millis_of_parts(p)),
        None => None,
    }
}

/// The times that `timer` holds of its splits, to the millisecond.
pub open spec fn times_of_timer(timer: Timer) -> Seq<SplitMillis> {
    Seq::new(
        timer_segments(timer),
        |i: int|
            SplitMillis {
                split_time: millis_of_optional_parts(timer_split_time(timer, i)),
                best_segment: millis_of_optional_parts(timer_best_segment(timer, i)),
            },
    )
}

/// The split that the timer counts as current for display: its current
/// split, or the first one while no attempt is in progress.
pub open spec fn shown_split(timer: Timer) -> int {
    match timer_split_index(timer) {
        Some(i) => i as int,
        None => 0,
    }
}

/// The absolute value of `millis`.
pub open spec fn magnitude(millis: int) -> int {
    if millis < 0 {
        -millis
    } else {
        millis
    }
}

/// Whether `clock` shows `millis` milliseconds: the sign apart, and the rest
/// in hours, minutes below sixty, seconds below sixty and milliseconds below
/// a thousand.
pub open spec fn shows(clock: Clock, millis: int) -> bool {
    &&& clock.negative == (millis < 0)
    &&& clock.minutes < 60
    &&& clock.seconds < 60
    &&& clock.millis < 1000
    &&& clock.hours * 3_600_000 + clock.minutes * 60_000 + clock.seconds * 1000 + clock.millis
        == magnitude(millis)
}

/// The parts of a clock are the quotients and remainders of what it shows.
pub proof fn lemma_clock_parts(clock: Clock, millis: int)
    requires
        shows(clock, millis),
    ensures
        clock.millis == magnitude(millis) % 1000,
        clock.seconds == (magnitude(millis) / 1000) % 60,
        clock.minutes == (magnitude(millis) / 1000 / 60) % 60,
        clock.hours == magnitude(millis) / 1000 / 60 / 60,
{
    let total = magnitude(millis);
    let in_seconds = clock.hours * 3600 + clock.minutes * 60 + clock.seconds;
    let in_minutes = clock.hours * 60 + clock.minutes;
    lemma_fundamental_div_mod_converse(total, 1000, in_seconds, clock.millis as int);
    lemma_fundamental_div_mod_converse(in_seconds, 60, in_minutes, clock.seconds as int);
    lemma_fundamental_div_mod_converse(in_minutes, 60, clock.hours as int, clock.minutes as int);
}

/// Two clocks that show the same time are the same clock.
pub proof fn lemma_clock_is_unique(a: Clock, b: Clock, millis: int)
    requires
        shows(a, millis),
        shows(b, millis),
    ensures
        a == b,
{
    lemma_clock_parts(a, millis);
    lemma_clock_parts(b, millis);
}

/// Times that stay within a quarter of the range of a `TimeSpan` have
/// segment times that can be held.
pub proof fn lemma_moderate_times_fit(times: Seq<SplitMillis>)
    requires
        forall|i: int|
            0 <= i < times.len() ==> {
                &&& (#[trigger] times[i]).split_time matches Some(t) ==> -MAX_MODERATE_MILLIS
                    <= t <= MAX_MODERATE_MILLIS
                &&& times[i].best_segment matches Some(t) ==> -MAX_MODERATE_MILLIS <= t
                    <= MAX_MODERATE_MILLIS
            },
    ensures
        records_fit(times),
{
    assert forall|i: int| 0 <= i < times.len() implies #[trigger] fits(segment_at(times, i)) by {
        // The bounds are known of every split once it is named.
        assert(times[i].split_time is Some || times[i].split_time is None);
        if i > 0 {
            assert(times[i - 1].split_time is Some || times[i - 1].split_time is None);
        }
    }
}

/// The first split has nothing before it: its segment time is its
/// cumulative time. Every later split is measured from the split before
/// it, and from the start of the run where that split was not reached.
pub proof fn lemma_segment_at(times: Seq<SplitMillis>, index: int)
    requires
        0 <= index < times.len(),
    ensures
        index == 0 ==> segment_at(times, index) == times[index].split_time,
        index > 0 ==> segment_at(times, index) == segment_time(
            times[index].split_time,
            times[index - 1].split_time,
        ),
        segment_at(times, index) is Some <==> times[index].split_time is Some,
        delta_at(times, index) is Some <==> times[index].split_time is Some
            && times[index].best_segment is Some,
{
}

/// A split that was skipped shows no time of its own: neither a split
/// time, nor a segment time, nor a delta.
pub proof fn lemma_skipped_split_shows_no_time(pre: Timer, post: Timer, index: usize)
    requires
        timer_split_index(pre) == Some(index),
        can_skip(pre),
        skip_effect(pre, post),
    ensures
        times_of_timer(post)[index as int].split_time is None,
        segment_at(times_of_timer(post), index as int) is None,
        delta_at(times_of_timer(post), index as int) is None,
{
    assert(timer_split_time(post, index as int) is None);
}

/// A split that was undone shows no time of its own, provided that the
/// timer was on one of its splits or at their end.
pub proof fn lemma_undone_split_shows_no_time(pre: Timer, post: Timer, index: usize)
    requires
        timer_split_index(pre) == Some(index),
        index <= timer_segments(pre),
        can_undo(pre),
        undo_effect(pre, post),
    ensures
        times_of_timer(post)[index - 1].split_time is None,
        segment_at(times_of_timer(post), index - 1) is None,
        delta_at(times_of_timer(post), index - 1) is None,
{
    assert(timer_split_time(post, index - 1) is None);
}

/// After a reset no split shows a time of the attempt.
pub proof fn lemma_reset_clears_the_times(pre: Timer, post: Timer, index: int)
    requires
        timer_phase(pre) != Phase::NotRunning,
        reset_effect(pre, post),
        0 <= index < timer_segments(pre),
    ensures
        times_of_timer(post)[index].split_time is None,
        segment_at(times_of_timer(post), index) is None,
        delta_at(times_of_timer(post), index) is None,
{
}

/// Tells where the split `index` stands while the timer is on `current` in
/// `phase`.
pub fn split_status(index: usize, current: usize, phase: Phase) -> (status: SplitStatus)
    ensures
        status == status_of(index as int, current as int, phase),
{
    if index < current {
        SplitStatus::Completed
    } else if index == current && phase == Phase::Running {
        SplitStatus::Current
    } else {
        SplitStatus::Upcoming
    }
}

/// Computes what is shown of each split, from the times that the timer
/// holds of it, while the timer is on `current` in `phase`.
pub fn segment_records(times: &Vec<SegmentTimes>, current: usize, phase: Phase) -> (records: Vec<
    SegmentRecord,
>)
    requires
        records_fit(millis_of_all(times@)),
    ensures
        are_records_of(records@, millis_of_all(times@), current as int, phase),
{
    let count = times.len();
    let ghost all = millis_of_all(times@);
    let mut records: Vec<SegmentRecord> = Vec::new();
    let mut previous: Option<TimeSpan> = None;
    let mut i: usize = 0;
    while i < count
        invariant
            i <= count,
            count == times@.len(),
            all == millis_of_all(times@),
            records_fit(all),
            records@.len() == i,
            millis_of(previous) == previous_split(all, i as int),
            forall|k: int|
                0 <= k < i ==> is_record_of(#[trigger] records@[k], all, current as int, phase, k),
        decreases count - i,
    {
        let here = times[i];
        assert(fits(segment_at(all, i as int)));
        let segment = calculate_segment_time(here.split_time, previous);
        let delta = calculate_delta(segment, here.best_segment);
        records.push(
            SegmentRecord {
                status: split_status(i, current, phase),
                split_time: here.split_time,
                best_segment: here.best_segment,
                segment_time: segment,
                delta,
            },
        );
        previous = here.split_time;
        i += 1;
    }
    records
}

/// Makes a span of an optional time given as seconds and nanoseconds.
fn span_of_parts(parts: Option<(i64, i32)>) -> (span: Option<TimeSpan>)
    ensures
        millis_of(span) == millis_of_optional_parts(parts),
        span matches Some(t) ==> -MAX_MODERATE_MILLIS <= t@ <= MAX_MODERATE_MILLIS,
{
    match parts {
        Some((seconds, nanoseconds)) => Some(
            TimeSpan::from_seconds_and_nanoseconds(seconds, nanoseconds),
        ),
        None => None,
    }
}

/// Reads the times that the timer holds of each split.
pub fn timer_times(timer: &Timer) -> (times: Vec<SegmentTimes>)
    ensures
        millis_of_all(times@) == times_of_timer(*timer),
        records_fit(times_of_timer(*timer)),
{
    let count = segment_count(timer);
    let mut times: Vec<SegmentTimes> = Vec::new();
    let mut i: usize = 0;
    while i < count
        invariant
            i <= count,
            count == timer_segments(*timer),
            times@.len() == i,
            forall|k: int|
                0 <= k < i ==> {
                    &&& (#[trigger] times@[k])@ == times_of_timer(*timer)[k]
                    &&& times@[k].split_time matches Some(t) ==> -MAX_MODERATE_MILLIS <= t@
                        <= MAX_MODERATE_MILLIS
                    &&& times@[k].best_segment matches Some(t) ==> -MAX_MODERATE_MILLIS <= t@
                        <= MAX_MODERATE_MILLIS
                },
        decreases count - i,
    {
        let split_time = span_of_parts(split_time_parts(timer, i));
        let best_segment = span_of_parts(best_segment_parts(timer, i));
        times.push(SegmentTimes { split_time, best_segment });
        i += 1;
    }
    proof {
        let all = millis_of_all(times@);
        assert(all =~= times_of_timer(*timer));
        assert forall|k: int| 0 <= k < all.len() implies {
            &&& (#[trigger] all[k]).split_time matches Some(t) ==> -MAX_MODERATE_MILLIS <= t
                <= MAX_MODERATE_MILLIS
            &&& all[k].best_segment matches Some(t) ==> -MAX_MODERATE_MILLIS <= t
                <= MAX_MODERATE_MILLIS
        } by {
            assert(all[k] == times@[k]@);
        }
        lemma_moderate_times_fit(all);
    }
    times
}

/// Computes what is shown of each split of the timer's run.
pub fn timer_records(timer: &Timer) -> (records: Vec<SegmentRecord>)
    ensures
        are_records_of(
            records@,
            times_of_timer(*timer),
            shown_split(*timer),
            timer_phase(*timer),
        ),
{
    let times = timer_times(timer);
    let current = match timer.current_split_index() {
        Some(i) => i,
        None => 0,
    };
    segment_records(&times, current, current_phase(timer))
}

impl TimeSpan {
    /// Takes the span apart for display.
    pub fn clock(&self) -> (clock: Clock)
        ensures
            shows(clock, self@),
    {
        let millis = self.total_milliseconds();
        let negative = millis < 0;
        let total: u64 = if negative {
            (-(millis + 1)) as u64 + 1
        } else {
            millis as u64
        };
        let below_hour = total % 3_600_000;
        let below_minute = below_hour % 60_000;
        Clock {
            negative,
            hours: total / 3_600_000,
            minutes: below_hour / 60_000,
            seconds: below_minute / 1000,
            millis: below_minute % 1000,
        }
    }
}

} // verus!
