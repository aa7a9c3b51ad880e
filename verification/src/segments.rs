//! Segment times and their comparison with the best segment.
//!
//! Times are whole milliseconds. A cumulative time is the time from the
//! start of the run to a split; a segment time is the time between two
//! consecutive splits.

use vstd::prelude::*;

verus! {

/// A signed span of time, in milliseconds.
#[derive(Clone, Copy, Debug, PartialEq, Eq, Structural)]
pub struct TimeSpan {
    millis: i64,
}

impl View for TimeSpan {
    type V = int;

    closed spec fn view(&self) -> int {
        self.millis as int
    }
}

/// The difference of two spans, in milliseconds. It is wide enough for the
/// difference of any two spans.
#[derive(Clone, Copy, Debug, PartialEq, Eq, Structural)]
pub struct Delta {
    millis: i128,
}

impl View for Delta {
    type V = int;

    closed spec fn view(&self) -> int {
        self.millis as int
    }
}

/// How a segment compares with the best time of that segment.
#[derive(Clone, Copy, Debug, PartialEq, Eq, Structural)]
pub enum DeltaClass {
    /// Faster than the best segment.
    Ahead,
    /// Slower than the best segment by less than a second, or equal to it.
    Close,
    /// Slower than the best segment by a second or more.
    Behind,
}

/// The colour of a segment that is ahead of the best, as `0xRRGGBB`.
pub const TIME_GREEN: u32 = 0x32CD32;

/// The colour of a segment that is close to the best, as `0xRRGGBB`.
pub const TIME_GOLD: u32 = 0xFFD700;

/// The colour of a segment that is behind the best, as `0xRRGGBB`.
pub const TIME_RED: u32 = 0xDC3C3C;

/// Milliseconds in a second: the width of the band that counts as close.
pub const MILLIS_PER_SECOND: i64 = 1000;

/// The longest span that is made from seconds and nanoseconds, in
/// milliseconds: a quarter of what a `TimeSpan` can hold, so that sums and
/// differences of a few such spans can be held too.
pub const MAX_MODERATE_MILLIS: i64 = 0x1FFF_FFFF_FFFF_FFFF;

/// The whole milliseconds of `nanoseconds`, rounded towards zero.
pub open spec fn whole_millis(nanoseconds: int) -> int {
    if nanoseconds >= 0 {
        nanoseconds / 1_000_000
    } else {
        -((-nanoseconds) / 1_000_000)
    }
}

/// `millis`, or the nearest moderate number of milliseconds.
pub open spec fn moderate(millis: int) -> int {
    if millis > MAX_MODERATE_MILLIS {
        MAX_MODERATE_MILLIS as int
    } else if millis < -MAX_MODERATE_MILLIS {
        -MAX_MODERATE_MILLIS
    } else {
        millis
    }
}

/// The milliseconds of a time given as whole seconds and the nanoseconds
/// past them.
pub open spec fn millis_of_parts(parts: (i64, i32)) -> int {
    moderate(parts.0 * 1000 + whole_millis(parts.1 as int))
}

/// Whether a time, if there is one, can be held in a `TimeSpan`.
pub open spec fn fits(t: Option<int>) -> bool {
    t matches Some(millis) ==> i64::MIN <= millis <= i64::MAX
}

/// The views of an optional time.
pub open spec fn millis_of(t: Option<TimeSpan>) -> Option<int> {
    match t {
        Some(span) => Some(span@),
        None => None,
    }
}

/// The views of an optional delta.
pub open spec fn millis_of_delta(d: Option<Delta>) -> Option<int> {
    match d {
        Some(delta) => Some(delta@),
        None => None,
    }
}

/// The time of one segment: the cumulative time of its split less that of
/// the split before it. The first segment has no split before it and lasts
/// as long as its own cumulative time. A split that was not reached has no
/// segment time.
pub open spec fn segment_time(current: Option<int>, previous: Option<int>) -> Option<int> {
    match (current, previous) {
        (Some(c), Some(p)) => Some(c - p),
        (Some(c), None) => Some(c),
        (None, _) => None,
    }
}

/// How far a segment is from the best: negative when ahead, positive when
/// behind. There is no delta without both times.
pub open spec fn delta(segment: Option<int>, best: Option<int>) -> Option<int> {
    match (segment, best) {
        (Some(s), Some(b)) => Some(s - b),
        _ => None,
    }
}

/// The class of a delta given in milliseconds.
pub open spec fn class_of(delta: int) -> DeltaClass {
    if delta < 0 {
        DeltaClass::Ahead
    } else if delta < MILLIS_PER_SECOND {
        DeltaClass::Close
    } else {
        DeltaClass::Behind
    }
}

/// The colour that a class is shown in, as `0xRRGGBB`.
pub open spec fn color_of(class: DeltaClass) -> u32 {
    match class {
        DeltaClass::Ahead => TIME_GREEN,
        DeltaClass::Close => TIME_GOLD,
        DeltaClass::Behind => TIME_RED,
    }
}

/// A span is known by its milliseconds, of which it holds no more than
/// sixty-four bits.
pub proof fn lemma_span_is_its_millis(a: TimeSpan, b: TimeSpan)
    ensures
        i64::MIN <= a@ <= i64::MAX,
        a@ == b@ <==> a == b,
{
}

/// Of two cumulative times that are not negative and in order, the segment
/// time is their difference, which is not negative either and can be held.
/// The first segment lasts as long as its cumulative time.
pub proof fn lemma_segment_of_cumulative_times(current: TimeSpan, previous: TimeSpan)
    requires
        current@ >= previous@ >= 0,
    ensures
        segment_time(Some(current@), Some(previous@)) == Some(current@ - previous@),
        segment_time(Some(current@), None) == Some(current@),
        0 <= current@ - previous@ <= current@,
        fits(segment_time(Some(current@), Some(previous@))),
{
}

/// A delta is known by its milliseconds.
pub proof fn lemma_delta_is_its_millis(a: Delta, b: Delta)
    ensures
        a@ == b@ <==> a == b,
{
}

/// A delta is negative exactly when the segment is faster than the best,
/// and there is none without both times.
pub proof fn lemma_delta_sign(segment: Option<int>, best: Option<int>)
    ensures
        delta(segment, best) is Some <==> segment is Some && best is Some,
        delta(segment, best) matches Some(d) ==> (d < 0 <==> segment->0 < best->0) && d
            == segment->0 - best->0,
{
}

/// The classes follow the delta: whatever is ahead lies below whatever is
/// close, and that below whatever is behind. Zero is close, and so is
/// everything up to a second.
pub proof fn lemma_classes_in_order(a: int, b: int)
    requires
        a <= b,
    ensures
        class_of(a) == DeltaClass::Behind ==> class_of(b) == DeltaClass::Behind,
        class_of(b) == DeltaClass::Ahead ==> class_of(a) == DeltaClass::Ahead,
        class_of(0) == DeltaClass::Close,
        class_of(-1) == DeltaClass::Ahead,
        class_of(999) == DeltaClass::Close,
        class_of(1000) == DeltaClass::Behind,
{
}

impl Delta {
    /// A delta of `millis` milliseconds.
    pub fn from_milliseconds(millis: i64) -> (delta: Delta)
        ensures
            delta@ == millis,
    {
        Delta { millis: millis as i128 }
    }

    /// The delta in milliseconds.
    pub fn total_milliseconds(&self) -> (millis: i128)
        ensures
            millis == self@,
    {
        self.millis
    }
}

impl TimeSpan {
    /// The empty span.
    pub fn zero() -> (span: TimeSpan)
        ensures
            span@ == 0,
    {
        TimeSpan { millis: 0 }
    }

    /// A span of `millis` milliseconds.
    pub fn from_milliseconds(millis: i64) -> (span: TimeSpan)
        ensures
            span@ == millis,
    {
        TimeSpan { millis }
    }

    /// A span of `seconds` whole seconds.
    pub fn from_seconds(seconds: i64) -> (span: TimeSpan)
        requires
            i64::MIN <= seconds * 1000 <= i64::MAX,
        ensures
            span@ == seconds * 1000,
    {
        TimeSpan { millis: seconds * MILLIS_PER_SECOND }
    }

    /// The span of `seconds` whole seconds and `nanoseconds` nanoseconds,
    /// to the millisecond below. A span of more than `MAX_MODERATE_MILLIS`
    /// milliseconds is cut down to that.
    pub fn from_seconds_and_nanoseconds(seconds: i64, nanoseconds: i32) -> (span: TimeSpan)
        ensures
            span@ == millis_of_parts((seconds, nanoseconds)),
            -MAX_MODERATE_MILLIS <= span@ <= MAX_MODERATE_MILLIS,
    {
        let below_second: i128 = if nanoseconds >= 0 {
            (nanoseconds / 1_000_000) as i128
        } else {
            -((-(nanoseconds as i128)) / 1_000_000)
        };
        let total: i128 = (seconds as i128) * 1000 + below_second;
        let millis: i64 = if total > MAX_MODERATE_MILLIS as i128 {
            MAX_MODERATE_MILLIS
        } else if total < -(MAX_MODERATE_MILLIS as i128) {
            -MAX_MODERATE_MILLIS
        } else {
            total as i64
        };
        TimeSpan { millis }
    }

    /// The span in milliseconds.
    pub fn total_milliseconds(&self) -> (millis: i64)
        ensures
            millis == self@,
    {
        self.millis
    }
}

/// Computes the time of one segment from the cumulative time of its split
/// and that of the split before it.
pub fn calculate_segment_time(
    current_split: Option<TimeSpan>,
    previous_split: Option<TimeSpan>,
) -> (segment: Option<TimeSpan>)
    requires
        fits(segment_time(millis_of(current_split), millis_of(previous_split))),
    ensures
        millis_of(segment) == segment_time(millis_of(current_split), millis_of(previous_split)),
{
    match current_split {
        Some(current) => match previous_split {
            Some(previous) => Some(TimeSpan { millis: current.millis - previous.millis }),
            None => Some(current),
        },
        None => None,
    }
}

/// Computes how far a segment is from the best segment: the segment less
/// the best, which is negative when the segment is ahead and positive when
/// it is behind. There is no delta unless both times are there.
pub fn calculate_delta(current_segment: Option<TimeSpan>, best_segment: Option<TimeSpan>) -> (d:
    Option<Delta>)
    ensures
        millis_of_delta(d) == delta(millis_of(current_segment), millis_of(best_segment)),
        d is None <==> current_segment is None || best_segment is None,
        d matches Some(difference) ==> difference@ == current_segment->0@ - best_segment->0@,
{
    match (current_segment, best_segment) {
        (Some(current), Some(best)) => Some(
            Delta { millis: (current.millis as i128) - (best.millis as i128) },
        ),
        _ => None,
    }
}

/// Classifies a delta as ahead of, close to or behind the best segment.
pub fn classify(delta: Delta) -> (class: DeltaClass)
    ensures
        class == class_of(delta@),
{
    if delta.millis < 0 {
        DeltaClass::Ahead
    } else if delta.millis < MILLIS_PER_SECOND as i128 {
        DeltaClass::Close
    } else {
        DeltaClass::Behind
    }
}

/// The colour in which a delta is shown, as `0xRRGGBB`.
pub fn delta_color(delta: Delta) -> (color: u32)
    ensures
        color == color_of(class_of(delta@)),
{
    match classify(delta) {
        DeltaClass::Ahead => TIME_GREEN,
        DeltaClass::Close => TIME_GOLD,
        DeltaClass::Behind => TIME_RED,
    }
}

} // verus!
