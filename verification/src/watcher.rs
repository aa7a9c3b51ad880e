//! The trigger watcher: from the bytes appended to a log to timer events.
//!
//! The watcher holds the configured triggers, the index of the split whose
//! trigger it expects next (the cursor) and the offset in the log up to
//! which it has read (the position). It never touches the file: the caller
//! reads the bytes from the offset that `read_offset` gives and hands them
//! to `poll`.

use crate::encoding::lemma_search_by_bytes;
use crate::text::{
    complete_len, complete_lines, contains, contains_bytes, find_newline, lemma_complete_len_bound,
    lemma_line_end_unique, lemma_lines_in_two_parts, NEWLINE,
};
use vstd::prelude::*;
use vstd::slice::slice_subrange;
use vstd::utf8::encode_utf8;

verus! {

/// What a line of the log asks of the timer.
#[derive(Clone, Copy, Debug, PartialEq, Eq, Structural)]
pub enum WatchEvent {
    /// Start an attempt.
    Start,
    /// The split with this index was reached.
    Split(usize),
    /// Give the attempt up.
    Reset,
}

/// The configured triggers, each by the bytes of its text. `None` stands for
/// a trigger that is not configured, which no line fires.
pub ghost struct Triggers {
    pub start: Option<Seq<u8>>,
    pub reset: Option<Seq<u8>>,
    pub splits: Seq<Option<Seq<u8>>>,
}

/// What a watcher is, to its callers.
pub ghost struct WatcherState {
    pub triggers: Triggers,
    /// The index of the split whose trigger is expected next.
    pub cursor: nat,
    /// The offset in the log up to which every line has been handled.
    pub position: nat,
}

impl WatcherState {
    /// The cursor is an index into the split triggers, or their number when
    /// no split is left to wait for.
    pub open spec fn wf(self) -> bool {
        self.cursor <= self.triggers.splits.len()
    }
}

/// The bytes of an optional trigger text.
pub open spec fn bytes_of(text: Option<String>) -> Option<Seq<u8>> {
    match text {
        Some(s) => Some(encode_utf8(s@)),
        None => None,
    }
}

/// The bytes of each split trigger.
pub open spec fn split_bytes(splits: Seq<Option<String>>) -> Seq<Option<Seq<u8>>> {
    Seq::new(splits.len(), |i: int| bytes_of(splits[i]))
}

/// Whether `line` fires `trigger`: the trigger is configured and its text
/// stands in the line.
pub open spec fn fires(trigger: Option<Seq<u8>>, line: Seq<u8>) -> bool {
    trigger matches Some(text) && contains(line, text)
}

/// The event of one line, with the cursor at `cursor`. The reset trigger
/// goes before the start trigger, and both before the trigger of the
/// expected split; a line gives at most one event.
pub open spec fn event_of(triggers: Triggers, cursor: nat, line: Seq<u8>) -> Option<WatchEvent> {
    if fires(triggers.reset, line) {
        Some(WatchEvent::Reset)
    } else if fires(triggers.start, line) {
        Some(WatchEvent::Start)
    } else if cursor < triggers.splits.len() && fires(triggers.splits[cursor as int], line) {
        Some(WatchEvent::Split(cursor as usize))
    } else {
        None
    }
}

/// The cursor after a line that gave `event`.
pub open spec fn cursor_after(cursor: nat, event: Option<WatchEvent>) -> nat {
    match event {
        Some(WatchEvent::Reset) => 0,
        Some(WatchEvent::Split(_)) => cursor + 1,
        _ => cursor,
    }
}

/// The events of `lines`, in order, starting with the cursor at `cursor`.
/// Each line is matched as it stands between two newlines.
pub open spec fn events_of(triggers: Triggers, cursor: nat, lines: Seq<Seq<u8>>) -> Seq<
    WatchEvent,
>
    decreases lines.len(),
{
    if lines.len() == 0 {
        Seq::empty()
    } else {
        let event = event_of(triggers, cursor, lines[0]);
        let rest = events_of(triggers, cursor_after(cursor, event), lines.drop_first());
        match event {
            Some(e) => seq![e] + rest,
            None => rest,
        }
    }
}

/// The cursor after `lines`, starting with the cursor at `cursor`.
pub open spec fn cursor_end(triggers: Triggers, cursor: nat, lines: Seq<Seq<u8>>) -> nat
    decreases lines.len(),
{
    if lines.len() == 0 {
        cursor
    } else {
        let event = event_of(triggers, cursor, lines[0]);
        cursor_end(triggers, cursor_after(cursor, event), lines.drop_first())
    }
}

/// The offset at which the next read starts. A log that is shorter than the
/// position was truncated or replaced and is read again from its start; a
/// log whose length is not known is read on from the position.
pub open spec fn read_start(position: nat, file_len: Option<u64>) -> nat {
    match file_len {
        Some(len) => if len < position {
            0
        } else {
            position
        },
        None => position,
    }
}

/// Whether a poll can take `len` bytes: the offset at which they end must
/// be one that a log can have.
pub open spec fn can_poll(state: WatcherState, file_len: Option<u64>, len: nat) -> bool {
    read_start(state.position, file_len) + len <= u64::MAX
}

/// The state after a poll that found the log `file_len` bytes long and read
/// `tail` from `read_start` on.
pub open spec fn state_after_poll(
    state: WatcherState,
    file_len: Option<u64>,
    tail: Seq<u8>,
) -> WatcherState {
    WatcherState {
        triggers: state.triggers,
        cursor: cursor_end(state.triggers, state.cursor, complete_lines(tail)),
        position: read_start(state.position, file_len) + complete_len(tail),
    }
}

/// On a line of text, a trigger fires exactly if it is configured and its
/// text stands in the text of the line.
pub proof fn lemma_fires_on_text(trigger: Option<String>, line: Seq<char>)
    ensures
        fires(bytes_of(trigger), encode_utf8(line)) <==> (trigger matches Some(text) && contains(
            line,
            text@,
        )),
{
    if let Some(text) = trigger {
        lemma_search_by_bytes(line, text@);
    }
}

/// One complete line gives the event of that line, if it has one, and
/// moves the cursor as that event does.
pub proof fn lemma_one_line(triggers: Triggers, cursor: nat, line: Seq<u8>)
    requires
        forall|k: int| 0 <= k < line.len() ==> line[k] != NEWLINE,
    ensures
        complete_lines(line.push(NEWLINE)) == seq![line],
        complete_len(line.push(NEWLINE)) == line.len() + 1,
        events_of(triggers, cursor, complete_lines(line.push(NEWLINE))) == match event_of(
            triggers,
            cursor,
            line,
        ) {
            Some(event) => seq![event],
            None => Seq::empty(),
        },
        cursor_end(triggers, cursor, complete_lines(line.push(NEWLINE))) == cursor_after(
            cursor,
            event_of(triggers, cursor, line),
        ),
{
    let data = line.push(NEWLINE);
    let n = line.len() as int;
    assert forall|k: int| 0 <= k < n implies data[k] != NEWLINE by {
        assert(data[k] == line[k]);
    }
    lemma_line_end_unique(data, n);
    let rest = data.subrange(n + 1, data.len() as int);
    assert(rest.len() == 0);
    assert(data.subrange(0, n) =~= line);
    assert(complete_lines(rest) =~= Seq::<Seq<u8>>::empty());
    assert(complete_len(rest) == 0);
    let lines = complete_lines(data);
    assert(lines =~= seq![line]);
    assert(lines[0] == line);
    assert(lines.drop_first() =~= Seq::<Seq<u8>>::empty());
    let event = event_of(triggers, cursor, line);
    let next = cursor_after(cursor, event);
    assert(events_of(triggers, next, lines.drop_first()) =~= Seq::<WatchEvent>::empty());
    assert(cursor_end(triggers, next, lines.drop_first()) == next);
    if let Some(e) = event {
        assert(seq![e] + Seq::<WatchEvent>::empty() =~= seq![e]);
    }
}

/// A complete line that holds the reset trigger gives a reset and nothing
/// else, and leaves the cursor at the first split, wherever the cursor was
/// and whatever other trigger the line holds.
pub proof fn lemma_reset_line(state: WatcherState, file_len: Option<u64>, line: Seq<u8>)
    requires
        fires(state.triggers.reset, line),
        forall|k: int| 0 <= k < line.len() ==> line[k] != NEWLINE,
    ensures
        events_of(state.triggers, state.cursor, complete_lines(line.push(NEWLINE))) == seq![
            WatchEvent::Reset,
        ],
        state_after_poll(state, file_len, line.push(NEWLINE)).cursor == 0,
{
    lemma_one_line(state.triggers, state.cursor, line);
}

/// The events of `first + second` are those of `first` followed by those of
/// `second`, taken with the cursor where `first` left it.
pub proof fn lemma_events_in_two_parts(
    triggers: Triggers,
    cursor: nat,
    first: Seq<Seq<u8>>,
    second: Seq<Seq<u8>>,
)
    ensures
        events_of(triggers, cursor, first + second) == events_of(triggers, cursor, first)
            + events_of(triggers, cursor_end(triggers, cursor, first), second),
        cursor_end(triggers, cursor, first + second) == cursor_end(
            triggers,
            cursor_end(triggers, cursor, first),
            second,
        ),
    decreases first.len(),
{
    if first.len() == 0 {
        assert(first + second =~= second);
        assert(Seq::<WatchEvent>::empty() + events_of(triggers, cursor, second) =~= events_of(
            triggers,
            cursor,
            second,
        ));
    } else {
        let whole = first + second;
        assert(whole[0] == first[0]);
        assert(whole.drop_first() =~= first.drop_first() + second);
        let event = event_of(triggers, cursor, first[0]);
        let next = cursor_after(cursor, event);
        lemma_events_in_two_parts(triggers, next, first.drop_first(), second);
        let head = events_of(triggers, next, first.drop_first());
        let tail = events_of(triggers, cursor_end(triggers, cursor, first), second);
        if let Some(e) = event {
            assert(seq![e] + (head + tail) =~= (seq![e] + head) + tail);
        }
    }
}

/// A watcher that is in range stays in range over any lines.
pub proof fn lemma_cursor_stays_in_range(triggers: Triggers, cursor: nat, lines: Seq<Seq<u8>>)
    requires
        cursor <= triggers.splits.len(),
    ensures
        cursor_end(triggers, cursor, lines) <= triggers.splits.len(),
    decreases lines.len(),
{
    if lines.len() > 0 {
        let event = event_of(triggers, cursor, lines[0]);
        lemma_cursor_stays_in_range(triggers, cursor_after(cursor, event), lines.drop_first());
    }
}

/// Polling keeps the watcher well formed.
pub proof fn lemma_poll_keeps_wf(state: WatcherState, file_len: Option<u64>, tail: Seq<u8>)
    requires
        state.wf(),
    ensures
        state_after_poll(state, file_len, tail).wf(),
{
    lemma_cursor_stays_in_range(state.triggers, state.cursor, complete_lines(tail));
}

/// No line is lost and none is handled twice, however the appended bytes
/// are cut into polls. If one poll reads `first` and the next one reads
/// what the first left unread with `second` after it, the two give the
/// events of a single poll that reads `first + second`, and leave the
/// watcher in the same state.
pub proof fn lemma_poll_in_two_steps(
    state: WatcherState,
    file_len: Option<u64>,
    first: Seq<u8>,
    second: Seq<u8>,
)
    ensures
        ({
            let mid = state_after_poll(state, file_len, first);
            let unread = first.subrange(complete_len(first) as int, first.len() as int);
            &&& read_start(mid.position, None) == read_start(state.position, file_len)
                + complete_len(first)
            &&& events_of(state.triggers, state.cursor, complete_lines(first + second))
                == events_of(state.triggers, state.cursor, complete_lines(first)) + events_of(
                mid.triggers,
                mid.cursor,
                complete_lines(unread + second),
            )
            &&& state_after_poll(mid, None, unread + second) == state_after_poll(
                state,
                file_len,
                first + second,
            )
        }),
{
    lemma_lines_in_two_parts(first, second);
    let unread = first.subrange(complete_len(first) as int, first.len() as int);
    lemma_events_in_two_parts(
        state.triggers,
        state.cursor,
        complete_lines(first),
        complete_lines(unread + second),
    );
}

/// What the caller reads of `log` for a poll: its bytes from the read
/// offset on.
pub open spec fn unread(state: WatcherState, log: Seq<u8>) -> Seq<u8> {
    log.subrange(read_start(state.position, Some(log.len() as u64)) as int, log.len() as int)
}

/// A log that only grows is read once, whenever it is polled. If the log is
/// polled as it is and again when `appended` has been added to it, the two
/// polls give the events of a single poll of the grown log, and leave the
/// watcher in the same state.
pub proof fn lemma_growing_log(state: WatcherState, log: Seq<u8>, appended: Seq<u8>)
    requires
        state.position <= log.len(),
        log.len() + appended.len() <= u64::MAX,
    ensures
        ({
            let grown = log + appended;
            let mid = state_after_poll(state, Some(log.len() as u64), unread(state, log));
            &&& mid.position <= log.len()
            &&& events_of(state.triggers, state.cursor, complete_lines(unread(state, grown)))
                == events_of(state.triggers, state.cursor, complete_lines(unread(state, log)))
                + events_of(mid.triggers, mid.cursor, complete_lines(unread(mid, grown)))
            &&& state_after_poll(mid, Some(grown.len() as u64), unread(mid, grown))
                == state_after_poll(state, Some(grown.len() as u64), unread(state, grown))
        }),
{
    let grown = log + appended;
    let first = unread(state, log);
    let read = complete_len(first) as int;
    let mid = state_after_poll(state, Some(log.len() as u64), first);
    lemma_complete_len_bound(first);
    lemma_poll_in_two_steps(state, Some(log.len() as u64), first, appended);
    assert(unread(state, grown) =~= first + appended);
    assert(unread(mid, grown) =~= first.subrange(read, first.len() as int) + appended);
}

/// The position never goes back while the log is not found shorter than
/// it, and moves by no more than was read.
pub proof fn lemma_position_moves_forward(
    state: WatcherState,
    file_len: Option<u64>,
    tail: Seq<u8>,
)
    requires
        file_len matches Some(len) ==> len >= state.position,
    ensures
        state.position <= state_after_poll(state, file_len, tail).position <= state.position
            + tail.len(),
{
    lemma_complete_len_bound(tail);
}

/// A log that was truncated is read again from its start: where the log is
/// found shorter than the position, the poll gives the events of the lines
/// of `tail`, and the position becomes the number of bytes that they take.
pub proof fn lemma_truncation_restarts(state: WatcherState, len: u64, tail: Seq<u8>)
    requires
        len < state.position,
    ensures
        read_start(state.position, Some(len)) == 0,
        state_after_poll(state, Some(len), tail).position == complete_len(tail),
{
}

/// Bytes without a newline give no event and stay unread.
pub proof fn lemma_incomplete_line_waits(state: WatcherState, tail: Seq<u8>)
    requires
        forall|k: int| 0 <= k < tail.len() ==> tail[k] != NEWLINE,
    ensures
        events_of(state.triggers, state.cursor, complete_lines(tail)) == Seq::<WatchEvent>::empty(),
        state_after_poll(state, None, tail) == state,
{
    lemma_line_end_unique(tail, tail.len() as int);
}

/// Watches a log for the configured triggers.
pub struct LogWatcher {
    start_trigger: Option<String>,
    reset_trigger: Option<String>,
    split_triggers: Vec<Option<String>>,
    current_split: usize,
    position: u64,
}

impl View for LogWatcher {
    type V = WatcherState;

    closed spec fn view(&self) -> WatcherState {
        WatcherState {
            triggers: Triggers {
                start: bytes_of(self.start_trigger),
                reset: bytes_of(self.reset_trigger),
                splits: split_bytes(self.split_triggers@),
            },
            cursor: self.current_split as nat,
            position: self.position as nat,
        }
    }
}

/// Tells whether `line` fires `trigger`.
fn trigger_fires(trigger: &Option<String>, line: &[u8]) -> (r: bool)
    ensures
        r == fires(bytes_of(*trigger), line@),
{
    match trigger {
        Some(text) => contains_bytes(line, text.as_str().as_bytes()),
        None => false,
    }
}

impl LogWatcher {
    #[verifier::type_invariant]
    spec fn cursor_in_range(self) -> bool {
        self.current_split <= self.split_triggers@.len()
    }

    /// A watcher for a log that is `end_of_file` bytes long now. Only what
    /// is appended after that is ever looked at. The cursor starts at the
    /// first split.
    pub fn new(
        end_of_file: u64,
        start_trigger: Option<String>,
        reset_trigger: Option<String>,
        split_triggers: Vec<Option<String>>,
    ) -> (watcher: LogWatcher)
        ensures
            watcher@ == (WatcherState {
                triggers: Triggers {
                    start: bytes_of(start_trigger),
                    reset: bytes_of(reset_trigger),
                    splits: split_bytes(split_triggers@),
                },
                cursor: 0,
                position: end_of_file as nat,
            }),
    {
        LogWatcher {
            start_trigger,
            reset_trigger,
            split_triggers,
            current_split: 0,
            position: end_of_file,
        }
    }

    /// The index of the split whose trigger is expected next.
    pub fn current_split(&self) -> (cursor: usize)
        ensures
            cursor == self@.cursor,
            self@.wf(),
    {
        proof {
            use_type_invariant(self);
        }
        self.current_split
    }

    /// The number of splits that the watcher was configured with.
    pub fn split_count(&self) -> (count: usize)
        ensures
            count == self@.triggers.splits.len(),
    {
        self.split_triggers.len()
    }

    /// The offset in the log up to which every line has been handled.
    pub fn position(&self) -> (position: u64)
        ensures
            position == self@.position,
    {
        self.position
    }

    /// Moves the cursor back to the first split.
    pub fn reset_split_index(&mut self)
        ensures
            final(self)@ == (WatcherState { cursor: 0, ..old(self)@ }),
    {
        self.current_split = 0;
    }

    /// Moves the cursor to `index`. An index past the last split leaves no
    /// split to wait for, which is what the number of splits stands for.
    pub fn set_split_index(&mut self, index: usize)
        ensures
            final(self)@ == (WatcherState {
                cursor: if index <= old(self)@.triggers.splits.len() {
                    index as nat
                } else {
                    old(self)@.triggers.splits.len()
                },
                ..old(self)@
            }),
            final(self)@.wf(),
    {
        let count = self.split_triggers.len();
        self.current_split = if index <= count {
            index
        } else {
            count
        };
    }

    /// The offset from which the caller reads the log for the next poll,
    /// given the length of the log now, if it is known.
    pub fn read_offset(&self, file_len: Option<u64>) -> (offset: u64)
        ensures
            offset == read_start(self@.position, file_len),
    {
        match file_len {
            Some(len) => if len < self.position {
                0
            } else {
                self.position
            },
            None => self.position,
        }
    }

    /// The event of `line` with the cursor where it is.
    pub fn event_for(&self, line: &[u8]) -> (event: Option<WatchEvent>)
        ensures
            event == event_of(self@.triggers, self@.cursor, line@),
    {
        if trigger_fires(&self.reset_trigger, line) {
            Some(WatchEvent::Reset)
        } else if trigger_fires(&self.start_trigger, line) {
            Some(WatchEvent::Start)
        } else if self.current_split < self.split_triggers.len() && trigger_fires(
            &self.split_triggers[self.current_split],
            line,
        ) {
            Some(WatchEvent::Split(self.current_split))
        } else {
            None
        }
    }

    /// Handles what was appended to the log. `file_len` is the length of
    /// the log now, if it is known, and `tail` holds the bytes of the log
    /// from `read_offset(file_len)` on.
    ///
    /// Returns the events of the complete lines of `tail`, in order, and
    /// moves the position past them. The bytes after the last newline stay
    /// unread until their newline has arrived.
    pub fn poll(&mut self, file_len: Option<u64>, tail: &[u8]) -> (events: Vec<WatchEvent>)
        requires
            can_poll(old(self)@, file_len, tail@.len()),
        ensures
            events@ == events_of(old(self)@.triggers, old(self)@.cursor, complete_lines(tail@)),
            final(self)@ == state_after_poll(old(self)@, file_len, tail@),
            final(self)@.wf(),
    {
        let start = self.read_offset(file_len);
        let len = tail.len();
        let mut events: Vec<WatchEvent> = Vec::new();
        let mut from: usize = 0;
        let ghost triggers = self@.triggers;
        let ghost cursor = self@.cursor;
        proof {
            use_type_invariant(&*self);
            assert(tail@.subrange(0, len as int) =~= tail@);
        }
        loop
            invariant
                from <= len,
                len == tail@.len(),
                self@.triggers == triggers,
                self.position == old(self).position,
                self.cursor_in_range(),
                events_of(triggers, cursor, complete_lines(tail@)) == events@ + events_of(
                    triggers,
                    self@.cursor,
                    complete_lines(tail@.subrange(from as int, len as int)),
                ),
                cursor_end(triggers, cursor, complete_lines(tail@)) == cursor_end(
                    triggers,
                    self@.cursor,
                    complete_lines(tail@.subrange(from as int, len as int)),
                ),
                complete_len(tail@) == from + complete_len(
                    tail@.subrange(from as int, len as int),
                ),
            ensures
                from <= len,
                self@.triggers == triggers,
                self.position == old(self).position,
                self.cursor_in_range(),
                events_of(triggers, cursor, complete_lines(tail@)) == events@,
                cursor_end(triggers, cursor, complete_lines(tail@)) == self@.cursor,
                complete_len(tail@) == from,
            decreases len - from,
        {
            let ghost rest = tail@.subrange(from as int, len as int);
            let ghost before = events@;
            let ghost at = self@.cursor;
            match find_newline(tail, from) {
                None => {
                    assert(events@ + Seq::<WatchEvent>::empty() =~= events@);
                    break ;
                },
                Some(end) => {
                    let line = slice_subrange(tail, from, end);
                    let event = self.event_for(line);
                    proof {
                        let first = rest.subrange(0, end - from);
                        let after = rest.subrange(end - from + 1, rest.len() as int);
                        assert(first =~= tail@.subrange(from as int, end as int));
                        assert(after =~= tail@.subrange(end + 1, len as int));
                        let lines = complete_lines(rest);
                        assert(lines == seq![first] + complete_lines(after));
                        assert(lines[0] == first);
                        assert(lines.drop_first() =~= complete_lines(after));
                        let following = events_of(
                            triggers,
                            cursor_after(at, event),
                            complete_lines(after),
                        );
                        if let Some(e) = event {
                            assert(before + (seq![e] + following) =~= before.push(e) + following);
                        }
                    }
                    match event {
                        Some(WatchEvent::Reset) => {
                            events.push(WatchEvent::Reset);
                            self.current_split = 0;
                        },
                        Some(WatchEvent::Start) => {
                            events.push(WatchEvent::Start);
                        },
                        Some(WatchEvent::Split(index)) => {
                            assert(at < self.split_triggers.len());
                            events.push(WatchEvent::Split(index));
                            self.current_split = self.current_split + 1;
                        },
                        None => {},
                    }
                    from = end + 1;
                },
            }
        }
        proof {
            lemma_complete_len_bound(tail@);
        }
        self.position = start + (from as u64);
        events
    }

    /// Polls if the poll can take `tail`, and leaves the watcher as it is
    /// otherwise.
    pub fn poll_checked(&mut self, file_len: Option<u64>, tail: &[u8]) -> (events: Option<
        Vec<WatchEvent>,
    >)
        ensures
            events is Some <==> can_poll(old(self)@, file_len, tail@.len()),
            events matches Some(e) ==> e@ == events_of(
                old(self)@.triggers,
                old(self)@.cursor,
                complete_lines(tail@),
            ) && final(self)@ == state_after_poll(old(self)@, file_len, tail@),
            events is None ==> final(self)@ == old(self)@,
    {
        let start = self.read_offset(file_len);
        if tail.len() as u64 <= u64::MAX - start {
            Some(self.poll(file_len, tail))
        } else {
            None
        }
    }
}

} // verus!
