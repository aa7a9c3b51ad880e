//! Keeping the timer and the watcher on the same split.
//!
//! The timer and the watcher each know a current split. The events of the
//! watcher and the commands of the user are applied to the timer here, and
//! whatever moves the timer's split other than forward by one is mirrored
//! into the watcher's cursor.

use crate::timer::{
    current_phase, pause_effect, reset_effect, resume_effect, skip_effect, split_effect,
    start_effect, timer_phase, timer_split_index, undo_effect, Phase,
};
use crate::watcher::{
    can_poll, events_of, state_after_poll, LogWatcher, WatchEvent, WatcherState,
};
use crate::text::complete_lines;
use livesplit_core::Timer;
use vstd::prelude::*;

verus! {

/// A command that the user gives to the timer.
#[derive(Clone, Copy, Debug, PartialEq, Eq, Structural)]
pub enum Command {
    /// Start an attempt, store a split or resume, whichever the phase calls
    /// for.
    StartOrSplit,
    /// Give the attempt up.
    Reset,
    /// Pause a running attempt or resume a paused one.
    TogglePause,
    /// Go back to the split before the current one.
    UndoSplit,
    /// Move on to the next split without a time.
    SkipSplit,
}

/// What is asked of the timer.
#[derive(Clone, Copy, Debug, PartialEq, Eq, Structural)]
pub enum TimerAction {
    /// The timer is left alone.
    Nothing,
    Start,
    Split,
    Reset,
    Pause,
    Resume,
    UndoSplit,
    SkipSplit,
}

/// What an event of the watcher asks of a timer in `phase`. A start is
/// taken only while no attempt is in progress, and a split only while one
/// runs: in the other phases the timer is left alone. A reset is always
/// taken. The index that a split carries is not looked at: the timer moves
/// on by one split of its own.
pub open spec fn event_action(phase: Phase, event: WatchEvent) -> TimerAction {
    match event {
        WatchEvent::Start => if phase == Phase::NotRunning {
            TimerAction::Start
        } else {
            TimerAction::Nothing
        },
        WatchEvent::Split(_) => if phase == Phase::Running {
            TimerAction::Split
        } else {
            TimerAction::Nothing
        },
        WatchEvent::Reset => TimerAction::Reset,
    }
}

/// What a command of the user asks of a timer in `phase`.
pub open spec fn command_action(phase: Phase, command: Command) -> TimerAction {
    match command {
        Command::StartOrSplit => match phase {
            Phase::NotRunning => TimerAction::Start,
            Phase::Running => TimerAction::Split,
            Phase::Paused => TimerAction::Resume,
            Phase::Ended => TimerAction::Nothing,
        },
        Command::Reset => TimerAction::Reset,
        Command::TogglePause => match phase {
            Phase::Running => TimerAction::Pause,
            Phase::Paused => TimerAction::Resume,
            _ => TimerAction::Nothing,
        },
        Command::UndoSplit => TimerAction::UndoSplit,
        Command::SkipSplit => TimerAction::SkipSplit,
    }
}

/// What an action does to the timer.
pub open spec fn action_effect(pre: Timer, post: Timer, action: TimerAction) -> bool {
    match action {
        TimerAction::Nothing => post == pre,
        TimerAction::Start => start_effect(pre, post),
        TimerAction::Split => split_effect(pre, post),
        TimerAction::Reset => reset_effect(pre, post),
        TimerAction::Pause => pause_effect(pre, post),
        TimerAction::Resume => resume_effect(pre, post),
        TimerAction::UndoSplit => undo_effect(pre, post),
        TimerAction::SkipSplit => skip_effect(pre, post),
    }
}

/// What applying an event of the watcher does to the timer.
pub open spec fn event_effect(pre: Timer, post: Timer, event: WatchEvent) -> bool {
    action_effect(pre, post, event_action(timer_phase(pre), event))
}

/// What applying `events` in order does to the timer.
pub open spec fn events_effect(pre: Timer, post: Timer, events: Seq<WatchEvent>) -> bool
    decreases events.len(),
{
    if events.len() == 0 {
        post == pre
    } else {
        exists|mid: Timer|
            #![trigger event_effect(mid, post, events.last())]
            events_effect(pre, mid, events.drop_last()) && event_effect(mid, post, events.last())
    }
}

/// The watcher after an event was applied: a reset moves the cursor back to
/// the first split, and the other events leave the watcher as it is.
pub open spec fn watcher_after_event(state: WatcherState, event: WatchEvent) -> WatcherState {
    match event {
        WatchEvent::Reset => WatcherState { cursor: 0, ..state },
        _ => state,
    }
}

/// The watcher after `events` were applied: the cursor is back at the first
/// split if a reset was among them.
pub open spec fn watcher_after_events(
    state: WatcherState,
    events: Seq<WatchEvent>,
) -> WatcherState {
    if events.contains(WatchEvent::Reset) {
        WatcherState { cursor: 0, ..state }
    } else {
        state
    }
}

/// What a command does to the timer.
pub open spec fn command_effect(pre: Timer, post: Timer, command: Command) -> bool {
    action_effect(pre, post, command_action(timer_phase(pre), command))
}

/// The cursor that stands for the timer's split `index` in a watcher of
/// `splits` splits: the index itself, the first split while the timer has no
/// current split, and `splits` where the index lies past the last split.
pub open spec fn cursor_for(index: Option<usize>, splits: nat) -> nat {
    let i = match index {
        Some(i) => i as nat,
        None => 0,
    };
    if i <= splits {
        i
    } else {
        splits
    }
}

/// The watcher after `command` was given, with the timer as the command
/// left it. A reset moves the cursor back to the first split; undoing and
/// skipping move it to the timer's split; the other commands move the timer
/// as the watcher expects and leave the cursor alone.
pub open spec fn watcher_after_command(
    state: WatcherState,
    command: Command,
    timer: Timer,
) -> WatcherState {
    match command {
        Command::Reset => WatcherState { cursor: 0, ..state },
        Command::UndoSplit | Command::SkipSplit => WatcherState {
            cursor: cursor_for(timer_split_index(timer), state.triggers.splits.len()),
            ..state
        },
        _ => state,
    }
}

/// Applying `events` and then `event` is applying `events` with `event`
/// at their end.
pub proof fn lemma_events_effect_push(
    pre: Timer,
    mid: Timer,
    post: Timer,
    events: Seq<WatchEvent>,
    event: WatchEvent,
)
    requires
        events_effect(pre, mid, events),
        event_effect(mid, post, event),
    ensures
        events_effect(pre, post, events.push(event)),
{
    let next = events.push(event);
    assert(next.drop_last() =~= events);
    assert(next.last() == event);
    assert(event_effect(mid, post, next.last()));
}

/// The watcher after `events` and then `event` is the watcher after
/// `events` with `event` applied to it: applying the events one by one
/// leaves the cursor at the first split exactly if a reset was among them.
pub proof fn lemma_watcher_after_events_push(
    state: WatcherState,
    events: Seq<WatchEvent>,
    event: WatchEvent,
)
    ensures
        watcher_after_events(state, events.push(event)) == watcher_after_event(
            watcher_after_events(state, events),
            event,
        ),
        watcher_after_events(state, Seq::empty()) == state,
{
    let next = events.push(event);
    if events.contains(WatchEvent::Reset) {
        let k = choose|k: int| 0 <= k < events.len() && events[k] == WatchEvent::Reset;
        assert(next[k] == WatchEvent::Reset);
    }
    if event == WatchEvent::Reset {
        assert(next[events.len() as int] == WatchEvent::Reset);
    }
    if next.contains(WatchEvent::Reset) {
        let k = choose|k: int| 0 <= k < next.len() && next[k] == WatchEvent::Reset;
        if k < events.len() {
            assert(events[k] == WatchEvent::Reset);
        }
    }
}

/// An event that the phase does not allow asks nothing of the timer, which
/// stays as it is: a start while an attempt is in progress or has ended,
/// and a split while the attempt is paused, has ended or was not started.
pub proof fn lemma_event_out_of_phase_is_ignored(pre: Timer, post: Timer, event: WatchEvent)
    requires
        event_effect(pre, post, event),
        event is Start && timer_phase(pre) != Phase::NotRunning || event is Split && timer_phase(
            pre,
        ) != Phase::Running,
    ensures
        event_action(timer_phase(pre), event) == TimerAction::Nothing,
        post == pre,
{
}

/// A reset always leaves the cursor at the first split, wherever it was and
/// whatever the phase: as an event of the watcher, alone or among others,
/// and as a command of the user.
pub proof fn lemma_reset_rewinds_cursor(
    state: WatcherState,
    events: Seq<WatchEvent>,
    timer: Timer,
)
    ensures
        watcher_after_event(state, WatchEvent::Reset).cursor == 0,
        events.contains(WatchEvent::Reset) ==> watcher_after_events(state, events).cursor == 0,
        watcher_after_command(state, Command::Reset, timer).cursor == 0,
{
}

/// After a split was undone or skipped, the cursor is on the timer's split,
/// provided that the watcher has that many splits.
pub proof fn lemma_cursor_follows_timer(
    state: WatcherState,
    command: Command,
    timer: Timer,
    index: usize,
)
    requires
        command is UndoSplit || command is SkipSplit,
        timer_split_index(timer) == Some(index),
        index <= state.triggers.splits.len(),
    ensures
        watcher_after_command(state, command, timer).cursor == index,
{
}

/// Undoing a split while the timer is past the first split moves the timer
/// and the cursor back by one, wherever the cursor was.
pub proof fn lemma_undo_moves_cursor_back(
    state: WatcherState,
    pre: Timer,
    post: Timer,
    index: usize,
)
    requires
        timer_phase(pre) != Phase::NotRunning,
        timer_split_index(pre) == Some(index),
        0 < index <= state.triggers.splits.len(),
        command_effect(pre, post, Command::UndoSplit),
    ensures
        timer_split_index(post) == Some((index - 1) as usize),
        watcher_after_command(state, Command::UndoSplit, post).cursor == index - 1,
{
}

/// The commands that move the timer forward leave the watcher as it is.
pub proof fn lemma_forward_commands_keep_watcher(
    state: WatcherState,
    command: Command,
    timer: Timer,
)
    requires
        command is StartOrSplit || command is TogglePause,
    ensures
        watcher_after_command(state, command, timer) == state,
{
}

/// Decides what an event of the watcher asks of a timer in `phase`.
pub fn action_for_event(phase: Phase, event: WatchEvent) -> (action: TimerAction)
    ensures
        action == event_action(phase, event),
{
    match event {
        WatchEvent::Start => if phase == Phase::NotRunning {
            TimerAction::Start
        } else {
            TimerAction::Nothing
        },
        WatchEvent::Split(_) => if phase == Phase::Running {
            TimerAction::Split
        } else {
            TimerAction::Nothing
        },
        WatchEvent::Reset => TimerAction::Reset,
    }
}

/// Decides what a command of the user asks of a timer in `phase`.
pub fn action_for_command(phase: Phase, command: Command) -> (action: TimerAction)
    ensures
        action == command_action(phase, command),
{
    match command {
        Command::StartOrSplit => match phase {
            Phase::NotRunning => TimerAction::Start,
            Phase::Running => TimerAction::Split,
            Phase::Paused => TimerAction::Resume,
            Phase::Ended => TimerAction::Nothing,
        },
        Command::Reset => TimerAction::Reset,
        Command::TogglePause => match phase {
            Phase::Running => TimerAction::Pause,
            Phase::Paused => TimerAction::Resume,
            _ => TimerAction::Nothing,
        },
        Command::UndoSplit => TimerAction::UndoSplit,
        Command::SkipSplit => TimerAction::SkipSplit,
    }
}

/// Does to the timer what `action` asks. A reset ends the attempt and keeps
/// it in the history of the run.
pub fn perform(timer: &mut Timer, action: TimerAction)
    ensures
        action_effect(*old(timer), *final(timer), action),
{
    match action {
        TimerAction::Nothing => {},
        TimerAction::Start => timer.start(),
        TimerAction::Split => timer.split(),
        TimerAction::Reset => timer.reset(true),
        TimerAction::Pause => timer.pause(),
        TimerAction::Resume => timer.resume(),
        TimerAction::UndoSplit => timer.undo_split(),
        TimerAction::SkipSplit => timer.skip_split(),
    }
}

/// Applies one event of the watcher to the timer and the watcher.
pub fn apply_event(timer: &mut Timer, watcher: &mut LogWatcher, event: WatchEvent)
    ensures
        event_effect(*old(timer), *final(timer), event),
        event_action(timer_phase(*old(timer)), event) == TimerAction::Nothing ==> *final(timer)
            == *old(timer),
        final(watcher)@ == watcher_after_event(old(watcher)@, event),
        event is Reset ==> final(watcher)@.cursor == 0,
{
    let action = action_for_event(current_phase(timer), event);
    perform(timer, action);
    match event {
        WatchEvent::Reset => watcher.reset_split_index(),
        _ => {},
    }
}

/// Applies the events of one poll, in order.
pub fn apply_events(timer: &mut Timer, watcher: &mut LogWatcher, events: &Vec<WatchEvent>)
    ensures
        events_effect(*old(timer), *final(timer), events@),
        final(watcher)@ == watcher_after_events(old(watcher)@, events@),
{
    let count = events.len();
    let mut i: usize = 0;
    while i < count
        invariant
            i <= count,
            count == events@.len(),
            events_effect(*old(timer), *timer, events@.take(i as int)),
            watcher@ == watcher_after_events(old(watcher)@, events@.take(i as int)),
        decreases count - i,
    {
        let ghost before = *timer;
        apply_event(timer, watcher, events[i]);
        proof {
            let done = events@.take(i as int);
            let next = events@.take(i + 1);
            lemma_events_effect_push(*old(timer), before, *timer, done, events@[i as int]);
            assert(next =~= done.push(events@[i as int]));
            lemma_watcher_after_events_push(old(watcher)@, done, events@[i as int]);
        }
        i += 1;
    }
    assert(events@.take(count as int) =~= events@);
}

/// Polls the watcher with what was appended to the log and applies the
/// events to the timer. `file_len` and `tail` are those of `LogWatcher::poll`.
/// Returns the events that the log gave. Where the poll cannot take `tail`,
/// nothing is done and nothing is returned.
pub fn poll_watcher(
    timer: &mut Timer,
    watcher: &mut LogWatcher,
    file_len: Option<u64>,
    tail: &[u8],
) -> (events: Option<Vec<WatchEvent>>)
    ensures
        events is Some <==> can_poll(old(watcher)@, file_len, tail@.len()),
        events matches Some(e) ==> {
            &&& e@ == events_of(
                old(watcher)@.triggers,
                old(watcher)@.cursor,
                complete_lines(tail@),
            )
            &&& events_effect(*old(timer), *final(timer), e@)
            &&& final(watcher)@ == watcher_after_events(
                state_after_poll(old(watcher)@, file_len, tail@),
                e@,
            )
        },
        events is None ==> *final(timer) == *old(timer) && final(watcher)@ == old(watcher)@,
{
    match watcher.poll_checked(file_len, tail) {
        Some(events) => {
            apply_events(timer, watcher, &events);
            Some(events)
        },
        None => None,
    }
}

/// Gives a command of the user to the timer.
pub fn drive_timer(timer: &mut Timer, command: Command)
    ensures
        command_effect(*old(timer), *final(timer), command),
{
    let action = action_for_command(current_phase(timer), command);
    perform(timer, action);
}

/// Brings the watcher's cursor in line with the timer after `command` was
/// given to it.
pub fn sync_watcher(timer: &Timer, watcher: &mut LogWatcher, command: Command)
    ensures
        final(watcher)@ == watcher_after_command(old(watcher)@, command, *timer),
{
    match command {
        Command::Reset => watcher.reset_split_index(),
        Command::UndoSplit | Command::SkipSplit => {
            let index = match timer.current_split_index() {
                Some(i) => i,
                None => 0,
            };
            watcher.set_split_index(index);
        },
        _ => {},
    }
}

/// Gives a command of the user to the timer and brings the watcher's cursor
/// in line with it.
pub fn apply_command(timer: &mut Timer, watcher: &mut LogWatcher, command: Command)
    ensures
        command_effect(*old(timer), *final(timer), command),
        final(watcher)@ == watcher_after_command(old(watcher)@, command, *final(timer)),
{
    drive_timer(timer, command);
    sync_watcher(timer, watcher, command);
}

} // verus!
