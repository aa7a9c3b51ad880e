//! The definition of a run: its splits and the triggers to watch for.

use crate::watcher::{bytes_of, LogWatcher, Triggers, WatcherState};
use vstd::prelude::*;

verus! {

/// One split of a run.
#[derive(Debug, Clone)]
pub struct SplitDefinition {
    pub name: String,
    /// The best time of the segment that ends at this split, in
    /// milliseconds.
    pub best_time_ms: Option<u64>,
    /// The text to watch for in the game's log.
    pub trigger: Option<String>,
}

/// The splits of one category of a game.
#[derive(Debug, Clone)]
pub struct SplitsFile {
    pub game: String,
    pub category: String,
    pub splits: Vec<SplitDefinition>,
    pub start_trigger: Option<String>,
    pub reset_trigger: Option<String>,
}

/// The triggers of the splits, in order.
pub open spec fn triggers_of(splits: Seq<SplitDefinition>) -> Seq<Option<String>> {
    Seq::new(splits.len(), |i: int| splits[i].trigger)
}

impl SplitsFile {
    /// The triggers that a watcher of this run is configured with.
    pub open spec fn triggers(self) -> Triggers {
        Triggers {
            start: bytes_of(self.start_trigger),
            reset: bytes_of(self.reset_trigger),
            splits: Seq::new(self.splits@.len(), |i: int| bytes_of(self.splits@[i].trigger)),
        }
    }

    /// The run that is timed when no definition is given: one split, no best
    /// time and no trigger.
    pub fn default_run() -> (run: SplitsFile)
        ensures
            run.game@ == "Game"@,
            run.category@ == "Any%"@,
            run.splits@.len() == 1,
            run.splits@[0].name@ == "Split 1"@,
            run.splits@[0].best_time_ms is None,
            run.splits@[0].trigger is None,
            run.start_trigger is None,
            run.reset_trigger is None,
    {
        let mut splits: Vec<SplitDefinition> = Vec::new();
        splits.push(
            SplitDefinition { name: "Split 1".to_owned(), best_time_ms: None, trigger: None },
        );
        SplitsFile {
            game: "Game".to_owned(),
            category: "Any%".to_owned(),
            splits,
            start_trigger: None,
            reset_trigger: None,
        }
    }

    /// The trigger of each split, in the order of the splits.
    pub fn split_triggers(&self) -> (triggers: Vec<Option<String>>)
        ensures
            triggers@ == triggers_of(self.splits@),
    {
        let mut triggers: Vec<Option<String>> = Vec::new();
        let count = self.splits.len();
        let mut i: usize = 0;
        while i < count
            invariant
                i <= count,
                count == self.splits@.len(),
                triggers@ == triggers_of(self.splits@.take(i as int)),
            decreases count - i,
        {
            let trigger = match &self.splits[i].trigger {
                Some(text) => Some(text.clone()),
                None => None,
            };
            triggers.push(trigger);
            i += 1;
            assert(triggers@ =~= triggers_of(self.splits@.take(i as int)));
        }
        assert(self.splits@.take(count as int) =~= self.splits@);
        triggers
    }

    /// A watcher for the triggers of this run, on a log that is
    /// `end_of_file` bytes long now.
    pub fn watcher(&self, end_of_file: u64) -> (watcher: LogWatcher)
        ensures
            watcher@ == (WatcherState {
                triggers: self.triggers(),
                cursor: 0,
                position: end_of_file as nat,
            }),
    {
        let watcher = LogWatcher::new(
            end_of_file,
            self.start_trigger.clone(),
            self.reset_trigger.clone(),
            self.split_triggers(),
        );
        assert(watcher@.triggers.splits =~= self.triggers().splits);
        watcher
    }
}

} // verus!
