//! Core of a speedrun timer that splits automatically: a watcher that turns
//! the lines appended to a game's log into timer events, the rules that keep
//! the watcher and the timer on the same split, and the arithmetic that
//! compares a segment with its best time.

pub mod display;
pub mod encoding;
pub mod reconcile;
pub mod segments;
pub mod splits;
pub mod text;
pub mod timer;
pub mod watcher;
