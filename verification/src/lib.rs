//! A small interactive time tracker: named projects hold timed task
//! activities, a command dispatcher maps text lines onto tracker
//! mutations, and the whole tracker state round-trips through a
//! textual snapshot.
pub mod text;
pub mod repl;
pub mod snapshot;
pub mod tracker;
