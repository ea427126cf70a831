//! A work-time tracker library: named trackers accumulate elapsed time,
//! at most one tracker runs at any moment, and the whole store is kept in
//! step with an on-disk JSON snapshot that survives hand edits.
pub mod chars;
pub mod dur;
pub mod durtext;
pub mod imap;
pub mod jira;
pub mod instant_codec;
pub mod json;
pub mod key;
pub mod menu;
pub mod snapshot;
pub mod stopwatch;
pub mod store;
pub mod tracker;
pub mod wall;
pub mod watcher;
