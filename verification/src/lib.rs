//! A small donation-tracking library: it scans a fetched page for
//! currency tokens, parses the first two as the amount raised and the
//! goal, derives the progress made towards the goal, and keeps the
//! computed snapshots in a store with a sixty-second freshness window.

pub mod cache;
pub mod extract;
pub mod money;
pub mod snapshot;
