//! Update dispatch and search merging for one shard of a vector-search engine.
//!
//! A shard admits each mutation durably to its write-ahead log before any
//! segment sees it, and answers a query by fanning it out over all of its
//! segments and merging the partial answers into one deduplicated, ranked,
//! paginated list.
//!
//! The segment engine and the log storage are collaborators outside this
//! library. The shard's decisions are written here as verified steps: the
//! caller performs each action they return and hands the outcome back.

pub mod point;

pub mod merge;
pub mod error;
pub mod search;
pub mod update;
pub mod sequencer;
pub mod emotion;
