//! A study-queue library: users accumulate questions into per-user queues and
//! are re-presented with them on a spaced-repetition schedule that depends on
//! how well they answered before.
//!
//! The heart of the crate is the scheduler in [`choosers`]: given a snapshot of
//! per-question progress it decides which question to present next, or when the
//! next one unlocks.  Around it sit the progress store ([`store`], [`queues`]),
//! question and user records, and the small form/validation helpers.

pub mod choosers;
pub mod error;
pub mod forms;
pub mod models;
pub mod mutations;
pub mod page;
pub mod questions;
pub mod queues;
pub mod store;
pub mod types;
pub mod users;
