//! Day-partitioned backfill of decentralized-exchange swap events.
//!
//! The crate holds the decisions of the backfill as pure, verified state
//! machines: which page to request next, when a day is exhausted, when the
//! retry budget is spent, which days are admitted and when. Performing the
//! requests and touching the disk is left to the caller.

pub mod artifact;
pub mod calendar;
pub mod cursor;
pub mod erc20;
pub mod fetch;
pub mod record;
pub mod scheduler;
pub mod task;
