//! Reconstructs a weekly-report cadence from a mail archive: builds the
//! mailbox search expression, pairs sent reports with their replies and
//! computes the statistics over the pairs.

pub mod date;
pub mod text;
pub mod error;
pub mod config;
pub mod mail;
pub mod query;
pub mod wr;
pub mod metrics;
