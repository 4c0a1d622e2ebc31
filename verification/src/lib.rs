//! Incident-report scoreboard pipeline.
//!
//! Retrieves daily incident-report documents over a date range, merges them
//! with previously persisted state into a chronologically ordered collection,
//! extracts structured incident records from each document body, and folds
//! the records into a ranked per-location leaderboard.

pub mod dates;
pub mod plan;
pub mod text;
pub mod extract;
pub mod classify;
pub mod aggregate;
pub mod document;
pub mod leaderboard;
pub mod fetch;
