//! A small line-oriented language for tracking work sessions.
//!
//! A document holds dates, job names, tags, clock-in and clock-out times
//! and named groups of jobs.  The crate tokenizes the text, parses it into
//! actions, folds the actions through a stateful reader into finished
//! `Clock` records, and sums the recorded minutes per job.

pub mod date;
pub mod digits;
pub mod err;
pub mod moment;
pub mod parser;
pub mod reader;
pub mod tokenize;
