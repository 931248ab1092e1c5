//! Bounded-concurrency downloading of the files that an index page lists:
//! a pool of progress slots gated by a permit count, the decisions of one
//! streaming transfer, the link resolver over page markup, and the
//! orchestration of a whole run.

pub mod pool;
pub mod transfer;
pub mod links;
pub mod run;
