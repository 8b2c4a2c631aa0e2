//! Turn-order queues: named queues of sequentially ordered rows, each row
//! seating at most one participant on its left side and one on its right.
//!
//! The crate holds the rules of the queue (rows are numbered densely from
//! zero, a row is appended only at the tail, a side is filled at most once)
//! together with an in-memory store on which those rules are proved.

pub mod queue;

pub mod db;
pub mod pages;
