//! A per-key hit counter kept in a relational store.
//!
//! A request names a target; the service adds one to the target's count in
//! the store and answers with the new total. This crate holds the decisions
//! of that service and proves them. It does no I/O: borrowing a connection
//! and sending a statement are left to the caller, who does the work that an
//! [`query::Action`] names and reports what came back as a [`query::Reply`].
//!
//! - [`query`]: one increment-and-read as a state machine, from stage and
//!   reply to the next stage and the work to do.
//! - [`statement`]: the two statements that go to the backend.
//! - [`route`]: what the request handlers answer.
//! - [`decimal`]: a count as decimal text.
//! - [`error`]: why an increment-and-read can fail.
//! - [`table`]: the rows of the store as a mathematical map, and the upsert.
//! - [`world`]: the service, its pool and its store as a transition system
//!   in which calls take turns in any order.
//! - [`theorems`]: what holds of every run of that system: no update is
//!   lost, calls made in turn count up, targets do not disturb each other,
//!   connections are given back.
//! - [`tally`]: counting the items of a sequence, for the theorems.

pub mod decimal;
pub mod error;
pub mod query;
pub mod route;
pub mod statement;
pub mod table;
pub mod tally;
pub mod theorems;
pub mod world;
