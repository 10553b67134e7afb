//! Bookmarks that come back: a saved link is hidden once it has been visited
//! and resurfaces when its interval has elapsed.
//!
//! The crate holds the scheduling rules, the rendering of relative times,
//! the rules that decide who may see or change an entry or a collection, and
//! a store in memory on which those rules act.
//!
//! Every function is verified against the contract written above its body,
//! but for four that hand work to `chrono`, `uuid` and the standard library:
//! `time::parse_rfc3339`, `time::clock_rfc3339`, `models::fresh_id` and
//! `text::lowercase`. Their contracts are taken on trust and say what is
//! claimed.

pub mod access;
pub mod auth;
pub mod collections;
pub mod entries;
pub mod export;
pub mod forms;
pub mod import;
pub mod listing;
pub mod models;
pub mod schedule;
pub mod store;
pub mod tags;
pub mod text;
pub mod time;
