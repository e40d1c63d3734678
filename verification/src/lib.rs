//! A disk-backed cache of tagged content with optional time-to-live.
//!
//! The crate holds the rules of the cache and proves them: how a tag becomes
//! a file name, how an entry is laid out in a file, when an entry counts as
//! expired, and which file-system steps each operation takes. It never
//! touches a file itself. Every operation is a small state machine that asks
//! for one file-system step at a time and is resumed with the outcome, so
//! the caller decides how the steps are carried out.
//!
//! - [`time`]: spans and points of time, and the clock.
//! - [`entry`]: an entry, its update time and its expiry.
//! - [`tag`]: which tags are accepted, and their file names.
//! - [`record`]: the bytes of an entry file.
//! - [`fs`]: the requests to the file system, its replies, and what a
//!   directory does with them.
//! - [`store`]: the operations of the store, step by step.
//! - [`model`]: what the operations amount to on a file system that works.
//! - [`memory`]: a directory in memory that answers the requests.
//! - [`json`]: content as JSON documents.
//! - [`error`]: the failures.

pub mod time;
pub mod error;
pub mod entry;
pub mod tag;
pub mod record;
pub mod fs;
pub mod store;
pub mod model;
pub mod memory;
pub mod json;
