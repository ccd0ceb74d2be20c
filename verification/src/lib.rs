//! Process-level log output.
//!
//! Events become lines of bounded length in segments of an arena. A worker takes
//! the lines out of a bounded queue, writes them in batches into one file per
//! destination, flushes the files, and archives them when an hour or a day is over.
//! This library decides and computes; whoever uses it moves the bytes.

pub mod arena;
pub mod batch;
pub mod calendar;
pub mod config;
pub mod duration;
pub mod event;
pub mod filter;
pub mod format;
pub mod guard;
pub mod hint;
pub mod init;
pub mod line;
pub mod rotation;
pub mod text;
pub mod worker;

pub use crate::config::{
    FlushPolicy, LogsConfig, OverflowPolicy, RotationPolicy, DEFAULT_ARENA_CHUNK_BYTES,
    DEFAULT_LOG_DIRECTORY, DEFAULT_MAX_LINE_BYTES, DEFAULT_QUEUE_CAPACITY,
};
pub use crate::init::InitError;
