//! A compact CPU monitor: the statistics engine.
//!
//! The engine reads the kernel's aggregate CPU accounting table, one line per
//! processor, and reports how busy each processor has been between two
//! samples.
//!
//! A [`Sentinel`] takes a [`Snapshot`] of the table each time it is asked to
//! observe, and tells a [`Recording`] of what happened since the snapshot
//! before: a [`Measurement`] for all processors together and one for each
//! processor.

/// a meter displaying cpu usage.
pub mod meter;

/// a stream of statistics measurements.
pub mod sentinel;

/// abstracts over i/o sources.
pub mod source;

/// kernel statistics facilities.
pub mod stat;

/// the layout of the tui window.
pub mod window;

pub use self::sentinel::{Recording, Sentinel};
pub use self::source::{Clock, IoError, MockStatClock, MockStatFile, StatsSource};
pub use self::stat::{
    ArithmeticUnderflow, CpuId, CpuTime, Entry, EntryParseError, IntParseError, Measurement,
    Snapshot, StatReadError, UserHz,
};
