//! Severity levels of records and thresholds of filters.

use vstd::prelude::*;

verus! {

/// Severity of a record, from the most severe to the most verbose.
#[derive(Clone, Copy, Debug, PartialEq, Eq, Structural)]
pub enum Level {
    Error,
    Warn,
    Info,
    Debug,
    Trace,
}

/// Threshold of a filter: `Off` lets nothing through, `Trace` everything.
#[derive(Clone, Copy, Debug, PartialEq, Eq, Structural)]
pub enum LevelFilter {
    Off,
    Error,
    Warn,
    Info,
    Debug,
    Trace,
}

/// Verbosity of a level: 1 for `Error` up to 5 for `Trace`.
pub open spec fn level_rank(l: Level) -> nat {
    match l {
        Level::Error => 1,
        Level::Warn => 2,
        Level::Info => 3,
        Level::Debug => 4,
        Level::Trace => 5,
    }
}

/// Verbosity of a threshold: 0 for `Off` up to 5 for `Trace`.
pub open spec fn filter_rank(f: LevelFilter) -> nat {
    match f {
        LevelFilter::Off => 0,
        LevelFilter::Error => 1,
        LevelFilter::Warn => 2,
        LevelFilter::Info => 3,
        LevelFilter::Debug => 4,
        LevelFilter::Trace => 5,
    }
}

/// A record of level `l` passes threshold `f`.
pub open spec fn passes(l: Level, f: LevelFilter) -> bool {
    level_rank(l) <= filter_rank(f)
}

pub fn level_rank_of(l: Level) -> (r: u8)
    ensures
        r as nat == level_rank(l),
{
    match l {
        Level::Error => 1,
        Level::Warn => 2,
        Level::Info => 3,
        Level::Debug => 4,
        Level::Trace => 5,
    }
}

pub fn filter_rank_of(f: LevelFilter) -> (r: u8)
    ensures
        r as nat == filter_rank(f),
{
    match f {
        LevelFilter::Off => 0,
        LevelFilter::Error => 1,
        LevelFilter::Warn => 2,
        LevelFilter::Info => 3,
        LevelFilter::Debug => 4,
        LevelFilter::Trace => 5,
    }
}

/// Whether a record of level `l` passes threshold `f`.
pub fn level_passes(l: Level, f: LevelFilter) -> (r: bool)
    ensures
        r == passes(l, f),
{
    level_rank_of(l) <= filter_rank_of(f)
}

/// Priority of a level on the native mobile log service: 6 for `Error`
/// down to 2 (verbose) for `Trace`.
pub open spec fn native_priority(l: Level) -> i32 {
    match l {
        Level::Error => 6,
        Level::Warn => 5,
        Level::Info => 4,
        Level::Debug => 3,
        Level::Trace => 2,
    }
}

pub fn native_priority_of(l: Level) -> (r: i32)
    ensures
        r == native_priority(l),
        r == 7 - level_rank(l),
{
    match l {
        Level::Error => 6,
        Level::Warn => 5,
        Level::Info => 4,
        Level::Debug => 3,
        Level::Trace => 2,
    }
}

} // verus!
