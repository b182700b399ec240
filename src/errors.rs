use vstd::prelude::*;

verus! {

/// Ways in which tampering with time was detected.
#[derive(Debug, Clone, PartialEq, Eq, Structural)]
pub enum TimeTampering {
    /// The wall clock advanced further than the monotonic clock.
    ClockTamperingError,
    /// The system clock could not be compared with a timer.
    DesynchronizedTimerError,
}

/// The errors of the library.
#[derive(Debug, Clone, PartialEq, Eq)]
pub enum Error {
    /// A session duration matches neither the unit form nor the colon form.
    SessionDurationParserError,
    /// A number in a session duration, or the duration in seconds, is too large.
    ParseIntError,
    /// The midnight after a session start could not be computed.
    CalculateEndOfDayError,
    /// A warning threshold lies outside [0, 100].
    InvalidThresholdError,
    /// A guarded operation took too long: its name and the seconds it took.
    TimedExecutionTamperingError(String, u64),
    /// The clocks disagree.
    TimeTamperingError(TimeTampering),
}

} // verus!
