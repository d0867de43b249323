//! Conditions that stop the firmware.

use vstd::prelude::*;

verus! {

/// A condition the firmware cannot recover from. Once one is raised the loop
/// stops; nothing downstream of it is attempted.
#[derive(Clone, Copy, Debug, PartialEq, Eq, Structural)]
pub enum Fault {
    /// The keymap does not have one entry per monitored switch line.
    KeymapLengthMismatch,
    /// More switch lines were configured than a key buffer can hold.
    TooManyLines,
    /// The service period is longer than the scan period.
    ServicePeriodExceedsScan,
    /// A scan handed over a different number of line reads than there are lines.
    LineCountMismatch,
    /// Reading the given switch line failed on the bus.
    Bus { line: usize },
    /// The transport refused a report for a reason other than flow control.
    Submit,
    /// The transport's periodic service failed.
    Service,
    /// Reading a report sent by the host failed.
    HostRead,
    /// The caller reported something the scheduler had not asked for.
    UnexpectedEvent,
}

/// The diagnostic text that goes with each fault.
pub open spec fn diagnostic_text(fault: Fault) -> Seq<char> {
    match fault {
        Fault::KeymapLengthMismatch => "keymap length does not match the switch lines"@,
        Fault::TooManyLines => "too many switch lines"@,
        Fault::ServicePeriodExceedsScan => "service period exceeds scan period"@,
        Fault::LineCountMismatch => "line reads do not match the switch lines"@,
        Fault::Bus { .. } => "failed to read a switch line"@,
        Fault::Submit => "failed to write keyboard report"@,
        Fault::Service => "tick error"@,
        Fault::HostRead => "failed to read keyboard input"@,
        Fault::UnexpectedEvent => "unexpected event"@,
    }
}

impl Fault {
    /// The message to stop with.
    pub fn diagnostic(&self) -> (text: &'static str)
        ensures
            text@ == diagnostic_text(*self),
    {
        match self {
            Fault::KeymapLengthMismatch => "keymap length does not match the switch lines",
            Fault::TooManyLines => "too many switch lines",
            Fault::ServicePeriodExceedsScan => "service period exceeds scan period",
            Fault::LineCountMismatch => "line reads do not match the switch lines",
            Fault::Bus { .. } => "failed to read a switch line",
            Fault::Submit => "failed to write keyboard report",
            Fault::Service => "tick error",
            Fault::HostRead => "failed to read keyboard input",
            Fault::UnexpectedEvent => "unexpected event",
        }
    }
}

} // verus!
