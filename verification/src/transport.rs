//! What the USB transport reports back, and which of it is fatal.

use vstd::prelude::*;

use crate::fault::Fault;

verus! {

/// How submitting a keyboard report ended.
#[derive(Clone, Copy, Debug, PartialEq, Eq, Structural)]
pub enum SubmitOutcome {
    /// The report was taken.
    Sent,
    /// The transport could not take a report right now.
    WouldBlock,
    /// The report repeats the one before and was not sent again.
    Duplicate,
    /// Any other error.
    Failed,
}

/// How the transport's periodic service ended.
#[derive(Clone, Copy, Debug, PartialEq, Eq, Structural)]
pub enum ServiceOutcome {
    /// The service ran.
    Done,
    /// There was nothing to do right now.
    WouldBlock,
    /// Any other error.
    Failed,
}

/// How reading a report sent by the host ended.
#[derive(Clone, Copy, Debug, PartialEq, Eq, Structural)]
pub enum HostReadOutcome {
    /// A report was read; it carries the host's LED bits.
    Received(u8),
    /// No report was waiting.
    WouldBlock,
    /// Any other error.
    Failed,
}

/// The fault, if any, that the outcome of a submission amounts to. Flow
/// control is no fault.
pub open spec fn submit_fault(outcome: SubmitOutcome) -> Option<Fault> {
    match outcome {
        SubmitOutcome::Failed => Some(Fault::Submit),
        _ => None,
    }
}

/// The fault, if any, that the outcome of a service run amounts to.
pub open spec fn service_fault(outcome: ServiceOutcome) -> Option<Fault> {
    match outcome {
        ServiceOutcome::Failed => Some(Fault::Service),
        _ => None,
    }
}

/// The fault, if any, that the outcome of a host read amounts to.
pub open spec fn host_read_fault(outcome: HostReadOutcome) -> Option<Fault> {
    match outcome {
        HostReadOutcome::Failed => Some(Fault::HostRead),
        _ => None,
    }
}

impl SubmitOutcome {
    /// The fault to stop with, if the outcome is one.
    pub fn fault(&self) -> (fault: Option<Fault>)
        ensures
            fault == submit_fault(*self),
    {
        match self {
            SubmitOutcome::Failed => Some(Fault::Submit),
            SubmitOutcome::Sent | SubmitOutcome::WouldBlock | SubmitOutcome::Duplicate => None,
        }
    }
}

impl ServiceOutcome {
    /// The fault to stop with, if the outcome is one.
    pub fn fault(&self) -> (fault: Option<Fault>)
        ensures
            fault == service_fault(*self),
    {
        match self {
            ServiceOutcome::Failed => Some(Fault::Service),
            ServiceOutcome::Done | ServiceOutcome::WouldBlock => None,
        }
    }
}

impl HostReadOutcome {
    /// The fault to stop with, if the outcome is one.
    pub fn fault(&self) -> (fault: Option<Fault>)
        ensures
            fault == host_read_fault(*self),
    {
        match self {
            HostReadOutcome::Failed => Some(Fault::HostRead),
            HostReadOutcome::Received(_) | HostReadOutcome::WouldBlock => None,
        }
    }
}

} // verus!
