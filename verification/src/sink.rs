//! The boundary to the sink that displays the status line: how a delivery
//! can fail, and what the loop does about it.

use vstd::prelude::*;

verus! {

/// How a delivery of the status line failed.
#[derive(Clone, Copy, Debug, PartialEq, Eq, Structural)]
pub enum SinkFailure {
    /// The display mechanism was not available this time.
    Transient,
    /// The channel to the display is broken for good.
    Broken,
}

/// What the loop does after a delivery.
#[derive(Clone, Copy, Debug, PartialEq, Eq, Structural)]
pub enum Disposition {
    /// Go on; the next status line is delivered as usual.
    Continue,
    /// Stop: nothing can be displayed any more.
    Terminate,
}

/// What the loop does after a delivery: it stops when the channel is
/// broken, and goes on otherwise.
pub open spec fn disposition_of(outcome: Result<(), SinkFailure>) -> Disposition {
    match outcome {
        Err(SinkFailure::Broken) => Disposition::Terminate,
        _ => Disposition::Continue,
    }
}

/// Whether a delivery is worth a diagnostic message: every failure is.
pub open spec fn is_reported(outcome: Result<(), SinkFailure>) -> bool {
    outcome is Err
}

/// Decides what the loop does after a delivery.
pub fn after_delivery(outcome: Result<(), SinkFailure>) -> (disposition: Disposition)
    ensures
        disposition == disposition_of(outcome),
{
    match outcome {
        Ok(_) => Disposition::Continue,
        Err(SinkFailure::Transient) => Disposition::Continue,
        Err(SinkFailure::Broken) => Disposition::Terminate,
    }
}

/// Decides whether a delivery calls for a diagnostic message.
pub fn reports(outcome: Result<(), SinkFailure>) -> (reported: bool)
    ensures
        reported == is_reported(outcome),
{
    outcome.is_err()
}

} // verus!
