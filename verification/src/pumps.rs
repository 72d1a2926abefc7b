//! The decisions of the data-plane loops: a publisher pump, and a transform
//! task reading its input record.
//!
//! Each loop reads from a record buffer; a lagging read skips ahead, a
//! closed buffer ends the loop, and a value is handled.

use vstd::prelude::*;

verus! {

/// What reading a record buffer gave.
#[derive(Debug, Clone, Copy, PartialEq, Eq, Structural)]
pub enum ReadOutcome {
    /// A value arrived.
    Value,
    /// The reader fell behind; some values were skipped, and it recovers.
    Lagged,
    /// The buffer is closed or failed for good.
    Closed,
}

/// What the loop does next.
#[derive(Debug, Clone, Copy, PartialEq, Eq, Structural)]
pub enum LoopStep {
    /// Handle the value (publish it, or run the transform on it).
    Handle,
    /// Read again.
    ReadAgain,
    /// End the loop.
    Stop,
}

/// The step after one read: a value is handled, a lag is stepped over, and
/// anything else ends the loop.
pub fn step_after_read(outcome: ReadOutcome) -> (r: LoopStep)
    ensures
        outcome == ReadOutcome::Value ==> r == LoopStep::Handle,
        outcome == ReadOutcome::Lagged ==> r == LoopStep::ReadAgain,
        outcome == ReadOutcome::Closed ==> r == LoopStep::Stop,
{
    match outcome {
        ReadOutcome::Value => LoopStep::Handle,
        ReadOutcome::Lagged => LoopStep::ReadAgain,
        ReadOutcome::Closed => LoopStep::Stop,
    }
}

/// Where a publisher sends one message: the destination the source resolved
/// for it, or else the route's default topic.
pub fn destination(dynamic: Option<String>, default_topic: &String) -> (r: String)
    ensures
        match dynamic {
            Some(d) => r@ == d@,
            None => r@ == default_topic@,
        },
{
    match dynamic {
        Some(d) => d,
        None => default_topic.clone(),
    }
}

} // verus!
