//! Polling a long-running operation by hand.
//!
//! The store answers some requests with an operation that goes on in the
//! background. Whoever polls such an operation looks at what it reports
//! and either waits and asks again, or has the outcome.

use vstd::prelude::*;

verus! {

/// How long to wait before an operation is asked about again, in
/// milliseconds.
pub const POLL_INTERVAL_MILLIS: u64 = 500;

/// What an operation says of its result.
#[derive(Clone, Copy, Debug, PartialEq, Eq, Structural)]
pub enum Reported {
    /// The operation names no result.
    Nothing,
    /// The operation ended with an error.
    Error,
    /// The operation ended with a response.
    Response,
    /// The operation names a result of a kind that is not known.
    Unknown,
}

/// How a finished operation ended.
#[derive(Clone, Copy, Debug, PartialEq, Eq, Structural)]
pub enum Ending {
    /// With a response, which is the outcome of the request.
    Succeeded,
    /// With an error.
    Failed,
    /// As done, but without a result.
    MissingResult,
    /// With a result of a kind that is not known.
    UnexpectedResult,
}

/// What to do about an operation.
#[derive(Clone, Copy, Debug, PartialEq, Eq, Structural)]
pub enum PollStep {
    /// The operation is in progress: wait, and ask about it again.
    Wait,
    /// The operation has ended.
    Finished(Ending),
}

/// What to do about an operation that says whether it is done and what
/// its result is.
pub open spec fn step_for(done: bool, reported: Reported) -> PollStep {
    if !done {
        PollStep::Wait
    } else {
        PollStep::Finished(
            match reported {
                Reported::Nothing => Ending::MissingResult,
                Reported::Error => Ending::Failed,
                Reported::Response => Ending::Succeeded,
                Reported::Unknown => Ending::UnexpectedResult,
            },
        )
    }
}

/// What to do about an operation that says whether it is done and what
/// its result is. As long as the operation is not done, what it reports
/// of a result does not count.
pub fn poll_step(done: bool, reported: Reported) -> (step: PollStep)
    ensures
        step == step_for(done, reported),
        step is Wait <==> !done,
{
    if !done {
        return PollStep::Wait;
    }
    match reported {
        Reported::Nothing => PollStep::Finished(Ending::MissingResult),
        Reported::Error => PollStep::Finished(Ending::Failed),
        Reported::Response => PollStep::Finished(Ending::Succeeded),
        Reported::Unknown => PollStep::Finished(Ending::UnexpectedResult),
    }
}

} // verus!
