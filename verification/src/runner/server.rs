//! How a runner meets those who ask it.
use crate::runner_protocol::{RunnerRequest, RunnerResponse};
use vstd::prelude::*;

verus! {

/// The way that a request takes through the runner.
#[derive(Debug)]
pub enum RunnerCourse {
    /// The status is sent now and whenever it changes, until one side goes.
    Watch,
    /// The connection becomes the terminal of a client.
    Attach,
    /// The request is answered; `last` where the runner ends after it.
    Ordinary { request: RunnerRequest, last: bool },
}

pub fn course(request: RunnerRequest) -> (r: RunnerCourse)
    ensures
        r == (match request {
            RunnerRequest::WatchStatus => RunnerCourse::Watch,
            RunnerRequest::Attach => RunnerCourse::Attach,
            _ => RunnerCourse::Ordinary { request, last: request is Stop },
        }),
{
    match request {
        RunnerRequest::WatchStatus => RunnerCourse::Watch,
        RunnerRequest::Attach => RunnerCourse::Attach,
        RunnerRequest::Stop => RunnerCourse::Ordinary { request: RunnerRequest::Stop, last: true },
        other => RunnerCourse::Ordinary { request: other, last: false },
    }
}

/// What is answered for a result.
pub fn reply(result: Result<RunnerResponse, String>) -> (r: RunnerResponse)
    ensures
        r == (match result {
            Ok(response) => response,
            Err(message) => RunnerResponse::Error { message },
        }),
{
    match result {
        Ok(response) => response,
        Err(message) => RunnerResponse::Error { message },
    }
}

} // verus!
