//! How a runner is watched: it streams its status, and where that breaks off it is asked for it.
use crate::runner_protocol::{AnswerView, RunnerResponse, RunnerStatus, StatusView};
use crate::text::cat2;
use vstd::prelude::*;

verus! {

/// The time between two questions, in milliseconds.
pub const LEGACY_STATUS_INTERVAL: u64 = 1000;

#[derive(Debug)]
pub enum RunnerUpdate {
    Status { name: String, generation: u64, status: RunnerStatus },
    Unavailable { name: String, generation: u64, error: String },
}

pub enum UpdateView {
    Status { name: Seq<char>, generation: u64, status: StatusView },
    Unavailable { name: Seq<char>, generation: u64, error: Seq<char> },
}

impl View for RunnerUpdate {
    type V = UpdateView;

    open spec fn view(&self) -> UpdateView {
        match *self {
            RunnerUpdate::Status { name, generation, status } => UpdateView::Status {
                name: name@,
                generation,
                status: status@,
            },
            RunnerUpdate::Unavailable { name, generation, error } => UpdateView::Unavailable {
                name: name@,
                generation,
                error: error@,
            },
        }
    }
}

/// What a watcher waits for next.
#[derive(Debug, Clone, Copy, PartialEq, Eq, Structural)]
pub enum WatchStep {
    /// The next status in the stream.
    Receive,
    /// An answer to a question, asked at once.
    Ask,
    /// An answer to a question, asked after `LEGACY_STATUS_INTERVAL`.
    AskLater,
}

#[derive(Debug)]
pub struct Watcher {
    pub name: String,
    pub generation: u64,
    pub polling: bool,
}

/// What a watcher tells the manager of an answer. In the stream only a status is told: whatever
/// else came is found out by asking.
pub open spec fn told(
    polling: bool,
    name: Seq<char>,
    generation: u64,
    result: Result<RunnerResponse, String>,
    shown: Seq<char>,
) -> Option<UpdateView> {
    match result {
        Ok(answer) => match answer@ {
            AnswerView::Status(status) => Some(UpdateView::Status { name, generation, status }),
            _ => if polling {
                Some(
                    UpdateView::Unavailable {
                        name,
                        generation,
                        error: "unexpected runner status response: "@ + shown,
                    },
                )
            } else {
                None
            },
        },
        Err(e) => if polling {
            Some(UpdateView::Unavailable { name, generation, error: e@ })
        } else {
            None
        },
    }
}

/// What a watcher waits for after an answer.
pub open spec fn next_watch(polling: bool, told_something: bool) -> WatchStep {
    if polling {
        WatchStep::AskLater
    } else if told_something {
        WatchStep::Receive
    } else {
        WatchStep::Ask
    }
}

/// Every status reaches the manager, under the name and generation of its watcher. Whoever asks
/// tells of every answer, and of every silence; whoever listens tells of nothing else, but asks
/// at once.
pub proof fn law_every_status_is_told(
    polling: bool,
    name: Seq<char>,
    generation: u64,
    result: Result<RunnerResponse, String>,
    shown: Seq<char>,
)
    ensures
        ({
            let u = told(polling, name, generation, result, shown);
            &&& (result matches Ok(a) && a@ is Status) ==> u == Some(
                UpdateView::Status { name, generation, status: result->Ok_0@->Status_0 },
            )
            &&& !(result matches Ok(a) && a@ is Status) && polling ==> (u matches Some(
                UpdateView::Unavailable { name: n, generation: g, error },
            ) && n == name && g == generation)
            &&& !(result matches Ok(a) && a@ is Status) && !polling ==> u is None && next_watch(polling, u is Some)
                is Ask
            &&& result matches Err(e) ==> (polling ==> u == Some(
                UpdateView::Unavailable { name, generation, error: e@ },
            ))
            &&& polling ==> next_watch(polling, u is Some) is AskLater
            &&& !polling && u is Some ==> next_watch(polling, u is Some) is Receive
        }),
{
}

pub open spec fn update_opt(u: Option<RunnerUpdate>) -> Option<UpdateView> {
    match u {
        Some(u) => Some(u@),
        None => None,
    }
}

impl Watcher {
    pub fn new(name: String, generation: u64) -> (r: Self)
        ensures
            r == (Watcher { name, generation, polling: false }),
    {
        Watcher { name, generation, polling: false }
    }

    /// The runner was connected to and asked for the stream, or that failed.
    pub fn opened(&mut self, asked: bool) -> (r: WatchStep)
        ensures
            *final(self) == (Watcher { polling: old(self).polling || !asked, ..*old(self) }),
            r == (if final(self).polling {
                WatchStep::Ask
            } else {
                WatchStep::Receive
            }),
    {
        if !asked {
            self.polling = true;
        }
        if self.polling {
            WatchStep::Ask
        } else {
            WatchStep::Receive
        }
    }

    /// An answer came, or none. `shown` is the answer as it is shown.
    pub fn received(&mut self, result: Result<RunnerResponse, String>, shown: &str) -> (r: (
        Option<RunnerUpdate>,
        WatchStep,
    ))
        ensures
            update_opt(r.0) == told(
                old(self).polling,
                old(self).name@,
                old(self).generation,
                result,
                shown@,
            ),
            *final(self) == (Watcher {
                polling: old(self).polling || update_opt(r.0) is None,
                ..*old(self)
            }),
            r.1 == next_watch(old(self).polling, r.0 is Some),
            r.1 == (if old(self).polling {
                WatchStep::AskLater
            } else if r.0 is Some {
                WatchStep::Receive
            } else {
                WatchStep::Ask
            }),
    {
        let next = if self.polling {
            WatchStep::AskLater
        } else {
            WatchStep::Receive
        };
        let error = match result {
            Ok(RunnerResponse::Status { status }) => {
                let name = self.name.clone();
                return (
                    Some(RunnerUpdate::Status { name, generation: self.generation, status }),
                    next,
                );
            },
            Ok(_) => cat2("unexpected runner status response: ", shown),
            Err(e) => e,
        };
        if !self.polling {
            self.polling = true;
            return (None, WatchStep::Ask);
        }
        let name = self.name.clone();
        (Some(RunnerUpdate::Unavailable { name, generation: self.generation, error }), next)
    }
}

/// A stream that breaks off does not count as the loss of the runner: only a question that goes
/// unanswered does.
pub proof fn law_broken_streams_are_asked_again(name: Seq<char>, generation: u64, result: Result<RunnerResponse, String>, shown: Seq<char>)
    ensures
        !(told(false, name, generation, result, shown) matches Some(UpdateView::Unavailable { .. })),
        told(true, name, generation, result, shown) is Some,
{
}

} // verus!
