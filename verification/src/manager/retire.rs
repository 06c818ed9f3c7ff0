//! How runners are opened and stopped, and how a manager is asked to go.
use crate::manager::table::{target_refusal, validate_target_name, ManagerState, Table};
use crate::protocol::{Response, ServiceKind};
use crate::runner_protocol::RunnerResponse;
use crate::text::{cat2, cat3, debug_form, debug_text, opt_view, same};
use vstd::prelude::*;

verus! {

/// How often is looked before it is given up.
pub const RUNNER_START_ATTEMPTS: u32 = 100;

/// The time between two looks, in milliseconds.
pub const RUNNER_START_DELAY: u64 = 20;

/// How often was looked for something that should come.
#[derive(Debug, Clone, Copy, PartialEq, Eq, Structural)]
pub struct Patience {
    pub looks: u32,
}

impl Patience {
    pub fn new() -> (r: Self)
        ensures
            r.looks == 0,
    {
        Patience { looks: 0 }
    }

    /// How often was looked after one look more.
    pub open spec fn after_look(self) -> Patience {
        if self.looks < RUNNER_START_ATTEMPTS {
            Patience { looks: (self.looks + 1) as u32 }
        } else {
            self
        }
    }

    /// There is still reason to look again.
    pub open spec fn lasts(self) -> bool {
        self.looks < RUNNER_START_ATTEMPTS
    }

    /// It has not come yet. Whether to look again, after `RUNNER_START_DELAY`.
    pub fn again(&mut self) -> (r: bool)
        ensures
            r == (old(self).looks + 1 < RUNNER_START_ATTEMPTS),
            final(self).looks == (if old(self).looks < RUNNER_START_ATTEMPTS {
                (old(self).looks + 1) as u32
            } else {
                old(self).looks
            }),
            *final(self) == old(self).after_look(),
            r == final(self).lasts(),
    {
        if self.looks < RUNNER_START_ATTEMPTS {
            self.looks = self.looks + 1;
        }
        self.looks < RUNNER_START_ATTEMPTS
    }
}

/// What comes next on the way to a runner.
#[derive(Debug)]
pub enum OpenStep {
    Connect,
    /// Find out whether the runner that was last there is alive.
    Identify,
    /// Remove what is left of the last runner and start another.
    Spawn,
    /// Connect after `RUNNER_START_DELAY`.
    ConnectLater,
    Ready,
    Failed(String),
}

#[derive(Debug)]
pub struct Opening {
    pub name: String,
    /// The looks for the runner that was started; none where none was started.
    pub started: Option<Patience>,
}

impl Opening {
    pub fn new(name: String) -> (r: (Self, OpenStep))
        ensures
            r.0 == (Opening { name, started: None }),
            r.1 is Connect,
    {
        (Opening { name, started: None }, OpenStep::Connect)
    }

    pub fn connected(&mut self, success: bool) -> (r: OpenStep)
        ensures
            final(self).name == old(self).name,
            success ==> r is Ready && *final(self) == *old(self),
            !success ==> match old(self).started {
                None => r is Identify && *final(self) == *old(self),
                Some(p) => {
                    &&& final(self).started is Some
                    &&& final(self).started->0.looks == (if p.looks < RUNNER_START_ATTEMPTS {
                        p.looks + 1
                    } else {
                        p.looks as int
                    })
                    &&& p.looks + 1 < RUNNER_START_ATTEMPTS ==> r is ConnectLater
                    &&& p.looks + 1 >= RUNNER_START_ATTEMPTS ==> r is Failed && r->0@
                        == "runner for service "@ + debug_form(old(self).name@)
                        + " did not become ready"@
                },
            },
    {
        if success {
            return OpenStep::Ready;
        }
        match self.started {
            None => OpenStep::Identify,
            Some(p) => {
                let mut p = p;
                let again = p.again();
                self.started = Some(p);
                if again {
                    OpenStep::ConnectLater
                } else {
                    let quoted = debug_text(self.name.as_str());
                    OpenStep::Failed(
                        cat3("runner for service ", quoted.as_str(), " did not become ready"),
                    )
                }
            },
        }
    }

    /// A runner that is alive but does not answer is not replaced.
    pub fn identified(&mut self, alive: bool) -> (r: OpenStep)
        ensures
            final(self).name == old(self).name,
            alive ==> *final(self) == *old(self) && r is Failed && r->0@ == "runner for service "@
                + debug_form(old(self).name@)
                + " is alive but its control socket is unavailable"@,
            !alive ==> r is Spawn && final(self).started == Some(Patience { looks: 0 }),
    {
        if alive {
            let quoted = debug_text(self.name.as_str());
            return OpenStep::Failed(
                cat3(
                    "runner for service ",
                    quoted.as_str(),
                    " is alive but its control socket is unavailable",
                ),
            );
        }
        self.started = Some(Patience::new());
        OpenStep::Spawn
    }
}

/// What comes next in stopping a runner.
#[derive(Debug)]
pub enum StopStep {
    /// See whether the socket of the runner is gone, after `RUNNER_START_DELAY` where `later`.
    Look { later: bool },
    Done(Result<(), String>),
}

/// A runner was told to stop, and has answered.
pub fn stop_answered(result: Result<RunnerResponse, String>, shown: &str) -> (r: StopStep)
    ensures
        match result {
            Err(e) => r == StopStep::Done(Err(e)),
            Ok(answer) => if answer is Done {
                r == (StopStep::Look { later: false })
            } else {
                r matches StopStep::Done(Err(e)) && e@ == "unexpected runner stop response: "@
                    + shown@
            },
        },
{
    match result {
        Err(e) => StopStep::Done(Err(e)),
        Ok(RunnerResponse::Done) => StopStep::Look { later: false },
        Ok(_) => StopStep::Done(Err(cat2("unexpected runner stop response: ", shown))),
    }
}

/// A runner counts as stopped once its socket is gone, so that nobody takes it over meanwhile.
pub fn stop_looked(name: &str, patience: &mut Patience, socket_exists: bool) -> (r: StopStep)
    ensures
        !socket_exists ==> r == StopStep::Done(Ok(())) && *final(patience) == *old(patience),
        socket_exists ==> {
            &&& final(patience).looks == (if old(patience).looks < RUNNER_START_ATTEMPTS {
                old(patience).looks + 1
            } else {
                old(patience).looks as int
            })
            &&& old(patience).looks + 1 < RUNNER_START_ATTEMPTS ==> r == (StopStep::Look {
                later: true,
            })
            &&& old(patience).looks + 1 >= RUNNER_START_ATTEMPTS ==> (r matches StopStep::Done(
                Err(e),
            ) && e@ == "runner for "@ + debug_form(name@)
                + " did not close its socket after stopping"@)
        },
{
    if !socket_exists {
        return StopStep::Done(Ok(()));
    }
    if patience.again() {
        StopStep::Look { later: true }
    } else {
        let quoted = debug_text(name);
        StopStep::Done(
            Err(
                cat3("runner for ", quoted.as_str(), " did not close its socket after stopping"),
            ),
        )
    }
}

/// The first failure among results.
pub open spec fn first_error(results: Seq<Result<(), String>>) -> Option<Seq<char>>
    decreases results.len(),
{
    if results.len() == 0 {
        None
    } else {
        match first_error(results.drop_last()) {
            Some(e) => Some(e),
            None => match results.last() {
                Err(e) => Some(e@),
                Ok(()) => None,
            },
        }
    }
}

/// What became of several runners: the first failure is what is told.
pub fn overall(results: &Vec<Result<(), String>>) -> (r: Result<(), String>)
    ensures
        match first_error(results@) {
            None => r is Ok,
            Some(e) => r is Err && r->Err_0@ == e,
        },
{
    let mut i: usize = 0;
    assert(results@.take(0).len() == 0);
    while i < results.len()
        invariant
            i <= results@.len(),
            first_error(results@.take(i as int)) is None,
        decreases results@.len() - i,
    {
        assert(results@.take(i + 1).drop_last() =~= results@.take(i as int));
        assert(results@.take(i + 1).last() == results@[i as int]);
        match &results[i] {
            Err(e) => {
                proof {
                    lemma_first_error(results@, i + 1, e@);
                }
                return Err(e.clone());
            },
            Ok(()) => {},
        }
        i += 1;
    }
    assert(results@.take(i as int) =~= results@);
    Ok(())
}

proof fn lemma_first_error(results: Seq<Result<(), String>>, n: int, e: Seq<char>)
    requires
        0 <= n <= results.len(),
        first_error(results.take(n)) == Some(e),
    ensures
        first_error(results) == Some(e),
    decreases results.len() - n,
{
    if n == results.len() {
        assert(results.take(n) =~= results);
    } else {
        assert(results.take(n + 1).drop_last() =~= results.take(n));
        lemma_first_error(results, n + 1, e);
    }
}

/// A service whose runner is to be stopped.
#[derive(Debug)]
pub struct Leaving {
    pub name: String,
    pub socket: String,
    pub kind: ServiceKind,
}

pub open spec fn is_leaving(l: Leaving, e: crate::manager::table::EntryView) -> bool {
    &&& l.name@ == e.definition.config.name
    &&& l.socket@ == e.socket
    &&& l.kind == e.kind
}

impl ManagerState {
    /// The runners to stop when the manager goes for good. What temporary services have left is
    /// removed after each.
    pub fn leaving(&self) -> (r: Vec<Leaving>)
        ensures
            r@.len() == self.table().entries.len(),
            forall|i: int|
                0 <= i < r@.len() ==> is_leaving(#[trigger] r@[i], self.table().entries[i]),
    {
        let mut out: Vec<Leaving> = Vec::new();
        let mut i: usize = 0;
        while i < self.services.len()
            invariant
                i <= self.services@.len(),
                out@.len() == i,
                forall|k: int|
                    0 <= k < i ==> is_leaving(#[trigger] out@[k], self.table().entries[k]),
            decreases self.services@.len() - i,
        {
            out.push(
                Leaving {
                    name: self.services[i].definition.config.name.clone(),
                    socket: self.services[i].runner_socket.clone(),
                    kind: self.services[i].kind,
                },
            );
            i += 1;
        }
        out
    }

    /// The runners were told to stop. Nothing is looked after any more, whatever came of it.
    pub fn stop_all(&mut self, results: &Vec<Result<(), String>>) -> (r: Result<(), String>)
        requires
            old(self).wf(),
        ensures
            final(self).wf(),
            final(self).same_ground(*old(self)),
            final(self).table() == (Table { entries: Seq::empty(), next: old(self).table().next }),
            match first_error(results@) {
                None => r is Ok,
                Some(e) => r is Err && r->Err_0@ == e,
            },
    {
        self.services = Vec::new();
        assert(self.table().entries =~= Seq::empty());
        overall(results)
    }
}

/// What is done about a runner when no manager answers.
#[derive(Debug, Clone, Copy, PartialEq, Eq, Structural)]
pub enum RetireStep {
    Skip,
    /// Nothing runs: remove what is left.
    Clean,
    Stop,
}

pub open spec fn retire_step(name: Seq<char>, socket_exists: bool, alive: bool) -> RetireStep {
    if target_refusal(name) is Some {
        RetireStep::Skip
    } else if socket_exists || alive {
        RetireStep::Stop
    } else {
        RetireStep::Clean
    }
}

pub fn retire(name: &str, socket_exists: bool, alive: bool) -> (r: RetireStep)
    ensures
        r == (if target_refusal(name@) is Some {
            RetireStep::Skip
        } else if socket_exists || alive {
            RetireStep::Stop
        } else {
            RetireStep::Clean
        }),
        r == retire_step(name@, socket_exists, alive),
{
    if validate_target_name(name).is_err() {
        return RetireStep::Skip;
    }
    if socket_exists || alive {
        RetireStep::Stop
    } else {
        RetireStep::Clean
    }
}

/// What is removed once a runner was told to stop, and what is told of it.
#[derive(Debug)]
pub enum RetireEnd {
    /// Its record; the runner removes its own files.
    Forget,
    /// All that is left of it.
    Clean,
    /// Nothing: it is alive and did not stop.
    Keep(String),
}

pub open spec fn retire_end(result: Result<(), String>, alive: bool) -> RetireEnd {
    match result {
        Ok(()) => RetireEnd::Forget,
        Err(e) => if alive {
            RetireEnd::Keep(e)
        } else {
            RetireEnd::Clean
        },
    }
}

/// `alive` is whether the runner is still there.
pub fn retired(result: Result<(), String>, alive: bool) -> (r: RetireEnd)
    ensures
        r == (match result {
            Ok(()) => RetireEnd::Forget,
            Err(e) => if alive {
                RetireEnd::Keep(e)
            } else {
                RetireEnd::Clean
            },
        }),
        r == retire_end(result, alive),
{
    match result {
        Ok(()) => RetireEnd::Forget,
        Err(e) => {
            if alive {
                RetireEnd::Keep(e)
            } else {
                RetireEnd::Clean
            }
        },
    }
}

pub open spec fn needs_stop(socket_exists: bool, alive: bool) -> bool {
    socket_exists || alive
}

pub open spec fn may_remove(stopped: bool, alive: bool) -> bool {
    stopped || !alive
}

/// Whether a temporary service that is done away with has a runner to stop.
pub fn discard_needs_stop(socket_exists: bool, alive: bool) -> (r: bool)
    ensures
        r == (socket_exists || alive),
        r == needs_stop(socket_exists, alive),
{
    socket_exists || alive
}

/// Whether what a temporary service has left is removed: not under a runner that did not stop.
pub fn discard_removes(stopped: bool, alive: bool) -> (r: bool)
    ensures
        r == (stopped || !alive),
        r == may_remove(stopped, alive),
{
    stopped || !alive
}

/// What a request to shut down comes to.
#[derive(Debug)]
pub enum ShutdownStep {
    Done,
    /// The runners are stopped without the manager. Where that fails too, this is told first.
    Fallback(String),
    Failed(String),
}

pub fn shutdown_answered(result: Result<Response, String>, shown: &str) -> (r: ShutdownStep)
    ensures
        match result {
            Err(e) => r matches ShutdownStep::Fallback(t) && t@ == "manager is unavailable: "@ + e@
                + "; fallback shutdown failed: "@,
            Ok(Response::Error { message }) => r matches ShutdownStep::Fallback(t) && t@
                == "manager shutdown failed: "@ + message@ + "; fallback failed: "@,
            Ok(Response::Done) => r is Done,
            Ok(_) => r matches ShutdownStep::Failed(t) && t@
                == "unexpected manager shutdown response: "@ + shown@,
        },
{
    match result {
        Err(e) => ShutdownStep::Fallback(
            cat3("manager is unavailable: ", e.as_str(), "; fallback shutdown failed: "),
        ),
        Ok(Response::Error { message }) => ShutdownStep::Fallback(
            cat3("manager shutdown failed: ", message.as_str(), "; fallback failed: "),
        ),
        Ok(Response::Done) => ShutdownStep::Done,
        Ok(_) => ShutdownStep::Failed(cat2("unexpected manager shutdown response: ", shown)),
    }
}

/// A manager that is to be replaced or to leave has answered.
pub fn handoff_answered(response: &Response, shown: &str) -> (r: Result<(), String>)
    ensures
        response is Done ==> r is Ok,
        !(response is Done) ==> r is Err && r->Err_0@ == "unexpected manager handoff response: "@
            + shown@,
{
    match response {
        Response::Done => Ok(()),
        _ => Err(cat2("unexpected manager handoff response: ", shown)),
    }
}

pub fn relinquish_answered(response: &Response, shown: &str) -> (r: Result<(), String>)
    ensures
        response is Done ==> r is Ok,
        !(response is Done) ==> r is Err && r->Err_0@ == "unexpected manager relinquish response: "@
            + shown@,
{
    match response {
        Response::Done => Ok(()),
        _ => Err(cat2("unexpected manager relinquish response: ", shown)),
    }
}

/// Whether another manager has come up: it has left another mark.
pub open spec fn replaced(before: Option<Seq<char>>, now: Option<Seq<char>>) -> bool {
    now is Some && now != before
}

pub fn is_replaced(before: &Option<String>, now: &Option<String>) -> (r: bool)
    ensures
        r == replaced(opt_view(*before), opt_view(*now)),
{
    match (before, now) {
        (Some(a), Some(b)) => !same(a.as_str(), b.as_str()),
        (None, Some(_)) => true,
        _ => false,
    }
}

/// What comes next while another manager or the end of one is waited for.
#[derive(Debug)]
pub enum WaitStep {
    Done,
    /// Look again after `RUNNER_START_DELAY`.
    Later,
    Failed(String),
}

/// `ready` is whether the new manager has left its mark and lists its services.
pub fn handoff_looked(patience: &mut Patience, ready: bool) -> (r: WaitStep)
    ensures
        ready ==> r is Done,
        !ready && old(patience).looks + 1 < RUNNER_START_ATTEMPTS ==> r is Later
            && final(patience).looks == old(patience).looks + 1,
        !ready && old(patience).looks + 1 >= RUNNER_START_ATTEMPTS ==> r is Failed && r->0@
            == "new manager did not become ready after handoff"@,
{
    if ready {
        return WaitStep::Done;
    }
    if patience.again() {
        WaitStep::Later
    } else {
        WaitStep::Failed("new manager did not become ready after handoff".to_owned())
    }
}

/// A manager has left once neither its socket nor its mark is there.
pub fn relinquish_looked(patience: &mut Patience, socket_exists: bool, mark_exists: bool) -> (r: WaitStep)
    ensures
        r is Done <==> !socket_exists && !mark_exists,
        (socket_exists || mark_exists) && old(patience).looks + 1 < RUNNER_START_ATTEMPTS
            ==> r is Later && final(patience).looks == old(patience).looks + 1,
        (socket_exists || mark_exists) && old(patience).looks + 1 >= RUNNER_START_ATTEMPTS
            ==> r is Failed && r->0@ == "manager did not release its socket after relinquish"@,
{
    if !socket_exists && !mark_exists {
        return WaitStep::Done;
    }
    if patience.again() {
        WaitStep::Later
    } else {
        WaitStep::Failed("manager did not release its socket after relinquish".to_owned())
    }
}

/// Results without a failure are told as a success, and only those.
pub proof fn law_every_failure_is_told(results: Seq<Result<(), String>>)
    ensures
        first_error(results) is None <==> forall|i: int|
            0 <= i < results.len() ==> #[trigger] results[i] is Ok,
    decreases results.len(),
{
    if results.len() > 0 {
        let front = results.drop_last();
        law_every_failure_is_told(front);
        assert forall|i: int| 0 <= i < front.len() implies #[trigger] front[i] == results[i] by {}
        if first_error(results) is None {
            assert forall|i: int| 0 <= i < results.len() implies #[trigger] results[i] is Ok by {
                if i < front.len() {
                    assert(front[i] is Ok);
                }
            }
        } else if forall|i: int| 0 <= i < results.len() ==> #[trigger] results[i] is Ok {
            assert(results[results.len() - 1] is Ok);
            assert forall|i: int| 0 <= i < front.len() implies #[trigger] front[i] is Ok by {
                assert(results[i] is Ok);
            }
        }
    }
}

} // verus!
