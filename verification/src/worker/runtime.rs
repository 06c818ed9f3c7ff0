//! How a worker keeps a service running: when it is started again, how it is ended, and who is
//! attached to it.
use crate::config::{restarts, LoadedService, LoadedView, RestartPolicy};
use crate::logs::display::{attach_snapshot_from_bytes, clean_from, is_snapshot, keep_last, last_n, lossy_text, to_vec};
use crate::logs::store::MEMORY_LOG_LIMIT;
use crate::text::{cat2, cat3, cat5, decimal, decimal_text};
use crate::worker::{backoff, backoff_millis, WorkerEvent};
use std::collections::VecDeque;
use vstd::prelude::*;

verus! {

/// How long an ended process is waited for, in milliseconds.
pub const TERMINATION_TIMEOUT_MILLIS: u64 = 5_000;

/// How the supervision of one process ended.
#[derive(Debug)]
pub enum ProcessOutcome {
    Exited { code: Option<i32>, success: bool },
    Stopped,
    Restart { service: LoadedService },
}

/// How the wait before another start ended.
#[derive(Debug)]
pub enum BackoffOutcome {
    Timer,
    Stop,
    Restart(LoadedService),
}

/// What a worker does next.
#[derive(Debug, Clone, Copy, PartialEq, Eq, Structural)]
pub enum WorkerNext {
    /// Start the service.
    Start,
    /// Wait so many milliseconds, and then start it.
    Wait(u64),
    End,
}

/// The service of a worker, and how often it had to be started again.
#[derive(Debug)]
pub struct Worker {
    pub service: LoadedService,
    pub attempt: u32,
}

pub enum EventView {
    Starting { name: Seq<char>, persist_logs: bool },
    Started { name: Seq<char>, pid: u32, tty: bool },
    Output { name: Seq<char>, bytes: Seq<u8> },
    Exited { name: Seq<char>, code: Option<i32>, success: bool },
    Restarting { name: Seq<char>, delay: u64 },
    Stopped { name: Seq<char> },
    Failed { name: Seq<char>, error: Seq<char> },
    AttachChanged { name: Seq<char>, active: bool },
}

impl View for WorkerEvent {
    type V = EventView;

    open spec fn view(&self) -> EventView {
        match *self {
            WorkerEvent::Starting { name, persist_logs } => EventView::Starting {
                name: name@,
                persist_logs,
            },
            WorkerEvent::Started { name, pid, tty } => EventView::Started { name: name@, pid, tty },
            WorkerEvent::Output { name, bytes } => EventView::Output { name: name@, bytes: bytes@ },
            WorkerEvent::Exited { name, code, success } => EventView::Exited {
                name: name@,
                code,
                success,
            },
            WorkerEvent::Restarting { name, delay } => EventView::Restarting { name: name@, delay },
            WorkerEvent::Stopped { name } => EventView::Stopped { name: name@ },
            WorkerEvent::Failed { name, error } => EventView::Failed {
                name: name@,
                error: error@,
            },
            WorkerEvent::AttachChanged { name, active } => EventView::AttachChanged {
                name: name@,
                active,
            },
        }
    }
}

pub open spec fn event_views(events: Seq<WorkerEvent>) -> Seq<EventView> {
    Seq::new(events.len(), |i: int| events[i]@)
}

pub open spec fn one_more_attempt(attempt: u32) -> u32 {
    if attempt == u32::MAX { attempt } else { (attempt + 1) as u32 }
}

/// What follows the end of a process: it is started again after a while, or that was all.
pub open spec fn after_end(service: LoadedView, attempt: u32, success: bool, first: EventView) -> (
    u32,
    Seq<EventView>,
    WorkerNext,
) {
    let name = service.config.name;
    if restarts(service.config.restart, success) {
        let n = one_more_attempt(attempt);
        let delay = backoff_millis(n) as u64;
        (n, seq![first, EventView::Restarting { name, delay }], WorkerNext::Wait(delay))
    } else {
        (attempt, seq![first, EventView::Stopped { name }], WorkerNext::End)
    }
}

/// After a process has ended, the policy alone decides: under `Always` the service is started
/// again however it ended, under `OnFailure` where it failed, under `Never` not at all. Before it
/// is, exactly the announced delay is waited; where it is not, the worker ends. What ended is
/// reported first either way.
pub proof fn law_the_policy_decides(service: LoadedView, attempt: u32, success: bool, first: EventView)
    ensures
        ({
            let (n, events, next) = after_end(service, attempt, success, first);
            let again = match service.config.restart {
                RestartPolicy::Always => true,
                RestartPolicy::OnFailure => !success,
                RestartPolicy::Never => false,
            };
            &&& again <==> next is Wait
            &&& !again <==> next is End
            &&& events.len() == 2
            &&& events[0] == first
            &&& next matches WorkerNext::Wait(delay) ==> {
                &&& events[1] == (EventView::Restarting { name: service.config.name, delay })
                &&& 250 <= delay <= 30_000
                &&& attempt < u32::MAX ==> n == attempt + 1
                &&& attempt == u32::MAX ==> n == attempt
                &&& delay == backoff_millis(n)
            }
            &&& next is End ==> events[1] == (EventView::Stopped { name: service.config.name }) && n == attempt
        }),
{
    crate::worker::law_backoff_grows(one_more_attempt(attempt), one_more_attempt(attempt));
}

/// What a worker does once its process is no longer supervised: its service and attempts from then
/// on, what it reports, and what it does next.
pub open spec fn after_outcome(service: LoadedView, attempt: u32, outcome: Result<ProcessOutcome, String>) -> (
    LoadedView,
    u32,
    Seq<EventView>,
    WorkerNext,
) {
    let name = service.config.name;
    match outcome {
        Ok(ProcessOutcome::Stopped) => (service, attempt, seq![EventView::Stopped { name }], WorkerNext::End),
        Ok(ProcessOutcome::Restart { service: new }) => (new@, 0, Seq::empty(), WorkerNext::Start),
        Ok(ProcessOutcome::Exited { code, success }) => {
            let (n, events, next) = after_end(
                service,
                attempt,
                success,
                EventView::Exited { name, code, success },
            );
            (service, n, events, next)
        },
        Err(error) => {
            let (n, events, next) = after_end(
                service,
                attempt,
                false,
                EventView::Failed { name, error: error@ },
            );
            (service, n, events, next)
        },
    }
}

/// What a worker does after its wait.
pub open spec fn after_pause(service: LoadedView, attempt: u32, outcome: BackoffOutcome) -> (
    LoadedView,
    u32,
    WorkerNext,
) {
    match outcome {
        BackoffOutcome::Timer => (service, attempt, WorkerNext::Start),
        BackoffOutcome::Stop => (service, attempt, WorkerNext::End),
        BackoffOutcome::Restart(new) => (new@, 0, WorkerNext::Start),
    }
}

/// A process that ended by itself is reported with how it ended, and is started again as the
/// policy of its service says for that end; one that could not be run counts as failed.
pub proof fn law_ends_are_judged_by_how_they_were(service: LoadedView, attempt: u32, code: Option<i32>, success: bool, error: String)
    ensures
        ({
            let (s, n, events, next) = after_outcome(service, attempt, Ok(ProcessOutcome::Exited { code, success }));
            &&& s == service
            &&& events.len() == 2
            &&& events[0] == (EventView::Exited { name: service.config.name, code, success })
            &&& next is Wait <==> service.config.restart is Always || (service.config.restart is OnFailure && !success)
            &&& next !is Wait ==> next is End && n == attempt
        }),
        ({
            let (s, n, events, next) = after_outcome(service, attempt, Err(error));
            &&& s == service
            &&& events.len() == 2
            &&& events[0] == (EventView::Failed { name: service.config.name, error: error@ })
            &&& next is Wait <==> service.config.restart !is Never
            &&& next !is Wait ==> next is End && n == attempt
        }),
{
    law_the_policy_decides(
        service,
        attempt,
        success,
        EventView::Exited { name: service.config.name, code, success },
    );
    law_the_policy_decides(
        service,
        attempt,
        false,
        EventView::Failed { name: service.config.name, error: error@ },
    );
}

/// Whoever asks for a stop gets one, and whoever asks for a restart gets the new definition at
/// once, with no attempt counted: while the process runs, and while the next start is waited for.
pub proof fn law_what_was_asked_is_done(service: LoadedView, attempt: u32, new: LoadedService)
    ensures
        ({
            let (s, n, events, next) = after_outcome(service, attempt, Ok(ProcessOutcome::Stopped));
            next is End && events == seq![EventView::Stopped { name: service.config.name }]
        }),
        ({
            let (s, n, events, next) = after_outcome(service, attempt, Ok(ProcessOutcome::Restart { service: new }));
            next is Start && s == new@ && n == 0 && events.len() == 0
        }),
        after_pause(service, attempt, BackoffOutcome::Stop).2 is End,
        ({
            let (s, n, next) = after_pause(service, attempt, BackoffOutcome::Restart(new));
            next is Start && s == new@ && n == 0
        }),
        after_pause(service, attempt, BackoffOutcome::Timer) == (service, attempt, WorkerNext::Start),
{
}

/// A service that keeps failing is started again and again, each time with one attempt more, and
/// waits no shorter than before.
pub proof fn law_failing_services_are_retried(service: LoadedView, attempt: u32, first: String, second: String)
    requires
        service.config.restart !is Never,
        attempt < 0xffff_fffe,
    ensures
        ({
            let (s1, n1, e1, next1) = after_outcome(service, attempt, Err(first));
            let (s2, n2, start) = after_pause(s1, n1, BackoffOutcome::Timer);
            let (s3, n3, e3, next3) = after_outcome(s2, n2, Err(second));
            &&& start is Start
            &&& s3 == service
            &&& n3 == attempt + 2
            &&& next1 is Wait && next3 is Wait
            &&& next1->Wait_0 <= next3->Wait_0
        }),
{
    let name = service.config.name;
    law_the_policy_decides(service, attempt, false, EventView::Failed { name, error: first@ });
    law_the_policy_decides(service, (attempt + 1) as u32, false, EventView::Failed { name, error: second@ });
    crate::worker::law_backoff_grows((attempt + 1) as u32, (attempt + 2) as u32);
}

fn two(a: WorkerEvent, b: WorkerEvent) -> (r: Vec<WorkerEvent>)
    ensures
        event_views(r@) == seq![a@, b@],
{
    let mut out: Vec<WorkerEvent> = Vec::new();
    out.push(a);
    out.push(b);
    assert(event_views(out@) =~= seq![a@, b@]);
    out
}

impl Worker {
    pub fn new(service: LoadedService) -> (r: Self)
        ensures
            r.service == service,
            r.attempt == 0,
    {
        Worker { service, attempt: 0 }
    }

    /// What is reported before the service is started.
    pub fn starting(&self) -> (r: WorkerEvent)
        ensures
            r@ == (EventView::Starting {
                name: self.service@.config.name,
                persist_logs: self.service@.config.persist_logs,
            }),
    {
        WorkerEvent::Starting {
            name: self.service.config.name.clone(),
            persist_logs: self.service.config.persist_logs,
        }
    }

    fn ended(&mut self, success: bool, first: WorkerEvent) -> (r: (Vec<WorkerEvent>, WorkerNext))
        ensures
            final(self).service == old(self).service,
            (final(self).attempt, event_views(r.0@), r.1) == after_end(
                old(self).service@,
                old(self).attempt,
                success,
                first@,
            ),
    {
        let name = self.service.config.name.clone();
        if self.service.config.restart.should_restart(success) {
            self.attempt = self.attempt.saturating_add(1);
            let delay = backoff(self.attempt);
            (two(first, WorkerEvent::Restarting { name, delay }), WorkerNext::Wait(delay))
        } else {
            (two(first, WorkerEvent::Stopped { name }), WorkerNext::End)
        }
    }

    /// What follows once the process is no longer supervised: what is reported, and what is done.
    pub fn after_process(&mut self, outcome: Result<ProcessOutcome, String>) -> (r: (Vec<WorkerEvent>, WorkerNext))
        ensures
            match outcome {
                Ok(ProcessOutcome::Stopped) => {
                    &&& *final(self) == *old(self)
                    &&& event_views(r.0@) == seq![
                        EventView::Stopped { name: old(self).service@.config.name },
                    ]
                    &&& r.1 is End
                },
                Ok(ProcessOutcome::Restart { service }) => {
                    &&& final(self).service == service
                    &&& final(self).attempt == 0
                    &&& r.0@.len() == 0
                    &&& r.1 is Start
                },
                Ok(ProcessOutcome::Exited { code, success }) => {
                    &&& final(self).service == old(self).service
                    &&& (final(self).attempt, event_views(r.0@), r.1) == after_end(
                        old(self).service@,
                        old(self).attempt,
                        success,
                        EventView::Exited { name: old(self).service@.config.name, code, success },
                    )
                },
                Err(error) => {
                    &&& final(self).service == old(self).service
                    &&& (final(self).attempt, event_views(r.0@), r.1) == after_end(
                        old(self).service@,
                        old(self).attempt,
                        false,
                        EventView::Failed {
                            name: old(self).service@.config.name,
                            error: error@,
                        },
                    )
                },
            },
            (final(self).service@, final(self).attempt, event_views(r.0@), r.1) == after_outcome(
                old(self).service@,
                old(self).attempt,
                outcome,
            ),
    {
        let name = self.service.config.name.clone();
        match outcome {
            Ok(ProcessOutcome::Stopped) => {
                let mut out: Vec<WorkerEvent> = Vec::new();
                out.push(WorkerEvent::Stopped { name });
                assert(event_views(out@) =~= seq![
                    EventView::Stopped { name: self.service@.config.name },
                ]);
                (out, WorkerNext::End)
            },
            Ok(ProcessOutcome::Restart { service }) => {
                self.attempt = 0;
                self.service = service;
                (Vec::new(), WorkerNext::Start)
            },
            Ok(ProcessOutcome::Exited { code, success }) => self.ended(
                success,
                WorkerEvent::Exited { name, code, success },
            ),
            Err(error) => self.ended(false, WorkerEvent::Failed { name, error }),
        }
    }

    /// What follows the wait before another start.
    pub fn after_wait(&mut self, outcome: BackoffOutcome) -> (r: WorkerNext)
        ensures
            match outcome {
                BackoffOutcome::Timer => *final(self) == *old(self) && r is Start,
                BackoffOutcome::Stop => *final(self) == *old(self) && r is End,
                BackoffOutcome::Restart(service) => final(self).service == service
                    && final(self).attempt == 0 && r is Start,
            },
            (final(self).service@, final(self).attempt, r) == after_pause(
                old(self).service@,
                old(self).attempt,
                outcome,
            ),
    {
        match outcome {
            BackoffOutcome::Timer => WorkerNext::Start,
            BackoffOutcome::Stop => WorkerNext::End,
            BackoffOutcome::Restart(service) => {
                self.attempt = 0;
                self.service = service;
                WorkerNext::Start
            },
        }
    }
}

/// What a worker is told. Replies and streams travel beside it.
#[derive(Debug)]
pub enum CommandKind {
    Stop,
    Restart(LoadedService),
    Attach,
    Resize { cols: u16, rows: u16 },
    /// Nobody is left who could tell it anything.
    Closed,
}

/// What a command makes of the wait before another start.
pub open spec fn wait_outcome(command: CommandKind) -> BackoffOutcome {
    match command {
        CommandKind::Stop => BackoffOutcome::Stop,
        CommandKind::Closed => BackoffOutcome::Stop,
        CommandKind::Restart(service) => BackoffOutcome::Restart(service),
        CommandKind::Attach => BackoffOutcome::Timer,
        CommandKind::Resize { .. } => BackoffOutcome::Timer,
    }
}

/// What a command does to the wait before another start. A client cannot attach meanwhile, and a
/// size is only noted; either ends the wait.
pub fn wait_backoff(command: CommandKind) -> (r: BackoffOutcome)
    ensures
        match command {
            CommandKind::Stop => r is Stop,
            CommandKind::Closed => r is Stop,
            CommandKind::Restart(service) => r == BackoffOutcome::Restart(service),
            CommandKind::Attach => r is Timer,
            CommandKind::Resize { .. } => r is Timer,
        },
        r == wait_outcome(command),
{
    match command {
        CommandKind::Stop | CommandKind::Closed => BackoffOutcome::Stop,
        CommandKind::Restart(service) => BackoffOutcome::Restart(service),
        CommandKind::Attach | CommandKind::Resize { .. } => BackoffOutcome::Timer,
    }
}

/// Why a process is ended.
#[derive(Debug)]
pub enum EndReason {
    Stop,
    Restart(LoadedService),
    Closed,
}

/// Why a command ends the process, where it does.
pub open spec fn end_reason(command: CommandKind) -> Option<EndReason> {
    match command {
        CommandKind::Stop => Some(EndReason::Stop),
        CommandKind::Restart(service) => Some(EndReason::Restart(service)),
        CommandKind::Closed => Some(EndReason::Closed),
        CommandKind::Attach => None,
        CommandKind::Resize { .. } => None,
    }
}

/// How the supervision ends once the process has.
pub open spec fn outcome_of(reason: EndReason) -> ProcessOutcome {
    match reason {
        EndReason::Restart(service) => ProcessOutcome::Restart { service },
        EndReason::Stop => ProcessOutcome::Stopped,
        EndReason::Closed => ProcessOutcome::Stopped,
    }
}

/// A command reaches its end whatever the worker is at: once the process has ended for it, or at
/// once while the next start is waited for, a stop ends the worker and a restart starts the
/// definition that was sent, with no attempt counted. A client or a size ends no process.
pub proof fn law_commands_reach_their_end(service: LoadedView, attempt: u32, new: LoadedService, cols: u16, rows: u16)
    ensures
        end_reason(CommandKind::Stop) is Some && end_reason(CommandKind::Closed) is Some,
        end_reason(CommandKind::Restart(new)) is Some,
        end_reason(CommandKind::Attach) is None && end_reason(CommandKind::Resize { cols, rows }) is None,
        after_outcome(service, attempt, Ok(outcome_of(end_reason(CommandKind::Stop)->0))).3 is End,
        after_outcome(service, attempt, Ok(outcome_of(end_reason(CommandKind::Closed)->0))).3 is End,
        ({
            let (s, n, events, next) = after_outcome(
                service,
                attempt,
                Ok(outcome_of(end_reason(CommandKind::Restart(new))->0)),
            );
            s == new@ && n == 0 && next is Start
        }),
        after_pause(service, attempt, wait_outcome(CommandKind::Stop)).2 is End,
        after_pause(service, attempt, wait_outcome(CommandKind::Closed)).2 is End,
        ({
            let (s, n, next) = after_pause(service, attempt, wait_outcome(CommandKind::Restart(new)));
            s == new@ && n == 0 && next is Start
        }),
        after_pause(service, attempt, wait_outcome(CommandKind::Attach)) == (service, attempt, WorkerNext::Start),
        after_pause(service, attempt, wait_outcome(CommandKind::Resize { cols, rows })) == (
            service,
            attempt,
            WorkerNext::Start,
        ),
{
}

/// What a command makes of a process that runs.
#[derive(Debug)]
pub enum SuperviseStep {
    /// End the process, and then go on with `terminated`.
    Terminate(EndReason),
    /// The client is not let in.
    DropClient,
    /// The client is let in; the event, where there is one, is reported first.
    LetIn(Option<WorkerEvent>),
    Resize { cols: u16, rows: u16 },
}

/// What follows once a process was to be ended.
#[derive(Debug)]
pub enum TerminatedStep {
    /// It ended: the event is reported, the one who asked is told, and this was the outcome.
    Ended(Option<WorkerEvent>, ProcessOutcome),
    /// It did not: the one who asked is told why, and the supervision goes on.
    Refused(String),
    /// It did not, and nobody is left to be told.
    Failed(String),
}

/// A process that is supervised, and how many clients are attached to it.
#[derive(Debug)]
pub struct Supervision {
    pub name: String,
    /// Clients of a terminal can write; there may be only one.
    pub interactive: bool,
    pub clients: usize,
}

pub open spec fn change_opt(e: Option<WorkerEvent>) -> Option<EventView> {
    match e {
        Some(e) => Some(e@),
        None => None,
    }
}

impl Supervision {
    /// At most one client can write to a terminal.
    pub open spec fn one_writer(&self) -> bool {
        self.interactive ==> self.clients <= 1
    }

    /// What is reported tells whether anybody is attached, whenever that changes and only then.
    pub open spec fn change_told(&self, after: &Supervision, told: Option<EventView>) -> bool {
        let before = self.clients > 0;
        let now = after.clients > 0;
        &&& before == now <==> told is None
        &&& before != now ==> told == Some(EventView::AttachChanged { name: self.name@, active: now })
    }
}

/// What is reported where clients are sent away.
pub open spec fn sent_away(name: Seq<char>, clients: nat) -> Option<EventView> {
    if clients == 0 { None } else { Some(EventView::AttachChanged { name, active: false }) }
}

impl Supervision {
    pub fn new(name: &str, interactive: bool) -> (r: Self)
        ensures
            r.name@ == name@,
            r.interactive == interactive,
            r.clients == 0,
    {
        Supervision { name: name.to_owned(), interactive, clients: 0 }
    }

    /// What is reported once the process runs.
    pub fn started(&self, pid: u32) -> (r: WorkerEvent)
        ensures
            r@ == (EventView::Started { name: self.name@, pid, tty: self.interactive }),
    {
        WorkerEvent::Started { name: self.name.clone(), pid, tty: self.interactive }
    }

    fn deactivate_attaches(&mut self) -> (r: Option<WorkerEvent>)
        ensures
            final(self).name == old(self).name,
            final(self).interactive == old(self).interactive,
            final(self).clients == 0,
            change_opt(r) == sent_away(old(self).name@, old(self).clients as nat),
    {
        if self.clients == 0 {
            return None;
        }
        self.clients = 0;
        Some(WorkerEvent::AttachChanged { name: self.name.clone(), active: false })
    }

    /// The process has ended by itself.
    pub fn exited(&mut self, code: Option<i32>, success: bool) -> (r: (Option<WorkerEvent>, ProcessOutcome))
        ensures
            final(self).clients == 0,
            final(self).name == old(self).name,
            final(self).interactive == old(self).interactive,
            change_opt(r.0) == sent_away(old(self).name@, old(self).clients as nat),
            r.1 == (ProcessOutcome::Exited { code, success }),
            old(self).change_told(final(self), change_opt(r.0)),
            final(self).one_writer(),
    {
        let event = self.deactivate_attaches();
        (event, ProcessOutcome::Exited { code, success })
    }

    /// What a command comes to.
    pub fn command(&mut self, command: CommandKind) -> (r: SuperviseStep)
        requires
            command is Attach ==> old(self).clients < usize::MAX,
        ensures
            final(self).name == old(self).name,
            final(self).interactive == old(self).interactive,
            match command {
                CommandKind::Stop => r == SuperviseStep::Terminate(EndReason::Stop)
                    && final(self).clients == old(self).clients,
                CommandKind::Restart(service) => r == SuperviseStep::Terminate(
                    EndReason::Restart(service),
                ) && final(self).clients == old(self).clients,
                CommandKind::Closed => r == SuperviseStep::Terminate(EndReason::Closed)
                    && final(self).clients == old(self).clients,
                CommandKind::Attach => if old(self).interactive && old(self).clients > 0 {
                    r is DropClient && final(self).clients == old(self).clients
                } else {
                    &&& r matches SuperviseStep::LetIn(e)
                    &&& change_opt(e) == (if old(self).clients == 0 {
                        Some(EventView::AttachChanged { name: old(self).name@, active: true })
                    } else {
                        None
                    })
                    &&& final(self).clients == old(self).clients + 1
                },
                CommandKind::Resize { cols, rows } => r == (SuperviseStep::Resize { cols, rows })
                    && final(self).clients == old(self).clients,
            },
            old(self).one_writer() ==> final(self).one_writer(),
            command !is Attach ==> *final(self) == *old(self),
            old(self).change_told(
                final(self),
                match r {
                    SuperviseStep::LetIn(e) => change_opt(e),
                    _ => None,
                },
            ),
            r is DropClient ==> *final(self) == *old(self) && old(self).interactive,
            match end_reason(command) {
                Some(reason) => r == SuperviseStep::Terminate(reason),
                None => r !is Terminate,
            },
            command is Attach && old(self).clients == 0 ==> r is LetIn && final(self).clients == 1,
            command is Attach && !old(self).interactive ==> r is LetIn && final(self).clients == old(self).clients + 1,
    {
        match command {
            CommandKind::Stop => SuperviseStep::Terminate(EndReason::Stop),
            CommandKind::Restart(service) => SuperviseStep::Terminate(EndReason::Restart(service)),
            CommandKind::Closed => SuperviseStep::Terminate(EndReason::Closed),
            CommandKind::Attach => {
                if self.interactive && self.clients > 0 {
                    return SuperviseStep::DropClient;
                }
                let event = if self.clients == 0 {
                    Some(WorkerEvent::AttachChanged { name: self.name.clone(), active: true })
                } else {
                    None
                };
                self.clients = self.clients + 1;
                SuperviseStep::LetIn(event)
            },
            CommandKind::Resize { cols, rows } => SuperviseStep::Resize { cols, rows },
        }
    }

    /// Goes on once the process was to be ended.
    pub fn terminated(&mut self, reason: EndReason, result: Result<(), String>) -> (r: TerminatedStep)
        ensures
            final(self).name == old(self).name,
            final(self).interactive == old(self).interactive,
            match result {
                Ok(()) => {
                    &&& final(self).clients == 0
                    &&& r matches TerminatedStep::Ended(e, outcome)
                    &&& change_opt(e) == sent_away(old(self).name@, old(self).clients as nat)
                    &&& outcome == (match reason {
                        EndReason::Restart(service) => ProcessOutcome::Restart { service },
                        _ => ProcessOutcome::Stopped,
                    })
                },
                Err(error) => final(self).clients == old(self).clients && r == (match reason {
                    EndReason::Closed => TerminatedStep::Failed(error),
                    _ => TerminatedStep::Refused(error),
                }),
            },
            old(self).one_writer() ==> final(self).one_writer(),
            old(self).change_told(
                final(self),
                match r {
                    TerminatedStep::Ended(e, _) => change_opt(e),
                    _ => None,
                },
            ),
            r is Ended <==> result is Ok,
            r matches TerminatedStep::Ended(_, outcome) ==> outcome == outcome_of(reason),
            result is Err ==> *final(self) == *old(self),
    {
        match result {
            Ok(()) => {
                let event = self.deactivate_attaches();
                let outcome = match reason {
                    EndReason::Restart(service) => ProcessOutcome::Restart { service },
                    _ => ProcessOutcome::Stopped,
                };
                TerminatedStep::Ended(event, outcome)
            },
            Err(error) => match reason {
                EndReason::Closed => TerminatedStep::Failed(error),
                _ => TerminatedStep::Refused(error),
            },
        }
    }

    /// A client has gone. Says what is reported.
    pub fn client_gone(&mut self) -> (r: Option<WorkerEvent>)
        ensures
            final(self).name == old(self).name,
            final(self).interactive == old(self).interactive,
            if old(self).clients == 0 {
                final(self).clients == 0 && r is None
            } else {
                &&& final(self).clients == old(self).clients - 1
                &&& change_opt(r) == (if old(self).clients == 1 {
                    Some(EventView::AttachChanged { name: old(self).name@, active: false })
                } else {
                    None
                })
            },
            old(self).one_writer() ==> final(self).one_writer(),
            old(self).change_told(final(self), change_opt(r)),
    {
        if self.clients == 0 {
            return None;
        }
        self.clients = self.clients - 1;
        if self.clients == 0 {
            Some(WorkerEvent::AttachChanged { name: self.name.clone(), active: false })
        } else {
            None
        }
    }
}

#[derive(Debug, Clone, Copy, PartialEq, Eq, Structural)]
pub enum Signal {
    Term,
    Kill,
}

pub open spec fn signal_text(s: Signal) -> Seq<char> {
    match s {
        Signal::Term => "SIGTERM"@,
        Signal::Kill => "SIGKILL"@,
    }
}

/// What came of waiting for a process.
#[derive(Debug)]
pub enum WaitOutcome {
    Exited,
    Failed(String),
    TimedOut,
}

/// What is done next to end a process.
#[derive(Debug)]
pub enum KillStep {
    /// Send the signal to the group and wait for the end.
    Send(Signal),
    Done(Result<(), String>),
}

/// The group that a signal goes to: the id of a group, negated.
pub open spec fn group_target(pgid: u32) -> Option<i32> {
    if pgid <= i32::MAX { Some((0 - pgid) as i32) } else { None }
}

/// Where a signal for a group is sent to.
pub fn signal_target(pgid: u32) -> (r: Result<i32, String>)
    ensures
        match group_target(pgid) {
            Some(p) => r == Ok::<i32, String>(p),
            None => r is Err && r->Err_0@ == "process group id is too large: "@ + decimal(
                pgid as nat,
            ),
        },
{
    if pgid > 0x7fff_ffff {
        let n = decimal_text(pgid as u64);
        return Err(cat2("process group id is too large: ", n.as_str()));
    }
    Ok(0 - (pgid as i32))
}

/// Why a signal could not be sent.
pub fn signal_failure(pgid: u32, signal: Signal, error: &str) -> (r: String)
    ensures
        r@ == "send "@ + signal_text(signal) + " to process group "@ + decimal(pgid as nat) + ": "@
            + error@,
{
    let n = decimal_text(pgid as u64);
    let name = match signal {
        Signal::Term => "SIGTERM",
        Signal::Kill => "SIGKILL",
    };
    let head = cat5("send ", name, " to process group ", n.as_str(), ": ");
    cat2(head.as_str(), error)
}

/// What follows a signal: the gentle one is followed by the hard one where the process does not
/// end in time, and then there is nothing left to try.
pub open spec fn after_signal(pgid: u32, signal: Signal, sent: Result<(), String>, wait: WaitOutcome) -> Result<
    Signal,
    Result<(), Seq<char>>,
> {
    match sent {
        Err(e) => Err(Err(e@)),
        Ok(()) => match wait {
            WaitOutcome::Exited => Err(Ok(())),
            WaitOutcome::Failed(e) => Err(Err("wait for service process: "@ + e@)),
            WaitOutcome::TimedOut => match signal {
                Signal::Term => Ok(Signal::Kill),
                Signal::Kill => Err(
                    Err(
                        "process group "@ + decimal(pgid as nat)
                            + " did not exit after SIGKILL"@,
                    ),
                ),
            },
        },
    }
}

/// Goes on ending a process group, once a signal was sent and the end was waited for.
pub fn terminate_process_group(pgid: u32, signal: Signal, sent: Result<(), String>, wait: WaitOutcome) -> (r: KillStep)
    ensures
        match after_signal(pgid, signal, sent, wait) {
            Ok(next) => r == KillStep::Send(next),
            Err(Ok(())) => r matches KillStep::Done(Ok(())),
            Err(Err(text)) => r matches KillStep::Done(Err(e)) && e@ == text,
        },
{
    match sent {
        Err(e) => {
            return KillStep::Done(Err(e));
        },
        Ok(()) => {},
    }
    match wait {
        WaitOutcome::Exited => KillStep::Done(Ok(())),
        WaitOutcome::Failed(e) => KillStep::Done(
            Err(cat2("wait for service process: ", e.as_str())),
        ),
        WaitOutcome::TimedOut => match signal {
            Signal::Term => KillStep::Send(Signal::Kill),
            Signal::Kill => {
                let n = decimal_text(pgid as u64);
                KillStep::Done(
                    Err(cat3("process group ", n.as_str(), " did not exit after SIGKILL")),
                )
            },
        },
    }
}

/// Ending a process never takes more than two signals, the gentle one first.
pub proof fn law_two_signals_at_most(pgid: u32, signal: Signal, sent: Result<(), String>, wait: WaitOutcome)
    ensures
        after_signal(pgid, signal, sent, wait) matches Ok(next) ==> signal is Term && next is Kill,
{
}

/// A process ends without an error only where it was seen to end.
pub proof fn law_ended_means_seen(pgid: u32, signal: Signal, sent: Result<(), String>, wait: WaitOutcome)
    requires
        after_signal(pgid, signal, sent, wait) == Err::<Signal, Result<(), Seq<char>>>(
            Ok::<(), Seq<char>>(()),
        ),
    ensures
        sent is Ok,
        wait is Exited,
{
}

/// The gentle signal comes to the hard one exactly where the process is still there when the wait
/// is over; whatever else came of it is the last word. Nothing is called ended unless it was seen
/// to end, and every trouble is told.
pub proof fn law_signals_follow_the_wait(pgid: u32, error: String)
    ensures
        forall|signal: Signal, sent: Result<(), String>, wait: WaitOutcome|
            (#[trigger] after_signal(pgid, signal, sent, wait) is Ok <==> sent is Ok && wait is TimedOut && signal
                is Term),
        forall|signal: Signal| #[trigger]
            after_signal(pgid, signal, Ok(()), WaitOutcome::Exited) == Err::<Signal, Result<(), Seq<char>>>(Ok(())),
        forall|signal: Signal, wait: WaitOutcome| #[trigger]
            after_signal(pgid, signal, Err(error), wait) == Err::<Signal, Result<(), Seq<char>>>(Err(error@)),
        forall|signal: Signal|
            (#[trigger] after_signal(pgid, signal, Ok(()), WaitOutcome::Failed(error)))->Err_0 is Err,
        after_signal(pgid, Signal::Kill, Ok(()), WaitOutcome::TimedOut)->Err_0 is Err,
{
}

/// The newest output of a process, for clients that attach later.
#[derive(Debug)]
pub struct OutputHub {
    pub history: VecDeque<u8>,
}

impl OutputHub {
    pub open spec fn wf(&self) -> bool {
        self.history@.len() <= MEMORY_LOG_LIMIT
    }

    pub fn new() -> (r: Self)
        ensures
            r.wf(),
            r.history@.len() == 0,
    {
        OutputHub { history: VecDeque::new() }
    }

    /// Keeps output. What is older than the limit is forgotten.
    pub fn publish(&mut self, bytes: &[u8])
        requires
            old(self).wf(),
        ensures
            final(self).wf(),
            final(self).history@ == last_n(old(self).history@ + bytes@, MEMORY_LOG_LIMIT as int),
    {
        let mut history: VecDeque<u8> = VecDeque::new();
        std::mem::swap(&mut history, &mut self.history);
        let ghost start = history@;
        let mut i: usize = 0;
        assert(start + bytes@.take(0) =~= start);
        while i < bytes.len()
            invariant
                i <= bytes@.len(),
                history@ == start + bytes@.take(i as int),
            decreases bytes@.len() - i,
        {
            history.push_back(bytes[i]);
            assert(start + bytes@.take(i + 1) =~= (start + bytes@.take(i as int)).push(
                bytes@[i as int],
            ));
            i += 1;
        }
        assert(bytes@.take(bytes@.len() as int) =~= bytes@);
        keep_last(&mut history, MEMORY_LOG_LIMIT);
        self.history = history;
    }

    /// What a client is shown first.
    pub fn snapshot(&self) -> (r: Vec<u8>)
        ensures
            is_snapshot(r@, lossy_text(clean_from(self.history@, 0))),
    {
        let raw = to_vec(&self.history);
        attach_snapshot_from_bytes(raw.as_slice())
    }
}

} // verus!
