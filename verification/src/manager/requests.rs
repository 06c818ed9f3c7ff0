//! How the manager takes up what it is asked, and how it leads a client to a terminal.
use crate::manager::jobs::{ended, fetch, reply_view, AskView, Job, JobView, Op, OpView, Phase, Progress, ProgressView};
use crate::manager::table::{find, is_listing, not_managed, noted, resolved, unmanaged, ManagerState, Table};
use crate::protocol::{Request, Response, RunSpec, Target};
use crate::runner_protocol::{clone_opt, AnswerView, RunnerRequest, RunnerResponse, RunnerServiceState, StatusView};
use crate::text::{cat2, cat3, debug_form, debug_text, opt_view};
use vstd::prelude::*;

verus! {

/// The failures within which a service counts as one that keeps crashing.
pub const CRASH_LOOP_FAILURES: u32 = 3;

pub const FAILURE_WINDOW_SECONDS: u64 = 60;

/// What the manager makes of a request.
#[derive(Debug)]
pub enum Begin {
    Answer(Result<Response, String>),
    Run(Progress),
    /// A service is to be enabled.
    Enable { directory: String, file: Option<String>, workdir: Option<String> },
    /// A temporary service is to be run.
    Temporary(RunSpec),
}

/// A job on a service, before anything was done for it.
pub open spec fn fresh(t: Table, op: OpView, i: int) -> JobView {
    let entry = t.entries[i];
    JobView {
        op,
        name: entry.definition.config.name,
        kind: entry.kind,
        service: Some(entry.definition),
        socket: entry.socket,
        phase: Phase::Open,
        error: Seq::empty(),
    }
}

/// The first step of a job on a service of that name. `ask` is what the service is asked, where
/// the job asks once.
pub open spec fn first_step(t: Table, op: OpView, name: Seq<char>, ask: AskView) -> ProgressView {
    match find(t.entries, name) {
        None => ended(Err(not_managed(name))),
        Some(i) => {
            let job = fresh(t, op, i);
            match op {
                OpView::Restart => fetch(t, job),
                OpView::Disable => ProgressView::StopRunner(
                    JobView { phase: Phase::Stopping, ..job },
                ),
                OpView::Start => ProgressView::Open(job),
                OpView::Stop => ProgressView::Open(job),
                _ => ProgressView::Ask(JobView { phase: Phase::Send, ..job }, ask),
            }
        },
    }
}

/// The first step of a job on a target.
pub open spec fn first_step_at(
    t: Table,
    op: OpView,
    target: Target,
    canonical: Result<String, String>,
    ask: AskView,
) -> ProgressView {
    match resolved(t.entries, target, canonical) {
        Err(e) => ended(Err(e)),
        Ok(name) => first_step(t, op, name, ask),
    }
}

pub open spec fn begin_view(b: Begin) -> Option<ProgressView> {
    match b {
        Begin::Answer(Ok(r)) => Some(ended(Ok(reply_view(r)))),
        Begin::Answer(Err(e)) => Some(ended(Err(e@))),
        Begin::Run(p) => Some(p@),
        _ => None,
    }
}

/// What is said to a request that has to come another way.
pub open spec fn misplaced(request: Request) -> Option<Seq<char>> {
    match request {
        Request::Hello { .. } => Some("handshake must be the first protocol message"@),
        Request::Attach { .. } => Some("attach requires a raw socket handoff"@),
        Request::ManagerShutdown => Some(
            "manager lifecycle requests must use their dedicated control path"@,
        ),
        Request::ManagerHandoff { .. } => Some(
            "manager lifecycle requests must use their dedicated control path"@,
        ),
        Request::ManagerRelinquish => Some(
            "manager lifecycle requests must use their dedicated control path"@,
        ),
        _ => None,
    }
}

pub open spec fn is_begin(t: Table, request: Request, canonical: Result<String, String>, r: Begin) -> bool {
    match request {
        Request::List => r matches Begin::Answer(Ok(Response::Services { services })) && is_listing(
            services@,
            t.entries,
        ),
        Request::Enable { directory, file, workdir } => r == (Begin::Enable {
            directory,
            file,
            workdir,
        }),
        Request::Run { spec } => r == Begin::Temporary(spec),
        Request::Disable { target } => begin_view(r) == Some(
            first_step_at(t, OpView::Disable, target, canonical, AskView::Status),
        ),
        Request::Restart { target } => begin_view(r) == Some(
            first_step_at(t, OpView::Restart, target, canonical, AskView::Status),
        ),
        Request::Start { target } => begin_view(r) == Some(
            first_step_at(t, OpView::Start, target, canonical, AskView::Status),
        ),
        Request::Stop { target } => begin_view(r) == Some(
            first_step_at(t, OpView::Stop, target, canonical, AskView::Status),
        ),
        Request::HistoryList { target } => begin_view(r) == Some(
            first_step_at(t, OpView::HistoryList, target, canonical, AskView::HistoryList),
        ),
        Request::HistoryChunk { target, id, offset, limit } => begin_view(r) == Some(
            first_step_at(
                t,
                OpView::HistoryChunk,
                target,
                canonical,
                AskView::HistoryChunk { id: id@, offset, limit },
            ),
        ),
        Request::Resize { name, token, cols, rows } => begin_view(r) == Some(
            if cols == 0 || rows == 0 {
                ended(Err("resize dimensions must be greater than zero"@))
            } else {
                first_step(
                    t,
                    OpView::Resize,
                    name@,
                    AskView::Resize { token: token@, cols, rows },
                )
            },
        ),
        _ => r matches Begin::Answer(Err(e)) && misplaced(request) == Some(e@),
    }
}

/// Why there is no terminal for a client.
#[derive(Debug)]
pub enum PrepareAttachError {
    Message(String),
    CrashLoop { name: String, recent_failures: u32, latest_log: Option<String> },
}

pub enum RefusalView {
    Message(Seq<char>),
    CrashLoop { name: Seq<char>, recent_failures: u32, latest_log: Option<Seq<char>> },
}

impl View for PrepareAttachError {
    type V = RefusalView;

    open spec fn view(&self) -> RefusalView {
        match *self {
            PrepareAttachError::Message(m) => RefusalView::Message(m@),
            PrepareAttachError::CrashLoop { name, recent_failures, latest_log } => {
                RefusalView::CrashLoop {
                    name: name@,
                    recent_failures,
                    latest_log: opt_view(latest_log),
                }
            },
        }
    }
}

/// Why a service with that status has no terminal to give.
pub open spec fn no_terminal(name: Seq<char>, status: StatusView) -> Option<RefusalView> {
    if status.state is Running && status.pid is Some {
        None
    } else if status.recent_failures >= CRASH_LOOP_FAILURES {
        Some(
            RefusalView::CrashLoop {
                name,
                recent_failures: status.recent_failures,
                latest_log: status.latest_log,
            },
        )
    } else {
        Some(RefusalView::Message("service "@ + debug_form(name) + " is not running"@))
    }
}

/// What the manager knows, and whether it goes on, once the runner was asked how the service is.
pub open spec fn attach_check(
    t: Table,
    name: Seq<char>,
    result: Result<RunnerResponse, String>,
    shown: Seq<char>,
) -> (Table, Option<RefusalView>) {
    match result {
        Err(e) => (t, Some(RefusalView::Message("cannot query service runner: "@ + e@))),
        Ok(answer) => match answer@ {
            AnswerView::Status(status) => (noted(t, name, status), no_terminal(name, status)),
            _ => (
                t,
                Some(
                    RefusalView::Message(
                        "cannot query service runner: unexpected runner status response: "@ + shown,
                    ),
                ),
            ),
        },
    }
}

/// What the answer of a runner to a wish for its terminal comes to.
pub open spec fn attach_outcome(response: RunnerResponse, shown: Seq<char>) -> Result<Seq<char>, RefusalView> {
    match response {
        RunnerResponse::Attach { token } => Ok(token@),
        RunnerResponse::AttachUnavailable { name, recent_failures, latest_log, .. } => Err(
            RefusalView::CrashLoop { name: name@, recent_failures, latest_log: opt_view(latest_log) },
        ),
        RunnerResponse::Error { message } => Err(RefusalView::Message(message@)),
        _ => Err(RefusalView::Message("unexpected runner attach response: "@ + shown)),
    }
}

impl ManagerState {
    fn begin_job(&self, op: Op, name: &str, ask: RunnerRequest) -> (r: Progress)
        requires
            !(op@ is Ensure),
        ensures
            r@ == first_step(self.table(), op@, name@, crate::manager::jobs::ask_view(ask)),
    {
        let i = match self.position(name) {
            Some(i) => i,
            None => {
                return Progress::Done { result: Err(unmanaged(name)), watch: None };
            },
        };
        let mut job = Job {
            op,
            name: self.services[i].definition.config.name.clone(),
            kind: self.services[i].kind,
            service: Some(self.services[i].definition.clone()),
            socket: self.services[i].runner_socket.clone(),
            phase: Phase::Open,
            error: String::new(),
        };
        assert(job@ =~= fresh(self.table(), op@, i as int));
        match &job.op {
            Op::Restart => self.fetch_definition(job),
            Op::Disable => {
                job.phase = Phase::Stopping;
                Progress::StopRunner(job)
            },
            Op::Start | Op::Stop => Progress::Open(job),
            _ => {
                job.phase = Phase::Send;
                Progress::Ask(job, ask)
            },
        }
    }

    fn begin_job_at(&self, op: Op, target: &Target, canonical: Result<String, String>, ask: RunnerRequest) -> (r: Begin)
        requires
            !(op@ is Ensure),
        ensures
            begin_view(r) == Some(
                first_step_at(
                    self.table(),
                    op@,
                    *target,
                    canonical,
                    crate::manager::jobs::ask_view(ask),
                ),
            ),
    {
        match self.resolve_target(target, canonical) {
            Ok(name) => Begin::Run(self.begin_job(op, name.as_str(), ask)),
            Err(e) => Begin::Answer(Err(e)),
        }
    }

    /// Takes up a request. `canonical` is the real path of the directory that the request names,
    /// where it names one.
    pub fn handle_request(&self, request: Request, canonical: Result<String, String>) -> (r: Begin)
        requires
            self.wf(),
        ensures
            is_begin(self.table(), request, canonical, r),
    {
        match request {
            Request::Hello { .. } => {
                Begin::Answer(Err("handshake must be the first protocol message".to_owned()))
            },
            Request::List => Begin::Answer(
                Ok(Response::Services { services: self.list_services() }),
            ),
            Request::Enable { directory, file, workdir } => Begin::Enable {
                directory,
                file,
                workdir,
            },
            Request::Run { spec } => Begin::Temporary(spec),
            Request::Disable { target } => self.begin_job_at(
                Op::Disable,
                &target,
                canonical,
                RunnerRequest::Status,
            ),
            Request::Restart { target } => self.begin_job_at(
                Op::Restart,
                &target,
                canonical,
                RunnerRequest::Status,
            ),
            Request::Start { target } => self.begin_job_at(
                Op::Start,
                &target,
                canonical,
                RunnerRequest::Status,
            ),
            Request::Stop { target } => self.begin_job_at(
                Op::Stop,
                &target,
                canonical,
                RunnerRequest::Status,
            ),
            Request::Attach { .. } => {
                Begin::Answer(Err("attach requires a raw socket handoff".to_owned()))
            },
            Request::Resize { name, token, cols, rows } => {
                if cols == 0 || rows == 0 {
                    return Begin::Answer(
                        Err("resize dimensions must be greater than zero".to_owned()),
                    );
                }
                Begin::Run(
                    self.begin_job(
                        Op::Resize,
                        name.as_str(),
                        RunnerRequest::Resize { token, cols, rows },
                    ),
                )
            },
            Request::HistoryList { target } => self.begin_job_at(
                Op::HistoryList,
                &target,
                canonical,
                RunnerRequest::HistoryList,
            ),
            Request::HistoryChunk { target, id, offset, limit } => self.begin_job_at(
                Op::HistoryChunk,
                &target,
                canonical,
                RunnerRequest::HistoryChunk { id, offset, limit },
            ),
            _ => Begin::Answer(
                Err("manager lifecycle requests must use their dedicated control path".to_owned()),
            ),
        }
    }

    /// Where the runner of a service is asked for its terminal.
    pub fn prepare_attach(&self, name: &str) -> (r: Result<String, PrepareAttachError>)
        ensures
            match find(self.table().entries, name@) {
                Some(i) => r is Ok && r->Ok_0@ == self.table().entries[i].socket,
                None => r is Err && r->Err_0@ == RefusalView::Message(not_managed(name@)),
            },
    {
        match self.position(name) {
            Some(i) => Ok(self.services[i].runner_socket.clone()),
            None => Err(PrepareAttachError::Message(unmanaged(name))),
        }
    }

    /// Whether the manager goes on to ask for the terminal, now that the runner has said how the
    /// service is.
    pub fn attach_checked(&mut self, name: &str, result: Result<RunnerResponse, String>, shown: &str) -> (r: Result<(), PrepareAttachError>)
        requires
            old(self).wf(),
        ensures
            final(self).wf(),
            final(self).same_ground(*old(self)),
            final(self).table() == attach_check(old(self).table(), name@, result, shown@).0,
            match attach_check(old(self).table(), name@, result, shown@).1 {
                None => r is Ok,
                Some(e) => r is Err && r->Err_0@ == e,
            },
    {
        let status = match result {
            Err(e) => {
                return Err(
                    PrepareAttachError::Message(cat2("cannot query service runner: ", e.as_str())),
                );
            },
            Ok(RunnerResponse::Status { status }) => status,
            Ok(_) => {
                return Err(
                    PrepareAttachError::Message(
                        cat2(
                            "cannot query service runner: unexpected runner status response: ",
                            shown,
                        ),
                    ),
                );
            },
        };
        let running = match status.state {
            RunnerServiceState::Running => status.pid.is_some(),
            _ => false,
        };
        let failures = status.recent_failures;
        let log = clone_opt(&status.latest_log);
        self.note_status(name, status);
        if running {
            return Ok(());
        }
        if failures >= CRASH_LOOP_FAILURES {
            return Err(
                PrepareAttachError::CrashLoop {
                    name: name.to_owned(),
                    recent_failures: failures,
                    latest_log: log,
                },
            );
        }
        let quoted = debug_text(name);
        Err(PrepareAttachError::Message(cat3("service ", quoted.as_str(), " is not running")))
    }
}

/// What the answer of a runner to a wish for its terminal comes to.
pub fn attach_answered(response: RunnerResponse, shown: &str) -> (r: Result<String, PrepareAttachError>)
    ensures
        match attach_outcome(response, shown@) {
            Ok(t) => r is Ok && r->Ok_0@ == t,
            Err(e) => r is Err && r->Err_0@ == e,
        },
{
    match response {
        RunnerResponse::Attach { token } => Ok(token),
        RunnerResponse::AttachUnavailable { name, recent_failures, latest_log, .. } => Err(
            PrepareAttachError::CrashLoop { name, recent_failures, latest_log },
        ),
        RunnerResponse::Error { message } => Err(PrepareAttachError::Message(message)),
        _ => Err(PrepareAttachError::Message(cat2("unexpected runner attach response: ", shown))),
    }
}

/// What a client hears whose wish for a terminal was refused.
pub fn attach_refusal(error: PrepareAttachError) -> (r: Response)
    ensures
        match error {
            PrepareAttachError::Message(m) => r == (Response::Error { message: m }),
            PrepareAttachError::CrashLoop { name, recent_failures, latest_log } => r == (
            Response::AttachUnavailable {
                name,
                recent_failures,
                window_seconds: FAILURE_WINDOW_SECONDS,
                latest_log,
            }),
        },
{
    match error {
        PrepareAttachError::Message(message) => Response::Error { message },
        PrepareAttachError::CrashLoop { name, recent_failures, latest_log } => {
            Response::AttachUnavailable {
                name,
                recent_failures,
                window_seconds: FAILURE_WINDOW_SECONDS,
                latest_log,
            }
        },
    }
}

/// A request on a service that is not looked after ends at once, with an error.
pub proof fn law_unknown_services_are_refused(t: Table, op: OpView, name: Seq<char>, ask: AskView)
    requires
        find(t.entries, name) is None,
    ensures
        first_step(t, op, name, ask) == ended(Err(not_managed(name))),
{
}

/// A client is sent on to the runner exactly where the service runs and has a process.
pub proof fn law_terminals_of_running_services(t: Table, name: Seq<char>, result: Result<RunnerResponse, String>, shown: Seq<char>)
    ensures
        attach_check(t, name, result, shown).1 is None <==> (result matches Ok(answer) && (
        answer@ matches AnswerView::Status(status) && status.state is Running && status.pid is Some)),
{
}

/// A client gets the terminal where the runner gives one, under the token that it gave; every
/// refusal is passed on, with the reason that the runner had.
pub proof fn law_the_runner_has_the_last_word(response: RunnerResponse, shown: Seq<char>)
    ensures
        attach_outcome(response, shown) is Ok <==> response is Attach,
        response matches RunnerResponse::Attach { token } ==> attach_outcome(response, shown) == Ok::<
            Seq<char>,
            RefusalView,
        >(token@),
        response matches RunnerResponse::Error { message } ==> attach_outcome(response, shown) == Err::<
            Seq<char>,
            RefusalView,
        >(RefusalView::Message(message@)),
        response matches RunnerResponse::AttachUnavailable { name, recent_failures, latest_log, .. } ==> attach_outcome(
            response,
            shown,
        ) == Err::<Seq<char>, RefusalView>(
            RefusalView::CrashLoop { name: name@, recent_failures, latest_log: opt_view(latest_log) },
        ),
{
}

/// A service that does not run is told apart from one that keeps failing: three failures within
/// the last minute are a crash loop, and its log is offered.
pub proof fn law_crash_loops_are_told(name: Seq<char>, status: StatusView)
    requires
        !(status.state is Running && status.pid is Some),
    ensures
        no_terminal(name, status) is Some,
        status.recent_failures >= 3 <==> (no_terminal(name, status)->0 matches RefusalView::CrashLoop {
            name: n,
            recent_failures,
            latest_log,
        } && n == name && recent_failures == status.recent_failures && latest_log == status.latest_log),
        status.recent_failures < 3 <==> no_terminal(name, status)->0 is Message,
{
}

} // verus!
