//! What the manager does for a request. A job alternates between the manager, which decides, and
//! the world, which answers: a runner is opened or asked, a definition is read, a file is removed.
use crate::config::{LoadedService, LoadedView};
use crate::logs::store::{record_view, record_views, RecordView};
use crate::manager::table::{find, forgotten, kept, lost, not_managed, noted, target_refusal, unmanaged, validate_target_name, ManagerState, Table};
use crate::manager::watcher::RunnerUpdate;
use crate::paths::{join, joined};
use crate::protocol::{HistoryRecord, Response, ServiceKind};
use crate::runner_protocol::{launch_of, runner_record, runner_records, AnswerView, LaunchSpec, LaunchView, RunnerHistoryRecord, RunnerRequest, RunnerResponse, RunnerServiceState, RunnerStatus, StatusView};
use crate::text::{cat2, cat4, cat5, debug_form, debug_text, same};
use vstd::prelude::*;
use vstd::string::StringExecFns;

verus! {

/// Why a runner has to be there.
#[derive(Debug)]
pub enum Goal {
    /// A service was enabled; the link is taken back where it cannot be started.
    Enable { link: String },
    /// A temporary service was asked for; nothing stays of it where it cannot be started.
    Temporary,
    /// A runner was lost.
    Recover,
    /// The manager has just come up.
    Restore,
}

pub enum GoalView {
    Enable { link: Seq<char> },
    Temporary,
    Recover,
    Restore,
}

impl View for Goal {
    type V = GoalView;

    open spec fn view(&self) -> GoalView {
        match *self {
            Goal::Enable { link } => GoalView::Enable { link: link@ },
            Goal::Temporary => GoalView::Temporary,
            Goal::Recover => GoalView::Recover,
            Goal::Restore => GoalView::Restore,
        }
    }
}

#[derive(Debug)]
pub enum Op {
    Ensure(Goal),
    Stop,
    Start,
    Restart,
    Disable,
    HistoryList,
    HistoryChunk,
    Resize,
}

pub enum OpView {
    Ensure(GoalView),
    Stop,
    Start,
    Restart,
    Disable,
    HistoryList,
    HistoryChunk,
    Resize,
}

impl View for Op {
    type V = OpView;

    open spec fn view(&self) -> OpView {
        match *self {
            Op::Ensure(g) => OpView::Ensure(g@),
            Op::Stop => OpView::Stop,
            Op::Start => OpView::Start,
            Op::Restart => OpView::Restart,
            Op::Disable => OpView::Disable,
            Op::HistoryList => OpView::HistoryList,
            Op::HistoryChunk => OpView::HistoryChunk,
            Op::Resize => OpView::Resize,
        }
    }
}

/// How far a job has come.
#[derive(Debug, Clone, Copy, PartialEq, Eq, Structural)]
pub enum Phase {
    /// A runner is opened, to see how the service is.
    Open,
    /// The runner is asked how the service is.
    Check,
    /// The definition is read.
    Load,
    /// A runner is opened, to tell it what to do.
    Ready,
    /// The runner is told what to do.
    Send,
    /// The runner is asked what came of it.
    Confirm,
    /// The runner is stopped.
    Stopping,
    /// What is left of the service is removed.
    Removing,
    /// What was done is taken back.
    Undo,
}

#[derive(Debug)]
pub struct Job {
    pub op: Op,
    pub name: String,
    pub kind: ServiceKind,
    pub service: Option<LoadedService>,
    pub socket: String,
    pub phase: Phase,
    pub error: String,
}

#[verifier::ext_equal]
pub struct JobView {
    pub op: OpView,
    pub name: Seq<char>,
    pub kind: ServiceKind,
    pub service: Option<LoadedView>,
    pub socket: Seq<char>,
    pub phase: Phase,
    pub error: Seq<char>,
}

pub open spec fn loaded_opt(s: Option<LoadedService>) -> Option<LoadedView> {
    match s {
        Some(s) => Some(s@),
        None => None,
    }
}

impl View for Job {
    type V = JobView;

    open spec fn view(&self) -> JobView {
        JobView {
            op: self.op@,
            name: self.name@,
            kind: self.kind,
            service: loaded_opt(self.service),
            socket: self.socket@,
            phase: self.phase,
            error: self.error@,
        }
    }
}

/// What a runner is asked.
pub enum AskView {
    Status,
    Configure { spec: LaunchView, log_directory: Seq<char> },
    ConfigureStopped { spec: LaunchView, log_directory: Seq<char> },
    StartService { spec: LaunchView, log_directory: Seq<char> },
    Restart { spec: LaunchView, log_directory: Seq<char> },
    StopService,
    HistoryList,
    HistoryChunk { id: Seq<char>, offset: u64, limit: u32 },
    Resize { token: Seq<char>, cols: u16, rows: u16 },
    Other,
}

pub open spec fn ask_view(r: RunnerRequest) -> AskView {
    match r {
        RunnerRequest::Status => AskView::Status,
        RunnerRequest::Configure { spec, log_directory } => AskView::Configure {
            spec: spec@,
            log_directory: log_directory@,
        },
        RunnerRequest::ConfigureStopped { spec, log_directory } => AskView::ConfigureStopped {
            spec: spec@,
            log_directory: log_directory@,
        },
        RunnerRequest::StartService { spec, log_directory } => AskView::StartService {
            spec: spec@,
            log_directory: log_directory@,
        },
        RunnerRequest::Restart { spec, log_directory } => AskView::Restart {
            spec: spec@,
            log_directory: log_directory@,
        },
        RunnerRequest::StopService => AskView::StopService,
        RunnerRequest::HistoryList => AskView::HistoryList,
        RunnerRequest::HistoryChunk { id, offset, limit } => AskView::HistoryChunk {
            id: id@,
            offset,
            limit,
        },
        RunnerRequest::Resize { token, cols, rows } => AskView::Resize { token: token@, cols, rows },
        _ => AskView::Other,
    }
}

/// What comes next for a job.
#[derive(Debug)]
pub enum Progress {
    /// See to it that there is a runner, and go on with `opened`.
    Open(Job),
    /// Ask the runner at the socket of the job, and go on with `answered`.
    Ask(Job, RunnerRequest),
    /// Read the definition of the service again, and go on with `loaded`.
    Load(Job),
    /// Stop the runner, and go on with `stopped`.
    StopRunner(Job),
    /// Remove the link of an enabled service, or the definition of a temporary one, and go on
    /// with `removed`.
    Remove(Job),
    /// Remove all that is left of a temporary service, and go on with `removed`.
    Cleanup(Job),
    Done {
        result: Result<Response, String>,
        /// A watcher of that number begins for the service at that socket.
        watch: Option<(String, u64)>,
    },
}

pub enum ReplyView {
    Done,
    HistoryList { service: Seq<char>, records: Seq<RecordView> },
    HistoryChunk { service: Seq<char>, chunk: AnswerView },
    Other,
}

pub open spec fn reply_view(r: Response) -> ReplyView {
    match r {
        Response::Done => ReplyView::Done,
        Response::HistoryList { service, records } => ReplyView::HistoryList {
            service: service@,
            records: record_views(records@),
        },
        Response::HistoryChunk {
            service,
            id,
            offset,
            next_offset,
            total,
            total_lines,
            eof,
            content,
        } => ReplyView::HistoryChunk {
            service: service@,
            chunk: AnswerView::HistoryChunk {
                id: id@,
                offset,
                next_offset,
                total,
                total_lines,
                eof,
                content: content@,
            },
        },
        _ => ReplyView::Other,
    }
}

pub enum ProgressView {
    Open(JobView),
    Ask(JobView, AskView),
    Load(JobView),
    StopRunner(JobView),
    Remove(JobView),
    Cleanup(JobView),
    Done { result: Result<ReplyView, Seq<char>>, watch: Option<(Seq<char>, u64)> },
}

pub open spec fn watch_view(w: Option<(String, u64)>) -> Option<(Seq<char>, u64)> {
    match w {
        Some(w) => Some((w.0@, w.1)),
        None => None,
    }
}

impl View for Progress {
    type V = ProgressView;

    open spec fn view(&self) -> ProgressView {
        match *self {
            Progress::Open(j) => ProgressView::Open(j@),
            Progress::Ask(j, r) => ProgressView::Ask(j@, ask_view(r)),
            Progress::Load(j) => ProgressView::Load(j@),
            Progress::StopRunner(j) => ProgressView::StopRunner(j@),
            Progress::Remove(j) => ProgressView::Remove(j@),
            Progress::Cleanup(j) => ProgressView::Cleanup(j@),
            Progress::Done { result, watch } => ProgressView::Done {
                result: match result {
                    Ok(r) => Ok(reply_view(r)),
                    Err(e) => Err(e@),
                },
                watch: watch_view(watch),
            },
        }
    }
}

pub open spec fn ended(result: Result<ReplyView, Seq<char>>) -> ProgressView {
    ProgressView::Done { result, watch: None }
}

/// Where the logs of a service are.
pub open spec fn log_dir(logs: Seq<char>, name: Seq<char>) -> Seq<char> {
    joined(logs, name)
}

pub open spec fn recreate_hint(kind: ServiceKind) -> Seq<char> {
    match kind {
        ServiceKind::Enabled => "enable it again with its original configuration source and working-directory override"@,
        ServiceKind::Temporary => "run it again with its original command, options and environment"@,
    }
}

/// Why an older runner is left alone.
pub open spec fn too_old(name: Seq<char>, kind: ServiceKind, status: StatusView) -> Option<Seq<char>> {
    if status.supports_start_stop {
        None
    } else {
        Some(
            "service "@ + debug_form(name)
                + " uses an older runner without start/stop support; disable it, then "@
                + recreate_hint(kind)
                + ". This stops the service and discards its in-memory history; persistent logs are retained"@,
        )
    }
}

pub fn require_start_stop(name: &str, kind: ServiceKind, status: &RunnerStatus) -> (r: Result<(), String>)
    ensures
        match too_old(name@, kind, status@) {
            None => r is Ok,
            Some(e) => r is Err && r->Err_0@ == e,
        },
{
    if status.supports_start_stop {
        return Ok(());
    }
    let shown = debug_text(name);
    let hint = match kind {
        ServiceKind::Enabled => "enable it again with its original configuration source and working-directory override",
        ServiceKind::Temporary => "run it again with its original command, options and environment",
    };
    Err(
        cat5(
            "service ",
            shown.as_str(),
            " uses an older runner without start/stop support; disable it, then ",
            hint,
            ". This stops the service and discards its in-memory history; persistent logs are retained",
        ),
    )
}

/// A job that cannot go on. What was done for it is taken back first.
pub open spec fn failed(t: Table, job: JobView, error: Seq<char>) -> (Table, ProgressView) {
    match job.op {
        OpView::Ensure(GoalView::Enable { .. }) => (
            t,
            ProgressView::Remove(JobView { phase: Phase::Undo, error, ..job }),
        ),
        OpView::Ensure(GoalView::Temporary) => (
            t,
            ProgressView::Cleanup(JobView { phase: Phase::Undo, error, ..job }),
        ),
        OpView::Ensure(GoalView::Recover) => (
            match find(t.entries, job.name) {
                Some(i) => noted(t, job.name, lost(t.entries[i].status)),
                None => t,
            },
            ended(Err(error)),
        ),
        _ => (t, ended(Err(error))),
    }
}

/// A job that ends with the service being looked after.
pub open spec fn settled(t: Table, job: JobView, service: LoadedView, status: StatusView) -> (
    Table,
    ProgressView,
) {
    (
        kept(t, service, job.kind, job.socket, status),
        ProgressView::Done { result: Ok(ReplyView::Done), watch: Some((job.socket, t.next)) },
    )
}

/// What a runner is told, once the definition of the service is known.
pub open spec fn order(job: JobView, service: LoadedView, logs: Seq<char>) -> ProgressView {
    let spec = launch_of(service);
    let log_directory = log_dir(logs, job.name);
    ProgressView::Ask(
        JobView { phase: Phase::Send, ..job },
        if job.op is Start {
            AskView::StartService { spec, log_directory }
        } else {
            AskView::Restart { spec, log_directory }
        },
    )
}

/// What follows once there is a runner, or none could be had.
pub open spec fn after_open(t: Table, job: JobView, result: Result<String, String>, logs: Seq<char>) -> (
    Table,
    ProgressView,
) {
    match result {
        Err(e) => failed(t, job, e@),
        Ok(socket) => {
            let here = JobView { socket: socket@, ..job };
            if job.phase is Ready {
                match job.service {
                    Some(s) => (t, order(here, s, logs)),
                    None => failed(t, here, not_managed(job.name)),
                }
            } else {
                (t, ProgressView::Ask(JobView { phase: Phase::Check, ..here }, AskView::Status))
            }
        },
    }
}

pub open spec fn is_up(state: RunnerServiceState) -> bool {
    state is Starting || state is Running || state is Restarting
}

/// Goes for the definition: an enabled service is read again, a temporary one is as it was.
pub open spec fn fetch(t: Table, job: JobView) -> ProgressView {
    match job.kind {
        ServiceKind::Enabled => ProgressView::Load(JobView { phase: Phase::Load, ..job }),
        ServiceKind::Temporary => match find(t.entries, job.name) {
            Some(i) => ProgressView::Open(
                JobView {
                    phase: Phase::Ready,
                    service: Some(t.entries[i].definition),
                    ..job
                },
            ),
            None => ended(Err(not_managed(job.name))),
        },
    }
}

/// What follows once it is known how the service is.
pub open spec fn after_check(t: Table, job: JobView, status: StatusView, logs: Seq<char>) -> (
    Table,
    ProgressView,
) {
    let log_directory = log_dir(logs, job.name);
    match job.op {
        OpView::Start => match too_old(job.name, job.kind, status) {
            Some(e) => failed(t, job, e),
            None => if is_up(status.state) {
                (noted(t, job.name, status), ended(Ok(ReplyView::Done)))
            } else {
                (t, fetch(t, job))
            },
        },
        OpView::Stop => match too_old(job.name, job.kind, status) {
            Some(e) => failed(t, job, e),
            None => match job.service {
                None => failed(t, job, not_managed(job.name)),
                Some(s) => (
                    t,
                    ProgressView::Ask(
                        JobView { phase: Phase::Send, ..job },
                        if status.spec is None {
                            AskView::ConfigureStopped { spec: launch_of(s), log_directory }
                        } else {
                            AskView::StopService
                        },
                    ),
                ),
            },
        },
        _ => match job.service {
            None => failed(t, job, not_managed(job.name)),
            Some(s) => if status.manually_stopped {
                settled(t, job, s, status)
            } else {
                let stay = find(t.entries, job.name) is Some && t.entries[find(
                    t.entries,
                    job.name,
                )->0].status.manually_stopped;
                (
                    t,
                    ProgressView::Ask(
                        JobView { phase: Phase::Send, ..job },
                        if stay && status.spec is None {
                            AskView::ConfigureStopped { spec: launch_of(s), log_directory }
                        } else {
                            AskView::Configure { spec: launch_of(s), log_directory }
                        },
                    ),
                )
            },
        },
    }
}

/// What follows an answer to a question that is answered once.
pub open spec fn after_question(t: Table, job: JobView, answer: AnswerView, shown: Seq<char>) -> ProgressView {
    match (job.op, answer) {
        (OpView::HistoryList, AnswerView::HistoryList(records)) => ended(
            Ok(ReplyView::HistoryList { service: job.name, records }),
        ),
        (OpView::HistoryChunk, AnswerView::HistoryChunk { .. }) => ended(
            Ok(ReplyView::HistoryChunk { service: job.name, chunk: answer }),
        ),
        (OpView::Resize, AnswerView::Done) => ended(Ok(ReplyView::Done)),
        (OpView::Resize, _) => ended(Err("unexpected runner resize response: "@ + shown)),
        _ => ended(Err("unexpected runner history response: "@ + shown)),
    }
}

pub open spec fn asks_once(op: OpView) -> bool {
    op is HistoryList || op is HistoryChunk || op is Resize
}

/// What follows an answer of the runner. `shown` is the answer as it is shown.
pub open spec fn after_answer(
    t: Table,
    job: JobView,
    result: Result<RunnerResponse, String>,
    shown: Seq<char>,
    logs: Seq<char>,
) -> (Table, ProgressView) {
    match result {
        Err(e) => failed(t, job, e@),
        Ok(answer) => if asks_once(job.op) {
            (t, after_question(t, job, answer@, shown))
        } else if job.phase is Check {
            match answer@ {
                AnswerView::Status(status) => after_check(t, job, status, logs),
                _ => failed(t, job, "unexpected runner status response: "@ + shown),
            }
        } else if job.phase is Send {
            match answer@ {
                AnswerView::Done => (
                    t,
                    ProgressView::Ask(JobView { phase: Phase::Confirm, ..job }, AskView::Status),
                ),
                _ => failed(t, job, "unexpected runner response: "@ + shown),
            }
        } else {
            match answer@ {
                AnswerView::Status(status) => match job.service {
                    Some(s) => settled(t, job, s, status),
                    None => failed(t, job, not_managed(job.name)),
                },
                _ => failed(t, job, "unexpected runner status response: "@ + shown),
            }
        },
    }
}

/// What follows once the definition was read again.
pub open spec fn after_load(t: Table, job: JobView, result: Result<LoadedService, String>) -> (
    Table,
    ProgressView,
) {
    match result {
        Err(e) => failed(t, job, e@),
        Ok(s) => if s@.config.name != job.name {
            failed(
                t,
                job,
                "start/restart cannot rename enabled service from "@ + debug_form(job.name)
                    + " to "@ + debug_form(s@.config.name) + "; disable it first"@,
            )
        } else {
            (
                t,
                ProgressView::Open(JobView { phase: Phase::Ready, service: Some(s@), ..job }),
            )
        },
    }
}

pub open spec fn after_stop(t: Table, job: JobView, result: Result<(), String>) -> (
    Table,
    ProgressView,
) {
    match result {
        Err(e) => failed(t, job, e@),
        Ok(()) => (t, ProgressView::Remove(JobView { phase: Phase::Removing, ..job })),
    }
}

pub open spec fn after_remove(t: Table, job: JobView, result: Result<(), String>) -> (
    Table,
    ProgressView,
) {
    if job.phase is Undo {
        (
            t,
            match (result, job.op) {
                (Err(e), OpView::Ensure(GoalView::Enable { link })) => ended(
                    Err(
                        job.error + "; rollback failed removing enable link "@ + link + ": "@ + e@,
                    ),
                ),
                _ => ended(Err(job.error)),
            },
        )
    } else {
        match (result, job.kind) {
            (Err(e), ServiceKind::Enabled) => (
                t,
                ended(Err("remove enable link: "@ + e@)),
            ),
            _ => (forgotten(t, job.name), ended(Ok(ReplyView::Done))),
        }
    }
}

/// The table once a watcher of that number has seen that status.
pub open spec fn seen(t: Table, name: Seq<char>, generation: u64, status: StatusView) -> Table {
    match find(t.entries, name) {
        Some(i) => if t.entries[i].generation == generation {
            noted(t, name, status)
        } else {
            t
        },
        None => t,
    }
}

/// The service whose runner is missed, where the watcher of that number is still its watcher.
pub open spec fn missed(t: Table, name: Seq<char>, generation: u64) -> Option<int> {
    match find(t.entries, name) {
        Some(i) => if t.entries[i].generation == generation {
            Some(i)
        } else {
            None
        },
        None => None,
    }
}

/// The first step towards a runner for a service.
pub open spec fn ensured(t: Table, service: LoadedView, kind: ServiceKind, goal: GoalView) -> (
    Table,
    ProgressView,
) {
    let name = service.config.name;
    let job = JobView {
        op: OpView::Ensure(goal),
        name,
        kind,
        service: Some(service),
        socket: Seq::empty(),
        phase: Phase::Open,
        error: Seq::empty(),
    };
    match target_refusal(name) {
        None => (t, ProgressView::Open(job)),
        Some(e) => failed(t, job, e),
    }
}

fn finish(result: Result<Response, String>) -> (r: Progress)
    ensures
        r@ == ended(
            match result {
                Ok(a) => Ok(reply_view(a)),
                Err(e) => Err(e@),
            },
        ),
{
    Progress::Done { result, watch: None }
}

impl ManagerState {
    pub open spec fn logs(&self) -> Seq<char> {
        joined(joined(self.paths.state_home@, "served"@), "logs"@)
    }

    fn log_directory(&self, name: &str) -> (r: String)
        ensures
            r@ == log_dir(self.logs(), name@),
    {
        let logs = self.paths.logs_dir();
        join(logs.as_str(), name)
    }

    fn fail(&mut self, job: Job, error: String) -> (r: Progress)
        requires
            old(self).wf(),
        ensures
            final(self).wf(),
            final(self).same_ground(*old(self)),
            (final(self).table(), r@) == failed(old(self).table(), job@, error@),
    {
        let mut job = job;
        match &job.op {
            Op::Ensure(Goal::Enable { .. }) => {
                job.phase = Phase::Undo;
                job.error = error;
                return Progress::Remove(job);
            },
            Op::Ensure(Goal::Temporary) => {
                job.phase = Phase::Undo;
                job.error = error;
                return Progress::Cleanup(job);
            },
            Op::Ensure(Goal::Recover) => {
                self.mark_failed(job.name.as_str());
            },
            _ => {},
        }
        finish(Err(error))
    }

    fn settle(&mut self, job: Job, service: LoadedService, status: RunnerStatus) -> (r: Progress)
        requires
            old(self).wf(),
        ensures
            final(self).wf(),
            final(self).same_ground(*old(self)),
            (final(self).table(), r@) == settled(old(self).table(), job@, service@, status@),
    {
        let socket = job.socket.clone();
        let generation = self.track_service(service, job.kind, job.socket, status);
        Progress::Done { result: Ok(Response::Done), watch: Some((socket, generation)) }
    }

    /// Goes on once there is a runner, or none could be had.
    pub fn opened(&mut self, job: Job, result: Result<String, String>) -> (r: Progress)
        requires
            old(self).wf(),
        ensures
            final(self).wf(),
            final(self).same_ground(*old(self)),
            (final(self).table(), r@) == after_open(
                old(self).table(),
                job@,
                result,
                old(self).logs(),
            ),
    {
        let mut job = job;
        match result {
            Err(e) => self.fail(job, e),
            Ok(socket) => {
                job.socket = socket;
                let ready = match job.phase {
                    Phase::Ready => true,
                    _ => false,
                };
                if !ready {
                    job.phase = Phase::Check;
                    return Progress::Ask(job, RunnerRequest::Status);
                }
                let spec = match &job.service {
                    Some(service) => LaunchSpec::from_loaded(service),
                    None => {
                        let text = unmanaged(job.name.as_str());
                        return self.fail(job, text);
                    },
                };
                let log_directory = self.log_directory(job.name.as_str());
                let start = match &job.op {
                    Op::Start => true,
                    _ => false,
                };
                job.phase = Phase::Send;
                if start {
                    Progress::Ask(job, RunnerRequest::StartService { spec, log_directory })
                } else {
                    Progress::Ask(job, RunnerRequest::Restart { spec, log_directory })
                }
            },
        }
    }

    pub(crate) fn fetch_definition(&self, job: Job) -> (r: Progress)
        ensures
            r@ == fetch(self.table(), job@),
    {
        let mut job = job;
        match job.kind {
            ServiceKind::Enabled => {
                job.phase = Phase::Load;
                Progress::Load(job)
            },
            ServiceKind::Temporary => match self.position(job.name.as_str()) {
                Some(i) => {
                    job.phase = Phase::Ready;
                    job.service = Some(self.services[i].definition.clone());
                    Progress::Open(job)
                },
                None => finish(Err(unmanaged(job.name.as_str()))),
            },
        }
    }

    fn checked(&mut self, job: Job, status: RunnerStatus) -> (r: Progress)
        requires
            old(self).wf(),
        ensures
            final(self).wf(),
            final(self).same_ground(*old(self)),
            (final(self).table(), r@) == after_check(
                old(self).table(),
                job@,
                status@,
                old(self).logs(),
            ),
    {
        let mut job = job;
        let (start, stop) = match &job.op {
            Op::Start => (true, false),
            Op::Stop => (false, true),
            _ => (false, false),
        };
        if start || stop {
            match require_start_stop(job.name.as_str(), job.kind, &status) {
                Ok(()) => {},
                Err(e) => {
                    return self.fail(job, e);
                },
            }
        }
        if start {
            let up = match status.state {
                RunnerServiceState::Starting | RunnerServiceState::Running
                | RunnerServiceState::Restarting => true,
                _ => false,
            };
            if up {
                self.note_status(job.name.as_str(), status);
                return finish(Ok(Response::Done));
            }
            return self.fetch_definition(job);
        }
        let service = match &job.service {
            Some(service) => service.clone(),
            None => {
                let text = unmanaged(job.name.as_str());
                return self.fail(job, text);
            },
        };
        if !stop && status.manually_stopped {
            return self.settle(job, service, status);
        }
        let log_directory = self.log_directory(job.name.as_str());
        let spec = LaunchSpec::from_loaded(&service);
        job.phase = Phase::Send;
        if stop {
            return if status.spec.is_none() {
                Progress::Ask(job, RunnerRequest::ConfigureStopped { spec, log_directory })
            } else {
                Progress::Ask(job, RunnerRequest::StopService)
            };
        }
        let stay = match self.position(job.name.as_str()) {
            Some(i) => self.services[i].status.manually_stopped,
            None => false,
        };
        if stay && status.spec.is_none() {
            Progress::Ask(job, RunnerRequest::ConfigureStopped { spec, log_directory })
        } else {
            Progress::Ask(job, RunnerRequest::Configure { spec, log_directory })
        }
    }

    /// Goes on with an answer of the runner. `shown` is the answer as it is shown.
    pub fn answered(&mut self, job: Job, result: Result<RunnerResponse, String>, shown: &str) -> (r: Progress)
        requires
            old(self).wf(),
        ensures
            final(self).wf(),
            final(self).same_ground(*old(self)),
            (final(self).table(), r@) == after_answer(
                old(self).table(),
                job@,
                result,
                shown@,
                old(self).logs(),
            ),
    {
        let mut job = job;
        let answer = match result {
            Ok(answer) => answer,
            Err(e) => {
                return self.fail(job, e);
            },
        };
        match &job.op {
            Op::HistoryList | Op::HistoryChunk | Op::Resize => {
                return question_answered(job, answer, shown);
            },
            _ => {},
        }
        match job.phase {
            Phase::Send => match answer {
                RunnerResponse::Done => {
                    job.phase = Phase::Confirm;
                    Progress::Ask(job, RunnerRequest::Status)
                },
                _ => self.fail(job, cat2("unexpected runner response: ", shown)),
            },
            Phase::Check => match answer {
                RunnerResponse::Status { status } => self.checked(job, status),
                _ => self.fail(job, cat2("unexpected runner status response: ", shown)),
            },
            _ => match answer {
                RunnerResponse::Status { status } => {
                    let service = match &job.service {
                        Some(service) => service.clone(),
                        None => {
                            let text = unmanaged(job.name.as_str());
                            return self.fail(job, text);
                        },
                    };
                    self.settle(job, service, status)
                },
                _ => self.fail(job, cat2("unexpected runner status response: ", shown)),
            },
        }
    }

    /// Goes on once the definition was read again.
    pub fn loaded(&mut self, job: Job, result: Result<LoadedService, String>) -> (r: Progress)
        requires
            old(self).wf(),
        ensures
            final(self).wf(),
            final(self).same_ground(*old(self)),
            (final(self).table(), r@) == after_load(old(self).table(), job@, result),
    {
        let mut job = job;
        match result {
            Err(e) => self.fail(job, e),
            Ok(service) => {
                if !same(service.config.name.as_str(), job.name.as_str()) {
                    let a = debug_text(job.name.as_str());
                    let b = debug_text(service.config.name.as_str());
                    let text = cat5(
                        "start/restart cannot rename enabled service from ",
                        a.as_str(),
                        " to ",
                        b.as_str(),
                        "; disable it first",
                    );
                    return self.fail(job, text);
                }
                job.phase = Phase::Ready;
                job.service = Some(service);
                Progress::Open(job)
            },
        }
    }

    /// Goes on once the runner was stopped.
    pub fn stopped(&mut self, job: Job, result: Result<(), String>) -> (r: Progress)
        requires
            old(self).wf(),
        ensures
            final(self).wf(),
            final(self).same_ground(*old(self)),
            (final(self).table(), r@) == after_stop(old(self).table(), job@, result),
    {
        let mut job = job;
        match result {
            Err(e) => self.fail(job, e),
            Ok(()) => {
                job.phase = Phase::Removing;
                Progress::Remove(job)
            },
        }
    }

    /// Goes on once what was left of a service was removed.
    pub fn removed(&mut self, job: Job, result: Result<(), String>) -> (r: Progress)
        requires
            old(self).wf(),
        ensures
            final(self).wf(),
            final(self).same_ground(*old(self)),
            (final(self).table(), r@) == after_remove(old(self).table(), job@, result),
    {
        match job.phase {
            Phase::Undo => {
                match result {
                    Err(e) => match &job.op {
                        Op::Ensure(Goal::Enable { link }) => {
                            let mut text = cat4(
                                job.error.as_str(),
                                "; rollback failed removing enable link ",
                                link.as_str(),
                                ": ",
                            );
                            text.append(e.as_str());
                            return finish(Err(text));
                        },
                        _ => {},
                    },
                    Ok(()) => {},
                }
                finish(Err(job.error))
            },
            _ => {
                match result {
                    Err(e) => match job.kind {
                        ServiceKind::Enabled => {
                            return finish(Err(cat2("remove enable link: ", e.as_str())));
                        },
                        ServiceKind::Temporary => {},
                    },
                    Ok(()) => {},
                }
                self.forget_service(job.name.as_str());
                finish(Ok(Response::Done))
            },
        }
    }

    /// A runner is to be there for a service.
    pub fn ensure_service(&mut self, service: LoadedService, kind: ServiceKind, goal: Goal) -> (r: Progress)
        requires
            old(self).wf(),
        ensures
            final(self).wf(),
            final(self).same_ground(*old(self)),
            (final(self).table(), r@) == ensured(old(self).table(), service@, kind, goal@),
    {
        let name = service.config.name.clone();
        let refusal = validate_target_name(name.as_str());
        let job = Job {
            op: Op::Ensure(goal),
            name,
            kind,
            service: Some(service),
            socket: String::new(),
            phase: Phase::Open,
            error: String::new(),
        };
        assert(job@.socket =~= Seq::<char>::empty());
        assert(job@.error =~= Seq::<char>::empty());
        match refusal {
            Ok(()) => Progress::Open(job),
            Err(e) => self.fail(job, e),
        }
    }

    /// Takes in what a watcher saw. A lost runner is put in place again.
    pub fn handle_runner_update(&mut self, update: RunnerUpdate) -> (r: Option<Progress>)
        requires
            old(self).wf(),
        ensures
            final(self).wf(),
            final(self).same_ground(*old(self)),
            match update {
                RunnerUpdate::Status { name, generation, status } => r is None && final(self).table()
                    == seen(old(self).table(), name@, generation, status@),
                RunnerUpdate::Unavailable { name, generation, .. } => match missed(
                    old(self).table(),
                    name@,
                    generation,
                ) {
                    None => r is None && final(self).table() == old(self).table(),
                    Some(i) => {
                        let e = old(self).table().entries[i];
                        r is Some && (final(self).table(), r->0@) == ensured(
                            old(self).table(),
                            e.definition,
                            e.kind,
                            GoalView::Recover,
                        )
                    },
                },
            },
    {
        match update {
            RunnerUpdate::Status { name, generation, status } => {
                self.runner_status(name.as_str(), generation, status);
                None
            },
            RunnerUpdate::Unavailable { name, generation, .. } => match self.runner_unavailable(
                name.as_str(),
                generation,
            ) {
                None => None,
                Some((definition, kind)) => Some(
                    self.ensure_service(definition, kind, Goal::Recover),
                ),
            },
        }
    }
}

/// What follows an answer to a question that is answered once.
fn question_answered(job: Job, answer: RunnerResponse, shown: &str) -> (r: Progress)
    requires
        asks_once(job@.op),
    ensures
        forall|t: Table| r@ == #[trigger] after_question(t, job@, answer@, shown@),
{
    match job.op {
        Op::HistoryList => match answer {
            RunnerResponse::HistoryList { records } => {
                let records = public_records(&records);
                finish(Ok(Response::HistoryList { service: job.name, records }))
            },
            _ => finish(Err(cat2("unexpected runner history response: ", shown))),
        },
        Op::HistoryChunk => match answer {
            RunnerResponse::HistoryChunk {
                id,
                offset,
                next_offset,
                total,
                total_lines,
                eof,
                content,
            } => finish(
                Ok(
                    Response::HistoryChunk {
                        service: job.name,
                        id,
                        offset,
                        next_offset,
                        total,
                        total_lines,
                        eof,
                        content,
                    },
                ),
            ),
            _ => finish(Err(cat2("unexpected runner history response: ", shown))),
        },
        _ => match answer {
            RunnerResponse::Done => finish(Ok(Response::Done)),
            _ => finish(Err(cat2("unexpected runner resize response: ", shown))),
        },
    }
}

fn public_records(records: &Vec<RunnerHistoryRecord>) -> (r: Vec<HistoryRecord>)
    ensures
        record_views(r@) == runner_records(records@),
{
    let mut out: Vec<HistoryRecord> = Vec::new();
    let mut i: usize = 0;
    assert(record_views(out@) =~= runner_records(records@).take(0));
    while i < records.len()
        invariant
            i <= records@.len(),
            record_views(out@) == runner_records(records@).take(i as int),
        decreases records@.len() - i,
    {
        let ghost before = out@;
        let r = HistoryRecord {
            id: records[i].id.clone(),
            bytes: records[i].bytes,
            current: records[i].current,
            persisted: records[i].persisted,
        };
        out.push(r);
        proof {
            assert(record_views(out@) =~= record_views(before).push(record_view(r)));
            assert(runner_records(records@).take(i + 1) =~= runner_records(records@).take(
                i as int,
            ).push(runner_record(records@[i as int])));
        }
        i += 1;
    }
    assert(runner_records(records@).take(i as int) =~= runner_records(records@));
    out
}

/// An older runner is never told anything that would change its service: once it has said how it
/// is, the job ends and what is known of the service stays as it was.
pub proof fn law_older_runners_are_left_alone(t: Table, job: JobView, status: StatusView, logs: Seq<char>)
    requires
        !status.supports_start_stop,
        job.op is Start || job.op is Stop,
    ensures
        after_check(t, job, status, logs).0 == t,
        after_check(t, job, status, logs).1 matches ProgressView::Done { result, .. } && result is Err,
{
}

/// Starting a service that is up does not read its definition and tells its runner nothing.
pub proof fn law_starting_leaves_what_is_up(t: Table, job: JobView, status: StatusView, logs: Seq<char>)
    requires
        job.op is Start,
        status.supports_start_stop,
        is_up(status.state),
    ensures
        after_check(t, job, status, logs).1 == ended(Ok(ReplyView::Done)),
{
}

/// A service that was stopped by hand stays stopped, whether its runner says so or only the
/// manager knows it: it is not told to run.
pub proof fn law_manual_stop_survives(t: Table, job: JobView, status: StatusView, logs: Seq<char>)
    requires
        job.op is Ensure,
        job.service is Some,
        status.manually_stopped || (status.spec is None && find(t.entries, job.name) is Some
            && t.entries[find(t.entries, job.name)->0].status.manually_stopped),
    ensures
        after_check(t, job, status, logs).1 matches ProgressView::Ask(_, ask) ==> ask is ConfigureStopped,
{
}

/// What a watcher says that was replaced, or whose service is gone, changes nothing.
pub proof fn law_replaced_watchers_are_not_heard(t: Table, name: Seq<char>, generation: u64, status: StatusView)
    requires
        find(t.entries, name) matches Some(i) ==> t.entries[i].generation != generation,
    ensures
        seen(t, name, generation, status) == t,
        missed(t, name, generation) is None,
{
}

/// A definition that cannot be read, or that names another service, leaves the service as it is:
/// its runner is not even opened.
pub proof fn law_bad_definitions_change_nothing(t: Table, job: JobView, result: Result<LoadedService, String>)
    requires
        job.op is Start || job.op is Restart,
        result is Err || result->Ok_0@.config.name != job.name,
    ensures
        after_load(t, job, result).0 == t,
        after_load(t, job, result).1 matches ProgressView::Done { result: r, .. } && r is Err,
{
}

/// The job that goes on, where one does.
pub open spec fn next_job(p: ProgressView) -> Option<JobView> {
    match p {
        ProgressView::Open(j) => Some(j),
        ProgressView::Ask(j, _) => Some(j),
        ProgressView::Load(j) => Some(j),
        ProgressView::StopRunner(j) => Some(j),
        ProgressView::Remove(j) => Some(j),
        ProgressView::Cleanup(j) => Some(j),
        ProgressView::Done { .. } => None,
    }
}

pub open spec fn rank(phase: Phase) -> int {
    match phase {
        Phase::Open => 0,
        Phase::Check => 1,
        Phase::Load => 2,
        Phase::Ready => 3,
        Phase::Send => 4,
        Phase::Confirm => 5,
        Phase::Stopping => 6,
        Phase::Removing => 7,
        Phase::Undo => 8,
    }
}

/// The job has ended, or is further on than it was.
pub open spec fn further(job: JobView, p: ProgressView) -> bool {
    next_job(p) matches Some(n) ==> rank(n.phase) > rank(job.phase)
}

/// Whatever the world answers, a job comes to its end: every answer to what it waited for ends it
/// or brings it further.
pub proof fn law_jobs_come_to_an_end(
    t: Table,
    job: JobView,
    runner: Result<String, String>,
    answer: Result<RunnerResponse, String>,
    definition: Result<LoadedService, String>,
    done: Result<(), String>,
    shown: Seq<char>,
    logs: Seq<char>,
)
    ensures
        job.phase is Open || job.phase is Ready ==> further(
            job,
            after_open(t, job, runner, logs).1,
        ),
        job.phase is Check || job.phase is Send || job.phase is Confirm ==> further(
            job,
            after_answer(t, job, answer, shown, logs).1,
        ),
        job.phase is Load ==> further(job, after_load(t, job, definition).1),
        job.phase is Stopping ==> further(job, after_stop(t, job, done).1),
        job.phase is Removing || job.phase is Undo ==> after_remove(t, job, done).1 is Done,
{
}

/// A service that could not be enabled or run leaves the others alone, and what was written down
/// for it is taken back before the failure is told.
pub proof fn law_failures_are_taken_back(t: Table, job: JobView, error: Seq<char>, undone: Result<(), String>)
    requires
        job.op matches OpView::Ensure(goal) && (goal is Enable || goal is Temporary),
    ensures
        failed(t, job, error).0 == t,
        next_job(failed(t, job, error).1) matches Some(n) && after_remove(t, n, undone).0 == t && (
        after_remove(t, n, undone).1 matches ProgressView::Done { result, .. } && result is Err),
{
}

/// A service stays managed where its link could not be removed, and is forgotten where it was.
pub proof fn law_disabling_is_all_or_nothing(t: Table, job: JobView, removed: Result<(), String>)
    requires
        job.phase is Removing,
        job.kind is Enabled,
    ensures
        removed is Err ==> after_remove(t, job, removed).0 == t,
        removed is Ok ==> after_remove(t, job, removed).0 == forgotten(t, job.name),
{
}

} // verus!
