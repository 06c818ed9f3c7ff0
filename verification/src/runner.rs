//! A runner: it owns one service, its output and its failures, and answers the manager.
use crate::config::{policy_text, restarts, LoadedService, LoadedView, RestartPolicy};
use crate::logs::display::{clean_from, empty_counter, last_n, lossy_text, OUTPUT_TAIL_CHARS};
use crate::logs::store::{at_least_one, bounded, record_view, record_views, ChunkSource, DiskFile, LogChunk, LogStore, RecordView, LATEST_FILE};
use crate::paths::joined;
use crate::runner_protocol::{launch_opt, runner_record, runner_records, AnswerView, LaunchSpec, LaunchView, RunnerHistoryRecord, RunnerMetadata, RunnerRequest, RunnerResponse, RunnerServiceState, RunnerStatus, StatusView};
use crate::text::{cat2, cat3, cat4, debug_form, debug_text, opt_view, same};
use crate::worker::WorkerEvent;
use vstd::prelude::*;

pub mod laws;
pub mod server;

verus! {

/// Failures count for a minute.
pub const CRASH_WINDOW_MILLIS: u64 = 60_000;

pub const CRASH_WINDOW_SECONDS: u64 = 60;

/// So many recent failures are a crash loop.
pub const CRASH_THRESHOLD: usize = 3;

/// The times of failures, the oldest first.
#[derive(Debug)]
pub struct FailureTracker {
    pub failures: Vec<u64>,
}

/// Whether a failure no longer counts.
pub open spec fn expired(failure: u64, now: u64) -> bool {
    now >= failure && now - failure >= CRASH_WINDOW_MILLIS
}

/// The failures without those in front that no longer count.
pub open spec fn pruned(failures: Seq<u64>, now: u64) -> Seq<u64>
    decreases failures.len(),
{
    if failures.len() > 0 && expired(failures[0], now) {
        pruned(failures.drop_first(), now)
    } else {
        failures
    }
}

pub open spec fn in_order(times: Seq<u64>) -> bool {
    forall|i: int, j: int| 0 <= i <= j < times.len() ==> times[i] <= times[j]
}

impl FailureTracker {
    pub fn new() -> (r: Self)
        ensures
            r.failures@.len() == 0,
    {
        FailureTracker { failures: Vec::new() }
    }

    pub fn record(&mut self, now: u64)
        ensures
            final(self).failures@ == pruned(old(self).failures@, now).push(now),
    {
        self.prune(now);
        self.failures.push(now);
    }

    pub fn recent_count(&mut self, now: u64) -> (r: usize)
        ensures
            final(self).failures@ == pruned(old(self).failures@, now),
            r == pruned(old(self).failures@, now).len(),
    {
        self.prune(now);
        self.failures.len()
    }

    fn prune(&mut self, now: u64)
        ensures
            final(self).failures@ == pruned(old(self).failures@, now),
    {
        let ghost all = self.failures@;
        let mut n: usize = 0;
        assert(all.skip(0) =~= all);
        while n < self.failures.len() && now.saturating_sub(self.failures[n]) >= CRASH_WINDOW_MILLIS
            invariant
                n <= self.failures@.len(),
                self.failures@ == all,
                pruned(all, now) == pruned(all.skip(n as int), now),
            decreases self.failures@.len() - n,
        {
            assert(all.skip(n as int).drop_first() =~= all.skip(n + 1));
            n += 1;
        }
        let kept = self.failures.split_off(n);
        assert(kept@ =~= all.skip(n as int));
        self.failures = kept;
    }
}

/// Where time has not run backwards, exactly the failures of the last minute are counted: those
/// that are kept all count, and every one that still counts is kept.
pub proof fn law_only_recent_failures_count(failures: Seq<u64>, now: u64)
    requires
        in_order(failures),
    ensures
        forall|i: int| 0 <= i < pruned(failures, now).len() ==> !expired(#[trigger] pruned(failures, now)[i], now),
        forall|i: int|
            0 <= i < failures.len() && !expired(#[trigger] failures[i], now) ==> pruned(
                failures,
                now,
            ).contains(failures[i]),
    decreases failures.len(),
{
    if failures.len() > 0 && expired(failures[0], now) {
        let rest = failures.drop_first();
        law_only_recent_failures_count(rest, now);
        assert(pruned(failures, now) == pruned(rest, now));
        assert forall|i: int| 0 <= i < failures.len() && !expired(#[trigger] failures[i], now) implies pruned(
            failures,
            now,
        ).contains(failures[i]) by {
            assert(rest[i - 1] == failures[i]);
        }
    } else {
        assert forall|i: int| 0 <= i < failures.len() implies !expired(#[trigger] failures[i], now) by {
            assert(failures[0] <= failures[i]);
        }
        assert(pruned(failures, now) == failures);
        assert forall|i: int| 0 <= i < failures.len() && !expired(#[trigger] failures[i], now) implies pruned(
            failures,
            now,
        ).contains(failures[i]) by {
            assert(pruned(failures, now)[i] == failures[i]);
        }
    }
}

/// What is to be done once the worker has ended.
#[derive(Debug)]
pub enum Pending {
    Restart { spec: LaunchSpec, log_directory: String },
    StopService,
    Stop,
}

/// What becomes of the file that says who the runner is.
#[derive(Debug, Clone, Copy, PartialEq, Eq, Structural)]
pub enum Metadata {
    Keep,
    Write,
    Remove,
}

/// What a request leads to.
#[derive(Debug)]
pub enum RunnerStep {
    Reply { answer: Result<RunnerResponse, String>, metadata: Metadata },
    /// Start a worker, and then answer that it is done.
    Spawn(LoadedService),
    /// Stop the worker and wait for it.
    Finish(Pending),
    /// Look at the log directory, and then answer with the list of records.
    ListFiles,
    /// Read a file of the log directory, and then answer with a part of it.
    ReadFile { id: String, offset: u64, file: String, lines: Option<u64>, limit: u32 },
    /// Tell the worker the size, and then answer what came of it.
    Resize { cols: u16, rows: u16 },
}

pub enum PendingView {
    Restart { spec: LaunchView, log_directory: Seq<char> },
    StopService,
    Stop,
}

impl View for Pending {
    type V = PendingView;

    open spec fn view(&self) -> PendingView {
        match *self {
            Pending::Restart { spec, log_directory } => PendingView::Restart {
                spec: spec@,
                log_directory: log_directory@,
            },
            Pending::StopService => PendingView::StopService,
            Pending::Stop => PendingView::Stop,
        }
    }
}

pub enum StepView {
    Answer(AnswerView, Metadata),
    Refuse(Seq<char>, Metadata),
    Spawn(LoadedView),
    Finish(PendingView),
    ListFiles,
    ReadFile { id: Seq<char>, offset: u64, file: Seq<char>, lines: Option<u64>, limit: u32 },
    Resize { cols: u16, rows: u16 },
}

impl View for RunnerStep {
    type V = StepView;

    open spec fn view(&self) -> StepView {
        match *self {
            RunnerStep::Reply { answer, metadata } => match answer {
                Ok(a) => StepView::Answer(a@, metadata),
                Err(e) => StepView::Refuse(e@, metadata),
            },
            RunnerStep::Spawn(s) => StepView::Spawn(s@),
            RunnerStep::Finish(p) => StepView::Finish(p@),
            RunnerStep::ListFiles => StepView::ListFiles,
            RunnerStep::ReadFile { id, offset, file, lines, limit } => StepView::ReadFile {
                id: id@,
                offset,
                file: file@,
                lines,
                limit,
            },
            RunnerStep::Resize { cols, rows } => StepView::Resize { cols, rows },
        }
    }
}

#[derive(Debug)]
pub struct RunnerState {
    pub name: String,
    pub spec: Option<LaunchSpec>,
    pub logs: Option<LogStore>,
    /// Whether there is a worker that takes commands.
    pub worker: bool,
    /// Whether a worker has been started whose end has not been seen.
    pub worker_task: bool,
    pub state: RunnerServiceState,
    pub pid: Option<u32>,
    pub pid_start_time: Option<u64>,
    pub attach_active: bool,
    pub attach_token: Option<String>,
    pub failures: FailureTracker,
    pub manually_stopped: bool,
    /// The status that was last told to whoever watches.
    pub published: RunnerStatus,
}

/// All of a runner but its output.
#[verifier::ext_equal]
pub struct RunnerCore {
    pub name: Seq<char>,
    pub spec: Option<LaunchView>,
    pub worker: bool,
    pub task: bool,
    pub state: RunnerServiceState,
    pub pid: Option<u32>,
    pub pid_start_time: Option<u64>,
    pub attach_active: bool,
    pub attach_token: Option<Seq<char>>,
    pub failures: Seq<u64>,
    pub manually_stopped: bool,
}

pub open spec fn loaded_from(spec: LaunchView) -> LoadedView {
    LoadedView {
        directory: spec.directory,
        config_file: None,
        config: spec.config,
        environment: spec.environment,
    }
}

pub open spec fn up(state: RunnerServiceState) -> bool {
    state is Starting || state is Running || state is Restarting
}

/// A runner that has just started its service.
pub open spec fn spawned(c: RunnerCore) -> RunnerCore {
    RunnerCore {
        state: RunnerServiceState::Starting,
        pid: None,
        pid_start_time: None,
        attach_active: false,
        attach_token: None,
        manually_stopped: false,
        worker: true,
        task: true,
        ..c
    }
}

/// A runner whose service has been stopped by hand.
pub open spec fn stopped(c: RunnerCore) -> RunnerCore {
    RunnerCore {
        manually_stopped: true,
        state: RunnerServiceState::Stopped,
        pid: None,
        pid_start_time: None,
        attach_active: false,
        attach_token: None,
        ..c
    }
}

/// What follows once no worker is left.
pub open spec fn completed(c: RunnerCore, pending: PendingView) -> (RunnerCore, StepView) {
    match pending {
        PendingView::Restart { spec, .. } => (
            spawned(RunnerCore { spec: Some(spec), ..c }),
            StepView::Spawn(loaded_from(spec)),
        ),
        PendingView::StopService => (
            stopped(c),
            StepView::Answer(AnswerView::Done, Metadata::Write),
        ),
        PendingView::Stop => (stopped(c), StepView::Answer(AnswerView::Done, Metadata::Remove)),
    }
}

/// The worker has to end first. Without one, nothing may still be running.
pub open spec fn finishing(c: RunnerCore, pending: PendingView) -> (RunnerCore, StepView) {
    if c.task {
        (c, StepView::Finish(pending))
    } else if c.pid is Some {
        (
            c,
            StepView::Refuse(
                "worker unavailable; cannot confirm service termination"@,
                Metadata::Keep,
            ),
        )
    } else {
        completed(c, pending)
    }
}

/// What follows once the worker was waited for.
pub open spec fn finished(c: RunnerCore, pending: PendingView, result: Result<(), String>, alive: bool) -> (
    RunnerCore,
    StepView,
) {
    match result {
        Err(e) => (RunnerCore { task: alive, ..c }, StepView::Refuse(e@, Metadata::Keep)),
        Ok(()) => completed(RunnerCore { task: false, worker: false, ..c }, pending),
    }
}

pub open spec fn refuse(text: Seq<char>) -> StepView {
    StepView::Refuse(text, Metadata::Keep)
}

pub open spec fn answer(a: AnswerView) -> StepView {
    StepView::Answer(a, Metadata::Keep)
}

pub open spec fn configured(c: RunnerCore, spec: LaunchView, log_directory: Seq<char>) -> (
    RunnerCore,
    StepView,
) {
    if c.manually_stopped || (c.spec == Some(spec) && c.worker) {
        (c, answer(AnswerView::Done))
    } else if c.spec is Some && c.worker {
        finishing(c, PendingView::Restart { spec, log_directory })
    } else {
        (spawned(RunnerCore { spec: Some(spec), ..c }), StepView::Spawn(loaded_from(spec)))
    }
}

/// Whether a size is passed on: only the one client of a terminal that follows it may set it.
pub open spec fn resized(c: RunnerCore, token: Seq<char>, cols: u16, rows: u16) -> StepView {
    if cols == 0 || rows == 0 {
        refuse("resize dimensions must be greater than zero"@)
    } else if c.spec is None {
        refuse("runner is not configured"@)
    } else if !c.spec->0.config.tty || !c.spec->0.config.sync_rows_cols || !c.attach_active
        || c.attach_token != Some(token) {
        answer(AnswerView::Done)
    } else if !c.worker {
        refuse("service worker is no longer available"@)
    } else {
        StepView::Resize { cols, rows }
    }
}

/// What a request makes of a runner, where it does not read the output.
pub open spec fn requested(c: RunnerCore, request: RunnerRequest, status: StatusView, now: u64) -> (
    RunnerCore,
    StepView,
) {
    match request {
        RunnerRequest::Hello { .. } => (
            c,
            refuse("runner handshake must be the first protocol message"@),
        ),
        RunnerRequest::Configure { spec, log_directory } => configured(c, spec@, log_directory@),
        RunnerRequest::Restart { spec, log_directory } => finishing(
            c,
            PendingView::Restart { spec: spec@, log_directory: log_directory@ },
        ),
        RunnerRequest::StopService => finishing(c, PendingView::StopService),
        RunnerRequest::StartService { spec, log_directory } => if up(c.state) {
            (c, answer(AnswerView::Done))
        } else {
            finishing(c, PendingView::Restart { spec: spec@, log_directory: log_directory@ })
        },
        RunnerRequest::ConfigureStopped { spec, .. } => if c.spec is Some {
            (c, refuse("runner is already configured"@))
        } else {
            (
                RunnerCore { spec: Some(spec@), manually_stopped: true, ..c },
                StepView::Answer(AnswerView::Done, Metadata::Write),
            )
        },
        RunnerRequest::Stop => finishing(c, PendingView::Stop),
        RunnerRequest::Status => (
            RunnerCore { failures: pruned(c.failures, now), ..c },
            answer(AnswerView::Status(status)),
        ),
        RunnerRequest::WatchStatus => (
            c,
            refuse("status watch requires its dedicated streaming path"@),
        ),
        RunnerRequest::Attach => (c, refuse("attach requires a raw socket handoff"@)),
        RunnerRequest::Resize { token, cols, rows } => (c, resized(c, token@, cols, rows)),
        RunnerRequest::HistoryList => (c, StepView::ListFiles),
        RunnerRequest::HistoryChunk { .. } => (c, refuse(Seq::empty())),
        RunnerRequest::Ping => (c, answer(AnswerView::Done)),
    }
}

pub open spec fn count32(n: nat) -> u32 {
    if n > u32::MAX { u32::MAX } else { n as u32 }
}

/// The end of the output, cleaned.
pub open spec fn tail_of(logs: Option<LogStore>) -> Seq<char> {
    match logs {
        Some(l) => last_n(lossy_text(clean_from(l.current@, 0)), OUTPUT_TAIL_CHARS as int),
        None => Seq::empty(),
    }
}

/// The file of the current run.
pub open spec fn latest_of(logs: Option<LogStore>) -> Option<Seq<char>> {
    match logs {
        Some(l) => if l.current_started is Some && l.current_persisted {
            Some(joined(l.directory@, LATEST_FILE@))
        } else {
            None
        },
        None => None,
    }
}

pub open spec fn status_of(c: RunnerCore, logs: Option<LogStore>, now: u64, runner_pid: u32) -> StatusView {
    StatusView {
        supports_start_stop: true,
        manually_stopped: c.manually_stopped,
        name: c.name,
        runner_pid,
        state: c.state,
        pid: c.pid,
        pid_start_time: c.pid_start_time,
        tty: c.spec is Some && c.spec->0.config.tty,
        restart: match c.spec {
            Some(s) => policy_text(s.config.restart),
            None => "never"@,
        },
        persist_logs: c.spec is Some && c.spec->0.config.persist_logs,
        attach_active: c.attach_active,
        output_tail: tail_of(logs),
        recent_failures: count32(pruned(c.failures, now).len()),
        window_seconds: CRASH_WINDOW_SECONDS,
        latest_log: latest_of(logs),
        spec: c.spec,
    }
}

/// The output of a run goes on in the same store; the first one gets a store of its own.
pub open spec fn logs_set(before: Option<LogStore>, after: Option<LogStore>, spec: LaunchView, log_directory: Seq<char>) -> bool {
    &&& after is Some
    &&& match before {
        Some(b) => after->0 == (LogStore {
            max_bytes: at_least_one(spec.config.log_max_bytes as int) as u64,
            max_files: at_least_one(spec.config.log_max_files as int) as u32,
            ..b
        }),
        None => logs_fresh(after->0, spec, log_directory),
    }
}

/// A runner that is told what to run gets a store of its own, unless it had a worker that it
/// replaces.
pub open spec fn logs_configured(before: RunnerState, after: Option<LogStore>, spec: LaunchView, log_directory: Seq<char>) -> bool {
    if before.spec is Some && before.worker {
        logs_set(before.logs, after, spec, log_directory)
    } else {
        after is Some && logs_fresh(after->0, spec, log_directory)
    }
}

pub open spec fn logs_fresh(l: LogStore, spec: LaunchView, log_directory: Seq<char>) -> bool {
    &&& l.directory@ == log_directory
    &&& l.max_bytes == at_least_one(spec.config.log_max_bytes as int)
    &&& l.max_files == at_least_one(spec.config.log_max_files as int)
    &&& l.current@.len() == 0
    &&& l.current_started is None
    &&& !l.current_persisted
    &&& !l.segment_open
    &&& l.disk_bytes == 0
    &&& l.line_counter == empty_counter()
    &&& l.memory_archives@.len() == 0
}

/// Why nobody can attach.
#[derive(Debug)]
pub enum AttachError {
    Message(String),
    CrashLoop { name: String, recent_failures: u32, latest_log: Option<String> },
}

pub enum AttachErrorView {
    Message(Seq<char>),
    CrashLoop { name: Seq<char>, recent_failures: u32, latest_log: Option<Seq<char>> },
}

impl View for AttachError {
    type V = AttachErrorView;

    open spec fn view(&self) -> AttachErrorView {
        match *self {
            AttachError::Message(m) => AttachErrorView::Message(m@),
            AttachError::CrashLoop { name, recent_failures, latest_log } => AttachErrorView::CrashLoop {
                name: name@,
                recent_failures,
                latest_log: opt_view(latest_log),
            },
        }
    }
}

/// What a client that wants to attach is told, and what becomes of the runner.
pub open spec fn attaching(c: RunnerCore, latest: Option<Seq<char>>, now: u64, token: Seq<char>) -> (
    RunnerCore,
    Result<(), AttachErrorView>,
) {
    let kept = pruned(c.failures, now);
    if c.spec is None {
        (c, Err(AttachErrorView::Message("runner is not configured"@)))
    } else if !c.worker || !(c.state is Running) {
        (
            RunnerCore { failures: kept, ..c },
            if kept.len() >= CRASH_THRESHOLD {
                Err(
                    AttachErrorView::CrashLoop {
                        name: c.name,
                        recent_failures: count32(kept.len()),
                        latest_log: latest,
                    },
                )
            } else {
                Err(
                    AttachErrorView::Message(
                        "service "@ + debug_form(c.name) + " is not running"@,
                    ),
                )
            },
        )
    } else if c.spec->0.config.tty && c.attach_active {
        (
            c,
            Err(
                AttachErrorView::Message(
                    "service "@ + debug_form(c.name) + " already has an attach client"@,
                ),
            ),
        )
    } else if c.spec->0.config.tty {
        (RunnerCore { attach_active: true, attach_token: Some(token), ..c }, Ok(()))
    } else {
        (c, Ok(()))
    }
}

/// The runner without the client that has that token.
pub open spec fn detached(c: RunnerCore, token: Seq<char>) -> RunnerCore {
    if c.attach_token == Some(token) {
        RunnerCore { attach_active: false, attach_token: None, ..c }
    } else {
        c
    }
}

pub open spec fn down(c: RunnerCore, state: RunnerServiceState) -> RunnerCore {
    RunnerCore {
        state,
        pid: None,
        pid_start_time: None,
        attach_active: false,
        attach_token: None,
        ..c
    }
}

/// What an event makes of a runner.
pub open spec fn evented(c: RunnerCore, event: WorkerEvent, now: u64, started: Option<u64>) -> RunnerCore {
    match event {
        WorkerEvent::Starting { .. } => RunnerCore {
            state: RunnerServiceState::Starting,
            pid: None,
            pid_start_time: None,
            ..c
        },
        WorkerEvent::Started { pid, .. } => RunnerCore {
            state: RunnerServiceState::Running,
            pid: Some(pid),
            pid_start_time: started,
            ..c
        },
        WorkerEvent::Output { .. } => c,
        WorkerEvent::Exited { success, .. } => down(
            RunnerCore {
                failures: if success { c.failures } else { pruned(c.failures, now).push(now) },
                ..c
            },
            if c.spec is Some && restarts(c.spec->0.config.restart, success) {
                RunnerServiceState::Restarting
            } else {
                RunnerServiceState::Stopped
            },
        ),
        WorkerEvent::Restarting { .. } => down(c, RunnerServiceState::Restarting),
        WorkerEvent::Stopped { .. } => down(
            RunnerCore { worker: false, ..c },
            RunnerServiceState::Stopped,
        ),
        WorkerEvent::Failed { .. } => down(
            RunnerCore { failures: pruned(c.failures, now).push(now), ..c },
            RunnerServiceState::Failed,
        ),
        WorkerEvent::AttachChanged { active, .. } => RunnerCore {
            attach_active: active,
            attach_token: if active { c.attach_token } else { None },
            ..c
        },
    }
}

/// What an event asks to be done with the output.
#[derive(Debug)]
pub enum LogStep {
    Nothing,
    /// A run begins.
    Begin { persist_logs: bool },
    /// The output belongs on disk too.
    Write(Vec<u8>),
}

/// What an event does to the output that is kept, and what is to be done about it.
pub open spec fn is_log_outcome(before: Option<LogStore>, event: WorkerEvent, after: Option<LogStore>, step: LogStep) -> bool {
    match event {
        WorkerEvent::Starting { persist_logs, .. } => after == before && step == (if before is Some {
            LogStep::Begin { persist_logs }
        } else {
            LogStep::Nothing
        }),
        WorkerEvent::Output { bytes, .. } => match before {
            None => after is None && step is Nothing,
            Some(logs) => {
                &&& after is Some
                &&& after->0.current@ == last_n(logs.current@ + bytes@, crate::logs::store::MEMORY_LOG_LIMIT as int)
                &&& after->0.memory_archives == logs.memory_archives
                &&& step == (if logs.segment_open {
                    LogStep::Write(bytes)
                } else {
                    LogStep::Nothing
                })
            },
        },
        _ => after == before && step is Nothing,
    }
}

impl RunnerState {
    pub open spec fn inner(&self) -> RunnerCore {
        RunnerCore {
            name: self.name@,
            spec: launch_opt(self.spec),
            worker: self.worker,
            task: self.worker_task,
            state: self.state,
            pid: self.pid,
            pid_start_time: self.pid_start_time,
            attach_active: self.attach_active,
            attach_token: opt_view(self.attach_token),
            failures: self.failures.failures@,
            manually_stopped: self.manually_stopped,
        }
    }

    pub open spec fn wf(&self) -> bool {
        &&& self.logs is Some ==> bounded(self.logs->0)
        &&& self.spec is Some ==> self.logs is Some
    }

    pub fn new(name: String, runner_pid: u32) -> (r: Self)
        ensures
            r.wf(),
            r.logs is None,
            r.inner() == (RunnerCore {
                name: name@,
                spec: None,
                worker: false,
                task: false,
                state: RunnerServiceState::Stopped,
                pid: None,
                pid_start_time: None,
                attach_active: false,
                attach_token: None,
                failures: Seq::empty(),
                manually_stopped: false,
            }),
            r.published@ == status_of(r.inner(), None, 0, runner_pid),
    {
        let published = initial_status(name.as_str(), runner_pid);
        let r = RunnerState {
            name,
            spec: None,
            logs: None,
            worker: false,
            worker_task: false,
            state: RunnerServiceState::Stopped,
            pid: None,
            pid_start_time: None,
            attach_active: false,
            attach_token: None,
            failures: FailureTracker::new(),
            manually_stopped: false,
            published,
        };
        assert(r.failures.failures@ =~= Seq::<u64>::empty());
        r
    }

    fn set_spec(&mut self, spec: LaunchSpec, log_directory: String)
        requires
            old(self).wf(),
        ensures
            final(self).wf(),
            final(self).published == old(self).published,
            final(self).inner() == (RunnerCore { spec: Some(spec@), ..old(self).inner() }),
            logs_set(old(self).logs, final(self).logs, spec@, log_directory@),
    {
        let mut logs: Option<LogStore> = None;
        std::mem::swap(&mut logs, &mut self.logs);
        self.logs = match logs {
            Some(mut logs) => {
                logs.set_limits(spec.config.log_max_bytes, spec.config.log_max_files);
                Some(logs)
            },
            None => Some(
                LogStore::with_limits(
                    log_directory,
                    spec.config.log_max_bytes,
                    spec.config.log_max_files,
                ),
            ),
        };
        self.spec = Some(spec);
    }

    fn spawn(&mut self, spec: LaunchSpec) -> (r: RunnerStep)
        requires
            old(self).wf(),
        ensures
            final(self).wf(),
            final(self).published == old(self).published,
            final(self).logs == old(self).logs,
            final(self).inner() == spawned(old(self).inner()),
            r@ == StepView::Spawn(loaded_from(spec@)),
    {
        self.state = RunnerServiceState::Starting;
        self.pid = None;
        self.pid_start_time = None;
        self.attach_active = false;
        self.attach_token = None;
        self.manually_stopped = false;
        self.worker = true;
        self.worker_task = true;
        RunnerStep::Spawn(spec.into_loaded())
    }

    fn mark_stopped(&mut self)
        requires
            old(self).wf(),
        ensures
            final(self).wf(),
            final(self).published == old(self).published,
            final(self).logs == old(self).logs,
            final(self).inner() == stopped(old(self).inner()),
    {
        self.manually_stopped = true;
        self.state = RunnerServiceState::Stopped;
        self.pid = None;
        self.pid_start_time = None;
        self.attach_active = false;
        self.attach_token = None;
    }

    fn complete(&mut self, pending: Pending) -> (r: RunnerStep)
        requires
            old(self).wf(),
        ensures
            final(self).wf(),
            final(self).published == old(self).published,
            (final(self).inner(), r@) == completed(old(self).inner(), pending@),
            match pending@ {
                PendingView::Restart { spec, log_directory } => logs_set(
                    old(self).logs,
                    final(self).logs,
                    spec,
                    log_directory,
                ),
                _ => final(self).logs == old(self).logs,
            },
    {
        match pending {
            Pending::Restart { spec, log_directory } => {
                let kept = spec.clone();
                self.set_spec(kept, log_directory);
                self.spawn(spec)
            },
            Pending::StopService => {
                self.mark_stopped();
                RunnerStep::Reply { answer: Ok(RunnerResponse::Done), metadata: Metadata::Write }
            },
            Pending::Stop => {
                self.mark_stopped();
                RunnerStep::Reply { answer: Ok(RunnerResponse::Done), metadata: Metadata::Remove }
            },
        }
    }

    fn finish(&mut self, pending: Pending) -> (r: RunnerStep)
        requires
            old(self).wf(),
        ensures
            final(self).wf(),
            final(self).published == old(self).published,
            (final(self).inner(), r@) == finishing(old(self).inner(), pending@),
            !(r@ is Spawn) ==> final(self).logs == old(self).logs,
            r@ is Spawn ==> (pending@ matches PendingView::Restart { spec, log_directory }
                && logs_set(old(self).logs, final(self).logs, spec, log_directory)),
    {
        if self.worker_task {
            return RunnerStep::Finish(pending);
        }
        if self.pid.is_some() {
            return RunnerStep::Reply {
                answer: Err("worker unavailable; cannot confirm service termination".to_owned()),
                metadata: Metadata::Keep,
            };
        }
        self.complete(pending)
    }

    /// Goes on once the worker was waited for. `alive` says whether it still runs where it could
    /// not be stopped.
    pub fn worker_finished(&mut self, pending: Pending, result: Result<(), String>, alive: bool) -> (r: RunnerStep)
        requires
            old(self).wf(),
        ensures
            final(self).wf(),
            final(self).published == old(self).published,
            (final(self).inner(), r@) == finished(old(self).inner(), pending@, result, alive),
            !(r@ is Spawn) ==> final(self).logs == old(self).logs,
            r@ is Spawn ==> (pending@ matches PendingView::Restart { spec, log_directory }
                && logs_set(old(self).logs, final(self).logs, spec, log_directory)),
    {
        match result {
            Err(e) => {
                self.worker_task = alive;
                RunnerStep::Reply { answer: Err(e), metadata: Metadata::Keep }
            },
            Ok(()) => {
                self.worker_task = false;
                self.worker = false;
                self.complete(pending)
            },
        }
    }

    fn configure(&mut self, spec: LaunchSpec, log_directory: String) -> (r: RunnerStep)
        requires
            old(self).wf(),
        ensures
            final(self).wf(),
            final(self).published == old(self).published,
            (final(self).inner(), r@) == configured(old(self).inner(), spec@, log_directory@),
            !(r@ is Spawn) ==> final(self).logs == old(self).logs,
            r@ is Spawn ==> logs_configured(*old(self), final(self).logs, spec@, log_directory@),
    {
        let known = match &self.spec {
            Some(own) => own.same_as(&spec),
            None => false,
        };
        if self.manually_stopped || (known && self.worker) {
            return RunnerStep::Reply { answer: Ok(RunnerResponse::Done), metadata: Metadata::Keep };
        }
        if self.spec.is_some() && self.worker {
            return self.finish(Pending::Restart { spec, log_directory });
        }
        self.logs = Some(
            LogStore::with_limits(
                log_directory,
                spec.config.log_max_bytes,
                spec.config.log_max_files,
            ),
        );
        self.spec = Some(spec.clone());
        self.spawn(spec)
    }

    fn resize(&self, token: &str, cols: u16, rows: u16) -> (r: RunnerStep)
        ensures
            r@ == resized(self.inner(), token@, cols, rows),
    {
        if cols == 0 || rows == 0 {
            return reject("resize dimensions must be greater than zero");
        }
        let (tty, follows) = match &self.spec {
            Some(spec) => (spec.config.tty, spec.config.sync_rows_cols),
            None => {
                return reject("runner is not configured");
            },
        };
        let own = match &self.attach_token {
            Some(t) => same(t.as_str(), token),
            None => false,
        };
        if !tty || !follows || !self.attach_active || !own {
            return RunnerStep::Reply { answer: Ok(RunnerResponse::Done), metadata: Metadata::Keep };
        }
        if !self.worker {
            return reject("service worker is no longer available");
        }
        RunnerStep::Resize { cols, rows }
    }

    /// What a request leads to. `now` is in milliseconds.
    pub fn handle_request(&mut self, request: RunnerRequest, now: u64, runner_pid: u32) -> (r: RunnerStep)
        requires
            old(self).wf(),
        ensures
            final(self).wf(),
            final(self).published == old(self).published,
            match request {
                RunnerRequest::HistoryChunk { id, offset, limit } => {
                    &&& final(self).inner() == old(self).inner()
                    &&& is_chunk_step(r@, old(self).logs, id@, offset, limit)
                },
                RunnerRequest::HistoryList => {
                    &&& final(self).inner() == old(self).inner()
                    &&& r@ == (if old(self).logs is Some {
                        StepView::ListFiles
                    } else {
                        answer(AnswerView::HistoryList(Seq::empty()))
                    })
                },
                _ => (final(self).inner(), r@) == requested(
                    old(self).inner(),
                    request,
                    status_of(old(self).inner(), old(self).logs, now, runner_pid),
                    now,
                ),
            },
            !(r@ is Spawn) && !(request is ConfigureStopped) ==> final(self).logs == old(self).logs,
            r@ is Spawn ==> (match request {
                RunnerRequest::Configure { spec, log_directory } => logs_configured(
                    *old(self),
                    final(self).logs,
                    spec@,
                    log_directory@,
                ),
                RunnerRequest::Restart { spec, log_directory } => logs_set(
                    old(self).logs,
                    final(self).logs,
                    spec@,
                    log_directory@,
                ),
                RunnerRequest::StartService { spec, log_directory } => logs_set(
                    old(self).logs,
                    final(self).logs,
                    spec@,
                    log_directory@,
                ),
                _ => false,
            }),
            request matches RunnerRequest::ConfigureStopped { spec, log_directory } ==> (if old(
                self,
            ).spec is Some {
                final(self).logs == old(self).logs
            } else {
                logs_set(old(self).logs, final(self).logs, spec@, log_directory@)
            }),
    {
        match request {
            RunnerRequest::Hello { .. } => reject(
                "runner handshake must be the first protocol message",
            ),
            RunnerRequest::Configure { spec, log_directory } => self.configure(spec, log_directory),
            RunnerRequest::Restart { spec, log_directory } => self.finish(
                Pending::Restart { spec, log_directory },
            ),
            RunnerRequest::StopService => self.finish(Pending::StopService),
            RunnerRequest::StartService { spec, log_directory } => {
                match self.state {
                    RunnerServiceState::Starting | RunnerServiceState::Running
                    | RunnerServiceState::Restarting => done(),
                    _ => self.finish(Pending::Restart { spec, log_directory }),
                }
            },
            RunnerRequest::ConfigureStopped { spec, log_directory } => {
                if self.spec.is_some() {
                    return reject("runner is already configured");
                }
                self.set_spec(spec, log_directory);
                self.manually_stopped = true;
                RunnerStep::Reply { answer: Ok(RunnerResponse::Done), metadata: Metadata::Write }
            },
            RunnerRequest::Stop => self.finish(Pending::Stop),
            RunnerRequest::Status => {
                let status = self.status(now, runner_pid);
                RunnerStep::Reply {
                    answer: Ok(RunnerResponse::Status { status }),
                    metadata: Metadata::Keep,
                }
            },
            RunnerRequest::WatchStatus => reject(
                "status watch requires its dedicated streaming path",
            ),
            RunnerRequest::Attach => reject("attach requires a raw socket handoff"),
            RunnerRequest::Resize { token, cols, rows } => self.resize(token.as_str(), cols, rows),
            RunnerRequest::HistoryList => {
                if self.logs.is_some() {
                    RunnerStep::ListFiles
                } else {
                    let records: Vec<RunnerHistoryRecord> = Vec::new();
                    assert(runner_records(records@) =~= Seq::<RecordView>::empty());
                    RunnerStep::Reply {
                        answer: Ok(RunnerResponse::HistoryList { records }),
                        metadata: Metadata::Keep,
                    }
                }
            },
            RunnerRequest::HistoryChunk { id, offset, limit } => self.history_chunk(
                id,
                offset,
                limit,
            ),
            RunnerRequest::Ping => done(),
        }
    }

    fn history_chunk(&self, id: String, offset: u64, limit: u32) -> (r: RunnerStep)
        ensures
            is_chunk_step(r@, self.logs, id@, offset, limit),
    {
        match &self.logs {
            None => reject("runner has not been configured"),
            Some(logs) => match logs.read_chunk(id.as_str(), offset, limit) {
                ChunkSource::Memory(chunk) => RunnerStep::Reply {
                    answer: Ok(chunk_response(id, offset, chunk)),
                    metadata: Metadata::Keep,
                },
                ChunkSource::Disk { file, lines, limit } => RunnerStep::ReadFile {
                    id,
                    offset,
                    file,
                    lines,
                    limit,
                },
                ChunkSource::Invalid => {
                    let text = chunk_failure(id.as_str(), "invalid history record id");
                    RunnerStep::Reply { answer: Err(text), metadata: Metadata::Keep }
                },
            },
        }
    }

    /// The list of records, once the files of the log directory are known.
    pub fn history_list(&self, files: &Vec<DiskFile>) -> (r: RunnerResponse)
        ensures
            match self.logs {
                None => r@ == AnswerView::HistoryList(Seq::empty()),
                Some(logs) => r@ matches AnswerView::HistoryList(records) && exists|s: Seq<crate::protocol::HistoryRecord>|
                    {
                        &&& records == #[trigger] record_views(s)
                        &&& crate::logs::store::same_records(
                            record_views(s),
                            logs.spec_records(files@),
                        )
                        &&& forall|i: int, j: int|
                            0 <= i < j < s.len() ==> crate::logs::store::record_order(
                                #[trigger] s[i],
                                #[trigger] s[j],
                            )
                    },
            },
    {
        let mut out: Vec<RunnerHistoryRecord> = Vec::new();
        match &self.logs {
            None => {
                assert(runner_records(out@) =~= Seq::<RecordView>::empty());
            },
            Some(logs) => {
                let records = logs.records(files);
                let mut i: usize = 0;
                assert(runner_records(out@) =~= record_views(records@).take(0));
                while i < records.len()
                    invariant
                        i <= records@.len(),
                        runner_records(out@) == record_views(records@).take(i as int),
                    decreases records@.len() - i,
                {
                    let ghost before = out@;
                    let r = RunnerHistoryRecord {
                        id: records[i].id.clone(),
                        bytes: records[i].bytes,
                        current: records[i].current,
                        persisted: records[i].persisted,
                    };
                    out.push(r);
                    proof {
                        assert(runner_records(out@) =~= runner_records(before).push(
                            runner_record(r),
                        ));
                        assert(record_views(records@).take(i + 1) =~= record_views(records@).take(
                            i as int,
                        ).push(record_view(records@[i as int])));
                    }
                    i += 1;
                }
                assert(record_views(records@).take(i as int) =~= record_views(records@));
            },
        }
        RunnerResponse::HistoryList { records: out }
    }

    /// Whether a client may attach now. `token` is a fresh one for it.
    pub fn prepare_attach(&mut self, token: String, now: u64) -> (r: Result<String, AttachError>)
        requires
            old(self).wf(),
        ensures
            final(self).wf(),
            final(self).published == old(self).published,
            final(self).logs == old(self).logs,
            ({
                let outcome = attaching(old(self).inner(), latest_of(old(self).logs), now, token@);
                &&& final(self).inner() == outcome.0
                &&& match outcome.1 {
                    Ok(()) => r is Ok && r->Ok_0@ == token@,
                    Err(e) => r is Err && r->Err_0@ == e,
                }
            }),
    {
        let tty = match &self.spec {
            Some(spec) => spec.config.tty,
            None => {
                return Err(AttachError::Message("runner is not configured".to_owned()));
            },
        };
        let running = match self.state {
            RunnerServiceState::Running => true,
            _ => false,
        };
        if !self.worker || !running {
            let recent = self.failures.recent_count(now);
            if recent >= CRASH_THRESHOLD {
                let latest_log = match &self.logs {
                    Some(logs) => logs.latest_log_path(),
                    None => None,
                };
                return Err(
                    AttachError::CrashLoop {
                        name: self.name.clone(),
                        recent_failures: to_count(recent),
                        latest_log,
                    },
                );
            }
            let shown = debug_text(self.name.as_str());
            return Err(AttachError::Message(cat3("service ", shown.as_str(), " is not running")));
        }
        if tty && self.attach_active {
            let shown = debug_text(self.name.as_str());
            return Err(
                AttachError::Message(
                    cat3("service ", shown.as_str(), " already has an attach client"),
                ),
            );
        }
        if tty {
            self.attach_active = true;
            self.attach_token = Some(token.clone());
        }
        Ok(token)
    }

    fn reset_attach(&mut self, token: &str)
        requires
            old(self).wf(),
        ensures
            final(self).wf(),
            final(self).published == old(self).published,
            final(self).logs == old(self).logs,
            final(self).inner() == detached(old(self).inner(), token@),
    {
        let own = match &self.attach_token {
            Some(t) => same(t.as_str(), token),
            None => false,
        };
        if own {
            self.attach_active = false;
            self.attach_token = None;
        }
    }

    /// Whether the stream of a client goes to the worker. Without one the client is let go.
    pub fn attach_stream(&mut self, token: &str) -> (r: bool)
        requires
            old(self).wf(),
        ensures
            final(self).wf(),
            final(self).published == old(self).published,
            final(self).logs == old(self).logs,
            r == old(self).worker,
            final(self).inner() == (if r {
                old(self).inner()
            } else {
                detached(old(self).inner(), token@)
            }),
    {
        if self.worker {
            return true;
        }
        self.reset_attach(token);
        false
    }

    /// The worker did not take the stream. Says whether those who watch have something to learn.
    pub fn attach_refused(&mut self, token: &str, now: u64, runner_pid: u32) -> (r: bool)
        requires
            old(self).wf(),
        ensures
            final(self).wf(),
            final(self).logs == old(self).logs,
            ({
                let c = detached(old(self).inner(), token@);
                let status = status_of(c, old(self).logs, now, runner_pid);
                &&& final(self).inner() == (RunnerCore { failures: pruned(c.failures, now), ..c })
                &&& final(self).published@ == status
                &&& r == (status != old(self).published@)
            }),
    {
        self.reset_attach(token);
        self.publish_status(now, runner_pid)
    }

    pub fn status(&mut self, now: u64, runner_pid: u32) -> (r: RunnerStatus)
        requires
            old(self).wf(),
        ensures
            final(self).wf(),
            final(self).published == old(self).published,
            final(self).logs == old(self).logs,
            r@ == status_of(old(self).inner(), old(self).logs, now, runner_pid),
            final(self).inner() == (RunnerCore {
                failures: pruned(old(self).inner().failures, now),
                ..old(self).inner()
            }),
    {
        let (tty, restart, persist_logs, spec) = match &self.spec {
            Some(spec) => (
                spec.config.tty,
                restart_name(spec.config.restart),
                spec.config.persist_logs,
                Some(spec.clone()),
            ),
            None => (false, "never", false, None),
        };
        let (output_tail, latest_log) = match &self.logs {
            Some(logs) => (logs.output_tail(), logs.latest_log_path()),
            None => (String::new(), None),
        };
        let recent = self.failures.recent_count(now);
        let r = RunnerStatus {
            supports_start_stop: true,
            manually_stopped: self.manually_stopped,
            name: self.name.clone(),
            runner_pid,
            state: self.state,
            pid: self.pid,
            pid_start_time: self.pid_start_time,
            tty,
            restart: restart.to_owned(),
            persist_logs,
            attach_active: self.attach_active,
            output_tail,
            recent_failures: to_count(recent),
            window_seconds: CRASH_WINDOW_SECONDS,
            latest_log,
            spec,
        };
        assert(r@.output_tail =~= tail_of(self.logs));
        r
    }

    /// Notes the status. Says whether it differs from the one that was noted before.
    pub fn publish_status(&mut self, now: u64, runner_pid: u32) -> (r: bool)
        requires
            old(self).wf(),
        ensures
            final(self).wf(),
            final(self).logs == old(self).logs,
            final(self).inner() == (RunnerCore {
                failures: pruned(old(self).inner().failures, now),
                ..old(self).inner()
            }),
            final(self).published@ == status_of(old(self).inner(), old(self).logs, now, runner_pid),
            r == (final(self).published@ != old(self).published@),
    {
        let status = self.status(now, runner_pid);
        if self.published.same_as(&status) {
            return false;
        }
        self.published = status;
        true
    }

    /// Takes in what happened to the service. `started` is when the process of a service that has
    /// just been started began. Says what is to be done with the output, and whether the file
    /// that says who the runner is has to be written again.
    pub fn handle_event(&mut self, event: WorkerEvent, now: u64, started: Option<u64>) -> (r: (LogStep, bool))
        requires
            old(self).wf(),
        ensures
            final(self).wf(),
            final(self).published == old(self).published,
            final(self).inner() == evented(old(self).inner(), event, now, started),
            r.1 == !(event is Output || event is AttachChanged),
            match event {
                WorkerEvent::Starting { persist_logs, .. } => final(self).logs == old(self).logs
                    && r.0 == (if old(self).logs is Some {
                    LogStep::Begin { persist_logs }
                } else {
                    LogStep::Nothing
                }),
                WorkerEvent::Output { bytes, .. } => match old(self).logs {
                    None => final(self).logs is None && r.0 is Nothing,
                    Some(logs) => {
                        &&& final(self).logs is Some
                        &&& final(self).logs->0.current@ == last_n(
                            logs.current@ + bytes@,
                            crate::logs::store::MEMORY_LOG_LIMIT as int,
                        )
                        &&& final(self).logs->0.current_started == logs.current_started
                        &&& final(self).logs->0.current_persisted == logs.current_persisted
                        &&& final(self).logs->0.memory_archives == logs.memory_archives
                        &&& final(self).logs->0.directory == logs.directory
                        &&& final(self).logs->0.max_bytes == logs.max_bytes
                        &&& final(self).logs->0.max_files == logs.max_files
                        &&& final(self).logs->0.segment_open == logs.segment_open
                        &&& final(self).logs->0.disk_bytes == logs.disk_bytes
                        &&& final(self).logs->0.line_counter == logs.line_counter
                        &&& r.0 == (if logs.segment_open {
                            LogStep::Write(bytes)
                        } else {
                            LogStep::Nothing
                        })
                    },
                },
                _ => final(self).logs == old(self).logs && r.0 is Nothing,
            },
            is_log_outcome(old(self).logs, event, final(self).logs, r.0),
    {
        match event {
            WorkerEvent::Starting { name: _, persist_logs } => {
                self.state = RunnerServiceState::Starting;
                self.pid = None;
                self.pid_start_time = None;
                let step = if self.logs.is_some() {
                    LogStep::Begin { persist_logs }
                } else {
                    LogStep::Nothing
                };
                (step, true)
            },
            WorkerEvent::Started { name: _, pid, tty: _ } => {
                self.state = RunnerServiceState::Running;
                self.pid = Some(pid);
                self.pid_start_time = started;
                (LogStep::Nothing, true)
            },
            WorkerEvent::Output { name: _, bytes } => {
                let mut logs: Option<LogStore> = None;
                std::mem::swap(&mut logs, &mut self.logs);
                match logs {
                    Some(mut logs) => {
                        let on_disk = logs.append(bytes.as_slice());
                        self.logs = Some(logs);
                        if on_disk {
                            (LogStep::Write(bytes), false)
                        } else {
                            (LogStep::Nothing, false)
                        }
                    },
                    None => (LogStep::Nothing, false),
                }
            },
            WorkerEvent::Exited { name: _, code: _, success } => {
                if !success {
                    self.failures.record(now);
                }
                let again = match &self.spec {
                    Some(spec) => spec.config.restart.should_restart(success),
                    None => false,
                };
                self.go_down(
                    if again {
                        RunnerServiceState::Restarting
                    } else {
                        RunnerServiceState::Stopped
                    },
                );
                (LogStep::Nothing, true)
            },
            WorkerEvent::Restarting { .. } => {
                self.go_down(RunnerServiceState::Restarting);
                (LogStep::Nothing, true)
            },
            WorkerEvent::Stopped { .. } => {
                self.worker = false;
                self.go_down(RunnerServiceState::Stopped);
                (LogStep::Nothing, true)
            },
            WorkerEvent::Failed { .. } => {
                self.failures.record(now);
                self.go_down(RunnerServiceState::Failed);
                (LogStep::Nothing, true)
            },
            WorkerEvent::AttachChanged { name: _, active } => {
                self.attach_active = active;
                if !active {
                    self.attach_token = None;
                }
                (LogStep::Nothing, false)
            },
        }
    }

    fn go_down(&mut self, state: RunnerServiceState)
        requires
            old(self).wf(),
        ensures
            final(self).wf(),
            final(self).published == old(self).published,
            final(self).logs == old(self).logs,
            final(self).inner() == down(old(self).inner(), state),
    {
        self.state = state;
        self.pid = None;
        self.pid_start_time = None;
        self.attach_active = false;
        self.attach_token = None;
    }

    /// What is left on disk about the runner.
    pub fn metadata(&self, runner_pid: u32, runner_start_time: Option<u64>) -> (r: RunnerMetadata)
        ensures
            r.name@ == self.name@,
            r.runner_pid == runner_pid,
            r.runner_start_time == runner_start_time,
            r.service_pid == self.pid,
            r.service_start_time == self.pid_start_time,
    {
        RunnerMetadata {
            name: self.name.clone(),
            runner_pid,
            runner_start_time,
            service_pid: self.pid,
            service_start_time: self.pid_start_time,
        }
    }
}

/// A part of a record: from memory at once, from a file once it has been read.
pub open spec fn is_chunk_step(step: StepView, logs: Option<LogStore>, id: Seq<char>, offset: u64, limit: u32) -> bool {
    match logs {
        None => step == refuse("runner has not been configured"@),
        Some(l) => {
            let wanted = crate::logs::store::chunk_limit(limit);
            let kept = crate::logs::store::ids(l.memory_archives@).contains(id);
            if id == "latest"@ && l.current_started is Some && !l.current_persisted {
                exists|c: LogChunk| #[trigger]
                    crate::logs::store::is_chunk(c, l.current@, offset, wanted as nat) && step == answer(
                        chunk_answer(id, offset, c),
                    )
            } else if id == "latest"@ {
                step == (StepView::ReadFile {
                    id,
                    offset,
                    file: LATEST_FILE@,
                    lines: Some(crate::logs::display::counted(l.line_counter)),
                    limit: wanted,
                })
            } else if kept {
                exists|i: int, c: LogChunk|
                    {
                        &&& 0 <= i < l.memory_archives@.len()
                        &&& (#[trigger] l.memory_archives@[i]).id@ == id
                        &&& forall|j: int| 0 <= j < i ==> (#[trigger] l.memory_archives@[j]).id@ != id
                        &&& #[trigger] crate::logs::store::is_chunk(
                            c,
                            l.memory_archives@[i].bytes@,
                            offset,
                            wanted as nat,
                        )
                        &&& step == answer(chunk_answer(id, offset, c))
                    }
            } else if crate::logs::store::valid_id(id) {
                step == (StepView::ReadFile { id, offset, file: id, lines: None, limit: wanted })
            } else {
                step == refuse(
                    "read history "@ + debug_form(id) + ": "@ + "invalid history record id"@,
                )
            }
        },
    }
}

pub open spec fn chunk_answer(id: Seq<char>, offset: u64, c: LogChunk) -> AnswerView {
    AnswerView::HistoryChunk {
        id,
        offset,
        next_offset: c.next_offset,
        total: c.total,
        total_lines: c.total_lines,
        eof: c.eof,
        content: c.content@,
    }
}

/// A part of a record as it is sent.
pub fn chunk_response(id: String, offset: u64, chunk: LogChunk) -> (r: RunnerResponse)
    ensures
        r@ == chunk_answer(id@, offset, chunk),
{
    RunnerResponse::HistoryChunk {
        id,
        offset,
        next_offset: chunk.next_offset,
        total: chunk.total,
        total_lines: chunk.total_lines,
        eof: chunk.eof,
        content: chunk.content,
    }
}

/// Why a part of a record could not be read.
pub fn chunk_failure(id: &str, error: &str) -> (r: String)
    ensures
        r@ == "read history "@ + debug_form(id@) + ": "@ + error@,
{
    let shown = debug_text(id);
    cat4("read history ", shown.as_str(), ": ", error)
}

fn reject(text: &str) -> (r: RunnerStep)
    ensures
        r@ == refuse(text@),
{
    RunnerStep::Reply { answer: Err(text.to_owned()), metadata: Metadata::Keep }
}

fn done() -> (r: RunnerStep)
    ensures
        r@ == answer(AnswerView::Done),
{
    RunnerStep::Reply { answer: Ok(RunnerResponse::Done), metadata: Metadata::Keep }
}

fn to_count(n: usize) -> (r: u32)
    ensures
        r == count32(n as nat),
{
    if n > 0xffff_ffff { 0xffff_ffff } else { n as u32 }
}

/// The status of a runner that has not been told anything.
pub fn initial_status(name: &str, runner_pid: u32) -> (r: RunnerStatus)
    ensures
        r@ == (StatusView {
            supports_start_stop: true,
            manually_stopped: false,
            name: name@,
            runner_pid,
            state: RunnerServiceState::Stopped,
            pid: None,
            pid_start_time: None,
            tty: false,
            restart: "never"@,
            persist_logs: false,
            attach_active: false,
            output_tail: Seq::empty(),
            recent_failures: 0,
            window_seconds: CRASH_WINDOW_SECONDS,
            latest_log: None,
            spec: None,
        }),
{
    let r = RunnerStatus {
        supports_start_stop: true,
        manually_stopped: false,
        name: name.to_owned(),
        runner_pid,
        state: RunnerServiceState::Stopped,
        pid: None,
        pid_start_time: None,
        tty: false,
        restart: "never".to_owned(),
        persist_logs: false,
        attach_active: false,
        output_tail: String::new(),
        recent_failures: 0,
        window_seconds: CRASH_WINDOW_SECONDS,
        latest_log: None,
        spec: None,
    };
    assert(r@.output_tail =~= Seq::<char>::empty());
    r
}

pub fn restart_name(policy: RestartPolicy) -> (r: &'static str)
    ensures
        r@ == policy_text(policy),
{
    policy.as_str()
}

/// A size that came from the worker's side: what is answered about it.
pub fn resize_outcome(result: Option<Result<(), String>>) -> (r: Result<RunnerResponse, String>)
    ensures
        match result {
            None => r is Err && r->Err_0@ == "service worker stopped during resize"@,
            Some(Ok(())) => r matches Ok(RunnerResponse::Done),
            Some(Err(e)) => r is Err && r->Err_0@ == "cannot resize service PTY: "@ + e@,
        },
{
    match result {
        None => Err("service worker stopped during resize".to_owned()),
        Some(Ok(())) => Ok(RunnerResponse::Done),
        Some(Err(e)) => Err(cat2("cannot resize service PTY: ", e.as_str())),
    }
}

/// What a connection is told about attaching.
pub fn attach_response(result: Result<String, AttachError>) -> (r: RunnerResponse)
    ensures
        match result {
            Ok(token) => r@ == AnswerView::Attach(token@),
            Err(AttachError::Message(m)) => r@ == AnswerView::Error(m@),
            Err(AttachError::CrashLoop { name, recent_failures, latest_log }) => r@ == (
            AnswerView::AttachUnavailable {
                name: name@,
                recent_failures,
                window_seconds: CRASH_WINDOW_SECONDS,
                latest_log: opt_view(latest_log),
            }),
        },
{
    match result {
        Ok(token) => RunnerResponse::Attach { token },
        Err(AttachError::Message(message)) => RunnerResponse::Error { message },
        Err(AttachError::CrashLoop { name, recent_failures, latest_log }) => RunnerResponse::AttachUnavailable {
            name,
            recent_failures,
            window_seconds: CRASH_WINDOW_SECONDS,
            latest_log,
        },
    }
}

/// A stop that failed leaves the runner in charge: it keeps its worker, its process and its
/// state, and does not count as stopped by hand.
pub proof fn law_failed_stop_keeps_control(c: RunnerCore, pending: PendingView, error: String)
    ensures
        finished(c, pending, Err(error), true).0 == (RunnerCore { task: true, ..c }),
{
}

/// A service that was stopped by hand stays stopped: configuring it again does nothing, and only
/// starting or restarting it brings it back.
pub proof fn law_manual_stop_holds(c: RunnerCore, spec: LaunchView, log_directory: Seq<char>)
    requires
        c.manually_stopped,
    ensures
        configured(c, spec, log_directory) == (c, answer(AnswerView::Done)),
{
}

/// Starting a service that is up changes nothing, and stopping it twice is the same as once.
pub proof fn law_start_and_stop_repeat(
    c: RunnerCore,
    spec: LaunchSpec,
    log_directory: String,
    status: StatusView,
    now: u64,
)
    ensures
        up(c.state) ==> requested(
            c,
            RunnerRequest::StartService { spec, log_directory },
            status,
            now,
        ) == (c, answer(AnswerView::Done)),
        stopped(stopped(c)) == stopped(c),
        !c.task ==> finishing(stopped(c), PendingView::StopService).0 == stopped(c),
{
}

/// At most one client is attached to a terminal: while one is, no other gets a token.
pub proof fn law_one_client_per_terminal(c: RunnerCore, latest: Option<Seq<char>>, now: u64, token: Seq<char>)
    requires
        c.spec is Some,
        c.spec->0.config.tty,
        c.attach_active,
    ensures
        attaching(c, latest, now, token).1 is Err,
        attaching(c, latest, now, token).0.attach_token == c.attach_token,
{
}

} // verus!
