//! What the manager and a runner say to each other. Messages are only ever added, so that a new
//! manager can take over an old runner.
use crate::config::{ConfigView, LoadedService, LoadedView, RestartPolicy, ServiceConfig, DEFAULT_LOG_MAX_BYTES, DEFAULT_LOG_MAX_FILES};
use crate::env::{EnvMap, PairView};
use crate::logs::store::RecordView;
use crate::text::{cat2, cat3, cat4, debug_form, debug_text, decimal, decimal_text, opt_view, same, same_opt};
use vstd::prelude::*;

verus! {

pub const RUNNER_PROTOCOL_VERSION: u32 = 1;

/// All that a runner needs to start a service.
#[derive(Debug)]
pub struct LaunchSpec {
    pub directory: String,
    pub config: ServiceConfig,
    pub environment: EnvMap,
}

#[verifier::ext_equal]
pub struct LaunchView {
    pub directory: Seq<char>,
    pub config: ConfigView,
    pub environment: Seq<PairView>,
}

impl View for LaunchSpec {
    type V = LaunchView;

    open spec fn view(&self) -> LaunchView {
        LaunchView {
            directory: self.directory@,
            config: self.config@,
            environment: self.environment@,
        }
    }
}

impl Clone for LaunchSpec {
    fn clone(&self) -> (r: Self)
        ensures
            r@ == self@,
    {
        LaunchSpec {
            directory: self.directory.clone(),
            config: self.config.clone(),
            environment: self.environment.clone(),
        }
    }
}

/// What a loaded service is started by.
pub open spec fn launch_of(service: LoadedView) -> LaunchView {
    LaunchView {
        directory: service.directory,
        config: service.config,
        environment: service.environment,
    }
}

impl LaunchSpec {
    pub fn from_loaded(service: &LoadedService) -> (r: Self)
        ensures
            r@ == launch_of(service@),
    {
        LaunchSpec {
            directory: service.directory.clone(),
            config: service.config.clone(),
            environment: service.environment.clone(),
        }
    }

    /// The service again. Where its configuration came from is not part of the message.
    pub fn into_loaded(self) -> (r: LoadedService)
        ensures
            r@ == (LoadedView {
                directory: self@.directory,
                config_file: None,
                config: self@.config,
                environment: self@.environment,
            }),
    {
        LoadedService {
            directory: self.directory,
            config_file: None,
            config: self.config,
            environment: self.environment,
        }
    }

    pub fn same_as(&self, other: &LaunchSpec) -> (r: bool)
        ensures
            r == (self@ == other@),
    {
        same(self.directory.as_str(), other.directory.as_str()) && self.config.same_as(
            &other.config,
        ) && self.environment.same_as(&other.environment)
    }
}

/// The configuration as it travels. Limits of logs have come later and stand beside it, so that
/// an older peer still understands it.
#[derive(Debug)]
pub struct WireServiceConfig {
    pub name: String,
    pub command: String,
    pub tty: bool,
    pub sync_rows_cols: bool,
    pub restart: RestartPolicy,
    pub persist_logs: bool,
    pub env: EnvMap,
}

#[derive(Debug)]
pub struct WireLaunchSpec {
    pub directory: String,
    pub config: WireServiceConfig,
    pub environment: EnvMap,
    pub log_max_bytes: Option<u64>,
    pub log_max_files: Option<u32>,
}

/// What a message stands for. An older peer names no limits, and no message says where the
/// working directory was configured.
pub open spec fn unwired(w: WireLaunchSpec) -> LaunchView {
    LaunchView {
        directory: w.directory@,
        config: ConfigView {
            name: w.config.name@,
            command: w.config.command@,
            cwd: None,
            tty: w.config.tty,
            sync_rows_cols: w.config.sync_rows_cols,
            restart: w.config.restart,
            persist_logs: w.config.persist_logs,
            log_max_bytes: match w.log_max_bytes {
                Some(n) => n,
                None => DEFAULT_LOG_MAX_BYTES,
            },
            log_max_files: match w.log_max_files {
                Some(n) => n,
                None => DEFAULT_LOG_MAX_FILES,
            },
            env: w.config.env@,
        },
        environment: w.environment@,
    }
}

pub fn to_wire(spec: &LaunchSpec) -> (r: WireLaunchSpec)
    ensures
        r.log_max_bytes == Some(spec.config.log_max_bytes),
        r.log_max_files == Some(spec.config.log_max_files),
        unwired(r) == (LaunchView {
            config: ConfigView { cwd: None, ..spec@.config },
            ..spec@
        }),
{
    WireLaunchSpec {
        directory: spec.directory.clone(),
        config: WireServiceConfig {
            name: spec.config.name.clone(),
            command: spec.config.command.clone(),
            tty: spec.config.tty,
            sync_rows_cols: spec.config.sync_rows_cols,
            restart: spec.config.restart,
            persist_logs: spec.config.persist_logs,
            env: spec.config.env.clone(),
        },
        environment: spec.environment.clone(),
        log_max_bytes: Some(spec.config.log_max_bytes),
        log_max_files: Some(spec.config.log_max_files),
    }
}

pub fn from_wire(wire: WireLaunchSpec) -> (r: LaunchSpec)
    ensures
        r@ == unwired(wire),
{
    LaunchSpec {
        directory: wire.directory,
        config: ServiceConfig {
            name: wire.config.name,
            command: wire.config.command,
            cwd: None,
            tty: wire.config.tty,
            sync_rows_cols: wire.config.sync_rows_cols,
            restart: wire.config.restart,
            persist_logs: wire.config.persist_logs,
            log_max_bytes: match wire.log_max_bytes {
                Some(n) => n,
                None => DEFAULT_LOG_MAX_BYTES,
            },
            log_max_files: match wire.log_max_files {
                Some(n) => n,
                None => DEFAULT_LOG_MAX_FILES,
            },
            env: wire.config.env,
        },
        environment: wire.environment,
    }
}

#[derive(Debug, Clone, Copy, PartialEq, Eq, Structural)]
pub enum RunnerServiceState {
    Starting,
    Running,
    Restarting,
    Stopped,
    Failed,
}

#[derive(Debug)]
pub struct RunnerHistoryRecord {
    pub id: String,
    pub bytes: u64,
    pub current: bool,
    pub persisted: bool,
}

#[derive(Debug)]
pub struct RunnerStatus {
    /// An older runner cannot be told to start or stop its service.
    pub supports_start_stop: bool,
    pub manually_stopped: bool,
    pub name: String,
    pub runner_pid: u32,
    pub state: RunnerServiceState,
    pub pid: Option<u32>,
    pub pid_start_time: Option<u64>,
    pub tty: bool,
    pub restart: String,
    pub persist_logs: bool,
    pub attach_active: bool,
    pub output_tail: String,
    pub recent_failures: u32,
    pub window_seconds: u64,
    pub latest_log: Option<String>,
    pub spec: Option<LaunchSpec>,
}

#[verifier::ext_equal]
pub struct StatusView {
    pub supports_start_stop: bool,
    pub manually_stopped: bool,
    pub name: Seq<char>,
    pub runner_pid: u32,
    pub state: RunnerServiceState,
    pub pid: Option<u32>,
    pub pid_start_time: Option<u64>,
    pub tty: bool,
    pub restart: Seq<char>,
    pub persist_logs: bool,
    pub attach_active: bool,
    pub output_tail: Seq<char>,
    pub recent_failures: u32,
    pub window_seconds: u64,
    pub latest_log: Option<Seq<char>>,
    pub spec: Option<LaunchView>,
}

pub open spec fn launch_opt(s: Option<LaunchSpec>) -> Option<LaunchView> {
    match s {
        Some(s) => Some(s@),
        None => None,
    }
}

impl View for RunnerStatus {
    type V = StatusView;

    open spec fn view(&self) -> StatusView {
        StatusView {
            supports_start_stop: self.supports_start_stop,
            manually_stopped: self.manually_stopped,
            name: self.name@,
            runner_pid: self.runner_pid,
            state: self.state,
            pid: self.pid,
            pid_start_time: self.pid_start_time,
            tty: self.tty,
            restart: self.restart@,
            persist_logs: self.persist_logs,
            attach_active: self.attach_active,
            output_tail: self.output_tail@,
            recent_failures: self.recent_failures,
            window_seconds: self.window_seconds,
            latest_log: opt_view(self.latest_log),
            spec: launch_opt(self.spec),
        }
    }
}

pub fn clone_opt(s: &Option<String>) -> (r: Option<String>)
    ensures
        opt_view(r) == opt_view(*s),
{
    match s {
        Some(s) => Some(s.clone()),
        None => None,
    }
}

fn clone_spec(s: &Option<LaunchSpec>) -> (r: Option<LaunchSpec>)
    ensures
        launch_opt(r) == launch_opt(*s),
{
    match s {
        Some(s) => Some(s.clone()),
        None => None,
    }
}

fn same_spec(a: &Option<LaunchSpec>, b: &Option<LaunchSpec>) -> (r: bool)
    ensures
        r == (launch_opt(*a) == launch_opt(*b)),
{
    match (a, b) {
        (Some(a), Some(b)) => a.same_as(b),
        (None, None) => true,
        _ => false,
    }
}

impl Clone for RunnerStatus {
    fn clone(&self) -> (r: Self)
        ensures
            r@ == self@,
    {
        RunnerStatus {
            supports_start_stop: self.supports_start_stop,
            manually_stopped: self.manually_stopped,
            name: self.name.clone(),
            runner_pid: self.runner_pid,
            state: self.state,
            pid: self.pid,
            pid_start_time: self.pid_start_time,
            tty: self.tty,
            restart: self.restart.clone(),
            persist_logs: self.persist_logs,
            attach_active: self.attach_active,
            output_tail: self.output_tail.clone(),
            recent_failures: self.recent_failures,
            window_seconds: self.window_seconds,
            latest_log: clone_opt(&self.latest_log),
            spec: clone_spec(&self.spec),
        }
    }
}

impl RunnerStatus {
    pub fn same_as(&self, other: &RunnerStatus) -> (r: bool)
        ensures
            r == (self@ == other@),
    {
        self.supports_start_stop == other.supports_start_stop && self.manually_stopped
            == other.manually_stopped && same(self.name.as_str(), other.name.as_str())
            && self.runner_pid == other.runner_pid && self.state == other.state && same_pid(
            self.pid,
            other.pid,
        ) && same_time(self.pid_start_time, other.pid_start_time) && self.tty == other.tty && same(
            self.restart.as_str(),
            other.restart.as_str(),
        ) && self.persist_logs == other.persist_logs && self.attach_active == other.attach_active
            && same(self.output_tail.as_str(), other.output_tail.as_str())
            && self.recent_failures == other.recent_failures && self.window_seconds
            == other.window_seconds && same_opt(&self.latest_log, &other.latest_log) && same_spec(
            &self.spec,
            &other.spec,
        )
    }
}

fn same_pid(a: Option<u32>, b: Option<u32>) -> (r: bool)
    ensures
        r == (a == b),
{
    match (a, b) {
        (Some(a), Some(b)) => a == b,
        (None, None) => true,
        _ => false,
    }
}

fn same_time(a: Option<u64>, b: Option<u64>) -> (r: bool)
    ensures
        r == (a == b),
{
    match (a, b) {
        (Some(a), Some(b)) => a == b,
        (None, None) => true,
        _ => false,
    }
}

/// Who a runner is, as it leaves it on disk.
#[derive(Debug)]
pub struct RunnerMetadata {
    pub name: String,
    pub runner_pid: u32,
    pub runner_start_time: Option<u64>,
    pub service_pid: Option<u32>,
    pub service_start_time: Option<u64>,
}

#[derive(Debug)]
pub enum RunnerRequest {
    Hello { version: u32, name: String },
    Configure { spec: LaunchSpec, log_directory: String },
    Restart { spec: LaunchSpec, log_directory: String },
    /// Start the service unless it is already up.
    StartService { spec: LaunchSpec, log_directory: String },
    /// Stop the service and keep its history.
    StopService,
    /// Take a configuration without starting the service.
    ConfigureStopped { spec: LaunchSpec, log_directory: String },
    Stop,
    Status,
    /// Send the status, and again whenever it changes.
    WatchStatus,
    Attach,
    Resize { token: String, cols: u16, rows: u16 },
    HistoryList,
    HistoryChunk { id: String, offset: u64, limit: u32 },
    Ping,
}

#[derive(Debug)]
pub enum RunnerResponse {
    Hello { version: u32, name: String },
    /// Nothing to report: the request was carried out.
    Done,
    Status { status: RunnerStatus },
    Attach { token: String },
    AttachUnavailable {
        name: String,
        recent_failures: u32,
        window_seconds: u64,
        latest_log: Option<String>,
    },
    HistoryList { records: Vec<RunnerHistoryRecord> },
    HistoryChunk {
        id: String,
        offset: u64,
        next_offset: u64,
        total: u64,
        total_lines: u64,
        eof: bool,
        content: String,
    },
    Error { message: String },
}

pub enum AnswerView {
    Hello { version: u32, name: Seq<char> },
    Done,
    Status(StatusView),
    Attach(Seq<char>),
    AttachUnavailable {
        name: Seq<char>,
        recent_failures: u32,
        window_seconds: u64,
        latest_log: Option<Seq<char>>,
    },
    HistoryList(Seq<RecordView>),
    HistoryChunk {
        id: Seq<char>,
        offset: u64,
        next_offset: u64,
        total: u64,
        total_lines: u64,
        eof: bool,
        content: Seq<char>,
    },
    Error(Seq<char>),
}

pub open spec fn runner_record(r: RunnerHistoryRecord) -> RecordView {
    RecordView { id: r.id@, bytes: r.bytes, current: r.current, persisted: r.persisted }
}

pub open spec fn runner_records(records: Seq<RunnerHistoryRecord>) -> Seq<RecordView> {
    Seq::new(records.len(), |i: int| runner_record(records[i]))
}

impl View for RunnerResponse {
    type V = AnswerView;

    open spec fn view(&self) -> AnswerView {
        match *self {
            RunnerResponse::Hello { version, name } => AnswerView::Hello { version, name: name@ },
            RunnerResponse::Done => AnswerView::Done,
            RunnerResponse::Status { status } => AnswerView::Status(status@),
            RunnerResponse::Attach { token } => AnswerView::Attach(token@),
            RunnerResponse::AttachUnavailable {
                name,
                recent_failures,
                window_seconds,
                latest_log,
            } => AnswerView::AttachUnavailable {
                name: name@,
                recent_failures,
                window_seconds,
                latest_log: opt_view(latest_log),
            },
            RunnerResponse::HistoryList { records } => AnswerView::HistoryList(
                runner_records(records@),
            ),
            RunnerResponse::HistoryChunk {
                id,
                offset,
                next_offset,
                total,
                total_lines,
                eof,
                content,
            } => AnswerView::HistoryChunk {
                id: id@,
                offset,
                next_offset,
                total,
                total_lines,
                eof,
                content: content@,
            },
            RunnerResponse::Error { message } => AnswerView::Error(message@),
        }
    }
}

/// Why a runner is not talked to; nothing where it is the one that was looked for.
pub open spec fn runner_refusal(name: Seq<char>, response: RunnerResponse) -> Option<Seq<char>> {
    match response {
        RunnerResponse::Hello { version, name: actual } => if version != RUNNER_PROTOCOL_VERSION {
            Some("runner protocol version "@ + decimal(version as nat) + " is unsupported"@)
        } else if actual@ != name {
            Some(
                "runner socket belongs to service "@ + debug_form(actual@) + ", not "@ + debug_form(
                    name,
                ),
            )
        } else {
            None
        },
        RunnerResponse::Error { message } => Some("runner handshake failed: "@ + message@),
        _ => Some("invalid runner handshake response"@),
    }
}

/// What a manager makes of a runner's answer to its greeting.
pub fn accept_runner(name: &str, response: &RunnerResponse) -> (r: Result<(), String>)
    ensures
        match r {
            Ok(()) => runner_refusal(name@, *response) is None,
            Err(e) => runner_refusal(name@, *response) == Some(e@),
        },
{
    match response {
        RunnerResponse::Hello { version, name: actual } => {
            if *version != RUNNER_PROTOCOL_VERSION {
                let n = decimal_text(*version as u64);
                return Err(cat3("runner protocol version ", n.as_str(), " is unsupported"));
            }
            if !same(actual.as_str(), name) {
                let a = debug_text(actual.as_str());
                let b = debug_text(name);
                return Err(
                    cat4("runner socket belongs to service ", a.as_str(), ", not ", b.as_str()),
                );
            }
            Ok(())
        },
        RunnerResponse::Error { message } => Err(
            cat2("runner handshake failed: ", message.as_str()),
        ),
        _ => Err("invalid runner handshake response".to_owned()),
    }
}

/// A response as a caller sees it: an error response is a failure.
pub fn accept_response(response: RunnerResponse) -> (r: Result<RunnerResponse, String>)
    ensures
        match r {
            Ok(x) => x == response && !(response is Error),
            Err(e) => response matches RunnerResponse::Error { message } && message == e,
        },
{
    match response {
        RunnerResponse::Error { message } => Err(message),
        other => Ok(other),
    }
}

/// How a runner answers a greeting, and why it refuses one.
pub open spec fn greeting_answer(expected: Seq<char>, request: RunnerRequest) -> Result<(), Seq<char>> {
    match request {
        RunnerRequest::Hello { version, name } => if version != RUNNER_PROTOCOL_VERSION {
            Err("unsupported runner protocol version "@ + decimal(version as nat))
        } else if name@ != expected {
            Err(
                "runner belongs to service "@ + debug_form(name@) + ", not "@ + debug_form(
                    expected,
                ),
            )
        } else {
            Ok(())
        },
        _ => Err("runner handshake required"@),
    }
}

/// What a runner sends to whoever greets it. It goes on listening only where it greets back.
/// What the runner of a service answers to the first message on a connection.
pub open spec fn is_greeting_reply(expected: Seq<char>, request: RunnerRequest, r: RunnerResponse) -> bool {
    match greeting_answer(expected, request) {
        Ok(()) => r matches RunnerResponse::Hello { version, name } && version
            == RUNNER_PROTOCOL_VERSION && name@ == expected,
        Err(e) => r matches RunnerResponse::Error { message } && message@ == e,
    }
}

pub fn answer_greeting(expected: &str, request: &RunnerRequest) -> (r: RunnerResponse)
    ensures
        is_greeting_reply(expected@, *request, r),
{
    match request {
        RunnerRequest::Hello { version, name } => {
            if *version != RUNNER_PROTOCOL_VERSION {
                let n = decimal_text(*version as u64);
                return RunnerResponse::Error {
                    message: cat2("unsupported runner protocol version ", n.as_str()),
                };
            }
            if !same(name.as_str(), expected) {
                let a = debug_text(name.as_str());
                let b = debug_text(expected);
                return RunnerResponse::Error {
                    message: cat4("runner belongs to service ", a.as_str(), ", not ", b.as_str()),
                };
            }
            RunnerResponse::Hello {
                version: RUNNER_PROTOCOL_VERSION,
                name: expected.to_owned(),
            }
        },
        _ => RunnerResponse::Error { message: "runner handshake required".to_owned() },
    }
}

/// Whoever greets a runner accepts its answer exactly where both speak the same version and mean
/// the same service.
pub proof fn law_greetings_meet(expected: Seq<char>, greeting: RunnerRequest, reply: RunnerResponse)
    requires
        greeting is Hello,
        is_greeting_reply(expected, greeting, reply),
    ensures
        runner_refusal(greeting->Hello_name@, reply) is None <==> greeting->Hello_version
            == RUNNER_PROTOCOL_VERSION && greeting->Hello_name@ == expected,
{
}

/// What travels says all of a definition but where its working directory was configured; limits
/// that an older peer does not name are the usual ones.
pub proof fn law_messages_say_what_is_run(w: WireLaunchSpec)
    ensures
        unwired(w).directory == w.directory@,
        unwired(w).environment == w.environment@,
        unwired(w).config.name == w.config.name@,
        unwired(w).config.command == w.config.command@,
        unwired(w).config.cwd is None,
        unwired(w).config.tty == w.config.tty,
        unwired(w).config.sync_rows_cols == w.config.sync_rows_cols,
        unwired(w).config.restart == w.config.restart,
        unwired(w).config.persist_logs == w.config.persist_logs,
        unwired(w).config.env == w.config.env@,
        w.log_max_bytes matches Some(n) ==> unwired(w).config.log_max_bytes == n,
        w.log_max_bytes is None ==> unwired(w).config.log_max_bytes == 10_485_760,
        w.log_max_files matches Some(n) ==> unwired(w).config.log_max_files == n,
        w.log_max_files is None ==> unwired(w).config.log_max_files == 3,
{
}

} // verus!
