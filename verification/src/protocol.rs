//! What clients and the manager say to each other.
use crate::env::EnvMap;
use crate::text::{cat2, cat3, decimal, decimal_text};
use vstd::prelude::*;

verus! {

pub const PROTOCOL_VERSION: u32 = 9;

#[derive(Debug, Clone, Copy, PartialEq, Eq, Structural)]
pub enum ServiceKind {
    Enabled,
    Temporary,
}

/// A temporary service as a client asks for it.
#[derive(Debug, Clone)]
pub struct RunSpec {
    pub directory: String,
    pub name: String,
    pub argv: Vec<String>,
    pub tty: bool,
    pub sync_rows_cols: bool,
    pub restart: String,
    pub persist_logs: bool,
    pub log_max_bytes: u64,
    pub log_max_files: u32,
    pub env: EnvMap,
}

#[derive(Debug, Clone)]
pub enum Target {
    Name(String),
    Directory(String),
}

#[derive(Debug, Clone)]
pub enum Request {
    Hello { version: u32 },
    List,
    Enable { directory: String, file: Option<String>, workdir: Option<String> },
    Run { spec: RunSpec },
    Disable { target: Target },
    Restart { target: Target },
    Start { target: Target },
    Stop { target: Target },
    Attach { name: String },
    Resize { name: String, token: String, cols: u16, rows: u16 },
    HistoryList { target: Target },
    HistoryChunk { target: Target, id: String, offset: u64, limit: u32 },
    /// Stop the manager and all managed runners.
    ManagerShutdown,
    /// Replace the manager process with a specific executable without stopping runners.
    ManagerHandoff { executable: String },
    /// Exit the manager without stopping runners so another supervisor can adopt them.
    ManagerRelinquish,
}

#[derive(Debug, Clone, Copy, PartialEq, Eq, Structural)]
pub enum ServiceState {
    Starting,
    Running,
    Restarting,
    Stopped,
    Failed,
}

#[derive(Debug, Clone)]
pub struct ServiceInfo {
    pub name: String,
    pub directory: String,
    pub config_file: Option<String>,
    pub kind: ServiceKind,
    pub state: ServiceState,
    pub pid: Option<u32>,
    pub tty: bool,
    pub restart: String,
    pub persist_logs: bool,
    pub attach_active: bool,
    pub output_tail: String,
}

#[derive(Debug, Clone)]
pub struct HistoryRecord {
    pub id: String,
    pub bytes: u64,
    pub current: bool,
    pub persisted: bool,
}

#[derive(Debug, Clone)]
pub enum Response {
    Hello { version: u32 },
    Attach { token: String },
    AttachUnavailable {
        name: String,
        recent_failures: u32,
        window_seconds: u64,
        latest_log: Option<String>,
    },
    /// Nothing to report: the request was carried out.
    Done,
    Services { services: Vec<ServiceInfo> },
    HistoryList { service: String, records: Vec<HistoryRecord> },
    HistoryChunk {
        service: String,
        id: String,
        offset: u64,
        next_offset: u64,
        total: u64,
        total_lines: u64,
        eof: bool,
        content: String,
    },
    Error { message: String },
}

/// The text of a refused greeting; `None` where the peer may be talked to.
pub open spec fn greeting_refusal(peer: Seq<char>, supported: u32, response: Response) -> Option<
    Seq<char>,
> {
    match response {
        Response::Hello { version } => if version == supported {
            None
        } else {
            Some(peer + " protocol version "@ + decimal(version as nat) + " is unsupported"@)
        },
        Response::Error { message } => Some(peer + " handshake failed: "@ + message@),
        _ => Some("invalid "@ + peer + " handshake response"@),
    }
}

/// What a client makes of the manager's answer to its greeting.
pub fn accept_greeting(response: &Response) -> (r: Result<(), String>)
    ensures
        match r {
            Ok(()) => greeting_refusal("manager"@, PROTOCOL_VERSION, *response) is None,
            Err(e) => greeting_refusal("manager"@, PROTOCOL_VERSION, *response) == Some(e@),
        },
{
    match response {
        Response::Hello { version } => {
            if *version == PROTOCOL_VERSION {
                Ok(())
            } else {
                let n = decimal_text(*version as u64);
                let head = cat2("manager", " protocol version ");
                let text = cat3(head.as_str(), n.as_str(), " is unsupported");
                Err(text)
            }
        },
        Response::Error { message } => Err(
            cat3("manager", " handshake failed: ", message.as_str()),
        ),
        _ => Err(cat3("invalid ", "manager", " handshake response")),
    }
}

/// A response as a caller sees it: an error response is a failure.
pub fn accept_response(response: Response) -> (r: Result<Response, String>)
    ensures
        match r {
            Ok(x) => x == response && !(response is Error),
            Err(e) => response matches Response::Error { message } && message == e,
        },
{
    match response {
        Response::Error { message } => Err(message),
        other => Ok(other),
    }
}

/// How a malformed message is reported.
#[derive(Debug, Clone)]
pub struct InvalidData {
    pub message: String,
}

pub fn io_error(message: String) -> (r: InvalidData)
    ensures
        r.message == message,
{
    InvalidData { message }
}

} // verus!
