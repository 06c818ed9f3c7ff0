//! How the manager meets its clients, and how it ends.
use crate::paths::{absolute, is_absolute};
use crate::protocol::{greeting_refusal, Request, Response, PROTOCOL_VERSION};
use crate::text::{cat2, decimal, decimal_text};
use vstd::prelude::*;

verus! {

/// The status with which a manager leaves that has given its services away.
pub const SUPERVISOR_RELINQUISH_EXIT_CODE: i32 = 75;

#[derive(Debug, Clone, Copy, PartialEq, Eq, Structural)]
pub enum DaemonExit {
    Stopped,
    Relinquished,
}

pub fn exit_code(exit: DaemonExit) -> (r: i32)
    ensures
        r == (match exit {
            DaemonExit::Stopped => 0i32,
            DaemonExit::Relinquished => SUPERVISOR_RELINQUISH_EXIT_CODE,
        }),
{
    match exit {
        DaemonExit::Stopped => 0,
        DaemonExit::Relinquished => SUPERVISOR_RELINQUISH_EXIT_CODE,
    }
}

/// Why a client is turned away at the door.
pub open spec fn turned_away(request: Request) -> Option<Seq<char>> {
    match request {
        Request::Hello { version } => if version == PROTOCOL_VERSION {
            None
        } else {
            Some("unsupported protocol version "@ + decimal(version as nat))
        },
        _ => Some("protocol handshake required"@),
    }
}

/// The answer to the first words of a client. It is talked to exactly where it is greeted back.
pub fn answer_greeting(request: &Request) -> (r: Response)
    ensures
        match turned_away(*request) {
            None => r == (Response::Hello { version: PROTOCOL_VERSION }),
            Some(e) => r matches Response::Error { message } && message@ == e,
        },
{
    match request {
        Request::Hello { version } => {
            if *version == PROTOCOL_VERSION {
                Response::Hello { version: PROTOCOL_VERSION }
            } else {
                let n = decimal_text(*version as u64);
                Response::Error { message: cat2("unsupported protocol version ", n.as_str()) }
            }
        },
        _ => Response::Error { message: "protocol handshake required".to_owned() },
    }
}

/// The way that a request takes through the manager.
#[derive(Debug)]
pub enum Course {
    Attach { name: String },
    Handoff { executable: String },
    Relinquish,
    Shutdown,
    Ordinary(Request),
}

pub fn course(request: Request) -> (r: Course)
    ensures
        r == (match request {
            Request::Attach { name } => Course::Attach { name },
            Request::ManagerHandoff { executable } => Course::Handoff { executable },
            Request::ManagerRelinquish => Course::Relinquish,
            Request::ManagerShutdown => Course::Shutdown,
            _ => Course::Ordinary(request),
        }),
{
    match request {
        Request::Attach { name } => Course::Attach { name },
        Request::ManagerHandoff { executable } => Course::Handoff { executable },
        Request::ManagerRelinquish => Course::Relinquish,
        Request::ManagerShutdown => Course::Shutdown,
        other => Course::Ordinary(other),
    }
}

/// What a client hears of a result.
pub fn reply(result: Result<Response, String>) -> (r: Response)
    ensures
        r == (match result {
            Ok(response) => response,
            Err(message) => Response::Error { message },
        }),
{
    match result {
        Ok(response) => response,
        Err(message) => Response::Error { message },
    }
}

/// What is known of a file.
#[derive(Debug, Clone, Copy, PartialEq, Eq, Structural)]
pub struct FileFacts {
    pub regular: bool,
    pub mode: u32,
}

/// Some execute permission is set.
pub open spec fn executable_mode(mode: u32) -> bool {
    mode & 0o111 != 0
}

pub open spec fn handoff_refusal(value: Seq<char>, facts: Result<FileFacts, String>) -> Option<Seq<char>> {
    if !absolute(value) {
        Some("manager handoff executable must be an absolute path"@)
    } else {
        match facts {
            Err(e) => Some("inspect manager handoff executable: "@ + e@),
            Ok(f) => if !f.regular {
                Some("manager handoff executable is not a regular file"@)
            } else if !executable_mode(f.mode) {
                Some("manager handoff executable is not executable"@)
            } else {
                None
            },
        }
    }
}

/// Checks the program that is to take the place of the manager. `facts` is what was found at
/// that path.
pub fn validate_handoff_executable(value: &str, facts: Result<FileFacts, String>) -> (r: Result<(), String>)
    ensures
        match handoff_refusal(value@, facts) {
            None => r is Ok,
            Some(e) => r is Err && r->Err_0@ == e,
        },
{
    if !is_absolute(value) {
        return Err("manager handoff executable must be an absolute path".to_owned());
    }
    match facts {
        Err(e) => Err(cat2("inspect manager handoff executable: ", e.as_str())),
        Ok(f) => {
            if !f.regular {
                Err("manager handoff executable is not a regular file".to_owned())
            } else if f.mode & 0o111 == 0 {
                Err("manager handoff executable is not executable".to_owned())
            } else {
                Ok(())
            }
        },
    }
}

/// What is found where a socket is to be.
#[derive(Debug, Clone, Copy, PartialEq, Eq, Structural)]
pub enum SocketFinding {
    Nothing,
    NotASocket,
    /// Somebody listens.
    InUse,
    /// Nobody listens any more.
    Stale,
    /// It could not be found out.
    Unknown,
}

#[derive(Debug)]
pub enum SocketPlan {
    Bind,
    /// Remove what is there, then bind.
    Replace,
    Refuse(String),
    /// Give up, with the error that was met.
    Fail,
}

/// The words of a server for what stands in its way.
pub struct SocketWords {
    pub not_a_socket: &'static str,
    pub in_use: &'static str,
}

pub fn manager_words() -> (r: SocketWords)
    ensures
        r.not_a_socket@ == "manager socket path is not a socket: "@,
        r.in_use@ == "manager already running; socket is in use at "@,
{
    SocketWords {
        not_a_socket: "manager socket path is not a socket: ",
        in_use: "manager already running; socket is in use at ",
    }
}

pub fn runner_words() -> (r: SocketWords)
    ensures
        r.not_a_socket@ == "runner socket path is not a socket: "@,
        r.in_use@ == "runner socket is already in use: "@,
{
    SocketWords {
        not_a_socket: "runner socket path is not a socket: ",
        in_use: "runner socket is already in use: ",
    }
}

/// What is done about what is where a socket is to be.
pub open spec fn is_socket_plan(finding: SocketFinding, words: SocketWords, path: Seq<char>, r: SocketPlan) -> bool {
    match finding {
        SocketFinding::Nothing => r is Bind,
        SocketFinding::Stale => r is Replace,
        SocketFinding::NotASocket => r matches SocketPlan::Refuse(t) && t@ == words.not_a_socket@ + path,
        SocketFinding::InUse => r matches SocketPlan::Refuse(t) && t@ == words.in_use@ + path,
        SocketFinding::Unknown => r is Fail,
    }
}

/// Nothing is removed but a socket that nobody listens on any more, and a server comes up only
/// where nothing is in its way.
pub proof fn law_only_dead_sockets_are_replaced(finding: SocketFinding, words: SocketWords, path: Seq<char>, r: SocketPlan)
    requires
        is_socket_plan(finding, words, path, r),
    ensures
        r is Replace ==> finding is Stale,
        finding is Stale ==> r is Replace,
        r is Bind <==> finding is Nothing,
        finding is InUse || finding is NotASocket ==> r is Refuse,
        finding is Unknown ==> r is Fail,
{
}

/// Whether a server may take its socket. Only a socket that nobody listens on is taken away.
pub fn prepare_socket(finding: SocketFinding, words: &SocketWords, path: &str) -> (r: SocketPlan)
    ensures
        r is Bind <==> finding is Nothing,
        r is Replace <==> finding is Stale,
        finding is NotASocket ==> r is Refuse && r->0@ == words.not_a_socket@ + path@,
        finding is InUse ==> r is Refuse && r->0@ == words.in_use@ + path@,
        r is Fail <==> finding is Unknown,
        is_socket_plan(finding, *words, path@, r),
{
    match finding {
        SocketFinding::Nothing => SocketPlan::Bind,
        SocketFinding::Stale => SocketPlan::Replace,
        SocketFinding::NotASocket => SocketPlan::Refuse(cat2(words.not_a_socket, path)),
        SocketFinding::InUse => SocketPlan::Refuse(cat2(words.in_use, path)),
        SocketFinding::Unknown => SocketPlan::Fail,
    }
}

/// What the manager has to attend to.
#[derive(Debug)]
pub enum DaemonEvent {
    /// A request, a client that wants a terminal, or news of a runner.
    Work,
    Shutdown,
    Handoff(String),
    Relinquish,
    /// The manager was told to terminate or was interrupted.
    Signal,
    /// Nothing can come any more.
    Closed,
}

#[derive(Debug)]
pub enum DaemonEnd {
    Exit(DaemonExit),
    /// Another program takes the place of the manager.
    Replace(String),
}

#[derive(Debug)]
pub struct DaemonStep {
    /// All services are stopped first.
    pub stop_services: bool,
    pub end: Option<DaemonEnd>,
}

pub open spec fn step_for(event: DaemonEvent) -> DaemonStep {
    DaemonStep {
        stop_services: event is Shutdown || event is Signal,
        end: match event {
            DaemonEvent::Work => None,
            DaemonEvent::Handoff(executable) => Some(DaemonEnd::Replace(executable)),
            DaemonEvent::Relinquish => Some(DaemonEnd::Exit(DaemonExit::Relinquished)),
            _ => Some(DaemonEnd::Exit(DaemonExit::Stopped)),
        },
    }
}

/// Services outlive a manager that hands them over or gives them up; they are stopped where the
/// manager is shut down or told by a signal to end. As long as there is work it does not end.
pub proof fn law_services_outlive_a_handoff(event: DaemonEvent)
    ensures
        event is Work ==> step_for(event).end is None && !step_for(event).stop_services,
        event !is Work ==> step_for(event).end is Some,
        event is Handoff || event is Relinquish ==> !step_for(event).stop_services,
        event is Shutdown || event is Signal ==> step_for(event).stop_services,
        event is Closed ==> !step_for(event).stop_services,
        event matches DaemonEvent::Handoff(e) ==> step_for(event).end == Some(DaemonEnd::Replace(e)),
        event is Relinquish ==> step_for(event).end == Some(DaemonEnd::Exit(DaemonExit::Relinquished)),
        event is Shutdown || event is Signal || event is Closed ==> step_for(event).end == Some(
            DaemonEnd::Exit(DaemonExit::Stopped),
        ),
{
}

/// A program takes the place of the manager exactly where it is named by an absolute path and is
/// a regular file that somebody may execute.
pub proof fn law_what_takes_the_place_can_run(value: Seq<char>, facts: Result<FileFacts, String>)
    ensures
        handoff_refusal(value, facts) is None <==> {
            &&& value.len() > 0 && value[0] == '/'
            &&& facts matches Ok(f) && f.regular && (f.mode & 1 == 1 || f.mode & 8 == 8 || f.mode & 64 == 64)
        },
{
    if facts is Ok {
        let m = facts->Ok_0.mode;
        assert(m & 0o111 != 0 <==> m & 1 == 1 || m & 8 == 8 || m & 64 == 64) by (bit_vector);
    }
}

pub fn daemon_step(event: DaemonEvent) -> (r: DaemonStep)
    ensures
        r.stop_services == (event is Shutdown || event is Signal),
        r.end == (match event {
            DaemonEvent::Work => None,
            DaemonEvent::Handoff(executable) => Some(DaemonEnd::Replace(executable)),
            DaemonEvent::Relinquish => Some(DaemonEnd::Exit(DaemonExit::Relinquished)),
            _ => Some(DaemonEnd::Exit(DaemonExit::Stopped)),
        }),
        r == step_for(event),
{
    match event {
        DaemonEvent::Work => DaemonStep { stop_services: false, end: None },
        DaemonEvent::Shutdown | DaemonEvent::Signal => DaemonStep {
            stop_services: true,
            end: Some(DaemonEnd::Exit(DaemonExit::Stopped)),
        },
        DaemonEvent::Handoff(executable) => DaemonStep {
            stop_services: false,
            end: Some(DaemonEnd::Replace(executable)),
        },
        DaemonEvent::Relinquish => DaemonStep {
            stop_services: false,
            end: Some(DaemonEnd::Exit(DaemonExit::Relinquished)),
        },
        DaemonEvent::Closed => DaemonStep {
            stop_services: false,
            end: Some(DaemonEnd::Exit(DaemonExit::Stopped)),
        },
    }
}

/// A client and a manager of one version greet each other; a manager of this version turns every
/// other client away.
pub proof fn law_only_like_versions_talk(version: u32)
    ensures
        turned_away(Request::Hello { version }) is None <==> version == PROTOCOL_VERSION,
        greeting_refusal(
            "manager"@,
            PROTOCOL_VERSION,
            Response::Hello { version },
        ) is None <==> version == PROTOCOL_VERSION,
{
}

} // verus!
