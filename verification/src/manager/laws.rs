//! What comes of a request, from the manager to the runner: which services run, and which do not.
use crate::config::{LoadedService, LoadedView};
use crate::manager::jobs::{
    after_answer, after_check, after_load, after_open, after_remove, after_stop, ask_view, ensured, failed,
    next_job, seen, AskView, GoalView, JobView, OpView, Phase, ProgressView, ReplyView,
};
use crate::manager::requests::{begin_view, is_begin, Begin};
use crate::manager::table::{
    distinct_names, find, forgotten, is_info, kept, lemma_find, names_in_directory, noted, resolved,
    target_refusal, EntryView, ManagerState, Table,
};
use crate::paths::joined;
use crate::protocol::{Request, ServiceInfo, ServiceKind, Target};
use crate::runner::laws::{
    law_a_configured_service_runs, law_a_restart_starts_the_new_definition, law_a_start_starts_what_is_down,
    law_a_stop_ends_the_service, law_what_waited_for_the_worker_happens, rests, runs,
};
use crate::runner::{finished, requested, PendingView, RunnerCore, StepView};
use crate::runner_protocol::{AnswerView, LaunchView, RunnerRequest, RunnerResponse, StatusView};
use vstd::prelude::*;

verus! {

/// The launch data say what the definition says.
pub open spec fn same_launch(spec: LaunchView, s: LoadedView) -> bool {
    spec.directory == s.directory && spec.config == s.config && spec.environment == s.environment
}

/// The manager knows that the service of that name was stopped by hand.
pub open spec fn stop_known(t: Table, name: Seq<char>) -> bool {
    exists|i: int|
        0 <= i < t.entries.len() && (#[trigger] t.entries[i]).definition.config.name == name
            && t.entries[i].status.manually_stopped
}

// ---------------------------------------------------------------------------------------------
// A runner for a service

/// A service that is to be there is run, with its definition and its own log directory, unless it
/// is known to have been stopped by hand. Only where a manual stop is known is its runner told not
/// to run it.
pub proof fn law_what_is_enabled_is_run(t: Table, job: JobView, status: StatusView, logs: Seq<char>)
    requires
        job.op is Ensure,
        job.service is Some,
        distinct_names(t.entries),
    ensures
        ({
            let (after, p) = after_check(t, job, status, logs);
            let s = job.service->0;
            &&& !status.manually_stopped && !stop_known(t, job.name) ==> {
                &&& after == t
                &&& p matches ProgressView::Ask(j, AskView::Configure { spec, log_directory })
                &&& same_launch(spec, s)
                &&& log_directory == joined(logs, job.name)
                &&& j == (JobView { phase: Phase::Send, ..job })
            }
            &&& !status.manually_stopped && status.spec is Some ==> (p matches ProgressView::Ask(
                j,
                AskView::Configure { spec, log_directory },
            ) && same_launch(spec, s) && log_directory == joined(logs, job.name))
            &&& (p matches ProgressView::Ask(j, ask) && ask is ConfigureStopped) ==> stop_known(t, job.name)
                && status.spec is None && !status.manually_stopped
            &&& (p matches ProgressView::Ask(j, AskView::ConfigureStopped { spec, log_directory })
                ==> same_launch(spec, s) && log_directory == joined(logs, job.name))
            &&& status.manually_stopped ==> (p matches ProgressView::Done { result, .. } && result == Ok::<
                ReplyView,
                Seq<char>,
            >(ReplyView::Done))
        }),
{
    lemma_find(t.entries, job.name, 0);
    if let Some(i) = find(t.entries, job.name) {
        if t.entries[i].status.manually_stopped {
            assert(stop_known(t, job.name));
        }
    }
}

/// Enabling or running a service starts it: what the manager asks of a runner that has no service
/// yet makes that runner start exactly this definition.
pub proof fn law_an_enabled_service_starts(
    t: Table,
    job: JobView,
    status: StatusView,
    logs: Seq<char>,
    c: RunnerCore,
    request: RunnerRequest,
    told: StatusView,
    now: u64,
)
    requires
        job.op is Ensure,
        job.service is Some,
        distinct_names(t.entries),
        !stop_known(t, job.name),
        !status.manually_stopped,
        !c.manually_stopped,
        !c.worker,
        after_check(t, job, status, logs).1 matches ProgressView::Ask(_, ask) && ask_view(request) == ask,
    ensures
        ({
            let (after, step) = requested(c, request, told, now);
            exists|spec: LaunchView| same_launch(spec, job.service->0) && #[trigger] runs(after, step, c, spec)
        }),
{
    law_what_is_enabled_is_run(t, job, status, logs);
    if let RunnerRequest::Configure { spec, log_directory } = request {
        law_a_configured_service_runs(c, request, spec@, log_directory@, told, now);
        let (after, step) = requested(c, request, told, now);
        assert(runs(after, step, c, spec@));
    }
}

/// A job for a runner begins with the definition it was given, for a name that a service can have.
pub proof fn law_a_runner_is_opened_for_the_service(t: Table, service: LoadedView, kind: ServiceKind, goal: GoalView)
    ensures
        ({
            let (after, p) = ensured(t, service, kind, goal);
            &&& target_refusal(service.config.name) is None ==> {
                &&& after == t
                &&& p matches ProgressView::Open(j)
                &&& j.op == OpView::Ensure(goal)
                &&& j.name == service.config.name
                &&& j.kind == kind
                &&& j.service == Some(service)
                &&& j.phase is Open
            }
            &&& p is Open ==> target_refusal(service.config.name) is None
        }),
{
}

/// Once there is a runner, it is asked how its service is before anything else; a job that knows
/// already what to tell it tells it.
pub proof fn law_a_runner_is_asked_first(t: Table, job: JobView, socket: String, logs: Seq<char>)
    requires
        !(job.phase is Ready),
    ensures
        after_open(t, job, Ok(socket), logs) == (
            t,
            ProgressView::Ask(JobView { phase: Phase::Check, socket: socket@, ..job }, AskView::Status),
        ),
{
}

// ---------------------------------------------------------------------------------------------
// Restarting, starting and stopping

/// A restart makes the runner restart, with the definition that was read and the log directory of
/// the service; a start makes it start the service.
pub proof fn law_a_restart_job_restarts(t: Table, job: JobView, socket: String, logs: Seq<char>)
    requires
        job.phase is Ready,
        job.service is Some,
    ensures
        ({
            let (after, p) = after_open(t, job, Ok(socket), logs);
            let s = job.service->0;
            &&& after == t
            &&& p matches ProgressView::Ask(j, ask)
            &&& j == (JobView { phase: Phase::Send, socket: socket@, ..job })
            &&& !(job.op is Start) ==> (ask matches AskView::Restart { spec, log_directory } && same_launch(spec, s)
                && log_directory == joined(logs, job.name))
            &&& job.op is Start ==> (ask matches AskView::StartService { spec, log_directory } && same_launch(
                spec,
                s,
            ) && log_directory == joined(logs, job.name))
        }),
{
}

/// Restarting a service ends what runs of it and starts the definition that was read: whatever the
/// runner is at, it does not stay as it was. It starts the definition at once, or ends its worker
/// for it and starts it then.
pub proof fn law_a_restart_replaces_what_runs(
    t: Table,
    job: JobView,
    socket: String,
    logs: Seq<char>,
    c: RunnerCore,
    request: RunnerRequest,
    told: StatusView,
    now: u64,
)
    requires
        job.op is Restart,
        job.phase is Ready,
        job.service is Some,
        after_open(t, job, Ok(socket), logs).1 matches ProgressView::Ask(_, ask) && ask_view(request) == ask,
        c.task || c.pid is None,
    ensures
        ({
            let (after, step) = requested(c, request, told, now);
            let s = job.service->0;
            ||| c.task && after == c && (step matches StepView::Finish(PendingView::Restart { spec, log_directory })
                && same_launch(spec, s) && forall|alive: bool|
                {
                    let done = #[trigger] finished(c, step->Finish_0, Ok::<(), String>(()), alive);
                    runs(done.0, done.1, c, spec)
                })
            ||| !c.task && exists|spec: LaunchView| same_launch(spec, s) && #[trigger] runs(after, step, c, spec)
        }),
{
    law_a_restart_job_restarts(t, job, socket, logs);
    if let RunnerRequest::Restart { spec, log_directory } = request {
        law_a_restart_starts_the_new_definition(c, request, spec@, log_directory@, told, now);
        let (after, step) = requested(c, request, told, now);
        if c.task {
            assert forall|alive: bool|
                {
                    let done = #[trigger] finished(c, step->Finish_0, Ok::<(), String>(()), alive);
                    runs(done.0, done.1, c, spec@)
                } by {
                law_what_waited_for_the_worker_happens(c, spec@, log_directory@, Ok(()), alive);
            }
        } else {
            assert(runs(after, step, c, spec@));
        }
    }
}

/// Starting a service that is down starts the definition that was read, at once or once a worker
/// that is left has ended.
pub proof fn law_a_start_brings_up_what_is_down(
    t: Table,
    job: JobView,
    socket: String,
    logs: Seq<char>,
    c: RunnerCore,
    request: RunnerRequest,
    told: StatusView,
    now: u64,
)
    requires
        job.op is Start,
        job.phase is Ready,
        job.service is Some,
        after_open(t, job, Ok(socket), logs).1 matches ProgressView::Ask(_, ask) && ask_view(request) == ask,
        c.state is Stopped || c.state is Failed,
        c.task || c.pid is None,
    ensures
        ({
            let (after, step) = requested(c, request, told, now);
            let s = job.service->0;
            ||| c.task && after == c && (step matches StepView::Finish(PendingView::Restart { spec, .. })
                && same_launch(spec, s))
            ||| !c.task && exists|spec: LaunchView| same_launch(spec, s) && #[trigger] runs(after, step, c, spec)
        }),
{
    law_a_restart_job_restarts(t, job, socket, logs);
    if let RunnerRequest::StartService { spec, log_directory } = request {
        law_a_start_starts_what_is_down(c, request, spec@, log_directory@, told, now);
        let (after, step) = requested(c, request, told, now);
        if !c.task {
            assert(runs(after, step, c, spec@));
        }
    }
}

/// Whether a service is started depends on how it is: one that is up is left alone, and for one
/// that is down its definition is fetched.
pub proof fn law_a_start_looks_first(t: Table, job: JobView, status: StatusView, logs: Seq<char>)
    requires
        job.op is Start,
        status.supports_start_stop,
    ensures
        ({
            let (after, p) = after_check(t, job, status, logs);
            let down = status.state is Stopped || status.state is Failed;
            &&& !down ==> after == noted(t, job.name, status) && p == (ProgressView::Done {
                result: Ok(ReplyView::Done),
                watch: None,
            })
            &&& down ==> after == t
            &&& down && job.kind is Enabled ==> p == ProgressView::Load(JobView { phase: Phase::Load, ..job })
            &&& down && job.kind is Temporary ==> forall|i: int|
                distinct_names(t.entries) && 0 <= i < t.entries.len() && (
                #[trigger] t.entries[i]).definition.config.name == job.name ==> p == ProgressView::Open(
                    JobView { phase: Phase::Ready, service: Some(t.entries[i].definition), ..job },
                )
        }),
{
    lemma_find(t.entries, job.name, 0);
}

/// A definition that was read for the service is the one that it is started with.
pub proof fn law_what_was_read_is_started(t: Table, job: JobView, service: LoadedService)
    requires
        service@.config.name == job.name,
    ensures
        after_load(t, job, Ok(service)) == (
            t,
            ProgressView::Open(JobView { phase: Phase::Ready, service: Some(service@), ..job }),
        ),
{
}

/// Stopping a service makes its runner stop it; a runner that does not know the service yet is
/// told that it is stopped. What the runner is asked brings the service down.
pub proof fn law_a_stop_stops(
    t: Table,
    job: JobView,
    status: StatusView,
    logs: Seq<char>,
    c: RunnerCore,
    told: StatusView,
    now: u64,
)
    requires
        job.op is Stop,
        job.service is Some,
        status.supports_start_stop,
    ensures
        ({
            let (after, p) = after_check(t, job, status, logs);
            &&& after == t
            &&& p matches ProgressView::Ask(j, ask)
            &&& j == (JobView { phase: Phase::Send, ..job })
            &&& status.spec is Some ==> ask is StopService
            &&& status.spec is None ==> (ask matches AskView::ConfigureStopped { spec, log_directory }
                && same_launch(spec, job.service->0) && log_directory == joined(logs, job.name))
        }),
        ({
            let (after, step) = requested(c, RunnerRequest::StopService, told, now);
            &&& c.task ==> step == StepView::Finish(PendingView::StopService) && forall|alive: bool|
                rests((#[trigger] finished(c, PendingView::StopService, Ok::<(), String>(()), alive)).0, c)
            &&& !c.task && c.pid is None ==> rests(after, c)
        }),
{
    law_a_stop_ends_the_service(c, told, now);
    assert forall|alive: bool| rests(
        (#[trigger] finished(c, PendingView::StopService, Ok::<(), String>(()), alive)).0,
        c,
    ) by {
        law_what_waited_for_the_worker_happens(
            c,
            arbitrary(),
            Seq::empty(),
            Ok(()),
            alive,
        );
    }
}

/// What the runner was told is confirmed before the job is done: the runner is asked how the
/// service is, and with its answer the service is looked after, under its definition.
pub proof fn law_what_was_told_is_confirmed(
    t: Table,
    job: JobView,
    answer: RunnerResponse,
    shown: Seq<char>,
    logs: Seq<char>,
)
    requires
        job.op is Ensure || job.op is Start || job.op is Stop || job.op is Restart,
    ensures
        job.phase is Send && answer@ is Done ==> after_answer(t, job, Ok(answer), shown, logs) == (
            t,
            ProgressView::Ask(JobView { phase: Phase::Confirm, ..job }, AskView::Status),
        ),
        job.phase is Send && !(answer@ is Done) ==> after_answer(t, job, Ok(answer), shown, logs) == failed(
            t,
            job,
            "unexpected runner response: "@ + shown,
        ),
        job.phase is Confirm && job.service is Some ==> (answer@ matches AnswerView::Status(status) ==> {
            let (after, p) = after_answer(t, job, Ok(answer), shown, logs);
            &&& p matches ProgressView::Done { result, watch }
            &&& result == Ok::<ReplyView, Seq<char>>(ReplyView::Done)
            &&& watch == Some((job.socket, t.next))
            &&& exists|i: int|
                0 <= i < after.entries.len() && #[trigger] after.entries[i] == (EntryView {
                    definition: job.service->0,
                    kind: job.kind,
                    socket: job.socket,
                    status,
                    generation: t.next,
                })
        }),
{
    if job.phase is Confirm && job.service is Some {
        if let AnswerView::Status(status) = answer@ {
            let s = job.service->0;
            let (after, p) = after_answer(t, job, Ok(answer), shown, logs);
            lemma_find(t.entries, s.config.name, 0);
            match find(t.entries, s.config.name) {
                Some(i) => {
                    assert(after.entries[i].status == status);
                },
                None => {
                    assert(after.entries[t.entries.len() as int].status == status);
                },
            }
        }
    }
}

/// A failure is told, and never as a success.
pub proof fn law_failures_are_told(t: Table, job: JobView, error: Seq<char>, done: Result<(), String>)
    ensures
        ({
            let (after, p) = failed(t, job, error);
            &&& p matches ProgressView::Done { result, .. } ==> result == Err::<ReplyView, Seq<char>>(error)
            &&& !(p is Done) ==> (p is Remove || p is Cleanup) && next_job(p)->0.error == error && (after_remove(
                after,
                next_job(p)->0,
                done,
            ).1 matches ProgressView::Done { result, .. } && result is Err)
        }),
{
}

// ---------------------------------------------------------------------------------------------
// Disabling

/// Disabling stops the runner first, then removes what is left of the service, and only then
/// forgets it; a step that fails ends it there, and the service is still looked after.
pub proof fn law_disabling_goes_in_order(t: Table, job: JobView, result: Result<(), String>)
    requires
        job.op is Disable,
    ensures
        result is Ok ==> after_stop(t, job, result) == (
            t,
            ProgressView::Remove(JobView { phase: Phase::Removing, ..job }),
        ),
        result is Err ==> after_stop(t, job, result) == (
            t,
            ProgressView::Done { result: Err(result->Err_0@), watch: None },
        ),
        job.phase is Removing && (result is Ok || job.kind is Temporary) ==> {
            let (after, p) = after_remove(t, job, result);
            &&& p == (ProgressView::Done { result: Ok(ReplyView::Done), watch: None })
            &&& distinct_names(t.entries) ==> forall|e: EntryView|
                after.entries.contains(e) <==> (#[trigger] t.entries.contains(e) && e.definition.config.name
                    != job.name)
        },
        job.phase is Removing && result is Err && job.kind is Enabled ==> after_remove(t, job, result).0 == t
            && (after_remove(t, job, result).1 matches ProgressView::Done { result: r, .. } && r is Err),
{
    if job.phase is Removing && (result is Ok || job.kind is Temporary) && distinct_names(t.entries) {
        law_forgetting_takes_out_one(t, job.name);
    }
}

// ---------------------------------------------------------------------------------------------
// The table

/// A service that is forgotten is gone, and every other one is still there.
pub proof fn law_forgetting_takes_out_one(t: Table, name: Seq<char>)
    requires
        distinct_names(t.entries),
    ensures
        forall|e: EntryView|
            forgotten(t, name).entries.contains(e) <==> (#[trigger] t.entries.contains(e)
                && e.definition.config.name != name),
        forgotten(t, name).next == t.next,
{
    lemma_find(t.entries, name, 0);
    let after = forgotten(t, name).entries;
    assert forall|e: EntryView| after.contains(e) <==> (#[trigger] t.entries.contains(e)
        && e.definition.config.name != name) by {
        match find(t.entries, name) {
            None => {
                if t.entries.contains(e) {
                    let k = t.entries.index_of(e);
                    assert(t.entries[k] == e);
                }
            },
            Some(i) => {
                if after.contains(e) {
                    let k = after.index_of(e);
                    let j = if k < i { k } else { k + 1 };
                    assert(t.entries[j] == e);
                    if j < i {
                        assert(t.entries[j].definition.config.name != t.entries[i].definition.config.name);
                    } else {
                        assert(t.entries[i].definition.config.name != t.entries[j].definition.config.name);
                    }
                }
                if t.entries.contains(e) && e.definition.config.name != name {
                    let j = t.entries.index_of(e);
                    let k = if j < i { j } else { j - 1 };
                    assert(after[k] == e);
                }
            },
        }
    }
}

/// A service that is looked after anew is there with what is known of it; the others are as they
/// were.
pub proof fn law_keeping_changes_one(
    t: Table,
    definition: LoadedView,
    kind: ServiceKind,
    socket: Seq<char>,
    status: StatusView,
)
    requires
        distinct_names(t.entries),
    ensures
        ({
            let entry = EntryView { definition, kind, socket, status, generation: t.next };
            let after = kept(t, definition, kind, socket, status);
            &&& after.entries.contains(entry)
            &&& forall|e: EntryView|
                e.definition.config.name != definition.config.name ==> (after.entries.contains(e)
                    <==> #[trigger] t.entries.contains(e))
            &&& forall|e: EntryView|
                #[trigger] after.entries.contains(e) && e.definition.config.name == definition.config.name ==> e
                    == entry
        }),
{
    let name = definition.config.name;
    let entry = EntryView { definition, kind, socket, status, generation: t.next };
    let after = kept(t, definition, kind, socket, status).entries;
    lemma_find(t.entries, name, 0);
    let place = match find(t.entries, name) {
        Some(i) => i,
        None => t.entries.len() as int,
    };
    assert(after[place] == entry);
    assert forall|e: EntryView| e.definition.config.name != name implies (after.contains(e)
        <==> #[trigger] t.entries.contains(e)) by {
        if after.contains(e) {
            let k = after.index_of(e);
            assert(k != place);
            assert(t.entries[k] == e);
        }
        if t.entries.contains(e) {
            let k = t.entries.index_of(e);
            assert(after[k] == e);
        }
    }
    assert forall|e: EntryView| #[trigger] after.contains(e) && e.definition.config.name == name implies e == entry by {
        let k = after.index_of(e);
        if k != place {
            assert(t.entries[k] == e);
            if let Some(i) = find(t.entries, name) {
                if k < i {
                    assert(t.entries[k].definition.config.name != t.entries[i].definition.config.name);
                } else {
                    assert(t.entries[i].definition.config.name != t.entries[k].definition.config.name);
                }
            }
        }
    }
}

/// What a watcher says of its service is noted, and nothing else changes.
pub proof fn law_watchers_are_heard(t: Table, i: int, status: StatusView)
    requires
        distinct_names(t.entries),
        0 <= i < t.entries.len(),
    ensures
        seen(t, t.entries[i].definition.config.name, t.entries[i].generation, status) == (Table {
            entries: t.entries.update(i, EntryView { status, ..t.entries[i] }),
            ..t
        }),
        noted(t, t.entries[i].definition.config.name, status) == (Table {
            entries: t.entries.update(i, EntryView { status, ..t.entries[i] }),
            ..t
        }),
{
    lemma_place(t, i);
}

proof fn lemma_place(t: Table, i: int)
    requires
        distinct_names(t.entries),
        0 <= i < t.entries.len(),
    ensures
        find(t.entries, t.entries[i].definition.config.name) == Some(i),
{
    let name = t.entries[i].definition.config.name;
    lemma_find(t.entries, name, 0);
    let k = find(t.entries, name)->0;
    if k < i {
        assert(t.entries[k].definition.config.name != t.entries[i].definition.config.name);
    }
}

/// What is listed of a service is what is known of it.
pub proof fn law_the_listing_tells_the_state(info: ServiceInfo, e: EntryView)
    requires
        is_info(info, e),
    ensures
        info.name@ == e.definition.config.name,
        info.directory@ == e.definition.directory,
        info.kind == e.kind,
        info.pid == e.status.pid,
        info.tty == e.definition.config.tty,
        info.attach_active == e.status.attach_active,
        info.output_tail@ == e.status.output_tail,
        info.restart@ == e.status.restart,
        info.persist_logs == e.status.persist_logs,
        info.state is Starting <==> e.status.state is Starting,
        info.state is Running <==> e.status.state is Running,
        info.state is Restarting <==> e.status.state is Restarting,
        info.state is Stopped <==> e.status.state is Stopped,
        info.state is Failed <==> e.status.state is Failed,
{
}

// ---------------------------------------------------------------------------------------------
// Requests

/// A name stands for the service that has it.
pub proof fn law_names_find_their_service(t: Table, name: String, canonical: Result<String, String>)
    ensures
        match resolved(t.entries, Target::Name(name), canonical) {
            Ok(n) => n == name@ && exists|i: int|
                0 <= i < t.entries.len() && (#[trigger] t.entries[i]).definition.config.name == name@,
            Err(_) => target_refusal(name@) is Some || forall|i: int|
                0 <= i < t.entries.len() ==> (#[trigger] t.entries[i]).definition.config.name != name@,
        },
{
    lemma_find(t.entries, name@, 0);
}

/// The entry `i` is the only one whose service runs in the directory.
pub open spec fn alone_in(entries: Seq<EntryView>, i: int, directory: Seq<char>) -> bool {
    &&& 0 <= i < entries.len()
    &&& entries[i].definition.directory == directory
    &&& forall|j: int|
        0 <= j < entries.len() && j != i ==> (#[trigger] entries[j]).definition.directory != directory
}

/// A directory stands for the only service that runs in it, and for none where there is none or
/// more than one.
pub proof fn law_directories_find_their_service(t: Table, asked: String, directory: String, i: int)
    ensures
        ({
            let r = resolved(t.entries, Target::Directory(asked), Ok(directory));
            &&& alone_in(t.entries, i, directory@) ==> r == Ok::<Seq<char>, Seq<char>>(
                t.entries[i].definition.config.name,
            )
            &&& r matches Ok(n) ==> exists|k: int|
                #[trigger] alone_in(t.entries, k, directory@) && t.entries[k].definition.config.name == n
        }),
{
    let names = names_in_directory(t.entries, directory@);
    if alone_in(t.entries, i, directory@) {
        lemma_one_name(t.entries, directory@, i);
    }
    if names.len() == 1 {
        let k = lemma_only_one(t.entries, directory@);
        assert(alone_in(t.entries, k, directory@));
        if alone_in(t.entries, i, directory@) && i != k {
            assert(t.entries[k].definition.directory != directory@);
        }
    }
}

/// There are names exactly of the services in the directory.
proof fn lemma_names_in(entries: Seq<EntryView>, directory: Seq<char>)
    ensures
        names_in_directory(entries, directory).len() == 0 <==> forall|i: int|
            0 <= i < entries.len() ==> (#[trigger] entries[i]).definition.directory != directory,
    decreases entries.len(),
{
    if entries.len() > 0 {
        let f = entries.drop_last();
        lemma_names_in(f, directory);
        assert(entries[entries.len() - 1] == entries.last());
        if names_in_directory(entries, directory).len() == 0 {
            assert forall|i: int| 0 <= i < entries.len() implies (#[trigger] entries[i]).definition.directory
                != directory by {
                if i < f.len() {
                    assert(f[i] == entries[i]);
                }
            }
        } else if entries.last().definition.directory != directory {
            assert(names_in_directory(f, directory).len() > 0);
            let k = choose|k: int| 0 <= k < f.len() && (#[trigger] f[k]).definition.directory == directory;
            assert(entries[k] == f[k]);
        }
    }
}

proof fn lemma_only_one(entries: Seq<EntryView>, directory: Seq<char>) -> (i: int)
    requires
        names_in_directory(entries, directory).len() == 1,
    ensures
        0 <= i < entries.len(),
        entries[i].definition.directory == directory,
        entries[i].definition.config.name == names_in_directory(entries, directory)[0],
        forall|j: int|
            0 <= j < entries.len() && j != i ==> (#[trigger] entries[j]).definition.directory != directory,
    decreases entries.len(),
{
    let f = entries.drop_last();
    assert(entries[entries.len() - 1] == entries.last());
    if entries.last().definition.directory == directory {
        lemma_names_in(f, directory);
        assert forall|j: int| 0 <= j < entries.len() && j != entries.len() - 1 implies (
        #[trigger] entries[j]).definition.directory != directory by {
            assert(f[j] == entries[j]);
        }
        entries.len() - 1
    } else {
        let i = lemma_only_one(f, directory);
        assert forall|j: int| 0 <= j < entries.len() && j != i implies (
        #[trigger] entries[j]).definition.directory != directory by {
            if j < f.len() {
                assert(f[j] == entries[j]);
            }
        }
        i
    }
}

proof fn lemma_one_name(entries: Seq<EntryView>, directory: Seq<char>, i: int)
    requires
        0 <= i < entries.len(),
        entries[i].definition.directory == directory,
        forall|j: int|
            0 <= j < entries.len() && j != i ==> (#[trigger] entries[j]).definition.directory != directory,
    ensures
        names_in_directory(entries, directory).len() == 1,
    decreases entries.len(),
{
    let f = entries.drop_last();
    let n = entries.len() - 1;
    assert(entries[n] == entries.last());
    if i == n {
        lemma_names_in(f, directory);
        assert forall|j: int| 0 <= j < f.len() implies (#[trigger] f[j]).definition.directory != directory by {
            assert(f[j] == entries[j]);
        }
    } else {
        assert(f[i] == entries[i]);
        assert forall|j: int| 0 <= j < f.len() && j != i implies (#[trigger] f[j]).definition.directory
            != directory by {
            assert(f[j] == entries[j]);
        }
        lemma_one_name(f, directory, i);
    }
}

/// What a request does first to the service that it names: a restart and a start go for the
/// definition or the runner, a stop for the runner, disabling stops it, and questions go to the
/// runner as they are.
pub proof fn law_requests_reach_their_service(t: Table, i: int, name: String, canonical: Result<String, String>)
    requires
        distinct_names(t.entries),
        0 <= i < t.entries.len(),
        t.entries[i].definition.config.name == name@,
        target_refusal(name@) is None,
    ensures
        ({
            let e = t.entries[i];
            let target = Target::Name(name);
            let job = |op: OpView, phase: Phase|
                JobView {
                    op,
                    name: name@,
                    kind: e.kind,
                    service: Some(e.definition),
                    socket: e.socket,
                    phase,
                    error: Seq::empty(),
                };
            &&& forall|r: Begin| #[trigger] is_begin(t, Request::Disable { target }, canonical, r) ==> begin_view(r)
                == Some(ProgressView::StopRunner(job(OpView::Disable, Phase::Stopping)))
            &&& forall|r: Begin| #[trigger] is_begin(t, Request::Start { target }, canonical, r) ==> begin_view(r)
                == Some(ProgressView::Open(job(OpView::Start, Phase::Open)))
            &&& forall|r: Begin| #[trigger] is_begin(t, Request::Stop { target }, canonical, r) ==> begin_view(r)
                == Some(ProgressView::Open(job(OpView::Stop, Phase::Open)))
            &&& e.kind is Enabled ==> forall|r: Begin|
                #[trigger] is_begin(t, Request::Restart { target }, canonical, r) ==> begin_view(r) == Some(
                    ProgressView::Load(job(OpView::Restart, Phase::Load)),
                )
            &&& e.kind is Temporary ==> forall|r: Begin|
                #[trigger] is_begin(t, Request::Restart { target }, canonical, r) ==> begin_view(r) == Some(
                    ProgressView::Open(job(OpView::Restart, Phase::Ready)),
                )
            &&& forall|r: Begin|
                #[trigger] is_begin(t, Request::HistoryList { target }, canonical, r) ==> begin_view(r) == Some(
                    ProgressView::Ask(job(OpView::HistoryList, Phase::Send), AskView::HistoryList),
                )
            &&& forall|r: Begin, id: String, offset: u64, limit: u32|
                #[trigger] is_begin(t, Request::HistoryChunk { target, id, offset, limit }, canonical, r)
                    ==> begin_view(r) == Some(
                    ProgressView::Ask(
                        job(OpView::HistoryChunk, Phase::Send),
                        AskView::HistoryChunk { id: id@, offset, limit },
                    ),
                )
            &&& forall|r: Begin, token: String, cols: u16, rows: u16|
                cols > 0 && rows > 0 && #[trigger] is_begin(t, Request::Resize { name, token, cols, rows }, canonical, r)
                    ==> begin_view(r) == Some(
                    ProgressView::Ask(
                        job(OpView::Resize, Phase::Send),
                        AskView::Resize { token: token@, cols, rows },
                    ),
                )
        }),
{
    lemma_place(t, i);
}

/// An answer to a question about the history, or to a size, reaches the client as the runner gave
/// it.
pub proof fn law_answers_are_passed_on(
    t: Table,
    job: JobView,
    answer: RunnerResponse,
    shown: Seq<char>,
    logs: Seq<char>,
)
    ensures
        ({
            let (after, p) = after_answer(t, job, Ok(answer), shown, logs);
            let done = |reply: ReplyView| ProgressView::Done { result: Ok(reply), watch: None };
            &&& job.op is HistoryList || job.op is HistoryChunk || job.op is Resize ==> after == t
            &&& job.op is HistoryList ==> (answer@ matches AnswerView::HistoryList(records) ==> p == done(
                ReplyView::HistoryList { service: job.name, records },
            ))
            &&& job.op is HistoryChunk && answer@ is HistoryChunk ==> p == done(
                ReplyView::HistoryChunk { service: job.name, chunk: answer@ },
            )
            &&& job.op is Resize && answer@ is Done ==> p == done(ReplyView::Done)
            &&& job.op is HistoryList && !(answer@ is HistoryList) ==> (p matches ProgressView::Done { result, .. }
                && result is Err)
            &&& job.op is HistoryChunk && !(answer@ is HistoryChunk) ==> (p matches ProgressView::Done {
                result,
                ..
            } && result is Err)
            &&& job.op is Resize && !(answer@ is Done) ==> (p matches ProgressView::Done { result, .. } && result is Err)
        }),
{
}

/// The logs of all services lie below the state directory.
pub proof fn law_logs_lie_in_the_state_directory(m: ManagerState)
    requires
        m.paths.state_home@.len() > 0,
        m.paths.state_home@.last() != '/',
    ensures
        m.logs() == m.paths.state_home@ + "/"@ + "served"@ + "/"@ + "logs"@,
{
    reveal_strlit("served");
    reveal_strlit("logs");
    reveal_strlit("/");
    let a = m.paths.state_home@ + "/"@ + "served"@;
    assert(a.last() == 'd');
    assert(joined(m.paths.state_home@, "served"@) == a);
}

} // verus!
