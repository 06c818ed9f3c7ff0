//! What a runner does with its service, whatever state it is in.
use crate::config::RestartPolicy;
use crate::runner::{
    attaching, count32, detached, evented, finished, in_order, is_chunk_step, is_log_outcome, logs_configured,
    logs_fresh, logs_set, pruned,
    requested, resized, status_of, AttachErrorView, LogStep, Metadata, PendingView, RunnerCore,
    RunnerState, StepView,
};
use crate::logs::store::LogStore;
use crate::runner_protocol::{AnswerView, LaunchView, RunnerRequest, StatusView};
use crate::worker::WorkerEvent;
use vstd::prelude::*;

verus! {

/// A runner that has begun to run that definition, and no other.
pub open spec fn runs(c: RunnerCore, step: StepView, before: RunnerCore, spec: LaunchView) -> bool {
    &&& c.spec == Some(spec)
    &&& c.state is Starting
    &&& c.worker && c.task
    &&& c.pid is None && c.pid_start_time is None
    &&& !c.attach_active && c.attach_token is None
    &&& !c.manually_stopped
    &&& c.name == before.name
    &&& c.failures == before.failures
    &&& step matches StepView::Spawn(s)
    &&& s.directory == spec.directory
    &&& s.config == spec.config
    &&& s.environment == spec.environment
}

/// A runner whose service is down because somebody asked for it.
pub open spec fn rests(c: RunnerCore, before: RunnerCore) -> bool {
    &&& c.state is Stopped
    &&& c.manually_stopped
    &&& c.pid is None && c.pid_start_time is None
    &&& !c.attach_active && c.attach_token is None
    &&& c.name == before.name
    &&& c.spec == before.spec
    &&& c.failures == before.failures
}

/// A restart is never answered by leaving the service as it is: a worker that is there has to end
/// first, and with none the new definition is started at once. Only a process without a worker
/// stands in the way, and then the request is refused.
pub proof fn law_a_restart_starts_the_new_definition(
    c: RunnerCore,
    request: RunnerRequest,
    spec: LaunchView,
    directory: Seq<char>,
    status: StatusView,
    now: u64,
)
    requires
        request matches RunnerRequest::Restart { spec: s, log_directory: d } && s@ == spec && d@ == directory,
    ensures
        ({
            let (after, step) = requested(c, request, status, now);
            &&& c.task ==> after == c && step == StepView::Finish(
                PendingView::Restart { spec, log_directory: directory },
            )
            &&& !c.task && c.pid is None ==> runs(after, step, c, spec)
            &&& !c.task && c.pid is Some ==> after == c && step is Refuse
        }),
{
}

/// Once the worker has ended, the definition that was asked for runs, or the service is down for
/// good, as it was asked. Where it could not be ended, the request fails.
pub proof fn law_what_waited_for_the_worker_happens(
    c: RunnerCore,
    spec: LaunchView,
    directory: Seq<char>,
    result: Result<(), String>,
    alive: bool,
)
    ensures
        result is Ok ==> {
            let (after, step) = finished(c, PendingView::Restart { spec, log_directory: directory }, result, alive);
            runs(after, step, c, spec)
        },
        result is Ok ==> {
            let (after, step) = finished(c, PendingView::StopService, result, alive);
            rests(after, c) && !after.worker && !after.task && step == StepView::Answer(
                AnswerView::Done,
                Metadata::Write,
            )
        },
        result is Ok ==> {
            let (after, step) = finished(c, PendingView::Stop, result, alive);
            rests(after, c) && !after.worker && !after.task && step == StepView::Answer(
                AnswerView::Done,
                Metadata::Remove,
            )
        },
        result is Err ==> forall|p: PendingView|
            (#[trigger] finished(c, p, result, alive)).1 == StepView::Refuse(result->Err_0@, Metadata::Keep)
                && finished(c, p, result, alive).0 == (RunnerCore { task: alive, ..c }),
{
}

/// Stopping ends the worker first; without one the service is down at once.
pub proof fn law_a_stop_ends_the_service(c: RunnerCore, status: StatusView, now: u64)
    ensures
        ({
            let (after, step) = requested(c, RunnerRequest::StopService, status, now);
            &&& c.task ==> after == c && step == StepView::Finish(PendingView::StopService)
            &&& !c.task && c.pid is None ==> rests(after, c) && step == StepView::Answer(
                AnswerView::Done,
                Metadata::Write,
            )
            &&& !c.task && c.pid is Some ==> after == c && step is Refuse
        }),
        ({
            let (after, step) = requested(c, RunnerRequest::Stop, status, now);
            &&& c.task ==> after == c && step == StepView::Finish(PendingView::Stop)
            &&& !c.task && c.pid is None ==> rests(after, c) && step == StepView::Answer(
                AnswerView::Done,
                Metadata::Remove,
            )
            &&& !c.task && c.pid is Some ==> after == c && step is Refuse
        }),
{
}

/// Starting leaves a service alone that is on its way or up, and otherwise does what a restart
/// does.
pub proof fn law_a_start_starts_what_is_down(
    c: RunnerCore,
    request: RunnerRequest,
    spec: LaunchView,
    directory: Seq<char>,
    status: StatusView,
    now: u64,
)
    requires
        request matches RunnerRequest::StartService { spec: s, log_directory: d } && s@ == spec && d@ == directory,
    ensures
        ({
            let (after, step) = requested(c, request, status, now);
            let down = c.state is Stopped || c.state is Failed;
            &&& !down ==> after == c && step == StepView::Answer(AnswerView::Done, Metadata::Keep)
            &&& down && c.task ==> after == c && step == StepView::Finish(
                PendingView::Restart { spec, log_directory: directory },
            )
            &&& down && !c.task && c.pid is None ==> runs(after, step, c, spec)
            &&& down && !c.task && c.pid is Some ==> after == c && step is Refuse
        }),
{
}

/// A runner that is told what to run runs it, unless it was stopped by hand or runs just that
/// already. What runs otherwise is ended first.
pub proof fn law_a_configured_service_runs(
    c: RunnerCore,
    request: RunnerRequest,
    spec: LaunchView,
    directory: Seq<char>,
    status: StatusView,
    now: u64,
)
    requires
        request matches RunnerRequest::Configure { spec: s, log_directory: d } && s@ == spec && d@ == directory,
    ensures
        ({
            let (after, step) = requested(c, request, status, now);
            let done = StepView::Answer(AnswerView::Done, Metadata::Keep);
            &&& c.manually_stopped ==> after == c && step == done
            &&& !c.manually_stopped && c.worker && c.spec == Some(spec) ==> after == c && step == done
            &&& !c.manually_stopped && c.worker && c.spec is Some && c.spec != Some(spec) && c.task ==> after == c
                && step == StepView::Finish(PendingView::Restart { spec, log_directory: directory })
            &&& !c.manually_stopped && !c.worker ==> runs(after, step, c, spec)
            &&& !c.manually_stopped && c.spec is None ==> runs(after, step, c, spec)
        }),
{
}

/// A runner that is told of a service that was stopped by hand notes it and starts nothing.
pub proof fn law_a_stopped_service_is_only_noted(
    c: RunnerCore,
    request: RunnerRequest,
    spec: LaunchView,
    status: StatusView,
    now: u64,
)
    requires
        request matches RunnerRequest::ConfigureStopped { spec: s, .. } && s@ == spec,
    ensures
        ({
            let (after, step) = requested(c, request, status, now);
            &&& !(step is Spawn) && !(step is Finish)
            &&& c.spec is None ==> after == (RunnerCore { spec: Some(spec), manually_stopped: true, ..c })
                && step == StepView::Answer(AnswerView::Done, Metadata::Write)
            &&& c.spec is Some ==> after == c && step is Refuse
        }),
{
}

/// What a runner says of itself is how it is.
pub proof fn law_the_status_tells_how_it_is(c: RunnerCore, logs: Option<LogStore>, now: u64, runner_pid: u32)
    ensures
        ({
            let s = status_of(c, logs, now, runner_pid);
            &&& s.name == c.name
            &&& s.runner_pid == runner_pid
            &&& s.state == c.state
            &&& s.pid == c.pid
            &&& s.pid_start_time == c.pid_start_time
            &&& s.spec == c.spec
            &&& s.manually_stopped == c.manually_stopped
            &&& s.attach_active == c.attach_active
            &&& s.supports_start_stop
            &&& s.window_seconds == 60
            &&& c.spec matches Some(spec) ==> s.tty == spec.config.tty && s.persist_logs
                == spec.config.persist_logs && s.restart == (match spec.config.restart {
                RestartPolicy::Never => "never"@,
                RestartPolicy::OnFailure => "on-failure"@,
                RestartPolicy::Always => "always"@,
            })
            &&& c.spec is None ==> !s.tty && !s.persist_logs && s.restart == "never"@
            &&& in_order(c.failures) && c.failures.len() <= u32::MAX ==> s.recent_failures == c.failures.filter(
                |t: u64| !(now >= t && now - t >= 60_000),
            ).len()
        }),
{
    if in_order(c.failures) {
        lemma_recent(c.failures, now);
    }
}

/// In order of time, the failures of the last minute are those that are left.
proof fn lemma_recent(failures: Seq<u64>, now: u64)
    requires
        in_order(failures),
    ensures
        pruned(failures, now) == failures.filter(|t: u64| !(now >= t && now - t >= 60_000)),
        pruned(failures, now).len() <= failures.len(),
    decreases failures.len(),
{
    let counts = |t: u64| !(now >= t && now - t >= 60_000);
    if failures.len() == 0 {
        reveal(Seq::filter);
        assert(failures.filter(counts) =~= failures);
    } else if !counts(failures[0]) {
        let rest = failures.drop_first();
        assert(in_order(rest)) by {
            assert forall|i: int, j: int| 0 <= i <= j < rest.len() implies rest[i] <= rest[j] by {
                assert(failures[i + 1] <= failures[j + 1]);
            }
        }
        lemma_recent(rest, now);
        assert(failures =~= seq![failures[0]] + rest);
        Seq::filter_distributes_over_add(seq![failures[0]], rest, counts);
        assert(seq![failures[0]].filter(counts) =~= Seq::empty()) by {
            reveal_with_fuel(Seq::filter, 2);
            assert(seq![failures[0]].drop_last() =~= Seq::<u64>::empty());
            assert(seq![failures[0]].last() == failures[0]);
        }
        assert(Seq::<u64>::empty() + rest.filter(counts) =~= rest.filter(counts));
    } else {
        assert(failures =~= failures.take(failures.len() as int));
        lemma_all_count(failures, failures, counts);
    }
}

proof fn lemma_all_count(s: Seq<u64>, all: Seq<u64>, counts: spec_fn(u64) -> bool)
    requires
        in_order(all),
        all.len() > 0,
        counts(all[0]),
        forall|t: u64, u: u64| t <= u && #[trigger] counts(t) ==> #[trigger] counts(u),
        s.len() <= all.len(),
        s == all.take(s.len() as int),
    ensures
        s.filter(counts) == s,
    decreases s.len(),
{
    reveal(Seq::filter);
    if s.len() > 0 {
        let f = s.drop_last();
        assert(f =~= all.take(f.len() as int));
        lemma_all_count(f, all, counts);
        assert(s.last() == all[s.len() - 1]);
        assert(all[0] <= all[s.len() - 1]);
        assert(f.push(s.last()) =~= s);
    }
}

/// A client gets into a service that runs and has a worker: into a terminal only while nobody else
/// is in it, and then with a token of its own. Into any other state it does not get, and where it
/// failed three times in the last minute it is told of a crash loop.
pub proof fn law_who_may_attach(c: RunnerCore, latest: Option<Seq<char>>, now: u64, token: Seq<char>)
    ensures
        ({
            let (after, result) = attaching(c, latest, now, token);
            let open = c.spec is Some && c.worker && c.state is Running;
            &&& result is Ok <==> open && !(c.spec->0.config.tty && c.attach_active)
            &&& result is Ok && c.spec->0.config.tty ==> after == (RunnerCore {
                attach_active: true,
                attach_token: Some(token),
                ..c
            })
            &&& result is Ok && !c.spec->0.config.tty ==> after == c
            &&& result is Err ==> after.attach_token == c.attach_token && after.attach_active == c.attach_active
                && after.state == c.state && after.spec == c.spec
            &&& c.spec is Some && !open ==> (result matches Err(AttachErrorView::CrashLoop {
                name,
                recent_failures,
                latest_log,
            }) <==> pruned(c.failures, now).len() >= 3)
            &&& result matches Err(AttachErrorView::CrashLoop { name, recent_failures, latest_log }) ==> name
                == c.name && recent_failures == count32(pruned(c.failures, now).len()) && latest_log == latest
                && recent_failures >= 3
        }),
{
}

/// A client that leaves makes room for the next one; nobody else's leaving does.
pub proof fn law_leaving_makes_room(c: RunnerCore, token: Seq<char>)
    ensures
        c.attach_token == Some(token) ==> detached(c, token) == (RunnerCore {
            attach_active: false,
            attach_token: None,
            ..c
        }),
        c.attach_token != Some(token) ==> detached(c, token) == c,
{
}

/// A size goes to the terminal exactly where it has one that follows its client, the client is the
/// one that is attached, and the size is one.
pub proof fn law_whose_size_counts(c: RunnerCore, token: Seq<char>, cols: u16, rows: u16)
    ensures
        resized(c, token, cols, rows) == (StepView::Resize { cols, rows }) <==> {
            &&& cols > 0 && rows > 0
            &&& c.spec is Some && c.spec->0.config.tty && c.spec->0.config.sync_rows_cols
            &&& c.attach_active && c.attach_token == Some(token)
            &&& c.worker
        },
        resized(c, token, cols, rows) is Refuse <==> {
            ||| cols == 0 || rows == 0
            ||| c.spec is None
            ||| c.spec->0.config.tty && c.spec->0.config.sync_rows_cols && c.attach_active && c.attach_token
                == Some(token) && !c.worker
        },
        resized(c, token, cols, rows) is Resize || resized(c, token, cols, rows) is Refuse || resized(
            c,
            token,
            cols,
            rows,
        ) == StepView::Answer(AnswerView::Done, Metadata::Keep),
{
}

/// What is known of a service follows what its worker reports.
pub proof fn law_the_runner_follows_the_worker(c: RunnerCore, event: WorkerEvent, now: u64, started: Option<u64>)
    ensures
        ({
            let after = evented(c, event, now, started);
            let gone = after.pid is None && after.pid_start_time is None && !after.attach_active
                && after.attach_token is None;
            &&& after.name == c.name && after.spec == c.spec && after.task == c.task
            &&& after.manually_stopped == c.manually_stopped
            &&& event matches WorkerEvent::Starting { .. } ==> after.state is Starting && after.pid is None
                && after.worker == c.worker && after.failures == c.failures
            &&& event matches WorkerEvent::Started { pid, .. } ==> after.state is Running && after.pid == Some(pid)
                && after.pid_start_time == started && after.worker == c.worker && after.failures == c.failures
            &&& event matches WorkerEvent::Output { .. } ==> after == c
            &&& event matches WorkerEvent::Exited { success, .. } ==> {
                let again = c.spec is Some && (match c.spec->0.config.restart {
                    RestartPolicy::Always => true,
                    RestartPolicy::OnFailure => !success,
                    RestartPolicy::Never => false,
                });
                &&& gone
                &&& after.worker == c.worker
                &&& again ==> after.state is Restarting
                &&& !again ==> after.state is Stopped
                &&& success ==> after.failures == c.failures
                &&& !success ==> after.failures.len() > 0 && after.failures.last() == now
            }
            &&& event matches WorkerEvent::Restarting { .. } ==> gone && after.state is Restarting && after.worker
                == c.worker && after.failures == c.failures
            &&& event matches WorkerEvent::Stopped { .. } ==> gone && after.state is Stopped && !after.worker
                && after.failures == c.failures
            &&& event matches WorkerEvent::Failed { .. } ==> gone && after.state is Failed && after.worker
                == c.worker && after.failures.len() > 0 && after.failures.last() == now
            &&& event matches WorkerEvent::AttachChanged { active, .. } ==> after.attach_active == active
                && after.state == c.state && after.pid == c.pid && after.worker == c.worker && (active
                ==> after.attach_token == c.attach_token) && (!active ==> after.attach_token is None)
        }),
{
}

/// A failure is remembered beside those of the last minute, so that three within a minute are
/// seen as a crash loop.
pub proof fn law_failures_add_up(c: RunnerCore, event: WorkerEvent, now: u64, started: Option<u64>)
    requires
        in_order(c.failures),
        forall|i: int| 0 <= i < c.failures.len() ==> #[trigger] c.failures[i] <= now,
        event is Failed || (event matches WorkerEvent::Exited { success, .. } && !success),
    ensures
        ({
            let after = evented(c, event, now, started).failures;
            &&& in_order(after)
            &&& after == c.failures.filter(|t: u64| !(now >= t && now - t >= 60_000)).push(now)
            &&& pruned(after, now) == after
        }),
{
    let after = evented(c, event, now, started).failures;
    lemma_recent(c.failures, now);
    lemma_pruned_ends(c.failures, now);
    let kept = pruned(c.failures, now);
    assert(in_order(after)) by {
        assert forall|i: int, j: int| 0 <= i <= j < after.len() implies after[i] <= after[j] by {
            if i < kept.len() {
                assert(c.failures[c.failures.len() - kept.len() + i] == kept[i]);
            }
            if j < kept.len() {
                assert(c.failures[c.failures.len() - kept.len() + j] == kept[j]);
            }
        }
    }
}

/// What is left of the failures is the end of them, and begins with one that counts.
proof fn lemma_pruned_ends(failures: Seq<u64>, now: u64)
    ensures
        pruned(failures, now).len() <= failures.len(),
        pruned(failures, now) == failures.skip(failures.len() - pruned(failures, now).len()),
        pruned(failures, now).len() > 0 ==> !(now >= pruned(failures, now)[0] && now - pruned(failures, now)[0]
            >= 60_000),
    decreases failures.len(),
{
    if failures.len() > 0 && now >= failures[0] && now - failures[0] >= 60_000 {
        lemma_pruned_ends(failures.drop_first(), now);
        let kept = pruned(failures, now);
        assert(failures.skip(failures.len() - kept.len()) =~= failures.drop_first().skip(
            failures.drop_first().len() - kept.len(),
        ));
    } else {
        assert(failures.skip(0) =~= failures);
    }
}

/// No output is lost on its way: it is the newest of what is kept in memory, it goes to disk as it
/// came where the run is kept there, and nothing but output changes what is kept. A run begins
/// with its service, and is kept on disk where the service says so.
pub proof fn law_output_is_kept(before: Option<LogStore>, event: WorkerEvent, after: Option<LogStore>, step: LogStep)
    requires
        is_log_outcome(before, event, after, step),
    ensures
        before is Some <==> after is Some,
        (event matches WorkerEvent::Output { bytes, .. } && before is Some) ==> {
            let bytes = event->Output_bytes@;
            let kept = after->0.current@;
            let all = before->0.current@ + bytes;
            &&& kept.len() == if all.len() <= 65_536 {
                all.len()
            } else {
                65_536
            }
            &&& kept == all.skip(all.len() - kept.len())
            &&& bytes.len() <= 65_536 ==> kept.skip(kept.len() - bytes.len()) == bytes
            &&& before->0.segment_open <==> step is Write
            &&& step matches LogStep::Write(b) ==> b@ == bytes
            &&& step !is Begin
        },
        event !is Output ==> after == before && step !is Write,
        step matches LogStep::Begin { persist_logs } ==> (event matches WorkerEvent::Starting { persist_logs: p, .. } && p
            == persist_logs),
        event is Starting && before is Some ==> step is Begin,
{
    if event is Output && before is Some {
        let bytes = event->Output_bytes@;
        let all = before->0.current@ + bytes;
        let kept = after->0.current@;
        assert(kept =~= all.skip(all.len() - kept.len()));
        if bytes.len() <= 65_536 {
            assert(kept.skip(kept.len() - bytes.len()) =~= bytes);
        }
    }
}

/// The output of a service is kept within the limits that its definition gives, and what was kept
/// before stays.
pub proof fn law_limits_are_those_of_the_service(
    before: Option<LogStore>,
    after: Option<LogStore>,
    spec: LaunchView,
    directory: Seq<char>,
)
    requires
        logs_set(before, after, spec, directory),
        spec.config.log_max_bytes > 0,
        spec.config.log_max_files > 0,
    ensures
        after is Some,
        after->0.max_bytes == spec.config.log_max_bytes,
        after->0.max_files == spec.config.log_max_files,
        before matches Some(b) ==> after->0.current == b.current && after->0.memory_archives == b.memory_archives
            && after->0.directory == b.directory && after->0.current_started == b.current_started,
        before is None ==> logs_fresh(after->0, spec, directory) && after->0.directory@ == directory
            && after->0.current@.len() == 0,
{
}

/// A part of a run is answered as it was read, under the name and the place that were asked for.
/// What is in memory is answered at once; what is on disk is read from the file of that run.
pub proof fn law_parts_are_answered_as_read(
    step: StepView,
    logs: Option<LogStore>,
    id: Seq<char>,
    offset: u64,
    limit: u32,
)
    requires
        is_chunk_step(step, logs, id, offset, limit),
    ensures
        logs is None ==> step is Refuse,
        step matches StepView::Answer(a, _) ==> (a matches AnswerView::HistoryChunk {
            id: i,
            offset: o,
            next_offset,
            total,
            total_lines,
            eof,
            content,
        } && i == id && o == offset && (offset <= total ==> offset <= next_offset <= total && (eof <==> next_offset
            == total))),
        step matches StepView::ReadFile { id: i, offset: o, file, lines, limit: l } ==> {
            &&& i == id && o == offset && 1 <= l <= 49_152
            &&& id == "latest"@ ==> file == "latest.log"@ && lines is Some
            &&& id != "latest"@ ==> file == id && lines is None
        },
        (logs matches Some(l) && l.current_started is Some && !l.current_persisted) && id == "latest"@ ==> (
        step matches StepView::Answer(AnswerView::HistoryChunk { total, .. }, _) && total == logs->0.current@.len()),
        (logs matches Some(l) && l.current_persisted) && id == "latest"@ ==> step is ReadFile,
        step is Answer || step is ReadFile || step is Refuse,
{
}

/// A runner that is told what to run keeps its output within the limits that it is told.
pub proof fn law_a_configured_runner_keeps_its_limits(
    before: RunnerState,
    after: Option<LogStore>,
    spec: LaunchView,
    directory: Seq<char>,
)
    requires
        logs_configured(before, after, spec, directory),
        spec.config.log_max_bytes > 0,
        spec.config.log_max_files > 0,
    ensures
        after is Some,
        after->0.max_bytes == spec.config.log_max_bytes,
        after->0.max_files == spec.config.log_max_files,
        before.spec is Some && before.worker && before.logs is Some ==> after->0.current == before.logs->0.current
            && after->0.memory_archives == before.logs->0.memory_archives,
        before.spec is None || !before.worker ==> after->0.directory@ == directory,
{
}

} // verus!
