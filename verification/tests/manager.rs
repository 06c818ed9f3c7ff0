use served::config::{LoadedService, RestartPolicy, ServiceConfig};
use served::env::EnvMap;
use served::manager::daemon::{
    answer_greeting, course, daemon_step, exit_code, manager_words, prepare_socket, reply,
    validate_handoff_executable, Course, DaemonEnd, DaemonEvent, DaemonExit, FileFacts,
    SocketFinding, SocketPlan,
};
use served::manager::definition::{
    adopt_stopped, adopt_transient, canonical_directory, check_enable, inspect_transient,
    is_consistent, is_orphan, judge_transient, place_source, plan_source, restore_enabled, runner_identity_alive,
    select_directory, AdoptStep, EnabledDefinition, RestoreStep, RunFacts, ServiceSource,
    SourcePlan, TransientDefinition, TransientFault, TransientStep,
};
use served::manager::jobs::{require_start_stop, Goal, Job, Progress};
use served::manager::reaper::{captured, InheritedRunners, Sight, Trace};
use served::manager::requests::{
    attach_answered, attach_refusal, Begin, PrepareAttachError,
};
use served::manager::retire::{
    discard_needs_stop, discard_removes, handoff_answered, handoff_looked, is_replaced, overall,
    relinquish_answered, relinquish_looked, retire, retired, shutdown_answered, stop_answered,
    stop_looked, OpenStep, Opening, Patience, RetireEnd, RetireStep, ShutdownStep, StopStep,
    WaitStep,
};
use served::manager::shell::shell_command;
use served::manager::table::{validate_target_name, ManagerState};
use served::manager::watcher::{RunnerUpdate, WatchStep, Watcher};
use served::paths::ServedPaths;
use served::process::ProcessInfo;
use served::protocol::{
    accept_greeting, Request, Response, RunSpec, ServiceKind, ServiceState, Target,
};
use served::runner::initial_status;
use served::runner_protocol::{
    LaunchSpec, RunnerMetadata, RunnerRequest, RunnerResponse, RunnerServiceState, RunnerStatus,
};

fn loaded(name: &str) -> LoadedService {
    let mut config = ServiceConfig::template("/srv/api");
    config.name = name.to_owned();
    LoadedService {
        directory: "/srv/api".to_owned(),
        config_file: Some("/srv/api/.served.json5".to_owned()),
        config,
        environment: EnvMap::new(),
    }
}

fn status(state: RunnerServiceState, pid: Option<u32>) -> RunnerStatus {
    let mut status = initial_status("api", 10);
    status.supports_start_stop = true;
    status.state = state;
    status.pid = pid;
    status
}

fn running() -> RunnerStatus {
    status(RunnerServiceState::Running, Some(11))
}

fn manager() -> ManagerState {
    ManagerState::new(ServedPaths::from_home("/home/u"), EnvMap::new())
}

fn managing(status: RunnerStatus) -> ManagerState {
    let mut manager = manager();
    let generation = manager.track_service(loaded("api"), ServiceKind::Enabled, "/run/api".to_owned(), status);
    assert_eq!(generation, 1);
    manager
}

fn named(name: &str) -> Target {
    Target::Name(name.to_owned())
}

fn start(manager: &ManagerState, request: Request) -> Progress {
    match manager.handle_request(request, Err("no directory".to_owned())) {
        Begin::Run(progress) => progress,
        other => panic!("a job expected, not {other:?}"),
    }
}

fn ok(status: RunnerStatus) -> Result<RunnerResponse, String> {
    Ok(RunnerResponse::Status { status })
}

fn ended(progress: Progress) -> Result<Response, String> {
    match progress {
        Progress::Done { result, .. } => result,
        other => panic!("the end expected, not {other:?}"),
    }
}

fn asked(progress: Progress) -> (Job, RunnerRequest) {
    match progress {
        Progress::Ask(job, request) => (job, request),
        other => panic!("a question expected, not {other:?}"),
    }
}

fn opened(manager: &mut ManagerState, progress: Progress) -> (Job, RunnerRequest) {
    match progress {
        Progress::Open(job) => asked(manager.opened(job, Ok("/run/api".to_owned()))),
        other => panic!("a runner expected, not {other:?}"),
    }
}

#[test]
fn older_runners_are_told_nothing_that_changes_them() {
    let mut old = running();
    old.supports_start_stop = false;
    let mut manager = managing(old.clone());
    for request in [Request::Start { target: named("api") }, Request::Stop { target: named("api") }] {
        let progress = start(&manager, request);
        let (job, question) = opened(&mut manager, progress);
        assert!(matches!(question, RunnerRequest::Status));
        let error = ended(manager.answered(job, ok(old.clone()), "")).unwrap_err();
        assert!(error.contains("older runner"));
        assert!(error.contains("in-memory history"));
    }
    assert_eq!(manager.services[0].status.pid, Some(11));
    assert!(require_start_stop("api", ServiceKind::Temporary, &old)
        .unwrap_err()
        .contains("run it again with its original command"));
}

#[test]
fn starting_what_runs_changes_nothing() {
    let mut manager = managing(status(RunnerServiceState::Stopped, None));
    let progress = start(&manager, Request::Start { target: named("api") });
    let (job, _) = opened(&mut manager, progress);
    assert!(matches!(ended(manager.answered(job, ok(running()), "")), Ok(Response::Done)));
    assert_eq!(manager.services[0].status.pid, Some(11));
    assert_eq!(manager.services[0].watcher_generation, 1);
}

#[test]
fn a_stopped_service_is_read_again_and_started() {
    let mut manager = managing(status(RunnerServiceState::Stopped, None));
    let progress = start(&manager, Request::Start { target: named("api") });
    let (job, _) = opened(&mut manager, progress);
    let Progress::Load(job) =
        manager.answered(job, ok(status(RunnerServiceState::Stopped, None)), "")
    else {
        panic!("the definition is read")
    };
    let progress = manager.loaded(job, Ok(loaded("api")));
    let (job, order) = opened(&mut manager, progress);
    assert!(matches!(
        order,
        RunnerRequest::StartService { log_directory, .. }
            if log_directory == "/home/u/.local/state/served/logs/api"
    ));
    let (job, question) = asked(manager.answered(job, Ok(RunnerResponse::Done), ""));
    assert!(matches!(question, RunnerRequest::Status));
    let Progress::Done { result: Ok(Response::Done), watch: Some((socket, 2)) } =
        manager.answered(job, ok(running()), "")
    else {
        panic!("the service is watched")
    };
    assert_eq!(socket, "/run/api");
}

#[test]
fn a_renamed_or_broken_definition_is_not_started() {
    let mut manager = managing(running());
    for (definition, told) in [
        (Ok(loaded("other")), "start/restart cannot rename enabled service from \"api\" to \"other\"; disable it first"),
        (Err("broken".to_owned()), "broken"),
    ] {
        let Progress::Load(job) = start(&manager, Request::Restart { target: named("api") }) else {
            panic!("the definition is read")
        };
        assert_eq!(ended(manager.loaded(job, definition)).unwrap_err(), told);
    }
    assert_eq!(manager.services[0].status.pid, Some(11));
}

#[test]
fn a_manual_stop_outlasts_a_lost_runner() {
    let mut stopped = status(RunnerServiceState::Stopped, None);
    stopped.manually_stopped = true;
    let mut manager = managing(stopped);
    let lost = |generation| RunnerUpdate::Unavailable {
        name: "api".to_owned(),
        generation,
        error: "gone".to_owned(),
    };
    assert!(manager.handle_runner_update(lost(7)).is_none());
    let progress = manager.handle_runner_update(lost(1)).expect("another runner");
    let (job, _) = opened(&mut manager, progress);
    let (_, order) = asked(manager.answered(job, ok(status(RunnerServiceState::Stopped, None)), ""));
    assert!(matches!(order, RunnerRequest::ConfigureStopped { .. }));

    let Some(Progress::Open(job)) = manager.handle_runner_update(lost(1)) else {
        panic!("another runner")
    };
    assert_eq!(ended(manager.opened(job, Err("no runner".to_owned()))).unwrap_err(), "no runner");
    assert_eq!(manager.services[0].status.state, RunnerServiceState::Failed);
}

#[test]
fn enabling_that_fails_is_taken_back() {
    let mut manager = manager();
    let goal = Goal::Enable { link: "/reg/api".to_owned() };
    let Progress::Open(job) = manager.ensure_service(loaded("api"), ServiceKind::Enabled, goal) else {
        panic!("a runner expected")
    };
    let Progress::Remove(job) = manager.opened(job, Err("no runner".to_owned())) else {
        panic!("the link is removed")
    };
    assert_eq!(
        ended(manager.removed(job, Err("denied".to_owned()))).unwrap_err(),
        "no runner; rollback failed removing enable link /reg/api: denied"
    );
    let Progress::Open(job) =
        manager.ensure_service(loaded("tmp"), ServiceKind::Temporary, Goal::Temporary)
    else {
        panic!("a runner expected")
    };
    let Progress::Cleanup(job) = manager.opened(job, Err("no runner".to_owned())) else {
        panic!("all is removed")
    };
    assert_eq!(ended(manager.removed(job, Ok(()))).unwrap_err(), "no runner");
    assert!(matches!(
        manager.ensure_service(loaded(".."), ServiceKind::Enabled, Goal::Restore),
        Progress::Done { result: Err(e), .. } if e == "invalid service name \"..\""
    ));
    assert!(manager.services.is_empty());
}

#[test]
fn disabling_forgets_only_what_was_removed() {
    let mut manager = managing(running());
    let Progress::StopRunner(job) = start(&manager, Request::Disable { target: named("api") }) else {
        panic!("the runner is stopped")
    };
    let Progress::Remove(job) = manager.stopped(job, Ok(())) else { panic!("the link is removed") };
    assert_eq!(
        ended(manager.removed(job, Err("denied".to_owned()))).unwrap_err(),
        "remove enable link: denied"
    );
    assert!(manager.contains("api"));
    let Progress::StopRunner(job) = start(&manager, Request::Disable { target: named("api") }) else {
        panic!("the runner is stopped")
    };
    let Progress::Remove(job) = manager.stopped(job, Ok(())) else { panic!("the link is removed") };
    assert!(matches!(ended(manager.removed(job, Ok(()))), Ok(Response::Done)));
    assert!(!manager.contains("api"));
}

#[test]
fn requests_that_cannot_be_met_are_answered() {
    let manager = managing(running());
    let answer = |request: Request| match manager.handle_request(request, Ok("/srv/none".to_owned())) {
        Begin::Answer(Err(e)) => e,
        Begin::Run(Progress::Done { result: Err(e), .. }) => e,
        other => panic!("an error expected, not {other:?}"),
    };
    assert_eq!(answer(Request::Hello { version: 9 }), "handshake must be the first protocol message");
    assert_eq!(answer(Request::Attach { name: "api".to_owned() }), "attach requires a raw socket handoff");
    assert_eq!(
        answer(Request::ManagerShutdown),
        "manager lifecycle requests must use their dedicated control path"
    );
    assert_eq!(answer(Request::Stop { target: named("none") }), "service \"none\" is not managed");
    assert_eq!(answer(Request::Stop { target: named("a b") }), "invalid service name \"a b\"");
    assert!(answer(Request::Stop { target: Target::Directory("/srv/none".to_owned()) })
        .contains("no enabled service"));
    assert_eq!(
        answer(Request::Resize { name: "api".to_owned(), token: "t".to_owned(), cols: 0, rows: 1 }),
        "resize dimensions must be greater than zero"
    );
    assert!(matches!(
        manager.handle_request(Request::List, Err(String::new())),
        Begin::Answer(Ok(Response::Services { services }))
            if services.len() == 1 && services[0].state == ServiceState::Running
    ));
    assert!(validate_target_name("a-b.c_1").is_ok());
}

#[test]
fn answers_of_runners_are_passed_on() {
    let mut manager = managing(running());
    let (job, question) = asked(start(
        &manager,
        Request::HistoryChunk { target: named("api"), id: "latest".to_owned(), offset: 3, limit: 9 },
    ));
    assert!(matches!(question, RunnerRequest::HistoryChunk { offset: 3, limit: 9, .. }));
    let chunk = RunnerResponse::HistoryChunk {
        id: "latest".to_owned(),
        offset: 3,
        next_offset: 5,
        total: 5,
        total_lines: 1,
        eof: true,
        content: "ab".to_owned(),
    };
    assert!(matches!(
        ended(manager.answered(job, Ok(chunk), "")),
        Ok(Response::HistoryChunk { service, next_offset: 5, eof: true, content, .. })
            if service == "api" && content == "ab"
    ));
    let (job, _) = asked(start(&manager, Request::HistoryList { target: named("api") }));
    assert_eq!(
        ended(manager.answered(job, Ok(RunnerResponse::Done), "Done")).unwrap_err(),
        "unexpected runner history response: Done"
    );
}

#[test]
fn terminals_are_given_only_of_what_runs() {
    let mut manager = managing(running());
    assert_eq!(manager.prepare_attach("api").unwrap(), "/run/api");
    assert!(matches!(manager.prepare_attach("x"), Err(PrepareAttachError::Message(_))));
    assert!(manager.attach_checked("api", ok(running()), "").is_ok());
    let mut crashing = status(RunnerServiceState::Failed, None);
    crashing.recent_failures = 3;
    let refusal = manager.attach_checked("api", ok(crashing), "").unwrap_err();
    assert!(matches!(
        attach_refusal(refusal),
        Response::AttachUnavailable { recent_failures: 3, window_seconds: 60, .. }
    ));
    let refusal = manager.attach_checked("api", Err("gone".to_owned()), "").unwrap_err();
    assert!(matches!(
        attach_refusal(refusal),
        Response::Error { message } if message == "cannot query service runner: gone"
    ));
    assert!(matches!(
        attach_answered(RunnerResponse::Attach { token: "t".to_owned() }, ""),
        Ok(token) if token == "t"
    ));
    assert!(attach_answered(RunnerResponse::Done, "Done").is_err());
}

#[test]
fn generations_go_on_and_reports_of_old_watchers_do_not_count() {
    let mut manager = managing(running());
    manager.track_service(loaded("api"), ServiceKind::Enabled, "/run/api".to_owned(), running());
    manager.handle_runner_update(RunnerUpdate::Status {
        name: "api".to_owned(),
        generation: 1,
        status: status(RunnerServiceState::Stopped, None),
    });
    assert_eq!(manager.services[0].status.pid, Some(11));
    manager.handle_runner_update(RunnerUpdate::Status {
        name: "api".to_owned(),
        generation: 2,
        status: status(RunnerServiceState::Stopped, None),
    });
    assert_eq!(manager.services[0].status.pid, None);
    assert_eq!(manager.services.len(), 1);
}

fn stopped_status() -> RunnerStatus {
    status(RunnerServiceState::Stopped, None)
}

#[test]
fn watchers_ask_where_the_stream_breaks_off() {
    let mut watcher = Watcher::new("api".to_owned(), 7);
    assert_eq!(watcher.opened(true), WatchStep::Receive);
    let (told, next) = watcher.received(Err("closed".to_owned()), "");
    assert!(told.is_none());
    assert_eq!(next, WatchStep::Ask);
    let (told, next) = watcher.received(ok(stopped_status()), "");
    assert!(matches!(told, Some(RunnerUpdate::Status { generation: 7, .. })));
    assert_eq!(next, WatchStep::AskLater);
    let (told, _) = watcher.received(Err("gone".to_owned()), "");
    assert!(matches!(told, Some(RunnerUpdate::Unavailable { error, .. }) if error == "gone"));

    let mut watcher = Watcher::new("api".to_owned(), 9);
    watcher.opened(true);
    let (told, next) = watcher.received(ok(stopped_status()), "");
    assert!(told.is_some());
    assert_eq!(next, WatchStep::Receive);
    assert_eq!(Watcher::new("api".to_owned(), 1).opened(false), WatchStep::Ask);
}

fn trace(directory: &str, started: Option<u64>, found: Option<u64>) -> Trace {
    Trace {
        directory: Some(directory.to_owned()),
        metadata: RunnerMetadata {
            name: "self".to_owned(),
            runner_pid: 42,
            runner_start_time: started,
            service_pid: None,
            service_start_time: None,
        },
        started: found,
    }
}

#[test]
fn only_the_runners_that_left_a_trace_are_buried() {
    assert!(captured(&trace("other", Some(5), Some(5))).is_none());
    assert!(captured(&trace("self", Some(6), Some(5))).is_none());
    assert!(captured(&trace("self", Some(5), None)).is_none());
    let mut inherited =
        InheritedRunners::capture(&vec![trace("self", Some(5), Some(5)), trace("self", Some(6), Some(5))]);
    assert_eq!(inherited.runners.len(), 1);
    assert!(inherited.is_same(0, Some(5)) && !inherited.is_same(0, Some(6)));
    inherited.reap(&vec![Sight::Alive]);
    assert_eq!(inherited.runners.len(), 1);
    inherited.reap(&vec![Sight::NotAChild]);
    assert!(inherited.runners.is_empty());
}

#[test]
fn shells_are_handed_words_and_no_syntax() {
    let argv = ["printf", "hello world", "single'quote", "$HOME", ""].map(str::to_owned).to_vec();
    assert_eq!(
        shell_command(&argv),
        "'printf' 'hello world' 'single'\\''quote' '$HOME' ''"
    );
    assert_eq!(shell_command(&Vec::new()), "");
}

fn run_spec() -> RunSpec {
    let mut env = EnvMap::new();
    env.insert("A".to_owned(), "own".to_owned());
    RunSpec {
        directory: "/srv/job".to_owned(),
        name: "job".to_owned(),
        argv: vec!["echo".to_owned(), "a b".to_owned()],
        tty: true,
        sync_rows_cols: true,
        restart: "on-failure".to_owned(),
        persist_logs: false,
        log_max_bytes: 10,
        log_max_files: 1,
        env,
    }
}

fn run_facts() -> RunFacts {
    RunFacts {
        exists: true,
        is_dir: true,
        canonical: Ok("/data/job".to_owned()),
        linked: false,
        transient: false,
    }
}

#[test]
fn temporary_services_are_checked_before_they_run() {
    let mut manager = managing(running());
    manager.base_environment.insert("A".to_owned(), "base".to_owned());
    manager.base_environment.insert("B".to_owned(), "base".to_owned());
    let service = manager.run_temporary(run_spec(), run_facts()).unwrap();
    assert_eq!(service.directory, "/data/job");
    assert_eq!(service.config.command, "'echo' 'a b'");
    assert_eq!(service.config.restart, RestartPolicy::OnFailure);
    assert_eq!(service.environment.get("A").map(String::as_str), Some("own"));
    assert_eq!(service.environment.get("B").map(String::as_str), Some("base"));

    let refused = |spec: RunSpec, facts: RunFacts| manager.run_temporary(spec, facts).unwrap_err();
    assert_eq!(
        refused(RunSpec { restart: "often".to_owned(), ..run_spec() }, run_facts()),
        "invalid restart policy \"often\""
    );
    assert_eq!(
        refused(RunSpec { argv: vec![String::new()], ..run_spec() }, run_facts()),
        "temporary service program must not be empty"
    );
    assert_eq!(
        refused(run_spec(), RunFacts { exists: false, ..run_facts() }),
        "service directory does not exist: /srv/job"
    );
    assert_eq!(
        refused(run_spec(), RunFacts { is_dir: false, ..run_facts() }),
        "service directory is not a directory: /srv/job"
    );
    assert_eq!(
        refused(RunSpec { log_max_files: 0, ..run_spec() }, run_facts()),
        "log_max_files must be greater than zero"
    );
    for facts in [
        RunFacts { linked: true, ..run_facts() },
        RunFacts { transient: true, ..run_facts() },
    ] {
        assert_eq!(refused(run_spec(), facts), "service name \"job\" is already managed");
    }
    assert_eq!(
        refused(RunSpec { name: "api".to_owned(), ..run_spec() }, run_facts()),
        "service name \"api\" is already managed"
    );
}

#[test]
fn sources_are_placed_before_they_are_enabled() {
    assert_eq!(
        plan_source("/d".to_owned(), Some("a.json5".to_owned())).unwrap_err(),
        "configuration path must be absolute"
    );
    assert_eq!(
        plan_source("/d".to_owned(), Some("/".to_owned())).unwrap_err(),
        "configuration path must name a file"
    );
    let plan = plan_source("/d".to_owned(), Some("/c/x//api.json5".to_owned())).unwrap();
    assert_eq!(plan.path(), "/c/x");
    assert!(matches!(
        place_source(plan, Ok("/real/x".to_owned())),
        Ok(ServiceSource::File(f)) if f == "/real/x/api.json5"
    ));
    let plan = plan_source("/d".to_owned(), Some("/c/..".to_owned())).unwrap();
    assert_eq!(
        place_source(plan, Ok("/c".to_owned())).unwrap_err(),
        "configuration path must name a file"
    );
    assert!(matches!(
        place_source(SourcePlan::Directory("/d".to_owned()), Ok("/real".to_owned())),
        Ok(ServiceSource::Directory(d)) if d == "/real"
    ));
    let some = |s: &str| Some(s.to_owned());
    assert_eq!(select_directory(&some("/w"), &some("sub"), "/c"), "/w");
    assert_eq!(select_directory(&None, &some("../sub"), "/c"), "/c/../sub");
    assert_eq!(select_directory(&None, &some("/abs"), "/c"), "/abs");
    assert_eq!(select_directory(&None, &None, "/c"), "/c");
    assert_eq!(canonical_directory("/w", true, true, Ok("/v".to_owned())).unwrap(), "/v");
    assert!(canonical_directory("/w", false, false, Ok("/v".to_owned())).is_err());
    assert_eq!(
        check_enable("api", true, true).unwrap_err(),
        "service name \"api\" is already enabled"
    );
    assert_eq!(
        check_enable("api", false, true).unwrap_err(),
        "service name \"api\" is already managed"
    );
    assert!(check_enable("api", false, false).is_ok());
}

#[test]
fn definitions_are_checked_when_they_are_read_back() {
    let definition = |version: u32, source: &str, workdir: Option<&str>| EnabledDefinition {
        version,
        source: ServiceSource::File(source.to_owned()),
        workdir: workdir.map(str::to_owned),
    };
    assert!(definition(1, "/c/api", Some("/w")).checked().is_ok());
    for bad in [definition(999, "/c/api", None), definition(1, "c", None), definition(1, "/c", Some("w"))] {
        assert_eq!(bad.checked().unwrap_err(), "unsupported or invalid enabled definition");
    }
    assert!(EnabledDefinition::of_link("/d".to_owned(), true).unwrap().is_plain());
    assert!(!definition(1, "/c/api", None).is_plain());
    assert_eq!(
        EnabledDefinition::of_link("/d".to_owned(), false).unwrap_err(),
        "legacy enable link must point to a directory"
    );
    let transient = TransientDefinition { version: 2, spec: LaunchSpec::from_loaded(&loaded("api")) };
    assert_eq!(transient.checked().unwrap_err(), "unsupported transient definition version 2");
}

#[test]
fn services_are_taken_over_as_they_are() {
    assert!(matches!(restore_enabled("api", Ok(loaded("api")), false), RestoreStep::Ensure(_)));
    assert!(matches!(restore_enabled("api", Ok(loaded("api")), true), RestoreStep::Duplicate));
    assert!(matches!(restore_enabled("api", Ok(loaded("x")), false), RestoreStep::Renamed(n) if n == "x"));
    assert!(matches!(restore_enabled("api", Err("e".to_owned()), false), RestoreStep::Invalid(_)));

    let spec = LaunchSpec::from_loaded(&loaded("api"));
    let mut held = stopped_status();
    held.manually_stopped = true;
    held.spec = Some(spec.clone());
    let source = ServiceSource::Directory("/srv/api".to_owned());
    let adopted = adopt_stopped(held.clone(), &source, (false, true)).unwrap();
    assert_eq!(adopted.config_file.as_deref(), Some("/srv/api/.served.json"));
    assert!(adopt_stopped(running(), &source, (true, false)).is_none());

    assert_eq!(inspect_transient("api", true, false), TransientStep::Read);
    assert_eq!(inspect_transient("api", true, true), TransientStep::Overridden);
    assert_eq!(inspect_transient("..", true, false), TransientStep::Skip);
    assert!(is_consistent("api", &spec, &Some("/srv/api".to_owned())));
    assert!(!is_consistent("api", &spec, &Some("/srv/other".to_owned())));
    assert!(!is_consistent("api", &spec, &None));
    assert!(matches!(adopt_transient(spec.clone(), Ok(held)), AdoptStep::Ensure(_)));
    assert!(matches!(adopt_transient(spec.clone(), Ok(running())), AdoptStep::Discard));
    assert!(matches!(adopt_transient(spec, Err("e".to_owned())), AdoptStep::Leave(_)));
    assert!(is_orphan("api", false, false, false) && !is_orphan("api", false, true, false));

    let mut metadata = trace("self", Some(5), None).metadata;
    let alive = |start_time| Some(ProcessInfo { start_time, alive: true });
    assert!(runner_identity_alive(&metadata, alive(5), None));
    assert!(!runner_identity_alive(&metadata, alive(6), alive(9)));
    metadata.service_pid = Some(43);
    metadata.service_start_time = Some(9);
    assert!(runner_identity_alive(&metadata, None, alive(9)));
}

#[test]
fn runners_are_waited_for_but_not_for_ever() {
    let (mut opening, step) = Opening::new("api".to_owned());
    assert!(matches!(step, OpenStep::Connect));
    assert!(matches!(opening.connected(false), OpenStep::Identify));
    assert!(matches!(
        opening.identified(true),
        OpenStep::Failed(e) if e == "runner for service \"api\" is alive but its control socket is unavailable"
    ));
    assert!(matches!(opening.identified(false), OpenStep::Spawn));
    for _ in 0..99 {
        assert!(matches!(opening.connected(false), OpenStep::ConnectLater));
    }
    assert!(matches!(
        opening.connected(false),
        OpenStep::Failed(e) if e == "runner for service \"api\" did not become ready"
    ));
    assert!(matches!(opening.connected(true), OpenStep::Ready));

    let mut patience = Patience::new();
    assert!(matches!(stop_answered(Ok(RunnerResponse::Done), ""), StopStep::Look { later: false }));
    assert!(matches!(stop_answered(Err("e".to_owned()), ""), StopStep::Done(Err(_))));
    for _ in 0..99 {
        assert!(matches!(stop_looked("api", &mut patience, true), StopStep::Look { later: true }));
    }
    assert!(matches!(
        stop_looked("api", &mut patience, true),
        StopStep::Done(Err(e)) if e == "runner for \"api\" did not close its socket after stopping"
    ));
    assert!(matches!(stop_looked("api", &mut patience, false), StopStep::Done(Ok(()))));
}

#[test]
fn the_first_failure_is_told() {
    let results = vec![Ok(()), Err("first".to_owned()), Err("second".to_owned())];
    assert_eq!(overall(&results), Err("first".to_owned()));
    let mut manager = managing(running());
    let leaving = manager.leaving();
    assert_eq!((leaving[0].name.as_str(), leaving[0].socket.as_str()), ("api", "/run/api"));
    assert_eq!(manager.stop_all(&vec![Ok(())]), Ok(()));
    assert!(manager.services.is_empty());
    assert_eq!(retire("..", true, true), RetireStep::Skip);
    assert_eq!(retire("api", false, false), RetireStep::Clean);
    assert_eq!(retire("api", false, true), RetireStep::Stop);
    assert!(matches!(retired(Ok(()), true), RetireEnd::Forget));
    assert!(matches!(retired(Err("e".to_owned()), false), RetireEnd::Clean));
    assert!(matches!(retired(Err("e".to_owned()), true), RetireEnd::Keep(e) if e == "e"));
    assert!(discard_needs_stop(true, false) && !discard_needs_stop(false, false));
    assert!(discard_removes(false, false) && !discard_removes(false, true));
}

#[test]
fn managers_give_way_to_each_other() {
    assert!(matches!(shutdown_answered(Ok(Response::Done), ""), ShutdownStep::Done));
    assert!(matches!(
        shutdown_answered(Err("refused".to_owned()), ""),
        ShutdownStep::Fallback(t) if t == "manager is unavailable: refused; fallback shutdown failed: "
    ));
    assert!(matches!(
        shutdown_answered(Ok(Response::Error { message: "m".to_owned() }), ""),
        ShutdownStep::Fallback(t) if t == "manager shutdown failed: m; fallback failed: "
    ));
    assert!(matches!(shutdown_answered(Ok(Response::Hello { version: 9 }), "Hello"), ShutdownStep::Failed(_)));
    assert!(handoff_answered(&Response::Done, "").is_ok());
    assert!(relinquish_answered(&Response::Hello { version: 9 }, "Hello").is_err());
    let some = |s: &str| Some(s.to_owned());
    assert!(is_replaced(&some("a"), &some("b")) && is_replaced(&None, &some("b")));
    assert!(!is_replaced(&some("a"), &some("a")) && !is_replaced(&some("a"), &None));
    let mut patience = Patience::new();
    assert!(matches!(handoff_looked(&mut patience, true), WaitStep::Done));
    assert!(matches!(relinquish_looked(&mut patience, false, true), WaitStep::Later));
    let mut spent = Patience { looks: 99 };
    assert!(matches!(
        relinquish_looked(&mut spent, true, true),
        WaitStep::Failed(e) if e == "manager did not release its socket after relinquish"
    ));

    let keeps = daemon_step(DaemonEvent::Handoff("/bin/served".to_owned()));
    assert!(!keeps.stop_services);
    assert!(matches!(keeps.end, Some(DaemonEnd::Replace(_))));
    let leaves = daemon_step(DaemonEvent::Relinquish);
    assert!(!leaves.stop_services);
    assert!(matches!(leaves.end, Some(DaemonEnd::Exit(DaemonExit::Relinquished))));
    assert!(daemon_step(DaemonEvent::Signal).stop_services);
    assert!(daemon_step(DaemonEvent::Work).end.is_none());
    assert_eq!(exit_code(DaemonExit::Relinquished), 75);
    assert_eq!(exit_code(DaemonExit::Stopped), 0);
}

#[test]
fn clients_are_greeted_and_sent_their_way() {
    assert!(accept_greeting(&answer_greeting(&Request::Hello { version: 9 })).is_ok());
    assert!(matches!(
        answer_greeting(&Request::Hello { version: 8 }),
        Response::Error { message } if message == "unsupported protocol version 8"
    ));
    assert!(matches!(
        answer_greeting(&Request::List),
        Response::Error { message } if message == "protocol handshake required"
    ));
    assert!(matches!(course(Request::ManagerShutdown), Course::Shutdown));
    assert!(matches!(course(Request::List), Course::Ordinary(Request::List)));
    assert!(matches!(reply(Err("e".to_owned())), Response::Error { message } if message == "e"));
    let program = |regular, mode| validate_handoff_executable("/bin/x", Ok(FileFacts { regular, mode }));
    assert!(program(true, 0o755).is_ok());
    assert_eq!(program(true, 0o644).unwrap_err(), "manager handoff executable is not executable");
    assert_eq!(program(false, 0o755).unwrap_err(), "manager handoff executable is not a regular file");
    assert_eq!(
        validate_handoff_executable("x", Err("e".to_owned())).unwrap_err(),
        "manager handoff executable must be an absolute path"
    );
    assert!(matches!(prepare_socket(SocketFinding::Stale, &manager_words(), "/s"), SocketPlan::Replace));
    assert!(matches!(
        prepare_socket(SocketFinding::InUse, &manager_words(), "/s"),
        SocketPlan::Refuse(e) if e == "manager already running; socket is in use at /s"
    ));
}

#[test]
fn records_of_temporary_services_are_judged() {
    let spec = LaunchSpec::from_loaded(&loaded("api"));
    let here = Some("/srv/api".to_owned());
    let judge = |definition, canonical: &Option<String>, alive| {
        judge_transient("api", definition, canonical, alive)
    };
    assert!(judge(Ok(spec.clone()), &here, true).is_ok());
    assert!(matches!(judge(Ok(spec.clone()), &here, false), Err(TransientFault::NoRunner)));
    assert!(matches!(judge(Ok(spec), &None, true), Err(TransientFault::Inconsistent)));
    assert!(matches!(
        judge(Err("torn".to_owned()), &here, true),
        Err(TransientFault::Invalid(e)) if e == "torn"
    ));
}
