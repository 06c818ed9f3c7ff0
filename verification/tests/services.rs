use served::attach::{
    crash_warning, direct_failure, input_step, interrupted_status, is_affirmative, is_interactive,
    FailedAttach, InputStep, Interrupted, ResizeController, ResizeStep,
};
use served::client::AttachUnavailable;
use served::config::{
    check_directory, load_service, manager_environment, resolve_config_file, write_template,
    ConfigError, LoadedService, RestartPolicy, ServiceConfig, DEFAULT_LOG_MAX_BYTES, DEFAULT_LOG_MAX_FILES,
};
use served::env::EnvMap;
use served::ipc::HandoffBuffer;
use served::logs::display::{
    attach_snapshot_from_bytes, logical_line_count, normalize_line_endings, sanitize_log, tail_chars,
    ATTACH_CACHE_LINES, ATTACH_CACHE_MAX_BYTES,
};
use served::logs::store::{
    disk_chunk, memory_chunk, read_length, sidecar_count, valid_archive_id, AppendStep, ChunkSource, DiskFile,
    LatestFile, LogStore, DEFAULT_CHUNK_LIMIT, LATEST_FILE, MEMORY_LOG_LIMIT,
};
use served::runner::server::{course, RunnerCourse};
use served::runner::{
    attach_response, AttachError, FailureTracker, Pending, RunnerState, RunnerStep,
};
use served::runner_protocol::{
    accept_runner, answer_greeting, from_wire, to_wire, LaunchSpec, RunnerRequest, RunnerResponse,
    RunnerServiceState, WireLaunchSpec, WireServiceConfig,
};
use served::worker::runtime::{
    signal_target, terminate_process_group, wait_backoff, BackoffOutcome, CommandKind, EndReason,
    KillStep, OutputHub, ProcessOutcome, Signal, SuperviseStep, Supervision, TerminatedStep,
    WaitOutcome, Worker, WorkerNext,
};
use served::worker::WorkerEvent;

fn none() -> Vec<String> {
    Vec::new()
}

fn store() -> LogStore {
    LogStore::new("/logs/api".to_owned())
}

#[test]
fn attach_snapshot_joins_multiple_output_chunks_and_keeps_recent_lines() {
    let mut store = store();
    store.begin_run("20240101-000000", &none());
    store.append(b"old-1\nold-2\n");
    store.append(b"\x1b[31mnew-1\x1b[0m\r\nnew-2");

    assert_eq!(
        String::from_utf8(store.attach_snapshot()).expect("snapshot utf8"),
        "old-1\r\nold-2\r\nnew-1\r\nnew-2\r\n"
    );
}

#[test]
fn attach_snapshot_limits_logical_lines_and_bytes() {
    let mut store = store();
    store.begin_run("20240101-000000", &none());
    for index in 0..(ATTACH_CACHE_LINES + 10) {
        store.append(format!("line-{index}\n").as_bytes());
    }

    let snapshot = String::from_utf8(store.attach_snapshot()).expect("snapshot utf8");
    assert!(!snapshot.contains("line-0\r\n"));
    assert!(snapshot.contains("line-10\r\n"));
    assert!(snapshot.contains("line-57\r\n"));
    assert!(snapshot.len() <= ATTACH_CACHE_MAX_BYTES + 2);
}

#[test]
fn latest_log_path_exists_only_for_a_persisted_current_run() {
    let mut store = store();

    store.begin_run("20240101-000000", &none());
    assert_eq!(store.latest_log_path(), None);

    store.begin_run("20240101-000001", &none());
    store.run_opened();
    assert_eq!(
        store.latest_log_path(),
        Some(format!("/logs/api/{LATEST_FILE}"))
    );
}

/// Output goes to the store and, as far as the store wants it, to a file.
fn write(store: &mut LogStore, file: &mut Vec<u8>, bytes: &[u8]) {
    let mut rest = bytes;
    if !store.append(bytes) {
        return;
    }
    loop {
        match store.append_step(rest.len()) {
            AppendStep::Done => return,
            AppendStep::Rotate => {
                file.clear();
                store.segment_rotated();
            }
            AppendStep::Write(n) => {
                file.extend_from_slice(&rest[..n]);
                store.segment_written(&rest[..n]);
                rest = &rest[n..];
            }
        }
    }
}

fn total_lines(store: &LogStore, file: &[u8]) -> u64 {
    match store.read_chunk("latest", 0, 1024) {
        ChunkSource::Memory(chunk) => chunk.total_lines,
        ChunkSource::Disk { file: name, lines, limit } => {
            assert_eq!(name, LATEST_FILE);
            let total = file.len() as u64;
            let length = read_length(total, 0, limit) as usize;
            disk_chunk(total, 0, &file[..length].to_vec(), lines.expect("line count")).total_lines
        }
        ChunkSource::Invalid => panic!("latest is a record"),
    }
}

#[test]
fn history_chunks_report_logical_lines_and_invalidate_current_cache() {
    for persist in [false, true] {
        let mut store = store();
        let mut file = Vec::new();
        store.begin_run("20240101-000000", &none());
        if persist {
            store.run_opened();
        }
        assert_eq!(total_lines(&store, &file), 0);

        write(&mut store, &mut file, b"one\n");
        assert_eq!(total_lines(&store, &file), 1);

        write(&mut store, &mut file, b"two\nthree");
        assert_eq!(total_lines(&store, &file), 3);

        write(&mut store, &mut file, b"\n");
        assert_eq!(total_lines(&store, &file), 3);
    }
}

#[test]
fn memory_runs_are_bounded_and_archived() {
    let mut store = store();
    store.begin_run("20240101-000000", &none());
    store.append(&vec![b'x'; MEMORY_LOG_LIMIT + 10]);
    store.begin_run("20240101-000001", &none());
    let records = store.records(&Vec::new());
    assert_eq!(records.len(), 2);
    assert_eq!(records[1].bytes, MEMORY_LOG_LIMIT as u64);
    assert!(!store.current_persisted);
}

#[test]
fn segments_are_full_before_they_are_rotated() {
    let mut store = LogStore::with_limits("/logs/api".to_owned(), 8, 2);
    store.begin_run("20240101-010203", &none());
    store.run_opened();
    let mut file = Vec::new();
    write(&mut store, &mut file, b"one\ntwo\n");
    assert_eq!(store.append_step(1), AppendStep::Rotate);
    let taken = vec!["20240101-010203.log".to_owned()];
    let (id, lines) = store.rotate_active_segment("20240101-020304", &taken);
    assert_eq!((id.as_deref(), lines), (Some("20240101-010203-1.log"), 2));
    write(&mut store, &mut file, b"three\n");
    assert_eq!(file, b"three\n");
    assert_eq!(total_lines(&store, &file), 1);
    store.disable_persistence();
    assert!(!store.append(b"more"));
}

#[test]
fn archives_are_named_listed_and_pruned() {
    let store = LogStore::with_limits("/logs/api".to_owned(), 8, 2);
    assert_eq!(
        store.rotate_latest(LatestFile::Regular, Some("20240101-010203\n"), "20250101-000000", &none()),
        Ok(Some("20240101-010203.log".to_owned()))
    );
    assert_eq!(
        store.rotate_latest(LatestFile::Regular, Some("not a time"), "20250101-000000", &none()),
        Ok(Some("20250101-000000.log".to_owned()))
    );
    assert_eq!(store.rotate_latest(LatestFile::Missing, None, "20250101-000000", &none()), Ok(None));
    assert!(store.rotate_latest(LatestFile::Other, None, "20250101-000000", &none()).is_err());
    let file = |name: &str, bytes: u64| DiskFile { name: name.to_owned(), bytes, regular: true };
    let files = vec![
        file("20240101-000000.log", 8),
        file("20240101-000001.log", 8),
        file("20240101-000002.log", 8),
        file("20240101-000099.log", 9),
        file("notes.txt", 1),
    ];
    let (large, surplus) = store.prune_disk_archives(&files);
    assert_eq!(large, ["20240101-000099.log"]);
    assert_eq!(surplus, ["20240101-000000.log"]);
    assert_eq!(store.records(&files)[0].id, "20240101-000099.log");
    assert!(valid_archive_id("20240101-000000.log"));
    assert!(!valid_archive_id("../latest.log"));
    assert!(matches!(store.read_chunk("../latest.log", 0, 1), ChunkSource::Invalid));
    assert_eq!(sidecar_count(" 12\n"), Some(12));
    assert_eq!(sidecar_count("twelve"), None);
    assert_eq!(store.line_count_path("20240101-000000.log"), "/logs/api/20240101-000000.log.lines");
}

#[test]
fn segments_of_one_second_are_pruned_in_the_order_they_were_made() {
    let store = LogStore::with_limits("/logs/api".to_owned(), 8, 1);
    let file = |name: &str| DiskFile { name: name.to_owned(), bytes: 8, regular: true };
    let two = vec![file("20240101-000000-1.log"), file("20240101-000000.log")];
    let (large, surplus) = store.prune_disk_archives(&two);
    assert!(large.is_empty());
    assert_eq!(surplus, ["20240101-000000.log"]);
    let many = vec![
        file("20240101-000000-10.log"),
        file("20240101-000000-2.log"),
        file("20240101-000000.log"),
        file("20240101-000000-1.log"),
    ];
    let (_, surplus) = store.prune_disk_archives(&many);
    assert_eq!(
        surplus,
        ["20240101-000000.log", "20240101-000000-1.log", "20240101-000000-2.log"]
    );
    let later = vec![file("20240101-000001.log"), file("20240101-000000-7.log")];
    assert_eq!(store.prune_disk_archives(&later).1, ["20240101-000000-7.log"]);
}

#[test]
fn records_come_in_order_with_the_current_one_first() {
    let mut store = store();
    store.begin_run("20240101-000000", &none());
    let file = |name: &str| DiskFile { name: name.to_owned(), bytes: 1, regular: true };
    let files = vec![
        file("20240101-000000.log"),
        file("20240301-000000.log"),
        file("20240201-000000.log"),
    ];
    let ids: Vec<String> = store.records(&files).into_iter().map(|record| record.id).collect();
    assert_eq!(
        ids[ids.len() - 3..],
        ["20240301-000000.log", "20240201-000000.log", "20240101-000000.log"]
    );
    assert!(store.records(&files)[0].current);
}

#[test]
fn a_chunk_of_no_bytes_stays_where_it_is() {
    let bytes = b"one\ntwo\n".to_vec();
    let chunk = memory_chunk(&bytes, 4, 0);
    assert_eq!((chunk.next_offset, chunk.total, chunk.total_lines), (4, 8, 2));
    assert_eq!((chunk.eof, chunk.content.as_str()), (false, ""));
    let behind = memory_chunk(&bytes, 9, 0);
    assert_eq!((behind.next_offset, behind.eof), (8, true));
}

#[test]
fn cleaned_output_stays_as_it_is_and_keeps_its_lines() {
    for bytes in [
        &b"plain\ttext\n"[..],
        b"\x1b[31mred\x1b[0m\r\nand\x07 more",
        b"\xff\xfe\n\xe4\xb8\xad\xe6",
        b"\x1b]0;title\x07\n\n\r\n",
        b"",
    ] {
        let clean = sanitize_log(bytes);
        assert_eq!(sanitize_log(clean.as_bytes()), clean);
        assert!(clean.chars().all(|c| !c.is_control() || matches!(c, '\n' | '\r' | '\t')));
        assert_eq!(
            normalize_line_endings(&clean).lines().count() as u64,
            logical_line_count(bytes)
        );
    }
    assert_eq!(sanitize_log("gr\u{fc}n\n\u{4e2d}".as_bytes()), "gr\u{fc}n\n\u{4e2d}");
}

#[test]
fn a_snapshot_is_short_and_ends_its_last_line() {
    let many: Vec<u8> = (0..100).flat_map(|i| format!("line {i}\n").into_bytes()).collect();
    let long = vec![b'x'; 40_000];
    for bytes in [&many[..], &long[..], b"one\r\ntwo", b"\xff"] {
        let snapshot = attach_snapshot_from_bytes(bytes);
        assert!(snapshot.len() <= ATTACH_CACHE_MAX_BYTES + 2);
        assert!(snapshot.iter().filter(|b| **b == b'\n').count() <= ATTACH_CACHE_LINES);
        assert!(snapshot.ends_with(b"\r\n"));
        assert!(std::str::from_utf8(&snapshot).is_ok());
    }
}

#[test]
fn only_another_client_needs_room_in_the_count() {
    let mut full = Supervision::new("api", false);
    full.clients = usize::MAX;
    assert!(matches!(full.command(CommandKind::Stop), SuperviseStep::Terminate(EndReason::Stop)));
    assert_eq!(full.clients, usize::MAX);
}

#[test]
fn reading_chunk_by_chunk_comes_to_the_end() {
    let mut store = store();
    store.begin_run("20240101-000000", &none());
    store.append(&vec![b'a'; 100]);
    let mut offset = 0;
    let mut text = String::new();
    loop {
        let ChunkSource::Memory(chunk) = store.read_chunk("latest", offset, 30) else {
            panic!("memory expected")
        };
        text.push_str(&chunk.content);
        if chunk.eof {
            break;
        }
        assert!(chunk.next_offset > offset);
        offset = chunk.next_offset;
    }
    assert_eq!(text.len(), 100);
    assert!(DEFAULT_CHUNK_LIMIT > 0);
}

#[test]
fn output_is_shown_without_what_drives_a_terminal() {
    assert_eq!(sanitize_log(b"\x1b]0;title\x07x\x1b[2Jy\xff"), "xy\u{fffd}");
    assert_eq!(normalize_line_endings("a\nb\r\nc"), "a\nb\nc");
    assert_eq!(tail_chars("a\u{4e2d}b", 4), "\u{4e2d}b");
    assert_eq!(tail_chars("a\u{4e2d}b", 3), "b");
    assert_eq!(attach_snapshot_from_bytes(b"one\ntwo"), b"one\r\ntwo\r\n");
}

fn config(name: &str) -> ServiceConfig {
    ServiceConfig {
        name: name.to_owned(),
        command: "echo ok".to_owned(),
        cwd: None,
        tty: false,
        sync_rows_cols: true,
        restart: RestartPolicy::Always,
        persist_logs: true,
        log_max_bytes: 128,
        log_max_files: 4,
        env: EnvMap::new(),
    }
}

fn spec() -> LaunchSpec {
    LaunchSpec {
        directory: "/tmp/service".to_owned(),
        config: config("service"),
        environment: EnvMap::new(),
    }
}

#[test]
fn launch_spec_keeps_log_limits_outside_legacy_config() {
    let WireLaunchSpec { config, log_max_bytes, log_max_files, .. } = to_wire(&spec());
    assert_eq!(log_max_bytes, Some(128));
    assert_eq!(log_max_files, Some(4));
    let WireServiceConfig { name, command, tty, sync_rows_cols, restart, persist_logs, env } = config;
    assert_eq!((name.as_str(), command.as_str()), ("service", "echo ok"));
    assert!(!tty && sync_rows_cols && persist_logs && env.is_empty());
    assert_eq!(restart, RestartPolicy::Always);
}

#[test]
fn launch_spec_defaults_limits_when_reading_an_old_runner_message() {
    let parsed = from_wire(WireLaunchSpec {
        directory: "/tmp/service".to_owned(),
        config: WireServiceConfig {
            name: "service".to_owned(),
            command: "echo ok".to_owned(),
            tty: false,
            sync_rows_cols: true,
            restart: RestartPolicy::Never,
            persist_logs: false,
            env: EnvMap::new(),
        },
        environment: EnvMap::new(),
        log_max_bytes: None,
        log_max_files: None,
    });
    assert_eq!(parsed.config.log_max_bytes, DEFAULT_LOG_MAX_BYTES);
    assert_eq!(parsed.config.log_max_files, DEFAULT_LOG_MAX_FILES);
}

#[test]
fn launch_specs_come_back_as_they_were_sent() {
    assert!(from_wire(to_wire(&spec())).same_as(&spec()));
    let loaded = spec().into_loaded();
    assert!(LaunchSpec::from_loaded(&loaded).same_as(&spec()));
    let hello = RunnerRequest::Hello { version: 1, name: "api".to_owned() };
    assert!(accept_runner("api", &answer_greeting("api", &hello)).is_ok());
    assert!(matches!(answer_greeting("worker", &hello), RunnerResponse::Error { .. }));
    assert!(matches!(answer_greeting("api", &RunnerRequest::Status),
        RunnerResponse::Error { message } if message == "runner handshake required"));
}

fn configured(tty: bool) -> RunnerState {
    let mut state = RunnerState::new("api".to_owned(), 7);
    let mut spec = spec();
    spec.config.tty = tty;
    let step = state.handle_request(
        RunnerRequest::Configure { spec, log_directory: "/logs/api".to_owned() },
        0,
        7,
    );
    assert!(matches!(step, RunnerStep::Spawn(service) if service.config.name == "service"));
    state.handle_event(WorkerEvent::Started { name: "api".to_owned(), pid: 42, tty }, 0, Some(5));
    state
}

#[test]
fn status_watchers_are_not_notified_when_the_value_is_unchanged() {
    let mut state = RunnerState::new("api".to_owned(), 7);
    assert!(!state.publish_status(0, 7));

    state.state = RunnerServiceState::Running;
    state.pid = Some(42);
    assert!(state.publish_status(0, 7));
    assert!(!state.publish_status(0, 7));
}

#[test]
fn a_stop_that_failed_leaves_the_service_under_control() {
    let mut state = configured(false);
    let RunnerStep::Finish(pending) = state.handle_request(RunnerRequest::StopService, 0, 7) else {
        panic!("the worker is stopped first")
    };
    assert!(matches!(pending, Pending::StopService));
    let step = state.worker_finished(Pending::StopService, Err("termination failed".to_owned()), true);
    assert!(matches!(step, RunnerStep::Reply { answer: Err(e), .. } if e == "termination failed"));
    assert!(state.worker && state.worker_task && !state.manually_stopped);
    assert_eq!(state.pid, Some(42));
    let step = state.worker_finished(Pending::StopService, Ok(()), false);
    assert!(matches!(step, RunnerStep::Reply { answer: Ok(RunnerResponse::Done), .. }));
    assert!(state.manually_stopped && !state.worker && state.pid.is_none());
}

#[test]
fn a_terminal_has_one_client() {
    let mut state = configured(true);
    assert_eq!(state.prepare_attach("one".to_owned(), 0).unwrap(), "one");
    assert!(matches!(
        state.prepare_attach("two".to_owned(), 0),
        Err(AttachError::Message(m)) if m == "service \"api\" already has an attach client"
    ));
    assert!(state.attach_stream("one"));
    state.attach_refused("two", 0, 7);
    assert!(state.attach_active);
    state.attach_refused("one", 0, 7);
    assert!(!state.attach_active);

    let mut crashing = RunnerState::new("api".to_owned(), 7);
    assert!(matches!(
        crashing.prepare_attach("t".to_owned(), 0),
        Err(AttachError::Message(m)) if m == "runner is not configured"
    ));
    crashing.spec = Some(spec());
    crashing.logs = Some(store());
    for now in [1_000, 2_000, 3_000] {
        crashing.failures.record(now);
    }
    assert!(matches!(
        attach_response(crashing.prepare_attach("t".to_owned(), 3_000)),
        RunnerResponse::AttachUnavailable { recent_failures: 3, window_seconds: 60, .. }
    ));
    assert!(matches!(
        crashing.prepare_attach("t".to_owned(), 61_500),
        Err(AttachError::Message(_))
    ));
}

#[test]
fn failures_count_for_a_minute() {
    let mut failures = FailureTracker::new();
    failures.record(0);
    failures.record(59_999);
    assert_eq!(failures.recent_count(59_999), 2);
    assert_eq!(failures.recent_count(60_000), 1);
    assert_eq!(failures.recent_count(119_999), 0);
}

#[test]
fn requests_take_their_way_through_the_runner() {
    assert!(matches!(course(RunnerRequest::WatchStatus), RunnerCourse::Watch));
    assert!(matches!(course(RunnerRequest::Attach), RunnerCourse::Attach));
    assert!(matches!(
        course(RunnerRequest::Stop),
        RunnerCourse::Ordinary { request: RunnerRequest::Stop, last: true }
    ));
    assert!(matches!(course(RunnerRequest::Status), RunnerCourse::Ordinary { last: false, .. }));
}

#[test]
fn output_hub_pairs_snapshot_with_the_following_live_output() {
    let mut hub = OutputHub::new();
    hub.publish(b"before\n");
    let snapshot = hub.snapshot();
    hub.publish(b"after\n");

    assert_eq!(snapshot, b"before\r\n");
    assert_eq!(hub.snapshot(), b"before\r\nafter\r\n");
}

#[test]
fn workers_wait_longer_after_each_failure() {
    let mut worker = Worker::new(spec().into_loaded());
    let crash = || Ok(ProcessOutcome::Exited { code: Some(1), success: false });
    let (events, next) = worker.after_process(crash());
    assert_eq!(next, WorkerNext::Wait(250));
    assert!(matches!(events[0], WorkerEvent::Exited { code: Some(1), success: false, .. }));
    assert_eq!(worker.after_wait(BackoffOutcome::Timer), WorkerNext::Start);
    assert_eq!(worker.after_process(crash()).1, WorkerNext::Wait(500));
    assert_eq!(worker.after_wait(BackoffOutcome::Stop), WorkerNext::End);
    assert_eq!(worker.after_process(Ok(ProcessOutcome::Stopped)).1, WorkerNext::End);
    worker.service.config.restart = RestartPolicy::Never;
    assert_eq!(worker.after_process(crash()).1, WorkerNext::End);
    assert!(matches!(wait_backoff(CommandKind::Attach), BackoffOutcome::Timer));
    assert!(matches!(wait_backoff(CommandKind::Closed), BackoffOutcome::Stop));
}

#[test]
fn processes_are_ended_gently_and_then_hard() {
    assert_eq!(signal_target(42), Ok(-42));
    assert_eq!(
        signal_target(3_000_000_000),
        Err("process group id is too large: 3000000000".to_owned())
    );
    assert!(matches!(
        terminate_process_group(42, Signal::Term, Ok(()), WaitOutcome::TimedOut),
        KillStep::Send(Signal::Kill)
    ));
    assert!(matches!(
        terminate_process_group(42, Signal::Kill, Ok(()), WaitOutcome::TimedOut),
        KillStep::Done(Err(e)) if e == "process group 42 did not exit after SIGKILL"
    ));
    assert!(matches!(
        terminate_process_group(42, Signal::Term, Ok(()), WaitOutcome::Exited),
        KillStep::Done(Ok(()))
    ));
}

#[test]
fn supervision_lets_one_client_write() {
    let mut one = Supervision::new("api", true);
    assert!(matches!(one.command(CommandKind::Attach),
        SuperviseStep::LetIn(Some(WorkerEvent::AttachChanged { active: true, .. }))));
    assert!(matches!(one.command(CommandKind::Attach), SuperviseStep::DropClient));
    assert!(matches!(one.client_gone(), Some(WorkerEvent::AttachChanged { active: false, .. })));
    assert!(matches!(one.command(CommandKind::Stop), SuperviseStep::Terminate(EndReason::Stop)));
    assert!(matches!(
        one.terminated(EndReason::Stop, Err("no".to_owned())),
        TerminatedStep::Refused(e) if e == "no"
    ));
    assert!(matches!(
        one.terminated(EndReason::Stop, Ok(())),
        TerminatedStep::Ended(_, ProcessOutcome::Stopped)
    ));
}

fn unavailable(log: Option<&str>) -> AttachUnavailable {
    AttachUnavailable {
        name: "api".to_owned(),
        recent_failures: 3,
        window_seconds: 60,
        latest_log: log.map(str::to_owned),
    }
}

#[test]
fn a_service_that_keeps_crashing_is_explained() {
    assert_eq!(
        crash_warning(&unavailable(None)),
        "warning: service \"api\" is not running after 3 failures in 60 seconds"
    );
    assert!(matches!(
        direct_failure(&unavailable(Some("/l")), true),
        FailedAttach::Log { path, ask: true, .. } if path == "/l"
    ));
    assert!(matches!(direct_failure(&unavailable(None), true), FailedAttach::NoLog { .. }));
    assert!(is_affirmative(" Y\n"));
    assert!(!is_affirmative("yes"));
    assert!(is_interactive(false, false, true, true));
    assert!(!is_interactive(true, false, true, true));
    assert_eq!(input_step(&vec![b'a', 3], true), InputStep::Leave);
    assert_eq!(input_step(&vec![b'a', 3], false), InputStep::Send);
    assert_eq!(input_step(&vec![], false), InputStep::StopReading);
    assert_eq!(interrupted_status(15), 143);
    assert_eq!(Interrupted(2).message(), "attach interrupted by signal 2");
}

#[test]
fn sizes_are_sent_once_and_tried_again_later() {
    let mut sizes = ResizeController::new(0);
    assert!(matches!(sizes.sync(Some((80, 24)), 0), ResizeStep::Connect));
    let step = sizes.connected(false, 0);
    assert!(matches!(step, ResizeStep::Idle));
    assert!(matches!(sizes.sync(Some((80, 24)), 100), ResizeStep::Idle));
    assert!(matches!(sizes.sync(Some((80, 24)), 250), ResizeStep::Connect));
    assert!(matches!(sizes.connected(true, 250), ResizeStep::Send { cols: 80, rows: 24 }));
    sizes.sent(80, 24, true, 250);
    assert!(matches!(sizes.sync(Some((80, 24)), 9_000), ResizeStep::Idle));
    assert!(matches!(sizes.sync(Some((100, 24)), 9_000), ResizeStep::Send { cols: 100, rows: 24 }));
}

#[test]
fn what_was_read_before_a_handoff_comes_first() {
    assert!(HandoffBuffer::into_handoff(vec![1], 1).is_err());
    let mut buffer = HandoffBuffer::into_handoff(b"framed".to_vec(), 0).unwrap();
    assert_eq!(buffer.take(4), b"fram");
    assert_eq!(buffer.take(4), b"ed");
    assert!(buffer.take(4).is_empty());
}

#[test]
fn missing_config_reports_both_supported_filenames() {
    let error = check_directory("/srv/api", true, true, false, false)
        .expect_err("missing config must fail");
    let message = error.message();
    assert!(message.contains(".served.json5"));
    assert!(message.contains(".served.json"));
}

fn loaded(config: ServiceConfig, dotenv: &[(&str, &str)], base: &[(&str, &str)]) -> LoadedService {
    let dotenv = dotenv.iter().map(|(k, v)| Ok(((*k).to_owned(), (*v).to_owned()))).collect();
    let base = base.iter().map(|(k, v)| ((*k).to_owned(), (*v).to_owned())).collect();
    load_service("/srv/api", None, config, &dotenv, &manager_environment(&base)).expect("load")
}

#[test]
fn environments_are_layered() {
    let mut own = config("api");
    own.env.insert("PORT".to_owned(), "$PORT".to_owned());
    let service = loaded(own, &[("PORT", "8080"), ("QUOTED", "hello world")], &[("PORT", "old"), ("HOME", "/h")]);
    let value = |k: &str| service.environment.get(k).cloned();
    assert_eq!(value("PORT").as_deref(), Some("$PORT"));
    assert_eq!(value("QUOTED").as_deref(), Some("hello world"));
    assert_eq!(value("HOME").as_deref(), Some("/h"));
    let broken = vec![Err("line 2".to_owned())];
    assert!(load_service("/srv/api", None, config("api"), &broken, &EnvMap::new()).is_err());
    let mut zero = config("api");
    zero.log_max_bytes = 0;
    assert_eq!(
        zero.validate().unwrap_err().message(),
        "log_max_bytes must be greater than zero"
    );
    assert!(config("a b").validate().is_err());
    assert!(ServiceConfig { command: " \n".to_owned(), ..config("a") }.validate().is_err());
}

/// A configuration as its file gives it, with the defaults for what is not in it.
fn config_of(source: &str) -> ServiceConfig {
    let value: serde_json::Value = json5::from_str(source).expect("a configuration");
    let text = |key: &str| value[key].as_str().map(str::to_owned);
    let flag = |key: &str, default: bool| value[key].as_bool().unwrap_or(default);
    let mut env = EnvMap::new();
    if let Some(pairs) = value["env"].as_object() {
        for (key, value) in pairs {
            env.insert(key.clone(), value.as_str().expect("a text").to_owned());
        }
    }
    ServiceConfig {
        name: text("name").expect("name"),
        command: text("command").expect("command"),
        cwd: text("cwd"),
        tty: flag("tty", true),
        sync_rows_cols: flag("syncRowsCols", true),
        restart: RestartPolicy::Never,
        persist_logs: flag("persist_logs", false),
        log_max_bytes: value["log_max_bytes"].as_u64().unwrap_or(DEFAULT_LOG_MAX_BYTES),
        log_max_files: value["log_max_files"].as_u64().map_or(DEFAULT_LOG_MAX_FILES, |n| n as u32),
        env,
    }
}

fn load(source: &str, dotenv: &str, base: &[(&str, &str)]) -> LoadedService {
    let dotenv = dotenvy::from_read_iter(dotenv.as_bytes())
        .map(|item| item.map_err(|error| error.to_string()))
        .collect();
    let base = base.iter().map(|(k, v)| ((*k).to_owned(), (*v).to_owned())).collect();
    load_service("/srv/api", None, config_of(source), &dotenv, &manager_environment(&base)).expect("load")
}

#[test]
fn loads_json5_and_legacy_dotenv_overlay() {
    let service = load(
        r#"{"name":"api","command":"echo ok"}"#,
        "# a comment\nPORT=8080\nQUOTED=\"hello world\"\n",
        &[("PORT", "old")],
    );
    assert!(service.config.tty);
    assert!(service.config.sync_rows_cols);
    assert!(!service.config.persist_logs);
    assert_eq!(service.config.log_max_bytes, DEFAULT_LOG_MAX_BYTES);
    assert_eq!(service.config.log_max_files, DEFAULT_LOG_MAX_FILES);
    assert_eq!(service.environment.get("PORT"), Some(&"8080".to_owned()));
    assert_eq!(service.environment.get("QUOTED"), Some(&"hello world".to_owned()));
}

#[test]
fn json5_environment_overrides_legacy_dotenv_without_expansion() {
    let service = load(
        r#"{
            // JSON5 comments and trailing commas are accepted.
            name: 'api',
            command: 'echo ok',
            env: {
                PORT: 'json5',
                BIN: '${HOME}/bin',
            },
        }"#,
        "PORT=dotenv\nLEGACY=yes\n",
        &[("HOME", "/home/test")],
    );
    assert_eq!(service.environment.get("PORT"), Some(&"json5".to_owned()));
    assert_eq!(service.environment.get("LEGACY"), Some(&"yes".to_owned()));
    assert_eq!(service.environment.get("BIN"), Some(&"${HOME}/bin".to_owned()));
}

#[test]
fn ignores_project_env_and_reads_only_served_env() {
    let source = r#"{"name":"api","command":"echo ok"}"#;
    let service = load(source, "PORT=served\n", &[]);
    assert_eq!(service.environment.get("PORT"), Some(&"served".to_owned()));
    let service = load(source, "", &[]);
    assert!(!service.environment.contains_key("PORT"));
}

#[test]
fn loads_deprecated_json_filename() {
    let resolved = resolve_config_file("/srv/api", false, true).expect("resolve legacy config");
    assert_eq!(resolved.path(), "/srv/api/.served.json");
    assert!(resolved.deprecation_warning().expect("deprecation warning").contains("is deprecated"));
    let service = load(r#"{name: "legacy", command: "echo ok"}"#, "", &[]);
    assert_eq!(service.config.name, "legacy");
}

#[test]
fn json5_filename_takes_precedence_over_deprecated_json_filename() {
    let resolved = resolve_config_file("/srv/api", true, true).expect("resolve current config");
    assert_eq!(resolved.path(), "/srv/api/.served.json5");
    assert!(
        resolved.deprecation_warning().expect("ignored legacy warning").contains("ignoring deprecated")
    );
    let service = load(r#"{name: "current", command: "echo current"}"#, "", &[]);
    assert_eq!(service.config.name, "current");
}

#[test]
fn persistent_logs_round_trip_from_json() {
    let service = load(r#"{"name":"api","command":"echo ok","persist_logs":true}"#, "", &[]);
    assert!(service.config.persist_logs);
}

#[test]
fn log_limits_round_trip_and_reject_zero() {
    let service = load(
        r#"{"name":"api","command":"echo ok","log_max_bytes":128,"log_max_files":4}"#,
        "",
        &[],
    );
    assert_eq!(service.config.log_max_bytes, 128);
    assert_eq!(service.config.log_max_files, 4);
    let zero = config_of(r#"{"name":"api","command":"echo ok","log_max_bytes":0}"#);
    assert!(matches!(
        load_service("/srv/api", None, zero, &Vec::new(), &EnvMap::new()),
        Err(ConfigError::InvalidLogMaxBytes)
    ));
}

#[test]
fn template_creates_annotated_json5_without_legacy_env_file() {
    let (file, source) = write_template("/srv/api", false, false);
    assert_eq!(file.path(), "/srv/api/.served.json5");
    let source = source.expect("template");
    assert!(source.contains("// Globally unique service name"));
    assert!(source.contains("env: {"));
    assert!(source.contains("log_max_bytes:"));
    assert!(source.contains("log_max_files:"));

    let service = load(&source, "", &[]);
    assert!(service.config.env.is_empty());
    let expected = ServiceConfig::template("/srv/api");
    assert!(service.config.same_as(&expected));

    for field in [
        "name", "command", "cwd", "tty", "syncRowsCols", "restart", "persist_logs",
        "log_max_bytes", "log_max_files", "env",
    ] {
        let line = format!("\n  {field}: ");
        let (before, _) = source.split_once(&line).expect(field);
        assert!(before.lines().last().unwrap().starts_with("  // "), "{field} is explained");
    }
    assert!(source.contains(
        "  command: \"./run.sh\",\n\n  // Working directory: an absolute path, or a path relative to this\n"
    ));
    assert!(source.contains("  cwd: null,\n\n  // Allocate a runner-owned PTY."));
}

#[test]
fn template_does_not_rewrite_existing_source() {
    let (file, source) = write_template("/srv/api", true, false);
    assert_eq!(file.path(), "/srv/api/.served.json5");
    assert!(source.is_none());
}

#[test]
fn template_keeps_deprecated_config_without_creating_current_file() {
    let (file, source) = write_template("/srv/api", false, true);
    assert_eq!(file.path(), "/srv/api/.served.json");
    assert!(source.is_none());
}

#[test]
fn persistent_archive_retention_applies_configured_limits() {
    let store = LogStore::with_limits("/logs/api".to_owned(), 8, 2);
    let mut files: Vec<DiskFile> = (0..=2)
        .map(|index| DiskFile {
            name: format!("20240101-0000{index:02}.log"),
            bytes: "archive\n".len() as u64,
            regular: true,
        })
        .collect();
    files.push(DiskFile {
        name: "20240101-000099.log".to_owned(),
        bytes: "too-large".len() as u64,
        regular: true,
    });
    let (large, surplus) = store.prune_disk_archives(&files);
    files.retain(|file| !large.contains(&file.name) && !surplus.contains(&file.name));
    assert_eq!(files.iter().filter(|file| valid_archive_id(&file.name)).count(), 2);
    assert!(!files.iter().any(|file| file.name == "20240101-000099.log"));
}

#[test]
fn no_archive_in_memory_goes_by_the_name_of_the_current_run() {
    let mut store = store();
    for _ in 0..3 {
        store.begin_run("+100000101-000000", &none());
        store.append(b"x");
    }
    let records = store.records(&Vec::new());
    assert_eq!(records[0].id, "latest");
    assert!(records[0].current);
    assert!(records[1..].iter().all(|record| !record.current && record.id != LATEST_FILE));
}

#[test]
fn the_current_file_comes_before_the_deprecated_one() {
    let both = resolve_config_file("/srv", true, true).unwrap();
    assert_eq!(both.path(), "/srv/.served.json5");
    assert!(both.deprecation_warning().unwrap().contains("ignoring deprecated"));
    let old = resolve_config_file("/srv", false, true).unwrap();
    assert_eq!(old.path(), "/srv/.served.json");
    assert!(old.deprecation_warning().unwrap().contains("is deprecated"));
    let (file, text) = write_template("/srv/api", false, false);
    assert_eq!(file.path(), "/srv/api/.served.json5");
    let text = text.expect("a new file");
    assert!(text.contains("// Globally unique service name"));
    let value: serde_json::Value = json5::from_str(&text).unwrap();
    assert_eq!(value["name"], "api");
    assert_eq!(value["log_max_bytes"], 10_485_760);
    assert!(write_template("/srv/api", false, true).1.is_none());
}

#[test]
fn finished_runs_are_the_newest_archives() {
    let mut store = store();
    store.begin_run("20250101-000000", &none());
    store.append(b"one");
    store.begin_run("20250101-000000", &none());
    store.append(b"two");
    store.begin_run("20250102-000000", &none());
    let kept: Vec<_> = store
        .memory_archives
        .iter()
        .map(|a| (a.id.as_str(), a.bytes.as_slice()))
        .collect();
    assert_eq!(
        kept,
        [("20250101-000000-1.log", &b"two"[..]), ("20250101-000000.log", &b"one"[..])]
    );
}

#[test]
fn runners_list_what_they_keep() {
    let runner = configured(false);
    let RunnerResponse::HistoryList { records } = runner.history_list(&Vec::new()) else {
        panic!("list expected");
    };
    assert!(records.is_empty());
    let bare = RunnerState::new("api".to_owned(), 1);
    assert!(matches!(
        bare.history_list(&Vec::new()),
        RunnerResponse::HistoryList { records } if records.is_empty()
    ));
}
