use served::cli::actions::{
    list_text, needs_directory, parse_environment, plan, plan_history, records_text, report_failure, run_request,
    take_version, validate, wants_json, FailureKind, HistoryOptions, HistoryPlan, Next, Plan,
    RecordReader, ReportedExit,
};
use served::cli::command::{Cli, Command, OutputFormat};
use served::cli::invocation::{invocation, Invocation};
use served::cli::tokens::Usage;
use served::client::{
    accept_attach, accept_resize, current_service, expect_ok, paths_match, service_name_for_directory,
    target, AttachFailure,
};
use served::protocol::{
    HistoryRecord, Request, Response, ServiceInfo, ServiceKind, ServiceState, Target,
};

fn parse(args: &[&str]) -> Result<Cli, Usage> {
    Cli::try_parse_from(&args.iter().map(|a| (*a).to_owned()).collect())
}

fn words(args: &[&str]) -> Vec<String> {
    args.iter().map(|a| (*a).to_owned()).collect()
}

#[test]
fn start_stop_accept_names_or_current_directory_but_not_config_files() {
    for verb in ["start", "stop"] {
        assert!(parse(&["served", verb]).is_ok());
        assert!(parse(&["served", verb, "api"]).is_ok());
        assert!(parse(&["served", verb, "-f", "api.json5"]).is_err());
    }
}

#[test]
fn program_version_flags_are_preserved_after_separator() {
    let cli = parse(&[
        "served",
        "run",
        "--",
        "program",
        "-V",
        "--version",
        "--output",
        "json",
    ])
    .unwrap();
    assert!(!cli.version);
    assert!(cli.output.is_none());
    let Some(Command::Run { argv, .. }) = cli.command else {
        panic!("run expected")
    };
    assert_eq!(argv, ["program", "-V", "--version", "--output", "json"]);
}

#[test]
fn attach_accepts_an_optional_name() {
    let without_name = parse(&["served", "attach"]).expect("parse attach");
    assert!(matches!(
        without_name.command,
        Some(Command::Attach { name: None, .. })
    ));

    let with_name = parse(&["served", "attach", "api"]).expect("parse named attach");
    assert!(matches!(
        with_name.command,
        Some(Command::Attach { name: Some(name), .. }) if name == "api"
    ));
}

#[test]
fn run_requires_an_argv_and_accepts_full_service_options() {
    let command = parse(&[
        "served",
        "run",
        "--name",
        "worker",
        "--no-tty",
        "--no-sync-rows-cols",
        "--restart",
        "on-failure",
        "--persist-logs",
        "--log-max-bytes",
        "1024",
        "--log-max-files",
        "4",
        "--env",
        "PORT=8080",
        "--env",
        "EMPTY=",
        "--",
        "printf",
        "%s",
        "hello world",
    ])
    .expect("parse run");
    assert!(matches!(
        command.command,
        Some(Command::Run {
            name: Some(name),
            no_tty: true,
            no_sync_rows_cols: true,
            restart,
            persist_logs: true,
            log_max_bytes: 1024,
            log_max_files: 4,
            env,
            argv,
            workdir: None,
        }) if name == "worker"
            && restart == "on-failure"
            && env == ["PORT=8080", "EMPTY="]
            && argv == ["printf", "%s", "hello world"]
    ));
    assert!(parse(&["served", "run"]).is_err());
    assert!(parse(&["served", "run", "printf"]).is_err());
    assert!(parse(&["served", "run", "--restart", "sometimes", "--", "true"]).is_err());
}

#[test]
fn run_environment_values_are_literal_and_last_duplicate_wins() {
    let environment = parse_environment(&vec![
        "A=first".to_owned(),
        "A=last=value".to_owned(),
        "EMPTY=".to_owned(),
    ])
    .expect("parse environment");
    assert_eq!(environment.get("A").map(String::as_str), Some("last=value"));
    assert_eq!(environment.get("EMPTY").map(String::as_str), Some(""));
    assert!(parse_environment(&vec!["MISSING".to_owned()]).is_err());
    assert!(parse_environment(&vec!["=value".to_owned()]).is_err());
}

#[test]
fn supervisor_lifecycle_commands_are_public() {
    let daemon = parse(&["served", "daemon", "--handoff"]).expect("parse daemon handoff");
    assert!(matches!(
        daemon.command,
        Some(Command::Daemon {
            handoff: true,
            relinquish: false,
        })
    ));

    let relinquish = parse(&["served", "daemon", "--relinquish"]).expect("parse relinquish");
    assert!(matches!(
        relinquish.command,
        Some(Command::Daemon {
            handoff: false,
            relinquish: true,
        })
    ));
    assert!(parse(&["served", "daemon", "--handoff", "--relinquish"]).is_err());

    let shutdown = parse(&["served", "shutdown"]).expect("parse shutdown");
    assert!(matches!(shutdown.command, Some(Command::Shutdown)));
}

#[test]
fn edit_accepts_editor_and_path_options() {
    let command = parse(&["served", "edit", "-e", "nvim -f"]).expect("parse edit editor");
    assert!(matches!(
        command.command,
        Some(Command::Edit {
            editor: Some(editor),
            path: false,
            file: None,
        }) if editor == "nvim -f"
    ));

    let path = parse(&["served", "edit", "--path"]).expect("parse edit path");
    assert!(matches!(
        path.command,
        Some(Command::Edit {
            editor: None,
            path: true,
            file: None,
        })
    ));
    assert!(parse(&["served", "edit", "--path", "-e", "nvim"]).is_err());
}

#[test]
fn history_accepts_optional_name_and_run_selector() {
    let command = parse(&[
        "served",
        "history",
        "api",
        "--run",
        "20260724-233045.log",
        "-e",
        "nvim -f",
    ])
    .expect("parse history");
    assert!(matches!(
        command.command,
        Some(Command::History {
            name: Some(name),
            run: Some(run),
            editor: Some(editor),
            path: false,
            stdout: false,
            json: false,
            list: false,
        }) if name == "api" && run == "20260724-233045.log" && editor == "nvim -f"
    ));

    let path = parse(&["served", "history", "api", "--path"]).expect("parse history path");
    assert!(matches!(
        path.command,
        Some(Command::History {
            path: true,
            editor: None,
            ..
        })
    ));
    assert!(parse(&["served", "history", "api", "--path", "-e", "nvim"]).is_err());

    let stdout = parse(&["served", "history", "api", "--stdout"]).expect("parse history stdout");
    assert!(matches!(
        stdout.command,
        Some(Command::History {
            stdout: true,
            json: false,
            ..
        })
    ));

    let json = parse(&["served", "history", "api", "--json"]).expect("parse history JSON");
    assert!(matches!(
        json.command,
        Some(Command::History {
            stdout: false,
            json: true,
            ..
        })
    ));
    assert!(parse(&["served", "history", "--stdout", "--json"]).is_err());
    assert!(parse(&["served", "history", "--stdout", "--path"]).is_err());
    assert!(parse(&["served", "history", "--json", "--editor", "nvim"]).is_err());
}

#[test]
fn options_may_stand_with_their_values_or_before_them() {
    let joined = parse(&["served", "run", "--name=worker", "--", "true"]).unwrap();
    let parted = parse(&["served", "run", "--name", "worker", "--", "true"]).unwrap();
    for cli in [joined, parted] {
        assert!(matches!(
            cli.command,
            Some(Command::Run { name: Some(name), restart, .. }) if name == "worker" && restart == "never"
        ));
    }
    assert!(matches!(
        parse(&["served", "enable", "-f", "a.json5", "--workdir", "w"]).unwrap().command,
        Some(Command::Enable { file: Some(f), workdir: Some(w) }) if f == "a.json5" && w == "w"
    ));
    assert!(matches!(parse(&["served", "--help"]), Err(Usage::Help)));
    assert!(matches!(parse(&["served", "unknown"]), Err(Usage::Wrong(_))));
    assert!(matches!(parse(&["served", "list", "extra"]), Err(Usage::Wrong(_))));
    assert!(parse(&["served", "run", "--log-max-files", "x", "--", "true"]).is_err());
    assert!(matches!(
        parse(&["served", "--output", "json", "list"]).unwrap().output,
        Some(OutputFormat::Json)
    ));
}

#[test]
fn lines_that_contradict_themselves_are_refused() {
    let refused = |args: &[&str], terminal: bool| {
        validate(&parse(args).expect("parse"), terminal, terminal)
    };
    assert_eq!(
        refused(&["served", "--output", "json", "history", "--json"], true),
        Err("history --json conflicts with --output; use one output interface")
    );
    assert_eq!(
        refused(&["served", "--output", "json", "attach"], true),
        Err("--output json requires a one-shot command; attach uses raw bytes")
    );
    assert_eq!(
        refused(&["served", "--output", "json", "daemon"], true),
        Err("foreground daemon does not support --output json")
    );
    assert_eq!(
        refused(&["served", "--output", "json", "edit"], true),
        Err("JSON edit requires --path; editors cannot run in JSON mode")
    );
    assert_eq!(
        refused(&["served", "--output", "json", "history", "--stdout"], true),
        Err("JSON history conflicts with --editor and --stdout")
    );
    assert_eq!(
        refused(&["served", "edit"], false),
        Err("non-interactive edit requires --path or an explicit --editor")
    );
    assert_eq!(refused(&["served", "edit"], true), Ok(()));
    assert_eq!(refused(&["served", "--output", "json", "list"], false), Ok(()));

    let alone = take_version(parse(&["served", "--version"]).unwrap()).unwrap();
    assert!(matches!(alone.command, Some(Command::Version)));
    assert!(take_version(parse(&["served", "--version", "list"]).unwrap()).is_err());
    assert!(wants_json(&words(&["served", "--output", "json", "bad"])));
    assert!(wants_json(&words(&["served", "--output=json"])));
    assert!(!wants_json(&words(&["served", "run", "--", "--output=json"])));
}

#[test]
fn plans_place_paths_in_the_directory_of_the_user() {
    let made = plan(parse(&["served", "enable", "-f", "a.json5"]).unwrap().command, true, "/work");
    assert!(matches!(
        made,
        Plan::Send(Request::Enable { directory, file: Some(file), workdir: None })
            if directory == "/work" && file == "/work/a.json5"
    ));
    let made = plan(parse(&["served", "enable", "--workdir", "w"]).unwrap().command, true, "/work");
    assert!(matches!(
        made,
        Plan::Send(Request::Enable { directory, file: None, workdir: Some(w) })
            if directory == "/work/w" && w == "/work/w"
    ));
    assert!(matches!(
        plan(parse(&["served", "stop"]).unwrap().command, true, "/work"),
        Plan::Send(Request::Stop { target: Target::Directory(d) }) if d == "/work"
    ));
    assert!(matches!(
        plan(parse(&["served", "start", "api"]).unwrap().command, true, "/work"),
        Plan::Send(Request::Start { target: Target::Name(n) }) if n == "api"
    ));
    assert!(matches!(plan(None, true, "/work"), Plan::Interface));
    assert!(matches!(plan(None, false, "/work"), Plan::Help));
    assert!(matches!(target(None, "/d"), Target::Directory(d) if d == "/d"));

    let Plan::Run { directory, command } =
        plan(parse(&["served", "run", "--env", "A=1", "--", "true"]).unwrap().command, true, "/srv/my api")
    else {
        panic!("run expected")
    };
    assert_eq!(directory, "/srv/my api");
    let spec = run_request(command, "/srv/my api").unwrap();
    assert_eq!(spec.name, "my-api");
    assert!(spec.tty && spec.sync_rows_cols && !spec.persist_logs);
    assert_eq!(spec.env.get("A").map(String::as_str), Some("1"));
    let Some(command) = parse(&["served", "run", "--env", "A", "--", "true"]).unwrap().command else {
        panic!("run expected")
    };
    assert_eq!(
        run_request(command, "/srv").unwrap_err(),
        "invalid --env value; expected KEY=VALUE"
    );
}

fn service(directory: &str, name: &str) -> ServiceInfo {
    ServiceInfo {
        config_file: None,
        name: name.to_owned(),
        directory: directory.to_owned(),
        kind: ServiceKind::Enabled,
        state: ServiceState::Running,
        pid: Some(42),
        tty: true,
        restart: "never".to_owned(),
        persist_logs: false,
        attach_active: false,
        output_tail: String::new(),
    }
}

#[test]
fn resolves_current_directory_to_enabled_service_name() {
    let services = vec![service("/srv/api", "api")];
    assert_eq!(
        service_name_for_directory(&services, "/srv/api").expect("service"),
        "api"
    );
}

#[test]
fn rejects_directory_without_enabled_service() {
    let services = vec![service("/srv/api", "api")];
    let error = service_name_for_directory(&services, "/srv/worker")
        .expect_err("directory must not resolve");
    assert!(error.to_string().contains("no enabled service"));
}

#[test]
fn several_services_in_a_directory_are_named() {
    let services = vec![service("/srv/api", "api"), service("/srv/./api/", "worker")];
    let error = service_name_for_directory(&services, "/srv/api").unwrap_err();
    assert!(error.contains("api, worker"), "{error}");
    assert!(paths_match("/a//b/./c", "/a/b/c/"));
    assert!(!paths_match("a/b", "/a/b"));
    assert!(!paths_match("/a/../b", "/b"));
    assert_eq!(
        current_service(Response::Services { services: vec![service("/srv/api", "api")] }, "/srv/api"),
        Ok("api".to_owned())
    );
}

#[test]
fn answers_of_the_manager_are_told_apart() {
    assert_eq!(expect_ok(Response::Done, ""), Ok(()));
    assert_eq!(
        expect_ok(Response::Error { message: "no".to_owned() }, ""),
        Err("no".to_owned())
    );
    assert_eq!(
        expect_ok(Response::Hello { version: 9 }, "Hello"),
        Err("unexpected manager response: Hello".to_owned())
    );
    assert!(matches!(
        accept_attach(Response::Attach { token: "t".to_owned() }, ""),
        Ok(token) if token == "t"
    ));
    assert!(matches!(
        accept_attach(
            Response::AttachUnavailable {
                name: "api".to_owned(),
                recent_failures: 3,
                window_seconds: 60,
                latest_log: None,
            },
            ""
        ),
        Err(AttachFailure::Unavailable(u)) if u.recent_failures == 3
    ));
    assert!(accept_resize(Response::Error { message: "x".to_owned() }, "").is_err());
}

#[test]
fn lists_are_written_in_columns() {
    let mut idle = service("/srv/job", "job");
    idle.pid = None;
    idle.kind = ServiceKind::Temporary;
    idle.state = ServiceState::Stopped;
    idle.tty = false;
    assert_eq!(
        list_text(&vec![service("/srv/api", "api"), idle]),
        "api                running     kind=enabled   pid=42      tty=true restart=never /srv/api\n\
         job                stopped     kind=temporary pid=-       tty=false restart=never /srv/job\n"
    );
    assert_eq!(
        records_text(&vec![record("latest", 12, true), record("old.log", 3, false)]),
        "latest 12 B disk current\nold.log 3 B memory\n"
    );
}

fn record(id: &str, bytes: u64, current: bool) -> HistoryRecord {
    HistoryRecord { id: id.to_owned(), bytes, current, persisted: current }
}

fn history_options() -> HistoryOptions {
    HistoryOptions {
        run: None,
        editor: None,
        path_only: false,
        stdout: false,
        json: false,
        list: false,
    }
}

#[test]
fn history_is_shown_as_it_was_asked_for() {
    let records = vec![record("latest", 12, true), record("old.log", 3, false)];
    let decide = |o: HistoryOptions, json: bool, terminal: bool| {
        plan_history(&o, "api", &records, json, terminal, "/logs")
    };
    assert!(matches!(
        decide(HistoryOptions { list: true, ..history_options() }, false, true),
        Ok(HistoryPlan::Listing)
    ));
    assert!(matches!(
        decide(HistoryOptions { stdout: true, ..history_options() }, false, true),
        Ok(HistoryPlan::Stream(0))
    ));
    assert!(matches!(decide(history_options(), false, false), Ok(HistoryPlan::Stream(0))));
    assert!(matches!(decide(history_options(), true, false), Ok(HistoryPlan::Document(0))));
    assert!(matches!(
        decide(HistoryOptions { path_only: true, ..history_options() }, false, true),
        Ok(HistoryPlan::Path(p)) if p == "/logs/api/latest.log"
    ));
    assert!(matches!(
        decide(history_options(), false, true),
        Ok(HistoryPlan::Edit(p)) if p == "/logs/api/latest.log"
    ));
    let old = HistoryOptions { run: Some("old.log".to_owned()), path_only: true, ..history_options() };
    assert_eq!(
        decide(old, false, true).unwrap_err(),
        "history record \"old.log\" is memory-only and has no path; use --stdout or --json to read it"
    );
    let gone = HistoryOptions { run: Some("gone".to_owned()), ..history_options() };
    assert_eq!(
        decide(gone, false, true).unwrap_err(),
        "history record \"gone\" was not found"
    );
}

fn chunk(id: &str, offset: u64, next_offset: u64, eof: bool) -> Response {
    Response::HistoryChunk {
        service: "api".to_owned(),
        id: id.to_owned(),
        offset,
        next_offset,
        total: 9,
        total_lines: 1,
        eof,
        content: "text".to_owned(),
    }
}

#[test]
fn records_are_read_to_their_end_and_no_further() {
    let mut reader = RecordReader::new("api", &record("latest", 9, true));
    assert!(matches!(
        reader.request(Target::Name("api".to_owned())),
        Some(Request::HistoryChunk { offset: 0, limit: 9, .. })
    ));
    assert!(matches!(reader.accept(chunk("latest", 0, 4, false)), Ok((text, Next::More)) if text == "text"));
    assert_eq!(reader.accept(chunk("other", 4, 9, true)).unwrap_err(),
        "history response does not match the selected record");
    assert_eq!(reader.accept(chunk("latest", 4, 10, true)).unwrap_err(),
        "history response contains an invalid offset");
    assert_eq!(reader.accept(Response::Done).unwrap_err(), "unexpected manager response");
    assert!(matches!(reader.accept(chunk("latest", 4, 4, false)), Ok((_, Next::Stuck))));
    assert!(matches!(reader.accept(chunk("latest", 4, 9, false)), Ok((_, Next::End))));
    assert!(reader.request(Target::Name("api".to_owned())).is_none());
}

#[test]
fn failures_have_a_code_and_a_status() {
    let (document, status) = report_failure(FailureKind::Arguments, "bad".to_owned());
    let error = document.error.unwrap();
    assert_eq!((error.code, error.message.as_str(), status), ("invalid_arguments", "bad", ReportedExit(2)));
    let (document, status) = report_failure(FailureKind::Operation, "bad".to_owned());
    assert_eq!((document.error.unwrap().code, status), ("operation_failed", ReportedExit(1)));
    assert_eq!(ReportedExit(-3).message(), "command exited with status -3");
}

#[test]
fn command_lines_are_shown_refused_or_carried_out() {
    let decide = |args: &[&str], terminal| invocation(&words(args), terminal, terminal);
    assert!(matches!(decide(&["served", "--help"], true), Invocation::Help));
    assert!(matches!(
        decide(&["served", "list"], false),
        Invocation::Execute { json: false, command: Some(Command::List) }
    ));
    assert!(matches!(
        decide(&["served", "--output", "json", "--version"], false),
        Invocation::Execute { json: true, command: Some(Command::Version) }
    ));
    assert!(matches!(
        decide(&["served", "--version", "list"], true),
        Invocation::Refuse { json: false, message } if message == "--version cannot be combined with another command"
    ));
    assert!(matches!(
        decide(&["served", "--output=json", "attach"], true),
        Invocation::Refuse { json: true, message } if message == "--output json requires a one-shot command; attach uses raw bytes"
    ));
    assert!(matches!(
        decide(&["served", "--output=json", "nonsense"], true),
        Invocation::Refuse { json: true, .. }
    ));
    assert!(matches!(
        decide(&["served", "edit"], false),
        Invocation::Refuse { json: false, message } if message == "non-interactive edit requires --path or an explicit --editor"
    ));
}

#[test]
fn a_wrong_value_is_refused_before_help_is_given() {
    for policy in ["bogus", "ALWAYS"] {
        let result = parse(&["served", "run", "--restart", policy, "--help"]);
        assert!(matches!(result, Err(Usage::Wrong(_))));
    }
    let result = parse(&["served", "run", "--restart", "always", "--help"]);
    assert!(matches!(result, Err(Usage::Help)));
}

#[test]
fn only_commands_on_a_service_need_the_directory() {
    let needs = |args: &[&str]| needs_directory(&parse(args).unwrap().command);
    assert!(needs(&["served", "start"]));
    assert!(needs(&["served", "run", "--", "true"]));
    assert!(needs(&["served", "history"]));
    assert!(!needs(&["served", "list"]));
    assert!(!needs(&["served"]));
}
