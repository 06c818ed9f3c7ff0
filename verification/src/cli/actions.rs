//! What a command comes to: whether it may be carried out, what the manager is asked, and what is
//! written in answer.
use crate::cli::command::{command_opt, ov, Cli, CliView, Command, CommandView, OutputFormat};
use crate::cli::tokens::equals_at;
use crate::client::target;
use crate::config::{default_name, default_service_name};
use crate::env::EnvMap;
use crate::logs::store::DEFAULT_CHUNK_LIMIT;
use crate::paths::{join, joined};
use crate::protocol::{HistoryRecord, Request, Response, RunSpec, ServiceInfo, ServiceKind, Target};
use crate::text::{cat2, cat3, cat4, chars_of, debug_form, debug_text, decimal, decimal_text, has_char, integer_form, integer_text, same, string_of, views};
use crate::tui::classic::{state_name, state_text};
use crate::tui::layout::{pad_right, padded};
use crate::tui::model::{kind_name, kind_text};
use vstd::prelude::*;
use vstd::string::StringExecFns;

verus! {

/// Why a command line is refused though it can be read.
pub open spec fn refusal(cli: CliView, stdin_terminal: bool, stdout_terminal: bool) -> Option<Seq<char>> {
    let json = cli.output == Some(OutputFormat::Json);
    if cli.output is Some && (cli.command matches Some(CommandView::History { json: j, .. }) && j) {
        Some("history --json conflicts with --output; use one output interface"@)
    } else if json && (cli.command is None || cli.command matches Some(CommandView::Attach { .. })
        || cli.command matches Some(CommandView::Runner { .. })) {
        Some("--output json requires a one-shot command; attach uses raw bytes"@)
    } else if json && (cli.command matches Some(CommandView::Daemon { handoff, relinquish })
        && !handoff && !relinquish) {
        Some("foreground daemon does not support --output json"@)
    } else if json && (cli.command matches Some(CommandView::Edit { path, .. }) && !path) {
        Some("JSON edit requires --path; editors cannot run in JSON mode"@)
    } else if json && (cli.command matches Some(CommandView::History { editor, stdout, .. }) && (
    editor is Some || stdout)) {
        Some("JSON history conflicts with --editor and --stdout"@)
    } else if (!stdin_terminal || !stdout_terminal) && (cli.command matches Some(
        CommandView::Edit { path, editor, .. },
    ) && !path && editor is None) {
        Some("non-interactive edit requires --path or an explicit --editor"@)
    } else {
        None
    }
}

/// Refuses command lines whose parts do not go together.
pub fn validate(cli: &Cli, stdin_terminal: bool, stdout_terminal: bool) -> (r: Result<(), &'static str>)
    ensures
        match refusal(cli@, stdin_terminal, stdout_terminal) {
            None => r is Ok,
            Some(m) => r is Err && r->Err_0@ == m,
        },
{
    let json = match cli.output {
        Some(OutputFormat::Json) => true,
        _ => false,
    };
    match &cli.command {
        Some(Command::History { json: own, .. }) => {
            if *own && cli.output.is_some() {
                return Err("history --json conflicts with --output; use one output interface");
            }
        },
        _ => {},
    }
    if json {
        match &cli.command {
            None => {
                return Err("--output json requires a one-shot command; attach uses raw bytes");
            },
            Some(Command::Attach { .. }) => {
                return Err("--output json requires a one-shot command; attach uses raw bytes");
            },
            Some(Command::Runner { .. }) => {
                return Err("--output json requires a one-shot command; attach uses raw bytes");
            },
            Some(Command::Daemon { handoff, relinquish }) => {
                if !*handoff && !*relinquish {
                    return Err("foreground daemon does not support --output json");
                }
            },
            Some(Command::Edit { path, .. }) => {
                if !*path {
                    return Err("JSON edit requires --path; editors cannot run in JSON mode");
                }
            },
            Some(Command::History { editor, stdout, .. }) => {
                if editor.is_some() || *stdout {
                    return Err("JSON history conflicts with --editor and --stdout");
                }
            },
            _ => {},
        }
    }
    if !stdin_terminal || !stdout_terminal {
        match &cli.command {
            Some(Command::Edit { path, editor, .. }) => {
                if !*path && editor.is_none() {
                    return Err("non-interactive edit requires --path or an explicit --editor");
                }
            },
            _ => {},
        }
    }
    Ok(())
}

/// What the flag for the version makes of a command line.
pub fn take_version(cli: Cli) -> (r: Result<Cli, &'static str>)
    ensures
        match r {
            Ok(c) => {
                &&& !cli.version ==> c == cli
                &&& cli.version ==> (cli.command is None || cli.command->0 is Version)
                    && c.version && c.output == cli.output && c.command == Some(Command::Version)
            },
            Err(m) => {
                &&& cli.version
                &&& cli.command is Some
                &&& !(cli.command->0 is Version)
                &&& m@ == "--version cannot be combined with another command"@
            },
        },
{
    if !cli.version {
        return Ok(cli);
    }
    match &cli.command {
        None | Some(Command::Version) => {},
        _ => {
            return Err("--version cannot be combined with another command");
        },
    }
    let mut cli = cli;
    cli.command = Some(Command::Version);
    Ok(cli)
}

/// Where a double dash first stands.
pub open spec fn before_dashes(args: Seq<Seq<char>>) -> Seq<Seq<char>>
    decreases args.len(),
{
    if args.len() == 0 || args[0] == "--"@ {
        Seq::empty()
    } else {
        seq![args[0]] + before_dashes(args.drop_first())
    }
}

/// Whether a line that cannot be read asks for JSON all the same.
pub open spec fn asks_json(args: Seq<Seq<char>>) -> bool {
    let own = before_dashes(args);
    ||| exists|i: int| 0 <= i < own.len() && #[trigger] own[i] == "--output=json"@
    ||| exists|i: int|
        0 <= i < own.len() - 1 && #[trigger] own[i] == "--output"@ && own[i + 1] == "json"@
}

proof fn lemma_before_dashes(args: Seq<Seq<char>>, n: int)
    requires
        0 <= n <= args.len(),
        forall|i: int| 0 <= i < n ==> #[trigger] args[i] != "--"@,
        n < args.len() ==> args[n] == "--"@,
    ensures
        before_dashes(args) == args.take(n),
    decreases n,
{
    if n == 0 {
        assert(args.take(0) =~= Seq::<Seq<char>>::empty());
    } else {
        assert forall|i: int| 0 <= i < n - 1 implies #[trigger] args.drop_first()[i] != "--"@ by {
            assert(args[i + 1] != "--"@);
        }
        assert(args[0] != "--"@);
        lemma_before_dashes(args.drop_first(), n - 1);
        assert(args.take(n) =~= seq![args[0]] + args.drop_first().take(n - 1));
    }
}

pub fn wants_json(args: &Vec<String>) -> (r: bool)
    ensures
        r == asks_json(views(args@)),
{
    let ghost all = views(args@);
    let mut n: usize = 0;
    while n < args.len() && !same(args[n].as_str(), "--")
        invariant
            n <= args@.len(),
            all == views(args@),
            forall|i: int| 0 <= i < n ==> #[trigger] all[i] != "--"@,
        decreases args@.len() - n,
    {
        n += 1;
    }
    proof {
        lemma_before_dashes(all, n as int);
    }
    let ghost own = all.take(n as int);
    let mut i: usize = 0;
    while i < n
        invariant
            i <= n <= args@.len(),
            all == views(args@),
            own == all.take(n as int),
            own == before_dashes(all),
            forall|k: int| 0 <= k < i ==> #[trigger] own[k] != "--output=json"@,
            forall|k: int|
                0 <= k < i && k < n - 1 ==> !(#[trigger] own[k] == "--output"@ && own[k + 1]
                    == "json"@),
        decreases n - i,
    {
        assert(own[i as int] == args@[i as int]@);
        if same(args[i].as_str(), "--output=json") {
            return true;
        }
        if i < n - 1 && same(args[i].as_str(), "--output") && same(args[i + 1].as_str(), "json") {
            assert(own[i as int + 1] == args@[i as int + 1]@);
            return true;
        }
        i += 1;
    }
    false
}

/// One `KEY=VALUE`, taken apart at its first equals sign.
pub open spec fn pair_of(text: Seq<char>) -> Result<(Seq<char>, Seq<char>), Seq<char>> {
    match equals_at(text, 0) {
        None => Err("invalid --env value; expected KEY=VALUE"@),
        Some(k) => {
            let key = text.take(k);
            if key.len() == 0 || key.contains('\0') {
                Err("invalid environment key "@ + debug_form(key))
            } else {
                Ok((key, text.skip(k + 1)))
            }
        },
    }
}

/// The environment that the pairs stand for. A later pair replaces an earlier one of the same
/// key; the first one that is wrong is the error.
pub open spec fn environment_of(values: Seq<Seq<char>>) -> Result<Map<Seq<char>, Seq<char>>, Seq<char>>
    decreases values.len(),
{
    if values.len() == 0 {
        Ok(Map::empty())
    } else {
        match environment_of(values.drop_last()) {
            Err(e) => Err(e),
            Ok(m) => match pair_of(values.last()) {
                Ok(p) => Ok(m.insert(p.0, p.1)),
                Err(e) => Err(e),
            },
        }
    }
}

fn take_pair(text: &str) -> (r: Result<(String, String), String>)
    ensures
        match pair_of(text@) {
            Ok(p) => r is Ok && (r->Ok_0).0@ == p.0 && (r->Ok_0).1@ == p.1,
            Err(e) => r is Err && r->Err_0@ == e,
        },
{
    let chars = chars_of(text);
    let n: usize = chars.len();
    let mut i: usize = 0;
    while i < n
        invariant
            n == chars@.len(),
            chars@ == text@,
            i <= n,
            equals_at(text@, 0) == equals_at(text@, i as int),
        decreases n - i,
    {
        if chars[i] == '=' {
            let key = string_of(&chars, 0, i);
            let value = string_of(&chars, i + 1, n);
            assert(key@ =~= text@.take(i as int));
            assert(value@ =~= text@.skip(i + 1));
            if i == 0 || has_char(key.as_str(), '\0') {
                let shown = debug_text(key.as_str());
                return Err(cat2("invalid environment key ", shown.as_str()));
            }
            return Ok((key, value));
        }
        i += 1;
    }
    Err("invalid --env value; expected KEY=VALUE".to_owned())
}

/// Reads the pairs that an environment is given by.
pub fn parse_environment(values: &Vec<String>) -> (r: Result<EnvMap, String>)
    ensures
        match environment_of(views(values@)) {
            Ok(m) => r is Ok && r->Ok_0.map() == m,
            Err(e) => r is Err && r->Err_0@ == e,
        },
{
    let ghost all = views(values@);
    let mut out = EnvMap::new();
    let mut i: usize = 0;
    assert(out.map() =~= Map::empty());
    while i < values.len()
        invariant
            i <= values@.len(),
            all == views(values@),
            environment_of(all.take(i as int)) == Ok::<Map<Seq<char>, Seq<char>>, Seq<char>>(
                out.map(),
            ),
        decreases values@.len() - i,
    {
        assert(all.take(i + 1).drop_last() =~= all.take(i as int));
        assert(all.take(i + 1).last() == values@[i as int]@);
        match take_pair(values[i].as_str()) {
            Ok((key, value)) => {
                out.insert(key, value);
            },
            Err(e) => {
                proof {
                    lemma_first_fault(all, i + 1);
                }
                return Err(e);
            },
        }
        i += 1;
    }
    assert(all.take(i as int) =~= all);
    Ok(out)
}

proof fn lemma_first_fault(values: Seq<Seq<char>>, n: int)
    requires
        0 <= n <= values.len(),
        environment_of(values.take(n)) is Err,
    ensures
        environment_of(values) == environment_of(values.take(n)),
    decreases values.len() - n,
{
    if n == values.len() {
        assert(values.take(n) =~= values);
    } else {
        assert(values.take(n + 1).drop_last() =~= values.take(n));
        lemma_first_fault(values, n + 1);
    }
}

/// The value that stands last for a key is the one that counts, and no other key is touched by it.
pub proof fn law_last_value_counts(values: Seq<Seq<char>>, text: Seq<char>)
    requires
        environment_of(values) is Ok,
        pair_of(text) is Ok,
    ensures
        environment_of(values.push(text)) is Ok,
        ({
            let p = pair_of(text)->Ok_0;
            let m = environment_of(values.push(text))->Ok_0;
            &&& m.dom().contains(p.0) && m[p.0] == p.1
            &&& m.remove(p.0) == environment_of(values)->Ok_0.remove(p.0)
        }),
{
    assert(values.push(text).drop_last() =~= values);
    let p = pair_of(text)->Ok_0;
    let before = environment_of(values)->Ok_0;
    assert(before.insert(p.0, p.1).remove(p.0) =~= before.remove(p.0));
}

/// What is to be done for a command.
#[derive(Debug)]
pub enum Plan {
    /// Open the interface.
    Interface,
    Help,
    Version,
    Edit { file: Option<String>, editor: Option<String>, path: bool },
    Serve,
    Handoff,
    Relinquish,
    Shutdown,
    Runner { name: String, socket: String },
    /// Ask the manager; there is nothing to report beyond its answer.
    Send(Request),
    /// Start a temporary service, once its directory is known exactly.
    Run { directory: String, command: Command },
    Attach { name: Option<String>, stream: bool, no_stdin: bool },
    List,
    History { target: Target, options: HistoryOptions },
}

/// How a record is to be shown.
#[derive(Debug)]
pub struct HistoryOptions {
    pub run: Option<String>,
    pub editor: Option<String>,
    pub path_only: bool,
    pub stdout: bool,
    pub json: bool,
    pub list: bool,
}

pub open spec fn is_target(t: Target, name: Option<Seq<char>>, directory: Seq<char>) -> bool {
    match name {
        Some(n) => t matches Target::Name(m) && m@ == n,
        None => t matches Target::Directory(d) && d@ == directory,
    }
}

pub open spec fn joined_opt(dir: Seq<char>, child: Option<Seq<char>>) -> Option<Seq<char>> {
    match child {
        Some(c) => Some(joined(dir, c)),
        None => None,
    }
}

fn join_opt(dir: &str, child: Option<String>) -> (r: Option<String>)
    ensures
        ov(r) == joined_opt(dir@, ov(child)),
{
    match child {
        Some(c) => Some(join(dir, c.as_str())),
        None => None,
    }
}

/// Whether a plan is what a command asks for.
pub open spec fn is_plan(plan: Plan, command: Option<CommandView>, terminal: bool, current: Seq<char>) -> bool {
    match command {
        None => if terminal { plan is Interface } else { plan is Help },
        Some(CommandView::Version) => plan is Version,
        Some(CommandView::Edit { file, editor, path }) => plan matches Plan::Edit {
            file: f,
            editor: e,
            path: p,
        } && ov(f) == joined_opt(current, file) && ov(e) == editor && p == path,
        Some(CommandView::Daemon { handoff, relinquish }) => if handoff {
            plan is Handoff
        } else if relinquish {
            plan is Relinquish
        } else {
            plan is Serve
        },
        Some(CommandView::Shutdown) => plan is Shutdown,
        Some(CommandView::Runner { name, socket }) => plan matches Plan::Runner {
            name: n,
            socket: s,
        } && n@ == name && s@ == socket,
        Some(CommandView::Enable { file, workdir }) => plan matches Plan::Send(
            Request::Enable { directory, file: f, workdir: w },
        ) && ov(f) == joined_opt(current, file) && ov(w) == joined_opt(current, workdir)
            && directory@ == (match workdir {
            Some(d) => joined(current, d),
            None => current,
        }),
        Some(CommandView::Run { workdir, .. }) => plan matches Plan::Run { directory, command: c }
            && Some(c@) == command && directory@ == (match workdir {
            Some(d) => joined(current, d),
            None => current,
        }),
        Some(CommandView::Disable { name }) => plan matches Plan::Send(
            Request::Disable { target: t },
        ) && is_target(t, name, current),
        Some(CommandView::Restart { name }) => plan matches Plan::Send(
            Request::Restart { target: t },
        ) && is_target(t, name, current),
        Some(CommandView::Start { name }) => plan matches Plan::Send(Request::Start { target: t })
            && is_target(t, name, current),
        Some(CommandView::Stop { name }) => plan matches Plan::Send(Request::Stop { target: t })
            && is_target(t, name, current),
        Some(CommandView::Attach { name, stream, no_stdin }) => plan matches Plan::Attach {
            name: n,
            stream: s,
            no_stdin: i,
        } && ov(n) == name && s == stream && i == no_stdin,
        Some(CommandView::List) => plan is List,
        Some(CommandView::History { name, list, run, editor, path, stdout, json }) => plan matches Plan::History {
            target: t,
            options: o,
        } && is_target(t, name, current) && ov(o.run) == run && ov(o.editor) == editor
            && o.path_only == path && o.stdout == stdout && o.json == json && o.list == list,
    }
}

/// Whether a command is about the directory in which it is given.
pub open spec fn about_directory(command: Option<CommandView>) -> bool {
    match command {
        Some(CommandView::Edit { .. }) => true,
        Some(CommandView::Enable { .. }) => true,
        Some(CommandView::Run { .. }) => true,
        Some(CommandView::Disable { .. }) => true,
        Some(CommandView::Restart { .. }) => true,
        Some(CommandView::Start { .. }) => true,
        Some(CommandView::Stop { .. }) => true,
        Some(CommandView::History { .. }) => true,
        _ => false,
    }
}

pub fn needs_directory(command: &Option<Command>) -> (r: bool)
    ensures
        r == about_directory(command_opt(*command)),
{
    match command {
        Some(Command::Edit { .. }) | Some(Command::Enable { .. }) | Some(Command::Run { .. })
        | Some(Command::Disable { .. }) | Some(Command::Restart { .. }) | Some(
            Command::Start { .. },
        ) | Some(Command::Stop { .. }) | Some(Command::History { .. }) => true,
        _ => false,
    }
}

/// What any other command leads to is the same in every directory.
pub proof fn law_other_commands_need_no_directory(
    plan: Plan,
    command: Option<CommandView>,
    terminal: bool,
    here: Seq<char>,
    there: Seq<char>,
)
    requires
        !about_directory(command),
    ensures
        is_plan(plan, command, terminal, here) == is_plan(plan, command, terminal, there),
{
}

/// What is to be done for a command. `terminal` says whether a person sits before it.
pub fn plan(command: Option<Command>, terminal: bool, current: &str) -> (r: Plan)
    ensures
        is_plan(r, command_opt(command), terminal, current@),
{
    let command = match command {
        Some(command) => command,
        None => {
            return if terminal { Plan::Interface } else { Plan::Help };
        },
    };
    match command {
        Command::Version => Plan::Version,
        Command::Edit { file, editor, path } => Plan::Edit {
            file: join_opt(current, file),
            editor,
            path,
        },
        Command::Daemon { handoff, relinquish } => if handoff {
            Plan::Handoff
        } else if relinquish {
            Plan::Relinquish
        } else {
            Plan::Serve
        },
        Command::Shutdown => Plan::Shutdown,
        Command::Runner { name, socket } => Plan::Runner { name, socket },
        Command::Enable { file, workdir } => {
            let directory = match &workdir {
                Some(d) => join(current, d.as_str()),
                None => current.to_owned(),
            };
            Plan::Send(
                Request::Enable {
                    directory,
                    file: join_opt(current, file),
                    workdir: join_opt(current, workdir),
                },
            )
        },
        Command::Run {
            workdir,
            name,
            no_tty,
            no_sync_rows_cols,
            restart,
            persist_logs,
            log_max_bytes,
            log_max_files,
            env,
            argv,
        } => {
            let directory = match &workdir {
                Some(d) => join(current, d.as_str()),
                None => current.to_owned(),
            };
            Plan::Run {
                directory,
                command: Command::Run {
                    workdir,
                    name,
                    no_tty,
                    no_sync_rows_cols,
                    restart,
                    persist_logs,
                    log_max_bytes,
                    log_max_files,
                    env,
                    argv,
                },
            }
        },
        Command::Disable { name } => Plan::Send(
            Request::Disable { target: target(name, current) },
        ),
        Command::Restart { name } => Plan::Send(
            Request::Restart { target: target(name, current) },
        ),
        Command::Start { name } => Plan::Send(Request::Start { target: target(name, current) }),
        Command::Stop { name } => Plan::Send(Request::Stop { target: target(name, current) }),
        Command::Attach { name, stream, no_stdin } => Plan::Attach { name, stream, no_stdin },
        Command::List => Plan::List,
        Command::History { name, list, run, editor, path, stdout, json } => Plan::History {
            target: target(name, current),
            options: HistoryOptions { run, editor, path_only: path, stdout, json, list },
        },
    }
}

/// What a command to run something for once asks for.
pub open spec fn is_run_request(c: CommandView, directory: Seq<char>, r: Result<RunSpec, String>) -> bool {
    match environment_of(c->Run_env) {
        Err(e) => r is Err && r->Err_0@ == e,
        Ok(m) => {
            &&& r is Ok
            &&& r->Ok_0.directory@ == directory
            &&& r->Ok_0.name@ == (match c->Run_name {
                Some(n) => n,
                None => default_name(directory),
            })
            &&& views(r->Ok_0.argv@) == c->Run_argv
            &&& r->Ok_0.tty == !c->Run_no_tty
            &&& r->Ok_0.sync_rows_cols == !c->Run_no_sync_rows_cols
            &&& r->Ok_0.restart@ == c->Run_restart
            &&& r->Ok_0.persist_logs == c->Run_persist_logs
            &&& r->Ok_0.log_max_bytes == c->Run_log_max_bytes
            &&& r->Ok_0.log_max_files == c->Run_log_max_files
            &&& r->Ok_0.env.map() == m
        },
    }
}

/// What asks for a temporary service. The directory is the exact one; the name defaults to its
/// last part.
pub fn run_request(command: Command, directory: &str) -> (r: Result<RunSpec, String>)
    requires
        command is Run,
    ensures
        ({
            let c = command@;
            match environment_of(c->Run_env) {
                Err(e) => r is Err && r->Err_0@ == e,
                Ok(m) => {
                    &&& r is Ok
                    &&& r->Ok_0.directory@ == directory@
                    &&& r->Ok_0.name@ == (match c->Run_name {
                        Some(n) => n,
                        None => default_name(directory@),
                    })
                    &&& views(r->Ok_0.argv@) == c->Run_argv
                    &&& r->Ok_0.tty == !c->Run_no_tty
                    &&& r->Ok_0.sync_rows_cols == !c->Run_no_sync_rows_cols
                    &&& r->Ok_0.restart@ == c->Run_restart
                    &&& r->Ok_0.persist_logs == c->Run_persist_logs
                    &&& r->Ok_0.log_max_bytes == c->Run_log_max_bytes
                    &&& r->Ok_0.log_max_files == c->Run_log_max_files
                    &&& r->Ok_0.env.map() == m
                },
            }
        }),
        is_run_request(command@, directory@, r),
{
    match command {
        Command::Run {
            workdir: _,
            name,
            no_tty,
            no_sync_rows_cols,
            restart,
            persist_logs,
            log_max_bytes,
            log_max_files,
            env,
            argv,
        } => {
            let env = match parse_environment(&env) {
                Ok(env) => env,
                Err(e) => {
                    return Err(e);
                },
            };
            let name = match name {
                Some(name) => name,
                None => default_service_name(directory),
            };
            Ok(
                RunSpec {
                    directory: directory.to_owned(),
                    name,
                    argv,
                    tty: !no_tty,
                    sync_rows_cols: !no_sync_rows_cols,
                    restart,
                    persist_logs,
                    log_max_bytes,
                    log_max_files,
                    env,
                },
            )
        },
        _ => Err(String::new()),
    }
}

pub open spec fn truth(b: bool) -> Seq<char> {
    if b { "true"@ } else { "false"@ }
}

pub open spec fn pid_text(pid: Option<u32>) -> Seq<char> {
    match pid {
        Some(p) => decimal(p as nat),
        None => "-"@,
    }
}

/// The line of a service in the list.
pub open spec fn service_line(s: ServiceInfo) -> Seq<char> {
    padded(s.name@, 18) + " "@ + padded(state_text(s.state), 11) + " kind="@ + padded(
        kind_text(s.kind),
        9,
    ) + " pid="@ + padded(pid_text(s.pid), 7) + " tty="@ + truth(s.tty) + " restart="@ + s.restart@
        + " "@ + s.directory@ + "\n"@
}

pub open spec fn service_lines(services: Seq<ServiceInfo>) -> Seq<char>
    decreases services.len(),
{
    if services.len() == 0 {
        Seq::empty()
    } else {
        service_lines(services.drop_last()) + service_line(services.last())
    }
}

fn line_of(s: &ServiceInfo) -> (r: String)
    ensures
        r@ == service_line(*s),
{
    let mut line = pad_right(s.name.as_str(), 18);
    line.append(" ");
    let state = pad_right(state_name(&s.state), 11);
    line.append(state.as_str());
    line.append(" kind=");
    let kind = pad_right(kind_name(&s.kind), 9);
    line.append(kind.as_str());
    line.append(" pid=");
    let number = match s.pid {
        Some(p) => decimal_text(p as u64),
        None => "-".to_owned(),
    };
    let pid = pad_right(number.as_str(), 7);
    line.append(pid.as_str());
    line.append(" tty=");
    line.append(if s.tty { "true" } else { "false" });
    line.append(" restart=");
    line.append(s.restart.as_str());
    line.append(" ");
    line.append(s.directory.as_str());
    line.append("\n");
    line
}

/// The list of services, a line for each.
pub fn list_text(services: &Vec<ServiceInfo>) -> (r: String)
    ensures
        r@ == service_lines(services@),
{
    let mut out = String::new();
    let mut i: usize = 0;
    assert(out@ =~= service_lines(services@.take(0)));
    while i < services.len()
        invariant
            i <= services@.len(),
            out@ == service_lines(services@.take(i as int)),
        decreases services@.len() - i,
    {
        assert(services@.take(i + 1).drop_last() =~= services@.take(i as int));
        let line = line_of(&services[i]);
        out.append(line.as_str());
        i += 1;
    }
    assert(services@.take(i as int) =~= services@);
    out
}

/// The line of a record in the list.
pub open spec fn record_line(r: HistoryRecord) -> Seq<char> {
    r.id@ + " "@ + decimal(r.bytes as nat) + " B "@ + (if r.persisted { "disk"@ } else {
        "memory"@
    }) + (if r.current { " current"@ } else { ""@ }) + "\n"@
}

pub open spec fn record_lines(records: Seq<HistoryRecord>) -> Seq<char>
    decreases records.len(),
{
    if records.len() == 0 {
        Seq::empty()
    } else {
        record_lines(records.drop_last()) + record_line(records.last())
    }
}

/// The list of records, a line for each.
pub fn records_text(records: &Vec<HistoryRecord>) -> (r: String)
    ensures
        r@ == record_lines(records@),
{
    let mut out = String::new();
    let mut i: usize = 0;
    assert(out@ =~= record_lines(records@.take(0)));
    while i < records.len()
        invariant
            i <= records@.len(),
            out@ == record_lines(records@.take(i as int)),
        decreases records@.len() - i,
    {
        assert(records@.take(i + 1).drop_last() =~= records@.take(i as int));
        let r = &records[i];
        let n = decimal_text(r.bytes);
        let mut line = cat4(r.id.as_str(), " ", n.as_str(), " B ");
        line.append(if r.persisted { "disk" } else { "memory" });
        line.append(if r.current { " current" } else { "" });
        line.append("\n");
        assert(line@ =~= record_line(*r));
        out.append(line.as_str());
        i += 1;
    }
    assert(records@.take(i as int) =~= records@);
    out
}

/// How a record is shown.
#[derive(Debug)]
pub enum HistoryPlan {
    /// All records are listed.
    Listing,
    /// The text of the record at that place is written.
    Stream(usize),
    /// The record at that place is written with what is known of it.
    Document(usize),
    Path(String),
    Edit(String),
}

pub open spec fn wanted_id(run: Option<Seq<char>>) -> Seq<char> {
    match run {
        Some(r) => r,
        None => "latest"@,
    }
}

/// The first record of that name.
pub open spec fn record_at(records: Seq<HistoryRecord>, id: Seq<char>, i: int) -> Option<int>
    decreases records.len() - i,
{
    if i < 0 || i >= records.len() {
        None
    } else if records[i].id@ == id {
        Some(i)
    } else {
        record_at(records, id, i + 1)
    }
}

pub open spec fn record_path(logs: Seq<char>, service: Seq<char>, id: Seq<char>) -> Seq<char> {
    joined(joined(logs, service), if id == "latest"@ { "latest.log"@ } else { id })
}

pub open spec fn is_history_plan(
    r: Result<HistoryPlan, String>,
    options: HistoryOptions,
    service: Seq<char>,
    records: Seq<HistoryRecord>,
    json_output: bool,
    terminal: bool,
    logs: Seq<char>,
) -> bool {
    let id = wanted_id(ov(options.run));
    let found = record_at(records, id, 0);
    if options.list {
        r matches Ok(HistoryPlan::Listing)
    } else if found is None {
        r is Err && r->Err_0@ == "history record "@ + debug_form(id) + " was not found"@
    } else if options.stdout || (!json_output && !options.json && !options.path_only
        && options.editor is None && !terminal) {
        r matches Ok(HistoryPlan::Stream(i)) && i == found->0
    } else if options.json || (json_output && !options.path_only) {
        r matches Ok(HistoryPlan::Document(i)) && i == found->0
    } else if !records[found->0].persisted {
        r is Err && r->Err_0@ == "history record "@ + debug_form(id)
            + " is memory-only and has no path; use --stdout or --json to read it"@
    } else if options.path_only {
        r matches Ok(HistoryPlan::Path(p)) && p@ == record_path(logs, service, id)
    } else {
        r matches Ok(HistoryPlan::Edit(p)) && p@ == record_path(logs, service, id)
    }
}

/// How a record is shown. Without a terminal its text is written.
pub fn plan_history(
    options: &HistoryOptions,
    service: &str,
    records: &Vec<HistoryRecord>,
    json_output: bool,
    terminal: bool,
    logs_dir: &str,
) -> (r: Result<HistoryPlan, String>)
    ensures
        is_history_plan(r, *options, service@, records@, json_output, terminal, logs_dir@),
{
    if options.list {
        return Ok(HistoryPlan::Listing);
    }
    let id = match &options.run {
        Some(run) => run.as_str(),
        None => "latest",
    };
    let mut i: usize = 0;
    while i < records.len() && !same(records[i].id.as_str(), id)
        invariant
            i <= records@.len(),
            record_at(records@, id@, 0) == record_at(records@, id@, i as int),
        decreases records@.len() - i,
    {
        i += 1;
    }
    if i == records.len() {
        let shown = debug_text(id);
        return Err(cat3("history record ", shown.as_str(), " was not found"));
    }
    if options.stdout || (!json_output && !options.json && !options.path_only
        && options.editor.is_none() && !terminal) {
        return Ok(HistoryPlan::Stream(i));
    }
    if options.json || (json_output && !options.path_only) {
        return Ok(HistoryPlan::Document(i));
    }
    if !records[i].persisted {
        let shown = debug_text(id);
        return Err(
            cat3(
                "history record ",
                shown.as_str(),
                " is memory-only and has no path; use --stdout or --json to read it",
            ),
        );
    }
    let directory = join(logs_dir, service);
    let file = if same(id, "latest") { "latest.log" } else { id };
    let path = join(directory.as_str(), file);
    if options.path_only {
        Ok(HistoryPlan::Path(path))
    } else {
        Ok(HistoryPlan::Edit(path))
    }
}

/// What comes behind a piece of a record.
#[derive(Debug, Clone, Copy, PartialEq, Eq, Structural)]
pub enum Next {
    More,
    End,
    /// There should be more, but the piece brought the reading no further.
    Stuck,
}

/// Reads a record piece by piece, as large as it was when the reading began.
#[derive(Debug)]
pub struct RecordReader {
    pub service: String,
    pub id: String,
    pub bytes: u64,
    pub offset: u64,
}

/// What a piece is to a reader: its text, what comes behind it, and how far the reading has come.
pub open spec fn piece(reader: RecordReader, response: Response) -> Result<
    (Seq<char>, Next, u64),
    Seq<char>,
> {
    match response {
        Response::HistoryChunk { service, id, offset, next_offset, eof, content, .. } => {
            if service@ != reader.service@ || id@ != reader.id@ || offset != reader.offset {
                Err("history response does not match the selected record"@)
            } else if next_offset > reader.bytes || next_offset < reader.offset {
                Err("history response contains an invalid offset"@)
            } else {
                Ok(
                    (
                        content@,
                        if eof {
                            Next::End
                        } else if next_offset == reader.offset {
                            Next::Stuck
                        } else if next_offset < reader.bytes {
                            Next::More
                        } else {
                            Next::End
                        },
                        next_offset,
                    ),
                )
            }
        },
        _ => Err("unexpected manager response"@),
    }
}

/// Reading a record ends: where more is to come, the reading is further on, and it never goes
/// beyond what the record held when the reading began.
pub proof fn law_reading_a_record_ends(reader: RecordReader, response: Response)
    ensures
        piece(reader, response) matches Ok(p) ==> p.2 <= reader.bytes && (p.1 is More ==> reader.offset
            < p.2 < reader.bytes),
{
}

/// Where the next piece begins, and how long it may be; none where everything has been read.
pub open spec fn next_piece(reader: RecordReader) -> Option<(u64, u32)> {
    if reader.offset < reader.bytes {
        Some(
            (
                reader.offset,
                if reader.bytes - reader.offset < DEFAULT_CHUNK_LIMIT {
                    (reader.bytes - reader.offset) as u32
                } else {
                    DEFAULT_CHUNK_LIMIT
                },
            ),
        )
    } else {
        None
    }
}

impl RecordReader {
    pub fn new(service: &str, record: &HistoryRecord) -> (r: Self)
        ensures
            r.service@ == service@,
            r.id@ == record.id@,
            r.bytes == record.bytes,
            r.offset == 0,
    {
        RecordReader {
            service: service.to_owned(),
            id: record.id.clone(),
            bytes: record.bytes,
            offset: 0,
        }
    }

    /// The place, size and name of the next piece; none where everything has been read.
    pub fn request(&self, target: Target) -> (r: Option<Request>)
        ensures
            if self.offset < self.bytes {
                r matches Some(Request::HistoryChunk { target: t, id, offset, limit }) && t
                    == target && id@ == self.id@ && offset == self.offset && limit == (if self.bytes
                    - self.offset < DEFAULT_CHUNK_LIMIT {
                    self.bytes - self.offset
                } else {
                    DEFAULT_CHUNK_LIMIT as int
                })
            } else {
                r is None
            },
            match next_piece(*self) {
                Some(p) => r matches Some(Request::HistoryChunk { target: t, id, offset, limit }) && t == target
                    && id@ == self.id@ && (offset, limit) == p,
                None => r is None,
            },
    {
        if self.offset >= self.bytes {
            return None;
        }
        let remaining: u64 = self.bytes - self.offset;
        let limit: u32 = if remaining < DEFAULT_CHUNK_LIMIT as u64 {
            remaining as u32
        } else {
            DEFAULT_CHUNK_LIMIT
        };
        Some(
            Request::HistoryChunk { target, id: self.id.clone(), offset: self.offset, limit },
        )
    }

    /// Takes in a piece. Gives its text, and what comes behind it.
    pub fn accept(&mut self, response: Response) -> (r: Result<(String, Next), String>)
        ensures
            final(self).service == old(self).service,
            final(self).id == old(self).id,
            final(self).bytes == old(self).bytes,
            match piece(*old(self), response) {
                Ok(p) => r is Ok && (r->Ok_0).0@ == p.0 && (r->Ok_0).1 == p.1 && final(self).offset
                    == p.2,
                Err(e) => r is Err && r->Err_0@ == e && final(self).offset == old(self).offset,
            },
    {
        match response {
            Response::HistoryChunk {
                service,
                id,
                offset,
                next_offset,
                total: _,
                total_lines: _,
                eof,
                content,
            } => {
                if !same(service.as_str(), self.service.as_str()) || !same(
                    id.as_str(),
                    self.id.as_str(),
                ) || offset != self.offset {
                    return Err("history response does not match the selected record".to_owned());
                }
                if next_offset > self.bytes || next_offset < self.offset {
                    return Err("history response contains an invalid offset".to_owned());
                }
                let next = if eof {
                    Next::End
                } else if next_offset == self.offset {
                    Next::Stuck
                } else if next_offset < self.bytes {
                    Next::More
                } else {
                    Next::End
                };
                self.offset = next_offset;
                Ok((content, next))
            },
            _ => Err("unexpected manager response".to_owned()),
        }
    }
}

/// How a command that was refused or failed is reported.
#[derive(Debug)]
pub struct Failure {
    pub code: &'static str,
    pub message: String,
}

/// What a command writes where JSON is asked for. The data stands beside it.
#[derive(Debug)]
pub struct Document {
    pub schema_version: u32,
    pub ok: bool,
    pub error: Option<Failure>,
}

impl Document {
    pub fn success() -> (r: Self)
        ensures
            r.schema_version == 1,
            r.ok,
            r.error is None,
    {
        Document { schema_version: 1, ok: true, error: None }
    }

    pub fn failure(code: &'static str, message: String) -> (r: Self)
        ensures
            r.schema_version == 1,
            !r.ok,
            r.error is Some,
            r.error->0.code@ == code@,
            r.error->0.message == message,
    {
        Document { schema_version: 1, ok: false, error: Some(Failure { code, message }) }
    }
}

/// The status of a command whose failure was told already.
#[derive(Debug, Clone, Copy, PartialEq, Eq, Structural)]
pub struct ReportedExit(pub i32);

impl ReportedExit {
    pub fn message(self) -> (r: String)
        ensures
            r@ == "command exited with status "@ + integer_form(self.0 as int),
    {
        let n = integer_text(self.0);
        cat2("command exited with status ", n.as_str())
    }
}

/// Why a command failed.
#[derive(Debug, Clone, Copy, PartialEq, Eq, Structural)]
pub enum FailureKind {
    Arguments,
    Operation,
}

/// How a failure is told, and with which status the command ends.
pub fn report_failure(kind: FailureKind, message: String) -> (r: (Document, ReportedExit))
    ensures
        r.0.schema_version == 1,
        !r.0.ok,
        r.0.error matches Some(f) && f.message == message && f.code@ == (if kind is Arguments {
            "invalid_arguments"@
        } else {
            "operation_failed"@
        }),
        (r.1).0 == (if kind is Arguments {
            2i32
        } else {
            1i32
        }),
{
    match kind {
        FailureKind::Arguments => (
            Document::failure("invalid_arguments", message),
            ReportedExit(2),
        ),
        FailureKind::Operation => (Document::failure("operation_failed", message), ReportedExit(1)),
    }
}

pub fn format_state(state: &crate::protocol::ServiceState) -> (r: &'static str)
    ensures
        r@ == state_text(*state),
{
    state_name(state)
}

pub fn format_kind(kind: &ServiceKind) -> (r: &'static str)
    ensures
        r@ == kind_text(*kind),
{
    kind_name(kind)
}

} // verus!
