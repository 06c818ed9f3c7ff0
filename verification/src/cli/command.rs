//! The commands, and how a command line is read into one.
use crate::cli::tokens::{bad_value, current_verb, invalid, policy_known, scan, scanned, token_views, verb_in, Opt, Token, TokenView, Usage, UsageView, Verb};
use crate::config::{DEFAULT_LOG_MAX_BYTES, DEFAULT_LOG_MAX_FILES};
use crate::text::{cat5, parse_number, parsed_number, same, views};
use vstd::prelude::*;

verus! {

#[derive(Debug, Clone, Copy, PartialEq, Eq, Structural)]
pub enum OutputFormat {
    Text,
    Json,
}

#[derive(Debug)]
pub enum Command {
    /// Print the version.
    Version,
    /// Run the manager, or ask the one that runs to leave its place.
    Daemon { handoff: bool, relinquish: bool },
    /// Stop the manager and all managed runners.
    Shutdown,
    Runner { name: String, socket: String },
    /// Open a service configuration in an editor.
    Edit { file: Option<String>, editor: Option<String>, path: bool },
    /// Enable a service configuration and start it.
    Enable { file: Option<String>, workdir: Option<String> },
    /// Create a temporary service and start it.
    Run {
        workdir: Option<String>,
        name: Option<String>,
        no_tty: bool,
        no_sync_rows_cols: bool,
        restart: String,
        persist_logs: bool,
        log_max_bytes: u64,
        log_max_files: u32,
        env: Vec<String>,
        argv: Vec<String>,
    },
    Disable { name: Option<String> },
    Restart { name: Option<String> },
    Start { name: Option<String> },
    Stop { name: Option<String> },
    Attach { name: Option<String>, stream: bool, no_stdin: bool },
    History {
        name: Option<String>,
        list: bool,
        run: Option<String>,
        editor: Option<String>,
        path: bool,
        stdout: bool,
        json: bool,
    },
    List,
}

pub enum CommandView {
    Version,
    Daemon { handoff: bool, relinquish: bool },
    Shutdown,
    Runner { name: Seq<char>, socket: Seq<char> },
    Edit { file: Option<Seq<char>>, editor: Option<Seq<char>>, path: bool },
    Enable { file: Option<Seq<char>>, workdir: Option<Seq<char>> },
    Run {
        workdir: Option<Seq<char>>,
        name: Option<Seq<char>>,
        no_tty: bool,
        no_sync_rows_cols: bool,
        restart: Seq<char>,
        persist_logs: bool,
        log_max_bytes: u64,
        log_max_files: u32,
        env: Seq<Seq<char>>,
        argv: Seq<Seq<char>>,
    },
    Disable { name: Option<Seq<char>> },
    Restart { name: Option<Seq<char>> },
    Start { name: Option<Seq<char>> },
    Stop { name: Option<Seq<char>> },
    Attach { name: Option<Seq<char>>, stream: bool, no_stdin: bool },
    History {
        name: Option<Seq<char>>,
        list: bool,
        run: Option<Seq<char>>,
        editor: Option<Seq<char>>,
        path: bool,
        stdout: bool,
        json: bool,
    },
    List,
}

pub open spec fn ov(s: Option<String>) -> Option<Seq<char>> {
    crate::text::opt_view(s)
}

impl View for Command {
    type V = CommandView;

    open spec fn view(&self) -> CommandView {
        match *self {
            Command::Version => CommandView::Version,
            Command::Daemon { handoff, relinquish } => CommandView::Daemon { handoff, relinquish },
            Command::Shutdown => CommandView::Shutdown,
            Command::Runner { name, socket } => CommandView::Runner {
                name: name@,
                socket: socket@,
            },
            Command::Edit { file, editor, path } => CommandView::Edit {
                file: ov(file),
                editor: ov(editor),
                path,
            },
            Command::Enable { file, workdir } => CommandView::Enable {
                file: ov(file),
                workdir: ov(workdir),
            },
            Command::Run {
                workdir,
                name,
                no_tty,
                no_sync_rows_cols,
                restart,
                persist_logs,
                log_max_bytes,
                log_max_files,
                env,
                argv,
            } => CommandView::Run {
                workdir: ov(workdir),
                name: ov(name),
                no_tty,
                no_sync_rows_cols,
                restart: restart@,
                persist_logs,
                log_max_bytes,
                log_max_files,
                env: views(env@),
                argv: views(argv@),
            },
            Command::Disable { name } => CommandView::Disable { name: ov(name) },
            Command::Restart { name } => CommandView::Restart { name: ov(name) },
            Command::Start { name } => CommandView::Start { name: ov(name) },
            Command::Stop { name } => CommandView::Stop { name: ov(name) },
            Command::Attach { name, stream, no_stdin } => CommandView::Attach {
                name: ov(name),
                stream,
                no_stdin,
            },
            Command::History { name, list, run, editor, path, stdout, json } => CommandView::History {
                name: ov(name),
                list,
                run: ov(run),
                editor: ov(editor),
                path,
                stdout,
                json,
            },
            Command::List => CommandView::List,
        }
    }
}

#[derive(Debug)]
pub struct Cli {
    pub version: bool,
    pub output: Option<OutputFormat>,
    pub command: Option<Command>,
}

pub struct CliView {
    pub version: bool,
    pub output: Option<OutputFormat>,
    pub command: Option<CommandView>,
}

pub open spec fn command_opt(c: Option<Command>) -> Option<CommandView> {
    match c {
        Some(c) => Some(c@),
        None => None,
    }
}

impl View for Cli {
    type V = CliView;

    open spec fn view(&self) -> CliView {
        CliView {
            version: self.version,
            output: self.output,
            command: command_opt(self.command),
        }
    }
}

/// Whether a flag was given.
pub open spec fn flagged(tokens: Seq<TokenView>, opt: Opt) -> bool
    decreases tokens.len(),
{
    if tokens.len() == 0 {
        false
    } else {
        tokens.last() == TokenView::Flag(opt) || flagged(tokens.drop_last(), opt)
    }
}

/// The value that was given last.
pub open spec fn valued(tokens: Seq<TokenView>, opt: Opt) -> Option<Seq<char>>
    decreases tokens.len(),
{
    if tokens.len() == 0 {
        None
    } else {
        match tokens.last() {
            TokenView::Value(o, v) => if o == opt {
                Some(v)
            } else {
                valued(tokens.drop_last(), opt)
            },
            _ => valued(tokens.drop_last(), opt),
        }
    }
}

/// All values of an option, in order.
pub open spec fn values_of(tokens: Seq<TokenView>, opt: Opt) -> Seq<Seq<char>>
    decreases tokens.len(),
{
    if tokens.len() == 0 {
        Seq::empty()
    } else {
        let front = values_of(tokens.drop_last(), opt);
        match tokens.last() {
            TokenView::Value(o, v) => if o == opt { front.push(v) } else { front },
            _ => front,
        }
    }
}

/// The plain words, in order.
pub open spec fn words_of(tokens: Seq<TokenView>) -> Seq<Seq<char>>
    decreases tokens.len(),
{
    if tokens.len() == 0 {
        Seq::empty()
    } else {
        let front = words_of(tokens.drop_last());
        match tokens.last() {
            TokenView::Word(w) => front.push(w),
            _ => front,
        }
    }
}

pub open spec fn first_word(tokens: Seq<TokenView>) -> Option<Seq<char>> {
    if words_of(tokens).len() > 0 { Some(words_of(tokens)[0]) } else { None }
}

pub open spec fn together(a: Seq<char>, b: Seq<char>) -> UsageView {
    UsageView::Wrong("the argument '"@ + a + "' cannot be used with '"@ + b + "'"@)
}

pub open spec fn required(what: Seq<char>) -> UsageView {
    UsageView::Wrong("the following required arguments were not provided: "@ + what)
}

pub open spec fn format_named(s: Seq<char>) -> Option<OutputFormat> {
    if s == "text"@ {
        Some(OutputFormat::Text)
    } else if s == "json"@ {
        Some(OutputFormat::Json)
    } else {
        None
    }
}

/// An option that stands for a path has to have one.
pub open spec fn empty_path(tokens: Seq<TokenView>, opt: Opt) -> bool {
    valued(tokens, opt) is Some && (valued(tokens, opt)->0).len() == 0
}

pub open spec fn number_or(tokens: Seq<TokenView>, opt: Opt, max: nat, default: nat) -> Option<nat> {
    match valued(tokens, opt) {
        None => Some(default),
        Some(v) => parsed_number(v, max),
    }
}

pub open spec fn restart_or_never(tokens: Seq<TokenView>) -> Seq<char> {
    match valued(tokens, Opt::Restart) {
        Some(v) => v,
        None => "never"@,
    }
}

pub open spec fn run_built(tokens: Seq<TokenView>) -> Result<CommandView, UsageView> {
    let restart = restart_or_never(tokens);
    let bytes = number_or(tokens, Opt::LogMaxBytes, u64::MAX as nat, DEFAULT_LOG_MAX_BYTES as nat);
    let files = number_or(tokens, Opt::LogMaxFiles, u32::MAX as nat, DEFAULT_LOG_MAX_FILES as nat);
    if empty_path(tokens, Opt::Workdir) {
        Err(bad_value(Seq::empty(), "--workdir"@))
    } else if !policy_known(restart) {
        Err(bad_value(restart, "--restart"@))
    } else if bytes is None {
        Err(bad_value(valued(tokens, Opt::LogMaxBytes)->0, "--log-max-bytes"@))
    } else if files is None {
        Err(bad_value(valued(tokens, Opt::LogMaxFiles)->0, "--log-max-files"@))
    } else if words_of(tokens).len() == 0 {
        Err(required("<ARGV>..."@))
    } else {
        Ok(
            CommandView::Run {
                workdir: valued(tokens, Opt::Workdir),
                name: valued(tokens, Opt::Name),
                no_tty: flagged(tokens, Opt::NoTty),
                no_sync_rows_cols: flagged(tokens, Opt::NoSyncRowsCols),
                restart,
                persist_logs: flagged(tokens, Opt::PersistLogs),
                log_max_bytes: bytes->0 as u64,
                log_max_files: files->0 as u32,
                env: values_of(tokens, Opt::Env),
                argv: words_of(tokens),
            },
        )
    }
}

/// At most one way to show a record may be given, and none beside a list.
pub open spec fn history_built(tokens: Seq<TokenView>) -> Result<CommandView, UsageView> {
    let list = flagged(tokens, Opt::Listing);
    let run = valued(tokens, Opt::Record);
    let editor = valued(tokens, Opt::Editor);
    let path = flagged(tokens, Opt::Path);
    let stdout = flagged(tokens, Opt::Stdout);
    let json = flagged(tokens, Opt::Json);
    if list && run is Some {
        Err(together("--list"@, "--run"@))
    } else if list && editor is Some {
        Err(together("--list"@, "--editor"@))
    } else if list && path {
        Err(together("--list"@, "--path"@))
    } else if list && stdout {
        Err(together("--list"@, "--stdout"@))
    } else if list && json {
        Err(together("--list"@, "--json"@))
    } else if editor is Some && path {
        Err(together("--editor"@, "--path"@))
    } else if editor is Some && stdout {
        Err(together("--editor"@, "--stdout"@))
    } else if editor is Some && json {
        Err(together("--editor"@, "--json"@))
    } else if path && stdout {
        Err(together("--path"@, "--stdout"@))
    } else if path && json {
        Err(together("--path"@, "--json"@))
    } else if stdout && json {
        Err(together("--stdout"@, "--json"@))
    } else {
        Ok(
            CommandView::History {
                name: first_word(tokens),
                list,
                run,
                editor,
                path,
                stdout,
                json,
            },
        )
    }
}

pub open spec fn edit_built(tokens: Seq<TokenView>) -> Result<CommandView, UsageView> {
    let editor = valued(tokens, Opt::Editor);
    let path = flagged(tokens, Opt::Path);
    if empty_path(tokens, Opt::File) {
        Err(bad_value(Seq::empty(), "--file"@))
    } else if editor is Some && path {
        Err(together("--editor"@, "--path"@))
    } else {
        Ok(CommandView::Edit { file: valued(tokens, Opt::File), editor, path })
    }
}

pub open spec fn command_built(verb: Verb, tokens: Seq<TokenView>) -> Result<CommandView, UsageView> {
    match verb {
        Verb::Version => Ok(CommandView::Version),
        Verb::Daemon => {
            let handoff = flagged(tokens, Opt::Handoff);
            let relinquish = flagged(tokens, Opt::Relinquish);
            if handoff && relinquish {
                Err(together("--handoff"@, "--relinquish"@))
            } else {
                Ok(CommandView::Daemon { handoff, relinquish })
            }
        },
        Verb::Shutdown => Ok(CommandView::Shutdown),
        Verb::Runner => match (valued(tokens, Opt::Name), valued(tokens, Opt::Socket)) {
            (None, _) => Err(required("--name <NAME>"@)),
            (Some(_), None) => Err(required("--socket <SOCKET>"@)),
            (Some(name), Some(socket)) => if socket.len() == 0 {
                Err(bad_value(Seq::empty(), "--socket"@))
            } else {
                Ok(CommandView::Runner { name, socket })
            },
        },
        Verb::Edit => edit_built(tokens),
        Verb::Enable => if empty_path(tokens, Opt::File) {
            Err(bad_value(Seq::empty(), "--file"@))
        } else if empty_path(tokens, Opt::Workdir) {
            Err(bad_value(Seq::empty(), "--workdir"@))
        } else {
            Ok(
                CommandView::Enable {
                    file: valued(tokens, Opt::File),
                    workdir: valued(tokens, Opt::Workdir),
                },
            )
        },
        Verb::Run => run_built(tokens),
        Verb::Disable => Ok(CommandView::Disable { name: first_word(tokens) }),
        Verb::Restart => Ok(CommandView::Restart { name: first_word(tokens) }),
        Verb::Start => Ok(CommandView::Start { name: first_word(tokens) }),
        Verb::Stop => Ok(CommandView::Stop { name: first_word(tokens) }),
        Verb::Attach => Ok(
            CommandView::Attach {
                name: first_word(tokens),
                stream: flagged(tokens, Opt::Stream),
                no_stdin: flagged(tokens, Opt::NoStdin),
            },
        ),
        Verb::History => history_built(tokens),
        Verb::List => Ok(CommandView::List),
    }
}

pub open spec fn cli_built(tokens: Seq<TokenView>) -> Result<CliView, UsageView> {
    let version = flagged(tokens, Opt::Version);
    let format = match valued(tokens, Opt::Output) {
        Some(v) => match format_named(v) {
            Some(f) => Ok(Some(f)),
            None => Err(bad_value(v, "--output"@)),
        },
        None => Ok(None),
    };
    match format {
        Err(e) => Err(e),
        Ok(output) => match verb_in(tokens) {
            None => Ok(CliView { version, output, command: None }),
            Some(verb) => match command_built(verb, tokens) {
                Ok(c) => Ok(CliView { version, output, command: Some(c) }),
                Err(e) => Err(e),
            },
        },
    }
}

/// What a command line asks for. The first word is the name of the program.
pub open spec fn parsed(args: Seq<Seq<char>>) -> Result<CliView, UsageView> {
    match scanned(args, 1, Seq::empty(), false) {
        Ok(tokens) => cli_built(tokens),
        Err(e) => Err(e),
    }
}

fn has_flag(tokens: &Vec<Token>, opt: Opt) -> (r: bool)
    ensures
        r == flagged(token_views(tokens@), opt),
{
    let ghost all = token_views(tokens@);
    let mut n: usize = tokens.len();
    assert(all.take(n as int) =~= all);
    while n > 0
        invariant
            n <= tokens@.len(),
            all == token_views(tokens@),
            flagged(all, opt) == flagged(all.take(n as int), opt),
        decreases n,
    {
        assert(all.take(n as int).drop_last() =~= all.take(n - 1));
        assert(all.take(n as int).last() == tokens@[n - 1]@);
        match &tokens[n - 1] {
            Token::Flag(o) => {
                if *o == opt {
                    return true;
                }
            },
            _ => {},
        }
        n -= 1;
    }
    false
}

fn last_value(tokens: &Vec<Token>, opt: Opt) -> (r: Option<String>)
    ensures
        ov(r) == valued(token_views(tokens@), opt),
{
    let ghost all = token_views(tokens@);
    let mut n: usize = tokens.len();
    assert(all.take(n as int) =~= all);
    while n > 0
        invariant
            n <= tokens@.len(),
            all == token_views(tokens@),
            valued(all, opt) == valued(all.take(n as int), opt),
        decreases n,
    {
        assert(all.take(n as int).drop_last() =~= all.take(n - 1));
        assert(all.take(n as int).last() == tokens@[n - 1]@);
        match &tokens[n - 1] {
            Token::Value(o, v) => {
                if *o == opt {
                    return Some(v.clone());
                }
            },
            _ => {},
        }
        n -= 1;
    }
    None
}

fn all_values(tokens: &Vec<Token>, opt: Opt) -> (r: Vec<String>)
    ensures
        views(r@) == values_of(token_views(tokens@), opt),
{
    let ghost all = token_views(tokens@);
    let mut out: Vec<String> = Vec::new();
    let mut i: usize = 0;
    assert(views(out@) =~= values_of(all.take(0), opt));
    while i < tokens.len()
        invariant
            i <= tokens@.len(),
            all == token_views(tokens@),
            views(out@) == values_of(all.take(i as int), opt),
        decreases tokens@.len() - i,
    {
        let ghost before = out@;
        assert(all.take(i + 1).drop_last() =~= all.take(i as int));
        assert(all.take(i + 1).last() == tokens@[i as int]@);
        match &tokens[i] {
            Token::Value(o, v) => {
                if *o == opt {
                    out.push(v.clone());
                    assert(views(out@) =~= views(before).push(v@));
                }
            },
            _ => {},
        }
        i += 1;
    }
    assert(all.take(i as int) =~= all);
    out
}

fn all_words(tokens: &Vec<Token>) -> (r: Vec<String>)
    ensures
        views(r@) == words_of(token_views(tokens@)),
{
    let ghost all = token_views(tokens@);
    let mut out: Vec<String> = Vec::new();
    let mut i: usize = 0;
    assert(views(out@) =~= words_of(all.take(0)));
    while i < tokens.len()
        invariant
            i <= tokens@.len(),
            all == token_views(tokens@),
            views(out@) == words_of(all.take(i as int)),
        decreases tokens@.len() - i,
    {
        let ghost before = out@;
        assert(all.take(i + 1).drop_last() =~= all.take(i as int));
        assert(all.take(i + 1).last() == tokens@[i as int]@);
        match &tokens[i] {
            Token::Word(v) => {
                out.push(v.clone());
                assert(views(out@) =~= views(before).push(v@));
            },
            _ => {},
        }
        i += 1;
    }
    assert(all.take(i as int) =~= all);
    out
}

fn name_given(tokens: &Vec<Token>) -> (r: Option<String>)
    ensures
        ov(r) == first_word(token_views(tokens@)),
{
    let words = all_words(tokens);
    assert(views(words@).len() == words@.len());
    if words.len() > 0 {
        Some(words[0].clone())
    } else {
        None
    }
}

fn clash(a: &str, b: &str) -> (r: Usage)
    ensures
        r@ == together(a@, b@),
{
    Usage::Wrong(cat5("the argument '", a, "' cannot be used with '", b, "'"))
}

fn lacking(what: &str) -> (r: Usage)
    ensures
        r@ == required(what@),
{
    Usage::Wrong(crate::text::cat2("the following required arguments were not provided: ", what))
}

/// The path that an option stands for.
fn path_value(tokens: &Vec<Token>, opt: Opt, name: &str) -> (r: Result<Option<String>, Usage>)
    ensures
        if empty_path(token_views(tokens@), opt) {
            r is Err && r->Err_0@ == bad_value(Seq::empty(), name@)
        } else {
            r is Ok && ov(r->Ok_0) == valued(token_views(tokens@), opt)
        },
{
    let value = last_value(tokens, opt);
    match &value {
        Some(v) => {
            if v.as_str().is_empty() {
                assert(v@ =~= Seq::<char>::empty());
                return Err(invalid(v.as_str(), name));
            }
        },
        None => {},
    }
    Ok(value)
}

fn number_value(tokens: &Vec<Token>, opt: Opt, max: u64, default: u64, name: &str) -> (r: Result<u64, Usage>)
    ensures
        match number_or(token_views(tokens@), opt, max as nat, default as nat) {
            Some(n) => r == Ok::<u64, Usage>(n as u64) && n <= u64::MAX && (n <= max || n == default),
            None => r is Err && r->Err_0@ == bad_value(
                valued(token_views(tokens@), opt)->0,
                name@,
            ),
        },
{
    match last_value(tokens, opt) {
        None => Ok(default),
        Some(v) => match parse_number(v.as_str(), max) {
            Some(n) => Ok(n),
            None => Err(invalid(v.as_str(), name)),
        },
    }
}

fn build_run(tokens: &Vec<Token>) -> (r: Result<Command, Usage>)
    ensures
        match run_built(token_views(tokens@)) {
            Ok(c) => r is Ok && r->Ok_0@ == c,
            Err(e) => r is Err && r->Err_0@ == e,
        },
{
    let workdir = match path_value(tokens, Opt::Workdir, "--workdir") {
        Ok(w) => w,
        Err(e) => {
            return Err(e);
        },
    };
    let restart = match last_value(tokens, Opt::Restart) {
        Some(v) => v,
        None => "never".to_owned(),
    };
    let known = same(restart.as_str(), "never") || same(restart.as_str(), "on-failure") || same(
        restart.as_str(),
        "always",
    );
    if !known {
        return Err(invalid(restart.as_str(), "--restart"));
    }
    let bytes = match number_value(
        tokens,
        Opt::LogMaxBytes,
        0xffff_ffff_ffff_ffff,
        DEFAULT_LOG_MAX_BYTES,
        "--log-max-bytes",
    ) {
        Ok(n) => n,
        Err(e) => {
            return Err(e);
        },
    };
    let files = match number_value(
        tokens,
        Opt::LogMaxFiles,
        0xffff_ffff,
        DEFAULT_LOG_MAX_FILES as u64,
        "--log-max-files",
    ) {
        Ok(n) => n,
        Err(e) => {
            return Err(e);
        },
    };
    let argv = all_words(tokens);
    assert(views(argv@).len() == argv@.len());
    if argv.len() == 0 {
        return Err(lacking("<ARGV>..."));
    }
    Ok(
        Command::Run {
            workdir,
            name: last_value(tokens, Opt::Name),
            no_tty: has_flag(tokens, Opt::NoTty),
            no_sync_rows_cols: has_flag(tokens, Opt::NoSyncRowsCols),
            restart,
            persist_logs: has_flag(tokens, Opt::PersistLogs),
            log_max_bytes: bytes,
            log_max_files: files as u32,
            env: all_values(tokens, Opt::Env),
            argv,
        },
    )
}

fn build_history(tokens: &Vec<Token>) -> (r: Result<Command, Usage>)
    ensures
        match history_built(token_views(tokens@)) {
            Ok(c) => r is Ok && r->Ok_0@ == c,
            Err(e) => r is Err && r->Err_0@ == e,
        },
{
    let list = has_flag(tokens, Opt::Listing);
    let run = last_value(tokens, Opt::Record);
    let editor = last_value(tokens, Opt::Editor);
    let path = has_flag(tokens, Opt::Path);
    let stdout = has_flag(tokens, Opt::Stdout);
    let json = has_flag(tokens, Opt::Json);
    if list && run.is_some() {
        return Err(clash("--list", "--run"));
    }
    if list && editor.is_some() {
        return Err(clash("--list", "--editor"));
    }
    if list && path {
        return Err(clash("--list", "--path"));
    }
    if list && stdout {
        return Err(clash("--list", "--stdout"));
    }
    if list && json {
        return Err(clash("--list", "--json"));
    }
    if editor.is_some() && path {
        return Err(clash("--editor", "--path"));
    }
    if editor.is_some() && stdout {
        return Err(clash("--editor", "--stdout"));
    }
    if editor.is_some() && json {
        return Err(clash("--editor", "--json"));
    }
    if path && stdout {
        return Err(clash("--path", "--stdout"));
    }
    if path && json {
        return Err(clash("--path", "--json"));
    }
    if stdout && json {
        return Err(clash("--stdout", "--json"));
    }
    Ok(
        Command::History {
            name: name_given(tokens),
            list,
            run,
            editor,
            path,
            stdout,
            json,
        },
    )
}

fn build_edit(tokens: &Vec<Token>) -> (r: Result<Command, Usage>)
    ensures
        match edit_built(token_views(tokens@)) {
            Ok(c) => r is Ok && r->Ok_0@ == c,
            Err(e) => r is Err && r->Err_0@ == e,
        },
{
    let file = match path_value(tokens, Opt::File, "--file") {
        Ok(f) => f,
        Err(e) => {
            return Err(e);
        },
    };
    let editor = last_value(tokens, Opt::Editor);
    let path = has_flag(tokens, Opt::Path);
    if editor.is_some() && path {
        return Err(clash("--editor", "--path"));
    }
    Ok(Command::Edit { file, editor, path })
}

fn build_command(verb: Verb, tokens: &Vec<Token>) -> (r: Result<Command, Usage>)
    ensures
        match command_built(verb, token_views(tokens@)) {
            Ok(c) => r is Ok && r->Ok_0@ == c,
            Err(e) => r is Err && r->Err_0@ == e,
        },
{
    match verb {
        Verb::Version => Ok(Command::Version),
        Verb::Daemon => {
            let handoff = has_flag(tokens, Opt::Handoff);
            let relinquish = has_flag(tokens, Opt::Relinquish);
            if handoff && relinquish {
                return Err(clash("--handoff", "--relinquish"));
            }
            Ok(Command::Daemon { handoff, relinquish })
        },
        Verb::Shutdown => Ok(Command::Shutdown),
        Verb::Runner => {
            let name = match last_value(tokens, Opt::Name) {
                Some(n) => n,
                None => {
                    return Err(lacking("--name <NAME>"));
                },
            };
            let socket = match last_value(tokens, Opt::Socket) {
                Some(s) => s,
                None => {
                    return Err(lacking("--socket <SOCKET>"));
                },
            };
            if socket.as_str().is_empty() {
                assert(socket@ =~= Seq::<char>::empty());
                return Err(invalid(socket.as_str(), "--socket"));
            }
            Ok(Command::Runner { name, socket })
        },
        Verb::Edit => build_edit(tokens),
        Verb::Enable => {
            let file = match path_value(tokens, Opt::File, "--file") {
                Ok(f) => f,
                Err(e) => {
                    return Err(e);
                },
            };
            let workdir = match path_value(tokens, Opt::Workdir, "--workdir") {
                Ok(w) => w,
                Err(e) => {
                    return Err(e);
                },
            };
            Ok(Command::Enable { file, workdir })
        },
        Verb::Run => build_run(tokens),
        Verb::Disable => Ok(Command::Disable { name: name_given(tokens) }),
        Verb::Restart => Ok(Command::Restart { name: name_given(tokens) }),
        Verb::Start => Ok(Command::Start { name: name_given(tokens) }),
        Verb::Stop => Ok(Command::Stop { name: name_given(tokens) }),
        Verb::Attach => Ok(
            Command::Attach {
                name: name_given(tokens),
                stream: has_flag(tokens, Opt::Stream),
                no_stdin: has_flag(tokens, Opt::NoStdin),
            },
        ),
        Verb::History => build_history(tokens),
        Verb::List => Ok(Command::List),
    }
}

impl Cli {
    /// Reads a command line, the name of the program first.
    pub fn try_parse_from(args: &Vec<String>) -> (r: Result<Cli, Usage>)
        ensures
            match parsed(views(args@)) {
                Ok(c) => r is Ok && r->Ok_0@ == c,
                Err(e) => r is Err && r->Err_0@ == e,
            },
    {
        let tokens = match scan(args, 1) {
            Ok(t) => t,
            Err(e) => {
                return Err(e);
            },
        };
        let version = has_flag(&tokens, Opt::Version);
        let output: Option<OutputFormat> = match last_value(&tokens, Opt::Output) {
            Some(v) => {
                if same(v.as_str(), "text") {
                    Some(OutputFormat::Text)
                } else if same(v.as_str(), "json") {
                    Some(OutputFormat::Json)
                } else {
                    return Err(invalid(v.as_str(), "--output"));
                }
            },
            None => None,
        };
        match current_verb(&tokens) {
            None => Ok(Cli { version, output, command: None }),
            Some(verb) => match build_command(verb, &tokens) {
                Ok(command) => Ok(Cli { version, output, command: Some(command) }),
                Err(e) => Err(e),
            },
        }
    }
}

} // verus!
