//! The words of a command line, told apart.
use crate::text::{cat3, cat5, chars_of, has_at, parse_number, parsed_number, same, starts_with, string_of, views};
use vstd::prelude::*;

verus! {

#[derive(Debug, Clone, Copy, PartialEq, Eq, Structural)]
pub enum Verb {
    Version,
    Daemon,
    Shutdown,
    Runner,
    Edit,
    Enable,
    Run,
    Disable,
    Restart,
    Start,
    Stop,
    Attach,
    History,
    List,
}

#[derive(Debug, Clone, Copy, PartialEq, Eq, Structural)]
pub enum Opt {
    Help,
    Version,
    Output,
    Handoff,
    Relinquish,
    Name,
    Socket,
    File,
    Editor,
    Path,
    Workdir,
    NoTty,
    NoSyncRowsCols,
    Restart,
    PersistLogs,
    LogMaxBytes,
    LogMaxFiles,
    Env,
    Stream,
    NoStdin,
    Listing,
    Record,
    Stdout,
    Json,
}

#[derive(Debug)]
pub enum Token {
    Verb(Verb),
    Flag(Opt),
    Value(Opt, String),
    Word(String),
}

pub enum TokenView {
    Verb(Verb),
    Flag(Opt),
    Value(Opt, Seq<char>),
    Word(Seq<char>),
}

impl View for Token {
    type V = TokenView;

    open spec fn view(&self) -> TokenView {
        match self {
            Token::Verb(v) => TokenView::Verb(*v),
            Token::Flag(o) => TokenView::Flag(*o),
            Token::Value(o, s) => TokenView::Value(*o, s@),
            Token::Word(s) => TokenView::Word(s@),
        }
    }
}

pub open spec fn token_views(tokens: Seq<Token>) -> Seq<TokenView> {
    Seq::new(tokens.len(), |i: int| tokens[i]@)
}

/// Why a command line is not carried out.
#[derive(Debug)]
pub enum Usage {
    /// Help was asked for.
    Help,
    /// The line is not understood.
    Wrong(String),
}

pub enum UsageView {
    Help,
    Wrong(Seq<char>),
}

impl View for Usage {
    type V = UsageView;

    open spec fn view(&self) -> UsageView {
        match self {
            Usage::Help => UsageView::Help,
            Usage::Wrong(s) => UsageView::Wrong(s@),
        }
    }
}

pub open spec fn verb_named(s: Seq<char>) -> Option<Verb> {
    if s == "version"@ {
        Some(Verb::Version)
    } else if s == "daemon"@ {
        Some(Verb::Daemon)
    } else if s == "shutdown"@ {
        Some(Verb::Shutdown)
    } else if s == "runner"@ {
        Some(Verb::Runner)
    } else if s == "edit"@ {
        Some(Verb::Edit)
    } else if s == "enable"@ {
        Some(Verb::Enable)
    } else if s == "run"@ {
        Some(Verb::Run)
    } else if s == "disable"@ {
        Some(Verb::Disable)
    } else if s == "restart"@ {
        Some(Verb::Restart)
    } else if s == "start"@ {
        Some(Verb::Start)
    } else if s == "stop"@ {
        Some(Verb::Stop)
    } else if s == "attach"@ {
        Some(Verb::Attach)
    } else if s == "history"@ {
        Some(Verb::History)
    } else if s == "list"@ {
        Some(Verb::List)
    } else {
        None
    }
}

fn find_verb(s: &str) -> (r: Option<Verb>)
    ensures
        r == verb_named(s@),
{
    if same(s, "version") {
        Some(Verb::Version)
    } else if same(s, "daemon") {
        Some(Verb::Daemon)
    } else if same(s, "shutdown") {
        Some(Verb::Shutdown)
    } else if same(s, "runner") {
        Some(Verb::Runner)
    } else if same(s, "edit") {
        Some(Verb::Edit)
    } else if same(s, "enable") {
        Some(Verb::Enable)
    } else if same(s, "run") {
        Some(Verb::Run)
    } else if same(s, "disable") {
        Some(Verb::Disable)
    } else if same(s, "restart") {
        Some(Verb::Restart)
    } else if same(s, "start") {
        Some(Verb::Start)
    } else if same(s, "stop") {
        Some(Verb::Stop)
    } else if same(s, "attach") {
        Some(Verb::Attach)
    } else if same(s, "history") {
        Some(Verb::History)
    } else if same(s, "list") {
        Some(Verb::List)
    } else {
        None
    }
}

/// The option that a name stands for, wherever it is known.
pub open spec fn opt_named(s: Seq<char>) -> Option<Opt> {
    if s == "--help"@ {
        Some(Opt::Help)
    } else if s == "--version"@ {
        Some(Opt::Version)
    } else if s == "--output"@ {
        Some(Opt::Output)
    } else if s == "--handoff"@ {
        Some(Opt::Handoff)
    } else if s == "--relinquish"@ {
        Some(Opt::Relinquish)
    } else if s == "--name"@ {
        Some(Opt::Name)
    } else if s == "--socket"@ {
        Some(Opt::Socket)
    } else if s == "--file"@ {
        Some(Opt::File)
    } else if s == "--editor"@ {
        Some(Opt::Editor)
    } else if s == "--path"@ {
        Some(Opt::Path)
    } else if s == "--workdir"@ {
        Some(Opt::Workdir)
    } else if s == "--no-tty"@ {
        Some(Opt::NoTty)
    } else if s == "--no-sync-rows-cols"@ {
        Some(Opt::NoSyncRowsCols)
    } else if s == "--restart"@ {
        Some(Opt::Restart)
    } else if s == "--persist-logs"@ {
        Some(Opt::PersistLogs)
    } else if s == "--log-max-bytes"@ {
        Some(Opt::LogMaxBytes)
    } else if s == "--log-max-files"@ {
        Some(Opt::LogMaxFiles)
    } else if s == "--env"@ {
        Some(Opt::Env)
    } else if s == "--stream"@ {
        Some(Opt::Stream)
    } else if s == "--no-stdin"@ {
        Some(Opt::NoStdin)
    } else if s == "--list"@ {
        Some(Opt::Listing)
    } else if s == "--run"@ {
        Some(Opt::Record)
    } else if s == "--stdout"@ {
        Some(Opt::Stdout)
    } else if s == "--json"@ {
        Some(Opt::Json)
    } else {
        None
    }
}

fn find_opt(s: &str) -> (r: Option<Opt>)
    ensures
        r == opt_named(s@),
{
    if same(s, "--help") {
        Some(Opt::Help)
    } else if same(s, "--version") {
        Some(Opt::Version)
    } else if same(s, "--output") {
        Some(Opt::Output)
    } else if same(s, "--handoff") {
        Some(Opt::Handoff)
    } else if same(s, "--relinquish") {
        Some(Opt::Relinquish)
    } else if same(s, "--name") {
        Some(Opt::Name)
    } else if same(s, "--socket") {
        Some(Opt::Socket)
    } else if same(s, "--file") {
        Some(Opt::File)
    } else if same(s, "--editor") {
        Some(Opt::Editor)
    } else if same(s, "--path") {
        Some(Opt::Path)
    } else if same(s, "--workdir") {
        Some(Opt::Workdir)
    } else if same(s, "--no-tty") {
        Some(Opt::NoTty)
    } else if same(s, "--no-sync-rows-cols") {
        Some(Opt::NoSyncRowsCols)
    } else if same(s, "--restart") {
        Some(Opt::Restart)
    } else if same(s, "--persist-logs") {
        Some(Opt::PersistLogs)
    } else if same(s, "--log-max-bytes") {
        Some(Opt::LogMaxBytes)
    } else if same(s, "--log-max-files") {
        Some(Opt::LogMaxFiles)
    } else if same(s, "--env") {
        Some(Opt::Env)
    } else if same(s, "--stream") {
        Some(Opt::Stream)
    } else if same(s, "--no-stdin") {
        Some(Opt::NoStdin)
    } else if same(s, "--list") {
        Some(Opt::Listing)
    } else if same(s, "--run") {
        Some(Opt::Record)
    } else if same(s, "--stdout") {
        Some(Opt::Stdout)
    } else if same(s, "--json") {
        Some(Opt::Json)
    } else {
        None
    }
}

/// Whether an option may be given there. The format of the output may be given anywhere.
pub open spec fn known_to(verb: Option<Verb>, opt: Opt) -> bool {
    match opt {
        Opt::Help => true,
        Opt::Output => true,
        Opt::Version => verb is None,
        Opt::Handoff => verb == Some(Verb::Daemon),
        Opt::Relinquish => verb == Some(Verb::Daemon),
        Opt::Name => verb == Some(Verb::Runner) || verb == Some(Verb::Run),
        Opt::Socket => verb == Some(Verb::Runner),
        Opt::File => verb == Some(Verb::Edit) || verb == Some(Verb::Enable),
        Opt::Editor => verb == Some(Verb::Edit) || verb == Some(Verb::History),
        Opt::Path => verb == Some(Verb::Edit) || verb == Some(Verb::History),
        Opt::Workdir => verb == Some(Verb::Enable) || verb == Some(Verb::Run),
        Opt::NoTty => verb == Some(Verb::Run),
        Opt::NoSyncRowsCols => verb == Some(Verb::Run),
        Opt::Restart => verb == Some(Verb::Run),
        Opt::PersistLogs => verb == Some(Verb::Run),
        Opt::LogMaxBytes => verb == Some(Verb::Run),
        Opt::LogMaxFiles => verb == Some(Verb::Run),
        Opt::Env => verb == Some(Verb::Run),
        Opt::Stream => verb == Some(Verb::Attach),
        Opt::NoStdin => verb == Some(Verb::Attach),
        Opt::Listing => verb == Some(Verb::History),
        Opt::Record => verb == Some(Verb::History),
        Opt::Stdout => verb == Some(Verb::History),
        Opt::Json => verb == Some(Verb::History),
    }
}

fn is_verb(verb: Option<Verb>, v: Verb) -> (r: bool)
    ensures
        r == (verb == Some(v)),
{
    match verb {
        Some(w) => w == v,
        None => false,
    }
}

fn knows(verb: Option<Verb>, opt: Opt) -> (r: bool)
    ensures
        r == known_to(verb, opt),
{
    match opt {
        Opt::Help | Opt::Output => true,
        Opt::Version => verb.is_none(),
        Opt::Handoff | Opt::Relinquish => is_verb(verb, Verb::Daemon),
        Opt::Name => is_verb(verb, Verb::Runner) || is_verb(verb, Verb::Run),
        Opt::Socket => is_verb(verb, Verb::Runner),
        Opt::File => is_verb(verb, Verb::Edit) || is_verb(verb, Verb::Enable),
        Opt::Editor | Opt::Path => is_verb(verb, Verb::Edit) || is_verb(verb, Verb::History),
        Opt::Workdir => is_verb(verb, Verb::Enable) || is_verb(verb, Verb::Run),
        Opt::NoTty | Opt::NoSyncRowsCols | Opt::Restart | Opt::PersistLogs | Opt::LogMaxBytes
        | Opt::LogMaxFiles | Opt::Env => is_verb(verb, Verb::Run),
        Opt::Stream | Opt::NoStdin => is_verb(verb, Verb::Attach),
        Opt::Listing | Opt::Record | Opt::Stdout | Opt::Json => is_verb(verb, Verb::History),
    }
}

pub open spec fn takes_value(opt: Opt) -> bool {
    match opt {
        Opt::Output => true,
        Opt::Name => true,
        Opt::Socket => true,
        Opt::File => true,
        Opt::Editor => true,
        Opt::Workdir => true,
        Opt::Restart => true,
        Opt::LogMaxBytes => true,
        Opt::LogMaxFiles => true,
        Opt::Env => true,
        Opt::Record => true,
        _ => false,
    }
}

fn wants_value(opt: Opt) -> (r: bool)
    ensures
        r == takes_value(opt),
{
    match opt {
        Opt::Output | Opt::Name | Opt::Socket | Opt::File | Opt::Editor | Opt::Workdir
        | Opt::Restart | Opt::LogMaxBytes | Opt::LogMaxFiles | Opt::Env | Opt::Record => true,
        _ => false,
    }
}

/// The option that a letter stands for.
pub open spec fn opt_lettered(c: char) -> Option<Opt> {
    if c == 'h' {
        Some(Opt::Help)
    } else if c == 'V' {
        Some(Opt::Version)
    } else if c == 'f' {
        Some(Opt::File)
    } else if c == 'e' {
        Some(Opt::Editor)
    } else {
        None
    }
}

fn find_letter(c: char) -> (r: Option<Opt>)
    ensures
        r == opt_lettered(c),
{
    if c == 'h' {
        Some(Opt::Help)
    } else if c == 'V' {
        Some(Opt::Version)
    } else if c == 'f' {
        Some(Opt::File)
    } else if c == 'e' {
        Some(Opt::Editor)
    } else {
        None
    }
}

/// The command that has been named.
pub open spec fn verb_in(tokens: Seq<TokenView>) -> Option<Verb>
    decreases tokens.len(),
{
    if tokens.len() == 0 {
        None
    } else {
        match tokens.last() {
            TokenView::Verb(v) => Some(v),
            _ => verb_in(tokens.drop_last()),
        }
    }
}

/// Whether an option has been given since the command was named.
pub open spec fn given_here(tokens: Seq<TokenView>, opt: Opt) -> bool
    decreases tokens.len(),
{
    if tokens.len() == 0 {
        false
    } else {
        match tokens.last() {
            TokenView::Verb(_) => false,
            TokenView::Flag(o) => o == opt || given_here(tokens.drop_last(), opt),
            TokenView::Value(o, _) => o == opt || given_here(tokens.drop_last(), opt),
            TokenView::Word(_) => given_here(tokens.drop_last(), opt),
        }
    }
}

pub open spec fn has_word(tokens: Seq<TokenView>) -> bool
    decreases tokens.len(),
{
    if tokens.len() == 0 {
        false
    } else {
        tokens.last() is Word || has_word(tokens.drop_last())
    }
}

pub(crate) fn current_verb(tokens: &Vec<Token>) -> (r: Option<Verb>)
    ensures
        r == verb_in(token_views(tokens@)),
{
    let ghost all = token_views(tokens@);
    let mut n: usize = tokens.len();
    assert(all.take(n as int) =~= all);
    while n > 0
        invariant
            n <= tokens@.len(),
            all == token_views(tokens@),
            verb_in(all) == verb_in(all.take(n as int)),
        decreases n,
    {
        assert(all.take(n as int).drop_last() =~= all.take(n - 1));
        assert(all.take(n as int).last() == tokens@[n - 1]@);
        match &tokens[n - 1] {
            Token::Verb(v) => {
                return Some(*v);
            },
            _ => {},
        }
        n -= 1;
    }
    None
}

fn is_given(tokens: &Vec<Token>, opt: Opt) -> (r: bool)
    ensures
        r == given_here(token_views(tokens@), opt),
{
    let ghost all = token_views(tokens@);
    let mut n: usize = tokens.len();
    assert(all.take(n as int) =~= all);
    while n > 0
        invariant
            n <= tokens@.len(),
            all == token_views(tokens@),
            given_here(all, opt) == given_here(all.take(n as int), opt),
        decreases n,
    {
        assert(all.take(n as int).drop_last() =~= all.take(n - 1));
        assert(all.take(n as int).last() == tokens@[n - 1]@);
        match &tokens[n - 1] {
            Token::Verb(_) => {
                return false;
            },
            Token::Flag(o) => {
                if *o == opt {
                    return true;
                }
            },
            Token::Value(o, _) => {
                if *o == opt {
                    return true;
                }
            },
            Token::Word(_) => {},
        }
        n -= 1;
    }
    false
}

fn word_given(tokens: &Vec<Token>) -> (r: bool)
    ensures
        r == has_word(token_views(tokens@)),
{
    let ghost all = token_views(tokens@);
    let mut n: usize = tokens.len();
    assert(all.take(n as int) =~= all);
    while n > 0
        invariant
            n <= tokens@.len(),
            all == token_views(tokens@),
            has_word(all) == has_word(all.take(n as int)),
        decreases n,
    {
        assert(all.take(n as int).drop_last() =~= all.take(n - 1));
        assert(all.take(n as int).last() == tokens@[n - 1]@);
        match &tokens[n - 1] {
            Token::Word(_) => {
                return true;
            },
            _ => {},
        }
        n -= 1;
    }
    false
}

pub open spec fn unexpected(arg: Seq<char>) -> UsageView {
    UsageView::Wrong("unexpected argument '"@ + arg + "' found"@)
}

pub open spec fn missing(opt: Seq<char>) -> UsageView {
    UsageView::Wrong("a value is required for '"@ + opt + "' but none was supplied"@)
}

pub open spec fn repeated(opt: Seq<char>) -> UsageView {
    UsageView::Wrong("the argument '"@ + opt + "' cannot be used multiple times"@)
}

pub open spec fn unrecognized(word: Seq<char>) -> UsageView {
    UsageView::Wrong("unrecognized subcommand '"@ + word + "'"@)
}

pub open spec fn no_value_for(opt: Seq<char>) -> UsageView {
    UsageView::Wrong("unexpected value for '"@ + opt + "' found; no more were expected"@)
}

/// Where an equals sign first stands.
pub open spec fn equals_at(s: Seq<char>, i: int) -> Option<int>
    decreases s.len() - i,
{
    if i < 0 || i >= s.len() {
        None
    } else if s[i] == '=' {
        Some(i)
    } else {
        equals_at(s, i + 1)
    }
}

/// A long option, and the value behind its equals sign.
pub open spec fn long_parts(s: Seq<char>) -> (Seq<char>, Option<Seq<char>>) {
    match equals_at(s, 0) {
        Some(k) => (s.take(k), Some(s.skip(k + 1))),
        None => (s, None),
    }
}

/// A word that can be the value of an option: it does not look like one.
pub open spec fn plain_value(s: Seq<char>) -> bool {
    !(s.len() > 1 && s[0] == '-')
}

/// What a cluster of letters comes to.
pub enum Letters {
    Wrong(UsageView),
    /// All letters were flags.
    Flags(Seq<TokenView>),
    /// The last letter wants a value, which the next word is.
    Wants(Seq<TokenView>, Opt),
}

pub open spec fn bad_value(value: Seq<char>, opt: Seq<char>) -> UsageView {
    UsageView::Wrong("invalid value '"@ + value + "' for '"@ + opt + "'"@)
}

pub open spec fn policy_known(s: Seq<char>) -> bool {
    s == "never"@ || s == "on-failure"@ || s == "always"@
}

/// Whether an option can have that value: a format, a policy, a number or a path has to be one.
pub open spec fn value_known(opt: Opt, value: Seq<char>) -> bool {
    match opt {
        Opt::Output => value == "text"@ || value == "json"@,
        Opt::Restart => policy_known(value),
        Opt::LogMaxBytes => parsed_number(value, u64::MAX as nat) is Some,
        Opt::LogMaxFiles => parsed_number(value, u32::MAX as nat) is Some,
        Opt::File => value.len() > 0,
        Opt::Workdir => value.len() > 0,
        Opt::Socket => value.len() > 0,
        _ => true,
    }
}

/// The name of an option whose values are judged.
pub open spec fn judged_name(opt: Opt) -> Seq<char> {
    match opt {
        Opt::Output => "--output"@,
        Opt::Restart => "--restart"@,
        Opt::LogMaxBytes => "--log-max-bytes"@,
        Opt::LogMaxFiles => "--log-max-files"@,
        Opt::File => "--file"@,
        Opt::Workdir => "--workdir"@,
        _ => "--socket"@,
    }
}

/// Puts an option behind the others, once only and with a value that it can have.
pub open spec fn put(tokens: Seq<TokenView>, opt: Opt, token: TokenView, name: Seq<char>) -> Result<
    Seq<TokenView>,
    UsageView,
> {
    if given_here(tokens, opt) && !(opt is Env) {
        Err(repeated(name))
    } else if token is Value && !value_known(opt, token->Value_1) {
        Err(bad_value(token->Value_1, judged_name(opt)))
    } else {
        Ok(tokens.push(token))
    }
}

/// The letters of a cluster from `k` on.
pub open spec fn letters(arg: Seq<char>, k: int, tokens: Seq<TokenView>) -> Letters
    decreases arg.len() - k,
{
    if k < 0 || k >= arg.len() {
        Letters::Flags(tokens)
    } else {
        let opt = opt_lettered(arg[k]);
        let name = seq!['-', arg[k]];
        if opt is None || !known_to(verb_in(tokens), opt->0) {
            Letters::Wrong(unexpected(name))
        } else if opt->0 is Help {
            Letters::Wrong(UsageView::Help)
        } else if !takes_value(opt->0) {
            match put(tokens, opt->0, TokenView::Flag(opt->0), name) {
                Ok(t) => letters(arg, k + 1, t),
                Err(e) => Letters::Wrong(e),
            }
        } else if k + 1 == arg.len() {
            Letters::Wants(tokens, opt->0)
        } else {
            let start = if arg[k + 1] == '=' { k + 2 } else { k + 1 };
            match put(tokens, opt->0, TokenView::Value(opt->0, arg.skip(start)), name) {
                Ok(t) => Letters::Flags(t),
                Err(e) => Letters::Wrong(e),
            }
        }
    }
}

pub open spec fn takes_name(verb: Verb) -> bool {
    match verb {
        Verb::Disable => true,
        Verb::Restart => true,
        Verb::Start => true,
        Verb::Stop => true,
        Verb::Attach => true,
        Verb::History => true,
        _ => false,
    }
}

/// What a plain word is: the command, or what the command is about. Behind a double dash `run`
/// takes every word.
pub open spec fn word_step(tokens: Seq<TokenView>, word: Seq<char>, literal: bool) -> Result<
    Seq<TokenView>,
    UsageView,
> {
    match verb_in(tokens) {
        None => if literal {
            Err(unexpected(word))
        } else if word == "help"@ {
            Err(UsageView::Help)
        } else {
            match verb_named(word) {
                Some(v) => Ok(tokens.push(TokenView::Verb(v))),
                None => Err(unrecognized(word)),
            }
        },
        Some(Verb::Run) => if literal {
            Ok(tokens.push(TokenView::Word(word)))
        } else {
            Err(unexpected(word))
        },
        Some(v) => if takes_name(v) && !has_word(tokens) {
            Ok(tokens.push(TokenView::Word(word)))
        } else {
            Err(unexpected(word))
        },
    }
}

/// Takes the value of an option from the next word.
pub open spec fn value_step(args: Seq<Seq<char>>, i: int, tokens: Seq<TokenView>, opt: Opt, name: Seq<char>) -> Result<
    Seq<TokenView>,
    UsageView,
> {
    if i < args.len() && plain_value(args[i]) {
        put(tokens, opt, TokenView::Value(opt, args[i]), name)
    } else {
        Err(missing(name))
    }
}

pub struct Step {
    pub tokens: Seq<TokenView>,
    pub next: int,
    pub literal: bool,
}

/// What the word at `i` makes of the words before it.
pub open spec fn one_step(args: Seq<Seq<char>>, i: int, tokens: Seq<TokenView>, literal: bool) -> Result<
    Step,
    UsageView,
> {
    let arg = args[i];
    if literal {
        match word_step(tokens, arg, true) {
            Ok(t) => Ok(Step { tokens: t, next: i + 1, literal }),
            Err(e) => Err(e),
        }
    } else if arg == "--"@ {
        Ok(Step { tokens, next: i + 1, literal: true })
    } else if starts_with(arg, "--"@) {
        let parts = long_parts(arg);
        let opt = opt_named(parts.0);
        if opt is None || !known_to(verb_in(tokens), opt->0) {
            Err(unexpected(arg))
        } else if !takes_value(opt->0) {
            if parts.1 is Some {
                Err(no_value_for(parts.0))
            } else if opt->0 is Help {
                Err(UsageView::Help)
            } else {
                match put(tokens, opt->0, TokenView::Flag(opt->0), parts.0) {
                    Ok(t) => Ok(Step { tokens: t, next: i + 1, literal }),
                    Err(e) => Err(e),
                }
            }
        } else if parts.1 is Some {
            match put(tokens, opt->0, TokenView::Value(opt->0, parts.1->0), parts.0) {
                Ok(t) => Ok(Step { tokens: t, next: i + 1, literal }),
                Err(e) => Err(e),
            }
        } else {
            match value_step(args, i + 1, tokens, opt->0, parts.0) {
                Ok(t) => Ok(Step { tokens: t, next: i + 2, literal }),
                Err(e) => Err(e),
            }
        }
    } else if !plain_value(arg) {
        match letters(arg, 1, tokens) {
            Letters::Wrong(e) => Err(e),
            Letters::Flags(t) => Ok(Step { tokens: t, next: i + 1, literal }),
            Letters::Wants(t, opt) => match value_step(
                args,
                i + 1,
                t,
                opt,
                seq!['-', arg.last()],
            ) {
                Ok(t) => Ok(Step { tokens: t, next: i + 2, literal }),
                Err(e) => Err(e),
            },
        }
    } else {
        match word_step(tokens, arg, false) {
            Ok(t) => Ok(Step { tokens: t, next: i + 1, literal }),
            Err(e) => Err(e),
        }
    }
}

/// The words from `i` on, told apart.
pub open spec fn scanned(args: Seq<Seq<char>>, i: int, tokens: Seq<TokenView>, literal: bool) -> Result<
    Seq<TokenView>,
    UsageView,
>
    decreases args.len() - i,
{
    if i < 0 || i >= args.len() {
        Ok(tokens)
    } else {
        match one_step(args, i, tokens, literal) {
            Ok(step) => if step.next > i {
                scanned(args, step.next, step.tokens, step.literal)
            } else {
                Ok(tokens)
            },
            Err(e) => Err(e),
        }
    }
}

fn wrong_unexpected(arg: &str) -> (r: Usage)
    ensures
        r@ == unexpected(arg@),
{
    Usage::Wrong(cat3("unexpected argument '", arg, "' found"))
}

fn push_token(tokens: &mut Vec<Token>, token: Token)
    ensures
        token_views(final(tokens)@) == token_views(old(tokens)@).push(token@),
{
    let ghost before = tokens@;
    tokens.push(token);
    assert(token_views(tokens@) =~= token_views(before).push(token@));
}

fn knows_value(opt: Opt, value: &str) -> (r: bool)
    ensures
        r == value_known(opt, value@),
{
    match opt {
        Opt::Output => same(value, "text") || same(value, "json"),
        Opt::Restart => same(value, "never") || same(value, "on-failure") || same(value, "always"),
        Opt::LogMaxBytes => parse_number(value, 0xffff_ffff_ffff_ffff).is_some(),
        Opt::LogMaxFiles => parse_number(value, 0xffff_ffff).is_some(),
        Opt::File | Opt::Workdir | Opt::Socket => !value.is_empty(),
        _ => true,
    }
}

fn name_judged(opt: Opt) -> (r: &'static str)
    ensures
        r@ == judged_name(opt),
{
    match opt {
        Opt::Output => "--output",
        Opt::Restart => "--restart",
        Opt::LogMaxBytes => "--log-max-bytes",
        Opt::LogMaxFiles => "--log-max-files",
        Opt::File => "--file",
        Opt::Workdir => "--workdir",
        _ => "--socket",
    }
}

pub fn invalid(value: &str, opt: &str) -> (r: Usage)
    ensures
        r@ == bad_value(value@, opt@),
{
    Usage::Wrong(cat5("invalid value '", value, "' for '", opt, "'"))
}

fn put_option(tokens: &mut Vec<Token>, opt: Opt, token: Token, name: &str) -> (r: Result<(), Usage>)
    ensures
        match put(token_views(old(tokens)@), opt, token@, name@) {
            Ok(t) => r is Ok && token_views(final(tokens)@) == t,
            Err(e) => r is Err && r->Err_0@ == e,
        },
{
    let many = match opt {
        Opt::Env => true,
        _ => false,
    };
    if !many && is_given(tokens, opt) {
        return Err(Usage::Wrong(cat3("the argument '", name, "' cannot be used multiple times")));
    }
    match &token {
        Token::Value(_, value) => {
            if !knows_value(opt, value.as_str()) {
                return Err(invalid(value.as_str(), name_judged(opt)));
            }
        },
        _ => {},
    }
    push_token(tokens, token);
    Ok(())
}

fn is_plain(s: &Vec<char>) -> (r: bool)
    ensures
        r == plain_value(s@),
{
    !(s.len() > 1 && s[0] == '-')
}

fn take_value(args: &Vec<String>, i: usize, tokens: &mut Vec<Token>, opt: Opt, name: &str) -> (r: Result<(), Usage>)
    ensures
        match value_step(views(args@), i as int, token_views(old(tokens)@), opt, name@) {
            Ok(t) => r is Ok && token_views(final(tokens)@) == t && i < args@.len(),
            Err(e) => r is Err && r->Err_0@ == e,
        },
{
    if i < args.len() {
        let chars = chars_of(args[i].as_str());
        if is_plain(&chars) {
            return put_option(tokens, opt, Token::Value(opt, args[i].clone()), name);
        }
    }
    Err(Usage::Wrong(cat3("a value is required for '", name, "' but none was supplied")))
}

fn letter_name(c: char) -> (r: String)
    ensures
        r@ == seq!['-', c],
{
    let mut name = String::new();
    name.push('-');
    name.push(c);
    assert(name@ =~= seq!['-', c]);
    name
}

/// Takes the letters of a cluster. `Some` names an option that wants the next word.
fn take_letters(arg: &Vec<char>, tokens: &mut Vec<Token>) -> (r: Result<Option<Opt>, Usage>)
    requires
        arg@.len() > 1,
    ensures
        match letters(arg@, 1, token_views(old(tokens)@)) {
            Letters::Wrong(e) => r is Err && r->Err_0@ == e,
            Letters::Flags(t) => r == Ok::<Option<Opt>, Usage>(None) && token_views(final(tokens)@) == t,
            Letters::Wants(t, opt) => r == Ok::<Option<Opt>, Usage>(Some(opt)) && token_views(
                final(tokens)@,
            ) == t,
        },
{
    let ghost start = token_views(tokens@);
    let mut k: usize = 1;
    while k < arg.len()
        invariant
            1 <= k <= arg@.len(),
            start == token_views(old(tokens)@),
            letters(arg@, 1, start) == letters(arg@, k as int, token_views(tokens@)),
        decreases arg@.len() - k,
    {
        let name = letter_name(arg[k]);
        let opt = match find_letter(arg[k]) {
            Some(opt) => opt,
            None => {
                return Err(wrong_unexpected(name.as_str()));
            },
        };
        if !knows(current_verb(tokens), opt) {
            return Err(wrong_unexpected(name.as_str()));
        }
        match opt {
            Opt::Help => {
                return Err(Usage::Help);
            },
            _ => {},
        }
        if !wants_value(opt) {
            match put_option(tokens, opt, Token::Flag(opt), name.as_str()) {
                Ok(()) => {},
                Err(e) => {
                    return Err(e);
                },
            }
        } else if k + 1 == arg.len() {
            return Ok(Some(opt));
        } else {
            let from: usize = if arg[k + 1] == '=' { k + 2 } else { k + 1 };
            let value = string_of(arg, from, arg.len());
            assert(value@ =~= arg@.skip(from as int));
            match put_option(tokens, opt, Token::Value(opt, value), name.as_str()) {
                Ok(()) => {
                    return Ok(None);
                },
                Err(e) => {
                    return Err(e);
                },
            }
        }
        k += 1;
    }
    Ok(None)
}

fn wants_name(verb: Verb) -> (r: bool)
    ensures
        r == takes_name(verb),
{
    match verb {
        Verb::Disable | Verb::Restart | Verb::Start | Verb::Stop | Verb::Attach
        | Verb::History => true,
        _ => false,
    }
}

fn take_word(tokens: &mut Vec<Token>, word: &str, literal: bool) -> (r: Result<(), Usage>)
    ensures
        match word_step(token_views(old(tokens)@), word@, literal) {
            Ok(t) => r is Ok && token_views(final(tokens)@) == t,
            Err(e) => r is Err && r->Err_0@ == e,
        },
{
    match current_verb(tokens) {
        None => {
            if literal {
                return Err(wrong_unexpected(word));
            }
            if same(word, "help") {
                return Err(Usage::Help);
            }
            match find_verb(word) {
                Some(verb) => {
                    push_token(tokens, Token::Verb(verb));
                    Ok(())
                },
                None => Err(Usage::Wrong(cat3("unrecognized subcommand '", word, "'"))),
            }
        },
        Some(Verb::Run) => {
            if literal {
                push_token(tokens, Token::Word(word.to_owned()));
                Ok(())
            } else {
                Err(wrong_unexpected(word))
            }
        },
        Some(verb) => {
            if wants_name(verb) && !word_given(tokens) {
                push_token(tokens, Token::Word(word.to_owned()));
                Ok(())
            } else {
                Err(wrong_unexpected(word))
            }
        },
    }
}

fn find_equals(s: &Vec<char>) -> (r: Option<usize>)
    ensures
        match r {
            Some(k) => equals_at(s@, 0) == Some(k as int) && k < s@.len(),
            None => equals_at(s@, 0) is None,
        },
{
    let mut i: usize = 0;
    while i < s.len()
        invariant
            i <= s@.len(),
            equals_at(s@, 0) == equals_at(s@, i as int),
        decreases s@.len() - i,
    {
        if s[i] == '=' {
            return Some(i);
        }
        i += 1;
    }
    None
}

/// Takes a long option. Says how many words it took.
fn take_long(args: &Vec<String>, i: usize, chars: &Vec<char>, tokens: &mut Vec<Token>) -> (r: Result<usize, Usage>)
    requires
        i < args@.len(),
        chars@ == args@[i as int]@,
        starts_with(chars@, "--"@),
        chars@ != "--"@,
    ensures
        match one_step(views(args@), i as int, token_views(old(tokens)@), false) {
            Ok(step) => r is Ok && i + r->Ok_0 == step.next && 1 <= r->Ok_0 <= 2 && step.next
                <= args@.len() && token_views(final(tokens)@) == step.tokens && !step.literal,
            Err(e) => r is Err && r->Err_0@ == e,
        },
{
    let eq = find_equals(chars);
    let n: usize = chars.len();
    assert(args.len() == args@.len());
    let (name, value): (String, Option<String>) = match eq {
        Some(k) => {
            let name = string_of(chars, 0, k);
            let value = string_of(chars, k + 1, n);
            assert(name@ =~= chars@.take(k as int));
            assert(value@ =~= chars@.skip(k + 1));
            (name, Some(value))
        },
        None => {
            let name = string_of(chars, 0, n);
            assert(name@ =~= chars@);
            (name, None)
        },
    };
    let opt = match find_opt(name.as_str()) {
        Some(opt) => opt,
        None => {
            return Err(wrong_unexpected(args[i].as_str()));
        },
    };
    if !knows(current_verb(tokens), opt) {
        return Err(wrong_unexpected(args[i].as_str()));
    }
    if !wants_value(opt) {
        if value.is_some() {
            return Err(
                Usage::Wrong(
                    cat3(
                        "unexpected value for '",
                        name.as_str(),
                        "' found; no more were expected",
                    ),
                ),
            );
        }
        match opt {
            Opt::Help => {
                return Err(Usage::Help);
            },
            _ => {},
        }
        return match put_option(tokens, opt, Token::Flag(opt), name.as_str()) {
            Ok(()) => Ok(1),
            Err(e) => Err(e),
        };
    }
    match value {
        Some(value) => match put_option(tokens, opt, Token::Value(opt, value), name.as_str()) {
            Ok(()) => Ok(1),
            Err(e) => Err(e),
        },
        None => match take_value(args, i + 1, tokens, opt, name.as_str()) {
            Ok(()) => Ok(2),
            Err(e) => Err(e),
        },
    }
}

/// Takes the word at `i`. Says how many words were taken.
fn take_step(args: &Vec<String>, i: usize, tokens: &mut Vec<Token>, literal: &mut bool) -> (r: Result<usize, Usage>)
    requires
        i < args@.len(),
    ensures
        match one_step(views(args@), i as int, token_views(old(tokens)@), *old(literal)) {
            Ok(step) => r is Ok && i + r->Ok_0 == step.next && 1 <= r->Ok_0 <= 2 && step.next
                <= args@.len() && token_views(final(tokens)@) == step.tokens && *final(literal)
                == step.literal,
            Err(e) => r is Err && r->Err_0@ == e,
        },
{
    assert(args.len() == args@.len());
    let arg = args[i].as_str();
    assert(views(args@)[i as int] == arg@);
    if *literal {
        return match take_word(tokens, arg, true) {
            Ok(()) => Ok(1),
            Err(e) => Err(e),
        };
    }
    if same(arg, "--") {
        *literal = true;
        return Ok(1);
    }
    let chars = chars_of(arg);
    let dashes = chars_of("--");
    assert(chars@.skip(0) =~= chars@);
    if has_at(&chars, 0, &dashes) {
        return take_long(args, i, &chars, tokens);
    }
    if !is_plain(&chars) {
        return match take_letters(&chars, tokens) {
            Err(e) => Err(e),
            Ok(None) => Ok(1),
            Ok(Some(opt)) => {
                let name = letter_name(chars[chars.len() - 1]);
                match take_value(args, i + 1, tokens, opt, name.as_str()) {
                    Ok(()) => Ok(2),
                    Err(e) => Err(e),
                }
            },
        };
    }
    match take_word(tokens, arg, false) {
        Ok(()) => Ok(1),
        Err(e) => Err(e),
    }
}

/// Tells the words of a command line apart, from the one at `start` on.
pub fn scan(args: &Vec<String>, start: usize) -> (r: Result<Vec<Token>, Usage>)
    ensures
        match scanned(views(args@), start as int, Seq::empty(), false) {
            Ok(t) => r is Ok && token_views(r->Ok_0@) == t,
            Err(e) => r is Err && r->Err_0@ == e,
        },
{
    let mut tokens: Vec<Token> = Vec::new();
    let mut literal = false;
    let mut i: usize = start;
    assert(token_views(tokens@) =~= Seq::<TokenView>::empty());
    while i < args.len()
        invariant
            scanned(views(args@), start as int, Seq::empty(), false) == scanned(
                views(args@),
                i as int,
                token_views(tokens@),
                literal,
            ),
        decreases args@.len() - i,
    {
        match take_step(args, i, &mut tokens, &mut literal) {
            Ok(n) => {
                i += n;
            },
            Err(e) => {
                return Err(e);
            },
        }
    }
    Ok(tokens)
}

/// Everything behind a double dash is left as it is: words there are never options.
pub proof fn law_words_behind_the_dash_are_kept(
    args: Seq<Seq<char>>,
    i: int,
    tokens: Seq<TokenView>,
)
    requires
        0 <= i <= args.len(),
        verb_in(tokens) == Some(Verb::Run),
    ensures
        scanned(args, i, tokens, true) == Ok::<Seq<TokenView>, UsageView>(
            tokens + Seq::new((args.len() - i) as nat, |k: int| TokenView::Word(args[i + k])),
        ),
    decreases args.len() - i,
{
    let rest = Seq::new((args.len() - i) as nat, |k: int| TokenView::Word(args[i + k]));
    if i == args.len() {
        assert(tokens + rest =~= tokens);
    } else {
        let t = tokens.push(TokenView::Word(args[i]));
        assert(t.drop_last() =~= tokens);
        assert(verb_in(t) == Some(Verb::Run));
        law_words_behind_the_dash_are_kept(args, i + 1, t);
        let less = Seq::new(
            (args.len() - (i + 1)) as nat,
            |k: int| TokenView::Word(args[i + 1 + k]),
        );
        assert(t + less =~= tokens + rest);
    }
}

} // verus!
