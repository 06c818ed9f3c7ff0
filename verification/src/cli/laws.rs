//! What a command line means.
use crate::cli::actions::{
    environment_of, is_history_plan, is_plan, is_run_request, next_piece, pair_of, piece, HistoryOptions, HistoryPlan,
    Plan, RecordReader,
};
use crate::cli::command::{
    command_built, first_word, flagged, ov, parsed, run_built, valued, values_of, words_of, CliView,
    CommandView,
};
use crate::cli::tokens::{
    equals_at, has_word, one_step, plain_value, scanned, takes_name, verb_in, verb_named, word_step, Opt, Step,
    TokenView, UsageView, Verb,
};
use crate::paths::joined;
use crate::protocol::{HistoryRecord, Request, Response, RunSpec, Target};
use crate::text::{starts_with, views};
use vstd::prelude::*;

verus! {

/// Every word for a command stands for that command.
proof fn lemma_verbs()
    ensures
        verb_named("disable"@) == Some(Verb::Disable),
        verb_named("restart"@) == Some(Verb::Restart),
        verb_named("start"@) == Some(Verb::Start),
        verb_named("stop"@) == Some(Verb::Stop),
        verb_named("attach"@) == Some(Verb::Attach),
        verb_named("history"@) == Some(Verb::History),
        verb_named("run"@) == Some(Verb::Run),
        verb_named("enable"@) == Some(Verb::Enable),
        verb_named("shutdown"@) == Some(Verb::Shutdown),
        verb_named("list"@) == Some(Verb::List),
        plain_word("disable"@) && plain_word("restart"@) && plain_word("start"@) && plain_word("stop"@),
        plain_word("attach"@) && plain_word("history"@) && plain_word("run"@) && plain_word("enable"@),
        plain_word("shutdown"@) && plain_word("list"@),
{
    reveal_strlit("version");
    reveal_strlit("daemon");
    reveal_strlit("shutdown");
    reveal_strlit("runner");
    reveal_strlit("edit");
    reveal_strlit("enable");
    reveal_strlit("run");
    reveal_strlit("disable");
    reveal_strlit("restart");
    reveal_strlit("start");
    reveal_strlit("stop");
    reveal_strlit("attach");
    reveal_strlit("history");
    reveal_strlit("list");
    reveal_strlit("help");
    assert("version"@.len() == 7 && "version"@[0] == 'v');
    assert("daemon"@.len() == 6 && "daemon"@[0] == 'd');
    assert("shutdown"@.len() == 8 && "shutdown"@[0] == 's');
    assert("runner"@.len() == 6 && "runner"@[0] == 'r');
    assert("edit"@.len() == 4 && "edit"@[0] == 'e');
    assert("enable"@.len() == 6 && "enable"@[0] == 'e');
    assert("run"@.len() == 3 && "run"@[0] == 'r');
    assert("disable"@.len() == 7 && "disable"@[0] == 'd');
    assert("restart"@.len() == 7 && "restart"@[0] == 'r');
    assert("start"@.len() == 5 && "start"@[0] == 's');
    assert("stop"@.len() == 4 && "stop"@[0] == 's');
    assert("attach"@.len() == 6 && "attach"@[0] == 'a');
    assert("history"@.len() == 7 && "history"@[0] == 'h');
    assert("list"@.len() == 4 && "list"@[0] == 'l');
    assert("help"@.len() == 4 && "help"@[0] == 'h');
}

/// A word that is neither an option nor asks for help.
pub open spec fn plain_word(s: Seq<char>) -> bool {
    plain_value(s) && s != "help"@
}

proof fn lemma_plain(s: Seq<char>)
    requires
        plain_value(s),
    ensures
        s != "--"@,
        !starts_with(s, "--"@),
{
    reveal_strlit("--");
    assert("--"@.len() == 2 && "--"@[0] == '-');
    if starts_with(s, "--"@) {
        assert(s.len() >= 2);
        assert(s.subrange(0, 2)[0] == s[0]);
    }
}

proof fn lemma_verb_first(args: Seq<Seq<char>>, verb: Verb)
    requires
        args.len() >= 2,
        plain_word(args[1]),
        verb_named(args[1]) == Some(verb),
    ensures
        scanned(args, 1, Seq::empty(), false) == scanned(args, 2, seq![TokenView::Verb(verb)], false),
{
    lemma_plain(args[1]);
    let none = Seq::<TokenView>::empty();
    assert(verb_in(none) is None);
    assert(none.push(TokenView::Verb(verb)) =~= seq![TokenView::Verb(verb)]);
    assert(one_step(args, 1, none, false) == Ok::<Step, UsageView>(
        Step { tokens: seq![TokenView::Verb(verb)], next: 2, literal: false },
    ));
}

proof fn lemma_nothing_but_words(verb: Verb, name: Seq<char>, opt: Opt)
    ensures
        ({
            let one = seq![TokenView::Verb(verb)];
            let two = seq![TokenView::Verb(verb), TokenView::Word(name)];
            &&& verb_in(one) == Some(verb) && verb_in(two) == Some(verb)
            &&& !has_word(one)
            &&& !flagged(one, opt) && !flagged(two, opt)
            &&& valued(one, opt) is None && valued(two, opt) is None
            &&& first_word(one) is None
            &&& first_word(two) == Some(name)
        }),
{
    reveal_with_fuel(verb_in, 3);
    reveal_with_fuel(has_word, 3);
    reveal_with_fuel(flagged, 3);
    reveal_with_fuel(valued, 3);
    reveal_with_fuel(words_of, 3);
    let one = seq![TokenView::Verb(verb)];
    let two = seq![TokenView::Verb(verb), TokenView::Word(name)];
    assert(one.drop_last() =~= Seq::<TokenView>::empty());
    assert(two.drop_last() =~= one);
    assert(words_of(two) == words_of(one).push(name));
    assert(words_of(one) =~= Seq::<Seq<char>>::empty());
}

proof fn lemma_verb_and_name(args: Seq<Seq<char>>, verb: Verb)
    requires
        2 <= args.len() <= 3,
        plain_word(args[1]),
        verb_named(args[1]) == Some(verb),
        args.len() == 3 ==> plain_value(args[2]) && takes_name(verb),
    ensures
        scanned(args, 1, Seq::empty(), false) == Ok::<Seq<TokenView>, UsageView>(
            if args.len() == 3 {
                seq![TokenView::Verb(verb), TokenView::Word(args[2])]
            } else {
                seq![TokenView::Verb(verb)]
            },
        ),
{
    lemma_verb_first(args, verb);
    let one = seq![TokenView::Verb(verb)];
    if args.len() == 3 {
        let name = args[2];
        lemma_plain(name);
        lemma_nothing_but_words(verb, name, Opt::Version);
        let two = seq![TokenView::Verb(verb), TokenView::Word(name)];
        assert(one.push(TokenView::Word(name)) =~= two);
        assert(!(verb is Run));
        assert(word_step(one, name, false) == Ok::<Seq<TokenView>, UsageView>(two));
        assert(one_step(args, 2, one, false) == Ok::<Step, UsageView>(
            Step { tokens: two, next: 3, literal: false },
        ));
        assert(scanned(args, 3, two, false) == Ok::<Seq<TokenView>, UsageView>(two));
    }
}

/// A command with a name is about the service of that name, whatever it is called; without one it
/// is about the current directory. Nothing else is assumed.
pub proof fn law_commands_are_read_by_word(program: Seq<char>, name: Seq<char>)
    requires
        plain_value(name),
    ensures
        ({
            let plain = |c: CommandView| Ok::<CliView, UsageView>(
                CliView { version: false, output: None, command: Some(c) },
            );
            &&& parsed(seq![program, "disable"@, name]) == plain(CommandView::Disable { name: Some(name) })
            &&& parsed(seq![program, "restart"@, name]) == plain(CommandView::Restart { name: Some(name) })
            &&& parsed(seq![program, "start"@, name]) == plain(CommandView::Start { name: Some(name) })
            &&& parsed(seq![program, "stop"@, name]) == plain(CommandView::Stop { name: Some(name) })
            &&& parsed(seq![program, "attach"@, name]) == plain(
                CommandView::Attach { name: Some(name), stream: false, no_stdin: false },
            )
            &&& parsed(seq![program, "disable"@]) == plain(CommandView::Disable { name: None })
            &&& parsed(seq![program, "restart"@]) == plain(CommandView::Restart { name: None })
            &&& parsed(seq![program, "start"@]) == plain(CommandView::Start { name: None })
            &&& parsed(seq![program, "stop"@]) == plain(CommandView::Stop { name: None })
            &&& parsed(seq![program, "shutdown"@]) == plain(CommandView::Shutdown)
            &&& parsed(seq![program, "list"@]) == plain(CommandView::List)
            &&& parsed(seq![program, "enable"@]) == plain(CommandView::Enable { file: None, workdir: None })
        }),
{
    lemma_verbs();
    lemma_read(program, "disable"@, name, Verb::Disable);
    lemma_read(program, "restart"@, name, Verb::Restart);
    lemma_read(program, "start"@, name, Verb::Start);
    lemma_read(program, "stop"@, name, Verb::Stop);
    lemma_read(program, "attach"@, name, Verb::Attach);
    lemma_read_alone(program, "disable"@, Verb::Disable);
    lemma_read_alone(program, "restart"@, Verb::Restart);
    lemma_read_alone(program, "start"@, Verb::Start);
    lemma_read_alone(program, "stop"@, Verb::Stop);
    lemma_read_alone(program, "shutdown"@, Verb::Shutdown);
    lemma_read_alone(program, "list"@, Verb::List);
    lemma_read_alone(program, "enable"@, Verb::Enable);
    lemma_nothing_but_words(Verb::Disable, name, Opt::Version);
    lemma_nothing_but_words(Verb::Restart, name, Opt::Version);
    lemma_nothing_but_words(Verb::Start, name, Opt::Version);
    lemma_nothing_but_words(Verb::Stop, name, Opt::Version);
    lemma_nothing_but_words(Verb::Attach, name, Opt::Stream);
    lemma_nothing_but_words(Verb::Attach, name, Opt::NoStdin);
    lemma_nothing_but_words(Verb::Enable, name, Opt::File);
    lemma_nothing_but_words(Verb::Enable, name, Opt::Workdir);
}

proof fn lemma_read(program: Seq<char>, word: Seq<char>, name: Seq<char>, verb: Verb)
    requires
        plain_word(word),
        plain_value(name),
        verb_named(word) == Some(verb),
        takes_name(verb),
    ensures
        parsed(seq![program, word, name]) == (match command_built(
            verb,
            seq![TokenView::Verb(verb), TokenView::Word(name)],
        ) {
            Ok(c) => Ok::<CliView, UsageView>(CliView { version: false, output: None, command: Some(c) }),
            Err(e) => Err(e),
        }),
{
    lemma_verb_and_name(seq![program, word, name], verb);
    lemma_nothing_but_words(verb, name, Opt::Version);
    lemma_nothing_but_words(verb, name, Opt::Output);
}

proof fn lemma_read_alone(program: Seq<char>, word: Seq<char>, verb: Verb)
    requires
        plain_word(word),
        verb_named(word) == Some(verb),
    ensures
        parsed(seq![program, word]) == (match command_built(verb, seq![TokenView::Verb(verb)]) {
            Ok(c) => Ok::<CliView, UsageView>(CliView { version: false, output: None, command: Some(c) }),
            Err(e) => Err(e),
        }),
{
    lemma_verb_and_name(seq![program, word], verb);
    lemma_nothing_but_words(verb, word, Opt::Version);
    lemma_nothing_but_words(verb, word, Opt::Output);
}

/// The manager is asked for what the command says, of the service that is named or else of the
/// one in the current directory.
pub proof fn law_commands_ask_for_what_they_say(
    plan: Plan,
    name: Option<Seq<char>>,
    terminal: bool,
    current: Seq<char>,
)
    ensures
        is_plan(plan, Some(CommandView::Disable { name }), terminal, current) ==> (plan matches Plan::Send(
            Request::Disable { target },
        ) && means(target, name, current)),
        is_plan(plan, Some(CommandView::Restart { name }), terminal, current) ==> (plan matches Plan::Send(
            Request::Restart { target },
        ) && means(target, name, current)),
        is_plan(plan, Some(CommandView::Start { name }), terminal, current) ==> (plan matches Plan::Send(
            Request::Start { target },
        ) && means(target, name, current)),
        is_plan(plan, Some(CommandView::Stop { name }), terminal, current) ==> (plan matches Plan::Send(
            Request::Stop { target },
        ) && means(target, name, current)),
        is_plan(plan, None, terminal, current) ==> (terminal ==> plan is Interface) && (!terminal ==> plan is Help),
        is_plan(plan, Some(CommandView::Shutdown), terminal, current) ==> plan is Shutdown,
        is_plan(plan, Some(CommandView::List), terminal, current) ==> plan is List,
{
}

/// A target is the service of that name, or the one of the directory where none is named.
pub open spec fn means(target: Target, name: Option<Seq<char>>, directory: Seq<char>) -> bool {
    &&& name is Some <==> target is Name
    &&& target matches Target::Name(n) ==> name == Some(n@)
    &&& target matches Target::Directory(d) ==> d@ == directory
}

/// A service is enabled from the file that is given, seen from where the command is given, and
/// else from the directory; a directory that is chosen for it is chosen for good.
pub proof fn law_enabling_says_where(
    plan: Plan,
    file: Option<Seq<char>>,
    workdir: Option<Seq<char>>,
    terminal: bool,
    current: Seq<char>,
)
    requires
        is_plan(plan, Some(CommandView::Enable { file, workdir }), terminal, current),
    ensures
        plan matches Plan::Send(Request::Enable { directory, file: f, workdir: w }) && {
            &&& f is Some <==> file is Some
            &&& w is Some <==> workdir is Some
            &&& file matches Some(p) ==> f->0@ == joined(current, p)
            &&& workdir matches Some(d) ==> w->0@ == joined(current, d) && directory@ == joined(current, d)
            &&& workdir is None ==> directory@ == current
        },
{
}

/// What is given as a variable is taken apart at its first equals sign: what is before it is the
/// name, what is behind it the value, further equals signs and all.
pub proof fn law_variables_are_taken_apart(key: Seq<char>, value: Seq<char>)
    requires
        key.len() > 0,
        !key.contains('='),
        !key.contains('\0'),
    ensures
        pair_of(key + seq!['='] + value) == Ok::<(Seq<char>, Seq<char>), Seq<char>>((key, value)),
        environment_of(seq![key + seq!['='] + value]) is Ok,
        environment_of(seq![key + seq!['='] + value])->Ok_0.contains_key(key),
        environment_of(seq![key + seq!['='] + value])->Ok_0[key] == value,
{
    let s = key + seq!['='] + value;
    lemma_equals(key, value, 0);
    assert(s.take(key.len() as int) =~= key);
    assert(s.skip(key.len() as int + 1) =~= value);
    reveal_with_fuel(environment_of, 2);
    assert(seq![s].drop_last() =~= Seq::<Seq<char>>::empty());
}

proof fn lemma_equals(key: Seq<char>, value: Seq<char>, i: int)
    requires
        0 <= i <= key.len(),
        !key.contains('='),
    ensures
        equals_at(key + seq!['='] + value, i) == Some(key.len() as int),
    decreases key.len() - i,
{
    let s = key + seq!['='] + value;
    if i < key.len() {
        assert(s[i] == key[i]);
        assert(key.contains(key[i]));
        lemma_equals(key, value, i + 1);
    } else {
        assert(s[i] == '=');
    }
}

/// An option that is given counts, wherever it stands; of several values the last one counts, and
/// one that is not given changes nothing.
pub proof fn law_options_count_wherever_they_stand(tokens: Seq<TokenView>, opt: Opt, value: Seq<char>)
    ensures
        flagged(tokens, opt) <==> tokens.contains(TokenView::Flag(opt)),
        valued(tokens.push(TokenView::Value(opt, value)), opt) == Some(value),
        (forall|i: int| 0 <= i < tokens.len() ==> !((#[trigger] tokens[i]) matches TokenView::Value(o, v) && o == opt))
            ==> valued(tokens, opt) is None && values_of(tokens, opt).len() == 0,
    decreases tokens.len(),
{
    let t = tokens.push(TokenView::Value(opt, value));
    assert(t.last() == TokenView::Value(opt, value));
    if tokens.len() > 0 {
        let front = tokens.drop_last();
        law_options_count_wherever_they_stand(front, opt, value);
        if front.contains(TokenView::Flag(opt)) {
            let i = front.index_of(TokenView::Flag(opt));
            assert(tokens[i] == TokenView::Flag(opt));
        }
        if tokens.contains(TokenView::Flag(opt)) {
            let i = tokens.index_of(TokenView::Flag(opt));
            if i < front.len() {
                assert(front[i] == TokenView::Flag(opt));
            }
        }
        if tokens.last() == TokenView::Flag(opt) {
            assert(tokens[tokens.len() - 1] == TokenView::Flag(opt));
        }
        if forall|i: int| 0 <= i < tokens.len() ==> !((#[trigger] tokens[i]) matches TokenView::Value(o, v) && o == opt) {
            assert forall|i: int| 0 <= i < front.len() implies !((#[trigger] front[i]) matches TokenView::Value(o, v)
                && o == opt) by {
                assert(front[i] == tokens[i]);
            }
            assert(!(tokens[tokens.len() - 1] matches TokenView::Value(o, v) && o == opt));
        }
    }
}

/// What is run for once, where nothing else is said: with a terminal whose size follows, never
/// again once it has ended, its output in memory, under the usual limits.
pub proof fn law_what_run_assumes(tokens: Seq<TokenView>)
    requires
        words_of(tokens).len() > 0,
        forall|o: Opt| !#[trigger] flagged(tokens, o),
        forall|o: Opt| (#[trigger] valued(tokens, o)) is None,
        values_of(tokens, Opt::Env).len() == 0,
    ensures
        run_built(tokens) matches Ok(CommandView::Run {
            workdir,
            name,
            no_tty,
            no_sync_rows_cols,
            restart,
            persist_logs,
            log_max_bytes,
            log_max_files,
            env,
            argv,
        }) && {
            &&& workdir is None && name is None
            &&& !no_tty && !no_sync_rows_cols && !persist_logs
            &&& restart == "never"@
            &&& log_max_bytes == 10_485_760 && log_max_files == 3
            &&& env.len() == 0
            &&& argv == words_of(tokens)
        },
{
}

/// What is asked for is what the command says: the words to run, and every setting as given.
pub proof fn law_run_asks_for_what_it_says(c: CommandView, directory: Seq<char>, spec: RunSpec)
    requires
        c is Run,
        is_run_request(c, directory, Ok(spec)),
    ensures
        views(spec.argv@) == c->Run_argv,
        spec.directory@ == directory,
        c->Run_name matches Some(n) ==> spec.name@ == n,
        c->Run_no_tty <==> !spec.tty,
        c->Run_no_sync_rows_cols <==> !spec.sync_rows_cols,
        c->Run_persist_logs <==> spec.persist_logs,
        spec.restart@ == c->Run_restart,
        spec.log_max_bytes == c->Run_log_max_bytes,
        spec.log_max_files == c->Run_log_max_files,
        environment_of(c->Run_env) == Ok::<Map<Seq<char>, Seq<char>>, Seq<char>>(spec.env.map()),
{
}

/// A record that is shown is the one that was asked for, or else the current one. What is only in
/// memory is never opened as a file, and a file lies among the logs of its service.
pub proof fn law_the_record_that_was_asked_for(
    r: Result<HistoryPlan, String>,
    options: HistoryOptions,
    service: Seq<char>,
    records: Seq<HistoryRecord>,
    json: bool,
    terminal: bool,
    logs: Seq<char>,
)
    requires
        is_history_plan(r, options, service, records, json, terminal, logs),
    ensures
        ({
            let id = match ov(options.run) {
                Some(id) => id,
                None => "latest"@,
            };
            let file = if id == "latest"@ {
                "latest.log"@
            } else {
                id
            };
            let known = exists|i: int| 0 <= i < records.len() && (#[trigger] records[i]).id@ == id;
            &&& options.list ==> (r matches Ok(HistoryPlan::Listing))
            &&& !options.list && !known ==> r is Err
            &&& r matches Ok(HistoryPlan::Stream(i)) ==> i < records.len() && records[i as int].id@ == id
            &&& r matches Ok(HistoryPlan::Document(i)) ==> i < records.len() && records[i as int].id@ == id
            &&& r matches Ok(HistoryPlan::Path(p)) ==> options.path_only && p@ == joined(joined(logs, service), file)
            &&& r matches Ok(HistoryPlan::Edit(p)) ==> !options.path_only && p@ == joined(joined(logs, service), file)
            &&& (r matches Ok(HistoryPlan::Path(_)) || r matches Ok(HistoryPlan::Edit(_))) ==> exists|i: int|
                0 <= i < records.len() && (#[trigger] records[i]).id@ == id && records[i].persisted
            &&& !options.list && known && options.stdout ==> (r matches Ok(HistoryPlan::Stream(_)))
            &&& !options.list && known && !options.stdout && options.json ==> (r matches Ok(HistoryPlan::Document(_)))
        }),
{
    let id = match ov(options.run) {
        Some(id) => id,
        None => "latest"@,
    };
    lemma_record_at(records, id, 0);
}

proof fn lemma_record_at(records: Seq<HistoryRecord>, id: Seq<char>, i: int)
    requires
        0 <= i <= records.len(),
    ensures
        match crate::cli::actions::record_at(records, id, i) {
            Some(k) => i <= k < records.len() && records[k].id@ == id,
            None => forall|k: int| i <= k < records.len() ==> (#[trigger] records[k]).id@ != id,
        },
    decreases records.len() - i,
{
    if i < records.len() {
        lemma_record_at(records, id, i + 1);
    }
}

/// A record is read from its beginning to the end that it had when the reading began: each
/// question goes on where the last piece ended and asks for no more than is left. A piece of
/// another record, or from another place, is not taken.
pub proof fn law_records_are_read_piece_by_piece(reader: RecordReader, response: Response)
    ensures
        next_piece(reader) is Some <==> reader.offset < reader.bytes,
        next_piece(reader) matches Some(p) ==> p.0 == reader.offset && 1 <= p.1 <= 49_152 && p.0 + p.1 <= reader.bytes,
        reader.bytes >= reader.offset + 49_152 ==> next_piece(reader) == Some((reader.offset, 49_152u32)),
        piece(reader, response) matches Ok(p) ==> {
            &&& response matches Response::HistoryChunk { service, id, offset, next_offset, eof, content, .. }
            &&& service@ == reader.service@ && id@ == reader.id@ && offset == reader.offset
            &&& p.0 == content@
            &&& p.2 == next_offset
            &&& reader.offset <= p.2 <= reader.bytes
            &&& eof ==> p.1 is End
            &&& p.1 is Stuck ==> p.2 == reader.offset
            &&& p.1 is More <==> !eof && reader.offset < next_offset < reader.bytes
        },
{
}

} // verus!
