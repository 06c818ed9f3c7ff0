use served::config::{RestartPolicy, ServiceConfig};
use served::env::EnvMap;
use served::form::document::{Document, DocumentError, FileState, SavePlan};
use served::form::input::{lay_out, Buffer};
use served::form::model::{Confirm, Editing, Form};
use served::form::restart::{
    active, after_save, lookup, matching_service, prompt_key, restart_prompt, restart_request,
    restart_response, PromptStep,
};
use served::form::session::{is_workable, SaveStep};
use served::form::source::{parse, root, SourceError, Value};
use served::form::state::Outcome;
use served::protocol::{Request, Response, ServiceInfo, ServiceKind, ServiceState, Target};
use served::tui::keys::{KeyCode, KeyEvent, KeyEventKind, KeyModifiers};
use served::tui::widget::Size;

fn read(text: &str) -> serde_json::Value {
    assert!(parse(text).is_ok());
    json5::from_str(text).expect("valid source")
}

#[test]
fn changes_only_target_value_and_keeps_nested_comments() {
    let text = "// top\n{ name: 'api', /* key */ command: 'old', env: { A: '1', // keep A\n B: '中', }, } // tail";
    let changed = served::form::source::set(
        text,
        None,
        "command",
        Some(&Value::Text("echo 'hi'\nnext".to_owned())),
    )
    .unwrap();
    assert_eq!(changed, text.replace("'old'", "\"echo 'hi'\\nnext\""));
    let changed = served::form::source::set(&changed, Some("env"), "A", Some(&Value::Text("2".to_owned()))).unwrap();
    assert!(changed.contains("// keep A\n B: '中'"));
    assert_eq!(read(&changed)["env"]["A"], "2");
}

#[test]
fn insert_and_remove_across_comma_and_comment_styles() {
    for text in [
        "{}",
        "{a:1}",
        "{a:1,}",
        "{\n  a:1 // hi\n}",
        "{ /*hi*/ }",
        "{\n a:1,\n b:2\n}",
    ] {
        let added = served::form::source::set(text, None, "c", Some(&Value::Number(3))).unwrap();
        assert_eq!(read(&added)["c"], 3);
        let removed = served::form::source::set(&added, None, "c", None).unwrap();
        assert_eq!(read(&removed), read(text));
        for key in ["a", "b"] {
            let removed = served::form::source::set(text, None, key, None).unwrap();
            assert!(read(&removed).get(key).is_none());
        }
    }
}

fn entries(text: &str) -> Vec<(String, String)> {
    let chars: Vec<char> = text.chars().collect();
    let members = root(text).unwrap().members.unwrap();
    members
        .iter()
        .map(|m| (m.key.clone(), chars[m.value_start..m.value_end].iter().collect()))
        .collect()
}

#[test]
fn the_other_properties_are_read_as_before() {
    for text in [
        "{}",
        "{a:1}",
        "{a:1,}",
        "{\n  a:1 // hi\n}",
        "{ /*hi*/ }",
        "{\n a:1,\n b:2\n}",
        "{a:[1,{b:2}],'b c':'x,}'}",
    ] {
        let before = entries(text);
        let added = served::form::source::set(text, None, "new \"name\"", Some(&Value::Text("v".to_owned()))).unwrap();
        let mut with = before.clone();
        with.push(("new \"name\"".to_owned(), "\"v\"".to_owned()));
        assert_eq!(entries(&added), with);
        let gone = served::form::source::set(&added, None, "new \"name\"", None).unwrap();
        assert_eq!(entries(&gone), before);
        for index in 0..before.len() {
            let key = before[index].0.clone();
            let removed = served::form::source::set(text, None, &key, None).unwrap();
            let mut rest = before.clone();
            rest.remove(index);
            assert_eq!(entries(&removed), rest);
            let changed = served::form::source::set(text, None, &key, Some(&Value::Null)).unwrap();
            let mut other = before.clone();
            other[index].1 = "null".to_owned();
            assert_eq!(entries(&changed), other);
        }
    }
}

fn inner_entries(text: &str, object: &str) -> Vec<(String, String)> {
    let chars: Vec<char> = text.chars().collect();
    let members = root(text).unwrap().members.unwrap();
    let m = members.iter().find(|m| m.key == object).unwrap();
    let source: String = chars[m.value_start..m.value_end].iter().collect();
    entries(&source)
}

#[test]
fn edits_inside_an_object_leave_everything_around_it() {
    for text in [
        "{env:{}}",
        "{a:1,env:{A:'1'},b:2,}",
        "// top\n{\n  env: {\n    A: '1', // keep\n    'B c': \"2\",\n  },\n  z: [1],\n}\n",
        "{env:{A:'1',B:'2'} /* tail */, c:{A:3}}",
    ] {
        let around = |t: &str| {
            let mut all = entries(t);
            all.retain(|(key, _)| key != "env");
            all
        };
        let before = inner_entries(text, "env");
        let change = |t: &str, key: &str, value: Option<&Value>| {
            served::form::source::set(t, Some("env"), key, value).unwrap()
        };
        let added = change(text, "NEW", Some(&Value::Text("v".to_owned())));
        let mut with = before.clone();
        with.push(("NEW".to_owned(), "\"v\"".to_owned()));
        assert_eq!(inner_entries(&added, "env"), with);
        assert_eq!(around(&added), around(text));
        let gone = change(&added, "NEW", None);
        assert_eq!(inner_entries(&gone, "env"), before);
        assert_eq!(around(&gone), around(text));
        assert_eq!(read(&gone), read(text));
        for index in 0..before.len() {
            let key = before[index].0.clone();
            let mut rest = before.clone();
            rest.remove(index);
            assert_eq!(inner_entries(&change(text, &key, None), "env"), rest);
            let mut other = before.clone();
            other[index].1 = "7".to_owned();
            let changed = change(text, &key, Some(&Value::Number(7)));
            assert_eq!(inner_entries(&changed, "env"), other);
            assert_eq!(around(&changed), around(text));
        }
        assert_eq!(change(text, "ABSENT", None), text);
    }
}

#[test]
fn byte_order_marks_are_white_space_behind_a_value() {
    let removed = served::form::source::set("{a:1,\u{feff}b:2}", None, "b", None).unwrap();
    assert_eq!(removed, "{a:1\u{feff}}");
    assert_eq!(read(&removed), read("{a:1}"));
    let changed = served::form::source::set("{a:'x'\u{feff}}", None, "a", Some(&Value::Number(1))).unwrap();
    assert_eq!(changed, "{a:1\u{feff}}");
    assert_eq!(read(&changed)["a"], 1);
}

#[test]
fn names_with_a_line_separator_are_refused() {
    for name in ["a\u{2028}b", "\u{2029}", "\\\u{2028}"] {
        for (text, object) in [("{a:1}", None), ("{env:{A:'1'}}", Some("env"))] {
            let result = served::form::source::set(text, object, name, Some(&Value::Null));
            assert!(matches!(result, Err(SourceError::UnsafeUpdate)));
            assert_eq!(served::form::source::set(text, object, name, None).unwrap(), text);
        }
    }
}

#[test]
fn missing_fields_and_conflicting_saves_are_safe() {
    let mut config = config();
    config.name = String::new();
    config.command = String::new();
    assert!(Document::validate(&config).is_err());
    let doc = Document::open("/c/config".to_owned(), "/c/config".to_owned(), "{}".to_owned(), config.clone());
    config.name = "api".into();
    config.command = "true".into();
    let text = doc.save_config(&config).unwrap();
    assert_eq!((read(&text)["name"].as_str(), read(&text)["command"].as_str()), (Some("api"), Some("true")));
    let state = FileState {
        target: Some("/c/config".to_owned()),
        content: Some("//external\n{}".to_owned()),
        mode: 0o640,
        links: 1,
    };
    assert!(matches!(doc.save(&text, &state), Err(DocumentError::Changed)));
}

#[test]
fn a_name_that_cannot_be_read_is_refused_in_the_words_of_the_parser() {
    let Err(error) = root("{1a:1}") else {
        panic!("an error was expected")
    };
    assert!(matches!(error, SourceError::UnreadableKey(_)));
    let expected = json5::from_str::<serde_json::Value>("{1a:null}").unwrap_err().to_string();
    assert_eq!(error.message(), expected);
    assert_eq!(DocumentError::Source(error).message(), expected);
    assert_eq!(
        DocumentError::Source(SourceError::UnterminatedComment).message(),
        SourceError::UnterminatedComment.message()
    );
}

#[test]
fn escaped_keys_strings_and_duplicate_keys() {
    let text = r#"{na\u006de:'a', env:{'x:y': '/*not comment*/', z:'it\'s }, fine'}}"#;
    let out = served::form::source::set(text, None, "name", Some(&Value::Text("b".to_owned()))).unwrap();
    assert!(out.contains(r#"na\u006de:"#));
    assert_eq!(read(&out)["name"], "b");
    for text in ["{name:'a', name:'b'}", "{env:{a:'1', 'a':'2'}}"] {
        assert!(parse(text).is_err());
    }
}

#[test]
fn sources_that_cannot_be_changed_are_refused() {
    for text in ["", "[1]", "{a:1", "{a:}", "{a:1} x", "/* open"] {
        assert!(parse(text).is_err(), "{text}");
    }
    assert!(served::form::source::set("{env:1}", Some("env"), "A", Some(&Value::Null)).is_err());
    assert!(served::form::source::set("{}", Some("env"), "A", Some(&Value::Flag(true))).is_err());
    let object = served::form::source::set("{}", None, "env", Some(&Value::EmptyObject)).unwrap();
    let filled = served::form::source::set(&object, Some("env"), "A", Some(&Value::Flag(true))).unwrap();
    assert_eq!(read(&filled)["env"]["A"], true);
    let node = root("{ a: 1, b: { c: 2 } }").unwrap();
    assert_eq!(
        node.members.unwrap().iter().map(|m| m.key.clone()).collect::<Vec<_>>(),
        ["a", "b"]
    );
}

fn environment(pairs: &[(&str, &str)]) -> EnvMap {
    let mut env = EnvMap::new();
    for (key, value) in pairs {
        env.insert((*key).to_owned(), (*value).to_owned());
    }
    env
}

fn config() -> ServiceConfig {
    ServiceConfig {
        name: "api".to_owned(),
        command: "true".to_owned(),
        cwd: None,
        tty: true,
        sync_rows_cols: true,
        restart: RestartPolicy::Never,
        persist_logs: true,
        log_max_bytes: 10 * 1024 * 1024,
        log_max_files: 3,
        env: environment(&[("A", "one")]),
    }
}

fn fixture() -> Form {
    Form::open(&config())
}

/// A file that takes every configuration and gives back what it was given.
fn press(f: &mut Form, event: KeyEvent) -> bool {
    match f.key(event, 16) {
        Outcome::Stay => false,
        Outcome::Exit => true,
        Outcome::Save { exit } => {
            f.save_finished(Ok(()));
            exit
        }
        Outcome::Reload => {
            let saved = f.saved.clone();
            f.reload(Ok(saved));
            false
        }
    }
}

fn event(code: KeyCode, modifiers: KeyModifiers) -> KeyEvent {
    KeyEvent { code, modifiers, kind: KeyEventKind::Press }
}

fn key(f: &mut Form, code: KeyCode) -> bool {
    press(f, event(code, KeyModifiers::none()))
}

fn ctrl(f: &mut Form, c: char) -> bool {
    press(f, event(KeyCode::Char(c), KeyModifiers::ctrl()))
}

fn env_value<'a>(config: &'a ServiceConfig, key: &str) -> &'a str {
    config.env.get(key).expect("variable").as_str()
}

#[test]
fn enter_finishes_shift_enter_and_ctrl_j_insert_newlines() {
    let mut f = fixture();
    key(&mut f, KeyCode::Down);
    key(&mut f, KeyCode::Enter);
    press(&mut f, event(KeyCode::Enter, KeyModifiers::shifted()));
    f.paste("echo second");
    ctrl(&mut f, 'j');
    f.paste("echo third");
    key(&mut f, KeyCode::Enter);
    assert!(f.editing.is_none());
    assert_eq!(f.config.command, "true\necho second\necho third");
    assert!(f.dirty());
    assert_eq!(f.saved.command, "true");
    key(&mut f, KeyCode::Up);
    key(&mut f, KeyCode::Enter);
    ctrl(&mut f, 'j');
    press(&mut f, event(KeyCode::Enter, KeyModifiers::shifted()));
    key(&mut f, KeyCode::Enter);
    assert_eq!(f.config.name, "api");
}

#[test]
fn escape_keeps_input_and_navigation_stays_in_panel() {
    let mut f = fixture();
    key(&mut f, KeyCode::Enter);
    f.paste("-new");
    key(&mut f, KeyCode::Esc);
    assert_eq!(f.config.name, "api-new");
    key(&mut f, KeyCode::Enter);
    f.paste("er");
    key(&mut f, KeyCode::Tab);
    key(&mut f, KeyCode::BackTab);
    assert_eq!(f.selected, 0);
    assert!(f.editing.is_some());
    ctrl(&mut f, 's');
    assert_eq!(f.saved.name, "api");
    key(&mut f, KeyCode::Esc);
    assert_eq!(f.config.name, "api-newer");
    key(&mut f, KeyCode::Tab);
    assert_eq!(f.selected, 0);
    for tab in 0..4 {
        f.tab = tab;
        f.selected = 0;
        key(&mut f, KeyCode::Up);
        assert_eq!(f.selected, f.count() - 1);
        key(&mut f, KeyCode::Down);
        assert_eq!(f.selected, 0);
        for _ in 0..f.count() {
            key(&mut f, KeyCode::Down);
        }
        assert_eq!(f.selected, 0);
    }
    ctrl(&mut f, 's');
    assert!(!f.dirty());
    assert!(key(&mut f, KeyCode::Esc));
}

#[test]
fn invalid_drafts_survive_navigation_and_save_returns_to_error() {
    let mut f = fixture();
    f.tab = 2;
    f.selected = 1;
    key(&mut f, KeyCode::Enter);
    f.paste("invalid");
    key(&mut f, KeyCode::Esc);
    assert!(f.editing.is_none());
    assert!(f.value(7).ends_with("invalid"));
    assert_eq!(f.config.log_max_bytes, 10 * 1024 * 1024);
    key(&mut f, KeyCode::Right);
    ctrl(&mut f, 's');
    assert_eq!(f.field(), 7);
    assert!(f.editing.is_some());
    assert!(f.inline_error.is_some());
    ctrl(&mut f, 'z');
    key(&mut f, KeyCode::Enter);
    ctrl(&mut f, 's');
    assert!(!f.dirty());
}

#[test]
fn environment_draft_is_atomic_and_can_be_resumed_or_deleted() {
    let mut f = fixture();
    f.tab = 3;
    key(&mut f, KeyCode::Char('a'));
    f.paste("A");
    key(&mut f, KeyCode::Enter);
    f.paste("two");
    key(&mut f, KeyCode::Esc);
    assert_eq!(env_value(&f.config, "A"), "one");
    assert_eq!(f.env_rows().len(), 2);
    key(&mut f, KeyCode::Char('a')); // Resume, never replace an unfinished addition.
    key(&mut f, KeyCode::Up);
    key(&mut f, KeyCode::Backspace);
    f.paste("B");
    key(&mut f, KeyCode::Down);
    ctrl(&mut f, 'j');
    f.paste("three");
    key(&mut f, KeyCode::Enter);
    assert_eq!(env_value(&f.config, "B"), "two\nthree");
    assert_eq!(env_value(&f.config, "A"), "one");
    f.selected = 1;
    key(&mut f, KeyCode::Char('d'));
    assert!(f.confirm.is_none());
    key(&mut f, KeyCode::Enter);
    key(&mut f, KeyCode::Down);
    ctrl(&mut f, 'e');
    press(&mut f, event(KeyCode::End, KeyModifiers::ctrl()));
    key(&mut f, KeyCode::Down);
    assert!(matches!(
        &f.editing,
        Some(Editing::Env {
            delete_focus: true,
            ..
        })
    ));
    key(&mut f, KeyCode::Enter);
    key(&mut f, KeyCode::Enter);
    assert_eq!(f.config.env.len(), 2);
    key(&mut f, KeyCode::Enter);
    key(&mut f, KeyCode::Down);
    key(&mut f, KeyCode::Enter);
    assert!(!f.config.env.contains_key("B"));
    assert!(f.editing.is_none());
    ctrl(&mut f, 'z');
    assert!(f.config.env.contains_key("B"));
    key(&mut f, KeyCode::Char('a'));
    f.paste("A");
    key(&mut f, KeyCode::Esc);
    f.selected = 2;
    key(&mut f, KeyCode::Enter);
    key(&mut f, KeyCode::Down);
    key(&mut f, KeyCode::Down);
    key(&mut f, KeyCode::Enter);
    key(&mut f, KeyCode::Down);
    key(&mut f, KeyCode::Enter);
    assert!(f.drafts.is_empty());
    assert!(f.editing.is_none());
}

#[test]
fn confirmations_default_to_keep_and_reject_modifiers_and_repeats() {
    let mut f = fixture();
    key(&mut f, KeyCode::Enter);
    f.paste("-new");
    ctrl(&mut f, 'q');
    assert!(f.confirm.is_some());
    assert!(!key(&mut f, KeyCode::Enter));
    assert!(f.editing.is_some());
    ctrl(&mut f, 'q');
    key(&mut f, KeyCode::Up);
    assert_eq!(f.confirm_selected, 2);
    let alt = KeyModifiers { shift: false, control: false, alt: true, logo: false, other: false };
    assert!(!press(&mut f, event(KeyCode::Enter, alt)));
    assert!(f.confirm.is_some());
    assert!(!press(
        &mut f,
        KeyEvent {
            code: KeyCode::Enter,
            modifiers: KeyModifiers::none(),
            kind: KeyEventKind::Repeat,
        }
    ));
    assert!(f.confirm.is_some());
    assert!(key(&mut f, KeyCode::Enter));
    assert_eq!(f.saved.name, "api");
}

#[test]
fn switches_undo_and_reload_keep_protocol_capability() {
    let mut f = fixture();
    f.enhanced_keyboard = true;
    f.tab = 1;
    key(&mut f, KeyCode::Enter);
    key(&mut f, KeyCode::Down);
    key(&mut f, KeyCode::Enter);
    assert_eq!(f.config.restart, RestartPolicy::OnFailure);
    key(&mut f, KeyCode::Down);
    key(&mut f, KeyCode::Char(' '));
    assert!(!f.config.tty);
    assert!(f.disabled(5));
    key(&mut f, KeyCode::Down);
    key(&mut f, KeyCode::Enter);
    assert!(f.config.sync_rows_cols);
    ctrl(&mut f, 'z');
    assert!(f.config.tty);
    ctrl(&mut f, 'y');
    assert!(!f.config.tty);
    ctrl(&mut f, 'r');
    key(&mut f, KeyCode::Enter);
    assert!(!f.config.tty);
    ctrl(&mut f, 'r');
    key(&mut f, KeyCode::Down);
    key(&mut f, KeyCode::Enter);
    assert!(f.config.tty);
    assert!(f.enhanced_keyboard);
}

#[test]
fn environment_focus_uses_visual_boundaries_and_preserves_cursors() {
    let mut f = fixture();
    f.tab = 3;
    key(&mut f, KeyCode::Enter);
    key(&mut f, KeyCode::Down);
    if let Some(Editing::Env { value, .. }) = &mut f.editing {
        value.text = "abcdefghijklmnop".into();
        value.cursor = 6;
        value.viewport_width = 5;
    }
    key(&mut f, KeyCode::Up);
    assert!(
        matches!(&f.editing, Some(Editing::Env {value_focus:true,value,..}) if value.cursor == 1)
    );
    key(&mut f, KeyCode::Up);
    assert!(matches!(
        &f.editing,
        Some(Editing::Env {
            value_focus: false,
            ..
        })
    ));
    key(&mut f, KeyCode::Down);
    assert!(
        matches!(&f.editing, Some(Editing::Env {value_focus:true,value,..}) if value.cursor == 1)
    );
    key(&mut f, KeyCode::Tab);
    key(&mut f, KeyCode::BackTab);
    assert!(
        matches!(&f.editing, Some(Editing::Env {value_focus:true,value,..}) if value.cursor == 1)
    );
    ctrl(&mut f, 's');
    assert_eq!(env_value(&f.saved, "A"), "one");
    key(&mut f, KeyCode::Esc);
    ctrl(&mut f, 's');
    assert_eq!(env_value(&f.saved, "A"), "abcdefghijklmnop");
}

#[test]
fn delete_targets_original_identity_and_cancel_keeps_rename_input() {
    let mut f = fixture();
    f.tab = 3;
    key(&mut f, KeyCode::Enter);
    f.paste("renamed-");
    key(&mut f, KeyCode::Char('d'));
    key(&mut f, KeyCode::Down);
    press(&mut f, event(KeyCode::End, KeyModifiers::ctrl()));
    key(&mut f, KeyCode::Down);
    key(&mut f, KeyCode::Enter);
    assert!(matches!(&f.confirm,Some(Confirm::Delete(name)) if name=="A"));
    key(&mut f, KeyCode::Esc);
    assert!(
        matches!(&f.editing,Some(Editing::Env{key,delete_focus:true,..}) if key.text=="renamed-dA")
    );
    key(&mut f, KeyCode::Enter);
    key(&mut f, KeyCode::Down);
    key(&mut f, KeyCode::Enter);
    assert!(f.config.env.is_empty());
    assert_eq!(env_value(&f.saved, "A"), "one");
    assert!(f.dirty());
    ctrl(&mut f, 's');
    assert!(Form::open(&f.saved).config.env.is_empty());
}

#[test]
fn buffers_go_back_and_forth() {
    let mut b = Buffer::new("ab".to_owned());
    assert_eq!(b.cursor, 0);
    b.end(true);
    b.insert("cd");
    assert_eq!(b.text, "abcd");
    b.left();
    assert_eq!(b.cursor, 3);
    b.backspace();
    assert_eq!(b.text, "abd");
    b.delete();
    assert_eq!(b.text, "ab");
    b.undo(false);
    assert_eq!(b.text, "abd");
    b.undo(true);
    assert_eq!(b.text, "ab");
    b.newline();
    b.insert("xy");
    b.home(false);
    assert_eq!(b.cursor, 3);
    b.right();
    b.end(true);
    assert_eq!(b.cursor, 5);
}

const TEXT: &str = "//keep\n{name:'api', command:'true', env:{ A:'1', /*B*/ B:'中', },}\n";

fn document(text: &str) -> Document {
    let mut config = config();
    config.persist_logs = false;
    config.env = environment(&[("A", "1"), ("B", "中")]);
    Document::open("/c/link".to_owned(), "/c/config".to_owned(), text.to_owned(), config)
}

fn on_disk(text: &str) -> FileState {
    FileState {
        target: Some("/c/config".to_owned()),
        content: Some(text.to_owned()),
        mode: 0o640,
        links: 1,
    }
}

#[test]
fn form_save_changes_only_fields_and_env_entries() {
    let doc = document(TEXT);
    let mut config = doc.config.clone();
    config.command = "echo '中文'\ntrue".into();
    config.env.remove("A");
    config.env.insert("B".into(), "new".into());
    config.env.insert("C".into(), "3".into());
    let text = doc.save_config(&config).unwrap();
    assert!(text.starts_with("//keep\n{name:'api',"));
    assert!(text.contains("/*B*/"));
    let value = read(&text);
    assert_eq!(value["command"], "echo '中文'\ntrue");
    assert_eq!(value["env"], serde_json::from_str::<serde_json::Value>(r#"{"B":"new","C":"3"}"#).unwrap());
    assert!(matches!(doc.save(&text, &on_disk(TEXT)), Ok(SavePlan::Write(t)) if t == text));
    assert!(matches!(doc.save(&doc.saved_text, &on_disk(TEXT)), Ok(SavePlan::Unchanged)));
}

#[test]
fn crlf_permissions_symlink_and_optional_defaults_are_preserved() {
    let original = TEXT.replace('\n', "\r\n");
    let doc = document(&original);
    assert!(doc.crlf);
    let mut config = doc.config.clone();
    config.cwd = Some("../work".into());
    let text = doc.save_config(&config).unwrap();
    let Ok(SavePlan::Write(output)) = doc.save(&text, &on_disk(&original)) else {
        panic!("write expected")
    };
    assert!(output.contains("\r\n"));
    assert!(!output.contains("log_max_bytes"));
    let mut written = document(&original);
    written.saved(text.clone(), output.clone(), config.clone());
    let mut without = config.clone();
    without.cwd = None;
    assert!(written.save_config(&without).unwrap().contains("null"));
    assert!(doc.save(&text, &on_disk("//external\n{}")).is_err());
    let mut elsewhere = on_disk(&original);
    elsewhere.target = Some("/c/other".to_owned());
    assert!(doc.save(&text, &elsewhere).is_err());
    assert!(Document::check_file(false, 1).is_err());
    assert!(Document::check_file(true, 1 << 21).is_err());
    config.name = String::new();
    assert!(Document::validate(&config).is_err());
    assert!(matches!(Document::check_generated(&config, &doc.config), Err(e) if !e.message().is_empty()));
}

fn service(file: &str, name: &str) -> ServiceInfo {
    ServiceInfo {
        name: name.to_owned(),
        directory: "/work".to_owned(),
        config_file: Some(file.to_owned()),
        kind: ServiceKind::Enabled,
        state: ServiceState::Running,
        pid: Some(1),
        tty: true,
        restart: "never".into(),
        persist_logs: false,
        attach_active: false,
        output_tail: String::new(),
    }
}

fn sources(services: &[ServiceInfo]) -> Vec<Option<String>> {
    services.iter().map(|s| s.config_file.clone()).collect()
}

#[test]
fn matching_uses_source_identity_not_shared_workdir_or_new_name() {
    let services = vec![service("/c/a", "a"), service("/c/b", "b")];
    let found = sources(&services);
    assert_eq!(matching_service(&services, &found, "/c/a", None), Ok(Some(0)));
    assert_eq!(matching_service(&services, &found, "/c/a", Some("b")), Ok(None));
    let twice = vec![service("/c/a", "a"), service("/c/a", "b")];
    assert!(matching_service(&twice, &sources(&twice), "/c/a", None).is_err());
    let mut temporary = service("/c/a", "temp");
    temporary.kind = ServiceKind::Temporary;
    let alone = vec![temporary];
    assert_eq!(matching_service(&alone, &sources(&alone), "/c/a", None), Ok(None));
    for (state, runs) in [
        (ServiceState::Running, true),
        (ServiceState::Starting, true),
        (ServiceState::Restarting, true),
        (ServiceState::Stopped, false),
        (ServiceState::Failed, false),
    ] {
        let mut s = service("/c/a", "a");
        s.state = state;
        assert_eq!(active(&s), runs);
    }
}

#[test]
fn a_restart_is_offered_only_where_it_helps() {
    let running = service("/c/a", "api");
    assert_eq!(after_save(Some(&running), "api"), Ok(true));
    assert_eq!(after_save(None, "api"), Ok(false));
    assert!(after_save(Some(&running), "renamed").is_err());
    assert_eq!(restart_prompt("api"), "Restart api to apply changes?");
    let enter = event(KeyCode::Enter, KeyModifiers::none());
    assert_eq!(prompt_key(0, enter, true), PromptStep::Decline);
    assert_eq!(prompt_key(1, enter, true), PromptStep::Restart);
    assert_eq!(prompt_key(1, enter, false), PromptStep::Ask(1));
    assert_eq!(
        prompt_key(0, event(KeyCode::Down, KeyModifiers::none()), true),
        PromptStep::Ask(1)
    );
    assert!(matches!(
        restart_request(Some(&running), "api"),
        Ok(Request::Restart { target: Target::Name(n) }) if n == "api"
    ));
    assert!(restart_request(None, "api").is_err());
    assert!(restart_response(Response::Done).is_ok());
    assert_eq!(
        restart_response(Response::Error { message: "no".to_owned() }),
        Err("Restart failed: no".to_owned())
    );
    assert_eq!(
        lookup(Response::Services { services: vec![running] }).map(|s| s.len()),
        Ok(1)
    );
    assert!(lookup(Response::Done).is_err());
}

#[test]
fn small_screens_only_let_out() {
    let small = Size { width: 39, height: 24 };
    let large = Size { width: 40, height: 10 };
    assert!(is_workable(large) && !is_workable(small));
    let mut f = fixture();
    let down = event(KeyCode::Down, KeyModifiers::none());
    assert_eq!(f.screen_key(down, small), Outcome::Stay);
    assert_eq!(f.selected, 0);
    f.screen_key(down, large);
    assert_eq!(f.selected, 1);
    assert_eq!(f.screen_key(event(KeyCode::Esc, KeyModifiers::none()), small), Outcome::Exit);
    key(&mut f, KeyCode::Enter);
    let before = f.dirty();
    f.screen_paste("more", small);
    assert_eq!(f.dirty(), before);
    f.screen_paste("more", large);
    assert!(f.dirty());
}

#[test]
fn saving_leads_to_an_offer_or_out() {
    let mut f = fixture();
    assert_eq!(f.written(Ok(false), true), SaveStep::Leave);
    assert_eq!(f.written(Ok(false), false), SaveStep::Stay);
    assert_eq!(f.written(Ok(true), true), SaveStep::OfferRestart);
    assert_eq!(f.restart_offered(Ok(()), true), SaveStep::Leave);
    assert_eq!(f.restart_offered(Err("no answer".to_owned()), true), SaveStep::Stay);
    assert_eq!(f.error.as_deref(), Some("Configuration saved. no answer"));
    assert_eq!(f.written(Err("read-only".to_owned()), true), SaveStep::Stay);
    assert_eq!(f.error.as_deref(), Some("read-only"));
}

#[test]
fn help_names_the_keys_that_work() {
    let mut f = fixture();
    let (title, text) = f.help_content();
    assert_eq!(title, "Help / edit");
    assert!(text.contains("ctrl+s  Save") && !text.contains("space  Toggle switch"));
    key(&mut f, KeyCode::Enter);
    let (title, text) = f.help_content();
    assert_eq!(title, "Help / name");
    assert!(text.ends_with("esc  Back; keep draft"));
}

#[test]
fn rows_end_where_the_columns_do() {
    let text: Vec<char> = "a服务\nb".chars().collect();
    let layout = lay_out(&text, &vec![1, 2, 2, 0, 1], 3, 2);
    assert_eq!(layout.lines, [(0, 2), (2, 3), (4, 5)]);
    assert_eq!(layout.row, 1);
    let layout = lay_out(&text, &vec![1, 2, 2, 0, 1], 0, 5);
    assert_eq!(layout.lines, [(0, 1), (1, 2), (2, 3), (4, 5)]);
    assert_eq!(layout.row, 3);
}
