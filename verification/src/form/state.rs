//! What the form is, and what each key makes of it.
use crate::config::{blank_command, valid_env_key, valid_name, ConfigView, RestartPolicy, policy_text};
use crate::env::{canonical, has_key, pairs_map, PairView};
use crate::form::input::{
    backspaced, deleted, ended, fresh, homed, inserted, moved, row_of, rows, stepped, undone, BufferView,
};
use crate::logs::display::utf8_size;
use crate::text::{debug_form, decimal, parsed_number};
use crate::tui::keys::{control_only, no_modifiers, scrolled, shift_only, KeyCode, KeyEvent};
use vstd::prelude::*;

verus! {

/// How many changes of the configuration can be taken back.
pub const CONFIG_HISTORY: usize = 32;

/// The largest text that can be pasted into.
pub const PASTE_LIMIT: usize = 1_048_576;

/// What is being edited.
#[verifier::ext_equal]
pub enum EditView {
    Text { field: int, input: BufferView, original: Seq<char> },
    Choice(int),
    Env {
        old: Option<Seq<char>>,
        key: BufferView,
        value: BufferView,
        original_value: Seq<char>,
        value_focus: bool,
        delete_available: bool,
        delete_focus: bool,
    },
}

/// A question that has to be answered first.
pub enum ConfirmView {
    Exit,
    Reload,
    Delete(Seq<char>),
    DeleteNew,
}

#[verifier::ext_equal]
pub struct FormView {
    pub saved: ConfigView,
    pub config: ConfigView,
    pub tab: int,
    pub selected: int,
    pub editing: Option<EditView>,
    pub confirm: Option<ConfirmView>,
    pub confirm_selected: int,
    pub drafts: Seq<EditView>,
    pub help: bool,
    pub error: Option<Seq<char>>,
    pub reader_scroll: usize,
    pub inline_error: Option<Seq<char>>,
    pub acknowledged: bool,
    pub undo: Seq<ConfigView>,
    pub redo: Seq<ConfigView>,
    pub enhanced: bool,
}

/// What is left to do outside the form.
#[derive(Debug, Clone, Copy, PartialEq, Eq, Structural)]
pub enum Outcome {
    Stay,
    Exit,
    Save { exit: bool },
    Reload,
}

pub open spec fn opened(config: ConfigView) -> FormView {
    FormView {
        saved: config,
        config,
        tab: 0,
        selected: 0,
        editing: None,
        confirm: None,
        confirm_selected: 0,
        drafts: Seq::empty(),
        help: false,
        error: None,
        reader_scroll: 0,
        inline_error: None,
        acknowledged: false,
        undo: Seq::empty(),
        redo: Seq::empty(),
        enhanced: false,
    }
}

// ---------------------------------------------------------------------------------------------
// Reading the form

pub open spec fn policy_at(i: int) -> RestartPolicy {
    if i == 0 {
        RestartPolicy::Never
    } else if i == 1 {
        RestartPolicy::OnFailure
    } else {
        RestartPolicy::Always
    }
}

pub open spec fn policy_place(p: RestartPolicy) -> int {
    match p {
        RestartPolicy::Never => 0,
        RestartPolicy::OnFailure => 1,
        RestartPolicy::Always => 2,
    }
}

pub open spec fn field_of(f: FormView) -> int {
    f.tab * 3 + f.selected
}

/// An unfinished new variable.
pub open spec fn is_new_env(e: EditView) -> bool {
    e matches EditView::Env { old, .. } && old is None
}

/// How many of the drafts are new variables.
pub open spec fn new_count(drafts: Seq<EditView>) -> nat
    decreases drafts.len(),
{
    if drafts.len() == 0 {
        0
    } else {
        new_count(drafts.drop_last()) + (if is_new_env(drafts.last()) { 1nat } else { 0 })
    }
}

/// How many rows the page has, as far as they can be numbered; an empty page counts as one.
pub open spec fn count_of(f: FormView) -> int {
    if f.tab == 3 {
        let n = f.config.env.len() + new_count(f.drafts);
        if n < 1 {
            1
        } else if n > usize::MAX {
            usize::MAX as int
        } else {
            n as int
        }
    } else {
        3
    }
}

pub open spec fn is_disabled(c: ConfigView, field: int) -> bool {
    (field == 5 && !c.tty) || ((field == 7 || field == 8) && !c.persist_logs)
}

pub open spec fn config_value(c: ConfigView, field: int) -> Seq<char> {
    if field == 0 {
        c.name
    } else if field == 1 {
        c.command
    } else if field == 2 {
        match c.cwd {
            Some(d) => d,
            None => Seq::empty(),
        }
    } else if field == 3 {
        policy_text(c.restart)
    } else if field == 4 {
        bool_text(c.tty)
    } else if field == 5 {
        bool_text(c.sync_rows_cols)
    } else if field == 6 {
        bool_text(c.persist_logs)
    } else if field == 7 {
        decimal(c.log_max_bytes as nat)
    } else if field == 8 {
        decimal(c.log_max_files as nat)
    } else {
        Seq::empty()
    }
}

pub open spec fn bool_text(b: bool) -> Seq<char> {
    if b { "true"@ } else { "false"@ }
}

/// A draft of that field, or of the variable of that name.
pub open spec fn draft_matches(e: EditView, field: Option<int>, old: Option<Seq<char>>) -> bool {
    match e {
        EditView::Text { field: f, .. } => field == Some(f),
        EditView::Env { old: name, .. } => field is None && name == old,
        EditView::Choice(_) => false,
    }
}

/// The first such draft from `i` on.
pub open spec fn first_draft(
    drafts: Seq<EditView>,
    field: Option<int>,
    old: Option<Seq<char>>,
    i: int,
) -> Option<int>
    decreases drafts.len() - i,
{
    if i < 0 || i >= drafts.len() {
        None
    } else if draft_matches(drafts[i], field, old) {
        Some(i)
    } else {
        first_draft(drafts, field, old, i + 1)
    }
}

/// What a field shows: what was typed, or else what the configuration holds.
pub open spec fn value_of(f: FormView, field: int) -> Seq<char> {
    match first_draft(f.drafts, Some(field), None, 0) {
        Some(i) => f.drafts[i]->input.text,
        None => config_value(f.config, field),
    }
}

pub open spec fn edit_dirty(c: ConfigView, e: EditView) -> bool {
    match e {
        EditView::Text { input, original, .. } => input.text != original,
        EditView::Choice(i) => i != policy_place(c.restart),
        EditView::Env { old, key, value, original_value, .. } => match old {
            None => key.text.len() > 0 || value.text.len() > 0,
            Some(o) => o != key.text || value.text != original_value,
        },
    }
}

/// Something would be lost.
pub open spec fn is_dirty(f: FormView) -> bool {
    f.drafts.len() > 0 || f.config != f.saved || (f.editing is Some && edit_dirty(
        f.config,
        f.editing->0,
    ))
}

/// The name of the selected variable.
pub open spec fn selected_key(f: FormView) -> Option<Seq<char>> {
    if 0 <= f.selected < f.config.env.len() { Some(f.config.env[f.selected].0) } else { None }
}

// ---------------------------------------------------------------------------------------------
// Changing the configuration

pub open spec fn clamped(f: FormView) -> FormView {
    let last = count_of(f) - 1;
    FormView { selected: if f.selected > last { last } else { f.selected }, ..f }
}

pub open spec fn config_history(s: Seq<ConfigView>, c: ConfigView) -> Seq<ConfigView> {
    let t = s.push(c);
    if t.len() > CONFIG_HISTORY { t.skip(1) } else { t }
}

/// The configuration becomes `next`; a real change can be taken back.
pub open spec fn changed_to(f: FormView, next: ConfigView) -> FormView {
    if next != f.config {
        FormView {
            undo: config_history(f.undo, f.config),
            redo: Seq::empty(),
            config: next,
            inline_error: None,
            ..f
        }
    } else {
        FormView { inline_error: None, ..f }
    }
}

pub open spec fn form_undone(f: FormView, redo: bool) -> FormView {
    if redo {
        if f.redo.len() == 0 {
            f
        } else {
            clamped(
                FormView {
                    undo: f.undo.push(f.config),
                    redo: f.redo.drop_last(),
                    config: f.redo.last(),
                    inline_error: None,
                    ..f
                },
            )
        }
    } else {
        if f.undo.len() == 0 {
            f
        } else {
            clamped(
                FormView {
                    redo: f.redo.push(f.config),
                    undo: f.undo.drop_last(),
                    config: f.undo.last(),
                    inline_error: None,
                    ..f
                },
            )
        }
    }
}

pub open spec fn toggled(f: FormView, field: int) -> FormView {
    if is_disabled(f.config, field) {
        f
    } else if field == 4 {
        changed_to(f, ConfigView { tty: !f.config.tty, ..f.config })
    } else if field == 5 {
        changed_to(f, ConfigView { sync_rows_cols: !f.config.sync_rows_cols, ..f.config })
    } else if field == 6 {
        changed_to(f, ConfigView { persist_logs: !f.config.persist_logs, ..f.config })
    } else {
        f
    }
}

pub open spec fn with_inline_error(f: FormView, message: Seq<char>) -> FormView {
    FormView { inline_error: Some(message), acknowledged: false, ..f }
}

pub open spec fn bytes_message() -> Seq<char> {
    "Enter a whole number of bytes (1 to 18446744073709551615)."@
}

pub open spec fn files_message() -> Seq<char> {
    "Enter a whole number of files (1 to 4294967295)."@
}

pub open spec fn key_message() -> Seq<char> {
    "Enter a nonempty key without '=', NUL or a newline."@
}

pub open spec fn exists_message() -> Seq<char> {
    "This environment key already exists."@
}

/// The configuration with the edit in it, or why it cannot be put in.
pub open spec fn edit_result(c: ConfigView, e: EditView) -> Result<ConfigView, Seq<char>> {
    match e {
        EditView::Text { field, input, .. } => if field == 0 {
            Ok(ConfigView { name: input.text, ..c })
        } else if field == 1 {
            Ok(ConfigView { command: input.text, ..c })
        } else if field == 2 {
            Ok(ConfigView { cwd: if input.text.len() > 0 { Some(input.text) } else { None }, ..c })
        } else if field == 7 {
            match parsed_number(input.text, u64::MAX as nat) {
                Some(n) => Ok(ConfigView { log_max_bytes: n as u64, ..c }),
                None => Err(bytes_message()),
            }
        } else if field == 8 {
            match parsed_number(input.text, u32::MAX as nat) {
                Some(n) => Ok(ConfigView { log_max_files: n as u32, ..c }),
                None => Err(files_message()),
            }
        } else {
            Ok(c)
        },
        EditView::Choice(i) => Ok(ConfigView { restart: policy_at(i), ..c }),
        EditView::Env { old, key, value, .. } => {
            let k = key.text;
            if k.len() == 0 || k.contains('=') || k.contains('\0') || k.contains('\n') {
                Err(key_message())
            } else if old != Some(k) && has_key(c.env, k) {
                Err(exists_message())
            } else {
                Ok(ConfigView { env: renamed(c.env, old, k, value.text), ..c })
            }
        },
    }
}

/// The variables without `old` and with `key`.
pub open spec fn renamed(
    env: Seq<PairView>,
    old: Option<Seq<char>>,
    key: Seq<char>,
    value: Seq<char>,
) -> Seq<PairView> {
    let rest = match old {
        Some(o) => canonical(pairs_map(env).remove(o)),
        None => env,
    };
    canonical(pairs_map(rest).insert(key, value))
}

/// Back to the name of a variable.
pub open spec fn unfocused(e: EditView) -> EditView {
    match e {
        EditView::Env { old, key, value, original_value, delete_available, .. } => EditView::Env {
            old,
            key,
            value,
            original_value,
            value_focus: false,
            delete_available,
            delete_focus: false,
        },
        other => other,
    }
}

/// Ends the edit where it can be put into the configuration, and says whether it could.
pub open spec fn applied(f: FormView) -> (FormView, bool) {
    match f.editing {
        None => (f, true),
        Some(e) => match edit_result(f.config, e) {
            Ok(next) => (clamped(changed_to(FormView { editing: None, ..f }, next)), true),
            Err(message) => (
                with_inline_error(FormView { editing: Some(unfocused(e)), ..f }, message),
                false,
            ),
        },
    }
}

/// Leaves the input: what cannot be put in is kept as a draft.
pub open spec fn left_input(f: FormView) -> FormView {
    if f.editing is Some && is_new_env(f.editing->0) && f.editing->0->key.text.len() == 0
        && f.editing->0->value.text.len() == 0 {
        clamped(FormView { editing: None, ..f })
    } else {
        let (g, ok) = applied(f);
        if ok || g.editing is None {
            g
        } else {
            FormView { editing: None, drafts: g.drafts.push(g.editing->0), ..g }
        }
    }
}

pub open spec fn focus_moved(f: FormView, backwards: bool) -> FormView {
    let n = count_of(f);
    FormView { selected: (f.selected + (if backwards { n - 1 } else { 1 })) % n, ..f }
}

pub open spec fn asked(f: FormView, c: ConfirmView) -> FormView {
    FormView { reader_scroll: 0, confirm: Some(c), confirm_selected: 0, ..f }
}

/// The draft `i` becomes the edit.
pub open spec fn resumed(f: FormView, i: int) -> FormView {
    FormView { editing: Some(f.drafts[i]), drafts: f.drafts.remove(i), ..f }
}

pub open spec fn offer_delete(e: EditView) -> EditView {
    match e {
        EditView::Env { old, key, value, original_value, value_focus, .. } => EditView::Env {
            old,
            key,
            value,
            original_value,
            value_focus,
            delete_available: true,
            delete_focus: false,
        },
        other => other,
    }
}

pub open spec fn env_value(env: Seq<PairView>, key: Seq<char>) -> Seq<char> {
    if has_key(env, key) { pairs_map(env)[key] } else { Seq::empty() }
}

/// Begins to edit the selected variable, or a new one.
pub open spec fn begun_env(f: FormView, new: bool) -> FormView {
    let old = if new { None } else { selected_key(f) };
    match first_draft(f.drafts, None, old, 0) {
        Some(i) => {
            let g = resumed(f, i);
            FormView { editing: Some(offer_delete(g.editing->0)), ..g }
        },
        None => {
            let name = match old {
                Some(o) => o,
                None => Seq::<char>::empty(),
            };
            let value = match old {
                Some(o) => env_value(f.config.env, o),
                None => Seq::<char>::empty(),
            };
            FormView {
                editing: Some(
                    EditView::Env {
                        old,
                        key: fresh(name),
                        value: fresh(value),
                        original_value: value,
                        value_focus: false,
                        delete_available: old is Some,
                        delete_focus: false,
                    },
                ),
                inline_error: None,
                ..f
            }
        },
    }
}

/// Begins to edit what is selected, or switches it.
pub open spec fn begun(f0: FormView) -> FormView {
    let f = FormView { inline_error: None, ..f0 };
    if f.tab == 3 {
        begun_env(f, false)
    } else {
        let field = field_of(f);
        match first_draft(f.drafts, Some(field), None, 0) {
            Some(i) => resumed(f, i),
            None => if is_disabled(f.config, field) {
                f
            } else if field == 3 {
                FormView { editing: Some(EditView::Choice(policy_place(f.config.restart))), ..f }
            } else if 4 <= field <= 6 {
                toggled(f, field)
            } else {
                let original = value_of(f, field);
                FormView {
                    editing: Some(
                        EditView::Text { field, input: ended(fresh(original), true), original },
                    ),
                    ..f
                }
            },
        }
    }
}

// ---------------------------------------------------------------------------------------------
// Saving

pub open spec fn key_place(env: Seq<PairView>, key: Seq<char>) -> int {
    choose|i: int| 0 <= i < env.len() && #[trigger] env[i].0 == key
}

/// Shows the place that a draft belongs to.
pub open spec fn shown_at(f: FormView, e: EditView) -> FormView {
    match e {
        EditView::Text { field, .. } => FormView { tab: field / 3, selected: field % 3, ..f },
        EditView::Env { old, .. } => FormView {
            tab: 3,
            selected: match old {
                Some(o) => if has_key(f.config.env, o) {
                    key_place(f.config.env, o)
                } else {
                    f.config.env.len() as int
                },
                None => f.config.env.len() as int,
            },
            ..f
        },
        EditView::Choice(_) => f,
    }
}

/// Puts the drafts into the configuration, the oldest first, up to the first that does not fit.
pub open spec fn flushed(f: FormView) -> (FormView, bool)
    decreases f.drafts.len(),
{
    if f.drafts.len() == 0 {
        (f, true)
    } else {
        let e = f.drafts[0];
        let g = FormView {
            editing: Some(e),
            ..shown_at(FormView { drafts: f.drafts.remove(0), ..f }, e)
        };
        let (h, ok) = applied(g);
        if !ok || h.drafts.len() >= f.drafts.len() {
            (h, ok)
        } else {
            flushed(h)
        }
    }
}

/// The first invalid key from `i` on.
pub open spec fn bad_key(env: Seq<PairView>, i: int) -> Option<Seq<char>>
    decreases env.len() - i,
{
    if i < 0 || i >= env.len() {
        None
    } else if !valid_env_key(env[i].0) {
        Some(env[i].0)
    } else {
        bad_key(env, i + 1)
    }
}

/// Goes to what is wrong with the configuration, if anything is.
pub open spec fn validated(f: FormView) -> (FormView, bool) {
    let c = f.config;
    if !valid_name(c.name) {
        (
            with_inline_error(
                FormView { tab: 0, selected: 0, ..f },
                "Use letters, digits, '.', '_' or '-' for the name."@,
            ),
            false,
        )
    } else if blank_command(c) {
        (
            with_inline_error(
                FormView { tab: 0, selected: 1, ..f },
                "Command must not be empty."@,
            ),
            false,
        )
    } else if c.log_max_bytes == 0 {
        (
            with_inline_error(
                FormView { tab: 2, selected: 1, ..f },
                "Max bytes must be greater than zero."@,
            ),
            false,
        )
    } else if c.log_max_files == 0 {
        (
            with_inline_error(
                FormView { tab: 2, selected: 2, ..f },
                "Retained files must be greater than zero."@,
            ),
            false,
        )
    } else {
        match bad_key(c.env, 0) {
            Some(k) => (
                with_inline_error(
                    FormView { tab: 3, selected: 0, ..f },
                    "invalid environment key "@ + debug_form(k),
                ),
                false,
            ),
            None => (f, true),
        }
    }
}

/// Makes the configuration ready to be written, and says whether it is.
pub open spec fn save_ready(f: FormView) -> (FormView, bool) {
    let (g, ok) = applied(f);
    if !ok {
        (g, false)
    } else {
        let (h, all) = flushed(g);
        if !all { (h, false) } else { validated(h) }
    }
}

pub open spec fn save_step(f: FormView, exit: bool) -> (FormView, Outcome) {
    let (g, ok) = save_ready(f);
    (g, if ok { Outcome::Save { exit } } else { Outcome::Stay })
}

// ---------------------------------------------------------------------------------------------
// Keys

pub open spec fn plain(k: KeyEvent) -> bool {
    k.modifiers == no_modifiers()
}

pub open spec fn ctrl(k: KeyEvent) -> bool {
    k.modifiers == control_only()
}

pub open spec fn exit_key(k: KeyEvent) -> bool {
    ctrl(k) && (k.code == KeyCode::Char('q') || k.code == KeyCode::Char('c'))
}

pub open spec fn help_key(f: FormView, k: KeyEvent) -> bool {
    ||| plain(k) && k.code == KeyCode::F(1)
    ||| f.editing is None && (k.code == KeyCode::Char('?') || k.code == KeyCode::Char('？'))
        && !k.modifiers.control && !k.modifiers.alt && !k.modifiers.logo
}

/// A key while a message or the help is shown.
pub open spec fn reader_key(f: FormView, k: KeyEvent, rows: usize) -> FormView {
    if exit_key(k) || help_key(f, k) || (plain(k) && (k.code is Esc || k.code is Enter)) {
        FormView { help: false, error: None, ..f }
    } else if plain(k) {
        FormView { reader_scroll: scrolled(f.reader_scroll, k.code, rows), ..f }
    } else {
        f
    }
}

pub open spec fn answers(c: ConfirmView) -> int {
    if c is Exit { 3 } else { 2 }
}

pub open spec fn without_new(drafts: Seq<EditView>) -> Seq<EditView> {
    drafts.filter(|e: EditView| !is_new_env(e))
}

pub open spec fn is_env_of(e: EditView, name: Seq<char>) -> bool {
    e matches EditView::Env { old, .. } && old == Some(name)
}

pub open spec fn without_env(drafts: Seq<EditView>, name: Seq<char>) -> Seq<EditView> {
    drafts.filter(|e: EditView| !is_env_of(e, name))
}

/// The answer to a question. The first answer always keeps everything.
pub open spec fn answered(f0: FormView, c: ConfirmView) -> (FormView, Outcome) {
    let f = FormView { confirm: None, ..f0 };
    if f.confirm_selected == 0 {
        (f, Outcome::Stay)
    } else {
        match c {
            ConfirmView::Exit => if f.confirm_selected == 1 {
                save_step(f, true)
            } else if f.confirm_selected == 2 {
                (f, Outcome::Exit)
            } else {
                (f, Outcome::Stay)
            },
            ConfirmView::Reload => (f, Outcome::Reload),
            ConfirmView::DeleteNew => (
                clamped(
                    FormView {
                        editing: None,
                        inline_error: None,
                        drafts: without_new(f.drafts),
                        ..f
                    },
                ),
                Outcome::Stay,
            ),
            ConfirmView::Delete(name) => {
                let next = ConfigView {
                    env: canonical(pairs_map(f.config.env).remove(name)),
                    ..f.config
                };
                (
                    clamped(
                        changed_to(
                            FormView { editing: None, drafts: without_env(f.drafts, name), ..f },
                            next,
                        ),
                    ),
                    Outcome::Stay,
                )
            },
        }
    }
}

/// A key while a question is asked.
pub open spec fn confirm_key(f: FormView, c: ConfirmView, k: KeyEvent, rows: usize) -> (
    FormView,
    Outcome,
) {
    let n = answers(c);
    if k.kind is Repeat {
        (f, Outcome::Stay)
    } else if exit_key(k) || (plain(k) && k.code is Esc) {
        (FormView { confirm: None, ..f }, Outcome::Stay)
    } else if plain(k) && (k.code is PageUp || k.code is PageDown || k.code is Home || k.code is End) {
        (FormView { reader_scroll: scrolled(f.reader_scroll, k.code, rows), ..f }, Outcome::Stay)
    } else if plain(k) && (k.code is Up || k.code is Left) {
        (FormView { confirm_selected: (f.confirm_selected + n - 1) % n, ..f }, Outcome::Stay)
    } else if plain(k) && (k.code is Down || k.code is Right) {
        (FormView { confirm_selected: (f.confirm_selected + 1) % n, ..f }, Outcome::Stay)
    } else if plain(k) && k.code is Enter {
        answered(f, c)
    } else {
        (f, Outcome::Stay)
    }
}

/// Which input a key goes to, and whether that may hold several lines.
pub open spec fn input_of(e: EditView) -> Option<(BufferView, bool)> {
    match e {
        EditView::Text { field, input, .. } => Some((input, field == 1)),
        EditView::Env { key, value, value_focus, delete_focus, .. } => if delete_focus {
            None
        } else if value_focus {
            Some((value, true))
        } else {
            Some((key, false))
        },
        EditView::Choice(_) => None,
    }
}

pub open spec fn with_input(e: EditView, b: BufferView) -> EditView {
    match e {
        EditView::Text { field, original, .. } => EditView::Text { field, input: b, original },
        EditView::Env {
            old,
            key,
            value,
            original_value,
            value_focus,
            delete_available,
            delete_focus,
        } => EditView::Env {
            old,
            key: if value_focus { key } else { b },
            value: if value_focus { b } else { value },
            original_value,
            value_focus,
            delete_available,
            delete_focus,
        },
        EditView::Choice(i) => EditView::Choice(i),
    }
}

/// What a key does to an input.
pub open spec fn typed(b: BufferView, multiline: bool, k: KeyEvent) -> BufferView {
    let page = if b.height < 1 { 1 } else { b.height };
    if ctrl(k) {
        match k.code {
            KeyCode::Char('z') => undone(b, false),
            KeyCode::Char('y') => undone(b, true),
            KeyCode::Home => homed(b, true),
            KeyCode::End => ended(b, true),
            _ => b,
        }
    } else if plain(k) {
        match k.code {
            KeyCode::Left => moved(b, if b.cursor > 0 { b.cursor - 1 } else { 0 }),
            KeyCode::Right => moved(b, if b.cursor < b.text.len() { b.cursor + 1 } else { b.cursor }),
            KeyCode::Up => if multiline { stepped(b, true, 1) } else { b },
            KeyCode::Down => if multiline { stepped(b, false, 1) } else { b },
            KeyCode::Home => homed(b, false),
            KeyCode::End => ended(b, false),
            KeyCode::PageUp => if multiline { stepped(b, true, page) } else { b },
            KeyCode::PageDown => if multiline { stepped(b, false, page) } else { b },
            KeyCode::Backspace => backspaced(b),
            KeyCode::Delete => deleted(b),
            KeyCode::Char(c) => inserted(b, seq![c]),
            _ => b,
        }
    } else if k.modifiers == shift_only() {
        match k.code {
            KeyCode::Char(c) => inserted(b, seq![c]),
            _ => b,
        }
    } else {
        b
    }
}

pub open spec fn focused(e: EditView, value_focus: bool, delete_focus: bool) -> EditView {
    match e {
        EditView::Env { old, key, value, original_value, delete_available, .. } => EditView::Env {
            old,
            key,
            value,
            original_value,
            value_focus,
            delete_available,
            delete_focus,
        },
        other => other,
    }
}

pub open spec fn on_first_row(b: BufferView) -> bool {
    row_of(rows(b.text, b.width), b.cursor) == 0
}

pub open spec fn on_last_row(b: BufferView) -> bool {
    row_of(rows(b.text, b.width), b.cursor) + 1 == rows(b.text, b.width).len()
}

pub open spec fn edits(f: FormView, e: EditView) -> FormView {
    FormView { editing: Some(e), ..f }
}

pub open spec fn newline_key(k: KeyEvent) -> bool {
    (k.code is Enter && k.modifiers == shift_only()) || (ctrl(k) && k.code == KeyCode::Char('j'))
}

/// Where an arrow leaves the part of a variable that it is in.
pub open spec fn env_focus(e: EditView, k: KeyEvent) -> Option<EditView> {
    match e {
        EditView::Env { value, value_focus, delete_available, .. } => if !plain(k) {
            None
        } else if k.code is Down && value_focus && delete_available && on_last_row(value) {
            Some(focused(e, value_focus, true))
        } else if k.code is Down && !value_focus {
            Some(focused(e, true, false))
        } else if k.code is Up && value_focus && on_first_row(value) {
            Some(focused(e, false, false))
        } else {
            None
        },
        _ => None,
    }
}

/// A key while something is edited.
pub open spec fn editing_key(f: FormView, e: EditView, k: KeyEvent) -> FormView {
    if newline_key(k) {
        match input_of(e) {
            Some(p) => if p.1 { edits(f, with_input(e, inserted(p.0, seq!['\n']))) } else { f },
            None => f,
        }
    } else if plain(k) && k.code is Esc {
        left_input(f)
    } else if e is Env && e->delete_focus {
        if plain(k) && k.code is Enter {
            asked(
                f,
                match e->old {
                    Some(name) => ConfirmView::Delete(name),
                    None => ConfirmView::DeleteNew,
                },
            )
        } else if plain(k) && k.code is Up {
            edits(f, focused(e, true, false))
        } else {
            f
        }
    } else if plain(k) && k.code is Enter {
        if e is Env && !e->value_focus {
            edits(f, focused(e, true, e->delete_focus))
        } else {
            left_input(f)
        }
    } else if env_focus(e, k) is Some {
        edits(f, env_focus(e, k)->0)
    } else if e is Choice {
        if plain(k) && (k.code is Up || k.code is Left) {
            edits(f, EditView::Choice((e->Choice_0 + 2) % 3))
        } else if plain(k) && (k.code is Down || k.code is Right) {
            edits(f, EditView::Choice((e->Choice_0 + 1) % 3))
        } else {
            f
        }
    } else {
        match input_of(e) {
            Some(p) => edits(f, with_input(e, typed(p.0, p.1, k))),
            None => f,
        }
    }
}

/// A key while nothing is edited.
pub open spec fn browse_key(f: FormView, k: KeyEvent) -> FormView {
    if ctrl(k) {
        match k.code {
            KeyCode::Char('z') => form_undone(f, false),
            KeyCode::Char('y') => form_undone(f, true),
            _ => f,
        }
    } else if !plain(k) {
        f
    } else {
        match k.code {
            KeyCode::Left => FormView {
                tab: (f.tab + 3) % 4,
                selected: 0,
                inline_error: None,
                ..f
            },
            KeyCode::Right => FormView {
                tab: (f.tab + 1) % 4,
                selected: 0,
                inline_error: None,
                ..f
            },
            KeyCode::Up => focus_moved(f, true),
            KeyCode::Down => focus_moved(f, false),
            KeyCode::Enter => begun(f),
            KeyCode::Char(' ') => if f.tab < 3 && f.selected < count_of(f) {
                toggled(f, field_of(f))
            } else {
                f
            },
            KeyCode::Char('a') => if f.tab == 3 {
                begun_env(FormView { selected: f.config.env.len() as int, ..f }, true)
            } else {
                f
            },
            _ => f,
        }
    }
}

/// What a key makes of the form, and what is left to do outside it.
pub open spec fn key_step(f: FormView, k: KeyEvent, rows: usize) -> (FormView, Outcome) {
    if k.kind is Release || k.code is Tab || k.code is BackTab {
        (f, Outcome::Stay)
    } else if f.help || f.error is Some {
        (reader_key(f, k, rows), Outcome::Stay)
    } else if f.confirm is Some {
        confirm_key(f, f.confirm->0, k, rows)
    } else if exit_key(k) || (plain(k) && k.code is Esc && f.editing is None) {
        if is_dirty(f) {
            (asked(f, ConfirmView::Exit), Outcome::Stay)
        } else {
            (f, Outcome::Exit)
        }
    } else if help_key(f, k) {
        (FormView { help: true, reader_scroll: 0, ..f }, Outcome::Stay)
    } else if ctrl(k) && k.code == KeyCode::Char('s') {
        if f.editing is None { save_step(f, false) } else { (f, Outcome::Stay) }
    } else if ctrl(k) && k.code == KeyCode::Char('r') {
        if is_dirty(f) {
            (asked(f, ConfirmView::Reload), Outcome::Stay)
        } else {
            (f, Outcome::Reload)
        }
    } else if f.editing is Some {
        (editing_key(f, f.editing->0, k), Outcome::Stay)
    } else {
        (browse_key(f, k), Outcome::Stay)
    }
}

/// What pasted text becomes in an input of one line.
pub open spec fn one_line(t: Seq<char>) -> Seq<char> {
    t.map_values(|c: char| if c == '\r' || c == '\n' { ' ' } else { c })
}

/// Text pasted into the form.
pub open spec fn pasted(f: FormView, t: Seq<char>) -> FormView {
    if f.confirm is Some || f.help || f.error is Some || f.editing is None {
        f
    } else {
        match input_of(f.editing->0) {
            None => f,
            Some(p) => if utf8_size(p.0.text) + utf8_size(t) <= PASTE_LIMIT {
                edits(
                    f,
                    with_input(
                        f.editing->0,
                        inserted(p.0, if p.1 { t } else { one_line(t) }),
                    ),
                )
            } else {
                f
            },
        }
    }
}

} // verus!
