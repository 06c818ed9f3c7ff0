//! The form: pages of fields over one configuration.
use crate::config::{first_invalid_key, is_valid_name, valid_env_key, valid_keys, ConfigView, RestartPolicy, ServiceConfig};
use crate::env::{has_key, key_sorted, EnvMap, PairView};
use crate::form::input::{inserted, rows, Buffer};
use crate::form::state::{answered, applied, asked, bad_key, begun, begun_env, bool_text, browse_key, changed_to, clamped, confirm_key, count_of, ctrl, draft_matches, edit_result, editing_key, edits, env_focus, env_value, exit_key, field_of, first_draft, flushed, focus_moved, focused, form_undone, help_key, input_of, is_dirty, is_disabled, is_env_of, is_new_env, key_place, key_step, left_input, new_count, newline_key, one_line, opened, pasted, plain, policy_at, policy_place, reader_key, renamed, resumed, save_ready, save_step, selected_key, shown_at, toggled, typed, validated, value_of, with_inline_error, with_input, without_env, without_new, ConfirmView, EditView, FormView, Outcome, CONFIG_HISTORY, PASTE_LIMIT};
use crate::logs::display::{char_size, utf8_size};
use crate::text::{chars_of, decimal_text, has_char, is_blank, opt_view, parse_number, same};
use crate::tui::keys::{scroll_key, KeyCode, KeyEvent, KeyEventKind};
use vstd::prelude::*;

verus! {

#[derive(Debug)]
pub enum Editing {
    Text { field: usize, input: Buffer, original: String },
    Choice(usize),
    Env {
        old: Option<String>,
        key: Buffer,
        value: Buffer,
        original_value: String,
        value_focus: bool,
        delete_available: bool,
        delete_focus: bool,
    },
}

#[derive(Debug)]
pub enum Confirm {
    Exit,
    Reload,
    Delete(String),
    DeleteNew,
}

#[derive(Debug)]
pub struct Form {
    pub saved: ServiceConfig,
    pub config: ServiceConfig,
    pub tab: usize,
    pub selected: usize,
    pub editing: Option<Editing>,
    pub confirm: Option<Confirm>,
    pub confirm_selected: usize,
    pub enhanced_keyboard: bool,
    pub drafts: Vec<Editing>,
    pub help: bool,
    pub error: Option<String>,
    pub reader_scroll: usize,
    pub inline_error: Option<String>,
    pub inline_error_acknowledged: bool,
    pub undo: Vec<ServiceConfig>,
    pub redo: Vec<ServiceConfig>,
}

impl View for Editing {
    type V = EditView;

    open spec fn view(&self) -> EditView {
        match self {
            Editing::Text { field, input, original } => EditView::Text {
                field: *field as int,
                input: input@,
                original: original@,
            },
            Editing::Choice(i) => EditView::Choice(*i as int),
            Editing::Env {
                old,
                key,
                value,
                original_value,
                value_focus,
                delete_available,
                delete_focus,
            } => EditView::Env {
                old: opt_view(*old),
                key: key@,
                value: value@,
                original_value: original_value@,
                value_focus: *value_focus,
                delete_available: *delete_available,
                delete_focus: *delete_focus,
            },
        }
    }
}

impl Editing {
    pub open spec fn wf(&self) -> bool {
        match self {
            Editing::Text { field, input, .. } => *field < 9 && input.wf(),
            Editing::Choice(i) => *i < 3,
            Editing::Env { key, value, .. } => key.wf() && value.wf(),
        }
    }
}

impl View for Confirm {
    type V = ConfirmView;

    open spec fn view(&self) -> ConfirmView {
        match self {
            Confirm::Exit => ConfirmView::Exit,
            Confirm::Reload => ConfirmView::Reload,
            Confirm::Delete(n) => ConfirmView::Delete(n@),
            Confirm::DeleteNew => ConfirmView::DeleteNew,
        }
    }
}

pub open spec fn edit_views(s: Seq<Editing>) -> Seq<EditView> {
    Seq::new(s.len(), |i: int| s[i]@)
}

pub open spec fn config_views(s: Seq<ServiceConfig>) -> Seq<ConfigView> {
    Seq::new(s.len(), |i: int| s[i]@)
}

pub open spec fn edit_opt(e: Option<Editing>) -> Option<EditView> {
    match e {
        Some(e) => Some(e@),
        None => None,
    }
}

pub open spec fn confirm_opt(c: Option<Confirm>) -> Option<ConfirmView> {
    match c {
        Some(c) => Some(c@),
        None => None,
    }
}

impl View for Form {
    type V = FormView;

    open spec fn view(&self) -> FormView {
        FormView {
            saved: self.saved@,
            config: self.config@,
            tab: self.tab as int,
            selected: self.selected as int,
            editing: edit_opt(self.editing),
            confirm: confirm_opt(self.confirm),
            confirm_selected: self.confirm_selected as int,
            drafts: edit_views(self.drafts@),
            help: self.help,
            error: opt_view(self.error),
            reader_scroll: self.reader_scroll,
            inline_error: opt_view(self.inline_error),
            acknowledged: self.inline_error_acknowledged,
            undo: config_views(self.undo@),
            redo: config_views(self.redo@),
            enhanced: self.enhanced_keyboard,
        }
    }
}

pub open spec fn drafts_wf(s: Seq<Editing>) -> bool {
    forall|i: int| 0 <= i < s.len() ==> (#[trigger] s[i]).wf()
}

pub fn policies(i: usize) -> (r: RestartPolicy)
    ensures
        r == policy_at(i as int),
{
    if i == 0 {
        RestartPolicy::Never
    } else if i == 1 {
        RestartPolicy::OnFailure
    } else {
        RestartPolicy::Always
    }
}

pub fn policy_index(policy: RestartPolicy) -> (r: usize)
    ensures
        r == policy_place(policy),
        policy_at(r as int) == policy,
{
    match policy {
        RestartPolicy::Never => 0,
        RestartPolicy::OnFailure => 1,
        RestartPolicy::Always => 2,
    }
}

fn bool_name(b: bool) -> (r: String)
    ensures
        r@ == bool_text(b),
{
    if b {
        "true".to_owned()
    } else {
        "false".to_owned()
    }
}

/// Whether two texts together take at most `limit` bytes.
fn fits(a: &str, b: &str, limit: usize) -> (r: bool)
    ensures
        r == (utf8_size(a@) + utf8_size(b@) <= limit),
{
    let x = chars_of(a);
    let y = chars_of(b);
    let mut used: usize = 0;
    let mut i: usize = x.len();
    assert(x@.skip(x@.len() as int) =~= Seq::<char>::empty());
    while i > 0
        invariant
            x@ == a@,
            i <= x@.len(),
            used <= limit,
            used == utf8_size(x@.skip(i as int)),
        decreases i,
    {
        let size = char_size(x[i - 1]);
        assert(x@.skip(i - 1)[0] == x@[i - 1]);
        assert(x@.skip(i - 1).skip(1) =~= x@.skip(i as int));
        if size > limit - used {
            proof {
                lemma_size_of_tail(x@, i - 1);
            }
            return false;
        }
        used += size;
        i -= 1;
    }
    assert(x@.skip(0) =~= a@);
    let ghost first = used;
    let mut k: usize = y.len();
    assert(y@.skip(y@.len() as int) =~= Seq::<char>::empty());
    while k > 0
        invariant
            y@ == b@,
            k <= y@.len(),
            used <= limit,
            first == utf8_size(a@),
            used == first + utf8_size(y@.skip(k as int)),
        decreases k,
    {
        let size = char_size(y[k - 1]);
        assert(y@.skip(k - 1)[0] == y@[k - 1]);
        assert(y@.skip(k - 1).skip(1) =~= y@.skip(k as int));
        if size > limit - used {
            proof {
                lemma_size_of_tail(y@, k - 1);
            }
            return false;
        }
        used += size;
        k -= 1;
    }
    assert(y@.skip(0) =~= b@);
    true
}

proof fn lemma_size_of_tail(s: Seq<char>, i: int)
    requires
        0 <= i <= s.len(),
    ensures
        utf8_size(s.skip(i)) <= utf8_size(s),
    decreases i,
{
    if i == 0 {
        assert(s.skip(0) =~= s);
    } else {
        lemma_size_of_tail(s, i - 1);
        assert(s.skip(i - 1).skip(1) =~= s.skip(i));
    }
}

/// Pasted text for an input of one line.
fn flattened(t: &str) -> (r: String)
    ensures
        r@ == one_line(t@),
{
    let v = chars_of(t);
    let mut out = String::new();
    let mut i: usize = 0;
    while i < v.len()
        invariant
            v@ == t@,
            i <= v@.len(),
            out@ == one_line(t@.take(i as int)),
        decreases v@.len() - i,
    {
        let c = v[i];
        out.push(if c == '\r' || c == '\n' { ' ' } else { c });
        i += 1;
        assert(out@ =~= one_line(t@.take(i as int)));
    }
    assert(t@.take(t@.len() as int) =~= t@);
    out
}

/// What a key does to an input.
pub fn type_key(input: &mut Buffer, multiline: bool, key: KeyEvent)
    requires
        old(input).wf(),
    ensures
        final(input).wf(),
        final(input)@ == typed(old(input)@, multiline, key),
{
    let none = is_plain(key);
    let control = is_ctrl(key);
    let page: usize = if input.viewport_height < 1 { 1 } else { input.viewport_height };
    if control {
        match key.code {
            KeyCode::Char('z') => input.undo(false),
            KeyCode::Char('y') => input.undo(true),
            KeyCode::Home => input.home(true),
            KeyCode::End => input.end(true),
            _ => {},
        }
    } else if none {
        match key.code {
            KeyCode::Left => input.left(),
            KeyCode::Right => input.right(),
            KeyCode::Up => {
                if multiline {
                    input.vertical(true, 1);
                }
            },
            KeyCode::Down => {
                if multiline {
                    input.vertical(false, 1);
                }
            },
            KeyCode::Home => input.home(false),
            KeyCode::End => input.end(false),
            KeyCode::PageUp => {
                if multiline {
                    input.vertical(true, page);
                }
            },
            KeyCode::PageDown => {
                if multiline {
                    input.vertical(false, page);
                }
            },
            KeyCode::Backspace => input.backspace(),
            KeyCode::Delete => input.delete(),
            KeyCode::Char(c) => insert_char(input, c),
            _ => {},
        }
    } else if key.modifiers.shift && !key.modifiers.control && !key.modifiers.alt
        && !key.modifiers.logo && !key.modifiers.other {
        match key.code {
            KeyCode::Char(c) => insert_char(input, c),
            _ => {},
        }
    }
}

fn is_plain(key: KeyEvent) -> (r: bool)
    ensures
        r == plain(key),
{
    !key.modifiers.shift && !key.modifiers.control && !key.modifiers.alt && !key.modifiers.logo
        && !key.modifiers.other
}

fn is_ctrl(key: KeyEvent) -> (r: bool)
    ensures
        r == ctrl(key),
{
    !key.modifiers.shift && key.modifiers.control && !key.modifiers.alt && !key.modifiers.logo
        && !key.modifiers.other
}

fn insert_char(input: &mut Buffer, c: char)
    requires
        old(input).wf(),
    ensures
        final(input).wf(),
        final(input)@ == inserted(old(input)@, seq![c]),
{
    let mut s = String::new();
    s.push(c);
    assert(s@ =~= seq![c]);
    input.insert(s.as_str());
}

fn exits(key: KeyEvent) -> (r: bool)
    ensures
        r == exit_key(key),
{
    is_ctrl(key) && match key.code {
        KeyCode::Char('q') | KeyCode::Char('c') => true,
        _ => false,
    }
}

/// The input that keys go to, and whether it may hold several lines.
pub fn input_for(edit: &Editing) -> (r: Option<(&Buffer, bool)>)
    ensures
        match r {
            Some(p) => input_of(edit@) == Some((p.0@, p.1)) && (edit.wf() ==> p.0.wf()),
            None => input_of(edit@) is None,
        },
{
    match edit {
        Editing::Text { field, input, .. } => Some((input, *field == 1)),
        Editing::Env { key, value, value_focus, delete_focus, .. } => {
            if *delete_focus {
                None
            } else if *value_focus {
                Some((value, true))
            } else {
                Some((key, false))
            }
        },
        Editing::Choice(_) => None,
    }
}

/// Lets a key or a text reach the input that is edited.
fn type_into(edit: Editing, key: KeyEvent) -> (r: Editing)
    requires
        edit.wf(),
    ensures
        r.wf(),
        match input_of(edit@) {
            Some(p) => r@ == with_input(edit@, typed(p.0, p.1, key)),
            None => r@ == edit@,
        },
{
    match edit {
        Editing::Text { field, input, original } => {
            let mut input = input;
            type_key(&mut input, field == 1, key);
            Editing::Text { field, input, original }
        },
        Editing::Env {
            old,
            key: name,
            value,
            original_value,
            value_focus,
            delete_available,
            delete_focus,
        } => {
            let mut name = name;
            let mut value = value;
            if !delete_focus {
                if value_focus {
                    type_key(&mut value, true, key);
                } else {
                    type_key(&mut name, false, key);
                }
            }
            Editing::Env {
                old,
                key: name,
                value,
                original_value,
                value_focus,
                delete_available,
                delete_focus,
            }
        },
        Editing::Choice(i) => Editing::Choice(i),
    }
}

fn insert_into(edit: Editing, text: &str) -> (r: Editing)
    requires
        edit.wf(),
    ensures
        r.wf(),
        match input_of(edit@) {
            Some(p) => r@ == with_input(edit@, inserted(p.0, text@)),
            None => r@ == edit@,
        },
{
    match edit {
        Editing::Text { field, input, original } => {
            let mut input = input;
            input.insert(text);
            Editing::Text { field, input, original }
        },
        Editing::Env {
            old,
            key: name,
            value,
            original_value,
            value_focus,
            delete_available,
            delete_focus,
        } => {
            let mut name = name;
            let mut value = value;
            if !delete_focus {
                if value_focus {
                    value.insert(text);
                } else {
                    name.insert(text);
                }
            }
            Editing::Env {
                old,
                key: name,
                value,
                original_value,
                value_focus,
                delete_available,
                delete_focus,
            }
        },
        Editing::Choice(i) => Editing::Choice(i),
    }
}

fn refocus(edit: Editing, value_focus: bool, delete_focus: bool) -> (r: Editing)
    requires
        edit.wf(),
    ensures
        r.wf(),
        r@ == focused(edit@, value_focus, delete_focus),
{
    match edit {
        Editing::Env { old, key, value, original_value, delete_available, .. } => Editing::Env {
            old,
            key,
            value,
            original_value,
            value_focus,
            delete_available,
            delete_focus,
        },
        other => other,
    }
}

/// The variables without `old` and with `key`.
fn rename(env: &EnvMap, old: &Option<String>, key: &str, value: &str) -> (r: EnvMap)
    ensures
        r@ == renamed(env@, opt_view(*old), key@, value@),
{
    let mut next = env.clone();
    match old {
        Some(o) => next.remove(o.as_str()),
        None => {},
    }
    next.insert(key.to_owned(), value.to_owned());
    next
}

/// The configuration with the edit in it, or why it cannot be put in.
fn try_edit(config: &ServiceConfig, edit: &Editing) -> (r: Result<ServiceConfig, String>)
    requires
        edit.wf(),
    ensures
        match r {
            Ok(c) => edit_result(config@, edit@) == Ok::<ConfigView, Seq<char>>(c@),
            Err(e) => edit_result(config@, edit@) == Err::<ConfigView, Seq<char>>(e@),
        },
{
    let mut next = config.clone();
    match edit {
        Editing::Text { field, input, .. } => {
            if *field == 0 {
                next.name = input.text.clone();
            } else if *field == 1 {
                next.command = input.text.clone();
            } else if *field == 2 {
                next.cwd = if input.text.as_str().is_empty() { None } else { Some(input.text.clone()) };
            } else if *field == 7 {
                match parse_number(input.text.as_str(), u64::MAX) {
                    Some(n) => {
                        next.log_max_bytes = n;
                    },
                    None => {
                        return Err(
                            "Enter a whole number of bytes (1 to 18446744073709551615).".to_owned(),
                        );
                    },
                }
            } else if *field == 8 {
                match parse_number(input.text.as_str(), u32::MAX as u64) {
                    Some(n) => {
                        next.log_max_files = n as u32;
                    },
                    None => {
                        return Err("Enter a whole number of files (1 to 4294967295).".to_owned());
                    },
                }
            }
            Ok(next)
        },
        Editing::Choice(i) => {
            next.restart = policies(*i);
            Ok(next)
        },
        Editing::Env { old, key, value, .. } => {
            let k = key.text.as_str();
            if k.is_empty() || has_char(k, '=') || has_char(k, '\0') || has_char(k, '\n') {
                return Err("Enter a nonempty key without '=', NUL or a newline.".to_owned());
            }
            let unchanged = match old {
                Some(o) => same(o.as_str(), k),
                None => false,
            };
            if !unchanged && config.env.contains_key(k) {
                return Err("This environment key already exists.".to_owned());
            }
            next.env = rename(&config.env, old, k, value.text.as_str());
            Ok(next)
        },
    }
}

impl Form {
    /// What every operation keeps: the page exists, and so does the field on it; what is typed is
    /// sound; the marked answer is one of at most three.
    pub open spec fn wf(&self) -> bool {
        &&& self.tab < 4
        &&& self.tab < 3 ==> self.selected < 3
        &&& self.confirm_selected < 3
        &&& self.editing is Some ==> self.editing->0.wf()
        &&& drafts_wf(self.drafts@)
    }

    pub fn open(config: &ServiceConfig) -> (r: Self)
        ensures
            r.wf(),
            r@ == opened(config@),
    {
        let r = Form {
            saved: config.clone(),
            config: config.clone(),
            tab: 0,
            selected: 0,
            editing: None,
            confirm: None,
            confirm_selected: 0,
            enhanced_keyboard: false,
            drafts: Vec::new(),
            help: false,
            error: None,
            reader_scroll: 0,
            inline_error: None,
            inline_error_acknowledged: false,
            undo: Vec::new(),
            redo: Vec::new(),
        };
        assert(r@ =~= opened(config@));
        r
    }

    /// Which of the nine fields is selected. Variables come behind them.
    pub fn field(&self) -> (r: usize)
        requires
            self.tab < 4,
        ensures
            r == (if field_of(self@) > usize::MAX { usize::MAX as int } else { field_of(self@) }),
    {
        (self.tab * 3).saturating_add(self.selected)
    }

    fn new_drafts(&self) -> (r: usize)
        ensures
            r == new_count(edit_views(self.drafts@)),
    {
        let mut n: usize = 0;
        let mut i: usize = 0;
        let ghost all = edit_views(self.drafts@);
        assert(all.take(0) =~= Seq::<EditView>::empty());
        while i < self.drafts.len()
            invariant
                i <= self.drafts@.len(),
                all == edit_views(self.drafts@),
                n <= i,
                n == new_count(all.take(i as int)),
            decreases self.drafts@.len() - i,
        {
            assert(all.take(i + 1).drop_last() =~= all.take(i as int));
            assert(all.take(i + 1).last() == self.drafts@[i as int]@);
            if is_new(&self.drafts[i]) {
                n += 1;
            }
            i += 1;
        }
        assert(all.take(all.len() as int) =~= all);
        n
    }

    /// How many rows the page has.
    pub fn count(&self) -> (r: usize)
        ensures
            r == count_of(self@),
            r >= 1,
    {
        if self.tab == 3 {
            let n = self.config.env.len().saturating_add(self.new_drafts());
            if n < 1 {
                1
            } else {
                n
            }
        } else {
            3
        }
    }

    pub fn env_key(&self) -> (r: Option<String>)
        ensures
            opt_view(r) == selected_key(self@),
    {
        if self.selected < self.config.env.len() {
            Some(self.config.env.key(self.selected).clone())
        } else {
            None
        }
    }

    pub fn dirty(&self) -> (r: bool)
        ensures
            r == is_dirty(self@),
    {
        if self.drafts.len() > 0 {
            return true;
        }
        if !self.config.same_as(&self.saved) {
            return true;
        }
        match &self.editing {
            None => false,
            Some(Editing::Text { input, original, .. }) => !same(
                input.text.as_str(),
                original.as_str(),
            ),
            Some(Editing::Choice(i)) => *i != policy_index(self.config.restart),
            Some(Editing::Env { old, key, value, original_value, .. }) => match old {
                None => !key.text.as_str().is_empty() || !value.text.as_str().is_empty(),
                Some(o) => !same(o.as_str(), key.text.as_str()) || !same(
                    value.text.as_str(),
                    original_value.as_str(),
                ),
            },
        }
    }

    pub fn disabled(&self, field: usize) -> (r: bool)
        ensures
            r == is_disabled(self.config@, field as int),
    {
        (field == 5 && !self.config.tty) || ((field == 7 || field == 8) && !self.config.persist_logs)
    }

    fn find_draft(&self, field: Option<usize>, old: Option<&str>) -> (r: Option<usize>)
        ensures
            ({
                let f = match field {
                    Some(n) => Some(n as int),
                    None => None,
                };
                let o = match old {
                    Some(s) => Some(s@),
                    None => None,
                };
                match r {
                    Some(i) => i < self.drafts@.len() && first_draft(
                        edit_views(self.drafts@),
                        f,
                        o,
                        0,
                    ) == Some(i as int) && draft_matches(self.drafts@[i as int]@, f, o),
                    None => first_draft(edit_views(self.drafts@), f, o, 0) is None,
                }
            }),
    {
        let ghost f = match field {
            Some(n) => Some(n as int),
            None => None,
        };
        let ghost o = match old {
            Some(s) => Some(s@),
            None => None,
        };
        let ghost all = edit_views(self.drafts@);
        let mut i: usize = 0;
        while i < self.drafts.len()
            invariant
                i <= self.drafts@.len(),
                all == edit_views(self.drafts@),
                f == (match field {
                    Some(n) => Some(n as int),
                    None => None,
                }),
                o == (match old {
                    Some(s) => Some(s@),
                    None => None,
                }),
                first_draft(all, f, o, 0) == first_draft(all, f, o, i as int),
            decreases self.drafts@.len() - i,
        {
            assert(all[i as int] == self.drafts@[i as int]@);
            let hit = match &self.drafts[i] {
                Editing::Text { field: g, .. } => match field {
                    Some(n) => n == *g,
                    None => false,
                },
                Editing::Env { old: name, .. } => field.is_none() && match (name, old) {
                    (Some(a), Some(b)) => same(a.as_str(), b),
                    (None, None) => true,
                    _ => false,
                },
                Editing::Choice(_) => false,
            };
            if hit {
                return Some(i);
            }
            i += 1;
        }
        None
    }

    /// What a field shows.
    pub fn value(&self, field: usize) -> (r: String)
        ensures
            r@ == value_of(self@, field as int),
    {
        match self.find_draft(Some(field), None) {
            Some(i) => {
                assert(edit_views(self.drafts@)[i as int] == self.drafts@[i as int]@);
                match &self.drafts[i] {
                    Editing::Text { input, .. } => {
                        return input.text.clone();
                    },
                    _ => {},
                }
            },
            None => {},
        }
        if field == 0 {
            self.config.name.clone()
        } else if field == 1 {
            self.config.command.clone()
        } else if field == 2 {
            match &self.config.cwd {
                Some(c) => c.clone(),
                None => {
                    let e = String::new();
                    assert(e@ =~= Seq::<char>::empty());
                    e
                },
            }
        } else if field == 3 {
            self.config.restart.as_str().to_owned()
        } else if field == 4 {
            bool_name(self.config.tty)
        } else if field == 5 {
            bool_name(self.config.sync_rows_cols)
        } else if field == 6 {
            bool_name(self.config.persist_logs)
        } else if field == 7 {
            decimal_text(self.config.log_max_bytes)
        } else if field == 8 {
            decimal_text(self.config.log_max_files as u64)
        } else {
            String::new()
        }
    }

    fn clamp(&mut self)
        requires
            old(self).wf(),
        ensures
            final(self).wf(),
            final(self)@ == clamped(old(self)@),
            final(self).editing == old(self).editing,
    {
        let last: usize = self.count() - 1;
        if self.selected > last {
            self.selected = last;
        }
    }

    fn change(&mut self, next: ServiceConfig)
        requires
            old(self).wf(),
        ensures
            final(self).wf(),
            final(self)@ == changed_to(old(self)@, next@),
            final(self).editing == old(self).editing,
            final(self).drafts == old(self).drafts,
    {
        if !next.same_as(&self.config) {
            let ghost before = config_views(self.undo@);
            let mut current = next;
            std::mem::swap(&mut current, &mut self.config);
            self.undo.push(current);
            assert(config_views(self.undo@) =~= before.push(old(self).config@));
            if self.undo.len() > CONFIG_HISTORY {
                let ghost full = self.undo@;
                self.undo.remove(0);
                assert(config_views(self.undo@) =~= config_views(full).skip(1));
            }
            self.redo = Vec::new();
            assert(config_views(self.redo@) =~= Seq::<ConfigView>::empty());
        }
        self.inline_error = None;
    }

    pub fn undo(&mut self, redo: bool)
        requires
            old(self).wf(),
        ensures
            final(self).wf(),
            final(self)@ == form_undone(old(self)@, redo),
    {
        let ghost before_undo = self.undo@;
        let ghost before_redo = self.redo@;
        let next = if redo {
            self.redo.pop()
        } else {
            self.undo.pop()
        };
        match next {
            None => {},
            Some(next) => {
                let mut current = next;
                std::mem::swap(&mut current, &mut self.config);
                if redo {
                    self.undo.push(current);
                    assert(config_views(self.undo@) =~= config_views(before_undo).push(old(self).config@));
                    assert(config_views(self.redo@) =~= config_views(before_redo).drop_last());
                } else {
                    self.redo.push(current);
                    assert(config_views(self.redo@) =~= config_views(before_redo).push(old(self).config@));
                    assert(config_views(self.undo@) =~= config_views(before_undo).drop_last());
                }
                self.inline_error = None;
                self.clamp();
            },
        }
    }

    pub fn toggle(&mut self, field: usize)
        requires
            old(self).wf(),
        ensures
            final(self).wf(),
            final(self)@ == toggled(old(self)@, field as int),
    {
        if self.disabled(field) {
            return;
        }
        let mut config = self.config.clone();
        if field == 4 {
            config.tty = !config.tty;
        } else if field == 5 {
            config.sync_rows_cols = !config.sync_rows_cols;
        } else if field == 6 {
            config.persist_logs = !config.persist_logs;
        } else {
            return;
        }
        self.change(config);
    }

    fn set_inline_error(&mut self, error: String)
        requires
            old(self).wf(),
        ensures
            final(self).wf(),
            final(self)@ == with_inline_error(old(self)@, error@),
    {
        self.inline_error = Some(error);
        self.inline_error_acknowledged = false;
    }

    /// Ends the edit where it can be put into the configuration.
    pub fn apply(&mut self) -> (r: bool)
        requires
            old(self).wf(),
        ensures
            final(self).wf(),
            (final(self)@, r) == applied(old(self)@),
    {
        let mut taken: Option<Editing> = None;
        std::mem::swap(&mut taken, &mut self.editing);
        match taken {
            None => true,
            Some(edit) => match try_edit(&self.config, &edit) {
                Ok(next) => {
                    self.change(next);
                    self.clamp();
                    true
                },
                Err(message) => {
                    let edit = refocus(edit, false, false);
                    self.editing = Some(edit);
                    self.set_inline_error(message);
                    false
                },
            },
        }
    }

    fn leave_input(&mut self)
        requires
            old(self).wf(),
        ensures
            final(self).wf(),
            final(self)@ == left_input(old(self)@),
    {
        let empty = match &self.editing {
            Some(Editing::Env { old, key, value, .. }) => old.is_none() && key.text.as_str().is_empty()
                && value.text.as_str().is_empty(),
            _ => false,
        };
        if empty {
            self.editing = None;
            self.clamp();
            return;
        }
        if !self.apply() {
            let mut taken: Option<Editing> = None;
            std::mem::swap(&mut taken, &mut self.editing);
            match taken {
                None => {},
                Some(edit) => {
                    let ghost before = self.drafts@;
                    self.drafts.push(edit);
                    assert(edit_views(self.drafts@) =~= edit_views(before).push(edit@));
                    assert(drafts_wf(self.drafts@)) by {
                        assert forall|i: int| 0 <= i < self.drafts@.len() implies (#[trigger] self.drafts@[i]).wf() by {
                            if i < before.len() {
                                assert(before[i].wf());
                            }
                        }
                    }
                },
            }
        }
    }

    fn move_focus(&mut self, backwards: bool)
        requires
            old(self).wf(),
        ensures
            final(self).wf(),
            final(self)@ == focus_moved(old(self)@, backwards),
    {
        let count = self.count();
        let here: usize = self.selected % count;
        proof {
            lemma_wrap(self.selected as int, count as int);
        }
        self.selected = if backwards {
            if here == 0 { count - 1 } else { here - 1 }
        } else {
            if here == count - 1 { 0 } else { here + 1 }
        };
    }

    fn ask(&mut self, confirm: Confirm)
        requires
            old(self).wf(),
        ensures
            final(self).wf(),
            final(self)@ == asked(old(self)@, confirm@),
    {
        self.reader_scroll = 0;
        self.confirm = Some(confirm);
        self.confirm_selected = 0;
    }

    /// The draft `i` becomes the edit.
    fn resume(&mut self, i: usize)
        requires
            old(self).wf(),
            i < old(self).drafts@.len(),
        ensures
            final(self).wf(),
            final(self)@ == resumed(old(self)@, i as int),
            final(self).editing is Some,
    {
        let ghost before = self.drafts@;
        let edit = self.drafts.remove(i);
        assert(edit_views(self.drafts@) =~= edit_views(before).remove(i as int));
        assert(drafts_wf(self.drafts@)) by {
            assert forall|j: int| 0 <= j < self.drafts@.len() implies (#[trigger] self.drafts@[j]).wf() by {
                let k = if j < i { j } else { j + 1 };
                assert(before[k].wf());
            }
        }
        assert(edit == before[i as int]);
        self.editing = Some(edit);
    }

    fn begin(&mut self)
        requires
            old(self).wf(),
        ensures
            final(self).wf(),
            final(self)@ == begun(old(self)@),
    {
        self.inline_error = None;
        if self.tab == 3 {
            self.begin_env(false);
            return;
        }
        let field = self.field();
        match self.find_draft(Some(field), None) {
            Some(i) => {
                self.resume(i);
                return;
            },
            None => {},
        }
        if self.disabled(field) {
            return;
        }
        if field == 3 {
            self.editing = Some(Editing::Choice(policy_index(self.config.restart)));
        } else if 4 <= field && field <= 6 {
            self.toggle(field);
        } else {
            let original = self.value(field);
            let mut input = Buffer::new(original.clone());
            input.end(true);
            self.editing = Some(Editing::Text { field, input, original });
        }
    }

    fn begin_env(&mut self, new: bool)
        requires
            old(self).wf(),
        ensures
            final(self).wf(),
            final(self)@ == begun_env(old(self)@, new),
    {
        let old = if new { None } else { self.env_key() };
        let found = match &old {
            Some(o) => self.find_draft(None, Some(o.as_str())),
            None => self.find_draft(None, None),
        };
        match found {
            Some(i) => {
                self.resume(i);
                let mut taken: Option<Editing> = None;
                std::mem::swap(&mut taken, &mut self.editing);
                match taken {
                    Some(Editing::Env { old, key, value, original_value, value_focus, .. }) => {
                        self.editing = Some(
                            Editing::Env {
                                old,
                                key,
                                value,
                                original_value,
                                value_focus,
                                delete_available: true,
                                delete_focus: false,
                            },
                        );
                    },
                    Some(other) => {
                        self.editing = Some(other);
                    },
                    None => {},
                }
                return;
            },
            None => {},
        }
        let mut name = String::new();
        let mut original_value = String::new();
        assert(name@ =~= Seq::<char>::empty());
        match &old {
            Some(o) => {
                name = o.clone();
                match self.config.env.get(o.as_str()) {
                    Some(v) => {
                        original_value = v.clone();
                    },
                    None => {},
                }
                let known = self.config.env.contains_key(o.as_str());
                assert(original_value@ == env_value(self.config@.env, o@));
            },
            None => {},
        }
        let delete_available = old.is_some();
        self.editing = Some(
            Editing::Env {
                old,
                key: Buffer::new(name),
                value: Buffer::new(original_value.clone()),
                original_value,
                value_focus: false,
                delete_available,
                delete_focus: false,
            },
        );
        self.inline_error = None;
    }

    fn show(&mut self, edit: &Editing)
        requires
            old(self).wf(),
            edit.wf(),
        ensures
            final(self).wf(),
            final(self)@ == shown_at(old(self)@, edit@),
            final(self).drafts == old(self).drafts,
    {
        match edit {
            Editing::Text { field, .. } => {
                self.tab = *field / 3;
                self.selected = *field % 3;
            },
            Editing::Env { old, .. } => {
                self.tab = 3;
                self.selected = self.config.env.len();
                match old {
                    Some(o) => match self.config.env.position(o.as_str()) {
                        Some(i) => {
                            let k = self.config.env.key(i);
                            proof {
                                lemma_key_place(self.config.env@, o@, i as int);
                            }
                            self.selected = i;
                        },
                        None => {},
                    },
                    None => {},
                }
            },
            Editing::Choice(_) => {},
        }
    }

    fn flush(&mut self) -> (r: bool)
        requires
            old(self).wf(),
        ensures
            final(self).wf(),
            (final(self)@, r) == flushed(old(self)@),
    {
        let ghost start = self@;
        while self.drafts.len() > 0
            invariant
                self.wf(),
                flushed(start) == flushed(self@),
                start == old(self)@,
            decreases self.drafts@.len(),
        {
            let ghost before = self.drafts@;
            let ghost f = self@;
            let edit = self.drafts.remove(0);
            assert(edit_views(self.drafts@) =~= edit_views(before).remove(0));
            assert(drafts_wf(self.drafts@)) by {
                assert forall|j: int| 0 <= j < self.drafts@.len() implies (#[trigger] self.drafts@[j]).wf() by {
                    assert(before[j + 1].wf());
                }
            }
            assert(edit == before[0]);
            self.show(&edit);
            self.editing = Some(edit);
            let ghost g = self@;
            assert(applied(g).0.drafts == g.drafts);
            if !self.apply() {
                return false;
            }
        }
        true
    }

    /// Goes to what is wrong with the configuration, if anything is.
    pub fn validate(&mut self) -> (r: bool)
        requires
            old(self).wf(),
        ensures
            final(self).wf(),
            (final(self)@, r) == validated(old(self)@),
    {
        if !is_valid_name(self.config.name.as_str()) {
            self.tab = 0;
            self.selected = 0;
            self.set_inline_error("Use letters, digits, '.', '_' or '-' for the name.".to_owned());
            return false;
        }
        if is_blank(self.config.command.as_str()) {
            self.tab = 0;
            self.selected = 1;
            self.set_inline_error("Command must not be empty.".to_owned());
            return false;
        }
        if self.config.log_max_bytes == 0 {
            self.tab = 2;
            self.selected = 1;
            self.set_inline_error("Max bytes must be greater than zero.".to_owned());
            return false;
        }
        if self.config.log_max_files == 0 {
            self.tab = 2;
            self.selected = 2;
            self.set_inline_error("Retained files must be greater than zero.".to_owned());
            return false;
        }
        match self.config.validate() {
            Ok(()) => {
                proof {
                    lemma_no_bad_key(self.config.env@, 0);
                }
                true
            },
            Err(error) => {
                proof {
                    if error is InvalidEnvKey {
                        lemma_bad_key(self.config.env@, error->InvalidEnvKey_0@);
                    }
                }
                let message = error.message();
                self.tab = 3;
                self.selected = 0;
                self.set_inline_error(message);
                false
            },
        }
    }

    /// Makes the configuration ready to be written.
    pub fn save(&mut self) -> (r: bool)
        requires
            old(self).wf(),
        ensures
            final(self).wf(),
            (final(self)@, r) == save_ready(old(self)@),
    {
        if !self.apply() {
            return false;
        }
        if !self.flush() {
            return false;
        }
        self.validate()
    }

    /// Notes how writing the configuration went.
    pub fn save_finished(&mut self, result: Result<(), String>) -> (r: bool)
        requires
            old(self).wf(),
        ensures
            final(self).wf(),
            r == result is Ok,
            match result {
                Ok(()) => final(self)@ == (FormView { saved: old(self)@.config, ..old(self)@ }),
                Err(e) => final(self)@ == (FormView {
                    error: Some(e@),
                    reader_scroll: 0,
                    ..old(self)@
                }),
            },
    {
        match result {
            Ok(()) => {
                self.saved = self.config.clone();
                true
            },
            Err(e) => {
                self.error = Some(e);
                self.reader_scroll = 0;
                false
            },
        }
    }

    /// Starts over with a configuration that was read anew, or shows why it could not be.
    pub fn reload(&mut self, result: Result<ServiceConfig, String>)
        requires
            old(self).wf(),
        ensures
            final(self).wf(),
            match result {
                Ok(c) => final(self)@ == (FormView { enhanced: old(self)@.enhanced, ..opened(c@) }),
                Err(e) => final(self)@ == (FormView {
                    error: Some(e@),
                    reader_scroll: 0,
                    ..old(self)@
                }),
            },
    {
        match result {
            Ok(config) => {
                let enhanced = self.enhanced_keyboard;
                let mut next = Form::open(&config);
                next.enhanced_keyboard = enhanced;
                *self = next;
            },
            Err(e) => {
                self.error = Some(e);
                self.reader_scroll = 0;
            },
        }
    }

    pub fn paste(&mut self, text: &str)
        requires
            old(self).wf(),
        ensures
            final(self).wf(),
            final(self)@ == pasted(old(self)@, text@),
    {
        if self.confirm.is_some() || self.help || self.error.is_some() {
            return;
        }
        let mut taken: Option<Editing> = None;
        std::mem::swap(&mut taken, &mut self.editing);
        match taken {
            None => {},
            Some(edit) => {
                let mut plan: Option<String> = None;
                match input_for(&edit) {
                    None => {},
                    Some((input, multiline)) => {
                        if fits(input.text.as_str(), text, PASTE_LIMIT) {
                            plan = Some(if multiline { text.to_owned() } else { flattened(text) });
                        }
                    },
                }
                match plan {
                    Some(t) => {
                        self.editing = Some(insert_into(edit, t.as_str()));
                    },
                    None => {
                        self.editing = Some(edit);
                    },
                }
            },
        }
    }

    fn save_key(&mut self, exit: bool) -> (r: Outcome)
        requires
            old(self).wf(),
        ensures
            final(self).wf(),
            (final(self)@, r) == save_step(old(self)@, exit),
    {
        if self.save() {
            Outcome::Save { exit }
        } else {
            Outcome::Stay
        }
    }

    fn read_key(&mut self, key: KeyEvent, rows: usize)
        requires
            old(self).wf(),
        ensures
            final(self).wf(),
            final(self)@ == reader_key(old(self)@, key, rows),
    {
        let none = is_plain(key);
        let leave = none && match key.code {
            KeyCode::Esc | KeyCode::Enter => true,
            _ => false,
        };
        if exits(key) || self.asks_help(key) || leave {
            self.help = false;
            self.error = None;
        } else if none {
            scroll_key(&mut self.reader_scroll, key.code, rows);
        }
    }

    fn asks_help(&self, key: KeyEvent) -> (r: bool)
        ensures
            r == help_key(self@, key),
    {
        let mark = match key.code {
            KeyCode::Char('?') | KeyCode::Char('？') => true,
            _ => false,
        };
        let function = match key.code {
            KeyCode::F(n) => n == 1,
            _ => false,
        };
        (is_plain(key) && function) || (self.editing.is_none() && mark
            && !key.modifiers.control && !key.modifiers.alt && !key.modifiers.logo)
    }

    fn answer(&mut self, confirm: Confirm) -> (r: Outcome)
        requires
            old(self).wf(),
        ensures
            final(self).wf(),
            (final(self)@, r) == answered(old(self)@, confirm@),
    {
        self.confirm = None;
        if self.confirm_selected == 0 {
            return Outcome::Stay;
        }
        match confirm {
            Confirm::Exit => {
                if self.confirm_selected == 1 {
                    self.save_key(true)
                } else if self.confirm_selected == 2 {
                    Outcome::Exit
                } else {
                    Outcome::Stay
                }
            },
            Confirm::Reload => Outcome::Reload,
            Confirm::DeleteNew => {
                self.editing = None;
                self.inline_error = None;
                retain_drafts(&mut self.drafts, None);
                self.clamp();
                Outcome::Stay
            },
            Confirm::Delete(name) => {
                self.editing = None;
                let mut next = self.config.clone();
                next.env.remove(name.as_str());
                retain_drafts(&mut self.drafts, Some(name.as_str()));
                self.change(next);
                self.clamp();
                Outcome::Stay
            },
        }
    }

    fn confirm_with(&mut self, confirm: Confirm, key: KeyEvent, rows: usize) -> (r: Outcome)
        requires
            old(self).wf(),
            old(self).confirm is None,
        ensures
            final(self).wf(),
            (final(self)@, r) == confirm_key(
                (FormView { confirm: Some(confirm@), ..old(self)@ }),
                confirm@,
                key,
                rows,
            ),
    {
        match key.kind {
            KeyEventKind::Repeat => {
                self.confirm = Some(confirm);
                return Outcome::Stay;
            },
            _ => {},
        }
        let none = is_plain(key);
        let esc = match key.code {
            KeyCode::Esc => true,
            _ => false,
        };
        if exits(key) || (none && esc) {
            return Outcome::Stay;
        }
        let count: usize = match confirm {
            Confirm::Exit => 3,
            _ => 2,
        };
        let here = self.confirm_selected;
        if none {
            match key.code {
                KeyCode::PageUp | KeyCode::PageDown | KeyCode::Home | KeyCode::End => {
                    scroll_key(&mut self.reader_scroll, key.code, rows);
                },
                KeyCode::Up | KeyCode::Left => {
                    self.confirm_selected = (here + count - 1) % count;
                },
                KeyCode::Down | KeyCode::Right => {
                    self.confirm_selected = (here + 1) % count;
                },
                KeyCode::Enter => {
                    let ghost before = FormView { confirm: Some(confirm@), ..self@ };
                    let r = self.answer(confirm);
                    return r;
                },
                _ => {},
            }
        }
        self.confirm = Some(confirm);
        Outcome::Stay
    }

    fn edit_with(&mut self, edit: Editing, key: KeyEvent)
        requires
            old(self).wf(),
            old(self).editing is None,
            edit.wf(),
        ensures
            final(self).wf(),
            final(self)@ == editing_key(edits(old(self)@, edit@), edit@, key),
    {
        let ghost f = edits(self@, edit@);
        let none = is_plain(key);
        let control = is_ctrl(key);
        let shifted = key.modifiers.shift && !key.modifiers.control && !key.modifiers.alt
            && !key.modifiers.logo && !key.modifiers.other;
        let newline = match key.code {
            KeyCode::Enter => shifted,
            KeyCode::Char('j') => control,
            _ => false,
        };
        assert(newline == newline_key(key));
        if newline {
            let several = match input_for(&edit) {
                Some((_, multiline)) => multiline,
                None => false,
            };
            if several {
                proof {
                    reveal_strlit("\n");
                    assert("\n"@ =~= seq!['\n']);
                }
                self.editing = Some(insert_into(edit, "\n"));
            } else {
                self.editing = Some(edit);
            }
            return;
        }
        let on_delete = match &edit {
            Editing::Env { delete_focus, .. } => *delete_focus,
            _ => false,
        };
        if none {
            match key.code {
                KeyCode::Esc => {
                    self.editing = Some(edit);
                    self.leave_input();
                    return;
                },
                _ => {},
            }
        }
        if on_delete {
            self.delete_key(edit, key, none);
            return;
        }
        if none {
            match key.code {
                KeyCode::Enter => {
                    let name_focus = match &edit {
                        Editing::Env { value_focus, .. } => !*value_focus,
                        _ => false,
                    };
                    if name_focus {
                        self.editing = Some(refocus(edit, true, false));
                    } else {
                        self.editing = Some(edit);
                        self.leave_input();
                    }
                    return;
                },
                _ => {},
            }
        }
        match next_focus(&edit, key) {
            Some((value_focus, delete_focus)) => {
                self.editing = Some(refocus(edit, value_focus, delete_focus));
                return;
            },
            None => {},
        }
        match edit {
            Editing::Choice(i) => {
                let mut next = i;
                if none {
                    match key.code {
                        KeyCode::Up | KeyCode::Left => {
                            next = (i + 2) % 3;
                        },
                        KeyCode::Down | KeyCode::Right => {
                            next = (i + 1) % 3;
                        },
                        _ => {},
                    }
                }
                self.editing = Some(Editing::Choice(next));
            },
            other => {
                self.editing = Some(type_into(other, key));
            },
        }
    }

    fn delete_key(&mut self, edit: Editing, key: KeyEvent, none: bool)
        requires
            old(self).wf(),
            old(self).editing is None,
            edit.wf(),
            edit is Env && edit->Env_delete_focus,
            none == plain(key),
            !newline_key(key),
            !(none && key.code is Esc),
        ensures
            final(self).wf(),
            final(self)@ == editing_key(edits(old(self)@, edit@), edit@, key),
    {
        if none {
            match key.code {
                KeyCode::Enter => {
                    let confirm = match &edit {
                        Editing::Env { old: Some(name), .. } => Confirm::Delete(name.clone()),
                        _ => Confirm::DeleteNew,
                    };
                    self.editing = Some(edit);
                    self.ask(confirm);
                    return;
                },
                KeyCode::Up => {
                    self.editing = Some(refocus(edit, true, false));
                    return;
                },
                _ => {},
            }
        }
        self.editing = Some(edit);
    }

    fn browse(&mut self, key: KeyEvent)
        requires
            old(self).wf(),
            old(self).editing is None,
        ensures
            final(self).wf(),
            final(self)@ == browse_key(old(self)@, key),
    {
        if is_ctrl(key) {
            match key.code {
                KeyCode::Char('z') => self.undo(false),
                KeyCode::Char('y') => self.undo(true),
                _ => {},
            }
            return;
        }
        if !is_plain(key) {
            return;
        }
        match key.code {
            KeyCode::Left => {
                self.tab = (self.tab + 3) % 4;
                self.selected = 0;
                self.inline_error = None;
            },
            KeyCode::Right => {
                self.tab = (self.tab + 1) % 4;
                self.selected = 0;
                self.inline_error = None;
            },
            KeyCode::Up => self.move_focus(true),
            KeyCode::Down => self.move_focus(false),
            KeyCode::Enter => self.begin(),
            KeyCode::Char(' ') => {
                if self.tab < 3 && self.selected < self.count() {
                    let field = self.field();
                    self.toggle(field);
                }
            },
            KeyCode::Char('a') => {
                if self.tab == 3 {
                    self.selected = self.config.env.len();
                    self.begin_env(true);
                }
            },
            _ => {},
        }
    }

    /// What a key does, and what is left to do outside the form.
    #[verifier::rlimit(80)]
    #[verifier::spinoff_prover]
    pub fn key(&mut self, key: KeyEvent, rows: usize) -> (r: Outcome)
        requires
            old(self).wf(),
        ensures
            final(self).wf(),
            (final(self)@, r) == key_step(old(self)@, key, rows),
    {
        match key.kind {
            KeyEventKind::Release => {
                return Outcome::Stay;
            },
            _ => {},
        }
        match key.code {
            KeyCode::Tab | KeyCode::BackTab => {
                return Outcome::Stay;
            },
            _ => {},
        }
        if self.help || self.error.is_some() {
            self.read_key(key, rows);
            return Outcome::Stay;
        }
        let mut question: Option<Confirm> = None;
        std::mem::swap(&mut question, &mut self.confirm);
        match question {
            Some(confirm) => {
                let r = self.confirm_with(confirm, key, rows);
                return r;
            },
            None => {},
        }
        let none = is_plain(key);
        let control = is_ctrl(key);
        let esc = match key.code {
            KeyCode::Esc => true,
            _ => false,
        };
        if exits(key) || (none && esc && self.editing.is_none()) {
            if self.dirty() {
                self.ask(Confirm::Exit);
                return Outcome::Stay;
            }
            return Outcome::Exit;
        }
        if self.asks_help(key) {
            self.help = true;
            self.reader_scroll = 0;
            return Outcome::Stay;
        }
        if control {
            match key.code {
                KeyCode::Char('s') => {
                    if self.editing.is_none() {
                        return self.save_key(false);
                    }
                    return Outcome::Stay;
                },
                KeyCode::Char('r') => {
                    if self.dirty() {
                        self.ask(Confirm::Reload);
                        return Outcome::Stay;
                    }
                    return Outcome::Reload;
                },
                _ => {},
            }
        }
        let mut taken: Option<Editing> = None;
        std::mem::swap(&mut taken, &mut self.editing);
        match taken {
            Some(edit) => {
                self.edit_with(edit, key);
            },
            None => {
                self.browse(key);
            },
        }
        Outcome::Stay
    }

    /// The variables as they are shown, with what was typed but could not be put in yet.
    pub fn env_rows(&self) -> (r: Vec<(String, String)>)
        ensures
            row_views(r@) == shown_rows(self.config@.env, edit_views(self.drafts@)),
    {
        let mut rows: Vec<(String, String)> = Vec::new();
        let mut i: usize = 0;
        let ghost env = self.config@.env;
        while i < self.config.env.len()
            invariant
                i <= env.len(),
                env == self.config.env@,
                row_views(rows@) == env.take(i as int),
            decreases env.len() - i,
        {
            let ghost before = row_views(rows@);
            rows.push((self.config.env.key(i).clone(), self.config.env.value(i).clone()));
            assert(row_views(rows@) =~= before.push(env[i as int]));
            assert(env.take(i + 1) =~= env.take(i as int).push(env[i as int]));
            i += 1;
        }
        assert(env.take(env.len() as int) =~= env);
        let ghost all = edit_views(self.drafts@);
        let mut k: usize = 0;
        assert(all.take(0) =~= Seq::<EditView>::empty());
        while k < self.drafts.len()
            invariant
                k <= self.drafts@.len(),
                all == edit_views(self.drafts@),
                env == self.config.env@,
                rows@.len() >= env.len(),
                row_views(rows@) == shown_rows(env, all.take(k as int)),
            decreases self.drafts@.len() - k,
        {
            let ghost before = row_views(rows@);
            assert(all.take(k + 1).drop_last() =~= all.take(k as int));
            assert(all.take(k + 1).last() == self.drafts@[k as int]@);
            match &self.drafts[k] {
                Editing::Env { old, key, value, .. } => match old {
                    Some(o) => match self.config.env.position(o.as_str()) {
                        Some(at) => {
                            let name = self.config.env.key(at);
                            proof {
                                lemma_key_place(env, o@, at as int);
                            }
                            rows.set(at, (key.text.clone(), value.text.clone()));
                            assert(row_views(rows@) =~= before.update(at as int, (key.text@, value.text@)));
                        },
                        None => {},
                    },
                    None => {
                        let name = if key.text.as_str().is_empty() {
                            "(new variable)".to_owned()
                        } else {
                            key.text.clone()
                        };
                        rows.push((name, value.text.clone()));
                        assert(row_views(rows@) =~= before.push((name@, value.text@)));
                    },
                },
                _ => {},
            }
            k += 1;
        }
        assert(all.take(all.len() as int) =~= all);
        rows
    }
}

pub open spec fn row_views(s: Seq<(String, String)>) -> Seq<PairView> {
    Seq::new(s.len(), |i: int| (s[i].0@, s[i].1@))
}

/// The variables with the drafts over them, new ones behind.
pub open spec fn shown_rows(env: Seq<PairView>, drafts: Seq<EditView>) -> Seq<PairView>
    decreases drafts.len(),
{
    if drafts.len() == 0 {
        env
    } else {
        let front = shown_rows(env, drafts.drop_last());
        match drafts.last() {
            EditView::Env { old, key, value, .. } => match old {
                Some(o) => if has_key(env, o) {
                    front.update(key_place(env, o), (key.text, value.text))
                } else {
                    front
                },
                None => front.push(
                    (
                        if key.text.len() == 0 { "(new variable)"@ } else { key.text },
                        value.text,
                    ),
                ),
            },
            _ => front,
        }
    }
}

/// Where an arrow leaves the part of a variable that it is in.
fn next_focus(edit: &Editing, key: KeyEvent) -> (r: Option<(bool, bool)>)
    requires
        edit.wf(),
    ensures
        match r {
            Some(p) => env_focus(edit@, key) == Some(focused(edit@, p.0, p.1)),
            None => env_focus(edit@, key) is None,
        },
{
    if !is_plain(key) {
        return None;
    }
    match edit {
        Editing::Env { value, value_focus, delete_available, .. } => match key.code {
            KeyCode::Down => {
                if *value_focus && *delete_available {
                    let layout = value.layout();
                    proof {
                        assert(layout.lines@.len() == rows(value@.text, value@.width).len());
                    }
                    if layout.row == layout.lines.len() - 1 {
                        return Some((*value_focus, true));
                    }
                }
                if !*value_focus {
                    return Some((true, false));
                }
                None
            },
            KeyCode::Up => {
                if *value_focus {
                    let layout = value.layout();
                    if layout.row == 0 {
                        return Some((false, false));
                    }
                }
                None
            },
            _ => None,
        },
        _ => None,
    }
}

fn is_new(e: &Editing) -> (r: bool)
    ensures
        r == is_new_env(e@),
{
    match e {
        Editing::Env { old, .. } => old.is_none(),
        _ => false,
    }
}

/// Drops the drafts of one variable: of the one of that name, or of new ones.
fn retain_drafts(drafts: &mut Vec<Editing>, name: Option<&str>)
    requires
        drafts_wf(old(drafts)@),
    ensures
        drafts_wf(final(drafts)@),
        match name {
            Some(n) => edit_views(final(drafts)@) == without_env(edit_views(old(drafts)@), n@),
            None => edit_views(final(drafts)@) == without_new(edit_views(old(drafts)@)),
        },
{
    let ghost all = edit_views(drafts@);
    let ghost keep = match name {
        Some(n) => (|e: EditView| !is_env_of(e, n@)),
        None => (|e: EditView| !is_new_env(e)),
    };
    let mut out: Vec<Editing> = Vec::new();
    let mut rest: Vec<Editing> = Vec::new();
    std::mem::swap(drafts, &mut rest);
    proof {
        lemma_filter_front(all, keep);
        assert(edit_views(out@) + all.filter(keep) =~= all.filter(keep));
    }
    while rest.len() > 0
        invariant
            drafts_wf(rest@),
            drafts_wf(out@),
            keep == (match name {
                Some(n) => (|e: EditView| !is_env_of(e, n@)),
                None => (|e: EditView| !is_new_env(e)),
            }),
            edit_views(out@) + edit_views(rest@).filter(keep) == all.filter(keep),
        decreases rest@.len(),
    {
        let ghost before = rest@;
        let ghost front = edit_views(out@);
        let ghost out_before = out@;
        let edit = rest.remove(0);
        proof {
            lemma_filter_front(edit_views(before), keep);
            assert(edit_views(rest@) =~= edit_views(before).skip(1));
            assert(edit_views(before)[0] == edit@);
            assert(edit.wf());
            assert forall|j: int| 0 <= j < rest@.len() implies (#[trigger] rest@[j]).wf() by {
                assert(before[j + 1].wf());
            }
        }
        let kept = match name {
            Some(n) => match &edit {
                Editing::Env { old: Some(o), .. } => !same(o.as_str(), n),
                _ => true,
            },
            None => !is_new(&edit),
        };
        assert(kept == keep(edit@));
        if kept {
            out.push(edit);
            proof {
                assert(edit_views(out@) =~= front.push(edit@));
                assert(edit_views(out@) + edit_views(rest@).filter(keep) =~= front + (seq![edit@]
                    + edit_views(rest@).filter(keep)));
                assert forall|j: int| 0 <= j < out@.len() implies (#[trigger] out@[j]).wf() by {
                    if j < out_before.len() {
                        assert(out_before[j].wf());
                    }
                }
            }
        }
    }
    proof {
        lemma_filter_front(edit_views(rest@), keep);
        assert(edit_views(rest@) =~= Seq::<EditView>::empty());
        assert(edit_views(out@) =~= all.filter(keep));
    }
    *drafts = out;
}

proof fn lemma_filter_front(s: Seq<EditView>, p: spec_fn(EditView) -> bool)
    ensures
        s.len() == 0 ==> s.filter(p) == Seq::<EditView>::empty(),
        s.len() > 0 ==> s.filter(p) == (if p(s[0]) {
            seq![s[0]] + s.skip(1).filter(p)
        } else {
            s.skip(1).filter(p)
        }),
    decreases s.len(),
{
    reveal(Seq::filter);
    if s.len() == 1 {
        assert(s.skip(1) =~= Seq::<EditView>::empty());
        assert(s.drop_last() =~= Seq::<EditView>::empty());
        assert(s.drop_last().filter(p) =~= Seq::<EditView>::empty());
        assert(s.filter(p) =~= (if p(s[0]) {
            seq![s[0]] + s.skip(1).filter(p)
        } else {
            s.skip(1).filter(p)
        }));
    } else if s.len() > 1 {
        lemma_filter_front(s.drop_last(), p);
        assert(s.drop_last().skip(1) =~= s.skip(1).drop_last());
        assert(s.skip(1).last() == s.last());
        assert(s.filter(p) =~= (if p(s[0]) {
            seq![s[0]] + s.skip(1).filter(p)
        } else {
            s.skip(1).filter(p)
        }));
    }
}

proof fn lemma_wrap(x: int, n: int)
    requires
        0 <= x,
        0 < n,
    ensures
        (x + 1) % n == (if x % n == n - 1 { 0 } else { x % n + 1 }),
        (x + (n - 1)) % n == (if x % n == 0 { n - 1 } else { x % n - 1 }),
        0 <= x % n < n,
{
    let q = x / n;
    let r = x % n;
    vstd::arithmetic::div_mod::lemma_fundamental_div_mod(x, n);
    vstd::arithmetic::div_mod::lemma_mod_bound(x, n);
    if r == n - 1 {
        assert(x + 1 == n * (q + 1) + 0) by (nonlinear_arith)
            requires
                x == n * q + r,
                r == n - 1,
        ;
        vstd::arithmetic::div_mod::lemma_fundamental_div_mod_converse(x + 1, n, q + 1, 0);
    } else {
        assert(x + 1 == n * q + (r + 1));
        vstd::arithmetic::div_mod::lemma_fundamental_div_mod_converse(x + 1, n, q, r + 1);
    }
    if r == 0 {
        assert(x + (n - 1) == n * q + (n - 1));
        vstd::arithmetic::div_mod::lemma_fundamental_div_mod_converse(x + (n - 1), n, q, n - 1);
    } else {
        assert(x + (n - 1) == (q + 1) * n + (r - 1)) by (nonlinear_arith)
            requires
                x == n * q + r,
        ;
        vstd::arithmetic::div_mod::lemma_fundamental_div_mod_converse(x + (n - 1), n, q + 1, r - 1);
    }
}

proof fn lemma_key_place(env: Seq<PairView>, key: Seq<char>, i: int)
    requires
        key_sorted(env),
        0 <= i < env.len(),
        env[i].0 == key,
    ensures
        has_key(env, key),
        key_place(env, key) == i,
{
    let j = key_place(env, key);
    assert(env[i].0 == key);
    assert(0 <= j < env.len() && env[j].0 == key);
    crate::text::lemma_text_lt_irreflexive(key);
    if i < j {
        assert(crate::text::text_lt(env[i].0, env[j].0));
    } else if j < i {
        assert(crate::text::text_lt(env[j].0, env[i].0));
    }
}

proof fn lemma_no_bad_key(env: Seq<PairView>, i: int)
    requires
        valid_keys(env),
        0 <= i <= env.len(),
    ensures
        bad_key(env, i) is None,
    decreases env.len() - i,
{
    if i < env.len() {
        assert(valid_env_key(env[i].0));
        lemma_no_bad_key(env, i + 1);
    }
}

proof fn lemma_bad_key(env: Seq<PairView>, key: Seq<char>)
    requires
        first_invalid_key(env, key),
    ensures
        bad_key(env, 0) == Some(key),
{
    let i = choose|i: int|
        {
            &&& 0 <= i < env.len()
            &&& (#[trigger] env[i]).0 == key
            &&& !valid_env_key(key)
            &&& valid_keys(env.take(i))
        };
    lemma_bad_key_at(env, key, i, 0);
}

proof fn lemma_bad_key_at(env: Seq<PairView>, key: Seq<char>, i: int, from: int)
    requires
        0 <= from <= i < env.len(),
        env[i].0 == key,
        !valid_env_key(key),
        valid_keys(env.take(i)),
    ensures
        bad_key(env, from) == Some(key),
    decreases i - from,
{
    if from < i {
        assert(valid_env_key(env.take(i)[from].0));
        lemma_bad_key_at(env, key, i, from + 1);
    }
}

} // verus!
