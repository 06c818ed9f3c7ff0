//! What the form makes of what is typed into it: what changes, and what does not.
use crate::config::{valid_config, valid_env_key, valid_name, ConfigView};
use crate::env::{canonical, has_key, key_sorted, lemma_pairs_map, pairs_map, PairView};
use crate::form::input::{backspaced, deleted, inserted, BufferView};
use crate::form::state::{
    answered, applied, bad_key, begun, browse_key, config_value, count_of, edit_result, editing_key, field_of, first_draft, flushed, is_dirty, is_disabled,
    key_step, left_input, newline_key, opened, pasted, policy_place, save_step, toggled, typed, validated, value_of, ConfirmView, EditView,
    FormView, Outcome,
};
use crate::text::{blank, lemma_decimal_reads_back, parsed_number, text_lt};
use crate::tui::keys::{no_modifiers, KeyCode, KeyEvent};
use vstd::prelude::*;

verus! {

// ---------------------------------------------------------------------------------------------
// Variables, in the order of their names

proof fn lemma_pushed(s: Seq<PairView>, p: PairView)
    ensures
        pairs_map(s.push(p)) == pairs_map(s).insert(p.0, p.1),
{
    assert(s.push(p).drop_last() =~= s);
    assert(s.push(p).last() == p);
}

proof fn lemma_sorted_insert(s: Seq<PairView>, k: Seq<char>, v: Seq<char>) -> (r: Seq<PairView>)
    requires
        key_sorted(s),
    ensures
        key_sorted(r),
        pairs_map(r) == pairs_map(s).insert(k, v),
    decreases s.len(),
{
    if s.len() == 0 {
        lemma_pushed(s, (k, v));
        s.push((k, v))
    } else {
        let front = s.drop_last();
        let last = s.last();
        lemma_pushed(front, last);
        assert(front.push(last) =~= s);
        assert forall|i: int, j: int| 0 <= i < j < front.len() implies text_lt(#[trigger] front[i].0, #[trigger] front[j].0) by {
            assert(text_lt(s[i].0, s[j].0));
        }
        crate::text::lemma_text_lt_total(last.0, k);
        if last.0 == k {
            lemma_pushed(front, (k, v));
            let r = front.push((k, v));
            assert forall|i: int, j: int| 0 <= i < j < r.len() implies text_lt(#[trigger] r[i].0, #[trigger] r[j].0) by {
                assert(text_lt(s[i].0, s[j].0));
            }
            assert(pairs_map(r) =~= pairs_map(s).insert(k, v));
            r
        } else if text_lt(last.0, k) {
            lemma_pushed(s, (k, v));
            let r = s.push((k, v));
            assert forall|i: int, j: int| 0 <= i < j < r.len() implies text_lt(#[trigger] r[i].0, #[trigger] r[j].0) by {
                if j == s.len() && i < s.len() - 1 {
                    assert(text_lt(s[i].0, s[s.len() - 1].0));
                    crate::text::lemma_text_lt_transitive(s[i].0, last.0, k);
                } else if j < s.len() {
                    assert(text_lt(s[i].0, s[j].0));
                }
            }
            r
        } else {
            let inner = lemma_sorted_insert(front, k, v);
            lemma_pushed(inner, last);
            let r = inner.push(last);
            assert forall|i: int, j: int| 0 <= i < j < r.len() implies text_lt(#[trigger] r[i].0, #[trigger] r[j].0) by {
                if j == inner.len() {
                    let key = inner[i].0;
                    lemma_pairs_map(inner, key);
                    lemma_pairs_map(front, key);
                    assert(has_key(inner, key));
                    if key != k {
                        let m = choose|m: int| 0 <= m < front.len() && #[trigger] front[m].0 == key;
                        assert(text_lt(s[m].0, s[s.len() - 1].0));
                    }
                } else {
                    assert(text_lt(inner[i].0, inner[j].0));
                }
            }
            assert(pairs_map(r) =~= pairs_map(s).insert(k, v));
            r
        }
    }
}

proof fn lemma_sorted_remove(s: Seq<PairView>, k: Seq<char>) -> (r: Seq<PairView>)
    requires
        key_sorted(s),
    ensures
        key_sorted(r),
        pairs_map(r) == pairs_map(s).remove(k),
    decreases s.len(),
{
    if s.len() == 0 {
        assert(pairs_map(s).remove(k) =~= pairs_map(s));
        s
    } else {
        let front = s.drop_last();
        let last = s.last();
        lemma_pushed(front, last);
        assert(front.push(last) =~= s);
        assert forall|i: int, j: int| 0 <= i < j < front.len() implies text_lt(#[trigger] front[i].0, #[trigger] front[j].0) by {
            assert(text_lt(s[i].0, s[j].0));
        }
        if last.0 == k {
            lemma_pairs_map(front, k);
            if has_key(front, k) {
                let m = choose|m: int| 0 <= m < front.len() && #[trigger] front[m].0 == k;
                assert(text_lt(s[m].0, s[s.len() - 1].0));
                crate::text::lemma_text_lt_irreflexive(k);
            }
            assert(pairs_map(front) =~= pairs_map(s).remove(k));
            front
        } else {
            let inner = lemma_sorted_remove(front, k);
            lemma_pushed(inner, last);
            let r = inner.push(last);
            assert forall|i: int, j: int| 0 <= i < j < r.len() implies text_lt(#[trigger] r[i].0, #[trigger] r[j].0) by {
                if j == inner.len() {
                    let key = inner[i].0;
                    lemma_pairs_map(inner, key);
                    lemma_pairs_map(front, key);
                    assert(has_key(inner, key));
                    let m = choose|m: int| 0 <= m < front.len() && #[trigger] front[m].0 == key;
                    assert(text_lt(s[m].0, s[s.len() - 1].0));
                } else {
                    assert(text_lt(inner[i].0, inner[j].0));
                }
            }
            assert(pairs_map(r) =~= pairs_map(s).remove(k));
            r
        }
    }
}

// ---------------------------------------------------------------------------------------------
// Fields

/// What was typed into a field becomes its value, and no other field changes. An empty directory
/// is none. What is no number, or too large for its field, is refused.
pub proof fn law_an_edit_changes_its_field(c: ConfigView, field: int, input: BufferView, original: Seq<char>)
    requires
        0 <= field < 9,
    ensures
        ({
            let r = edit_result(c, EditView::Text { field, input, original });
            &&& field == 0 ==> r is Ok && r->Ok_0.name == input.text
            &&& field == 1 ==> r is Ok && r->Ok_0.command == input.text
            &&& field == 2 && input.text.len() > 0 ==> r is Ok && r->Ok_0.cwd == Some(input.text)
            &&& field == 2 && input.text.len() == 0 ==> r is Ok && r->Ok_0.cwd is None
            &&& field == 7 ==> (r is Ok <==> parsed_number(input.text, 0xffff_ffff_ffff_ffff) is Some)
            &&& field == 8 ==> (r is Ok <==> parsed_number(input.text, 0xffff_ffff) is Some)
            &&& field == 7 && r is Ok ==> parsed_number(input.text, 0xffff_ffff_ffff_ffff) == Some(
                r->Ok_0.log_max_bytes as nat,
            )
            &&& field == 8 && r is Ok ==> parsed_number(input.text, 0xffff_ffff) == Some(r->Ok_0.log_max_files as nat)
            &&& r matches Ok(n) ==> {
                &&& forall|other: int| other != field ==> #[trigger] config_value(n, other) == config_value(c, other)
                &&& n.env == c.env
            }
        }),
{
    let r = edit_result(c, EditView::Text { field, input, original });
    if field == 7 && r is Ok {
        lemma_number_fits(input.text, u64::MAX as nat);
    }
    if field == 8 && r is Ok {
        lemma_number_fits(input.text, u32::MAX as nat);
    }
}

proof fn lemma_number_fits(s: Seq<char>, max: nat)
    ensures
        parsed_number(s, max) matches Some(n) ==> n <= max,
{
}

/// A policy that is chosen is the one that is shown at its place.
pub proof fn law_choosing_a_policy(c: ConfigView, i: int)
    requires
        0 <= i < 3,
    ensures
        ({
            let r = edit_result(c, EditView::Choice(i));
            &&& r is Ok
            &&& i == 0 ==> r->Ok_0.restart is Never
            &&& i == 1 ==> r->Ok_0.restart is OnFailure
            &&& i == 2 ==> r->Ok_0.restart is Always
            &&& r->Ok_0 == (ConfigView { restart: r->Ok_0.restart, ..c })
            &&& policy_place(r->Ok_0.restart) == i
        }),
{
}

/// A variable that is edited has its new name and its new value; the old name is gone, and all
/// other variables are as they were. One name is never given twice.
pub proof fn law_a_variable_is_edited(c: ConfigView, e: EditView)
    requires
        e is Env,
        key_sorted(c.env),
        e->Env_old matches Some(o) ==> has_key(c.env, o),
    ensures
        ({
            let r = edit_result(c, e);
            let k = e->Env_key.text;
            let sound = k.len() > 0 && !k.contains('=') && !k.contains('\0') && !k.contains('\n');
            &&& r is Ok <==> sound && (e->Env_old == Some(k) || !has_key(c.env, k))
            &&& r matches Ok(n) ==> {
                let before = pairs_map(c.env);
                let after = pairs_map(n.env);
                &&& key_sorted(n.env)
                &&& after.contains_key(k) && after[k] == e->Env_value.text
                &&& forall|other: Seq<char>|
                    other != k && e->Env_old != Some(other) ==> (#[trigger] after.contains_key(other)
                        == before.contains_key(other)) && (before.contains_key(other) ==> after[other] == before[other])
                &&& e->Env_old matches Some(o) ==> (o != k ==> !after.contains_key(o))
                &&& forall|field: int| #[trigger] config_value(n, field) == config_value(c, field)
            }
        }),
{
    let r = edit_result(c, e);
    let k = e->Env_key.text;
    let v = e->Env_value.text;
    if r is Ok {
        let rest = match e->Env_old {
            Some(o) => canonical(pairs_map(c.env).remove(o)),
            None => c.env,
        };
        if e->Env_old is Some {
            let w = lemma_sorted_remove(c.env, e->Env_old->0);
            assert(key_sorted(rest) && pairs_map(rest) == pairs_map(c.env).remove(e->Env_old->0));
        }
        let w = lemma_sorted_insert(rest, k, v);
        let now = canonical(pairs_map(rest).insert(k, v));
        assert(key_sorted(now) && pairs_map(now) == pairs_map(rest).insert(k, v));
    }
}

/// A variable is deleted by the answer to the question, and nothing else is.
pub proof fn law_deleting_takes_one_variable(f: FormView, name: Seq<char>)
    requires
        key_sorted(f.config.env),
        f.confirm_selected == 1,
    ensures
        ({
            let (g, outcome) = answered(f, ConfirmView::Delete(name));
            &&& outcome is Stay
            &&& pairs_map(g.config.env) == pairs_map(f.config.env).remove(name)
            &&& forall|field: int| #[trigger] config_value(g.config, field) == config_value(f.config, field)
            &&& g.saved == f.saved
        }),
{
    let w = lemma_sorted_remove(f.config.env, name);
    let now = canonical(pairs_map(f.config.env).remove(name));
    assert(key_sorted(now) && pairs_map(now) == pairs_map(f.config.env).remove(name));
}

/// A switch changes its own field and nothing else, and twice it changes nothing. A field that
/// has no effect cannot be switched.
pub proof fn law_switches(f: FormView, field: int)
    ensures
        field == 4 ==> toggled(f, field).config == (ConfigView { tty: !f.config.tty, ..f.config }),
        field == 5 && f.config.tty ==> toggled(f, field).config == (ConfigView {
            sync_rows_cols: !f.config.sync_rows_cols,
            ..f.config
        }),
        field == 5 && !f.config.tty ==> toggled(f, field) == f,
        field == 6 ==> toggled(f, field).config == (ConfigView { persist_logs: !f.config.persist_logs, ..f.config }),
        !(4 <= field <= 6) ==> toggled(f, field).config == f.config,
        4 <= field <= 6 ==> toggled(toggled(f, field), field).config == f.config,
        is_disabled(f.config, field) <==> field == 5 && !f.config.tty || (field == 7 || field == 8)
            && !f.config.persist_logs,
{
}

/// To look at a field changes nothing: what is shown for editing is what the configuration holds,
/// and what is left as it is stays as it is.
pub proof fn law_looking_changes_nothing(f: FormView)
    requires
        f.editing is None,
        0 <= f.tab < 3,
        0 <= f.selected < 3,
        first_draft(f.drafts, Some(field_of(f)), None, 0) is None,
        f.config.cwd matches Some(d) ==> d.len() > 0,
        !(4 <= field_of(f) <= 6),
    ensures
        begun(f).config == f.config,
        (begun(f).editing matches Some(EditView::Text { field, input, original }) ==> field == field_of(f)
            && input.text == config_value(f.config, field) && original == input.text),
        left_input(begun(f)).config == f.config,
        left_input(begun(f)).drafts == f.drafts,
        left_input(begun(f)).undo == f.undo,
{
    let g = begun(f);
    let field = field_of(f);
    lemma_decimal_reads_back(f.config.log_max_bytes as nat);
    lemma_decimal_reads_back(f.config.log_max_files as nat);
    assert(value_of(FormView { inline_error: None, ..f }, field) == config_value(f.config, field));
    if g.editing is Some {
        let e = g.editing->0;
        let r = edit_result(g.config, e);
        assert(r is Ok);
        assert(r->Ok_0 =~= f.config);
    }
}

// ---------------------------------------------------------------------------------------------
// Saving

proof fn lemma_bad_key(env: Seq<PairView>, i: int)
    requires
        0 <= i <= env.len(),
    ensures
        bad_key(env, i) is None <==> forall|j: int| i <= j < env.len() ==> valid_env_key(#[trigger] env[j].0),
    decreases env.len() - i,
{
    if i < env.len() {
        lemma_bad_key(env, i + 1);
    }
}

/// What is written is valid: the form is saved exactly where the configuration is, and where it is
/// not, the form says why and goes to the field that is wrong.
pub proof fn law_only_valid_configurations_are_saved(f: FormView, exit: bool)
    ensures
        validated(f).1 <==> valid_config(f.config),
        validated(f).0.config == f.config,
        !validated(f).1 ==> validated(f).0.inline_error is Some,
        save_step(f, exit).1 is Save ==> valid_config(save_step(f, exit).0.config),
        save_step(f, exit).1 is Save ==> save_step(f, exit).1 == (Outcome::Save { exit }),
        save_step(f, exit).1 is Save || save_step(f, exit).1 is Stay,
        ({
            let c = f.config;
            let g = validated(f).0;
            &&& !valid_name(c.name) ==> g.tab == 0 && g.selected == 0
            &&& valid_name(c.name) && blank(c.command) ==> g.tab == 0 && g.selected == 1
            &&& valid_name(c.name) && !blank(c.command) && c.log_max_bytes == 0 ==> g.tab == 2 && g.selected == 1
            &&& valid_name(c.name) && !blank(c.command) && c.log_max_bytes > 0 && c.log_max_files == 0 ==> g.tab == 2
                && g.selected == 2
        }),
{
    lemma_bad_key(f.config.env, 0);
    let (g, ok) = applied(f);
    let (h, all) = flushed(g);
    lemma_bad_key(h.config.env, 0);
}

/// Where nothing is being edited and no draft is left, exactly the configuration on the screen is
/// saved.
pub proof fn law_the_screen_is_saved(f: FormView, exit: bool)
    requires
        f.editing is None,
        f.drafts.len() == 0,
        valid_config(f.config),
    ensures
        save_step(f, exit) == (f, Outcome::Save { exit }),
{
    lemma_bad_key(f.config.env, 0);
}

/// The form is saved only where that was asked for: by its key, or by the answer to the question
/// whether to leave.
pub proof fn law_saving_is_asked_for(f: FormView, k: KeyEvent, rows: usize)
    ensures
        key_step(f, k, rows).1 is Save ==> {
            ||| k.modifiers.control && k.code == KeyCode::Char('s') && f.confirm is None && f.editing is None
            ||| f.confirm is Some && f.confirm->0 is Exit && f.confirm_selected == 1 && k.code is Enter
        },
        key_step(f, k, rows).1 matches Outcome::Save { exit } ==> (exit <==> f.confirm is Some),
{
}

// ---------------------------------------------------------------------------------------------
// Typing

/// What is typed stands where the cursor was, with all that was there before and behind it, and
/// the cursor stands behind it.
pub proof fn law_typing_inserts(b: BufferView, multiline: bool, k: KeyEvent, c: char)
    requires
        0 <= b.cursor <= b.text.len(),
        b.text.len() < usize::MAX,
        k.code == KeyCode::Char(c),
        !k.modifiers.control && !k.modifiers.alt && !k.modifiers.logo,
    ensures
        crate::form::state::plain(k) || k.modifiers == crate::tui::keys::shift_only() ==> {
            let t = typed(b, multiline, k);
            &&& t.text.len() == b.text.len() + 1
            &&& t.text[b.cursor] == c
            &&& t.text.take(b.cursor) == b.text.take(b.cursor)
            &&& t.text.skip(b.cursor + 1) == b.text.skip(b.cursor)
            &&& t.cursor == b.cursor + 1
            &&& backspaced(t).text == b.text
            &&& backspaced(t).cursor == b.cursor
        },
{
    let t = inserted(b, seq![c]);
    assert(t.text.take(b.cursor) =~= b.text.take(b.cursor));
    assert(t.text.skip(b.cursor + 1) =~= b.text.skip(b.cursor));
    assert(backspaced(t).text =~= b.text);
}

/// What is taken away before the cursor or behind it is one character, and nothing else.
pub proof fn law_deleting_takes_one_character(b: BufferView)
    requires
        0 <= b.cursor <= b.text.len(),
    ensures
        b.cursor > 0 ==> backspaced(b).text == b.text.take(b.cursor - 1) + b.text.skip(b.cursor),
        b.cursor > 0 ==> backspaced(b).cursor == b.cursor - 1,
        b.cursor == 0 ==> backspaced(b) == b,
        b.cursor < b.text.len() ==> deleted(b).text == b.text.take(b.cursor) + b.text.skip(b.cursor + 1),
        b.cursor < b.text.len() ==> deleted(b).cursor == b.cursor,
        b.cursor == b.text.len() ==> deleted(b) == b,
{
    if b.cursor > 0 {
        assert(backspaced(b).text =~= b.text.take(b.cursor - 1) + b.text.skip(b.cursor));
    }
    if b.cursor < b.text.len() {
        assert(deleted(b).text =~= b.text.take(b.cursor) + b.text.skip(b.cursor + 1));
    }
}

/// Pasted text goes where typed text goes, as a whole; an input of one line takes it as one line.
/// While a question or a message is shown nothing is pasted.
pub proof fn law_pasting_inserts(f: FormView, field: int, input: BufferView, original: Seq<char>, t: Seq<char>)
    requires
        f.editing == Some(EditView::Text { field, input, original }),
        0 <= input.cursor <= input.text.len(),
        t.len() > 0,
        input.text.len() + t.len() <= usize::MAX,
    ensures
        f.confirm is Some || f.help || f.error is Some ==> pasted(f, t) == f,
        pasted(f, t).config == f.config,
        pasted(f, t) != f ==> {
            &&& pasted(f, t).editing matches Some(EditView::Text { field: at, input: now, original: o })
            &&& at == field && o == original
            &&& now.text.len() == input.text.len() + t.len()
            &&& now.text.take(input.cursor) == input.text.take(input.cursor)
            &&& now.text.skip(input.cursor + t.len()) == input.text.skip(input.cursor)
            &&& field == 1 ==> now.text.subrange(input.cursor, input.cursor + t.len()) == t
            &&& field != 1 ==> forall|i: int|
                0 <= i < t.len() ==> {
                    let c = #[trigger] now.text[input.cursor + i];
                    c == if t[i] == '\r' || t[i] == '\n' {
                        ' '
                    } else {
                        t[i]
                    }
                }
        },
{
    if pasted(f, t) != f {
        let now = pasted(f, t).editing->0->input;
        assert(now.text.take(input.cursor) =~= input.text.take(input.cursor));
        assert(now.text.skip(input.cursor + t.len()) =~= input.text.skip(input.cursor));
        if field == 1 {
            assert(now.text.subrange(input.cursor, input.cursor + t.len()) =~= t);
        }
    }
}

/// A form that was just opened shows the configuration that was read, and nothing would be lost by
/// leaving it.
pub proof fn law_a_fresh_form(c: ConfigView, field: int, k: KeyEvent, rows: usize)
    ensures
        opened(c).config == c,
        opened(c).saved == c,
        value_of(opened(c), field) == config_value(c, field),
        !is_dirty(opened(c)),
        k.kind is Press && k.code is Esc && k.modifiers == no_modifiers() ==> key_step(opened(c), k, rows).1 is Exit,
{
}

/// Something would be lost exactly where a draft is left, the configuration differs from what was
/// saved, or what is being typed differs from what was there.
pub proof fn law_what_would_be_lost(f: FormView)
    ensures
        f.drafts.len() > 0 ==> is_dirty(f),
        f.config != f.saved ==> is_dirty(f),
        (f.editing matches Some(EditView::Text { input, original, .. }) && input.text != original) ==> is_dirty(f),
        f.drafts.len() == 0 && f.config == f.saved && f.editing is None ==> !is_dirty(f),
{
}

/// The four pages and the fields of a page go round; going back undoes going on. Moving about
/// changes nothing that would be saved.
pub proof fn law_browsing(f: FormView, k: KeyEvent)
    requires
        0 <= f.tab < 4,
        0 <= f.selected < count_of(f),
        k.modifiers == no_modifiers(),
    ensures
        k.code is Right ==> browse_key(f, k).tab == (if f.tab < 3 {
            f.tab + 1
        } else {
            0
        }) && browse_key(f, k).selected == 0,
        k.code is Left ==> browse_key(f, k).tab == (if f.tab > 0 {
            f.tab - 1
        } else {
            3
        }) && browse_key(f, k).selected == 0,
        k.code is Down ==> browse_key(f, k).selected == (if f.selected + 1 < count_of(f) {
            f.selected + 1
        } else {
            0
        }),
        k.code is Up ==> browse_key(f, k).selected == (if f.selected > 0 {
            f.selected - 1
        } else {
            count_of(f) - 1
        }),
        k.code is Right || k.code is Left || k.code is Up || k.code is Down ==> {
            let g = browse_key(f, k);
            g.config == f.config && g.saved == f.saved && g.drafts == f.drafts && g.editing == f.editing
        },
        k.code == KeyCode::Char('a') && f.tab == 3 && first_draft(f.drafts, None, None, 0) is None ==> (
        browse_key(f, k).editing matches Some(EditView::Env { old, key, value, .. }) && old is None && key.text.len()
            == 0 && value.text.len() == 0),
        k.code == KeyCode::Char(' ') && f.tab < 3 ==> browse_key(f, k) == toggled(f, f.tab * 3 + f.selected),
{
    let n = count_of(f);
    assert((f.selected + 1) % n == if f.selected + 1 < n {
        f.selected + 1
    } else {
        0
    }) by {
        if f.selected + 1 < n {
            vstd::arithmetic::div_mod::lemma_small_mod((f.selected + 1) as nat, n as nat);
        } else {
            vstd::arithmetic::div_mod::lemma_mod_self_0(n);
        }
    }
    assert((f.selected + n - 1) % n == if f.selected > 0 {
        f.selected - 1
    } else {
        n - 1
    }) by {
        if f.selected > 0 {
            vstd::arithmetic::div_mod::lemma_mod_add_multiples_vanish(f.selected - 1, n);
            vstd::arithmetic::div_mod::lemma_small_mod((f.selected - 1) as nat, n as nat);
        } else {
            vstd::arithmetic::div_mod::lemma_small_mod((n - 1) as nat, n as nat);
        }
    }
}

/// A line end goes only into a command and into the value of a variable; any other input takes
/// none. Esc and Enter end the edit of a field.
pub proof fn law_line_ends_have_their_place(f: FormView, e: EditView, k: KeyEvent)
    requires
        f.editing == Some(e),
    ensures
        newline_key(k) && e is Text && e->Text_field != 1 ==> editing_key(f, e, k) == f,
        newline_key(k) && e is Choice ==> editing_key(f, e, k) == f,
        newline_key(k) && e is Env && !e->value_focus ==> editing_key(f, e, k) == f,
        k.modifiers == no_modifiers() && k.code is Esc ==> editing_key(f, e, k) == left_input(f),
        k.modifiers == no_modifiers() && k.code is Enter && e is Text ==> editing_key(f, e, k) == left_input(f),
        k.modifiers == no_modifiers() && k.code is Down && e is Choice ==> editing_key(f, e, k).editing == Some(
            EditView::Choice((e->Choice_0 + 1) % 3),
        ),
        !(k.code is Esc || k.code is Enter) ==> editing_key(f, e, k).config == f.config && editing_key(f, e, k).drafts
            == f.drafts,
{
}

} // verus!
