//! What holds of the form whatever is typed.
use crate::config::ConfigView;
use crate::form::state::{answered, applied, asked, changed_to, confirm_key, edit_result, flushed, form_undone, is_dirty, key_step, left_input, save_step, ConfirmView, EditView, FormView, Outcome, CONFIG_HISTORY};
use crate::tui::keys::KeyEvent;
use vstd::prelude::*;

verus! {

/// The form is left without being asked only where nothing would be lost; where something would
/// be, only after the question whether to leave was answered by throwing it away.
pub proof fn law_no_silent_loss(f: FormView, k: KeyEvent, rows: usize)
    ensures
        key_step(f, k, rows).1 is Exit ==> {
            ||| !is_dirty(f)
            ||| f.confirm is Some && f.confirm->0 is Exit && f.confirm_selected == 2
        },
{
}

/// What is on the screen is given up for what is on disk only where nothing would be lost, or
/// after the question whether to do so was answered with yes.
pub proof fn law_no_silent_reload(f: FormView, k: KeyEvent, rows: usize)
    ensures
        key_step(f, k, rows).1 is Reload ==> {
            ||| !is_dirty(f)
            ||| f.confirm is Some && f.confirm->0 is Reload && f.confirm_selected != 0
        },
{
}

/// A question starts at its first answer, and that answer keeps everything.
pub proof fn law_first_answer_keeps_everything(f: FormView, c: ConfirmView)
    ensures
        asked(f, c).confirm_selected == 0,
        answered(asked(f, c), c) == (FormView { confirm: None, ..asked(f, c) }, Outcome::Stay),
{
}

/// A question stays until it is answered or dismissed: a key held down does not answer it.
pub proof fn law_repeats_do_not_answer(f: FormView, c: ConfirmView, k: KeyEvent, rows: usize)
    requires
        k.kind is Repeat,
    ensures
        confirm_key(f, c, k, rows) == (f, Outcome::Stay),
{
}

/// A change of the configuration can be taken back, and that can be taken back again.
pub proof fn law_config_undo_restores(f: FormView, next: ConfigView)
    requires
        next != f.config,
        f.undo.len() <= CONFIG_HISTORY,
    ensures
        form_undone(changed_to(f, next), false).config == f.config,
        form_undone(form_undone(changed_to(f, next), false), true).config == next,
{
    let g = changed_to(f, next);
    assert(g.undo.last() == f.config);
    let u = form_undone(g, false);
    assert(u.redo.last() == next);
}

/// Leaving an input that cannot be put in keeps what was typed: it becomes the newest draft, and
/// the configuration stays as it was.
pub proof fn law_rejected_input_is_kept(f: FormView, e: EditView)
    requires
        f.editing == Some(e),
        edit_result(f.config, e) is Err,
        !(e is Env && e->old is None && e->key.text.len() == 0 && e->value.text.len() == 0),
    ensures
        left_input(f).config == f.config,
        left_input(f).editing is None,
        left_input(f).drafts.len() == f.drafts.len() + 1,
        e is Text ==> left_input(f).drafts.last() == e,
        e is Env ==> left_input(f).drafts.last()->Env_old == e->Env_old && left_input(
            f,
        ).drafts.last()->Env_key == e->Env_key && left_input(f).drafts.last()->Env_value
            == e->Env_value,
{
}

/// Nothing is written while a draft does not fit: what is to be written has no drafts left.
pub proof fn law_saving_leaves_no_drafts(f: FormView, exit: bool)
    ensures
        save_step(f, exit).1 is Save ==> save_step(f, exit).0.drafts.len() == 0,
{
    let (g, ok) = applied(f);
    lemma_flushed(g);
}

proof fn lemma_flushed(f: FormView)
    ensures
        flushed(f).1 ==> flushed(f).0.drafts.len() == 0,
    decreases f.drafts.len(),
{
    if f.drafts.len() > 0 {
        let e = f.drafts[0];
        let g = FormView {
            editing: Some(e),
            ..crate::form::state::shown_at(FormView { drafts: f.drafts.remove(0), ..f }, e)
        };
        let (h, ok) = applied(g);
        assert(h.drafts == f.drafts.remove(0));
        assert(h.drafts.len() < f.drafts.len());
        if ok {
            lemma_flushed(h);
        }
    }
}

} // verus!
