//! A form on a screen: which keys reach it, and what follows what it asks for.
use crate::form::model::Form;
use crate::form::state::{key_step, pasted, FormView, Outcome};
use crate::text::cat2;
use crate::tui::keys::{KeyCode, KeyEvent};
use crate::tui::widget::Size;
use vstd::prelude::*;

verus! {

/// The screen is large enough to work in.
pub open spec fn workable(size: Size) -> bool {
    size.width >= 40 && size.height >= 10
}

pub fn is_workable(size: Size) -> (r: bool)
    ensures
        r == workable(size),
{
    size.width >= 40 && size.height >= 10
}

/// The key leads out of the form, whatever the screen.
pub open spec fn leads_out(k: KeyEvent) -> bool {
    ||| k.code is Esc
    ||| k.modifiers.control && (k.code == KeyCode::Char('q') || k.code == KeyCode::Char('c'))
}

/// How many rows a page has on that screen.
pub open spec fn page_of(size: Size) -> usize {
    if size.height < 9 { 1 } else { (size.height - 8) as usize }
}

/// What follows once a change was to be written.
#[derive(Debug, Clone, Copy, PartialEq, Eq, Structural)]
pub enum SaveStep {
    Stay,
    Leave,
    /// The file has changed: see whether a service is to be restarted, and go on with
    /// `restart_offered`.
    OfferRestart,
}

impl Form {
    /// A key on a screen. Where the screen is too small, only the way out works.
    pub fn screen_key(&mut self, key: KeyEvent, size: Size) -> (r: Outcome)
        requires
            old(self).wf(),
        ensures
            final(self).wf(),
            (final(self)@, r) == (if workable(size) || leads_out(key) {
                key_step(old(self)@, key, page_of(size))
            } else {
                (old(self)@, Outcome::Stay)
            }),
    {
        let out = match key.code {
            KeyCode::Esc => true,
            KeyCode::Char(c) => key.modifiers.control && (c == 'q' || c == 'c'),
            _ => false,
        };
        if !is_workable(size) && !out {
            return Outcome::Stay;
        }
        let rows: usize = if size.height < 9 { 1 } else { (size.height - 8) as usize };
        self.key(key, rows)
    }

    /// A text that was pasted on a screen.
    pub fn screen_paste(&mut self, text: &str, size: Size)
        requires
            old(self).wf(),
        ensures
            final(self).wf(),
            final(self)@ == (if workable(size) {
                pasted(old(self)@, text@)
            } else {
                old(self)@
            }),
    {
        if is_workable(size) {
            self.paste(text);
        }
    }

    /// Goes on once a change was to be written. `result` is whether the file has changed, or why
    /// it could not be written.
    pub fn written(&mut self, result: Result<bool, String>, exit: bool) -> (r: SaveStep)
        requires
            old(self).wf(),
        ensures
            final(self).wf(),
            match result {
                Ok(changed) => {
                    &&& final(self)@ == (FormView { saved: old(self)@.config, ..old(self)@ })
                    &&& r == (if changed {
                        SaveStep::OfferRestart
                    } else if exit {
                        SaveStep::Leave
                    } else {
                        SaveStep::Stay
                    })
                },
                Err(e) => {
                    &&& final(self)@ == (FormView { error: Some(e@), reader_scroll: 0, ..old(self)@ })
                    &&& r is Stay
                },
            },
            (final(self)@, r) == after_writing(old(self)@, result, exit),
    {
        match result {
            Ok(changed) => {
                self.save_finished(Ok(()));
                if changed {
                    SaveStep::OfferRestart
                } else if exit {
                    SaveStep::Leave
                } else {
                    SaveStep::Stay
                }
            },
            Err(e) => {
                self.save_finished(Err(e));
                SaveStep::Stay
            },
        }
    }

    /// Goes on once a restart was offered. A failure is shown, and that the change was written.
    pub fn restart_offered(&mut self, result: Result<(), String>, exit: bool) -> (r: SaveStep)
        requires
            old(self).wf(),
        ensures
            final(self).wf(),
            match result {
                Ok(()) => final(self)@ == old(self)@ && r == (if exit {
                    SaveStep::Leave
                } else {
                    SaveStep::Stay
                }),
                Err(e) => final(self)@ == (FormView {
                    error: Some("Configuration saved. "@ + e@),
                    reader_scroll: 0,
                    ..old(self)@
                }) && r is Stay,
            },
    {
        match result {
            Ok(()) => {
                if exit {
                    SaveStep::Leave
                } else {
                    SaveStep::Stay
                }
            },
            Err(e) => {
                self.error = Some(cat2("Configuration saved. ", e.as_str()));
                self.reader_scroll = 0;
                SaveStep::Stay
            },
        }
    }
}

/// The form once a change was to be written, and what is done next.
pub open spec fn after_writing(f: FormView, result: Result<bool, String>, exit: bool) -> (FormView, SaveStep) {
    match result {
        Ok(changed) => (
            FormView { saved: f.config, ..f },
            if changed {
                SaveStep::OfferRestart
            } else if exit {
                SaveStep::Leave
            } else {
                SaveStep::Stay
            },
        ),
        Err(e) => (FormView { error: Some(e@), reader_scroll: 0, ..f }, SaveStep::Stay),
    }
}

/// What was written counts as saved, and nothing else does: after a failure the form still has
/// all that it had, says why, and is not left.
pub proof fn law_only_what_was_written_is_saved(f: FormView, result: Result<bool, String>, exit: bool)
    ensures
        ({
            let (g, step) = after_writing(f, result, exit);
            &&& g.config == f.config && g.drafts == f.drafts && g.undo == f.undo
            &&& result is Ok ==> g.saved == f.config
            &&& result matches Err(e) ==> g.saved == f.saved && g.error == Some(e@) && step is Stay
            &&& result == Ok::<bool, String>(true) <==> step is OfferRestart
            &&& step is Leave <==> exit && result == Ok::<bool, String>(false)
        }),
{
}

} // verus!
