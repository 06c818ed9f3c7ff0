//! What the form says about its keys.
use crate::form::model::{Editing, Form};
use crate::form::state::{EditView, FormView};
use crate::text::{cat2, cat3, cat5};
use vstd::prelude::*;

verus! {

pub const EDIT_KEYS: &'static str = "←→ / home / end  Move cursor\nctrl+z / ctrl+y  Undo / redo";

pub const FINISH_KEYS: &'static str = "enter  Finish input\nesc  Back; keep draft";

pub const MULTILINE_KEYS: &'static str = "↑↓  Move by visual row\npgup / pgdn  Move by a page\nshift+enter  Newline\nctrl+j  Newline (fallback)";

pub const BROWSE_KEYS: &'static str = "←→  Change page\n↑↓  Select field\nenter  Edit / toggle";

pub const PAGE_KEYS: &'static str = "\nctrl+s  Save\nesc  Quit; confirm changes\nctrl+r  Reload; confirm changes\nctrl+z / ctrl+y  Undo / redo";

pub const VALUE_KEYS: &'static str = "\n↑  Up; first → Name\n↓  Down";

pub const VALUE_TAIL: &'static str = "\npgup / pgdn  Move by a page\nshift+enter  Newline\nctrl+j  Newline (fallback)\n";

/// The heading of the help for what is edited.
pub open spec fn help_title(f: FormView) -> Seq<char> {
    match f.editing {
        None => "Help / edit"@,
        Some(EditView::Choice(_)) => "Help / restart policy"@,
        Some(EditView::Text { field, .. }) => if field == 0 {
            "Help / name"@
        } else if field == 1 {
            "Help / command"@
        } else if field == 2 {
            "Help / working directory"@
        } else if field == 7 {
            "Help / max bytes"@
        } else {
            "Help / retained files"@
        },
        Some(EditView::Env { value_focus, delete_focus, .. }) => if delete_focus {
            "Help / environment · delete"@
        } else if !value_focus {
            "Help / environment · name"@
        } else {
            "Help / environment · value"@
        },
    }
}

/// The keys that do something for what is edited.
pub open spec fn help_text(f: FormView) -> Seq<char> {
    match f.editing {
        None => BROWSE_KEYS@ + (if f.tab == 3 {
            "\na  Add variable"@
        } else if f.tab == 1 || f.tab == 2 {
            "\nspace  Toggle switch"@
        } else {
            ""@
        }) + PAGE_KEYS@,
        Some(EditView::Choice(_)) => "↑↓ / ←→  Select policy\nenter  Confirm selection\nesc  Back; keep selection"@,
        Some(EditView::Text { field, .. }) => if field == 1 {
            EDIT_KEYS@ + "\n"@ + MULTILINE_KEYS@ + "\n"@ + FINISH_KEYS@
        } else {
            EDIT_KEYS@ + "\n"@ + FINISH_KEYS@
        },
        Some(EditView::Env { value_focus, delete_focus, delete_available, .. }) => if delete_focus {
            "↑  Return to Value\nenter  Request deletion; confirm\nesc  Back; keep draft"@
        } else if !value_focus {
            EDIT_KEYS@ + "\nenter / ↓  Go to Value\nesc  Back; keep draft"@
        } else {
            EDIT_KEYS@ + VALUE_KEYS@ + (if delete_available { "; last → Delete"@ } else { ""@ })
                + VALUE_TAIL@ + FINISH_KEYS@
        },
    }
}

impl Form {
    pub fn help_content(&self) -> (r: (&'static str, String))
        ensures
            r.0@ == help_title(self@),
            r.1@ == help_text(self@),
    {
        match &self.editing {
            None => {
                let extra = if self.tab == 3 {
                    "\na  Add variable"
                } else if self.tab == 1 || self.tab == 2 {
                    "\nspace  Toggle switch"
                } else {
                    ""
                };
                ("Help / edit", cat3(BROWSE_KEYS, extra, PAGE_KEYS))
            },
            Some(Editing::Choice(_)) => (
                "Help / restart policy",
                "↑↓ / ←→  Select policy\nenter  Confirm selection\nesc  Back; keep selection".to_owned(),
            ),
            Some(Editing::Text { field, .. }) => {
                let title = if *field == 0 {
                    "Help / name"
                } else if *field == 1 {
                    "Help / command"
                } else if *field == 2 {
                    "Help / working directory"
                } else if *field == 7 {
                    "Help / max bytes"
                } else {
                    "Help / retained files"
                };
                let keys = if *field == 1 {
                    cat5(EDIT_KEYS, "\n", MULTILINE_KEYS, "\n", FINISH_KEYS)
                } else {
                    cat3(EDIT_KEYS, "\n", FINISH_KEYS)
                };
                (title, keys)
            },
            Some(Editing::Env { value_focus, delete_focus, delete_available, .. }) => {
                if *delete_focus {
                    (
                        "Help / environment · delete",
                        "↑  Return to Value\nenter  Request deletion; confirm\nesc  Back; keep draft".to_owned(),
                    )
                } else if !*value_focus {
                    (
                        "Help / environment · name",
                        cat2(EDIT_KEYS, "\nenter / ↓  Go to Value\nesc  Back; keep draft"),
                    )
                } else {
                    let last = if *delete_available { "; last → Delete" } else { "" };
                    (
                        "Help / environment · value",
                        cat5(EDIT_KEYS, VALUE_KEYS, last, VALUE_TAIL, FINISH_KEYS),
                    )
                }
            },
        }
    }
}

} // verus!
