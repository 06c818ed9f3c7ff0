//! The plain screen: a list of services, and an editor for one configuration.
use crate::config::{policy_text, RestartPolicy};
use crate::protocol::{ServiceInfo, ServiceState};
use crate::text::{cat2, cat3, cat4};
use vstd::prelude::*;

verus! {

/// The fields of the editor, in the order in which they are shown.
#[derive(Debug, Clone, Copy, PartialEq, Eq, Structural)]
pub enum EditorField {
    Name,
    Command,
    Tty,
    Restart,
    Env,
}

/// The place of a field on the screen.
pub open spec fn field_place(f: EditorField) -> int {
    match f {
        EditorField::Name => 0,
        EditorField::Command => 1,
        EditorField::Tty => 2,
        EditorField::Restart => 3,
        EditorField::Env => 4,
    }
}

impl EditorField {
    /// The field below; behind the last one comes the first one.
    pub fn next(self) -> (r: Self)
        ensures
            field_place(r) == (field_place(self) + 1) % 5,
    {
        match self {
            EditorField::Name => EditorField::Command,
            EditorField::Command => EditorField::Tty,
            EditorField::Tty => EditorField::Restart,
            EditorField::Restart => EditorField::Env,
            EditorField::Env => EditorField::Name,
        }
    }

    /// The field above; before the first one comes the last one.
    pub fn previous(self) -> (r: Self)
        ensures
            field_place(r) == (field_place(self) + 4) % 5,
    {
        match self {
            EditorField::Name => EditorField::Env,
            EditorField::Command => EditorField::Name,
            EditorField::Tty => EditorField::Command,
            EditorField::Restart => EditorField::Tty,
            EditorField::Env => EditorField::Restart,
        }
    }

    /// Which of the three texts the field is.
    pub fn text_index(self) -> (r: Option<usize>)
        ensures
            r == (match self {
                EditorField::Name => Some(0usize),
                EditorField::Command => Some(1usize),
                EditorField::Env => Some(2usize),
                _ => None,
            }),
    {
        match self {
            EditorField::Name => Some(0),
            EditorField::Command => Some(1),
            EditorField::Env => Some(2),
            EditorField::Tty | EditorField::Restart => None,
        }
    }

    pub fn title(self) -> (r: &'static str)
        ensures
            r@ == (match self {
                EditorField::Name => "name"@,
                EditorField::Command => "command"@,
                EditorField::Tty => "TTY"@,
                EditorField::Restart => "restart"@,
                EditorField::Env => ".env.served"@,
            }),
    {
        match self {
            EditorField::Name => "name",
            EditorField::Command => "command",
            EditorField::Tty => "TTY",
            EditorField::Restart => "restart",
            EditorField::Env => ".env.served",
        }
    }
}

/// Going down and up again comes back, whatever the field.
pub proof fn law_focus_goes_round(f: EditorField, down: EditorField, back: EditorField)
    requires
        field_place(down) == (field_place(f) + 1) % 5,
        field_place(back) == (field_place(down) + 4) % 5,
    ensures
        back == f,
{
}

/// A choice that is made in a popup. Nothing changes until it is applied.
#[derive(Debug, Clone, Copy, PartialEq, Eq, Structural)]
pub enum EditorPopup {
    Tty { selected: bool },
    Restart { selected: RestartPolicy },
}

pub open spec fn restart_place(p: RestartPolicy) -> int {
    match p {
        RestartPolicy::Never => 0,
        RestartPolicy::OnFailure => 1,
        RestartPolicy::Always => 2,
    }
}

/// How many options a popup has.
pub open spec fn options(p: EditorPopup) -> int {
    match p {
        EditorPopup::Tty { .. } => 2,
        EditorPopup::Restart { .. } => 3,
    }
}

/// Which option is marked.
pub open spec fn marked(p: EditorPopup) -> int {
    match p {
        EditorPopup::Tty { selected } => if selected { 0 } else { 1 },
        EditorPopup::Restart { selected } => restart_place(selected),
    }
}

pub open spec fn same_popup(p: EditorPopup, q: EditorPopup) -> bool {
    p is Tty == q is Tty
}

impl EditorPopup {
    pub fn open(field: EditorField, tty: bool, restart: RestartPolicy) -> (r: Option<Self>)
        ensures
            r == (match field {
                EditorField::Tty => Some(EditorPopup::Tty { selected: tty }),
                EditorField::Restart => Some(EditorPopup::Restart { selected: restart }),
                _ => None,
            }),
    {
        match field {
            EditorField::Tty => Some(EditorPopup::Tty { selected: tty }),
            EditorField::Restart => Some(EditorPopup::Restart { selected: restart }),
            EditorField::Name | EditorField::Command | EditorField::Env => None,
        }
    }

    pub fn title(self) -> (r: &'static str)
        ensures
            self is Tty ==> r@ == "select TTY"@,
            self is Restart ==> r@ == "select restart policy"@,
    {
        match self {
            EditorPopup::Tty { .. } => "select TTY",
            EditorPopup::Restart { .. } => "select restart policy",
        }
    }

    pub fn option_count(self) -> (r: usize)
        ensures
            r == options(self),
    {
        match self {
            EditorPopup::Tty { .. } => 2,
            EditorPopup::Restart { .. } => 3,
        }
    }

    pub fn option_label(self, index: usize) -> (r: &'static str)
        ensures
            self is Tty ==> r@ == (if index == 0 { "Enabled"@ } else { "Disabled"@ }),
            self is Restart ==> exists|p: RestartPolicy|
                restart_place(p) == index % 3 && r@ == #[trigger] policy_text(p),
    {
        match self {
            EditorPopup::Tty { .. } => if index == 0 { "Enabled" } else { "Disabled" },
            EditorPopup::Restart { .. } => restart_name(restart_from_index(index)),
        }
    }

    pub fn selected_index(self) -> (r: usize)
        ensures
            r == marked(self),
    {
        match self {
            EditorPopup::Tty { selected } => if selected { 0 } else { 1 },
            EditorPopup::Restart { selected } => restart_index(selected),
        }
    }

    pub fn move_up(&mut self)
        ensures
            same_popup(*old(self), *final(self)),
            marked(*final(self)) == (marked(*old(self)) + options(*old(self)) - 1) % options(*old(self)),
    {
        match *self {
            EditorPopup::Tty { selected } => {
                *self = EditorPopup::Tty { selected: !selected };
            },
            EditorPopup::Restart { selected } => {
                *self = EditorPopup::Restart { selected: previous_restart(selected) };
            },
        }
    }

    pub fn move_down(&mut self)
        ensures
            same_popup(*old(self), *final(self)),
            marked(*final(self)) == (marked(*old(self)) + 1) % options(*old(self)),
    {
        match *self {
            EditorPopup::Tty { selected } => {
                *self = EditorPopup::Tty { selected: !selected };
            },
            EditorPopup::Restart { selected } => {
                *self = EditorPopup::Restart { selected: next_restart(selected) };
            },
        }
    }

    pub fn apply(self, tty: &mut bool, restart: &mut RestartPolicy)
        ensures
            match self {
                EditorPopup::Tty { selected } => *final(tty) == selected && *final(restart) == *old(
                    restart,
                ),
                EditorPopup::Restart { selected } => *final(restart) == selected && *final(tty)
                    == *old(tty),
            },
    {
        match self {
            EditorPopup::Tty { selected } => {
                *tty = selected;
            },
            EditorPopup::Restart { selected } => {
                *restart = selected;
            },
        }
    }
}

pub fn next_restart(policy: RestartPolicy) -> (r: RestartPolicy)
    ensures
        restart_place(r) == (restart_place(policy) + 1) % 3,
{
    match policy {
        RestartPolicy::Never => RestartPolicy::OnFailure,
        RestartPolicy::OnFailure => RestartPolicy::Always,
        RestartPolicy::Always => RestartPolicy::Never,
    }
}

pub fn previous_restart(policy: RestartPolicy) -> (r: RestartPolicy)
    ensures
        restart_place(r) == (restart_place(policy) + 2) % 3,
{
    match policy {
        RestartPolicy::Never => RestartPolicy::Always,
        RestartPolicy::OnFailure => RestartPolicy::Never,
        RestartPolicy::Always => RestartPolicy::OnFailure,
    }
}

pub fn restart_index(policy: RestartPolicy) -> (r: usize)
    ensures
        r == restart_place(policy),
{
    match policy {
        RestartPolicy::Never => 0,
        RestartPolicy::OnFailure => 1,
        RestartPolicy::Always => 2,
    }
}

pub fn restart_from_index(index: usize) -> (r: RestartPolicy)
    ensures
        restart_place(r) == index % 3,
{
    let i: usize = index % 3;
    if i == 0 {
        RestartPolicy::Never
    } else if i == 1 {
        RestartPolicy::OnFailure
    } else {
        RestartPolicy::Always
    }
}

pub fn restart_name(policy: RestartPolicy) -> (r: &'static str)
    ensures
        r@ == policy_text(policy),
{
    policy.as_str()
}

pub fn tty_name(tty: bool) -> (r: &'static str)
    ensures
        r@ == (if tty { "Enabled"@ } else { "Disabled"@ }),
{
    if tty { "Enabled" } else { "Disabled" }
}

pub open spec fn state_text(state: ServiceState) -> Seq<char> {
    match state {
        ServiceState::Starting => "starting"@,
        ServiceState::Running => "running"@,
        ServiceState::Restarting => "restarting"@,
        ServiceState::Stopped => "stopped"@,
        ServiceState::Failed => "failed"@,
    }
}

pub fn state_name(state: &ServiceState) -> (r: &'static str)
    ensures
        r@ == state_text(*state),
{
    match *state {
        ServiceState::Starting => "starting",
        ServiceState::Running => "running",
        ServiceState::Restarting => "restarting",
        ServiceState::Stopped => "stopped",
        ServiceState::Failed => "failed",
    }
}

/// What is said after a command that was sent for the user.
pub fn command_notice(result: Result<(), String>, action: &str) -> (r: String)
    ensures
        match result {
            Ok(()) => r@ == action@ + " requested"@,
            Err(e) => r@ == action@ + ": "@ + e@,
        },
{
    match result {
        Ok(()) => cat2(action, " requested"),
        Err(error) => cat3(action, ": ", error.as_str()),
    }
}

/// The keys that do something for the selected service.
pub fn main_footer(services: &Vec<ServiceInfo>, selected: usize) -> (r: String)
    ensures
        selected >= services@.len() ==> r@ == "up/down/j/k move"@ + "   q/Esc quit"@,
        selected < services@.len() ==> r@ == "up/down/j/k move"@ + "   r restart   d disable   "@ + (
        if services@[selected as int].tty { "a attach"@ } else { "a attach unavailable"@ })
            + "   q/Esc quit"@,
{
    if selected >= services.len() {
        return cat2("up/down/j/k move", "   q/Esc quit");
    }
    let attach = if services[selected].tty { "a attach" } else { "a attach unavailable" };
    cat4("up/down/j/k move", "   r restart   d disable   ", attach, "   q/Esc quit")
}

/// The keys that do something in the editor.
pub fn editor_footer(selected: EditorField, popup_open: bool) -> (r: String)
    ensures
        r@ == (if popup_open {
            "up/down/j/k choose   Enter apply   Esc close"@
        } else if selected is Tty || selected is Restart {
            "Tab next   Shift-Tab previous   Enter choose   Ctrl-S save   Esc/Ctrl-C cancel"@
        } else {
            "Tab next   Shift-Tab previous   Ctrl-S save   Esc/Ctrl-C cancel"@
        }),
{
    if popup_open {
        "up/down/j/k choose   Enter apply   Esc close".to_owned()
    } else {
        match selected {
            EditorField::Tty | EditorField::Restart => "Tab next   Shift-Tab previous   Enter choose   Ctrl-S save   Esc/Ctrl-C cancel".to_owned(),
            _ => "Tab next   Shift-Tab previous   Ctrl-S save   Esc/Ctrl-C cancel".to_owned(),
        }
    }
}

} // verus!
