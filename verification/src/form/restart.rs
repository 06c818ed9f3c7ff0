//! Whether a service is restarted once its configuration was saved.
use crate::protocol::{Request, Response, ServiceInfo, ServiceKind, ServiceState, Target};
use crate::text::{cat2, cat3, same};
use crate::tui::keys::{control_only, no_modifiers, KeyCode, KeyEvent, KeyEventKind};
use vstd::prelude::*;

verus! {

/// A service whose process runs or is about to.
pub open spec fn is_active(s: ServiceInfo) -> bool {
    s.state is Running || s.state is Starting || s.state is Restarting
}

pub fn active(service: &ServiceInfo) -> (r: bool)
    ensures
        r == is_active(*service),
{
    match service.state {
        ServiceState::Running | ServiceState::Starting | ServiceState::Restarting => true,
        _ => false,
    }
}

/// A service that was read from the saved file. `source` is where its file really is, as far as
/// that could be found out.
pub open spec fn reads_file(
    s: ServiceInfo,
    source: Option<String>,
    file: Seq<char>,
    bound: Option<Seq<char>>,
) -> bool {
    &&& s.kind is Enabled
    &&& bound is None || bound->0 == s.name@
    &&& s.config_file is Some
    &&& source is Some && source->0@ == file
}

pub open spec fn opt_str(s: Option<&str>) -> Option<Seq<char>> {
    match s {
        Some(s) => Some(s@),
        None => None,
    }
}

pub open spec fn reading(
    services: Seq<ServiceInfo>,
    sources: Seq<Option<String>>,
    file: Seq<char>,
    bound: Option<Seq<char>>,
    i: int,
) -> bool {
    0 <= i < services.len() && i < sources.len() && reads_file(services[i], sources[i], file, bound)
}

/// Which service reads the saved file. More than one is refused.
pub fn matching_service(
    services: &Vec<ServiceInfo>,
    sources: &Vec<Option<String>>,
    file: &str,
    bound_name: Option<&str>,
) -> (r: Result<Option<usize>, String>)
    requires
        services@.len() == sources@.len(),
    ensures
        ({
            match r {
                Ok(None) => forall|i: int| !#[trigger] reading(
                    services@,
                    sources@,
                    file@,
                    opt_str(bound_name),
                    i,
                ),
                Ok(Some(k)) => reading(services@, sources@, file@, opt_str(bound_name), k as int)
                    && forall|i: int|
                    #[trigger] reading(services@, sources@, file@, opt_str(bound_name), i) ==> i == k,
                Err(e) => {
                    &&& e@
                        == "Several services reference this configuration; restart the intended service by name."@
                    &&& exists|i: int, j: int|
                        i != j && #[trigger] reading(
                            services@,
                            sources@,
                            file@,
                            opt_str(bound_name),
                            i,
                        ) && #[trigger] reading(services@, sources@, file@, opt_str(bound_name), j)
                },
            }
        }),
{
    let mut found: Option<usize> = None;
    let mut i: usize = 0;
    while i < services.len()
        invariant
            i <= services@.len(),
            services@.len() == sources@.len(),
            match found {
                None => forall|j: int| j < i ==> !#[trigger] reading(
                    services@,
                    sources@,
                    file@,
                    opt_str(bound_name),
                    j,
                ),
                Some(k) => k < i && reading(services@, sources@, file@, opt_str(bound_name), k as int)
                    && forall|j: int|
                    j < i && #[trigger] reading(services@, sources@, file@, opt_str(bound_name), j)
                        ==> j == k,
            },
        decreases services@.len() - i,
    {
        let s = &services[i];
        let enabled = match s.kind {
            ServiceKind::Enabled => true,
            ServiceKind::Temporary => false,
        };
        let named = match bound_name {
            None => true,
            Some(n) => same(s.name.as_str(), n),
        };
        let located = match &sources[i] {
            Some(f) => same(f.as_str(), file),
            None => false,
        };
        if enabled && named && s.config_file.is_some() && located {
            assert(reading(services@, sources@, file@, opt_str(bound_name), i as int));
            match found {
                Some(_) => {
                    return Err(
                        "Several services reference this configuration; restart the intended service by name.".to_owned(),
                    );
                },
                None => {
                    found = Some(i);
                },
            }
        } else {
            assert(!reading(services@, sources@, file@, opt_str(bound_name), i as int));
        }
        i += 1;
    }
    Ok(found)
}

/// What the manager's answer to a question for its services holds.
pub fn lookup(response: Response) -> (r: Result<Vec<ServiceInfo>, String>)
    ensures
        match response {
            Response::Services { services } => r == Ok::<Vec<ServiceInfo>, String>(services),
            Response::Error { message } => r is Err && r->Err_0@ == "Cannot check service state: "@
                + message@,
            _ => r is Err && r->Err_0@
                == "Cannot check service state: unexpected manager response"@,
        },
{
    match response {
        Response::Services { services } => Ok(services),
        Response::Error { message } => Err(cat2("Cannot check service state: ", message.as_str())),
        _ => Err("Cannot check service state: unexpected manager response".to_owned()),
    }
}

/// What is made of the service that reads the saved file.
pub open spec fn is_question(service: Option<ServiceInfo>, saved_name: Seq<char>, r: Result<bool, String>) -> bool {
    match r {
        Ok(ask) => match service {
            None => !ask,
            Some(s) => s.name@ == saved_name && ask == is_active(s),
        },
        Err(e) => service is Some && service->0.name@ != saved_name,
    }
}

/// The user is asked exactly where the service of that name runs or is about to; where it goes by
/// another name now, that is said.
pub proof fn law_running_services_are_asked_about(service: Option<ServiceInfo>, saved_name: Seq<char>, r: Result<bool, String>)
    requires
        is_question(service, saved_name, r),
    ensures
        r == Ok::<bool, String>(true) <==> (service matches Some(s) && s.name@ == saved_name && (s.state is Running
            || s.state is Starting || s.state is Restarting)),
        r is Err <==> (service matches Some(s) && s.name@ != saved_name),
{
}

/// Whether the user is asked at all.
pub fn after_save(service: Option<&ServiceInfo>, saved_name: &str) -> (r: Result<bool, String>)
    ensures
        match r {
            Ok(ask) => match service {
                None => !ask,
                Some(s) => s.name@ == saved_name@ && ask == is_active(*s),
            },
            Err(e) => {
                &&& service is Some && service->0.name@ != saved_name@
                &&& e@
                    == "The service was renamed. Disable the old service and enable the new configuration before restarting."@
            },
        },
        is_question(
            match service {
                Some(s) => Some(*s),
                None => None,
            },
            saved_name@,
            r,
        ),
{
    match service {
        None => Ok(false),
        Some(s) => {
            if !same(s.name.as_str(), saved_name) {
                return Err(
                    "The service was renamed. Disable the old service and enable the new configuration before restarting.".to_owned(),
                );
            }
            Ok(active(s))
        },
    }
}

/// What the prompt says.
pub fn restart_prompt(name: &str) -> (r: String)
    ensures
        r@ == "Restart "@ + name@ + " to apply changes?"@,
{
    cat3("Restart ", name, " to apply changes?")
}

#[derive(Debug, Clone, Copy, PartialEq, Eq, Structural)]
pub enum PromptStep {
    /// Keep asking, with this answer marked. The first answer is not to restart.
    Ask(usize),
    Decline,
    Restart,
}

pub open spec fn prompt_next(selected: usize, key: KeyEvent, usable: bool) -> PromptStep {
    let plain = key.modifiers == no_modifiers();
    let leave = (key.code is Esc && plain) || (key.modifiers == control_only() && (key.code == KeyCode::Char('c')
        || key.code == KeyCode::Char('q')));
    if !(key.kind is Press) {
        PromptStep::Ask(selected)
    } else if leave {
        PromptStep::Decline
    } else if !usable || !plain {
        PromptStep::Ask(selected)
    } else if key.code is Up || key.code is Down || key.code is Left || key.code is Right {
        PromptStep::Ask((1 - selected) as usize)
    } else if key.code is Enter {
        if selected == 0 {
            PromptStep::Decline
        } else {
            PromptStep::Restart
        }
    } else {
        PromptStep::Ask(selected)
    }
}

/// Nothing is restarted but by Enter on the second answer. The first answer and Esc leave the
/// service alone; the arrows go from one answer to the other, and back.
pub proof fn law_restarting_is_confirmed(selected: usize, key: KeyEvent, usable: bool)
    requires
        selected <= 1,
    ensures
        prompt_next(selected, key, usable) is Restart <==> selected == 1 && key.code is Enter && key.kind is Press
            && key.modifiers == no_modifiers() && usable,
        prompt_next(selected, key, usable) is Decline ==> key.kind is Press && (key.code is Esc || key.code
            == KeyCode::Char('c') || key.code == KeyCode::Char('q') || (key.code is Enter && selected == 0)),
        key.kind is Press && key.code is Esc && key.modifiers == no_modifiers() ==> prompt_next(selected, key, usable)
            is Decline,
        key.kind is Press && key.code is Down && key.modifiers == no_modifiers() && usable ==> prompt_next(
            selected,
            key,
            usable,
        ) == PromptStep::Ask(if selected == 0 { 1 } else { 0 }),
        key.kind !is Press ==> prompt_next(selected, key, usable) == PromptStep::Ask(selected),
{
}

/// What a key does while the user is asked. On a screen that is too small only leaving works.
pub fn prompt_key(selected: usize, key: KeyEvent, usable: bool) -> (r: PromptStep)
    requires
        selected <= 1,
    ensures
        ({
            let plain = key.modifiers == no_modifiers();
            let leave = (key.code is Esc && plain) || (key.modifiers == control_only() && (key.code
                == KeyCode::Char('c') || key.code == KeyCode::Char('q')));
            if !(key.kind is Press) {
                r == PromptStep::Ask(selected)
            } else if leave {
                r is Decline
            } else if !usable || !plain {
                r == PromptStep::Ask(selected)
            } else if key.code is Up || key.code is Down || key.code is Left || key.code is Right {
                r == PromptStep::Ask((1 - selected) as usize)
            } else if key.code is Enter {
                if selected == 0 { r is Decline } else { r is Restart }
            } else {
                r == PromptStep::Ask(selected)
            }
        }),
        r == prompt_next(selected, key, usable),
{
    match key.kind {
        KeyEventKind::Press => {},
        _ => {
            return PromptStep::Ask(selected);
        },
    }
    let m = key.modifiers;
    let plain = !m.shift && !m.control && !m.alt && !m.logo && !m.other;
    let control = !m.shift && m.control && !m.alt && !m.logo && !m.other;
    let leave = match key.code {
        KeyCode::Esc => plain,
        KeyCode::Char('c') | KeyCode::Char('q') => control,
        _ => false,
    };
    if leave {
        return PromptStep::Decline;
    }
    if !usable || !plain {
        return PromptStep::Ask(selected);
    }
    match key.code {
        KeyCode::Up | KeyCode::Down | KeyCode::Left | KeyCode::Right => PromptStep::Ask(1 - selected),
        KeyCode::Enter => {
            if selected == 0 {
                PromptStep::Decline
            } else {
                PromptStep::Restart
            }
        },
        _ => PromptStep::Ask(selected),
    }
}

pub open spec fn is_restart_request(current: Option<ServiceInfo>, name: Seq<char>, r: Result<Request, String>) -> bool {
    match current {
        None => r is Err,
        Some(s) => if is_active(s) {
            r matches Ok(Request::Restart { target: Target::Name(n) }) && n@ == name
        } else {
            r is Err
        },
    }
}

/// What is asked for is the restart of that service, and only while it runs: one that was stopped
/// meanwhile stays stopped.
pub proof fn law_stopped_services_stay_stopped(current: Option<ServiceInfo>, name: Seq<char>, r: Result<Request, String>)
    requires
        is_restart_request(current, name, r),
    ensures
        r is Ok <==> (current matches Some(s) && (s.state is Running || s.state is Starting || s.state is Restarting)),
        r matches Ok(q) ==> (q matches Request::Restart { target: Target::Name(n) } && n@ == name),
{
}

/// Whether the restart that was asked for is still the right thing, by what the service is now.
pub fn restart_request(current: Option<&ServiceInfo>, name: &str) -> (r: Result<Request, String>)
    ensures
        match current {
            None => r is Err && r->Err_0@
                == "Restart unavailable: the service no longer references this configuration"@,
            Some(s) => if is_active(*s) {
                r matches Ok(Request::Restart { target: Target::Name(n) }) && n@ == name@
            } else {
                r is Err && r->Err_0@
                    == "Restart skipped: the service is no longer running. Use Start when ready."@
            },
        },
        is_restart_request(
            match current {
                Some(s) => Some(*s),
                None => None,
            },
            name@,
            r,
        ),
{
    match current {
        None => Err(
            "Restart unavailable: the service no longer references this configuration".to_owned(),
        ),
        Some(s) => {
            if !active(s) {
                return Err(
                    "Restart skipped: the service is no longer running. Use Start when ready.".to_owned(),
                );
            }
            Ok(Request::Restart { target: Target::Name(name.to_owned()) })
        },
    }
}

pub fn restart_response(response: Response) -> (r: Result<(), String>)
    ensures
        match response {
            Response::Done => r is Ok,
            Response::Error { message } => r is Err && r->Err_0@ == "Restart failed: "@ + message@,
            _ => r is Err && r->Err_0@ == "Restart failed: unexpected manager response"@,
        },
{
    match response {
        Response::Done => Ok(()),
        Response::Error { message } => Err(cat2("Restart failed: ", message.as_str())),
        _ => Err("Restart failed: unexpected manager response".to_owned()),
    }
}

} // verus!
