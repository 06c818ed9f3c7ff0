//! What the plain screen shows, and what keys do on it.
use crate::client::{paths_match, same_path};
use crate::config::{validation, ConfigError, RestartPolicy, ServiceConfig};
use crate::protocol::{Request, Response, ServiceInfo, Target};
use crate::text::{cat2, is_trim_of, trim, views};
use crate::tui::classic::{editor_footer, main_footer, marked, options, restart_name, state_name, state_text, tty_name, EditorField, EditorPopup};
use crate::tui::keys::{KeyCode, KeyEvent};
use crate::tui::layout::{lines_of, pad_right, padded, text_lines};
use crate::tui::widget::{plain, plain_look, Area, Color, Style};
use vstd::prelude::*;
use vstd::string::StringExecFns;

verus! {

pub const TIP_COUNT: usize = 5;

pub open spec fn tip_text(index: int) -> Seq<char> {
    if index % 5 == 0 {
        "one directory, one .served.json, one working directory"@
    } else if index % 5 == 1 {
        "the manager starts enabled services after a user-session restart"@
    } else if index % 5 == 2 {
        "tty:false keeps output as pipes and disables attach"@
    } else if index % 5 == 3 {
        "restart validates the new files before stopping the old process"@
    } else {
        "service output is intentionally kept in memory only"@
    }
}

/// One of the tips.
pub fn tip(index: usize) -> (r: &'static str)
    ensures
        r@ == tip_text(index as int),
{
    let i: usize = index % TIP_COUNT;
    if i == 0 {
        "one directory, one .served.json, one working directory"
    } else if i == 1 {
        "the manager starts enabled services after a user-session restart"
    } else if i == 2 {
        "tty:false keeps output as pipes and disables attach"
    } else if i == 3 {
        "restart validates the new files before stopping the old process"
    } else {
        "service output is intentionally kept in memory only"
    }
}

/// What a key asks for.
#[derive(Debug)]
pub enum PlainIntent {
    Nothing,
    Quit,
    /// A request, and the word for it in what is said afterwards.
    Send { request: Request, action: &'static str },
    Attach(String),
}

/// The list of services and what is said below it.
#[derive(Debug)]
pub struct PlainUi {
    pub services: Vec<ServiceInfo>,
    pub selected: usize,
    pub notice: String,
}

pub open spec fn some_in(services: Seq<ServiceInfo>, directory: Seq<char>) -> bool {
    exists|i: int|
        0 <= i < services.len() && same_path(#[trigger] services[i].directory@, directory)
}

fn any_in(services: &Vec<ServiceInfo>, directory: &str) -> (r: bool)
    ensures
        r == some_in(services@, directory@),
{
    let mut i: usize = 0;
    while i < services.len()
        invariant
            i <= services@.len(),
            forall|k: int|
                0 <= k < i ==> !same_path(#[trigger] services@[k].directory@, directory@),
        decreases services@.len() - i,
    {
        if paths_match(services[i].directory.as_str(), directory) {
            return true;
        }
        i += 1;
    }
    false
}

/// The place of the mark in a list that may have become shorter.
pub open spec fn kept_place(selected: usize, len: nat) -> usize {
    if len > 0 && selected >= len {
        (len - 1) as usize
    } else {
        selected
    }
}

impl PlainUi {
    pub fn new() -> (r: Self)
        ensures
            r.services@.len() == 0,
            r.selected == 0,
            r.notice@.len() == 0,
    {
        PlainUi { services: Vec::new(), selected: 0, notice: String::new() }
    }

    /// Takes in a list of services. `current` is the directory of the user and whether there is
    /// a configuration in it; `shown` is the response as it is shown.
    pub fn refreshed(&mut self, result: Result<Response, String>, shown: &str, current: &Option<(String, bool)>)
        ensures
            match result {
                Ok(Response::Services { services }) => {
                    &&& final(self).services == services
                    &&& final(self).selected == kept_place(old(self).selected, services@.len())
                    &&& final(self).notice@ == (match *current {
                        Some((directory, configured)) => if configured && !some_in(
                            services@,
                            directory@,
                        ) && old(self).notice@.len() == 0 {
                            "enable your service to manage it here!"@
                        } else {
                            old(self).notice@
                        },
                        None => old(self).notice@,
                    })
                },
                Ok(_) => {
                    &&& final(self).services == old(self).services
                    &&& final(self).selected == old(self).selected
                    &&& final(self).notice@ == "unexpected manager response: "@ + shown@
                },
                Err(e) => {
                    &&& final(self).services == old(self).services
                    &&& final(self).selected == old(self).selected
                    &&& final(self).notice@ == "manager unavailable: "@ + e@
                },
            },
    {
        match result {
            Ok(Response::Services { services }) => {
                self.services = services;
                let len: usize = self.services.len();
                if len > 0 && self.selected >= len {
                    self.selected = len - 1;
                }
                match current {
                    Some((directory, configured)) => {
                        if *configured && !any_in(&self.services, directory.as_str())
                            && self.notice.as_str().is_empty() {
                            self.notice = "enable your service to manage it here!".to_owned();
                        }
                    },
                    None => {},
                }
            },
            Ok(_) => {
                self.notice = cat2("unexpected manager response: ", shown);
            },
            Err(e) => {
                self.notice = cat2("manager unavailable: ", e.as_str());
            },
        }
    }

    /// What a key does. The list and what is said stay as they are.
    pub fn key(&mut self, key: KeyEvent) -> (r: PlainIntent)
        ensures
            final(self).services == old(self).services,
            final(self).notice == old(self).notice,
            final(self).selected == moved(*old(self), key),
            is_intent(*old(self), key, r),
    {
        match key.code {
            KeyCode::Char('q') | KeyCode::Esc => {
                return PlainIntent::Quit;
            },
            KeyCode::Char('c') => {
                if key.modifiers.control {
                    return PlainIntent::Quit;
                }
            },
            KeyCode::Down | KeyCode::Char('j') => {
                let len: usize = self.services.len();
                if len > 0 {
                    self.selected = if self.selected >= len - 1 {
                        len - 1
                    } else {
                        self.selected + 1
                    };
                }
            },
            KeyCode::Up | KeyCode::Char('k') => {
                if self.selected > 0 {
                    self.selected = self.selected - 1;
                }
            },
            KeyCode::Char('r') => {
                if self.selected < self.services.len() {
                    let name = self.services[self.selected].name.clone();
                    return PlainIntent::Send {
                        request: Request::Restart { target: Target::Name(name) },
                        action: "restart",
                    };
                }
            },
            KeyCode::Char('d') => {
                if self.selected < self.services.len() {
                    let name = self.services[self.selected].name.clone();
                    return PlainIntent::Send {
                        request: Request::Disable { target: Target::Name(name) },
                        action: "disable",
                    };
                }
            },
            KeyCode::Char('a') => {
                if self.selected < self.services.len() && self.services[self.selected].tty {
                    return PlainIntent::Attach(self.services[self.selected].name.clone());
                }
            },
            _ => {},
        }
        PlainIntent::Nothing
    }
}

/// Where the mark is after a key.
pub open spec fn moved(ui: PlainUi, key: KeyEvent) -> usize {
    let len = ui.services@.len();
    match key.code {
        KeyCode::Down | KeyCode::Char('j') => if len == 0 {
            ui.selected
        } else if ui.selected + 1 < len {
            (ui.selected + 1) as usize
        } else {
            (len - 1) as usize
        },
        KeyCode::Up | KeyCode::Char('k') => if ui.selected > 0 {
            (ui.selected - 1) as usize
        } else {
            0
        },
        _ => ui.selected,
    }
}

/// What a key asks for.
pub open spec fn is_intent(ui: PlainUi, key: KeyEvent, r: PlainIntent) -> bool {
    let here = ui.selected < ui.services@.len();
    let service = ui.services@[ui.selected as int];
    match key.code {
        KeyCode::Char('q') | KeyCode::Esc => r is Quit,
        KeyCode::Char('c') => if key.modifiers.control {
            r is Quit
        } else {
            r is Nothing
        },
        KeyCode::Char('r') => if here {
            r matches PlainIntent::Send { request: Request::Restart { target: Target::Name(n) }, action }
                && n@ == service.name@ && action@ == "restart"@
        } else {
            r is Nothing
        },
        KeyCode::Char('d') => if here {
            r matches PlainIntent::Send { request: Request::Disable { target: Target::Name(n) }, action }
                && n@ == service.name@ && action@ == "disable"@
        } else {
            r is Nothing
        },
        KeyCode::Char('a') => if here && service.tty {
            r matches PlainIntent::Attach(n) && n@ == service.name@
        } else {
            r is Nothing
        },
        _ => r is Nothing,
    }
}

/// How high a part of the screen is.
#[derive(Debug, Clone, Copy, PartialEq, Eq, Structural)]
pub enum Height {
    Exactly(u16),
    AtLeast(u16),
}

#[derive(Debug)]
pub enum Body {
    Text { text: String, bold: bool },
    /// A text that goes on in the next row where it is too long.
    Wrapped(String),
    Rows { rows: Vec<String>, selected: Option<usize> },
    /// One of the texts that can be edited.
    Field(usize),
}

pub enum BodyView {
    Text { text: Seq<char>, bold: bool },
    Wrapped(Seq<char>),
    Rows { rows: Seq<Seq<char>>, selected: Option<usize> },
    Field(usize),
}

impl View for Body {
    type V = BodyView;

    open spec fn view(&self) -> BodyView {
        match *self {
            Body::Text { text, bold } => BodyView::Text { text: text@, bold },
            Body::Wrapped(t) => BodyView::Wrapped(t@),
            Body::Rows { rows, selected } => BodyView::Rows { rows: views(rows@), selected },
            Body::Field(i) => BodyView::Field(i),
        }
    }
}

/// A part of the screen. A part with a title has a border; it is marked where it has the focus.
#[derive(Debug)]
pub struct Part {
    pub height: Height,
    pub title: Option<&'static str>,
    pub focused: bool,
    pub body: Body,
}

pub open spec fn is_part(p: Part, height: Height, title: Option<Seq<char>>, focused: bool, body: BodyView) -> bool {
    &&& p.height == height
    &&& match p.title {
        Some(t) => title == Some(t@),
        None => title is None,
    }
    &&& p.focused == focused
    &&& p.body@ == body
}

/// A service in the list: name and state in columns, then the directory.
pub open spec fn service_row(s: ServiceInfo) -> Seq<char> {
    padded(s.name@, 18) + " "@ + padded(state_text(s.state), 11) + " "@ + s.directory@
}

pub open spec fn service_rows(services: Seq<ServiceInfo>) -> Seq<Seq<char>> {
    Seq::new(services.len(), |i: int| service_row(services[i]))
}

fn list_rows(services: &Vec<ServiceInfo>) -> (r: Vec<String>)
    ensures
        views(r@) == service_rows(services@),
{
    let mut out: Vec<String> = Vec::new();
    let mut i: usize = 0;
    while i < services.len()
        invariant
            i <= services@.len(),
            views(out@) == service_rows(services@).take(i as int),
        decreases services@.len() - i,
    {
        let ghost before = out@;
        let s = &services[i];
        let name = pad_right(s.name.as_str(), 18);
        let state = pad_right(state_name(&s.state), 11);
        let row = crate::text::cat5(name.as_str(), " ", state.as_str(), " ", s.directory.as_str());
        out.push(row);
        proof {
            assert(views(out@) =~= views(before).push(service_row(*s)));
            assert(service_rows(services@).take(i + 1) =~= service_rows(services@).take(
                i as int,
            ).push(service_row(*s)));
        }
        i += 1;
    }
    assert(service_rows(services@).take(i as int) =~= service_rows(services@));
    out
}

/// The parts of the list of services, from the top down.
pub open spec fn is_main(parts: Seq<Part>, services: Seq<ServiceInfo>, selected: usize, tip: Seq<char>, notice: Seq<char>, footer: Seq<char>) -> bool {
    &&& parts.len() == 6
    &&& is_part(
        parts[0],
        Height::Exactly(3),
        Some("manager"@),
        false,
        BodyView::Text { text: "served"@, bold: false },
    )
    &&& is_part(
        parts[1],
        Height::AtLeast(6),
        Some("enabled services"@),
        false,
        BodyView::Rows {
            rows: service_rows(services),
            selected: if services.len() == 0 {
                None
            } else {
                Some(kept_place(selected, services.len()))
            },
        },
    )
    &&& is_part(
        parts[2],
        Height::Exactly(7),
        Some("recent output"@),
        false,
        BodyView::Wrapped(
            if selected < services.len() {
                services[selected as int].output_tail@
            } else {
                "No service selected"@
            },
        ),
    )
    &&& is_part(
        parts[3],
        Height::Exactly(2),
        None,
        false,
        BodyView::Text { text: notice, bold: false },
    )
    &&& is_part(
        parts[4],
        Height::Exactly(1),
        None,
        false,
        BodyView::Text { text: "tips: "@ + tip, bold: false },
    )
    &&& is_part(parts[5], Height::Exactly(2), None, false, BodyView::Wrapped(footer))
}

pub open spec fn main_footer_text(services: Seq<ServiceInfo>, selected: usize) -> Seq<char> {
    if selected >= services.len() {
        "up/down/j/k move"@ + "   q/Esc quit"@
    } else {
        "up/down/j/k move"@ + "   r restart   d disable   "@ + (if services[selected as int].tty {
            "a attach"@
        } else {
            "a attach unavailable"@
        }) + "   q/Esc quit"@
    }
}

pub fn draw(services: &Vec<ServiceInfo>, selected: usize, tip: &str, notice: &str) -> (r: Vec<Part>)
    ensures
        is_main(
            r@,
            services@,
            selected,
            tip@,
            notice@,
            main_footer_text(services@, selected),
        ),
{
    let len: usize = services.len();
    let mark = if len == 0 {
        None
    } else if selected >= len {
        Some(len - 1)
    } else {
        Some(selected)
    };
    let output = if selected < len {
        services[selected].output_tail.clone()
    } else {
        "No service selected".to_owned()
    };
    let mut out: Vec<Part> = Vec::new();
    out.push(
        Part {
            height: Height::Exactly(3),
            title: Some("manager"),
            focused: false,
            body: Body::Text { text: "served".to_owned(), bold: false },
        },
    );
    out.push(
        Part {
            height: Height::AtLeast(6),
            title: Some("enabled services"),
            focused: false,
            body: Body::Rows { rows: list_rows(services), selected: mark },
        },
    );
    out.push(
        Part {
            height: Height::Exactly(7),
            title: Some("recent output"),
            focused: false,
            body: Body::Wrapped(output),
        },
    );
    out.push(
        Part {
            height: Height::Exactly(2),
            title: None,
            focused: false,
            body: Body::Text { text: notice.to_owned(), bold: false },
        },
    );
    out.push(
        Part {
            height: Height::Exactly(1),
            title: None,
            focused: false,
            body: Body::Text { text: cat2("tips: ", tip), bold: false },
        },
    );
    out.push(
        Part {
            height: Height::Exactly(2),
            title: None,
            focused: false,
            body: Body::Wrapped(main_footer(services, selected)),
        },
    );
    out
}

/// What a key comes to in the editor.
#[derive(Debug, Clone, Copy, PartialEq, Eq, Structural)]
pub enum EditorStep {
    Stay,
    Cancel,
    Save,
    /// The key goes to the text of that number.
    Type(usize),
}

/// The editor but for its texts.
#[derive(Debug, Clone, Copy, PartialEq, Eq, Structural)]
pub struct EditorState {
    pub selected: EditorField,
    pub popup: Option<EditorPopup>,
    pub tty: bool,
    pub restart: RestartPolicy,
}

/// What a key does while a popup is open: the choice moves, is applied or is dropped.
pub open spec fn in_popup(e: EditorState, popup: EditorPopup, key: KeyEvent, r: EditorState) -> bool {
    match key.code {
        KeyCode::Up | KeyCode::Char('k') => {
            &&& r.popup matches Some(q) && (q is Tty == popup is Tty) && marked(q) == (marked(popup)
                + options(popup) - 1) % options(popup)
            &&& r == (EditorState { popup: r.popup, ..e })
        },
        KeyCode::Down | KeyCode::Char('j') => {
            &&& r.popup matches Some(q) && (q is Tty == popup is Tty) && marked(q) == (marked(popup)
                + 1) % options(popup)
            &&& r == (EditorState { popup: r.popup, ..e })
        },
        KeyCode::Enter => r == (match popup {
            EditorPopup::Tty { selected } => EditorState { popup: None, tty: selected, ..e },
            EditorPopup::Restart { selected } => EditorState { popup: None, restart: selected, ..e },
        }),
        KeyCode::Esc => r == (EditorState { popup: None, ..e }),
        _ => r == e,
    }
}

pub open spec fn text_of(field: EditorField) -> EditorStep {
    match field {
        EditorField::Name => EditorStep::Type(0),
        EditorField::Command => EditorStep::Type(1),
        EditorField::Env => EditorStep::Type(2),
        _ => EditorStep::Stay,
    }
}

/// What a key does on the fields.
pub open spec fn on_fields(e: EditorState, key: KeyEvent, r: EditorState, step: EditorStep) -> bool {
    if key.modifiers.control {
        r == e && step == (if key.code == KeyCode::Char('s') {
            EditorStep::Save
        } else {
            EditorStep::Stay
        })
    } else {
        match key.code {
            KeyCode::Esc => r == e && step is Cancel,
            KeyCode::BackTab => step is Stay && is_previous(e, r),
            KeyCode::Tab => step is Stay && (if key.modifiers.shift {
                is_previous(e, r)
            } else {
                crate::tui::classic::field_place(r.selected) == (crate::tui::classic::field_place(
                    e.selected,
                ) + 1) % 5 && r == (EditorState { selected: r.selected, ..e })
            }),
            KeyCode::Enter => match e.selected {
                EditorField::Tty => step is Stay && r == (EditorState {
                    popup: Some(EditorPopup::Tty { selected: e.tty }),
                    ..e
                }),
                EditorField::Restart => step is Stay && r == (EditorState {
                    popup: Some(EditorPopup::Restart { selected: e.restart }),
                    ..e
                }),
                _ => r == e && step == text_of(e.selected),
            },
            _ => r == e && step == text_of(e.selected),
        }
    }
}

pub open spec fn is_previous(e: EditorState, r: EditorState) -> bool {
    &&& crate::tui::classic::field_place(r.selected) == (crate::tui::classic::field_place(e.selected)
        + 4) % 5
    &&& r == (EditorState { selected: r.selected, ..e })
}

impl EditorState {
    pub fn new(tty: bool, restart: RestartPolicy) -> (r: Self)
        ensures
            r == (EditorState { selected: EditorField::Name, popup: None, tty, restart }),
    {
        EditorState { selected: EditorField::Name, popup: None, tty, restart }
    }

    pub fn key(&mut self, key: KeyEvent) -> (r: EditorStep)
        ensures
            if key.modifiers.control && key.code == KeyCode::Char('c') {
                r is Cancel && *final(self) == *old(self)
            } else {
                match old(self).popup {
                    Some(p) => r is Stay && in_popup(*old(self), p, key, *final(self)),
                    None => on_fields(*old(self), key, *final(self), r),
                }
            },
    {
        let interrupt = match key.code {
            KeyCode::Char('c') => key.modifiers.control,
            _ => false,
        };
        if interrupt {
            return EditorStep::Cancel;
        }
        match self.popup {
            Some(p) => {
                let mut popup = p;
                match key.code {
                    KeyCode::Up | KeyCode::Char('k') => {
                        popup.move_up();
                        self.popup = Some(popup);
                    },
                    KeyCode::Down | KeyCode::Char('j') => {
                        popup.move_down();
                        self.popup = Some(popup);
                    },
                    KeyCode::Enter => {
                        let mut tty = self.tty;
                        let mut restart = self.restart;
                        popup.apply(&mut tty, &mut restart);
                        self.tty = tty;
                        self.restart = restart;
                        self.popup = None;
                    },
                    KeyCode::Esc => {
                        self.popup = None;
                    },
                    _ => {},
                }
                return EditorStep::Stay;
            },
            None => {},
        }
        if key.modifiers.control {
            return match key.code {
                KeyCode::Char('s') => EditorStep::Save,
                _ => EditorStep::Stay,
            };
        }
        match key.code {
            KeyCode::Esc => {
                return EditorStep::Cancel;
            },
            KeyCode::BackTab => {
                self.selected = self.selected.previous();
                return EditorStep::Stay;
            },
            KeyCode::Tab => {
                self.selected = if key.modifiers.shift {
                    self.selected.previous()
                } else {
                    self.selected.next()
                };
                return EditorStep::Stay;
            },
            KeyCode::Enter => {
                match EditorPopup::open(self.selected, self.tty, self.restart) {
                    Some(p) => {
                        self.popup = Some(p);
                        return EditorStep::Stay;
                    },
                    None => {},
                }
            },
            _ => {},
        }
        match self.selected.text_index() {
            Some(i) => EditorStep::Type(i),
            None => EditorStep::Stay,
        }
    }
}

/// The popup as it is shown.
#[derive(Debug)]
pub struct PopupView {
    pub area: Area,
    pub title: &'static str,
    pub options: Vec<&'static str>,
    pub selected: usize,
    /// How the selected option looks.
    pub highlight: Style,
}

/// Black on yellow, and bold.
pub open spec fn popup_look() -> Style {
    Style { fg: Some(Color::Black), bg: Some(Color::Yellow), bold: true, ..plain_look() }
}

pub open spec fn smaller(a: int, b: int) -> int {
    if a < b {
        a
    } else {
        b
    }
}

/// The room of a screen with a border of one cell left free.
pub open spec fn within(n: u16) -> int {
    if n < 2 {
        0
    } else {
        n - 2
    }
}

/// An area of that size in the middle of another, smaller where there is no room for it.
pub fn centered_rect(area: Area, width: u16, height: u16) -> (r: Area)
    requires
        area.x + area.width <= u16::MAX,
        area.y + area.height <= u16::MAX,
    ensures
        r.width == smaller(width as int, within(area.width)),
        r.height == smaller(height as int, within(area.height)),
        r.x == area.x + (area.width - r.width) / 2,
        r.y == area.y + (area.height - r.height) / 2,
{
    let inner_width: u16 = if area.width < 2 { 0 } else { area.width - 2 };
    let inner_height: u16 = if area.height < 2 { 0 } else { area.height - 2 };
    let w: u16 = if width < inner_width { width } else { inner_width };
    let h: u16 = if height < inner_height { height } else { inner_height };
    Area {
        x: area.x + (area.width - w) / 2,
        y: area.y + (area.height - h) / 2,
        width: w,
        height: h,
    }
}

/// How wide a popup is.
pub const POPUP_WIDTH: u16 = 34;

pub open spec fn option_text(popup: EditorPopup, i: int) -> Seq<char> {
    match popup {
        EditorPopup::Tty { .. } => if i == 0 {
            "Enabled"@
        } else {
            "Disabled"@
        },
        EditorPopup::Restart { .. } => if i == 0 {
            crate::config::policy_text(RestartPolicy::Never)
        } else if i == 1 {
            crate::config::policy_text(RestartPolicy::OnFailure)
        } else {
            crate::config::policy_text(RestartPolicy::Always)
        },
    }
}

pub fn draw_popup(area: Area, popup: EditorPopup) -> (r: PopupView)
    requires
        area.x + area.width <= u16::MAX,
        area.y + area.height <= u16::MAX,
    ensures
        popup is Tty ==> r.title@ == "select TTY"@,
        popup is Restart ==> r.title@ == "select restart policy"@,
        r.options@.len() == options(popup),
        forall|i: int|
            0 <= i < r.options@.len() ==> (#[trigger] r.options@[i])@ == option_text(popup, i),
        r.selected == marked(popup),
        r.highlight == popup_look(),
        r.area.width == smaller(POPUP_WIDTH as int, within(area.width)),
        r.area.height == smaller(options(popup) + 2, within(area.height)),
        r.area.x == area.x + (area.width - r.area.width) / 2,
        r.area.y == area.y + (area.height - r.area.height) / 2,
{
    let count: usize = popup.option_count();
    let mut labels: Vec<&'static str> = Vec::new();
    let mut i: usize = 0;
    while i < count
        invariant
            i <= count,
            count == options(popup),
            labels@.len() == i,
            forall|k: int|
                0 <= k < i ==> (#[trigger] labels@[k])@ == option_text(popup, k),
        decreases count - i,
    {
        let label = popup.option_label(i);
        assert(label@ == option_text(popup, i as int));
        labels.push(label);
        i += 1;
    }
    let place = centered_rect(area, POPUP_WIDTH, count as u16 + 2);
    let mut highlight = plain();
    highlight.fg = Some(Color::Black);
    highlight.bg = Some(Color::Yellow);
    highlight.bold = true;
    PopupView {
        area: place,
        title: popup.title(),
        options: labels,
        selected: popup.selected_index(),
        highlight,
    }
}

/// The parts of the editor, from the top down.
pub open spec fn is_editor(parts: Seq<Part>, e: EditorState, tip: Seq<char>, footer: Seq<char>) -> bool {
    &&& parts.len() == 8
    &&& is_part(
        parts[0],
        Height::Exactly(3),
        Some(".served editor"@),
        false,
        BodyView::Text { text: "edit .served.json and .env"@, bold: false },
    )
    &&& is_part(
        parts[1],
        Height::Exactly(3),
        Some("name"@),
        e.selected is Name,
        BodyView::Field(0),
    )
    &&& is_part(
        parts[2],
        Height::Exactly(3),
        Some("command"@),
        e.selected is Command,
        BodyView::Field(1),
    )
    &&& is_part(
        parts[3],
        Height::Exactly(3),
        Some("TTY"@),
        e.selected is Tty,
        BodyView::Text {
            text: if e.tty {
                "Enabled"@
            } else {
                "Disabled"@
            },
            bold: e.selected is Tty,
        },
    )
    &&& is_part(
        parts[4],
        Height::Exactly(3),
        Some("restart"@),
        e.selected is Restart,
        BodyView::Text {
            text: crate::config::policy_text(e.restart),
            bold: e.selected is Restart,
        },
    )
    &&& is_part(
        parts[5],
        Height::AtLeast(4),
        Some(".env.served"@),
        e.selected is Env,
        BodyView::Field(2),
    )
    &&& is_part(
        parts[6],
        Height::Exactly(1),
        None,
        false,
        BodyView::Text { text: "tips: "@ + tip, bold: false },
    )
    &&& is_part(parts[7], Height::Exactly(2), None, false, BodyView::Wrapped(footer))
}

pub open spec fn editor_footer_text(e: EditorState) -> Seq<char> {
    if e.popup is Some {
        "up/down/j/k choose   Enter apply   Esc close"@
    } else if e.selected is Tty || e.selected is Restart {
        "Tab next   Shift-Tab previous   Enter choose   Ctrl-S save   Esc/Ctrl-C cancel"@
    } else {
        "Tab next   Shift-Tab previous   Ctrl-S save   Esc/Ctrl-C cancel"@
    }
}

fn field_part(field: EditorField, e: &EditorState, height: Height, body: Body) -> (r: Part)
    ensures
        r.height == height,
        r.title is Some,
        r.title->0@ == (match field {
            EditorField::Name => "name"@,
            EditorField::Command => "command"@,
            EditorField::Tty => "TTY"@,
            EditorField::Restart => "restart"@,
            EditorField::Env => ".env.served"@,
        }),
        r.focused == (e.selected == field),
        r.body == body,
{
    Part { height, title: Some(field.title()), focused: e.selected == field, body }
}

pub fn draw_editor(e: &EditorState, tip: &str) -> (r: Vec<Part>)
    ensures
        is_editor(r@, *e, tip@, editor_footer_text(*e)),
{
    let mut out: Vec<Part> = Vec::new();
    out.push(
        Part {
            height: Height::Exactly(3),
            title: Some(".served editor"),
            focused: false,
            body: Body::Text { text: "edit .served.json and .env".to_owned(), bold: false },
        },
    );
    out.push(field_part(EditorField::Name, e, Height::Exactly(3), Body::Field(0)));
    out.push(field_part(EditorField::Command, e, Height::Exactly(3), Body::Field(1)));
    out.push(
        field_part(
            EditorField::Tty,
            e,
            Height::Exactly(3),
            Body::Text {
                text: tty_name(e.tty).to_owned(),
                bold: e.selected == EditorField::Tty,
            },
        ),
    );
    out.push(
        field_part(
            EditorField::Restart,
            e,
            Height::Exactly(3),
            Body::Text {
                text: restart_name(e.restart).to_owned(),
                bold: e.selected == EditorField::Restart,
            },
        ),
    );
    out.push(field_part(EditorField::Env, e, Height::AtLeast(4), Body::Field(2)));
    out.push(
        Part {
            height: Height::Exactly(1),
            title: None,
            focused: false,
            body: Body::Text { text: cat2("tips: ", tip), bold: false },
        },
    );
    out.push(
        Part {
            height: Height::Exactly(2),
            title: None,
            focused: false,
            body: Body::Wrapped(editor_footer(e.selected, e.popup.is_some())),
        },
    );
    out
}

/// Lines with a line feed between them.
pub open spec fn joined_lines(lines: Seq<Seq<char>>) -> Seq<char>
    decreases lines.len(),
{
    if lines.len() == 0 {
        Seq::empty()
    } else if lines.len() == 1 {
        lines[0]
    } else {
        joined_lines(lines.drop_last()) + "\n"@ + lines.last()
    }
}

fn join_lines(lines: &Vec<String>) -> (r: String)
    ensures
        r@ == joined_lines(views(lines@)),
{
    let ghost all = views(lines@);
    let mut out = String::new();
    let mut i: usize = 0;
    assert(out@ =~= joined_lines(all.take(0)));
    while i < lines.len()
        invariant
            i <= lines@.len(),
            all == views(lines@),
            out@ == joined_lines(all.take(i as int)),
        decreases lines@.len() - i,
    {
        assert(all.take(i + 1).drop_last() =~= all.take(i as int));
        assert(all.take(i + 1).last() == lines@[i as int]@);
        let ghost before = out@;
        if i > 0 {
            out.append("\n");
        }
        out.append(lines[i].as_str());
        proof {
            if i == 0 {
                assert(out@ =~= lines@[0]@);
            } else {
                assert(out@ =~= before + "\n"@ + lines@[i as int]@);
            }
        }
        i += 1;
    }
    assert(all.take(i as int) =~= all);
    out
}

/// The lines of the environment file as the editor takes them up: there is always one.
pub fn env_lines(text: &str) -> (r: Vec<String>)
    ensures
        text@.len() == 0 ==> r@.len() == 1 && r@[0]@.len() == 0,
        text@.len() > 0 ==> views(r@) == lines_of(text@),
{
    if text.is_empty() {
        let mut out: Vec<String> = Vec::new();
        out.push(String::new());
        return out;
    }
    text_lines(text)
}

/// The environment file as it is written.
pub fn env_text(lines: &Vec<String>) -> (r: String)
    ensures
        r@ == joined_lines(views(lines@)) + "\n"@,
{
    let body = join_lines(lines);
    cat2(body.as_str(), "\n")
}

/// The configuration with what was edited, or what is wrong with it. The name loses the white
/// space around it.
pub fn edited(config: ServiceConfig, name: &Vec<String>, command: &Vec<String>, tty: bool, restart: RestartPolicy) -> (r: Result<ServiceConfig, ConfigError>)
    ensures
        exists|trimmed: Seq<char>|
            {
                let view = (crate::config::ConfigView {
                    name: trimmed,
                    command: joined_lines(views(command@)),
                    tty,
                    restart,
                    ..config@
                });
                &&& #[trigger] is_trim_of(trimmed, joined_lines(views(name@)))
                &&& match r {
                    Ok(c) => validation(view, Ok(())) && c@ == view,
                    Err(e) => validation(view, Err(e)),
                }
            },
{
    let whole = join_lines(name);
    let trimmed = trim(whole.as_str());
    let ghost short = trimmed@;
    let config = ServiceConfig {
        name: trimmed,
        command: join_lines(command),
        tty,
        restart,
        ..config
    };
    assert(is_trim_of(short, joined_lines(views(name@))));
    match config.validate() {
        Ok(()) => Ok(config),
        Err(e) => Err(e),
    }
}

/// Leaving a popup without applying it changes neither setting.
pub proof fn law_choices_are_staged(e: EditorState, popup: EditorPopup, key: KeyEvent, r: EditorState)
    requires
        in_popup(e, popup, key, r),
        !(key.code is Enter),
    ensures
        r.tty == e.tty && r.restart == e.restart && r.selected == e.selected,
{
}

/// The mark never leaves a list that is not empty.
pub proof fn law_mark_stays_in_the_list(ui: PlainUi, key: KeyEvent)
    requires
        ui.selected < ui.services@.len(),
    ensures
        moved(ui, key) < ui.services@.len(),
{
}

} // verus!
