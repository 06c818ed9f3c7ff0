//! The service list, its action menu, and what keys do there.
use crate::protocol::{Request, Response, ServiceInfo, ServiceKind, Target};
use crate::text::{cat2, cat3, cat4, opt_view, same};
use crate::tui::keys::{sat_add, sat_sub, rows_or_one, scroll_key, scrolled, KeyCode};
use vstd::prelude::*;
use vstd::string::StringExecFns;

verus! {

#[derive(Debug, Clone, Copy, PartialEq, Eq, Structural)]
pub enum LifecycleAction {
    Disable,
    Restart,
    Start,
    Stop,
}

pub open spec fn progressive(a: LifecycleAction) -> Seq<char> {
    match a {
        LifecycleAction::Disable => "disabling"@,
        LifecycleAction::Restart => "restarting"@,
        LifecycleAction::Start => "starting"@,
        LifecycleAction::Stop => "stopping"@,
    }
}

pub open spec fn past(a: LifecycleAction) -> Seq<char> {
    match a {
        LifecycleAction::Disable => "disabled"@,
        LifecycleAction::Restart => "restarted"@,
        LifecycleAction::Start => "started"@,
        LifecycleAction::Stop => "stopped"@,
    }
}

pub open spec fn verb(a: LifecycleAction) -> Seq<char> {
    match a {
        LifecycleAction::Disable => "disable"@,
        LifecycleAction::Restart => "restart"@,
        LifecycleAction::Start => "start"@,
        LifecycleAction::Stop => "stop"@,
    }
}

/// How a finished action ended, and what is said about it.
#[derive(Debug)]
pub struct LifecycleOutcome {
    pub succeeded: bool,
    pub notice: String,
}

/// What the manager is asked for an action on a service.
pub open spec fn asks_for(a: LifecycleAction, name: Seq<char>, r: Request) -> bool {
    match a {
        LifecycleAction::Start => r matches Request::Start { target: Target::Name(n) } && n@ == name,
        LifecycleAction::Stop => r matches Request::Stop { target: Target::Name(n) } && n@ == name,
        LifecycleAction::Disable => r matches Request::Disable { target: Target::Name(n) } && n@ == name,
        LifecycleAction::Restart => r matches Request::Restart { target: Target::Name(n) } && n@ == name,
    }
}

/// What an action changes in the life of a service.
pub open spec fn lifecycle_of(a: ServiceAction) -> Option<LifecycleAction> {
    match a {
        ServiceAction::Start => Some(LifecycleAction::Start),
        ServiceAction::Stop => Some(LifecycleAction::Stop),
        ServiceAction::Restart => Some(LifecycleAction::Restart),
        ServiceAction::Disable => Some(LifecycleAction::Disable),
        _ => None,
    }
}

impl LifecycleAction {
    pub fn progress_notice(self, name: &str, exit_when_complete: bool) -> (r: String)
        ensures
            r@ == progressive(self) + " "@ + name@ + "..."@ + (if exit_when_complete {
                "; quitting when complete"@
            } else {
                ""@
            }),
    {
        let action = match self {
            LifecycleAction::Disable => "disabling",
            LifecycleAction::Restart => "restarting",
            LifecycleAction::Start => "starting",
            LifecycleAction::Stop => "stopping",
        };
        let exit = if exit_when_complete { "; quitting when complete" } else { "" };
        let mut out = cat4(action, " ", name, "...");
        out.append(exit);
        out
    }

    pub fn success_notice(self, name: &str) -> (r: String)
        ensures
            r@ == past(self) + " "@ + name@,
    {
        let action = match self {
            LifecycleAction::Disable => "disabled",
            LifecycleAction::Restart => "restarted",
            LifecycleAction::Start => "started",
            LifecycleAction::Stop => "stopped",
        };
        cat3(action, " ", name)
    }

    pub fn error_notice(self, name: &str, error: &str) -> (r: String)
        ensures
            r@ == verb(self) + " "@ + name@ + ": "@ + error@,
    {
        let action = match self {
            LifecycleAction::Disable => "disable",
            LifecycleAction::Restart => "restart",
            LifecycleAction::Start => "start",
            LifecycleAction::Stop => "stop",
        };
        let mut out = cat4(action, " ", name, ": ");
        out.append(error);
        out
    }

    /// What the manager is asked to do.
    pub fn request(self, name: &str) -> (r: Request)
        ensures
            match self {
                LifecycleAction::Start => r matches Request::Start { target: Target::Name(n) } && n@
                    == name@,
                LifecycleAction::Stop => r matches Request::Stop { target: Target::Name(n) } && n@
                    == name@,
                LifecycleAction::Disable => r matches Request::Disable { target: Target::Name(n) }
                    && n@ == name@,
                LifecycleAction::Restart => r matches Request::Restart { target: Target::Name(n) }
                    && n@ == name@,
            },
            asks_for(self, name@, r),
    {
        let target = Target::Name(name.to_owned());
        match self {
            LifecycleAction::Start => Request::Start { target },
            LifecycleAction::Stop => Request::Stop { target },
            LifecycleAction::Disable => Request::Disable { target },
            LifecycleAction::Restart => Request::Restart { target },
        }
    }

    /// What is said once the action has ended.
    pub fn finish(self, name: &str, result: Result<(), String>) -> (r: LifecycleOutcome)
        ensures
            r.succeeded == result is Ok,
            match result {
                Ok(()) => r.notice@ == past(self) + " "@ + name@,
                Err(e) => r.notice@ == verb(self) + " "@ + name@ + ": "@ + e@,
            },
    {
        match result {
            Ok(()) => LifecycleOutcome { succeeded: true, notice: self.success_notice(name) },
            Err(e) => LifecycleOutcome {
                succeeded: false,
                notice: self.error_notice(name, e.as_str()),
            },
        }
    }
}

#[derive(Debug, Clone, Copy, PartialEq, Eq, Structural)]
pub enum Tone {
    Accent,
    Success,
    Warning,
    Error,
}

#[derive(Debug)]
pub struct Notice {
    pub text: String,
    pub tone: Tone,
}

impl Notice {
    pub fn new(text: &str, tone: Tone) -> (r: Self)
        ensures
            r.text@ == text@,
            r.tone == tone,
    {
        Notice { text: text.to_owned(), tone }
    }
}

#[derive(Debug, Clone, Copy, PartialEq, Eq, Structural)]
pub enum CrashPromptAction {
    Open,
    Cancel,
    Ignore,
}

pub open spec fn crash_answer(code: KeyCode) -> CrashPromptAction {
    match code {
        KeyCode::Char('y') => CrashPromptAction::Open,
        KeyCode::Char('Y') => CrashPromptAction::Open,
        KeyCode::Enter => CrashPromptAction::Open,
        KeyCode::Char('n') => CrashPromptAction::Cancel,
        KeyCode::Char('N') => CrashPromptAction::Cancel,
        KeyCode::Esc => CrashPromptAction::Cancel,
        _ => CrashPromptAction::Ignore,
    }
}

pub fn crash_prompt_action(code: &KeyCode) -> (r: CrashPromptAction)
    ensures
        r == crash_answer(*code),
{
    match *code {
        KeyCode::Char('y') | KeyCode::Char('Y') | KeyCode::Enter => CrashPromptAction::Open,
        KeyCode::Char('n') | KeyCode::Char('N') | KeyCode::Esc => CrashPromptAction::Cancel,
        _ => CrashPromptAction::Ignore,
    }
}

/// The part of a run's output that has been read, and where it stands on the screen.
#[derive(Debug)]
pub struct HistoryView {
    pub id: String,
    pub content: String,
    pub offset: u64,
    pub eof: bool,
    pub total_lines: u64,
    pub scroll: u64,
}

impl HistoryView {
    pub fn new(id: String) -> (r: Self)
        ensures
            r.id == id,
            r.content@.len() == 0,
            r.offset == 0,
            !r.eof,
            r.total_lines == 0,
            r.scroll == 0,
    {
        HistoryView {
            id,
            content: String::new(),
            offset: 0,
            eof: false,
            total_lines: 0,
            scroll: 0,
        }
    }
}

/// What can be done with a service, in the order of the menu.
#[derive(Debug, Clone, Copy, PartialEq, Eq, Structural)]
pub enum ServiceAction {
    Attach,
    Start,
    Stop,
    Restart,
    History,
    Disable,
}

pub const ACTION_COUNT: usize = 6;

/// The action at a place of the menu.
pub open spec fn action_at(i: int) -> ServiceAction {
    if i == 0 {
        ServiceAction::Attach
    } else if i == 1 {
        ServiceAction::Start
    } else if i == 2 {
        ServiceAction::Stop
    } else if i == 3 {
        ServiceAction::Restart
    } else if i == 4 {
        ServiceAction::History
    } else {
        ServiceAction::Disable
    }
}

pub open spec fn action_key(a: ServiceAction) -> char {
    match a {
        ServiceAction::Attach => 'a',
        ServiceAction::Start => 's',
        ServiceAction::Stop => 'x',
        ServiceAction::Restart => 'r',
        ServiceAction::History => 'h',
        ServiceAction::Disable => 'd',
    }
}

/// The action that a key stands for.
pub open spec fn keyed_action(key: KeyCode) -> Option<ServiceAction> {
    match key {
        KeyCode::Char('a') => Some(ServiceAction::Attach),
        KeyCode::Char('s') => Some(ServiceAction::Start),
        KeyCode::Char('x') => Some(ServiceAction::Stop),
        KeyCode::Char('r') => Some(ServiceAction::Restart),
        KeyCode::Char('h') => Some(ServiceAction::History),
        KeyCode::Char('d') => Some(ServiceAction::Disable),
        _ => None,
    }
}

pub open spec fn action_label(a: ServiceAction) -> Seq<char> {
    match a {
        ServiceAction::Attach => "Attach"@,
        ServiceAction::Start => "Start"@,
        ServiceAction::Stop => "Stop"@,
        ServiceAction::Restart => "Restart"@,
        ServiceAction::History => "History"@,
        ServiceAction::Disable => "Disable"@,
    }
}

/// The key that an action shows is the key that calls it.
pub proof fn law_action_keys_agree(a: ServiceAction, key: KeyCode)
    ensures
        keyed_action(KeyCode::Char(action_key(a))) == Some(a),
        keyed_action(key) == Some(a) ==> key == KeyCode::Char(action_key(a)),
{
}

impl ServiceAction {
    pub fn at(i: usize) -> (r: Self)
        ensures
            r == action_at(i as int),
    {
        if i == 0 {
            ServiceAction::Attach
        } else if i == 1 {
            ServiceAction::Start
        } else if i == 2 {
            ServiceAction::Stop
        } else if i == 3 {
            ServiceAction::Restart
        } else if i == 4 {
            ServiceAction::History
        } else {
            ServiceAction::Disable
        }
    }

    pub fn label(self) -> (r: &'static str)
        ensures
            r@ == action_label(self),
    {
        match self {
            ServiceAction::Attach => "Attach",
            ServiceAction::Start => "Start",
            ServiceAction::Stop => "Stop",
            ServiceAction::Restart => "Restart",
            ServiceAction::History => "History",
            ServiceAction::Disable => "Disable",
        }
    }

    pub fn key(self) -> (r: char)
        ensures
            r == action_key(self),
    {
        match self {
            ServiceAction::Attach => 'a',
            ServiceAction::Start => 's',
            ServiceAction::Stop => 'x',
            ServiceAction::Restart => 'r',
            ServiceAction::History => 'h',
            ServiceAction::Disable => 'd',
        }
    }

    pub fn from_key(key: KeyCode) -> (r: Option<Self>)
        ensures
            r == keyed_action(key),
    {
        match key {
            KeyCode::Char('a') => Some(ServiceAction::Attach),
            KeyCode::Char('s') => Some(ServiceAction::Start),
            KeyCode::Char('x') => Some(ServiceAction::Stop),
            KeyCode::Char('r') => Some(ServiceAction::Restart),
            KeyCode::Char('h') => Some(ServiceAction::History),
            KeyCode::Char('d') => Some(ServiceAction::Disable),
            _ => None,
        }
    }

    pub fn lifecycle(self) -> (r: Option<LifecycleAction>)
        ensures
            r == (match self {
                ServiceAction::Start => Some(LifecycleAction::Start),
                ServiceAction::Stop => Some(LifecycleAction::Stop),
                ServiceAction::Restart => Some(LifecycleAction::Restart),
                ServiceAction::Disable => Some(LifecycleAction::Disable),
                _ => None,
            }),
            r == lifecycle_of(self),
    {
        match self {
            ServiceAction::Start => Some(LifecycleAction::Start),
            ServiceAction::Stop => Some(LifecycleAction::Stop),
            ServiceAction::Restart => Some(LifecycleAction::Restart),
            ServiceAction::Disable => Some(LifecycleAction::Disable),
            _ => None,
        }
    }
}

#[derive(Debug, Clone, Copy)]
pub enum Page {
    Services,
    Actions { selected: usize, scroll: usize },
    ConfirmDisable { confirm: bool, menu: Option<(usize, usize)> },
}

/// A text that fills the screen and can be scrolled.
#[derive(Debug)]
pub struct Reader {
    pub tone: Tone,
    pub title: String,
    pub content: String,
    pub scroll: usize,
}

#[verifier::ext_equal]
pub struct ReaderView {
    pub tone: Tone,
    pub title: Seq<char>,
    pub content: Seq<char>,
    pub scroll: usize,
}

impl View for Reader {
    type V = ReaderView;

    open spec fn view(&self) -> ReaderView {
        ReaderView {
            tone: self.tone,
            title: self.title@,
            content: self.content@,
            scroll: self.scroll,
        }
    }
}

impl Reader {
    pub fn new(title: &str, content: &str) -> (r: Self)
        ensures
            r@ == (ReaderView { tone: Tone::Accent, title: title@, content: content@, scroll: 0 }),
    {
        Reader { tone: Tone::Accent, title: title.to_owned(), content: content.to_owned(), scroll: 0 }
    }

    pub fn error(title: &str, content: &str) -> (r: Self)
        ensures
            r@ == (ReaderView { tone: Tone::Error, title: title@, content: content@, scroll: 0 }),
    {
        Reader { tone: Tone::Error, title: title.to_owned(), content: content.to_owned(), scroll: 0 }
    }

    pub fn key(&mut self, key: KeyCode, page_rows: usize)
        ensures
            final(self)@ == (ReaderView {
                scroll: scrolled(old(self).scroll, key, page_rows),
                ..old(self)@
            }),
    {
        scroll_key(&mut self.scroll, key, page_rows);
    }
}

/// What the user wants.
#[derive(Debug)]
pub enum Intent {
    Nothing,
    Quit,
    Act(ServiceAction, String),
}

pub enum IntentView {
    Nothing,
    Quit,
    Act(ServiceAction, Seq<char>),
}

impl View for Intent {
    type V = IntentView;

    open spec fn view(&self) -> IntentView {
        match self {
            Intent::Nothing => IntentView::Nothing,
            Intent::Quit => IntentView::Quit,
            Intent::Act(a, n) => IntentView::Act(*a, n@),
        }
    }
}

#[derive(Debug)]
pub struct MainUi {
    pub services: Vec<ServiceInfo>,
    pub selected: usize,
    pub page: Page,
    pub help: Option<Reader>,
    pub message: Option<Reader>,
    pub initial_loading: bool,
    pub unavailable: Option<String>,
    /// What to say, and until when, in milliseconds.
    pub notice: Option<(Notice, u64)>,
    pub viewport: (u16, u16),
}

/// The part of the screen that keys change.
#[verifier::ext_equal]
pub struct UiView {
    pub selected: usize,
    pub page: Page,
    pub help: Option<ReaderView>,
    pub message: Option<ReaderView>,
}

pub open spec fn reader_opt(r: Option<Reader>) -> Option<ReaderView> {
    match r {
        Some(r) => Some(r@),
        None => None,
    }
}

pub open spec fn kind_text(kind: ServiceKind) -> Seq<char> {
    match kind {
        ServiceKind::Enabled => "enabled"@,
        ServiceKind::Temporary => "temporary"@,
    }
}

pub fn kind_name(kind: &ServiceKind) -> (r: &'static str)
    ensures
        r@ == kind_text(*kind),
{
    match *kind {
        ServiceKind::Enabled => "enabled",
        ServiceKind::Temporary => "temporary",
    }
}

pub open spec fn help_heading(page: Page) -> Seq<char> {
    match page {
        Page::Services => "Help / services"@,
        Page::Actions { .. } => "Help / actions"@,
        Page::ConfirmDisable { .. } => "Help / disable"@,
    }
}

pub open spec fn help_keys(page: Page) -> Seq<char> {
    match page {
        Page::Services => "↑↓ / j k  Select service\nenter  Open actions\nesc / q  Quit from main"@,
        Page::Actions { .. } => "↑↓ / j k  Select action\nenter  Run selected action\npgup / pgdn  Move by a page\nhome / end  First / last action\nesc / q  Back from actions"@,
        Page::ConfirmDisable { .. } => "↑↓ / j k  Select Cancel or Disable\nenter  Confirm selection\nesc / q  Cancel"@,
    }
}

/// The whole name and place of the service that a menu is about.
pub open spec fn service_details(page: Page, services: Seq<ServiceInfo>, selected: usize) -> Seq<char> {
    if page is Actions && selected < services.len() {
        let s = services[selected as int];
        "\n\nService: "@ + s.name@ + "\nDirectory: "@ + s.directory@ + "\nType: "@ + kind_text(s.kind)
    } else {
        Seq::empty()
    }
}

pub open spec fn main_help(
    page: Page,
    services: Seq<ServiceInfo>,
    selected: usize,
    pending: bool,
    unavailable: Option<Seq<char>>,
) -> Seq<char> {
    help_keys(page) + "\nctrl+c  Quit; wait for pending action"@ + service_details(
        page,
        services,
        selected,
    ) + (if pending {
        "\n\nOperation in progress: further actions are blocked."@
    } else {
        Seq::empty()
    }) + (match unavailable {
        Some(e) => "\n\nManager unavailable; data is stale:\n"@ + e,
        None => Seq::empty(),
    })
}

/// The highest scroll position at which the selected row is still shown.
pub open spec fn scroll_min(selected: usize, rows: usize) -> usize {
    sat_sub(selected, sat_sub(rows, 1) as int)
}

pub open spec fn min_of(a: usize, b: usize) -> usize {
    if a < b { a } else { b }
}

pub open spec fn max_of(a: usize, b: usize) -> usize {
    if a > b { a } else { b }
}

/// Where the page returns to when disabling is not confirmed.
pub open spec fn page_behind(menu: Option<(usize, usize)>, rows: usize) -> Page {
    match menu {
        Some(m) => Page::Actions { selected: m.0, scroll: max_of(m.1, scroll_min(m.0, rows)) },
        None => Page::Services,
    }
}

pub open spec fn up(key: KeyCode) -> bool {
    key is Up || key == KeyCode::Char('k')
}

pub open spec fn down(key: KeyCode) -> bool {
    key is Down || key == KeyCode::Char('j')
}

pub open spec fn back(key: KeyCode) -> bool {
    key is Esc || key == KeyCode::Char('q')
}

/// What an action leads to: disabling asks first, everything else is done.
pub open spec fn chosen(
    ui: UiView,
    services: Seq<ServiceInfo>,
    blocked: bool,
    action: Option<ServiceAction>,
) -> (UiView, IntentView) {
    if blocked || action is None || ui.selected >= services.len() {
        (ui, IntentView::Nothing)
    } else if action->0 is Disable {
        (
            UiView {
                page: Page::ConfirmDisable {
                    confirm: false,
                    menu: match ui.page {
                        Page::Actions { selected, scroll } => Some((selected, scroll)),
                        _ => None,
                    },
                },
                ..ui
            },
            IntentView::Nothing,
        )
    } else {
        (ui, IntentView::Act(action->0, services[ui.selected as int].name@))
    }
}

pub open spec fn services_key(
    ui: UiView,
    services: Seq<ServiceInfo>,
    blocked: bool,
    key: KeyCode,
) -> (UiView, IntentView) {
    if back(key) {
        (ui, IntentView::Quit)
    } else if up(key) {
        (UiView { selected: sat_sub(ui.selected, 1), ..ui }, IntentView::Nothing)
    } else if down(key) {
        (
            UiView {
                selected: min_of(
                    sat_add(ui.selected, 1),
                    if services.len() == 0 { 0 } else { (services.len() - 1) as usize },
                ),
                ..ui
            },
            IntentView::Nothing,
        )
    } else if key is Enter && services.len() > 0 {
        (UiView { page: Page::Actions { selected: 0, scroll: 0 }, ..ui }, IntentView::Nothing)
    } else {
        chosen(ui, services, blocked, keyed_action(key))
    }
}

pub open spec fn menu_page(key: KeyCode, selected: usize, rows: usize) -> usize {
    if key is PageUp {
        sat_sub(selected, rows_or_one(rows))
    } else if key is PageDown {
        min_of(sat_add(selected, rows_or_one(rows)), 5)
    } else if key is Home {
        0
    } else {
        5
    }
}

pub open spec fn actions_key(
    ui: UiView,
    selected: usize,
    scroll: usize,
    services: Seq<ServiceInfo>,
    blocked: bool,
    key: KeyCode,
    rows: usize,
) -> (UiView, IntentView) {
    if back(key) {
        (UiView { page: Page::Services, ..ui }, IntentView::Nothing)
    } else if up(key) {
        let s = sat_sub(selected, 1);
        (
            UiView { page: Page::Actions { selected: s, scroll: min_of(scroll, s) }, ..ui },
            IntentView::Nothing,
        )
    } else if down(key) {
        let s = min_of(sat_add(selected, 1), 5);
        (
            UiView { page: Page::Actions { selected: s, scroll: scroll_min(s, rows) }, ..ui },
            IntentView::Nothing,
        )
    } else if key is Enter {
        chosen(ui, services, blocked, Some(action_at(selected as int)))
    } else if key is PageUp || key is PageDown || key is Home || key is End {
        let s = menu_page(key, selected, rows);
        (
            UiView {
                page: Page::Actions {
                    selected: s,
                    scroll: max_of(min_of(scroll, s), scroll_min(s, rows)),
                },
                ..ui
            },
            IntentView::Nothing,
        )
    } else {
        chosen(ui, services, blocked, keyed_action(key))
    }
}

pub open spec fn disable_key(
    ui: UiView,
    confirm: bool,
    menu: Option<(usize, usize)>,
    services: Seq<ServiceInfo>,
    blocked: bool,
    key: KeyCode,
    rows: usize,
) -> (UiView, IntentView) {
    if back(key) {
        (UiView { page: page_behind(menu, rows), ..ui }, IntentView::Nothing)
    } else if up(key) {
        (UiView { page: Page::ConfirmDisable { confirm: false, menu }, ..ui }, IntentView::Nothing)
    } else if down(key) {
        (UiView { page: Page::ConfirmDisable { confirm: true, menu }, ..ui }, IntentView::Nothing)
    } else if key is Enter && confirm {
        if !blocked && ui.selected < services.len() {
            (
                UiView { page: Page::Services, ..ui },
                IntentView::Act(ServiceAction::Disable, services[ui.selected as int].name@),
            )
        } else {
            (ui, IntentView::Nothing)
        }
    } else if key is Enter {
        (UiView { page: page_behind(menu, rows), ..ui }, IntentView::Nothing)
    } else {
        (ui, IntentView::Nothing)
    }
}

/// What a key makes of the screen, and what the user wants by it.
pub open spec fn main_key(
    ui: UiView,
    services: Seq<ServiceInfo>,
    loading: bool,
    unavailable: Option<Seq<char>>,
    key: KeyCode,
    pending: bool,
    rows: usize,
) -> (UiView, IntentView) {
    let blocked = pending || unavailable is Some;
    if ui.help is Some {
        if back(key) || key == KeyCode::Char('?') {
            (UiView { help: None, ..ui }, IntentView::Nothing)
        } else {
            let h = ui.help->0;
            (
                UiView {
                    help: Some(ReaderView { scroll: scrolled(h.scroll, key, rows), ..h }),
                    ..ui
                },
                IntentView::Nothing,
            )
        }
    } else if ui.message is Some {
        if back(key) {
            (UiView { message: None, ..ui }, IntentView::Nothing)
        } else {
            let m = ui.message->0;
            (
                UiView {
                    message: Some(ReaderView { scroll: scrolled(m.scroll, key, rows), ..m }),
                    ..ui
                },
                IntentView::Nothing,
            )
        }
    } else if key == KeyCode::Char('?') {
        (
            UiView {
                help: Some(
                    ReaderView {
                        tone: Tone::Accent,
                        title: help_heading(ui.page),
                        content: main_help(ui.page, services, ui.selected, pending, unavailable),
                        scroll: 0,
                    },
                ),
                ..ui
            },
            IntentView::Nothing,
        )
    } else if loading {
        (ui, if back(key) { IntentView::Quit } else { IntentView::Nothing })
    } else {
        match ui.page {
            Page::Services => services_key(ui, services, blocked, key),
            Page::Actions { selected, scroll } => actions_key(
                ui,
                selected,
                scroll,
                services,
                blocked,
                key,
                rows,
            ),
            Page::ConfirmDisable { confirm, menu } => disable_key(
                ui,
                confirm,
                menu,
                services,
                blocked,
                key,
                rows,
            ),
        }
    }
}

pub open spec fn page_wf(page: Page) -> bool {
    match page {
        Page::Services => true,
        Page::Actions { selected, .. } => selected < 6,
        Page::ConfirmDisable { menu, .. } => menu is Some ==> (menu->0).0 < 6,
    }
}

/// The first service of that name.
pub open spec fn place_of_service(services: Seq<ServiceInfo>, name: Seq<char>, i: int) -> Option<int>
    decreases services.len() - i,
{
    if i < 0 || i >= services.len() {
        None
    } else if services[i].name@ == name {
        Some(i)
    } else {
        place_of_service(services, name, i + 1)
    }
}

fn is_up(key: KeyCode) -> (r: bool)
    ensures
        r == up(key),
{
    match key {
        KeyCode::Up | KeyCode::Char('k') => true,
        _ => false,
    }
}

fn is_down(key: KeyCode) -> (r: bool)
    ensures
        r == down(key),
{
    match key {
        KeyCode::Down | KeyCode::Char('j') => true,
        _ => false,
    }
}

fn is_back(key: KeyCode) -> (r: bool)
    ensures
        r == back(key),
{
    match key {
        KeyCode::Esc | KeyCode::Char('q') => true,
        _ => false,
    }
}

fn lowest_scroll(selected: usize, rows: usize) -> (r: usize)
    ensures
        r == scroll_min(selected, rows),
{
    selected.saturating_sub(rows.saturating_sub(1))
}

fn behind(menu: Option<(usize, usize)>, rows: usize) -> (r: Page)
    requires
        menu is Some ==> (menu->0).0 < 6,
    ensures
        r == page_behind(menu, rows),
        page_wf(r),
{
    match menu {
        Some((selected, scroll)) => {
            let low = lowest_scroll(selected, rows);
            Page::Actions { selected, scroll: if scroll > low { scroll } else { low } }
        },
        None => Page::Services,
    }
}

/// What happens to a key that comes in.
#[derive(Debug)]
pub enum LoopStep {
    Continue,
    Return,
    /// Leave as soon as the running action has ended.
    WaitForAction,
    /// Show the log that the prompt asks about.
    OpenLog,
    Act(ServiceAction, String),
}

pub enum LoopStepView {
    Continue,
    Return,
    WaitForAction,
    OpenLog,
    Act(ServiceAction, Seq<char>),
}

impl View for LoopStep {
    type V = LoopStepView;

    open spec fn view(&self) -> LoopStepView {
        match self {
            LoopStep::Continue => LoopStepView::Continue,
            LoopStep::Return => LoopStepView::Return,
            LoopStep::WaitForAction => LoopStepView::WaitForAction,
            LoopStep::OpenLog => LoopStepView::OpenLog,
            LoopStep::Act(a, n) => LoopStepView::Act(*a, n@),
        }
    }
}

/// What the loop knows besides the screen.
#[derive(Debug, Clone, Copy, PartialEq, Eq, Structural)]
pub struct LoopContext {
    pub release: bool,
    pub control: bool,
    pub pending: bool,
    pub usable: bool,
    pub rows: usize,
}

/// The prompt about a log is answered by `q` as by no.
pub open spec fn prompt_answer(key: KeyCode) -> CrashPromptAction {
    if key == KeyCode::Char('q') { CrashPromptAction::Cancel } else { crash_answer(key) }
}

/// What a key leads to in the loop: the screen, whether the prompt stays, and the next step.
pub open spec fn loop_step(
    ui: UiView,
    services: Seq<ServiceInfo>,
    loading: bool,
    unavailable: Option<Seq<char>>,
    prompt: bool,
    key: KeyCode,
    c: LoopContext,
) -> (UiView, bool, LoopStepView) {
    if c.release {
        (ui, prompt, LoopStepView::Continue)
    } else if key == KeyCode::Char('c') && c.control {
        (ui, prompt, if c.pending { LoopStepView::WaitForAction } else { LoopStepView::Return })
    } else if !c.usable && !back(key) {
        (ui, prompt, LoopStepView::Continue)
    } else if prompt {
        match prompt_answer(key) {
            CrashPromptAction::Open => (ui, false, LoopStepView::OpenLog),
            CrashPromptAction::Cancel => (
                UiView { message: None, ..ui },
                false,
                LoopStepView::Continue,
            ),
            CrashPromptAction::Ignore => (
                UiView {
                    message: match ui.message {
                        Some(m) => Some(
                            ReaderView { scroll: scrolled(m.scroll, key, c.rows), ..m },
                        ),
                        None => None,
                    },
                    ..ui
                },
                true,
                LoopStepView::Continue,
            ),
        }
    } else {
        let (next, intent) = main_key(ui, services, loading, unavailable, key, c.pending, c.rows);
        (
            next,
            false,
            match intent {
                IntentView::Nothing => LoopStepView::Continue,
                IntentView::Quit => if c.pending {
                    LoopStepView::WaitForAction
                } else {
                    LoopStepView::Return
                },
                IntentView::Act(a, n) => LoopStepView::Act(a, n),
            },
        )
    }
}

/// What is said of an action whose task came to no end of its own.
pub fn task_failure(error: &str) -> (r: String)
    ensures
        r@ == "background task failed: "@ + error@,
{
    cat2("background task failed: ", error)
}

impl MainUi {
    pub open spec fn ui(&self) -> UiView {
        UiView {
            selected: self.selected,
            page: self.page,
            help: reader_opt(self.help),
            message: reader_opt(self.message),
        }
    }

    pub open spec fn wf(&self) -> bool {
        page_wf(self.page)
    }

    /// Everything that keys leave alone.
    pub open spec fn same_data(&self, other: MainUi) -> bool {
        &&& self.services == other.services
        &&& self.initial_loading == other.initial_loading
        &&& self.unavailable == other.unavailable
        &&& self.notice == other.notice
        &&& self.viewport == other.viewport
    }

    pub fn new() -> (r: Self)
        ensures
            r.wf(),
            r.services@.len() == 0,
            r.selected == 0,
            r.page is Services,
            r.help is None,
            r.message is None,
            !r.initial_loading,
            r.unavailable is None,
            r.notice is None,
            r.viewport == (0u16, 0u16),
    {
        MainUi {
            services: Vec::new(),
            selected: 0,
            page: Page::Services,
            help: None,
            message: None,
            initial_loading: false,
            unavailable: None,
            notice: None,
            viewport: (0, 0),
        }
    }

    /// Takes in what the manager answered. `shown` is the answer as it is shown where it is not
    /// a list of services.
    pub fn complete_refresh(&mut self, result: Result<Response, String>, shown: &str)
        requires
            old(self).wf(),
        ensures
            final(self).wf(),
            !final(self).initial_loading,
            match result {
                Ok(Response::Services { services }) => {
                    &&& final(self).services == services
                    &&& final(self).unavailable is None
                    &&& final(self).selected == refreshed_place(
                        old(self).services@,
                        old(self).selected,
                        services@,
                    )
                    &&& final(self).page == refreshed_page(
                        old(self).services@,
                        old(self).selected,
                        services@,
                        old(self).page,
                    )
                },
                Ok(_) => {
                    &&& opt_view(final(self).unavailable) == Some(
                        "unexpected manager response: "@ + shown@,
                    )
                    &&& final(self).services == old(self).services
                    &&& final(self).selected == old(self).selected
                    &&& final(self).page == old(self).page
                },
                Err(e) => {
                    &&& opt_view(final(self).unavailable) == Some(e@)
                    &&& final(self).services == old(self).services
                    &&& final(self).selected == old(self).selected
                    &&& final(self).page == old(self).page
                },
            },
            reader_opt(final(self).help) == reader_opt(old(self).help),
            reader_opt(final(self).message) == reader_opt(old(self).message),
            final(self).notice == old(self).notice,
            final(self).viewport == old(self).viewport,
    {
        self.initial_loading = false;
        match result {
            Ok(Response::Services { services }) => self.refresh(services),
            Ok(_) => {
                self.unavailable = Some(cat2("unexpected manager response: ", shown));
            },
            Err(error) => {
                self.unavailable = Some(error);
            },
        }
    }

    /// Takes in a new list. The selection stays with the service, not with the place.
    pub fn refresh(&mut self, services: Vec<ServiceInfo>)
        requires
            old(self).wf(),
        ensures
            final(self).wf(),
            final(self).services == services,
            final(self).unavailable is None,
            !final(self).initial_loading,
            final(self).selected == refreshed_place(
                old(self).services@,
                old(self).selected,
                services@,
            ),
            final(self).page == refreshed_page(
                old(self).services@,
                old(self).selected,
                services@,
                old(self).page,
            ),
            final(self).help == old(self).help,
            final(self).message == old(self).message,
            final(self).notice == old(self).notice,
            final(self).viewport == old(self).viewport,
    {
        let mut matched: Option<usize> = None;
        if self.selected < self.services.len() {
            let name = self.services[self.selected].name.as_str();
            let mut i: usize = 0;
            while i < services.len() && matched.is_none()
                invariant
                    i <= services@.len(),
                    match matched {
                        Some(k) => place_of_service(services@, name@, 0) == Some(k as int),
                        None => place_of_service(services@, name@, 0) == place_of_service(
                            services@,
                            name@,
                            i as int,
                        ),
                    },
                decreases services@.len() - i + (if matched is None { 1int } else { 0 }),
            {
                if same(services[i].name.as_str(), name) {
                    matched = Some(i);
                } else {
                    i += 1;
                }
            }
            if matched.is_none() {
                self.page = Page::Services;
            }
        }
        let last: usize = if services.len() == 0 { 0 } else { services.len() - 1 };
        self.selected = match matched {
            Some(i) => i,
            None => if self.selected < last { self.selected } else { last },
        };
        self.initial_loading = false;
        self.services = services;
        self.unavailable = None;
    }

    pub fn notice(&self, now: u64) -> (r: Option<&Notice>)
        ensures
            match self.notice {
                Some(n) => if now < n.1 { r == Some(&n.0) } else { r is None },
                None => r is None,
            },
    {
        match &self.notice {
            Some((notice, until)) => if now < *until { Some(notice) } else { None },
            None => None,
        }
    }

    fn help_text(&self, pending: bool) -> (r: String)
        ensures
            r@ == main_help(
                self.page,
                self.services@,
                self.selected,
                pending,
                opt_view(self.unavailable),
            ),
    {
        let keys = match self.page {
            Page::Services => "↑↓ / j k  Select service\nenter  Open actions\nesc / q  Quit from main",
            Page::Actions { .. } => "↑↓ / j k  Select action\nenter  Run selected action\npgup / pgdn  Move by a page\nhome / end  First / last action\nesc / q  Back from actions",
            Page::ConfirmDisable { .. } => "↑↓ / j k  Select Cancel or Disable\nenter  Confirm selection\nesc / q  Cancel",
        };
        let mut text = cat2(keys, "\nctrl+c  Quit; wait for pending action");
        let on_menu = match self.page {
            Page::Actions { .. } => true,
            _ => false,
        };
        let mut details = String::new();
        if on_menu && self.selected < self.services.len() {
            let s = &self.services[self.selected];
            details = cat4("\n\nService: ", s.name.as_str(), "\nDirectory: ", s.directory.as_str());
            details.append("\nType: ");
            details.append(kind_name(&s.kind));
        }
        assert(details@ =~= service_details(self.page, self.services@, self.selected));
        text.append(details.as_str());
        let ghost so_far = text@;
        if pending {
            text.append("\n\nOperation in progress: further actions are blocked.");
        } else {
            assert(so_far + Seq::<char>::empty() =~= so_far);
        }
        let ghost so_far = text@;
        match &self.unavailable {
            Some(error) => {
                let more = cat2("\n\nManager unavailable; data is stale:\n", error.as_str());
                text.append(more.as_str());
            },
            None => {
                assert(so_far + Seq::<char>::empty() =~= so_far);
            },
        }
        text
    }

    fn choose_action(&mut self, action: Option<ServiceAction>, blocked: bool) -> (r: Intent)
        requires
            old(self).wf(),
        ensures
            final(self).wf(),
            final(self).same_data(*old(self)),
            (final(self).ui(), r@) == chosen(old(self).ui(), old(self).services@, blocked, action),
    {
        if blocked || self.selected >= self.services.len() {
            return Intent::Nothing;
        }
        match action {
            None => Intent::Nothing,
            Some(action) => match action {
                ServiceAction::Disable => {
                    let menu = match self.page {
                        Page::Actions { selected, scroll } => Some((selected, scroll)),
                        _ => None,
                    };
                    self.page = Page::ConfirmDisable { confirm: false, menu };
                    Intent::Nothing
                },
                other => Intent::Act(other, self.services[self.selected].name.clone()),
            },
        }
    }

    fn list_key(&mut self, key: KeyCode, blocked: bool) -> (r: Intent)
        requires
            old(self).wf(),
        ensures
            final(self).wf(),
            final(self).same_data(*old(self)),
            (final(self).ui(), r@) == services_key(old(self).ui(), old(self).services@, blocked, key),
    {
        if is_back(key) {
            return Intent::Quit;
        }
        if is_up(key) {
            self.selected = self.selected.saturating_sub(1);
            return Intent::Nothing;
        }
        if is_down(key) {
            let last: usize = if self.services.len() == 0 { 0 } else { self.services.len() - 1 };
            let next = self.selected.saturating_add(1);
            self.selected = if next < last { next } else { last };
            return Intent::Nothing;
        }
        match key {
            KeyCode::Enter => {
                if self.services.len() > 0 {
                    self.page = Page::Actions { selected: 0, scroll: 0 };
                    return Intent::Nothing;
                }
            },
            _ => {},
        }
        self.choose_action(ServiceAction::from_key(key), blocked)
    }

    fn menu_key(&mut self, selected: usize, scroll: usize, key: KeyCode, blocked: bool, rows: usize) -> (r: Intent)
        requires
            old(self).wf(),
            old(self).page == (Page::Actions { selected, scroll }),
        ensures
            final(self).wf(),
            final(self).same_data(*old(self)),
            (final(self).ui(), r@) == actions_key(
                old(self).ui(),
                selected,
                scroll,
                old(self).services@,
                blocked,
                key,
                rows,
            ),
    {
        if is_back(key) {
            self.page = Page::Services;
            return Intent::Nothing;
        }
        if is_up(key) {
            let s = selected.saturating_sub(1);
            self.page = Page::Actions { selected: s, scroll: if scroll < s { scroll } else { s } };
            return Intent::Nothing;
        }
        if is_down(key) {
            let s: usize = if selected >= 5 { 5 } else { selected + 1 };
            self.page = Page::Actions { selected: s, scroll: lowest_scroll(s, rows) };
            return Intent::Nothing;
        }
        let page: usize = if rows == 0 { 1 } else { rows };
        let jump: Option<usize> = match key {
            KeyCode::PageUp => Some(selected.saturating_sub(page)),
            KeyCode::PageDown => {
                let far = selected.saturating_add(page);
                Some(if far < 5 { far } else { 5 })
            },
            KeyCode::Home => Some(0),
            KeyCode::End => Some(5),
            _ => None,
        };
        match jump {
            Some(s) => {
                let low = lowest_scroll(s, rows);
                let kept = if scroll < s { scroll } else { s };
                self.page = Page::Actions { selected: s, scroll: if kept > low { kept } else { low } };
                return Intent::Nothing;
            },
            None => {},
        }
        match key {
            KeyCode::Enter => self.choose_action(Some(ServiceAction::at(selected)), blocked),
            _ => self.choose_action(ServiceAction::from_key(key), blocked),
        }
    }

    fn confirm_key(&mut self, confirm: bool, menu: Option<(usize, usize)>, key: KeyCode, blocked: bool, rows: usize) -> (r: Intent)
        requires
            old(self).wf(),
            old(self).page == (Page::ConfirmDisable { confirm, menu }),
        ensures
            final(self).wf(),
            final(self).same_data(*old(self)),
            (final(self).ui(), r@) == disable_key(
                old(self).ui(),
                confirm,
                menu,
                old(self).services@,
                blocked,
                key,
                rows,
            ),
    {
        if is_back(key) {
            self.page = behind(menu, rows);
            return Intent::Nothing;
        }
        if is_up(key) {
            self.page = Page::ConfirmDisable { confirm: false, menu };
            return Intent::Nothing;
        }
        if is_down(key) {
            self.page = Page::ConfirmDisable { confirm: true, menu };
            return Intent::Nothing;
        }
        match key {
            KeyCode::Enter => {
                if !confirm {
                    self.page = behind(menu, rows);
                    return Intent::Nothing;
                }
                if !blocked && self.selected < self.services.len() {
                    let name = self.services[self.selected].name.clone();
                    self.page = Page::Services;
                    return Intent::Act(ServiceAction::Disable, name);
                }
                Intent::Nothing
            },
            _ => Intent::Nothing,
        }
    }

    /// What a key does on this screen. `pending` says that an action is still running, and `rows`
    /// how many rows are shown.
    pub fn key(&mut self, key: KeyCode, pending: bool, rows: usize) -> (r: Intent)
        requires
            old(self).wf(),
        ensures
            final(self).wf(),
            final(self).same_data(*old(self)),
            (final(self).ui(), r@) == main_key(
                old(self).ui(),
                old(self).services@,
                old(self).initial_loading,
                opt_view(old(self).unavailable),
                key,
                pending,
                rows,
            ),
    {
        let asked = match key {
            KeyCode::Char('?') => true,
            _ => false,
        };
        let mut help: Option<Reader> = None;
        std::mem::swap(&mut help, &mut self.help);
        match help {
            Some(mut help) => {
                if !(is_back(key) || asked) {
                    help.key(key, rows);
                    self.help = Some(help);
                }
                return Intent::Nothing;
            },
            None => {},
        }
        let mut message: Option<Reader> = None;
        std::mem::swap(&mut message, &mut self.message);
        match message {
            Some(mut message) => {
                if !is_back(key) {
                    message.key(key, rows);
                    self.message = Some(message);
                }
                return Intent::Nothing;
            },
            None => {},
        }
        if asked {
            let title = match self.page {
                Page::Services => "Help / services",
                Page::Actions { .. } => "Help / actions",
                Page::ConfirmDisable { .. } => "Help / disable",
            };
            let text = self.help_text(pending);
            self.help = Some(Reader::new(title, text.as_str()));
            return Intent::Nothing;
        }
        if self.initial_loading {
            return if is_back(key) { Intent::Quit } else { Intent::Nothing };
        }
        let blocked = pending || self.unavailable.is_some();
        match self.page {
            Page::Services => self.list_key(key, blocked),
            Page::Actions { selected, scroll } => self.menu_key(selected, scroll, key, blocked, rows),
            Page::ConfirmDisable { confirm, menu } => self.confirm_key(confirm, menu, key, blocked, rows),
        }
    }

    /// What a key leads to in the loop. `prompt` says that the prompt about a log is shown, and
    /// afterwards whether it still is.
    pub fn run_key(&mut self, prompt: &mut bool, key: KeyCode, context: LoopContext) -> (r: LoopStep)
        requires
            old(self).wf(),
        ensures
            final(self).wf(),
            final(self).same_data(*old(self)),
            (final(self).ui(), *final(prompt), r@) == loop_step(
                old(self).ui(),
                old(self).services@,
                old(self).initial_loading,
                opt_view(old(self).unavailable),
                *old(prompt),
                key,
                context,
            ),
    {
        if context.release {
            return LoopStep::Continue;
        }
        let interrupt = context.control && match key {
            KeyCode::Char('c') => true,
            _ => false,
        };
        if interrupt {
            return if context.pending { LoopStep::WaitForAction } else { LoopStep::Return };
        }
        if !context.usable && !is_back(key) {
            return LoopStep::Continue;
        }
        if *prompt {
            let quit = match key {
                KeyCode::Char('q') => true,
                _ => false,
            };
            let action = if quit { CrashPromptAction::Cancel } else { crash_prompt_action(&key) };
            match action {
                CrashPromptAction::Open => {
                    *prompt = false;
                    return LoopStep::OpenLog;
                },
                CrashPromptAction::Cancel => {
                    *prompt = false;
                    self.message = None;
                    return LoopStep::Continue;
                },
                CrashPromptAction::Ignore => {
                    let mut message: Option<Reader> = None;
                    std::mem::swap(&mut message, &mut self.message);
                    match message {
                        Some(mut m) => {
                            m.key(key, context.rows);
                            self.message = Some(m);
                        },
                        None => {},
                    }
                    return LoopStep::Continue;
                },
            }
        }
        match self.key(key, context.pending, context.rows) {
            Intent::Nothing => LoopStep::Continue,
            Intent::Quit => if context.pending {
                LoopStep::WaitForAction
            } else {
                LoopStep::Return
            },
            Intent::Act(action, name) => LoopStep::Act(action, name),
        }
    }

    /// Takes in how an action ended. Says whether to leave now.
    pub fn action_finished(&mut self, outcome: LifecycleOutcome, exit_when_idle: bool, now: u64) -> (r: bool)
        requires
            old(self).wf(),
        ensures
            final(self).wf(),
            r == (outcome.succeeded && exit_when_idle),
            final(self).services == old(self).services,
            final(self).selected == old(self).selected,
            final(self).page == old(self).page,
            final(self).unavailable == old(self).unavailable,
            final(self).initial_loading == old(self).initial_loading,
            final(self).viewport == old(self).viewport,
            r ==> *final(self) == *old(self),
            !r && outcome.succeeded ==> {
                &&& final(self).notice is Some
                &&& (final(self).notice->0).0.text == outcome.notice
                &&& (final(self).notice->0).0.tone is Success
                &&& (final(self).notice->0).1 == (if now + 3000 > u64::MAX { u64::MAX as int } else {
                    now + 3000
                })
                &&& final(self).help == old(self).help
                &&& final(self).message == old(self).message
            },
            !outcome.succeeded ==> {
                &&& final(self).help is None
                &&& reader_opt(final(self).message) == Some(
                    ReaderView {
                        tone: Tone::Error,
                        title: "Operation failed"@,
                        content: outcome.notice@,
                        scroll: 0,
                    },
                )
                &&& final(self).notice == old(self).notice
            },
    {
        if outcome.succeeded {
            if exit_when_idle {
                return true;
            }
            self.notice = Some(
                (Notice { text: outcome.notice, tone: Tone::Success }, now.saturating_add(3000)),
            );
        } else {
            self.help = None;
            self.message = Some(Reader::error("Operation failed", outcome.notice.as_str()));
        }
        false
    }

    /// Shows that attaching is not possible, and offers the log where there is one.
    pub fn attach_unavailable(&mut self, warning: &str, has_log: bool)
        requires
            old(self).wf(),
        ensures
            final(self).wf(),
            final(self).same_data(*old(self)),
            final(self).selected == old(self).selected,
            final(self).page == old(self).page,
            final(self).help == old(self).help,
            reader_opt(final(self).message) == Some(
                ReaderView {
                    tone: Tone::Error,
                    title: "Attach unavailable"@,
                    content: warning@ + (if has_log {
                        "\n\nOpen latest.log?"@
                    } else {
                        "\n\nNo latest.log. Use history or enable persist_logs."@
                    }),
                    scroll: 0,
                },
            ),
    {
        let rest = if has_log {
            "\n\nOpen latest.log?"
        } else {
            "\n\nNo latest.log. Use history or enable persist_logs."
        };
        let text = cat2(warning, rest);
        self.message = Some(Reader::error("Attach unavailable", text.as_str()));
    }

    /// The interface before the manager has answered.
    pub fn connecting() -> (r: Self)
        ensures
            r.wf(),
            r.services@.len() == 0,
            r.selected == 0,
            r.page is Services,
            r.help is None,
            r.message is None,
            !r.initial_loading,
            opt_view(r.unavailable) == Some("Connecting to manager"@),
            r.notice is None,
            r.viewport == (0u16, 0u16),
    {
        let mut ui = MainUi::new();
        ui.unavailable = Some("Connecting to manager".to_owned());
        ui
    }

    fn say(&mut self, title: &str, text: &str)
        ensures
            final(self).same_data(*old(self)),
            final(self).ui() == (UiView {
                message: Some(
                    ReaderView { tone: Tone::Error, title: title@, content: text@, scroll: 0 },
                ),
                ..old(self).ui()
            }),
    {
        self.message = Some(Reader::error(title, text));
    }

    /// Shows that attaching failed.
    pub fn attach_failed(&mut self, error: &str)
        ensures
            final(self).same_data(*old(self)),
            final(self).ui() == (UiView {
                message: Some(
                    ReaderView {
                        tone: Tone::Error,
                        title: "Attach failed"@,
                        content: error@,
                        scroll: 0,
                    },
                ),
                ..old(self).ui()
            }),
    {
        self.say("Attach failed", error);
    }

    /// Shows that the history could not be read.
    pub fn history_failed(&mut self, error: &str)
        ensures
            final(self).same_data(*old(self)),
            final(self).ui() == (UiView {
                message: Some(
                    ReaderView {
                        tone: Tone::Error,
                        title: "History failed"@,
                        content: error@,
                        scroll: 0,
                    },
                ),
                ..old(self).ui()
            }),
    {
        self.say("History failed", error);
    }

    /// Shows the warning again once the log has been looked at, and why where it could not be.
    pub fn log_opened(&mut self, warning: &str, result: Result<(), String>)
        ensures
            final(self).same_data(*old(self)),
            final(self).ui() == (UiView {
                message: Some(
                    ReaderView {
                        tone: Tone::Error,
                        title: "Attach unavailable"@,
                        content: match result {
                            Ok(()) => warning@,
                            Err(e) => warning@ + "\nCannot open latest.log: "@ + e@,
                        },
                        scroll: 0,
                    },
                ),
                ..old(self).ui()
            }),
    {
        match result {
            Ok(()) => self.say("Attach unavailable", warning),
            Err(e) => {
                let text = cat3(warning, "\nCannot open latest.log: ", e.as_str());
                self.say("Attach unavailable", text.as_str());
            },
        }
    }

    /// An action begins: what was said about the last one is taken away.
    pub fn begin_action(&mut self)
        ensures
            final(self).ui() == old(self).ui(),
            final(self).services == old(self).services,
            final(self).initial_loading == old(self).initial_loading,
            final(self).unavailable == old(self).unavailable,
            final(self).viewport == old(self).viewport,
            final(self).notice is None,
    {
        self.notice = None;
    }
}

/// Where the selection goes with a new list.
pub open spec fn refreshed_place(before: Seq<ServiceInfo>, selected: usize, after: Seq<ServiceInfo>) -> usize {
    let found = if selected < before.len() {
        place_of_service(after, before[selected as int].name@, 0)
    } else {
        None
    };
    match found {
        Some(i) => i as usize,
        None => {
            let last = if after.len() == 0 { 0 } else { (after.len() - 1) as usize };
            min_of(selected, last)
        },
    }
}

/// A page about a service closes where the service is gone.
pub open spec fn refreshed_page(
    before: Seq<ServiceInfo>,
    selected: usize,
    after: Seq<ServiceInfo>,
    page: Page,
) -> Page {
    if selected < before.len() && place_of_service(after, before[selected as int].name@, 0) is None {
        Page::Services
    } else {
        page
    }
}

/// While an action runs or the manager cannot be reached, no key starts an action.
pub proof fn law_blocked_means_no_action(
    ui: UiView,
    services: Seq<ServiceInfo>,
    loading: bool,
    unavailable: Option<Seq<char>>,
    key: KeyCode,
    pending: bool,
    rows: usize,
)
    requires
        pending || unavailable is Some,
    ensures
        !(main_key(ui, services, loading, unavailable, key, pending, rows).1 is Act),
{
}

/// A service is disabled only by confirming it on the page that asks, with the second answer
/// marked; that page opens with the first answer marked.
pub proof fn law_disabling_is_confirmed(
    ui: UiView,
    services: Seq<ServiceInfo>,
    loading: bool,
    unavailable: Option<Seq<char>>,
    key: KeyCode,
    pending: bool,
    rows: usize,
)
    ensures
        ({
            let r = main_key(ui, services, loading, unavailable, key, pending, rows);
            &&& (r.1 matches IntentView::Act(ServiceAction::Disable, _)) ==> {
                &&& ui.page matches Page::ConfirmDisable { confirm, .. } && confirm
                &&& key is Enter
            }
            &&& !(ui.page is ConfirmDisable) ==> (r.0.page matches Page::ConfirmDisable { confirm, .. }
                ==> !confirm)
        }),
{
}

/// Where the selected service is in the new list, it stays selected.
pub proof fn law_refresh_keeps_the_service(before: Seq<ServiceInfo>, selected: usize, after: Seq<ServiceInfo>)
    requires
        selected < before.len(),
        after.len() <= usize::MAX,
        exists|i: int| 0 <= i < after.len() && #[trigger] after[i].name@ == before[selected as int].name@,
    ensures
        refreshed_place(before, selected, after) < after.len(),
        after[refreshed_place(before, selected, after) as int].name@ == before[selected as int].name@,
{
    let name = before[selected as int].name@;
    let i = choose|i: int| 0 <= i < after.len() && #[trigger] after[i].name@ == name;
    lemma_place_of_service(after, name, 0, i);
}

proof fn lemma_place_of_service(s: Seq<ServiceInfo>, name: Seq<char>, from: int, i: int)
    requires
        0 <= from <= i < s.len(),
        s[i].name@ == name,
    ensures
        place_of_service(s, name, from) is Some,
        from <= place_of_service(s, name, from)->0 < s.len(),
        s[place_of_service(s, name, from)->0].name@ == name,
    decreases i - from,
{
    if s[from].name@ != name {
        lemma_place_of_service(s, name, from + 1, i);
    }
}

} // verus!
