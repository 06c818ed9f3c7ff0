use ratatui::backend::TestBackend;
use ratatui::layout::{Constraint, Direction, Layout, Rect};
use ratatui::style::Color as Shade;
use ratatui::style::Modifier;
use ratatui::text::{Line, Text};
use ratatui::widgets::{Block, Borders, Clear, List, ListItem, ListState, Paragraph, Wrap};
use ratatui::{Frame, Terminal};
use served::config::{RestartPolicy, ServiceConfig};
use served::env::EnvMap;
use served::form::input::Buffer;
use served::form::model::{Confirm, Editing, Form};
use served::form::screen::{draw_form, draw_restart};
use served::protocol::{HistoryRecord, Request, Response, ServiceInfo, ServiceKind, ServiceState, Target};
use served::tui::classic::{EditorField, EditorPopup};
use served::tui::history::{Goal, HistoryStep, HistoryUi};
use served::tui::keys::{KeyCode, KeyEvent, KeyEventKind, KeyModifiers};
use served::tui::layout::{
    clip, clip_cells, display_path, history_position, wrap_line, wrapped, Cell,
};
use served::tui::model::{
    crash_prompt_action, CrashPromptAction, HistoryView, Intent, LifecycleAction, LoopContext,
    task_failure, LoopStep, MainUi, Notice, Page, Reader, ServiceAction, Tone,
    ACTION_COUNT,
};
use served::tui::plain::{
    centered_rect, draw, draw_editor, draw_popup, edited, env_lines, env_text, tip, Body,
    EditorState, EditorStep, Height, Part, PlainIntent, PlainUi, PopupView,
};
use served::tui::screens::{draw_history_content, draw_history_list, draw_main, draw_reader};
use served::tui::view::{body_rows, draw_help, help_lines, main_footer, main_rows, page, text_page};
use served::tui::widget::{
    footer_width, muted, plain_row, row1, span, Area, Color, Footer, Hint, Row, Size, Style, Widget,
};
use unicode_width::UnicodeWidthStr;

const COLORS: bool = true;

fn look_color(color: Color) -> Shade {
    match color {
        Color::Reset => Shade::Reset,
        Color::Black => Shade::Black,
        Color::Red => Shade::Red,
        Color::Green => Shade::Green,
        Color::Yellow => Shade::Yellow,
        Color::Cyan => Shade::Cyan,
    }
}

fn look(style: Style) -> ratatui::style::Style {
    let mut out = ratatui::style::Style::default();
    if let Some(color) = style.fg {
        out = out.fg(look_color(color));
    }
    if let Some(color) = style.bg {
        out = out.bg(look_color(color));
    }
    if style.bold {
        out = out.add_modifier(Modifier::BOLD);
    }
    if style.dim {
        out = out.add_modifier(Modifier::DIM);
    }
    if style.reversed {
        out = out.add_modifier(Modifier::REVERSED);
    }
    if style.upright {
        out = out.remove_modifier(Modifier::REVERSED);
    }
    out
}

fn line(row: &Row) -> Line<'static> {
    let spans: Vec<_> = row
        .spans
        .iter()
        .map(|s| ratatui::text::Span::styled(s.text.clone(), look(s.style)))
        .collect();
    Line::from(spans).style(look(row.style))
}

fn rect(area: Area) -> Rect {
    Rect::new(area.x, area.y, area.width, area.height)
}

fn render(frame: &mut Frame<'_>, widgets: &[Widget]) {
    for widget in widgets {
        match widget {
            Widget::Text { area, rows, style } => {
                let text = Text::from(rows.iter().map(line).collect::<Vec<_>>());
                frame.render_widget(Paragraph::new(text).style(look(*style)), rect(*area));
            }
            Widget::List { area, rows, selected, highlight } => {
                let items: Vec<_> = rows.iter().map(|r| ListItem::new(line(r))).collect();
                let mut state = ListState::default();
                state.select(*selected);
                frame.render_stateful_widget(
                    List::new(items).highlight_style(look(*highlight)),
                    rect(*area),
                    &mut state,
                );
            }
        }
    }
}

struct Screen(Terminal<TestBackend>);

impl Screen {
    fn new(width: u16, height: u16) -> Self {
        Screen(Terminal::new(TestBackend::new(width, height)).unwrap())
    }

    fn resize(&mut self, width: u16, height: u16) {
        self.0.backend_mut().resize(width, height);
    }

    fn size(&self) -> Size {
        let area = self.0.backend().buffer().area;
        Size { width: area.width, height: area.height }
    }

    fn show(&mut self, widgets: &[Widget]) {
        self.0.draw(|frame| render(frame, widgets)).unwrap();
    }

    fn main(&mut self, ui: &mut MainUi, progress: &str) {
        let widgets = draw_main(ui, self.size(), progress, 0, None, COLORS);
        self.show(&widgets);
    }

    fn reader(&mut self, reader: &mut Reader, footer: Footer) {
        let mut widgets = Vec::new();
        draw_reader(&mut widgets, self.size(), reader, footer, COLORS);
        self.show(&widgets);
    }

    fn buffer(&self) -> &ratatui::buffer::Buffer {
        self.0.backend().buffer()
    }

    fn symbols(&self) -> String {
        self.buffer().content.iter().map(|cell| cell.symbol()).collect()
    }
}

fn service_info(tty: bool) -> ServiceInfo {
    ServiceInfo {
        config_file: None,
        name: "api".to_owned(),
        directory: "/tmp/api".to_owned(),
        kind: ServiceKind::Enabled,
        state: ServiceState::Running,
        pid: Some(42),
        tty,
        restart: "never".to_owned(),
        persist_logs: false,
        attach_active: false,
        output_tail: "ready".to_owned(),
    }
}

fn buffer_text(screen: &Screen) -> String {
    let buffer = screen.buffer();
    let mut result = String::new();
    for y in 0..buffer.area.height {
        let mut x = 0;
        while x < buffer.area.width {
            let symbol = buffer[(x, y)].symbol();
            result.push_str(symbol);
            x += symbol.width().max(1) as u16;
        }
        result.push('\n');
    }
    result
}

fn assert_selected(screen: &Screen, expected: &str) {
    let buffer = screen.buffer();
    let margin = if buffer.area.width < 80 { 1 } else { 2 };
    let mut selected = Vec::new();
    for y in 3..buffer.area.height {
        if buffer[(margin + 2, y)].modifier.contains(Modifier::REVERSED) {
            for x in margin..margin + 2 {
                let cell = &buffer[(x, y)];
                assert_eq!(cell.symbol(), " ");
                assert_eq!(cell.fg, Shade::Reset);
                assert!(!cell.modifier.contains(Modifier::REVERSED));
            }
        }
        let text: String = (margin + 2..buffer.area.width)
            .filter(|&x| buffer[(x, y)].modifier.contains(Modifier::REVERSED))
            .map(|x| buffer[(x, y)].symbol())
            .collect();
        if !text.trim().is_empty() {
            selected.push(text.trim().to_owned());
        }
    }
    assert_eq!(selected.len(), 1, "{selected:?}");
    assert!(selected[0].starts_with(expected), "{selected:?}");
}

fn is_act(intent: Intent, action: ServiceAction, name: &str) -> bool {
    matches!(intent, Intent::Act(a, n) if a == action && n == name)
}

fn actions() -> Vec<ServiceAction> {
    (0..ACTION_COUNT).map(ServiceAction::at).collect()
}

#[test]
fn history_position_is_one_based_and_clamped() {
    assert_eq!(history_position(0, 0), (0, 0));
    assert_eq!(history_position(0, 3), (1, 3));
    assert_eq!(history_position(1, 3), (2, 3));
    assert_eq!(history_position(99, 3), (3, 3));
}

#[test]
fn lifecycle_actions_are_told_while_they_run_and_after() {
    let action = LifecycleAction::Disable;
    assert_eq!(action.progress_notice("api", false), "disabling api...");
    assert_eq!(
        action.progress_notice("api", true),
        "disabling api...; quitting when complete"
    );
    let outcome = action.finish("api", Ok(()));
    assert!(outcome.succeeded);
    assert_eq!(outcome.notice, "disabled api");
    let outcome = LifecycleAction::Restart.finish("api", Err("runner unavailable".to_owned()));
    assert!(!outcome.succeeded);
    assert_eq!(outcome.notice, "restart api: runner unavailable");
    assert!(matches!(
        LifecycleAction::Stop.request("api"),
        Request::Stop { target: Target::Name(n) } if n == "api"
    ));
}

#[test]
fn tui_crash_prompt_uses_enter_as_yes_and_escape_as_no() {
    assert_eq!(crash_prompt_action(&KeyCode::Enter), CrashPromptAction::Open);
    assert_eq!(crash_prompt_action(&KeyCode::Char('y')), CrashPromptAction::Open);
    assert_eq!(crash_prompt_action(&KeyCode::Esc), CrashPromptAction::Cancel);
    assert_eq!(crash_prompt_action(&KeyCode::Char('j')), CrashPromptAction::Ignore);
}

#[test]
fn borderless_layout_adapts_and_preserves_service_states() {
    for (width, height) in [(40, 10), (80, 24), (120, 40)] {
        let mut screen = Screen::new(width, height);
        let mut ui = MainUi::new();
        ui.refresh(vec![service_info(true)]);
        screen.main(&mut ui, "");
        let text = buffer_text(&screen);
        for expected in [
            "served",
            "api",
            "running",
            "enabled",
            "enter actions",
            "? help",
            "q quit",
        ] {
            assert!(
                text.contains(expected),
                "missing {expected} at {width}x{height}: {text}"
            );
        }
        assert!(!text.contains("tips:"));
        assert!(!text.contains("ready"));
        assert!(!text
            .chars()
            .any(|c| matches!(c, '│' | '─' | '┌' | '┐' | '└' | '┘')));
        let buffer = screen.buffer();
        assert!(buffer
            .content
            .iter()
            .any(|cell| cell.modifier.contains(Modifier::REVERSED)));
        assert!(buffer
            .content
            .iter()
            .all(|cell| cell.bg == Shade::Reset));
    }
}

#[test]
fn scrolling_long_unicode_lists_keeps_status_visible_after_resize() {
    let mut ui = MainUi::new();
    ui.refresh(
        (0..50)
            .map(|i| {
                let mut service = service_info(false);
                service.name = format!("{i:02}-服务名称很长很长很长很长");
                service.directory = format!("/very/long/path/{}/project-end", "项目/".repeat(40));
                service.state = ServiceState::Failed;
                service
            })
            .collect(),
    );
    let mut screen = Screen::new(120, 40);
    for _ in 0..49 {
        ui.key(KeyCode::Down, false, 32);
    }
    screen.main(&mut ui, "");
    screen.resize(40, 10);
    screen.main(&mut ui, "");
    let text = buffer_text(&screen);
    assert!(text.contains("49-服务"));
    assert!(text.contains("failed"));
    assert!(text.contains("project-end"));
    assert!(screen
        .buffer()
        .content
        .iter()
        .any(|cell| cell.fg == Shade::Red));
    ui.key(KeyCode::Enter, false, 2);
    ui.key(KeyCode::End, false, 2);
    screen.main(&mut ui, "");
    assert!(buffer_text(&screen).contains("enabled"));
    assert!(matches!(ui.page, Page::Actions { selected: 5, .. }));
    assert_selected(&screen, "Disable");
}

#[test]
fn actions_help_confirmation_and_errors_preserve_context() {
    let mut screen = Screen::new(40, 10);
    let mut ui = MainUi::new();
    ui.refresh(vec![service_info(true)]);
    assert!(matches!(ui.key(KeyCode::Enter, false, 2), Intent::Nothing));
    assert!(is_act(ui.key(KeyCode::Enter, false, 2), ServiceAction::Attach, "api"));
    for _ in 0..5 {
        ui.key(KeyCode::Down, false, 2);
    }
    screen.main(&mut ui, "");
    assert!(buffer_text(&screen).contains("Disable"));
    ui.key(KeyCode::Char('?'), false, 2);
    ui.key(KeyCode::PageDown, false, 2);
    screen.main(&mut ui, "");
    ui.key(KeyCode::Char('?'), false, 2);
    assert!(matches!(ui.page, Page::Actions { selected: 5, .. }));
    ui.key(KeyCode::Enter, false, 2);
    assert!(matches!(
        ui.page,
        Page::ConfirmDisable { confirm: false, .. }
    ));
    assert!(matches!(ui.key(KeyCode::Enter, false, 2), Intent::Nothing));
    assert!(matches!(ui.page, Page::Actions { selected: 5, .. }));
    ui.key(KeyCode::Enter, false, 2);
    ui.key(KeyCode::Down, false, 2);
    assert!(is_act(ui.key(KeyCode::Enter, false, 2), ServiceAction::Disable, "api"));
    ui.key(KeyCode::Enter, false, 2);
    ui.key(KeyCode::Down, false, 2);
    ui.message = Some(Reader::error("Failed", &"error detail\n".repeat(30)));
    ui.key(KeyCode::End, false, 2);
    screen.main(&mut ui, "");
    assert!(ui.message.as_ref().unwrap().scroll > 0);
    ui.key(KeyCode::Esc, false, 2);
    assert!(matches!(ui.page, Page::Actions { selected: 1, .. }));
}

#[test]
fn refresh_preserves_identity_and_disconnection_blocks_actions() {
    let a = service_info(false);
    let mut b = a.clone();
    b.name = "worker".into();
    let mut ui = MainUi::new();
    ui.refresh(vec![a.clone(), b.clone()]);
    ui.key(KeyCode::Down, false, 10);
    ui.refresh(vec![b.clone(), a.clone()]);
    assert_eq!(ui.services[ui.selected].name, "worker");
    ui.unavailable = Some("connection refused".into());
    for action in actions() {
        assert!(matches!(ui.key(KeyCode::Char(action.key()), false, 10), Intent::Nothing));
    }
    ui.key(KeyCode::Enter, false, 10);
    assert!(matches!(ui.key(KeyCode::Enter, false, 10), Intent::Nothing));
    ui.refresh(vec![b, a.clone()]);
    assert!(is_act(ui.key(KeyCode::Enter, false, 10), ServiceAction::Attach, "worker"));
    ui.refresh(vec![a]);
    assert!(matches!(ui.page, Page::Services));
    ui.refresh(vec![]);
    assert_eq!(ui.selected, 0);
    assert!(matches!(ui.key(KeyCode::Char('s'), false, 10), Intent::Nothing));
}

#[test]
fn pending_operations_allow_navigation_help_and_quit_but_no_new_action() {
    let mut ui = MainUi::new();
    ui.refresh(vec![service_info(false)]);
    for action in actions() {
        assert!(matches!(ui.key(KeyCode::Char(action.key()), true, 10), Intent::Nothing));
    }
    ui.key(KeyCode::Enter, true, 10);
    assert!(matches!(ui.key(KeyCode::Enter, true, 10), Intent::Nothing));
    ui.key(KeyCode::Char('?'), true, 10);
    assert!(ui
        .help
        .as_ref()
        .unwrap()
        .content
        .contains("Operation in progress"));
    ui.key(KeyCode::Esc, true, 10);
    ui.key(KeyCode::Esc, true, 10);
    assert!(matches!(ui.key(KeyCode::Char('q'), true, 10), Intent::Quit));
}

#[test]
fn main_render_shows_lifecycle_progress_and_expires_success() {
    let mut screen = Screen::new(80, 24);
    let mut ui = MainUi::new();
    ui.refresh(vec![service_info(false)]);
    screen.main(&mut ui, "stopping api...");
    assert!(buffer_text(&screen).contains("stopping api..."));
    let now = 1_000;
    ui.notice = Some((Notice::new("stopped api", Tone::Success), now + 3_000));
    assert_eq!(ui.notice(now).unwrap().text, "stopped api");
    assert!(ui.notice(now + 3_000).is_none());
}

fn record(id: &str, current: bool) -> HistoryRecord {
    HistoryRecord { id: id.to_owned(), bytes: 123, current, persisted: true }
}

#[test]
fn actual_pages_follow_the_footer_contract() {
    for width in (40..=62).chain([80, 120]) {
        let mut screen = Screen::new(
            width,
            match width {
                60 => 16,
                80 => 24,
                120 => 40,
                _ => 10,
            },
        );
        let mut ui = MainUi::new();
        let mut service = service_info(false);
        service.directory = "/projects/api".into();
        ui.refresh(vec![service]);
        for (name, footer, keys) in [
            ("main", Footer::Services, "enter actions   ? help   q quit"),
            ("actions", Footer::Actions, "enter select   ? help   esc/q back"),
            ("confirm", Footer::Confirm, "enter select   ? help   esc/q cancel"),
        ] {
            ui.page = match name {
                "actions" => Page::Actions { selected: 0, scroll: 0 },
                "confirm" => Page::ConfirmDisable { confirm: false, menu: None },
                _ => Page::Services,
            };
            screen.main(&mut ui, "");
            let baseline = buffer_text(&screen);
            assert!(baseline.contains(keys));
            let lines: Vec<_> = baseline.lines().collect();
            let rows = main_rows(screen.size(), &ui);
            let body = lines[3..3 + rows].join("\n");
            assert!(!body.contains("/projects"));
            assert!(!body.contains("enabled"));
            assert!(lines[3 + rows..].join("\n").contains("enabled"));
            if name == "confirm" {
                assert!(body.contains("Stops and unregisters service."));
                assert_selected(&screen, "Cancel");
                assert!(body.contains("Disable"));
            }
            let footer_line = lines.iter().position(|line| line.contains(keys)).unwrap();
            for state in ["progress", "success", "offline", "recovered"] {
                ui.unavailable = (state == "offline").then(|| "offline".into());
                ui.notice = (state == "success")
                    .then(|| (Notice::new("started api", Tone::Success), 3_000));
                screen.main(
                    &mut ui,
                    if state == "progress" {
                        "starting api..."
                    } else {
                        ""
                    },
                );
                let text = buffer_text(&screen);
                let updated: Vec<_> = text.lines().collect();
                assert_eq!(
                    updated[footer_line][..updated[footer_line].find(keys).unwrap()].width(),
                    lines[footer_line][..lines[footer_line].find(keys).unwrap()].width()
                );
                assert_eq!(updated[3..3 + rows], lines[3..3 + rows]);
                assert_eq!(
                    std::mem::discriminant(&main_footer(&ui)),
                    std::mem::discriminant(&footer)
                );
                let expected = match state {
                    "progress" => "starting api...",
                    "success" => "started api",
                    "offline" => "Manager",
                    _ => "enabled",
                };
                assert_eq!(
                    text.matches(expected).count(),
                    1,
                    "{name}/{state}/{width}: {text}"
                );
                if state == "offline" {
                    assert!(matches!(ui.key(KeyCode::Char('s'), false, rows), Intent::Nothing));
                }
            }
        }
        ui.page = Page::Actions { selected: 5, scroll: 0 };
        ui.key(KeyCode::Char('?'), false, 3);
        assert!(ui
            .help
            .as_ref()
            .unwrap()
            .content
            .contains("Directory: /projects/api"));
        screen.main(&mut ui, "");
        assert!(buffer_text(&screen).contains("?/esc/q back"));
        ui.key(KeyCode::Char('?'), false, 3);
        assert!(matches!(ui.page, Page::Actions { selected: 5, .. }));
        ui.message = Some(Reader::error("Error", &"An operation failed.\n".repeat(40)));
        screen.main(&mut ui, "");
        assert!(buffer_text(&screen).contains("esc/q back"));
        screen.reader(ui.message.as_mut().unwrap(), Footer::Crash);
        assert!(buffer_text(&screen).contains("enter/y open log   n/esc cancel"));
        let records = vec![record("latest", true)];
        let widgets = draw_history_list("api", &records, 0, screen.size(), COLORS);
        screen.show(&widgets);
        assert!(buffer_text(&screen).contains("enter open   ? help   esc/q back"));
        assert_selected(&screen, "latest");
        let mut history = HistoryView::new("latest".into());
        history.content = "log output\n".repeat(40);
        history.total_lines = 40;
        let widgets = draw_history_content("api", &history, screen.size(), COLORS);
        screen.show(&widgets);
        assert!(buffer_text(&screen).contains("1/40"));
        screen.main(&mut MainUi::new(), "");
        assert!(buffer_text(&screen).contains("served enable"));
    }
}

#[test]
fn action_paging_keeps_selection_visible_and_full_details_readable() {
    let mut ui = MainUi::new();
    let mut service = service_info(false);
    service.directory = format!("/{}END", "项目/".repeat(80));
    service.name = format!("{}END", "长名称".repeat(20));
    let full_path = service.directory.clone();
    let full_name = service.name.clone();
    ui.refresh(vec![service]);
    ui.key(KeyCode::Enter, false, 3);
    let mut screen = Screen::new(40, 10);
    for width in [40, 60, 120, 40] {
        screen.resize(width, 10);
        let rows = body_rows(Size { width, height: 10 }, Footer::Actions, Some(6));
        for (key, expected) in [
            (KeyCode::Home, 0),
            (KeyCode::PageDown, rows.min(5)),
            (KeyCode::End, 5),
            (KeyCode::PageUp, 5usize.saturating_sub(rows)),
        ] {
            ui.key(key, false, rows);
            screen.main(&mut ui, "");
            assert!(matches!(ui.page, Page::Actions { selected, .. } if selected == expected));
            assert_selected(&screen, ServiceAction::at(expected).label());
        }
    }
    ui.key(KeyCode::Char('?'), false, 3);
    let help = ui.help.as_ref().unwrap();
    assert!(help.content.contains(&full_path));
    assert!(help.content.contains(&full_name));
    assert!(help.content.contains("Type: enabled"));
    ui.key(KeyCode::End, false, 3);
    screen.main(&mut ui, "");
    assert!(ui.help.as_ref().unwrap().scroll > 0);
}

#[test]
fn compact_lists_grow_then_scroll_without_stretching_to_window_width() {
    for (width, height) in [(40, 10), (60, 16), (80, 24), (120, 40)] {
        for count in [0usize, 1, 6, 7, 50] {
            let mut screen = Screen::new(width, height);
            let mut ui = MainUi::new();
            ui.refresh(
                (0..count)
                    .map(|i| {
                        let mut service = service_info(false);
                        service.name = format!("service-{i:02}");
                        service
                    })
                    .collect(),
            );
            ui.selected = count.saturating_sub(1);
            screen.main(&mut ui, "");
            let text = buffer_text(&screen);
            let lines: Vec<_> = text.lines().collect();
            let footer_y = lines
                .iter()
                .position(|line| line.contains("q quit"))
                .unwrap();
            if height >= 24 {
                assert_eq!(footer_y, 4 + count.clamp(6, (height - 6) as usize));
            }
            if count > 0 {
                assert_selected(&screen, &format!("service-{:02}", count - 1));
            }
            assert!(lines[1].contains(&format!("served · {count} service")));
            if width == 120 {
                let buffer = screen.buffer();
                assert!((0..height).all(|y| (78..width).all(|x| buffer[(x, y)].symbol() == " ")));
            }
        }
        let mut screen = Screen::new(width, height);
        let mut reader = Reader::new("Help", &"row\n".repeat(100));
        screen.reader(&mut reader, Footer::Help);
        let text = buffer_text(&screen);
        assert!(text
            .lines()
            .nth(height as usize - 2)
            .unwrap()
            .contains("?/esc/q back"));
    }
}

#[test]
fn semantic_colors_and_no_color_preserve_text_and_selection() {
    let mut screen = Screen::new(80, 24);
    let mut ui = MainUi::new();
    ui.refresh(
        [
            ServiceState::Running,
            ServiceState::Starting,
            ServiceState::Restarting,
            ServiceState::Failed,
            ServiceState::Stopped,
        ]
        .into_iter()
        .enumerate()
        .map(|(i, state)| {
            let mut service = service_info(false);
            service.name = format!("service-{i}");
            service.state = state;
            service
        })
        .collect(),
    );
    screen.main(&mut ui, "");
    let buffer = screen.buffer();
    assert_eq!(buffer[(2, 1)].fg, Shade::Cyan);
    assert_eq!(buffer[(2, 3)].symbol(), " ");
    assert_eq!(buffer[(2, 3)].fg, Shade::Reset);
    assert!(!buffer[(2, 3)].modifier.contains(Modifier::BOLD));
    assert!(!buffer[(2, 3)].modifier.contains(Modifier::REVERSED));
    assert!(buffer[(4, 3)].modifier.contains(Modifier::REVERSED));
    assert!(!buffer[(15, 3)].modifier.contains(Modifier::REVERSED));
    for (row, expected) in [
        Shade::Green,
        Shade::Yellow,
        Shade::Yellow,
        Shade::Red,
        Shade::Reset,
    ]
    .into_iter()
    .enumerate()
    {
        assert_eq!(buffer[(15, 3 + row as u16)].fg, expected);
    }
    assert!(buffer.content.iter().all(|cell| cell.bg == Shade::Reset));
    for (notice, progress, expected) in [
        (Some(Notice::new("started api", Tone::Success)), "", Shade::Green),
        (None, "starting api...", Shade::Yellow),
    ] {
        ui.notice = notice.map(|notice| (notice, 3_000));
        screen.main(&mut ui, progress);
        assert_eq!(screen.buffer()[(2, 10)].fg, expected);
    }
    ui.notice = None;
    ui.unavailable = Some("offline".into());
    screen.main(&mut ui, "");
    assert_eq!(screen.buffer()[(2, 10)].fg, Shade::Yellow);
    let widgets = draw_main(&mut ui, screen.size(), "", 0, None, false);
    screen.show(&widgets);
    assert!(screen
        .buffer()
        .content
        .iter()
        .all(|cell| cell.fg == Shade::Reset && cell.bg == Shade::Reset));
    ui.unavailable = None;
    ui.key(KeyCode::Char('d'), false, 6);
    screen.main(&mut ui, "");
    assert_eq!(screen.buffer()[(2, 3)].fg, Shade::Red);
    ui.message = Some(Reader::error("Failed", "Diagnostic details"));
    screen.main(&mut ui, "");
    assert_eq!(screen.buffer()[(2, 1)].fg, Shade::Red);
    assert_eq!(screen.buffer()[(2, 3)].fg, Shade::Reset);
    let widgets = draw_main(&mut ui, screen.size(), "", 0, None, false);
    screen.show(&widgets);
    assert!(screen
        .buffer()
        .content
        .iter()
        .all(|cell| cell.fg == Shade::Reset && cell.bg == Shade::Reset));
}

#[test]
fn selection_changes_style_without_moving_list_text() {
    for width in [40, 80, 120] {
        let mut screen = Screen::new(width, 10);
        let mut ui = MainUi::new();
        let mut first = service_info(false);
        first.name = "项目名称很长而且包含组合字符e\u{301}".repeat(3);
        let mut second = first.clone();
        second.name.push('2');
        ui.refresh(vec![first, second]);
        for page in [
            Page::Services,
            Page::Actions { selected: 0, scroll: 0 },
            Page::ConfirmDisable { confirm: false, menu: None },
        ] {
            ui.page = page;
            screen.main(&mut ui, "");
            let before = buffer_text(&screen);
            ui.key(KeyCode::Down, false, 3);
            screen.main(&mut ui, "");
            assert_eq!(before, buffer_text(&screen));
            let expected = match ui.page {
                Page::Services => "项",
                Page::Actions { .. } => "Start",
                Page::ConfirmDisable { .. } => "Disable",
            };
            assert_selected(&screen, expected);
        }
        let records: Vec<_> = (0..2).map(|i| record(&format!("record-{i}"), false)).collect();
        let widgets = draw_history_list("api", &records, 0, screen.size(), COLORS);
        screen.show(&widgets);
        let before = buffer_text(&screen);
        let widgets = draw_history_list("api", &records, 1, screen.size(), COLORS);
        screen.show(&widgets);
        // Only the selected ID in the footer changes; list text stays in place.
        assert_eq!(
            before.lines().take(5).collect::<Vec<_>>(),
            buffer_text(&screen).lines().take(5).collect::<Vec<_>>()
        );
        assert_selected(&screen, "record-1");
    }
}

#[test]
fn main_keeps_status_next_to_names_like_actions() {
    for width in [40, 80, 120] {
        let mut screen = Screen::new(width, 24);
        let mut ui = MainUi::new();
        ui.refresh(vec![service_info(false)]);
        screen.main(&mut ui, "");
        let margin = if width < 80 { 1 } else { 2 };
        let buffer = screen.buffer();
        assert_eq!(buffer[(margin + 13, 3)].symbol(), "r");
        assert!(!buffer[(width - margin - 1, 3)]
            .modifier
            .contains(Modifier::REVERSED));
        ui.key(KeyCode::Enter, false, 18);
        screen.main(&mut ui, "");
        let buffer = screen.buffer();
        assert_eq!(buffer[(margin + 13, 3)].symbol(), "a");
        assert!(!buffer[(width - margin - 1, 3)]
            .modifier
            .contains(Modifier::REVERSED));
    }
}

#[test]
fn footer_preserves_path_suffix_and_service_kind() {
    for kind in [ServiceKind::Enabled, ServiceKind::Temporary] {
        for width in [40, 54, 80, 120] {
            let mut screen = Screen::new(width, 10);
            let mut ui = MainUi::new();
            let mut service = service_info(false);
            service.kind = kind;
            service.directory = format!("/{}终e\u{301}", "项目/".repeat(40));
            ui.refresh(vec![service]);
            screen.main(&mut ui, "");
            let text = buffer_text(&screen);
            let label = if kind == ServiceKind::Enabled {
                "enabled"
            } else {
                "temporary"
            };
            assert!(text.contains(&format!("终e\u{301} · {label}")), "{text}");
            assert!(text.contains("enter actions   ? help   q quit"));
        }
    }
}

#[test]
fn history_render_shows_logical_position_and_contextual_help() {
    let mut screen = Screen::new(40, 10);
    let mut history = HistoryView::new("latest".into());
    history.content = "first\nsecond\nthird".into();
    history.total_lines = 3;
    history.scroll = 1;
    let widgets = draw_history_content("api", &history, screen.size(), COLORS);
    screen.show(&widgets);
    let text = buffer_text(&screen);
    assert!(text.contains("second"));
    assert!(text.contains("2/3"));
    assert!(text.contains("? help"));
    assert!(text.contains("esc/q back"));
    history.scroll = 0;
    let widgets = draw_history_content("api", &history, screen.size(), COLORS);
    screen.show(&widgets);
    assert!(!buffer_text(&screen).contains("1/3"));
    history.content = "长文本".repeat(40);
    history.total_lines = 1;
    let widgets = draw_history_content("api", &history, screen.size(), COLORS);
    screen.show(&widgets);
    assert!(buffer_text(&screen).contains("1/1"));
}

fn hint_text(footer: Footer) -> String {
    footer
        .hints()
        .iter()
        .map(|h| format!("{} {}", h.key, h.text))
        .collect::<Vec<_>>()
        .join("   ")
}

#[test]
fn footers_align_and_match_paging_height_at_every_transition() {
    for footer in [
        Footer::Services,
        Footer::Empty,
        Footer::Actions,
        Footer::Confirm,
        Footer::History,
        Footer::Content,
        Footer::Help,
        Footer::Error,
        Footer::Crash,
    ] {
        let threshold = footer_width(footer) as u16 + 24;
        for width in [40, (threshold - 1).max(40), threshold.max(40), 80, 120] {
            let mut screen = Screen::new(width, 10);
            let mut widgets = Vec::new();
            let areas = page(
                &mut widgets,
                screen.size(),
                "Title",
                "",
                footer,
                None,
                Tone::Accent,
                COLORS,
            )
            .unwrap();
            assert_eq!(
                usize::from(areas.body.height),
                body_rows(screen.size(), footer, None)
            );
            assert_eq!(areas.detail.y, if width < threshold { 7 } else { 8 });
            assert!(areas.detail.width >= 20);
            widgets.push(Widget::Text {
                area: areas.detail,
                rows: plain_row("detail"),
                style: muted(),
            });
            screen.show(&widgets);
            let buffer = screen.buffer();
            let margin = if width < 80 { 1 } else { 2 };
            let start = width - margin - footer_width(footer) as u16;
            let actual: String = (start..width - margin)
                .map(|x| buffer[(x, 8)].symbol())
                .collect();
            assert_eq!(actual, hint_text(footer));
            assert!(!buffer[(start, 8)].modifier.contains(Modifier::DIM));
            let description = start + footer.hints()[0].key.width() as u16 + 1;
            assert!(buffer[(description, 8)].modifier.contains(Modifier::DIM));
        }
    }
}

#[test]
fn help_footer_follows_content_and_aligns_with_keys() {
    for (width, height) in [(40, 10), (80, 24), (120, 40)] {
        for count in [3, 100] {
            for footer in [Footer::Help, Footer::Only(Hint { key: "esc", text: "back" })] {
                let mut screen = Screen::new(width, height);
                let content = (0..count)
                    .map(|i| format!("key  Row {i}"))
                    .collect::<Vec<_>>()
                    .join("\n");
                let mut scroll = usize::MAX;
                let mut widgets = Vec::new();
                draw_help(
                    &mut widgets,
                    screen.size(),
                    "Help",
                    &content,
                    &mut scroll,
                    footer,
                    COLORS,
                );
                screen.show(&widgets);
                let visible = count.min(usize::from(height - 6));
                let y = 4 + visible as u16;
                let x = if width < 80 { 3 } else { 4 };
                let expected = hint_text(footer);
                let buf = screen.buffer();
                let actual: String = (x..x + expected.width() as u16)
                    .map(|col| buf[(col, y)].symbol())
                    .collect();
                assert_eq!(actual, expected);
                assert_eq!(buf[(x, 3)].symbol(), "k");
                assert!((0..width).all(|col| buf[(col, y - 1)].symbol() == " "));
                assert!((y + 1..height)
                    .all(|row| (0..width).all(|col| buf[(col, row)].symbol() == " ")));
                assert_eq!(scroll, count - visible);
                if count > visible {
                    let position = format!("{}/{count}", scroll + 1);
                    let margin = if width < 80 { 1 } else { 2 };
                    let start = width - margin - position.width() as u16;
                    assert!(start >= x + expected.width() as u16 + 2);
                    let actual: String = (start..width - margin)
                        .map(|col| buf[(col, y)].symbol())
                        .collect();
                    assert_eq!(actual, position);
                }
            }
        }
    }
}

#[test]
fn feedback_keeps_footer_and_body_in_place() {
    let mut screen = Screen::new(80, 10);
    let mut reader = Reader::new("Reader", &"row\n".repeat(40));
    for detail in [
        "",
        "starting api...",
        "Manager unavailable; actions disabled",
    ] {
        let mut widgets = Vec::new();
        text_page(
            &mut widgets,
            screen.size(),
            "Reader",
            (0..40).map(|_| row1(span("row", served::tui::widget::plain()))).collect(),
            &mut reader.scroll,
            Footer::Actions,
            detail,
            Tone::Accent,
            COLORS,
        );
        screen.show(&widgets);
        let buffer = screen.buffer();
        assert_eq!(buffer[(2, 6)].symbol(), "r");
        assert_eq!(buffer[(2, 7)].symbol(), " ");
        assert_eq!(
            buffer[(78 - footer_width(Footer::Actions) as u16, 8)].symbol(),
            "e"
        );
    }
}

#[test]
fn truncation_preserves_graphemes_and_path_suffixes() {
    assert_eq!(clip("服务名称", 5, false), "服务…");
    assert_eq!(clip("/very/long/项目", 7, true), "…g/项目");
    assert_eq!(clip("e\u{301}long", 2, false), "e\u{301}…");
    assert_eq!(clip("anything", 0, false), "");
    assert_eq!(wrapped("中文abcd", 4), vec!["中文", "abcd"]);
}

#[test]
fn long_messages_are_fully_reachable_and_resize_clamps_scroll() {
    let back = Footer::Only(Hint { key: "esc/q", text: "back" });
    let mut screen = Screen::new(40, 10);
    let mut reader = Reader::new("Error", &format!("{}\nEND", "诊断消息".repeat(200)));
    reader.key(KeyCode::End, 2);
    screen.reader(&mut reader, back);
    assert!(screen.symbols().contains("END"));
    let old = reader.scroll;
    screen.resize(120, 40);
    screen.reader(&mut reader, back);
    assert!(reader.scroll < old);
    assert!(screen.symbols().contains("END"));
}

#[test]
fn help_keys_are_colored_and_wrapped_without_losing_text() {
    for width in [38, 76, 116] {
        let rows = help_lines(
            "ctrl+c  Quit; wait for pending action\n\nconnection refused",
            width,
            COLORS,
        );
        let text: String = rows
            .iter()
            .flat_map(|row| row.spans.iter())
            .map(|span| span.text.as_str())
            .collect();
        assert!(text.contains("ctrl+c"));
        assert!(text.contains("connection refused"));
        assert!(rows.iter().all(|row| line(row).width() <= width));
        assert_eq!(rows[0].spans[0].style.fg, Some(Color::Cyan));
        assert_eq!(rows[0].spans[1].style.fg, None);
    }
}

#[test]
fn empty_and_tiny_screens_have_recovery_instructions() {
    let mut screen = Screen::new(40, 10);
    let mut ui = MainUi::new();
    for width in [40, 80, 120] {
        screen.resize(width, 10);
        screen.main(&mut ui, "");
        assert!(screen.symbols().contains("served enable"));
        assert!(screen.symbols().contains("served run"));
        assert!(screen.symbols().contains("? help   esc/q quit"));
    }
    screen.resize(30, 8);
    screen.main(&mut ui, "");
    assert!(screen.symbols().contains("Resize to 40x10"));
    assert!(screen.symbols().contains("esc/q back/quit"));
    for key in [KeyCode::Esc, KeyCode::Char('q')] {
        assert!(matches!(ui.key(key, false, 1), Intent::Quit));
    }
}

fn context(pending: bool) -> LoopContext {
    LoopContext { release: false, control: false, pending, usable: true, rows: 10 }
}

#[test]
fn the_loop_waits_for_what_runs_and_asks_about_logs() {
    let mut ui = MainUi::connecting();
    assert_eq!(ui.unavailable.as_deref(), Some("Connecting to manager"));
    ui.complete_refresh(Ok(Response::Services { services: vec![service_info(true)] }), "");
    assert!(!ui.initial_loading);
    let mut prompt = false;
    assert!(matches!(
        ui.run_key(&mut prompt, KeyCode::Char('q'), context(true)),
        LoopStep::WaitForAction
    ));
    assert!(matches!(
        ui.run_key(&mut prompt, KeyCode::Char('a'), context(false)),
        LoopStep::Act(ServiceAction::Attach, n) if n == "api"
    ));
    prompt = true;
    ui.attach_unavailable("warning: crashed", true);
    assert!(matches!(
        ui.run_key(&mut prompt, KeyCode::Char('j'), context(false)),
        LoopStep::Continue
    ));
    assert!(prompt);
    assert!(matches!(
        ui.run_key(&mut prompt, KeyCode::Enter, context(false)),
        LoopStep::OpenLog
    ));
    ui.complete_refresh(Err("refused".to_owned()), "");
    assert!(ui.unavailable.is_some());
    assert_eq!(ui.services.len(), 1);
}

fn chunk(offset: u64, next_offset: u64, eof: bool) -> Response {
    Response::HistoryChunk {
        service: "api".to_owned(),
        id: "latest".to_owned(),
        offset,
        next_offset,
        total: 8,
        total_lines: 2,
        eof,
        content: "line\n".to_owned(),
    }
}

#[test]
fn records_are_fetched_as_they_are_read() {
    let mut ui = HistoryUi::open(Response::HistoryList {
        service: "api".to_owned(),
        records: vec![record("latest", true)],
    })
    .unwrap();
    assert!(HistoryUi::open(Response::Done).is_err());
    let HistoryStep::Fetch(goal) = ui.key(KeyCode::Enter, false, false, true, 5) else {
        panic!("the record is fetched")
    };
    assert!(matches!(&goal, Goal::First(id) if id == "latest"));
    assert!(matches!(
        ui.request("api", &goal),
        Some(Request::HistoryChunk { offset: 0, .. })
    ));
    assert!(matches!(ui.fetched(goal, Ok(chunk(0, 4, false))), HistoryStep::Stay));
    let HistoryStep::Fetch(goal) = ui.key(KeyCode::End, false, false, true, 5) else {
        panic!("the rest is fetched")
    };
    assert!(matches!(goal, Goal::End));
    assert!(matches!(ui.fetched(goal, Ok(chunk(4, 8, true))), HistoryStep::Stay));
    assert_eq!(ui.view.as_ref().unwrap().content, "line\nline\n");
    assert!(matches!(ui.key(KeyCode::Esc, false, false, true, 5), HistoryStep::Stay));
    assert!(ui.view.is_none());
    assert!(matches!(ui.key(KeyCode::Esc, false, false, true, 5), HistoryStep::Leave));
}

#[test]
fn paths_below_the_home_are_short() {
    assert_eq!(display_path("/home/u/api", Some("/home/u")), "~/api");
    assert_eq!(display_path("/home/u", Some("/home/u")), "~");
    assert_eq!(display_path("/home/user", Some("/home/u")), "/home/user");
    assert_eq!(display_path("/srv", None), "/srv");
}

fn place(parts: &[Part], frame: &mut Frame<'_>, fields: &[&str]) {
    let constraints: Vec<_> = parts
        .iter()
        .map(|p| match p.height {
            Height::Exactly(n) => Constraint::Length(n),
            Height::AtLeast(n) => Constraint::Min(n),
        })
        .collect();
    let areas = Layout::default()
        .direction(Direction::Vertical)
        .constraints(constraints)
        .split(frame.area());
    for (part, area) in parts.iter().zip(areas.iter()) {
        let mut block = Block::default();
        if let Some(title) = part.title {
            block = block.borders(Borders::ALL).title(title);
        }
        match &part.body {
            Body::Text { text, .. } => {
                frame.render_widget(Paragraph::new(text.as_str()).block(block), *area)
            }
            Body::Wrapped(text) => frame.render_widget(
                Paragraph::new(text.as_str()).block(block).wrap(Wrap { trim: false }),
                *area,
            ),
            Body::Rows { rows, selected } => {
                let mut state = ListState::default();
                state.select(*selected);
                let items: Vec<_> = rows.iter().map(|r| ListItem::new(r.clone())).collect();
                frame.render_stateful_widget(
                    List::new(items).block(block).highlight_symbol("> "),
                    *area,
                    &mut state,
                );
            }
            Body::Field(i) => {
                frame.render_widget(Paragraph::new(fields[*i].to_owned()).block(block), *area)
            }
        }
    }
}

fn place_popup(popup: &PopupView, frame: &mut Frame<'_>) {
    let area = rect(popup.area);
    frame.render_widget(Clear, area);
    let items: Vec<_> = popup.options.iter().map(|o| ListItem::new(*o)).collect();
    let mut state = ListState::default();
    state.select(Some(popup.selected));
    frame.render_stateful_widget(
        List::new(items)
            .block(Block::default().borders(Borders::ALL).title(popup.title))
            .highlight_symbol("> "),
        area,
        &mut state,
    );
}

#[test]
fn main_render_keeps_tip_and_contextual_footer() {
    let mut screen = Screen::new(80, 24);
    let services = vec![service_info(true)];
    let parts = draw(&services, 0, "render tip", "");
    screen.0.draw(|frame| place(&parts, frame, &[])).expect("draw");

    let text = screen.symbols();
    assert!(text.contains("tips: render tip"));
    assert!(text.contains("r restart"));
    assert!(text.contains("a attach"));
    assert!(text.contains("q/Esc quit"));
}

#[test]
fn editor_render_shows_fields_and_popup_options() {
    let mut screen = Screen::new(100, 30);
    let state = EditorState {
        selected: EditorField::Restart,
        popup: Some(EditorPopup::Restart {
            selected: RestartPolicy::OnFailure,
        }),
        tty: false,
        restart: RestartPolicy::OnFailure,
    };
    let parts = draw_editor(&state, "editor tip");
    let popup = draw_popup(
        Area { x: 0, y: 0, width: 100, height: 30 },
        state.popup.expect("popup"),
    );
    screen
        .0
        .draw(|frame| {
            place(&parts, frame, &["api", "./run.sh", "PORT=8080"]);
            place_popup(&popup, frame);
        })
        .expect("draw");

    let text = screen.symbols();
    assert!(text.contains("name"));
    assert!(text.contains("command"));
    assert!(text.contains("TTY"));
    assert!(text.contains("Disabled"));
    assert!(text.contains("restart"));
    assert!(text.contains("on-failure"));
    assert!(text.contains("always"));
    assert!(text.contains(".env"));
    assert!(text.contains("tips: editor tip"));
    assert!(text.contains("Enter apply"));
}

#[test]
fn the_chosen_option_of_a_popup_is_black_on_yellow() {
    let popup = draw_popup(
        Area { x: 0, y: 0, width: 100, height: 30 },
        EditorPopup::Restart { selected: RestartPolicy::Always },
    );
    assert_eq!(popup.highlight.fg, Some(Color::Black));
    assert_eq!(popup.highlight.bg, Some(Color::Yellow));
    assert!(popup.highlight.bold);
    assert_eq!(task_failure("panicked"), "background task failed: panicked");
}

#[test]
fn wrapped_rows_fit_and_hold_the_whole_line() {
    for width in [1, 2, 5, 8, 40] {
        for text in ["a long line of words", "\u{4e2d}\u{6587}\u{5b57}", "", "e\u{301}x"] {
            let rows = wrapped(text, width);
            assert_eq!(rows.concat(), text);
            assert!(rows.iter().all(|row| row.width() <= width || row.width() == 2 && width == 1));
        }
    }
    assert_eq!(wrapped("ab\u{7}c\nde", 2), ["ab", "c", "de"]);
}

fn edited_service() -> ServiceConfig {
    let mut env = EnvMap::new();
    env.insert("PORT".to_owned(), "8080\nmore".to_owned());
    ServiceConfig {
        name: "api".to_owned(),
        command: "cargo run".to_owned(),
        cwd: None,
        tty: false,
        sync_rows_cols: true,
        restart: RestartPolicy::Always,
        persist_logs: true,
        log_max_bytes: 128,
        log_max_files: 4,
        env,
    }
}

fn form_text(form: &mut Form, width: u16, height: u16) -> String {
    let mut screen = Screen::new(width, height);
    let widgets = draw_form(form, screen.size(), COLORS);
    screen.show(&widgets);
    buffer_text(&screen)
}

#[test]
fn the_form_shows_its_pages_and_what_is_edited() {
    let mut form = Form::open(&edited_service());
    let text = form_text(&mut form, 80, 24);
    for part in ["Edit", "Basic", "Runtime", "Logs", "Environment", "esc back"] {
        assert!(text.contains(part), "{text}");
    }
    assert!(text.contains("Name                api"));
    assert!(text.contains("Command             cargo run"));
    assert!(!text.contains("unsaved changes"));

    form.tab = 2;
    assert!(form_text(&mut form, 80, 24).contains("Max bytes / file    128"));
    form.tab = 3;
    let text = form_text(&mut form, 80, 24);
    assert!(text.contains("PORT                8080"));
    assert!(!text.contains("more"));

    form.editing = Some(Editing::Text {
        field: 1,
        input: Buffer::new("abcdef".to_owned()),
        original: "abc".to_owned(),
    });
    let text = form_text(&mut form, 40, 24);
    assert!(text.contains("Command"));
    assert!(text.contains("  abcdef"));
    assert!(text.contains("unsaved changes"));
    let Some(Editing::Text { input, .. }) = &form.editing else {
        panic!("a text is edited")
    };
    assert_eq!((input.viewport_width, input.viewport_height), (34, 16));

    form.editing = Some(Editing::Choice(1));
    let text = form_text(&mut form, 80, 24);
    for part in ["never", "on-failure", "always"] {
        assert!(text.contains(part), "{text}");
    }

    form.editing = Some(Editing::Env {
        old: Some("PORT".to_owned()),
        key: Buffer::new("PORT".to_owned()),
        value: Buffer::new("8080".to_owned()),
        original_value: "8080".to_owned(),
        value_focus: true,
        delete_available: true,
        delete_focus: false,
    });
    let text = form_text(&mut form, 80, 24);
    for part in ["Name", "PORT", "Value", "8080", "Delete"] {
        assert!(text.contains(part), "{text}");
    }
}

#[test]
fn questions_errors_and_help_lie_over_the_form() {
    let mut form = Form::open(&edited_service());
    form.inline_error = Some("a name is needed".to_owned());
    assert!(form_text(&mut form, 80, 24).contains("a name is needed"));
    let questions = [
        (Confirm::Exit, ["Save changes before leaving?", "Discard"]),
        (Confirm::Reload, ["Reload and discard changes?", "Reload"]),
        (Confirm::Delete("PORT".to_owned()), ["Delete PORT?", "Keep"]),
        (Confirm::DeleteNew, ["Delete the new variable?", "Keep"]),
    ];
    for (confirm, parts) in questions {
        form.confirm = Some(confirm);
        let text = form_text(&mut form, 80, 24);
        assert!(parts.iter().all(|part| text.contains(part)), "{text}");
        assert!(!text.contains("cargo run"));
    }
    form.error = Some("cannot write".to_owned());
    form.reader_scroll = 9;
    let text = form_text(&mut form, 80, 24);
    assert!(text.contains("cannot write") && !text.contains("Delete"));
    assert_eq!(form.reader_scroll, 0);
    form.help = true;
    let text = form_text(&mut form, 80, 24);
    assert!(text.contains("Help") && !text.contains("cannot write"));
}

#[test]
fn a_restart_is_offered_with_the_answer_no_first() {
    let mut screen = Screen::new(80, 24);
    let widgets = draw_restart("Restart api?", Some(0), screen.size(), COLORS);
    screen.show(&widgets);
    let text = buffer_text(&screen);
    assert!(text.contains("Restart api?") && text.contains("Not now"));
    let widgets = draw_restart("Restarting", None, screen.size(), COLORS);
    screen.show(&widgets);
    assert!(!buffer_text(&screen).contains("Not now"));
}

fn event(code: KeyCode, control: bool) -> KeyEvent {
    KeyEvent {
        code,
        modifiers: if control { KeyModifiers::ctrl() } else { KeyModifiers::none() },
        kind: KeyEventKind::Press,
    }
}

#[test]
fn the_plain_list_follows_its_keys() {
    let mut ui = PlainUi::new();
    let here = Some(("/tmp/other".to_owned(), true));
    ui.refreshed(Ok(Response::Services { services: vec![service_info(false)] }), "", &here);
    assert_eq!(ui.notice, "enable your service to manage it here!");
    assert!(matches!(ui.key(event(KeyCode::Char('a'), false)), PlainIntent::Nothing));
    assert!(matches!(
        ui.key(event(KeyCode::Char('d'), false)),
        PlainIntent::Send { request: Request::Disable { target: Target::Name(n) }, action: "disable" } if n == "api"
    ));
    ui.key(event(KeyCode::Down, false));
    assert_eq!(ui.selected, 0);
    assert!(matches!(ui.key(event(KeyCode::Char('c'), true)), PlainIntent::Quit));
    ui.refreshed(Err("refused".to_owned()), "", &here);
    assert_eq!(ui.notice, "manager unavailable: refused");
    assert_eq!(tip(7), tip(2));
}

#[test]
fn the_plain_editor_saves_only_what_is_valid() {
    let mut e = EditorState::new(true, RestartPolicy::Never);
    assert_eq!(e.key(event(KeyCode::Char('x'), false)), EditorStep::Type(0));
    e.key(event(KeyCode::Tab, false));
    e.key(event(KeyCode::Tab, false));
    e.key(event(KeyCode::Enter, false));
    e.key(event(KeyCode::Down, false));
    e.key(event(KeyCode::Esc, false));
    assert!(e.tty && e.popup.is_none());
    e.key(event(KeyCode::Enter, false));
    e.key(event(KeyCode::Down, false));
    e.key(event(KeyCode::Enter, false));
    assert!(!e.tty);
    assert_eq!(e.key(event(KeyCode::Char('s'), true)), EditorStep::Save);
    assert_eq!(e.key(event(KeyCode::Char('c'), true)), EditorStep::Cancel);
    assert_eq!(
        centered_rect(Area { x: 0, y: 0, width: 100, height: 30 }, 34, 5),
        Area { x: 33, y: 12, width: 34, height: 5 }
    );
    assert_eq!(
        centered_rect(Area { x: 0, y: 0, width: 20, height: 4 }, 34, 5),
        Area { x: 1, y: 1, width: 18, height: 2 }
    );
    let config = served::config::ServiceConfig::template("/srv/api");
    let lines = |s: &str| env_lines(s);
    let saved = edited(config.clone(), &lines(" api \n"), &lines("a\nb"), false, RestartPolicy::Always).unwrap();
    assert_eq!((saved.name.as_str(), saved.command.as_str(), saved.tty), ("api", "a\nb", false));
    assert!(edited(config, &lines(""), &lines("a"), false, RestartPolicy::Always).is_err());
    assert_eq!(env_text(&lines("A=1\nB=2")), "A=1\nB=2\n");
}

#[test]
fn what_became_of_an_action_is_shown() {
    let mut ui = MainUi::connecting();
    assert_eq!(ui.unavailable.as_deref(), Some("Connecting to manager"));
    ui.complete_refresh(Ok(Response::Services { services: vec![service_info(true)] }), "");
    assert!(ui.unavailable.is_none());

    let done = LifecycleAction::Restart.finish("api", Ok(()));
    assert!(!ui.action_finished(done, false, 1_000));
    assert_eq!(ui.notice(3_999).map(|n| n.text.as_str()), Some("restarted api"));
    assert!(ui.notice(4_000).is_none());
    ui.begin_action();
    assert!(ui.notice(1_500).is_none());
    let done = LifecycleAction::Stop.finish("api", Ok(()));
    assert!(ui.action_finished(done, true, 0));
    let failed = LifecycleAction::Stop.finish("api", Err("gone".to_owned()));
    assert!(!ui.action_finished(failed, true, 0));
    let shown = |ui: &MainUi| {
        let message = ui.message.as_ref().expect("message");
        (message.title.clone(), message.content.clone())
    };
    assert_eq!(shown(&ui), ("Operation failed".to_owned(), "stop api: gone".to_owned()));

    ui.attach_failed("refused");
    assert_eq!(shown(&ui), ("Attach failed".to_owned(), "refused".to_owned()));
    ui.history_failed("lost");
    assert_eq!(shown(&ui), ("History failed".to_owned(), "lost".to_owned()));
    ui.log_opened("warning", Err("no editor".to_owned()));
    assert_eq!(
        shown(&ui),
        ("Attach unavailable".to_owned(), "warning\nCannot open latest.log: no editor".to_owned())
    );
    ui.log_opened("warning", Ok(()));
    assert_eq!(shown(&ui).1, "warning");
}

#[test]
fn cells_are_kept_whole_when_text_is_cut() {
    let cells: Vec<Cell> = [("a", 1), ("服", 2), ("务", 2), ("b", 1)]
        .iter()
        .map(|(text, width)| Cell { text: (*text).to_owned(), width: *width })
        .collect();
    let cut = |width, tail| clip_cells("a服务b".to_owned(), 6, &cells, width, tail);
    assert_eq!(cut(6, false), "a服务b");
    assert_eq!(cut(5, false), "a服…");
    assert_eq!(cut(3, false), "a…");
    assert_eq!(cut(5, true), "…务b");
    assert_eq!(cut(1, true), "…");
    assert_eq!(cut(0, false), "");
    assert_eq!(clip("a服务b", 5, false), "a服…");

    let mut rows = vec!["before".to_owned()];
    wrap_line(&cells, 3, &mut rows);
    assert_eq!(rows, ["before", "a服", "务b"]);
    assert_eq!(wrapped("a服务b\n\tx", 3), ["a服", "务b", "    ", "x"]);
}
