//! The screens: a reader, the services, the menu of one, the question before disabling, and the
//! history.
use crate::protocol::{HistoryRecord, ServiceInfo, ServiceState};
use crate::text::{cat2, cat3, cat4, chars_of, decimal, decimal_text, views};
use crate::tui::cells::{text_width, width_of};
use crate::tui::classic::{state_name, state_text};
use crate::tui::keys::sat_sub;
use crate::tui::layout::{blanks, clip, clipped, display_path, history_position, lines_of, pad_right, padded, position_of, shown_path, spaces, text_lines, wrapped, wrapped_rows};
use crate::tui::model::{action_at, action_key, action_label, kind_name, kind_text, max_of, min_of, scroll_min, HistoryView, MainUi, Notice, Page, Reader, ReaderView, ServiceAction, Tone, UiView};
use crate::tui::view::{areas_of, body_rows, draw_help, frame_of, held_back, help_page_of, help_rows, inner_of, more16, page, place_of, place_text, rows_of, text_page, text_page_of, usable_size};
use crate::tui::widget::{a_row, a_span, danger_look, danger_style, lemma_row_push, margin_look, margin_style, muted, muted_look, plain, plain_look, plain_row, plain_rows, push_plain, put_list, put_text, row1, row2, row3, row_views, selected_look, selected_style, span, tone_look, tone_style, widget_views, window, window_of, Area, Footer, Row, RowView, Size, Style, Widget, WidgetView};
use vstd::prelude::*;
use vstd::string::StringExecFns;

verus! {

pub open spec fn reader_page_of(size: Size, reader: ReaderView, footer: Footer, colors: bool) -> Seq<WidgetView> {
    if footer is Help {
        help_page_of(size, reader.title, reader.content, reader.scroll, footer, colors)
    } else {
        text_page_of(
            size,
            reader.title,
            plain_rows(wrapped_rows(reader.content, inner_of(size) as usize)),
            reader.scroll,
            footer,
            Seq::empty(),
            reader.tone,
            colors,
        )
    }
}

/// Where a reader stands once it has been drawn.
pub open spec fn reader_place(size: Size, reader: ReaderView, footer: Footer, colors: bool) -> usize {
    if !usable_size(size) {
        reader.scroll
    } else if footer is Help {
        held_back(
            reader.scroll,
            help_rows(reader.content, inner_of(size) as usize, colors).len() as int,
            size.height - 6,
        )
    } else {
        held_back(
            reader.scroll,
            wrapped_rows(reader.content, inner_of(size) as usize).len() as int,
            areas_of(size, footer, None).body.height as int,
        )
    }
}

pub open spec fn reader_drawn(size: Size, reader: ReaderView, footer: Footer, colors: bool) -> ReaderView {
    ReaderView { scroll: reader_place(size, reader, footer, colors), ..reader }
}

fn rows_of_texts(texts: &Vec<String>) -> (r: Vec<Row>)
    ensures
        row_views(r@) == plain_rows(views(texts@)),
        r@.len() == texts@.len(),
{
    let mut rows: Vec<Row> = Vec::new();
    let mut i: usize = 0;
    assert(row_views(rows@) =~= plain_rows(views(texts@).take(0)));
    while i < texts.len()
        invariant
            i <= texts@.len(),
            row_views(rows@) == plain_rows(views(texts@).take(i as int)),
        decreases texts@.len() - i,
    {
        push_plain(&mut rows, texts[i].as_str());
        i += 1;
        assert(row_views(rows@) =~= plain_rows(views(texts@).take(i as int)));
    }
    assert(views(texts@).take(i as int) =~= views(texts@));
    assert(row_views(rows@).len() == rows@.len());
    rows
}

pub fn draw_reader(out: &mut Vec<Widget>, size: Size, reader: &mut Reader, footer: Footer, colors: bool)
    ensures
        widget_views(final(out)@) == widget_views(old(out)@) + reader_page_of(
            size,
            old(reader)@,
            footer,
            colors,
        ),
        final(reader)@ == reader_drawn(size, old(reader)@, footer, colors),
{
    match footer {
        Footer::Help => {
            let mut scroll = reader.scroll;
            draw_help(
                out,
                size,
                reader.title.as_str(),
                reader.content.as_str(),
                &mut scroll,
                footer,
                colors,
            );
            reader.scroll = scroll;
        },
        _ => {
            let width: usize = size.width.saturating_sub(if size.width < 80 { 2 } else { 4 }) as usize;
            let texts = wrapped(reader.content.as_str(), width);
            let rows = rows_of_texts(&texts);
            let mut scroll = reader.scroll;
            assert(""@ =~= Seq::<char>::empty()) by {
                reveal_strlit("");
            }
            text_page(
                out,
                size,
                reader.title.as_str(),
                rows,
                &mut scroll,
                footer,
                "",
                reader.tone,
                colors,
            );
            reader.scroll = scroll;
            assert(views(texts@).len() == texts@.len());
        },
    }
}

pub open spec fn state_look(state: ServiceState, colors: bool) -> Style {
    match state {
        ServiceState::Running => tone_look(Tone::Success, colors),
        ServiceState::Starting => tone_look(Tone::Warning, colors),
        ServiceState::Restarting => tone_look(Tone::Warning, colors),
        ServiceState::Failed => tone_look(Tone::Error, colors),
        ServiceState::Stopped => plain_look(),
    }
}

pub fn state_style(state: &ServiceState, colors: bool) -> (r: Style)
    ensures
        r == state_look(*state, colors),
{
    match *state {
        ServiceState::Running => tone_style(Tone::Success, colors),
        ServiceState::Starting => tone_style(Tone::Warning, colors),
        ServiceState::Restarting => tone_style(Tone::Warning, colors),
        ServiceState::Failed => tone_style(Tone::Error, colors),
        ServiceState::Stopped => plain(),
    }
}

pub struct NoticeView {
    pub text: Seq<char>,
    pub tone: Tone,
}

impl View for Notice {
    type V = NoticeView;

    open spec fn view(&self) -> NoticeView {
        NoticeView { text: self.text@, tone: self.tone }
    }
}

pub open spec fn notice_opt(n: Option<&Notice>) -> Option<NoticeView> {
    match n {
        Some(n) => Some(n@),
        None => None,
    }
}

pub open spec fn str_opt(s: Option<&str>) -> Option<Seq<char>> {
    match s {
        Some(s) => Some(s@),
        None => None,
    }
}

/// What is said about a service beside the keys. Old data and notices come first.
pub open spec fn detail_text(
    width: u16,
    service: Option<ServiceInfo>,
    stale: bool,
    notice: Option<NoticeView>,
    home: Option<Seq<char>>,
) -> Seq<char> {
    if stale {
        clipped("Manager unavailable; stale data. ? help"@, width as nat, false)
    } else if notice is Some {
        clipped(notice->0.text, width as nat, false)
    } else if service is Some {
        let kind = kind_text(service->0.kind);
        clipped(
            shown_path(service->0.directory@, home),
            sat_sub(width as usize, (kind.len() + 3) as int) as nat,
            true,
        ) + " · "@ + kind
    } else {
        Seq::empty()
    }
}

pub open spec fn detail_look(stale: bool, notice: Option<NoticeView>, colors: bool) -> Style {
    if stale {
        tone_look(Tone::Warning, colors)
    } else if notice is Some {
        tone_look(notice->0.tone, colors)
    } else {
        muted_look()
    }
}

pub open spec fn service_opt(s: Option<&ServiceInfo>) -> Option<ServiceInfo> {
    match s {
        Some(s) => Some(*s),
        None => None,
    }
}

pub open spec fn detail_of(
    area: Area,
    service: Option<ServiceInfo>,
    stale: bool,
    notice: Option<NoticeView>,
    home: Option<Seq<char>>,
    colors: bool,
) -> WidgetView {
    WidgetView::Text {
        area,
        rows: seq![
            a_row(
                seq![a_span(detail_text(area.width, service, stale, notice, home), plain_look())],
            ),
        ],
        style: detail_look(stale, notice, colors),
    }
}

pub fn draw_service_detail(
    out: &mut Vec<Widget>,
    area: Area,
    service: Option<&ServiceInfo>,
    stale: bool,
    notice: Option<&Notice>,
    home: Option<&str>,
    colors: bool,
)
    ensures
        widget_views(final(out)@) == widget_views(old(out)@).push(
            detail_of(
                area,
                service_opt(service),
                stale,
                notice_opt(notice),
                str_opt(home),
                colors,
            ),
        ),
{
    let width = area.width as usize;
    let text = if stale {
        clip("Manager unavailable; stale data. ? help", width, false)
    } else {
        match notice {
            Some(notice) => clip(notice.text.as_str(), width, false),
            None => match service {
                Some(service) => {
                    let kind = kind_name(&service.kind);
                    let path = display_path(service.directory.as_str(), home);
                    let room = width.saturating_sub(chars_of(kind).len().saturating_add(3));
                    let shown = clip(path.as_str(), room, true);
                    cat3(shown.as_str(), " · ", kind)
                },
                None => String::new(),
            },
        }
    };
    let style = if stale {
        tone_style(Tone::Warning, colors)
    } else {
        match notice {
            Some(notice) => tone_style(notice.tone, colors),
            None => muted(),
        }
    };
    assert(text@ =~= detail_text(
        area.width,
        service_opt(service),
        stale,
        notice_opt(notice),
        str_opt(home),
    ));
    put_text(out, area, plain_row(text.as_str()), style);
}

/// The inside of a list: two columns stay free before every row.
pub open spec fn inset(area: Area) -> Area {
    let n = if area.width < 2 { area.width } else { 2 };
    Area { x: more16(area.x, n), width: (area.width - n) as u16, ..area }
}

pub open spec fn marked(selected: usize, items: nat) -> Option<usize> {
    if items == 0 {
        None
    } else if selected < items {
        Some(selected)
    } else {
        Some((items - 1) as usize)
    }
}

fn list_with_highlight(out: &mut Vec<Widget>, area: Area, rows: Vec<Row>, selected: usize, highlight: Style)
    ensures
        widget_views(final(out)@) == widget_views(old(out)@).push(
            WidgetView::List {
                area: inset(area),
                rows: row_views(rows@),
                selected: marked(selected, rows@.len()),
                highlight,
            },
        ),
{
    let n: u16 = if area.width < 2 { area.width } else { 2 };
    let mark: Option<usize> = if rows.len() == 0 {
        None
    } else if selected < rows.len() {
        Some(selected)
    } else {
        Some(rows.len() - 1)
    };
    put_list(
        out,
        Area { x: area.x.saturating_add(n), y: area.y, width: area.width - n, height: area.height },
        rows,
        mark,
        highlight,
    );
}

pub open spec fn widest_name(services: Seq<ServiceInfo>) -> nat
    decreases services.len(),
{
    if services.len() == 0 {
        0
    } else {
        let front = widest_name(services.drop_last());
        let last = text_width(services.last().name@);
        if last > front { last } else { front }
    }
}

/// A column between ten and twenty four wide, within what is left beside `rest`.
pub open spec fn column(widest: nat, width: u16, rest: int) -> usize {
    let wanted = if widest < 10 { 10usize } else if widest > 24 { 24 } else { widest as usize };
    min_of(wanted, sat_sub(width as usize, rest))
}

pub open spec fn name_cell(name: Seq<char>, width: usize) -> Seq<char> {
    let shown = clipped(name, width as nat, false);
    shown + blanks((sat_sub(width, text_width(shown) as int) + 1) as nat)
}

/// A service in the list. The mark lies on its name; its state keeps its color.
pub open spec fn service_row(s: ServiceInfo, width: usize, here: bool, colors: bool) -> RowView {
    a_row(
        seq![
            a_span(name_cell(s.name@, width), if here { selected_look() } else { plain_look() }),
            a_span(state_text(s.state), state_look(s.state, colors)),
        ],
    )
}

pub open spec fn service_rows(services: Seq<ServiceInfo>, width: usize, selected: usize, colors: bool) -> Seq<RowView> {
    Seq::new(
        services.len(),
        |i: int|
            service_row(services[i], width, marked(selected, services.len()) == Some(i as usize), colors),
    )
}

pub open spec fn services_count(services: nat, loading: bool, stale: bool) -> Seq<char> {
    if loading {
        Seq::empty()
    } else if stale {
        "stale"@
    } else {
        decimal(services) + " "@ + (if services == 1 { "service"@ } else { "services"@ })
    }
}

pub open spec fn no_services(area: Area, stale: bool, colors: bool) -> WidgetView {
    if stale {
        WidgetView::Text {
            area,
            rows: plain_rows(seq!["Manager unavailable. Retrying…"@]),
            style: tone_look(Tone::Warning, colors),
        }
    } else {
        WidgetView::Text {
            area,
            rows: plain_rows(
                seq!["No services. Use served enable,"@, "or served run -- <command>."@],
            ),
            style: muted_look(),
        }
    }
}

pub open spec fn services_list(
    body: Area,
    services: Seq<ServiceInfo>,
    selected: usize,
    colors: bool,
) -> WidgetView {
    let width = column(widest_name(services), body.width, 13);
    WidgetView::List {
        area: inset(Area { width: (width + 13) as u16, ..body }),
        rows: service_rows(services, width, selected, colors),
        selected: marked(selected, services.len()),
        highlight: plain_look(),
    }
}

pub open spec fn at_place(services: Seq<ServiceInfo>, selected: usize) -> Option<ServiceInfo> {
    if selected < services.len() { Some(services[selected as int]) } else { None }
}

pub open spec fn services_of(
    size: Size,
    services: Seq<ServiceInfo>,
    selected: usize,
    loading: bool,
    stale: bool,
    notice: Option<NoticeView>,
    home: Option<Seq<char>>,
    colors: bool,
) -> Seq<WidgetView> {
    let footer = if services.len() == 0 { Footer::Empty } else { Footer::Services };
    let items = Some(services.len() as usize);
    let frame = frame_of(
        size,
        "served"@,
        services_count(services.len(), loading, stale),
        footer,
        items,
        Tone::Accent,
        colors,
    );
    if !usable_size(size) || loading {
        frame
    } else {
        let areas = areas_of(size, footer, items);
        frame.push(
            if services.len() == 0 {
                no_services(areas.body, stale, colors)
            } else {
                services_list(areas.body, services, selected, colors)
            },
        ).push(
            detail_of(areas.detail, at_place(services, selected), stale, notice, home, colors),
        )
    }
}

fn name_width(services: &Vec<ServiceInfo>, width: u16) -> (r: usize)
    ensures
        r == column(widest_name(services@), width, 13),
{
    let mut most: usize = 0;
    let mut i: usize = 0;
    while i < services.len()
        invariant
            i <= services@.len(),
            most == widest_name(services@.take(i as int)),
        decreases services@.len() - i,
    {
        let cells = width_of(services[i].name.as_str());
        assert(services@.take(i + 1).drop_last() =~= services@.take(i as int));
        if cells > most {
            most = cells;
        }
        i += 1;
    }
    assert(services@.take(i as int) =~= services@);
    let wanted: usize = if most < 10 { 10 } else if most > 24 { 24 } else { most };
    let left = (width as usize).saturating_sub(13);
    if wanted < left { wanted } else { left }
}

fn rows_of_services(services: &Vec<ServiceInfo>, width: usize, selected: usize, colors: bool) -> (r: Vec<Row>)
    requires
        width < usize::MAX,
    ensures
        row_views(r@) == service_rows(services@, width, selected, colors),
        r@.len() == services@.len(),
{
    let ghost wanted = service_rows(services@, width, selected, colors);
    let len: usize = services.len();
    let mut rows: Vec<Row> = Vec::new();
    let mut i: usize = 0;
    assert(row_views(rows@) =~= wanted.take(0));
    while i < services.len()
        invariant
            i <= services@.len(),
            width < usize::MAX,
            len == services@.len(),
            wanted == service_rows(services@, width, selected, colors),
            row_views(rows@) == wanted.take(i as int),
        decreases services@.len() - i,
    {
        let s = &services[i];
        let name = clip(s.name.as_str(), width, false);
        let spacing = spaces(width.saturating_sub(width_of(name.as_str())) + 1);
        let cell = cat2(name.as_str(), spacing.as_str());
        let here = if selected < len { i == selected } else { i == len - 1 };
        let row = row2(
            span(cell.as_str(), if here { selected_style() } else { plain() }),
            span(state_name(&s.state), state_style(&s.state, colors)),
        );
        proof {
            lemma_row_push(rows@, row);
            assert(row@ == wanted[i as int]);
            assert(wanted.take(i + 1) =~= wanted.take(i as int).push(wanted[i as int]));
        }
        rows.push(row);
        i += 1;
    }
    assert(wanted.take(i as int) =~= wanted);
    assert(row_views(rows@).len() == rows@.len());
    rows
}

fn put_no_services(out: &mut Vec<Widget>, area: Area, stale: bool, colors: bool)
    ensures
        widget_views(final(out)@) == widget_views(old(out)@).push(no_services(area, stale, colors)),
{
    let mut rows: Vec<Row> = Vec::new();
    if stale {
        push_plain(&mut rows, "Manager unavailable. Retrying…");
        assert(row_views(rows@) =~= plain_rows(seq!["Manager unavailable. Retrying…"@]));
        put_text(out, area, rows, tone_style(Tone::Warning, colors));
    } else {
        push_plain(&mut rows, "No services. Use served enable,");
        push_plain(&mut rows, "or served run -- <command>.");
        assert(row_views(rows@) =~= plain_rows(
            seq!["No services. Use served enable,"@, "or served run -- <command>."@],
        ));
        put_text(out, area, rows, muted());
    }
}

fn put_services(out: &mut Vec<Widget>, body: Area, services: &Vec<ServiceInfo>, selected: usize, colors: bool)
    requires
        13 <= body.width,
        body.x + 100 <= u16::MAX,
    ensures
        widget_views(final(out)@) == widget_views(old(out)@).push(
            services_list(body, services@, selected, colors),
        ),
{
    let width = name_width(services, body.width);
    let rows = rows_of_services(services, width, selected, colors);
    list_with_highlight(
        out,
        Area { x: body.x, y: body.y, width: (width + 13) as u16, height: body.height },
        rows,
        selected,
        plain(),
    );
}

pub fn draw_services(
    out: &mut Vec<Widget>,
    size: Size,
    services: &Vec<ServiceInfo>,
    selected: usize,
    initial_loading: bool,
    stale: bool,
    notice: Option<&Notice>,
    home: Option<&str>,
    colors: bool,
)
    ensures
        widget_views(final(out)@) == widget_views(old(out)@) + services_of(
            size,
            services@,
            selected,
            initial_loading,
            stale,
            notice_opt(notice),
            str_opt(home),
            colors,
        ),
{
    let ghost before = widget_views(out@);
    let len: usize = services.len();
    let count = if initial_loading {
        String::new()
    } else if stale {
        "stale".to_owned()
    } else {
        let n = decimal_text(len as u64);
        cat3(n.as_str(), " ", if len == 1 { "service" } else { "services" })
    };
    assert(count@ =~= services_count(services@.len(), initial_loading, stale));
    let footer = if len == 0 { Footer::Empty } else { Footer::Services };
    let areas = match page(
        out,
        size,
        "served",
        count.as_str(),
        footer,
        Some(len),
        Tone::Accent,
        colors,
    ) {
        Some(areas) => areas,
        None => {
            return;
        },
    };
    if initial_loading {
        return;
    }
    if len == 0 {
        put_no_services(out, areas.body, stale, colors);
    } else {
        put_services(out, areas.body, services, selected, colors);
    }
    let service = if selected < len { Some(&services[selected]) } else { None };
    draw_service_detail(out, areas.detail, service, stale, notice, home, colors);
    assert(widget_views(out@) =~= before + services_of(
        size,
        services@,
        selected,
        initial_loading,
        stale,
        notice_opt(notice),
        str_opt(home),
        colors,
    ));
}

/// The row of an action in the menu.
pub open spec fn action_row(i: int, selected: usize, colors: bool) -> RowView {
    let action = action_at(i);
    let here = i == selected;
    RowView {
        spans: seq![
            a_span("  "@, margin_look()),
            a_span(
                padded(action_label(action), 10) + " "@,
                if !here && action is Disable { tone_look(Tone::Error, colors) } else { plain_look() },
            ),
            a_span(
                seq![action_key(action)],
                if here { plain_look() } else { tone_look(Tone::Accent, colors) },
            ),
        ],
        style: if !here {
            plain_look()
        } else if action is Disable {
            danger_look(true, colors)
        } else {
            selected_look()
        },
    }
}

pub open spec fn action_rows(selected: usize, colors: bool) -> Seq<RowView> {
    Seq::new(6, |i: int| action_row(i, selected, colors))
}

/// Where the menu stands so that the marked action is shown and no row is wasted.
pub open spec fn menu_place(selected: usize, scroll: usize, rows: usize) -> usize {
    min_of(max_of(min_of(scroll, selected), scroll_min(selected, rows)), sat_sub(6, rows as int))
}

pub open spec fn actions_of(
    size: Size,
    service: ServiceInfo,
    selected: usize,
    scroll: usize,
    stale: bool,
    notice: Option<NoticeView>,
    home: Option<Seq<char>>,
    colors: bool,
) -> Seq<WidgetView> {
    let frame = frame_of(
        size,
        service.name@ + " / actions"@,
        Seq::empty(),
        Footer::Actions,
        Some(6),
        Tone::Accent,
        colors,
    );
    if !usable_size(size) {
        frame
    } else {
        let areas = areas_of(size, Footer::Actions, Some(6));
        let rows = areas.body.height as usize;
        frame + seq![
            WidgetView::Text {
                area: Area { y: 2, height: 1, ..areas.body },
                rows: seq![
                    a_row(
                        seq![
                            a_span(
                                clipped(
                                    shown_path(service.directory@, home),
                                    areas.body.width as nat,
                                    true,
                                ),
                                plain_look(),
                            ),
                        ],
                    ),
                ],
                style: muted_look(),
            },
            WidgetView::Text {
                area: areas.body,
                rows: window(
                    action_rows(selected, colors),
                    menu_place(selected, scroll, rows) as int,
                    rows as int,
                ),
                style: plain_look(),
            },
            detail_of(areas.detail, Some(service), stale, notice, home, colors),
        ]
    }
}

fn rows_of_actions(selected: usize, colors: bool) -> (r: Vec<Row>)
    ensures
        row_views(r@) == action_rows(selected, colors),
{
    let ghost wanted = action_rows(selected, colors);
    let mut rows: Vec<Row> = Vec::new();
    let mut i: usize = 0;
    assert(row_views(rows@) =~= wanted.take(0));
    while i < 6
        invariant
            i <= 6,
            wanted == action_rows(selected, colors),
            row_views(rows@) == wanted.take(i as int),
        decreases 6 - i,
    {
        let action = ServiceAction::at(i);
        let here = i == selected;
        let disable = match action {
            ServiceAction::Disable => true,
            _ => false,
        };
        let padded_label = pad_right(action.label(), 10);
        let label = cat2(padded_label.as_str(), " ");
        let mut key = String::new();
        key.push(action.key());
        assert(key@ =~= seq![action_key(action)]);
        let mut row = row3(
            span("  ", margin_style()),
            span(
                label.as_str(),
                if !here && disable { tone_style(Tone::Error, colors) } else { plain() },
            ),
            span(key.as_str(), if here { plain() } else { tone_style(Tone::Accent, colors) }),
        );
        row.style = if !here {
            plain()
        } else if disable {
            danger_style(true, colors)
        } else {
            selected_style()
        };
        proof {
            lemma_row_push(rows@, row);
            assert(row@.spans =~= wanted[i as int].spans);
            assert(row@ == wanted[i as int]);
            assert(wanted.take(i + 1) =~= wanted.take(i as int).push(wanted[i as int]));
        }
        rows.push(row);
        i += 1;
    }
    assert(wanted.take(6) =~= wanted);
    rows
}

fn draw_actions(
    out: &mut Vec<Widget>,
    size: Size,
    service: &ServiceInfo,
    selected: usize,
    scroll: &mut usize,
    stale: bool,
    notice: Option<&Notice>,
    home: Option<&str>,
    colors: bool,
)
    ensures
        widget_views(final(out)@) == widget_views(old(out)@) + actions_of(
            size,
            *service,
            selected,
            *old(scroll),
            stale,
            notice_opt(notice),
            str_opt(home),
            colors,
        ),
        *final(scroll) == (if usable_size(size) {
            menu_place(
                selected,
                *old(scroll),
                areas_of(size, Footer::Actions, Some(6)).body.height as usize,
            )
        } else {
            *old(scroll)
        }),
{
    let ghost before = widget_views(out@);
    assert(""@ =~= Seq::<char>::empty()) by {
        reveal_strlit("");
    }
    let title = cat2(service.name.as_str(), " / actions");
    let areas = match page(
        out,
        size,
        title.as_str(),
        "",
        Footer::Actions,
        Some(6),
        Tone::Accent,
        colors,
    ) {
        Some(areas) => areas,
        None => {
            return;
        },
    };
    let path = display_path(service.directory.as_str(), home);
    let path = clip(path.as_str(), areas.body.width as usize, true);
    put_text(
        out,
        Area { x: areas.body.x, y: 2, width: areas.body.width, height: 1 },
        plain_row(path.as_str()),
        muted(),
    );
    let rows = areas.body.height as usize;
    let low: usize = selected.saturating_sub(rows.saturating_sub(1));
    let kept: usize = if *scroll < selected { *scroll } else { selected };
    let shown: usize = if kept > low { kept } else { low };
    let last: usize = 6usize.saturating_sub(rows);
    *scroll = if shown < last { shown } else { last };
    let all = rows_of_actions(selected, colors);
    put_text(out, areas.body, window_of(all, *scroll, rows), plain());
    draw_service_detail(out, areas.detail, Some(service), stale, notice, home, colors);
    assert(widget_views(out@) =~= before + actions_of(
        size,
        *service,
        selected,
        *old(scroll),
        stale,
        notice_opt(notice),
        str_opt(home),
        colors,
    ));
}

pub open spec fn confirm_of(
    size: Size,
    service: ServiceInfo,
    confirm: bool,
    stale: bool,
    notice: Option<NoticeView>,
    home: Option<Seq<char>>,
    colors: bool,
) -> Seq<WidgetView> {
    let frame = frame_of(
        size,
        service.name@ + " / disable"@,
        Seq::empty(),
        Footer::Confirm,
        Some(6),
        Tone::Accent,
        colors,
    );
    if !usable_size(size) {
        frame
    } else {
        let areas = areas_of(size, Footer::Confirm, Some(6));
        frame + seq![
            WidgetView::Text {
                area: Area { height: 1, ..areas.body },
                rows: plain_rows(seq!["Stops and unregisters service."@]),
                style: tone_look(Tone::Error, colors),
            },
            WidgetView::List {
                area: inset(
                    Area {
                        x: areas.body.x,
                        y: (areas.body.y + 1) as u16,
                        width: 9,
                        height: (areas.body.height - 1) as u16,
                    },
                ),
                rows: seq![
                    a_row(seq![a_span("Cancel"@, plain_look())]),
                    RowView {
                        spans: seq![a_span("Disable"@, plain_look())],
                        style: danger_look(false, colors),
                    },
                ],
                selected: Some(if confirm { 1usize } else { 0 }),
                highlight: if confirm { danger_look(true, colors) } else { selected_look() },
            },
            detail_of(areas.detail, Some(service), stale, notice, home, colors),
        ]
    }
}

fn draw_confirm(
    out: &mut Vec<Widget>,
    size: Size,
    service: &ServiceInfo,
    confirm: bool,
    stale: bool,
    notice: Option<&Notice>,
    home: Option<&str>,
    colors: bool,
)
    ensures
        widget_views(final(out)@) == widget_views(old(out)@) + confirm_of(
            size,
            *service,
            confirm,
            stale,
            notice_opt(notice),
            str_opt(home),
            colors,
        ),
{
    let ghost before = widget_views(out@);
    assert(""@ =~= Seq::<char>::empty()) by {
        reveal_strlit("");
    }
    let title = cat2(service.name.as_str(), " / disable");
    let areas = match page(
        out,
        size,
        title.as_str(),
        "",
        Footer::Confirm,
        Some(6),
        Tone::Accent,
        colors,
    ) {
        Some(areas) => areas,
        None => {
            return;
        },
    };
    proof {
        crate::tui::view::law_pages_fit(size, Footer::Confirm, Some(6));
    }
    let first = plain_row("Stops and unregisters service.");
    assert(row_views(first@) =~= plain_rows(seq!["Stops and unregisters service."@]));
    put_text(
        out,
        Area { x: areas.body.x, y: areas.body.y, width: areas.body.width, height: 1 },
        first,
        tone_style(Tone::Error, colors),
    );
    let mut rows: Vec<Row> = Vec::new();
    push_plain(&mut rows, "Cancel");
    let mut second = row1(span("Disable", plain()));
    second.style = danger_style(false, colors);
    proof {
        lemma_row_push(rows@, second);
    }
    rows.push(second);
    assert(row_views(rows@) =~= seq![
        a_row(seq![a_span("Cancel"@, plain_look())]),
        RowView {
            spans: seq![a_span("Disable"@, plain_look())],
            style: danger_look(false, colors),
        },
    ]);
    assert(row_views(rows@).len() == rows@.len());
    list_with_highlight(
        out,
        Area { x: areas.body.x, y: areas.body.y + 1, width: 9, height: areas.body.height - 1 },
        rows,
        if confirm { 1 } else { 0 },
        if confirm { danger_style(true, colors) } else { selected_style() },
    );
    draw_service_detail(out, areas.detail, Some(service), stale, notice, home, colors);
    assert(widget_views(out@) =~= before + confirm_of(
        size,
        *service,
        confirm,
        stale,
        notice_opt(notice),
        str_opt(home),
        colors,
    ));
}

/// What is said beside the keys: the progress of an action, or a notice that has not run out.
pub open spec fn current_notice(progress: Seq<char>, notice: Option<(Notice, u64)>, now: u64) -> Option<NoticeView> {
    if progress.len() > 0 {
        Some(NoticeView { text: progress, tone: Tone::Warning })
    } else {
        match notice {
            Some(n) => if now < n.1 { Some(n.0@) } else { None },
            None => None,
        }
    }
}

/// The page before it is drawn: in a window of another size the menu starts anew from its mark.
pub open spec fn page_resized(page: Page, same_size: bool, size: Size) -> Page {
    match page {
        Page::Actions { selected, scroll } => if same_size {
            page
        } else {
            Page::Actions {
                selected,
                scroll: scroll_min(selected, rows_of(size, Footer::Actions, Some(6))),
            }
        },
        _ => page,
    }
}

/// The page once it has been drawn.
pub open spec fn page_drawn(page: Page, service: Option<ServiceInfo>, size: Size) -> Page {
    match page {
        Page::Actions { selected, scroll } => if service is Some && usable_size(size) {
            Page::Actions {
                selected,
                scroll: menu_place(
                    selected,
                    scroll,
                    areas_of(size, Footer::Actions, Some(6)).body.height as usize,
                ),
            }
        } else {
            page
        },
        _ => page,
    }
}

pub open spec fn page_screen(
    size: Size,
    page: Page,
    services: Seq<ServiceInfo>,
    selected: usize,
    loading: bool,
    stale: bool,
    notice: Option<NoticeView>,
    home: Option<Seq<char>>,
    colors: bool,
) -> Seq<WidgetView> {
    let service = at_place(services, selected);
    match page {
        Page::Services => services_of(size, services, selected, loading, stale, notice, home, colors),
        Page::Actions { selected, scroll } => match service {
            Some(s) => actions_of(size, s, selected, scroll, stale, notice, home, colors),
            None => Seq::empty(),
        },
        Page::ConfirmDisable { confirm, .. } => match service {
            Some(s) => confirm_of(size, s, confirm, stale, notice, home, colors),
            None => Seq::empty(),
        },
    }
}

/// The screen of the interface.
pub open spec fn main_screen(
    size: Size,
    ui: UiView,
    services: Seq<ServiceInfo>,
    loading: bool,
    stale: bool,
    viewport: (u16, u16),
    notice: Option<NoticeView>,
    home: Option<Seq<char>>,
    colors: bool,
) -> Seq<WidgetView> {
    if ui.help is Some {
        reader_page_of(size, ui.help->0, Footer::Help, colors)
    } else if ui.message is Some {
        reader_page_of(size, ui.message->0, Footer::Error, colors)
    } else {
        page_screen(
            size,
            page_resized(ui.page, viewport.0 == size.width && viewport.1 == size.height, size),
            services,
            ui.selected,
            loading,
            stale,
            notice,
            home,
            colors,
        )
    }
}

/// The interface once it has been drawn: what can be scrolled is held within what there is.
pub open spec fn main_drawn(
    size: Size,
    ui: UiView,
    services: Seq<ServiceInfo>,
    viewport: (u16, u16),
    colors: bool,
) -> UiView {
    if ui.help is Some {
        UiView { help: Some(reader_drawn(size, ui.help->0, Footer::Help, colors)), ..ui }
    } else if ui.message is Some {
        UiView { message: Some(reader_drawn(size, ui.message->0, Footer::Error, colors)), ..ui }
    } else {
        UiView {
            page: page_drawn(
                page_resized(ui.page, viewport.0 == size.width && viewport.1 == size.height, size),
                at_place(services, ui.selected),
                size,
            ),
            ..ui
        }
    }
}

fn draw_page(
    out: &mut Vec<Widget>,
    size: Size,
    ui: &mut MainUi,
    notice: Option<&Notice>,
    home: Option<&str>,
    colors: bool,
)
    ensures
        widget_views(final(out)@) == widget_views(old(out)@) + page_screen(
            size,
            old(ui).page,
            old(ui).services@,
            old(ui).selected,
            old(ui).initial_loading,
            old(ui).unavailable is Some,
            notice_opt(notice),
            str_opt(home),
            colors,
        ),
        *final(ui) == (MainUi {
            page: page_drawn(
                old(ui).page,
                at_place(old(ui).services@, old(ui).selected),
                size,
            ),
            ..*old(ui)
        }),
{
    let stale = ui.unavailable.is_some();
    let known = ui.selected < ui.services.len();
    let ghost before = widget_views(out@);
    assert(before + Seq::<WidgetView>::empty() =~= before);
    match ui.page {
        Page::Services => draw_services(
            out,
            size,
            &ui.services,
            ui.selected,
            ui.initial_loading,
            stale,
            notice,
            home,
            colors,
        ),
        Page::Actions { selected, scroll } => {
            if known {
                let mut place = scroll;
                draw_actions(
                    out,
                    size,
                    &ui.services[ui.selected],
                    selected,
                    &mut place,
                    stale,
                    notice,
                    home,
                    colors,
                );
                ui.page = Page::Actions { selected, scroll: place };
            }
        },
        Page::ConfirmDisable { confirm, menu: _ } => {
            if known {
                draw_confirm(
                    out,
                    size,
                    &ui.services[ui.selected],
                    confirm,
                    stale,
                    notice,
                    home,
                    colors,
                );
            }
        },
    }
}

/// Draws the interface. `progress` tells of an action that is running.
pub fn draw_main(ui: &mut MainUi, size: Size, progress: &str, now: u64, home: Option<&str>, colors: bool) -> (r: Vec<Widget>)
    ensures
        widget_views(r@) == main_screen(
            size,
            old(ui).ui(),
            old(ui).services@,
            old(ui).initial_loading,
            old(ui).unavailable is Some,
            old(ui).viewport,
            current_notice(progress@, old(ui).notice, now),
            str_opt(home),
            colors,
        ),
        final(ui).ui() == main_drawn(
            size,
            old(ui).ui(),
            old(ui).services@,
            old(ui).viewport,
            colors,
        ),
        old(ui).wf() ==> final(ui).wf(),
        final(ui).services == old(ui).services,
        final(ui).initial_loading == old(ui).initial_loading,
        final(ui).unavailable == old(ui).unavailable,
        final(ui).notice == old(ui).notice,
        final(ui).viewport == (if old(ui).help is Some || old(ui).message is Some {
            old(ui).viewport
        } else {
            (size.width, size.height)
        }),
{
    let mut out: Vec<Widget> = Vec::new();
    let ghost nothing = widget_views(out@);
    assert(nothing =~= Seq::<WidgetView>::empty());
    assert forall|s: Seq<WidgetView>| #[trigger] (nothing + s) == s by {
        assert(nothing + s =~= s);
    }
    let mut help: Option<Reader> = None;
    std::mem::swap(&mut help, &mut ui.help);
    match help {
        Some(mut reader) => {
            draw_reader(&mut out, size, &mut reader, Footer::Help, colors);
            ui.help = Some(reader);
            return out;
        },
        None => {},
    }
    let mut message: Option<Reader> = None;
    std::mem::swap(&mut message, &mut ui.message);
    match message {
        Some(mut reader) => {
            draw_reader(&mut out, size, &mut reader, Footer::Error, colors);
            ui.message = Some(reader);
            return out;
        },
        None => {},
    }
    if !(ui.viewport.0 == size.width && ui.viewport.1 == size.height) {
        match ui.page {
            Page::Actions { selected, scroll: _ } => {
                let rows = body_rows(size, Footer::Actions, Some(6));
                ui.page = Page::Actions {
                    selected,
                    scroll: selected.saturating_sub(rows.saturating_sub(1)),
                };
            },
            _ => {},
        }
        ui.viewport = (size.width, size.height);
    }
    let busy = chars_of(progress).len() > 0;
    let running = Notice::new(progress, Tone::Warning);
    if busy {
        draw_page(&mut out, size, ui, Some(&running), home, colors);
    } else {
        let mut kept: Option<(Notice, u64)> = None;
        std::mem::swap(&mut kept, &mut ui.notice);
        match kept {
            Some((notice, until)) => {
                if now < until {
                    draw_page(&mut out, size, ui, Some(&notice), home, colors);
                } else {
                    draw_page(&mut out, size, ui, None, home, colors);
                }
                ui.notice = Some((notice, until));
            },
            None => {
                draw_page(&mut out, size, ui, None, home, colors);
            },
        }
    }
    out
}

/// Moving the mark changes how the rows of the menu look, and never what they say.
pub proof fn law_marking_moves_no_text(a: usize, b: usize, i: int, k: int, colors: bool)
    requires
        0 <= i < 6,
        0 <= k < 3,
    ensures
        action_rows(a, colors).len() == action_rows(b, colors).len(),
        action_rows(a, colors)[i].spans.len() == 3,
        action_rows(a, colors)[i].spans[k].text == action_rows(b, colors)[i].spans[k].text,
{
}

/// Moving the mark changes how the names of services look, and never what a row says.
pub proof fn law_marking_moves_no_name(services: Seq<ServiceInfo>, width: usize, a: usize, b: usize, i: int, k: int, colors: bool)
    requires
        0 <= i < services.len(),
        0 <= k < 2,
    ensures
        service_rows(services, width, a, colors).len() == service_rows(services, width, b, colors).len(),
        service_rows(services, width, a, colors)[i].spans.len() == 2,
        service_rows(services, width, a, colors)[i].spans[k].text == service_rows(
            services,
            width,
            b,
            colors,
        )[i].spans[k].text,
{
}

/// The marked action is always among the rows that are shown.
pub proof fn law_menu_shows_the_mark(selected: usize, scroll: usize, rows: usize)
    requires
        selected < 6,
        rows > 0,
    ensures
        menu_place(selected, scroll, rows) <= selected,
        selected < menu_place(selected, scroll, rows) + rows,
{
}

pub open spec fn store_name(persisted: bool) -> Seq<char> {
    if persisted { "disk"@ } else { "memory"@ }
}

pub open spec fn record_suffix(record: HistoryRecord) -> Seq<char> {
    decimal(record.bytes as nat) + " B "@ + store_name(record.persisted)
}

pub open spec fn widest_suffix(records: Seq<HistoryRecord>) -> nat
    decreases records.len(),
{
    if records.len() == 0 {
        0
    } else {
        let front = widest_suffix(records.drop_last());
        let last = text_width(record_suffix(records.last()));
        if last > front { last } else { front }
    }
}

pub open spec fn widest_id(records: Seq<HistoryRecord>) -> nat
    decreases records.len(),
{
    if records.len() == 0 {
        0
    } else {
        let front = widest_id(records.drop_last());
        let last = text_width(records.last().id@);
        if last > front { last } else { front }
    }
}

pub open spec fn record_text(record: HistoryRecord, width: usize) -> Seq<char> {
    let id = clipped(record.id@, width as nat, false);
    id + blanks(sat_sub(width, text_width(id) as int) as nat) + " "@ + record_suffix(record)
}

pub open spec fn record_texts(records: Seq<HistoryRecord>, width: usize) -> Seq<Seq<char>> {
    Seq::new(records.len(), |i: int| record_text(records[i], width))
}

pub open spec fn history_list_of(
    size: Size,
    name: Seq<char>,
    records: Seq<HistoryRecord>,
    selected: usize,
    colors: bool,
) -> Seq<WidgetView> {
    let items = Some(records.len() as usize);
    let frame = frame_of(
        size,
        name + " / history"@,
        decimal(records.len()) + " runs"@,
        Footer::History,
        items,
        Tone::Accent,
        colors,
    );
    if !usable_size(size) {
        frame
    } else {
        let areas = areas_of(size, Footer::History, items);
        let suffix = widest_suffix(records);
        let width = column(widest_id(records), areas.body.width, (suffix + 3) as int);
        let empty = WidgetView::Text {
            area: areas.body,
            rows: plain_rows(seq!["No history available."@]),
            style: muted_look(),
        };
        let list = WidgetView::List {
            area: inset(
                Area {
                    width: (if width + suffix + 3 < areas.body.width {
                        width + suffix + 3
                    } else {
                        areas.body.width as int
                    }) as u16,
                    ..areas.body
                },
            ),
            rows: plain_rows(record_texts(records, width)),
            selected: marked(selected, records.len()),
            highlight: selected_look(),
        };
        let shown = (if records.len() == 0 { frame.push(empty) } else { frame }).push(list);
        if selected < records.len() {
            shown.push(
                WidgetView::Text {
                    area: areas.detail,
                    rows: seq![
                        a_row(
                            seq![
                                a_span(
                                    clipped(
                                        records[selected as int].id@,
                                        areas.detail.width as nat,
                                        false,
                                    ),
                                    plain_look(),
                                ),
                            ],
                        ),
                    ],
                    style: muted_look(),
                },
            )
        } else {
            shown
        }
    }
}

fn suffix_of(record: &HistoryRecord) -> (r: String)
    ensures
        r@ == record_suffix(*record),
{
    let n = decimal_text(record.bytes);
    cat3(n.as_str(), " B ", if record.persisted { "disk" } else { "memory" })
}

/// The widest suffix and the widest name of the records.
fn record_widths(records: &Vec<HistoryRecord>) -> (r: (usize, usize))
    ensures
        r.0 == widest_suffix(records@),
        r.1 == widest_id(records@),
{
    let mut suffix: usize = 0;
    let mut id: usize = 0;
    let mut i: usize = 0;
    while i < records.len()
        invariant
            i <= records@.len(),
            suffix == widest_suffix(records@.take(i as int)),
            id == widest_id(records@.take(i as int)),
        decreases records@.len() - i,
    {
        let text = suffix_of(&records[i]);
        let a = width_of(text.as_str());
        let b = width_of(records[i].id.as_str());
        assert(records@.take(i + 1).drop_last() =~= records@.take(i as int));
        if a > suffix {
            suffix = a;
        }
        if b > id {
            id = b;
        }
        i += 1;
    }
    assert(records@.take(i as int) =~= records@);
    (suffix, id)
}

fn rows_of_records(records: &Vec<HistoryRecord>, width: usize) -> (r: Vec<Row>)
    ensures
        row_views(r@) == plain_rows(record_texts(records@, width)),
        r@.len() == records@.len(),
{
    let ghost wanted = record_texts(records@, width);
    let mut rows: Vec<Row> = Vec::new();
    let mut i: usize = 0;
    assert(row_views(rows@) =~= plain_rows(wanted.take(0)));
    while i < records.len()
        invariant
            i <= records@.len(),
            wanted == record_texts(records@, width),
            row_views(rows@) == plain_rows(wanted.take(i as int)),
        decreases records@.len() - i,
    {
        let id = clip(records[i].id.as_str(), width, false);
        let fill = spaces(width.saturating_sub(width_of(id.as_str())));
        let suffix = suffix_of(&records[i]);
        let text = cat4(id.as_str(), fill.as_str(), " ", suffix.as_str());
        assert(text@ == wanted[i as int]);
        push_plain(&mut rows, text.as_str());
        i += 1;
        assert(row_views(rows@) =~= plain_rows(wanted.take(i as int)));
    }
    assert(wanted.take(i as int) =~= wanted);
    assert(row_views(rows@).len() == rows@.len());
    rows
}

pub fn draw_history_list(name: &str, records: &Vec<HistoryRecord>, selected: usize, size: Size, colors: bool) -> (r: Vec<Widget>)
    ensures
        widget_views(r@) == history_list_of(size, name@, records@, selected, colors),
{
    let mut out: Vec<Widget> = Vec::new();
    let ghost nothing = widget_views(out@);
    assert(nothing =~= Seq::<WidgetView>::empty());
    assert forall|s: Seq<WidgetView>| #[trigger] (nothing + s) == s by {
        assert(nothing + s =~= s);
    }
    let title = cat2(name, " / history");
    let n = decimal_text(records.len() as u64);
    let count = cat2(n.as_str(), " runs");
    let areas = match page(
        &mut out,
        size,
        title.as_str(),
        count.as_str(),
        Footer::History,
        Some(records.len()),
        Tone::Accent,
        colors,
    ) {
        Some(areas) => areas,
        None => {
            return out;
        },
    };
    if records.len() == 0 {
        let row = plain_row("No history available.");
        assert(row_views(row@) =~= plain_rows(seq!["No history available."@]));
        put_text(&mut out, areas.body, row, muted());
    }
    let (suffix, id) = record_widths(records);
    let body_width = areas.body.width as usize;
    let wanted: usize = if id < 10 { 10 } else if id > 24 { 24 } else { id };
    let left = body_width.saturating_sub(suffix.saturating_add(3));
    let width: usize = if wanted < left { wanted } else { left };
    let rows = rows_of_records(records, width);
    let all: usize = width.saturating_add(suffix.saturating_add(3));
    let list_width: u16 = if all < body_width { all as u16 } else { areas.body.width };
    list_with_highlight(
        &mut out,
        Area {
            x: areas.body.x,
            y: areas.body.y,
            width: list_width,
            height: areas.body.height,
        },
        rows,
        selected,
        selected_style(),
    );
    if selected < records.len() {
        let text = clip(records[selected].id.as_str(), areas.detail.width as usize, false);
        put_text(&mut out, areas.detail, plain_row(text.as_str()), muted());
    }
    out
}

/// The rows of several lines.
pub open spec fn wrap_lines(lines: Seq<Seq<char>>, width: usize) -> Seq<Seq<char>>
    decreases lines.len(),
{
    if lines.len() == 0 {
        Seq::empty()
    } else {
        wrap_lines(lines.drop_last(), width) + wrapped_rows(lines.last(), width)
    }
}

proof fn lemma_wrap_lines_grow(lines: Seq<Seq<char>>, i: int, width: usize)
    requires
        0 <= i <= lines.len(),
    ensures
        wrap_lines(lines.take(i), width).len() <= wrap_lines(lines, width).len(),
        wrap_lines(lines, width).take(wrap_lines(lines.take(i), width).len() as int) == wrap_lines(
            lines.take(i),
            width,
        ),
    decreases lines.len() - i,
{
    if i == lines.len() {
        assert(lines.take(i) =~= lines);
        assert(wrap_lines(lines, width).take(wrap_lines(lines, width).len() as int) =~= wrap_lines(
            lines,
            width,
        ));
    } else {
        lemma_wrap_lines_grow(lines, i + 1, width);
        let a = wrap_lines(lines.take(i), width);
        let b = wrap_lines(lines.take(i + 1), width);
        let all = wrap_lines(lines, width);
        assert(lines.take(i + 1).drop_last() =~= lines.take(i));
        assert(b.take(a.len() as int) =~= a);
        assert(all.take(a.len() as int) =~= all.take(b.len() as int).take(a.len() as int));
    }
}

pub open spec fn from_line(lines: Seq<Seq<char>>, scroll: u64) -> Seq<Seq<char>> {
    if scroll < lines.len() { lines.skip(scroll as int) } else { Seq::empty() }
}

/// Whether the whole output is on the screen.
pub open spec fn all_shown(content: Seq<char>, scroll: u64, total: u64, body: Area) -> bool {
    &&& scroll == 0
    &&& position_of(scroll, total).1 <= body.height
    &&& wrap_lines(lines_of(content), body.width as usize).len() <= body.height
}

pub open spec fn history_content_of(
    size: Size,
    name: Seq<char>,
    id: Seq<char>,
    content: Seq<char>,
    scroll: u64,
    total: u64,
    colors: bool,
) -> Seq<WidgetView> {
    let frame = frame_of(
        size,
        name + " / "@ + id,
        Seq::empty(),
        Footer::Content,
        None,
        Tone::Accent,
        colors,
    );
    if !usable_size(size) {
        frame
    } else {
        let areas = areas_of(size, Footer::Content, None);
        let rows = wrap_lines(from_line(lines_of(content), scroll), areas.body.width as usize);
        let place = position_of(scroll, total);
        frame + seq![
            WidgetView::Text {
                area: areas.body,
                rows: plain_rows(window(rows, 0, areas.body.height as int)),
                style: plain_look(),
            },
            WidgetView::Text {
                area: areas.detail,
                rows: seq![
                    a_row(
                        seq![
                            a_span(
                                if all_shown(content, scroll, total, areas.body) {
                                    Seq::empty()
                                } else {
                                    place_text(place.0 as nat, place.1 as nat)
                                },
                                plain_look(),
                            ),
                        ],
                    ),
                ],
                style: muted_look(),
            },
        ]
    }
}

/// The rows of the lines from `from` on, as far as `most` rows and no line beyond them.
fn rows_from(lines: &Vec<String>, from: usize, width: usize, most: usize) -> (r: Vec<String>)
    requires
        from <= lines@.len(),
    ensures
        ({
            let all = wrap_lines(views(lines@).skip(from as int), width);
            &&& r@.len() <= all.len()
            &&& views(r@) == all.take(r@.len() as int)
            &&& r@.len() < all.len() ==> r@.len() > most
        }),
{
    let ghost rest = views(lines@).skip(from as int);
    let mut out: Vec<String> = Vec::new();
    let mut i: usize = from;
    assert(rest.take(0) =~= Seq::<Seq<char>>::empty());
    assert(views(out@) =~= wrap_lines(rest.take(0), width));
    while i < lines.len() && out.len() <= most
        invariant
            from <= i <= lines@.len(),
            rest == views(lines@).skip(from as int),
            views(out@) == wrap_lines(rest.take(i - from), width),
        decreases lines@.len() - i,
    {
        let mut parts = wrapped(lines[i].as_str(), width);
        let ghost before = out@;
        let ghost more = parts@;
        out.append(&mut parts);
        proof {
            assert(views(out@) =~= views(before) + views(more));
            assert(rest.take(i + 1 - from).drop_last() =~= rest.take(i - from));
            assert(rest.take(i + 1 - from).last() == lines@[i as int]@);
        }
        i += 1;
    }
    proof {
        lemma_wrap_lines_grow(rest, i - from, width);
        assert(views(out@).len() == out@.len());
        if i == lines@.len() {
            assert(rest.take(i - from) =~= rest);
        }
    }
    out
}

pub fn draw_history_content(name: &str, history: &HistoryView, size: Size, colors: bool) -> (r: Vec<Widget>)
    ensures
        widget_views(r@) == history_content_of(
            size,
            name@,
            history.id@,
            history.content@,
            history.scroll,
            history.total_lines,
            colors,
        ),
{
    let mut out: Vec<Widget> = Vec::new();
    let ghost nothing = widget_views(out@);
    assert(nothing =~= Seq::<WidgetView>::empty());
    assert forall|s: Seq<WidgetView>| #[trigger] (nothing + s) == s by {
        assert(nothing + s =~= s);
    }
    assert(""@ =~= Seq::<char>::empty()) by {
        reveal_strlit("");
    }
    let title = cat3(name, " / ", history.id.as_str());
    let areas = match page(
        &mut out,
        size,
        title.as_str(),
        "",
        Footer::Content,
        None,
        Tone::Accent,
        colors,
    ) {
        Some(areas) => areas,
        None => {
            return out;
        },
    };
    let ghost frame = widget_views(out@);
    let lines = text_lines(history.content.as_str());
    let height = areas.body.height as usize;
    let from: usize = if history.scroll < lines.len() as u64 {
        history.scroll as usize
    } else {
        lines.len()
    };
    let texts = rows_from(&lines, from, areas.body.width as usize, height);
    let ghost all = wrap_lines(
        from_line(lines_of(history.content@), history.scroll),
        areas.body.width as usize,
    );
    proof {
        assert(views(lines@).len() == lines@.len());
        assert(views(lines@).skip(from as int) =~= from_line(
            lines_of(history.content@),
            history.scroll,
        ));
        if history.scroll == 0 {
            assert(views(lines@).skip(0) =~= lines_of(history.content@));
        }
    }
    let (place, total) = history_position(history.scroll, history.total_lines);
    let fits = history.scroll == 0 && total <= areas.body.height as u64 && texts.len() <= height;
    let text = if fits { String::new() } else { place_of(place, total) };
    let rows = window_of(rows_of_texts(&texts), 0, height);
    proof {
        let shown = window(all, 0, height as int);
        assert(window(views(texts@), 0, height as int) =~= shown);
        assert(row_views(rows@) =~= plain_rows(shown));
        assert(text@ =~= (if all_shown(
            history.content@,
            history.scroll,
            history.total_lines,
            areas.body,
        ) {
            Seq::empty()
        } else {
            place_text(place as nat, total as nat)
        }));
    }
    put_text(&mut out, areas.body, rows, plain());
    put_text(&mut out, areas.detail, plain_row(text.as_str()), muted());
    assert(widget_views(out@) =~= history_content_of(
        size,
        name@,
        history.id@,
        history.content@,
        history.scroll,
        history.total_lines,
        colors,
    ));
    out
}

} // verus!
