//! The frame that the screens share, and the screens that show text.
use crate::text::{cat2, cat3, decimal, decimal_text, views};
use crate::tui::cells::{text_width, width_of};
use crate::tui::keys::{sat_add, sat_sub};
use crate::tui::layout::{blanks, clip, clipped, lines_of, one_at_least, part_at_gap, parted, spaces, text_lines, wrapped, wrapped_rows};
use crate::tui::model::{MainUi, Page, Tone};
use crate::tui::widget::{a_row, a_span, footer_cells, footer_width, hint_spans, hints_of, key_hints, muted, muted_look, one_row, plain, plain_look, plain_row, plain_rows, push_plain, put_text, row2, row_views, span, title_look, title_style, tone_look, tone_style, widget_views, window, window_of, lemma_row_push, Area, Footer, Row, RowView, Size, Widget, WidgetView};
use vstd::prelude::*;

verus! {

/// A screen on which something can be shown.
pub open spec fn usable_size(size: Size) -> bool {
    size.width >= 40 && size.height >= 10
}

pub fn usable(size: Size) -> (r: bool)
    ensures
        r == usable_size(size),
{
    size.width >= 40 && size.height >= 10
}

pub open spec fn margin_of(size: Size) -> u16 {
    if size.width < 80 { 1 } else { 2 }
}

pub open spec fn less16(a: u16, b: u16) -> u16 {
    if a < b { 0 } else { (a - b) as u16 }
}

pub open spec fn more16(a: u16, b: u16) -> u16 {
    if a + b > u16::MAX { u16::MAX } else { (a + b) as u16 }
}

/// The columns between the margins.
pub open spec fn inner_of(size: Size) -> u16 {
    less16(size.width, (2 * margin_of(size)) as u16)
}

fn inner_width(size: Size) -> (r: u16)
    ensures
        r == inner_of(size),
{
    size.width.saturating_sub(if size.width < 80 { 2 } else { 4 })
}

/// One row holds the footer where room is left beside it, and else it takes two.
pub open spec fn foot_rows(width: u16, footer: Footer) -> u16 {
    if width >= sat_add(footer_cells(footer), 22) { 1 } else { 2 }
}

fn footer_rows(width: u16, footer: Footer) -> (r: u16)
    ensures
        r == foot_rows(width, footer),
{
    if width as usize >= footer_width(footer).saturating_add(22) { 1 } else { 2 }
}

/// A list does not stretch over the whole of a wide screen.
pub open spec fn work_of(size: Size, items: Option<usize>) -> u16 {
    if items is Some && inner_of(size) > 76 { 76 } else { inner_of(size) }
}

fn work_width(size: Size, items: Option<usize>) -> (r: u16)
    ensures
        r == work_of(size, items),
{
    let inner = inner_width(size);
    if items.is_some() && inner > 76 { 76 } else { inner }
}

/// How many rows of its own a page shows: all that are free, or for a list as many as it has
/// items, but six where that many are free.
pub open spec fn rows_of(size: Size, footer: Footer, items: Option<usize>) -> usize {
    let free = one_at_least(
        less16(size.height, (5 + foot_rows(work_of(size, items), footer)) as u16) as usize,
    );
    match items {
        None => free,
        Some(count) => {
            let wanted = if count < 6 { 6 } else { count };
            if wanted < free { wanted } else { free }
        },
    }
}

pub fn body_rows(size: Size, footer: Footer, items: Option<usize>) -> (r: usize)
    ensures
        r == rows_of(size, footer, items),
{
    let foot: u16 = footer_rows(work_width(size, items), footer);
    let left: usize = size.height.saturating_sub(5 + foot) as usize;
    let free: usize = if left == 0 { 1 } else { left };
    match items {
        None => free,
        Some(count) => {
            let wanted: usize = if count < 6 { 6 } else { count };
            if wanted < free { wanted } else { free }
        },
    }
}

pub open spec fn cells16(n: int) -> u16 {
    if n > u16::MAX { u16::MAX } else { n as u16 }
}

pub(crate) fn to_cells(n: usize) -> (r: u16)
    ensures
        r == cells16(n as int),
{
    if n > 65535 { 65535 } else { n as u16 }
}

pub open spec fn ui_footer(page: Page, services: nat, help: bool, message: bool) -> Footer {
    if help {
        Footer::Help
    } else if message {
        Footer::Error
    } else {
        match page {
            Page::Services => if services == 0 { Footer::Empty } else { Footer::Services },
            Page::Actions { .. } => Footer::Actions,
            Page::ConfirmDisable { .. } => Footer::Confirm,
        }
    }
}

pub fn main_footer(ui: &MainUi) -> (r: Footer)
    ensures
        r == ui_footer(ui.page, ui.services@.len(), ui.help is Some, ui.message is Some),
{
    if ui.help.is_some() {
        Footer::Help
    } else if ui.message.is_some() {
        Footer::Error
    } else {
        match ui.page {
            Page::Services => if ui.services.len() == 0 { Footer::Empty } else { Footer::Services },
            Page::Actions { .. } => Footer::Actions,
            Page::ConfirmDisable { .. } => Footer::Confirm,
        }
    }
}

pub open spec fn ui_items(page: Page, services: usize, help: bool, message: bool) -> Option<usize> {
    if help || message {
        None
    } else if page is Services {
        Some(services)
    } else {
        Some(6)
    }
}

pub fn main_rows(size: Size, ui: &MainUi) -> (r: usize)
    ensures
        r == rows_of(
            size,
            ui_footer(ui.page, ui.services@.len(), ui.help is Some, ui.message is Some),
            ui_items(ui.page, ui.services.len(), ui.help is Some, ui.message is Some),
        ),
{
    let items: Option<usize> = if ui.help.is_some() || ui.message.is_some() {
        None
    } else {
        match ui.page {
            Page::Services => Some(ui.services.len()),
            _ => Some(6),
        }
    };
    body_rows(size, main_footer(ui), items)
}

/// Where a page has its own rows, and the line that tells more about them.
#[derive(Debug, Clone, Copy, PartialEq, Eq, Structural)]
pub struct PageAreas {
    pub body: Area,
    pub detail: Area,
}

pub open spec fn body_of(size: Size, footer: Footer, items: Option<usize>) -> Area {
    Area {
        x: margin_of(size),
        y: 3,
        width: work_of(size, items),
        height: rows_of(size, footer, items) as u16,
    }
}

pub open spec fn areas_of(size: Size, footer: Footer, items: Option<usize>) -> PageAreas {
    let body = body_of(size, footer, items);
    PageAreas {
        body,
        detail: Area {
            x: body.x,
            y: (4 + body.height) as u16,
            width: if foot_rows(body.width, footer) == 1 {
                less16(body.width, more16(cells16(footer_cells(footer) as int), 2))
            } else {
                body.width
            },
            height: 1,
        },
    }
}

/// Where the keys stand: at the right end of the last row of the footer.
pub open spec fn keys_area(size: Size, footer: Footer, items: Option<usize>) -> Area {
    let body = body_of(size, footer, items);
    let width = cells16(footer_cells(footer) as int);
    Area {
        x: less16((body.x + body.width) as u16, width),
        y: (3 + body.height + foot_rows(body.width, footer)) as u16,
        width,
        height: 1,
    }
}

pub open spec fn count_text(count: Seq<char>) -> Seq<char> {
    if count.len() == 0 { Seq::empty() } else { " · "@ + count }
}

pub open spec fn small_screen(size: Size, second: Seq<char>) -> WidgetView {
    WidgetView::Text {
        area: Area { x: 0, y: 0, width: size.width, height: size.height },
        rows: plain_rows(seq!["Resize to 40x10"@, second]),
        style: plain_look(),
    }
}

/// The title, its count, and the keys.
pub open spec fn frame_of(
    size: Size,
    title: Seq<char>,
    count: Seq<char>,
    footer: Footer,
    items: Option<usize>,
    tone: Tone,
    colors: bool,
) -> Seq<WidgetView> {
    if !usable_size(size) {
        seq![small_screen(size, "esc/q back/quit"@)]
    } else {
        let width = work_of(size, items);
        let shown = count_text(count);
        seq![
            WidgetView::Text {
                area: Area { x: margin_of(size), y: 1, width, height: 1 },
                rows: seq![
                    a_row(
                        seq![
                            a_span(
                                clipped(title, sat_sub(width as usize, text_width(shown) as int) as nat, false),
                                title_look(tone, colors),
                            ),
                            a_span(shown, muted_look()),
                        ],
                    ),
                ],
                style: plain_look(),
            },
            WidgetView::Text {
                area: keys_area(size, footer, items),
                rows: seq![a_row(hint_spans(hints_of(footer), "   "@, colors))],
                style: plain_look(),
            },
        ]
    }
}

/// Draws the message for a screen that is too small.
fn put_small(out: &mut Vec<Widget>, size: Size, second: &str)
    ensures
        widget_views(final(out)@) == widget_views(old(out)@) + seq![small_screen(size, second@)],
{
    let mut rows: Vec<Row> = Vec::new();
    push_plain(&mut rows, "Resize to 40x10");
    push_plain(&mut rows, second);
    assert(row_views(rows@) =~= plain_rows(seq!["Resize to 40x10"@, second@]));
    let ghost before = widget_views(out@);
    put_text(
        out,
        Area { x: 0, y: 0, width: size.width, height: size.height },
        rows,
        plain(),
    );
    assert(widget_views(out@) =~= before + seq![small_screen(size, second@)]);
}

/// Draws the frame that all screens share. There is no room for a page on a small screen.
pub fn page(
    out: &mut Vec<Widget>,
    size: Size,
    title: &str,
    count: &str,
    footer: Footer,
    items: Option<usize>,
    tone: Tone,
    colors: bool,
) -> (r: Option<PageAreas>)
    ensures
        widget_views(final(out)@) == widget_views(old(out)@) + frame_of(
            size,
            title@,
            count@,
            footer,
            items,
            tone,
            colors,
        ),
        r == (if usable_size(size) { Some(areas_of(size, footer, items)) } else { None }),
{
    if !usable(size) {
        put_small(out, size, "esc/q back/quit");
        return None;
    }
    let margin: u16 = if size.width < 80 { 1 } else { 2 };
    let width = work_width(size, items);
    let rows = body_rows(size, footer, items);
    let foot = footer_rows(width, footer);
    let body = Area { x: margin, y: 3, width, height: rows as u16 };
    let bare = crate::text::chars_of(count).len() == 0;
    let shown = if bare { String::new() } else { cat2(" · ", count) };
    assert(shown@ =~= count_text(count@));
    let room = (width as usize).saturating_sub(width_of(shown.as_str()));
    let shown_title = clip(title, room, false);
    let ghost before = widget_views(out@);
    put_text(
        out,
        Area { x: margin, y: 1, width, height: 1 },
        one_row(
            row2(span(shown_title.as_str(), title_style(tone, colors)), span(shown.as_str(), muted())),
        ),
        plain(),
    );
    let keys_width = to_cells(footer_width(footer));
    let right: u16 = margin + width;
    put_text(
        out,
        Area {
            x: right.saturating_sub(keys_width),
            y: 3 + body.height + foot,
            width: keys_width,
            height: 1,
        },
        one_row(key_hints(footer, "   ", colors)),
        plain(),
    );
    proof {
        assert(widget_views(out@) =~= before + frame_of(
            size,
            title@,
            count@,
            footer,
            items,
            tone,
            colors,
        ));
    }
    Some(
        PageAreas {
            body,
            detail: Area {
                x: margin,
                y: 4 + body.height,
                width: if foot == 1 {
                    width.saturating_sub(keys_width.saturating_add(2))
                } else {
                    width
                },
                height: 1,
            },
        },
    )
}

/// On a screen that is large enough a page never runs over its edge: its rows, the empty row
/// behind them and the footer all have a place, and a row stays free at the bottom.
pub proof fn law_pages_fit(size: Size, footer: Footer, items: Option<usize>)
    requires
        usable_size(size),
    ensures
        ({
            let body = areas_of(size, footer, items).body;
            let detail = areas_of(size, footer, items).detail;
            &&& 1 <= body.height
            &&& body.x + body.width + margin_of(size) <= size.width
            &&& body.y + body.height + 1 + foot_rows(body.width, footer) < size.height
            &&& detail.y == body.y + body.height + 1
            &&& detail.x == body.x
            &&& detail.width <= body.width
            &&& keys_area(size, footer, items).y < size.height - 1
        }),
{
}

/// The highest place from which the last rows are still shown.
pub open spec fn held_back(scroll: usize, total: int, rows: int) -> usize {
    let top = if total > rows { (total - rows) as usize } else { 0 };
    if scroll < top { scroll } else { top }
}

fn hold_back(scroll: usize, total: usize, rows: usize) -> (r: usize)
    ensures
        r == held_back(scroll, total as int, rows as int),
{
    let top: usize = total.saturating_sub(rows);
    if scroll < top { scroll } else { top }
}

/// The line and the number of lines, with a stroke between them.
pub open spec fn place_text(place: nat, total: nat) -> Seq<char> {
    decimal(place) + "/"@ + decimal(total)
}

pub(crate) fn place_of(place: u64, total: u64) -> (r: String)
    ensures
        r@ == place_text(place as nat, total as nat),
{
    let a = decimal_text(place);
    let b = decimal_text(total);
    cat3(a.as_str(), "/", b.as_str())
}

/// What stands beside the keys of a page of text: the detail, or the place where not all is shown.
pub open spec fn page_detail(detail: Seq<char>, width: u16, scroll: usize, total: nat, rows: nat) -> Seq<char> {
    if detail.len() > 0 {
        clipped(detail, width as nat, false)
    } else if total > rows {
        place_text((scroll + 1) as nat, total)
    } else {
        Seq::empty()
    }
}

pub open spec fn text_page_of(
    size: Size,
    title: Seq<char>,
    rows: Seq<RowView>,
    scroll: usize,
    footer: Footer,
    detail: Seq<char>,
    tone: Tone,
    colors: bool,
) -> Seq<WidgetView> {
    let frame = frame_of(size, title, Seq::empty(), footer, None, tone, colors);
    if !usable_size(size) {
        frame
    } else {
        let areas = areas_of(size, footer, None);
        let height = areas.body.height as int;
        let at = held_back(scroll, rows.len() as int, height);
        frame + seq![
            WidgetView::Text {
                area: areas.body,
                rows: window(rows, at as int, height),
                style: plain_look(),
            },
            WidgetView::Text {
                area: areas.detail,
                rows: seq![
                    a_row(
                        seq![
                            a_span(
                                page_detail(detail, areas.detail.width, at, rows.len(), height as nat),
                                plain_look(),
                            ),
                        ],
                    ),
                ],
                style: muted_look(),
            },
        ]
    }
}

/// Draws rows of text that can be scrolled, and holds the place within them.
pub fn text_page(
    out: &mut Vec<Widget>,
    size: Size,
    title: &str,
    rows: Vec<Row>,
    scroll: &mut usize,
    footer: Footer,
    detail: &str,
    tone: Tone,
    colors: bool,
)
    ensures
        widget_views(final(out)@) == widget_views(old(out)@) + text_page_of(
            size,
            title@,
            row_views(rows@),
            *old(scroll),
            footer,
            detail@,
            tone,
            colors,
        ),
        *final(scroll) == (if usable_size(size) {
            held_back(
                *old(scroll),
                rows@.len() as int,
                areas_of(size, footer, None).body.height as int,
            )
        } else {
            *old(scroll)
        }),
{
    let ghost before = widget_views(out@);
    let ghost all = row_views(rows@);
    assert(""@ =~= Seq::<char>::empty()) by {
        reveal_strlit("");
    }
    let areas = match page(out, size, title, "", footer, None, tone, colors) {
        Some(areas) => areas,
        None => {
            return;
        },
    };
    let height = areas.body.height as usize;
    let total = rows.len();
    *scroll = hold_back(*scroll, total, height);
    let shown = window_of(rows, *scroll, height);
    put_text(out, areas.body, shown, plain());
    let bare = crate::text::chars_of(detail).len() == 0;
    let text = if bare {
        if total > height {
            place_of(*scroll as u64 + 1, total as u64)
        } else {
            String::new()
        }
    } else {
        clip(detail, areas.detail.width as usize, false)
    };
    assert(text@ =~= page_detail(detail@, areas.detail.width, *scroll, total as nat, height as nat));
    put_text(out, areas.detail, plain_row(text.as_str()), muted());
    assert(widget_views(out@) =~= before + text_page_of(
        size,
        title@,
        all,
        *old(scroll),
        footer,
        detail@,
        tone,
        colors,
    ));
}

/// The widest key of a help text.
pub open spec fn key_cells(lines: Seq<Seq<char>>) -> nat
    decreases lines.len(),
{
    if lines.len() == 0 {
        0
    } else {
        let front = key_cells(lines.drop_last());
        match parted(lines.last()) {
            Some(p) => if text_width(p.0) > front { text_width(p.0) } else { front },
            None => front,
        }
    }
}

/// How far the descriptions of a help text are indented.
pub open spec fn help_indent(lines: Seq<Seq<char>>, width: usize) -> usize {
    let wanted = sat_add(0, (key_cells(lines) + 4) as int);
    let most = sat_sub(width, 1);
    if wanted < most { wanted } else { most }
}

/// What stands in front of a row of a description.
pub open spec fn help_prefix(key: Seq<char>, index: int, indent: usize) -> Seq<char> {
    if index == 0 {
        "  "@ + key + blanks(sat_sub(indent, (text_width(key) + 2) as int) as nat)
    } else {
        blanks(indent as nat)
    }
}

pub open spec fn help_line_rows(line: Seq<char>, indent: usize, width: usize, colors: bool) -> Seq<RowView> {
    match parted(line) {
        Some(p) => {
            let parts = wrapped_rows(p.1, one_at_least(sat_sub(width, indent as int)));
            Seq::new(
                parts.len(),
                |i: int|
                    a_row(
                        seq![
                            a_span(help_prefix(p.0, i, indent), tone_look(Tone::Accent, colors)),
                            a_span(parts[i], plain_look()),
                        ],
                    ),
            )
        },
        None => plain_rows(wrapped_rows(line, width)),
    }
}

pub open spec fn help_rows_of(lines: Seq<Seq<char>>, indent: usize, width: usize, colors: bool) -> Seq<RowView>
    decreases lines.len(),
{
    if lines.len() == 0 {
        Seq::empty()
    } else {
        help_rows_of(lines.drop_last(), indent, width, colors) + help_line_rows(
            lines.last(),
            indent,
            width,
            colors,
        )
    }
}

/// The rows of a help text: keys, and beside them what they do.
pub open spec fn help_rows(content: Seq<char>, width: usize, colors: bool) -> Seq<RowView> {
    let lines = lines_of(content);
    help_rows_of(lines, help_indent(lines, width), width, colors)
}

fn widest_key(lines: &Vec<String>) -> (r: usize)
    ensures
        r == key_cells(views(lines@)),
{
    let ghost all = views(lines@);
    let mut most: usize = 0;
    let mut i: usize = 0;
    while i < lines.len()
        invariant
            i <= lines@.len(),
            all == views(lines@),
            most == key_cells(all.take(i as int)),
        decreases lines@.len() - i,
    {
        assert(all.take(i + 1).drop_last() =~= all.take(i as int));
        match part_at_gap(lines[i].as_str()) {
            Some((key, _)) => {
                let cells = width_of(key.as_str());
                if cells > most {
                    most = cells;
                }
            },
            None => {},
        }
        i += 1;
    }
    assert(all.take(i as int) =~= all);
    most
}

fn push_wrapped(rows: &mut Vec<Row>, parts: &Vec<String>)
    ensures
        row_views(final(rows)@) == row_views(old(rows)@) + plain_rows(views(parts@)),
{
    let ghost before = row_views(rows@);
    let mut i: usize = 0;
    assert(before + plain_rows(views(parts@).take(0)) =~= before);
    while i < parts.len()
        invariant
            i <= parts@.len(),
            row_views(rows@) == before + plain_rows(views(parts@).take(i as int)),
        decreases parts@.len() - i,
    {
        push_plain(rows, parts[i].as_str());
        i += 1;
        assert(row_views(rows@) =~= before + plain_rows(views(parts@).take(i as int)));
    }
    assert(views(parts@).take(i as int) =~= views(parts@));
}

fn push_help_line(rows: &mut Vec<Row>, line: &str, indent: usize, width: usize, colors: bool)
    ensures
        row_views(final(rows)@) == row_views(old(rows)@) + help_line_rows(
            line@,
            indent,
            width,
            colors,
        ),
{
    match part_at_gap(line) {
        Some((key, description)) => {
            let left = width.saturating_sub(indent);
            let parts = wrapped(description.as_str(), if left == 0 { 1 } else { left });
            let ghost before = row_views(rows@);
            let ghost wanted = help_line_rows(line@, indent, width, colors);
            assert(wanted.len() == parts@.len());
            let fill = indent.saturating_sub(width_of(key.as_str()).saturating_add(2));
            let mut i: usize = 0;
            assert(before + wanted.take(0) =~= before);
            while i < parts.len()
                invariant
                    i <= parts@.len(),
                    parts@.len() == wanted.len(),
                    wanted == help_line_rows(line@, indent, width, colors),
                    parted(line@) == Some((key@, description@)),
                    views(parts@) == wrapped_rows(
                        description@,
                        one_at_least(sat_sub(width, indent as int)),
                    ),
                    fill == sat_sub(indent, (text_width(key@) + 2) as int),
                    row_views(rows@) == before + wanted.take(i as int),
                decreases parts@.len() - i,
            {
                let prefix = if i == 0 {
                    let blank = spaces(fill);
                    cat3("  ", key.as_str(), blank.as_str())
                } else {
                    spaces(indent)
                };
                let row = row2(
                    span(prefix.as_str(), tone_style(Tone::Accent, colors)),
                    span(parts[i].as_str(), plain()),
                );
                proof {
                    lemma_row_push(rows@, row);
                    assert(views(parts@)[i as int] == parts@[i as int]@);
                    assert(row@ == wanted[i as int]);
                    assert(wanted.take(i + 1) =~= wanted.take(i as int).push(wanted[i as int]));
                    assert(before + wanted.take(i as int).push(wanted[i as int]) =~= (before
                        + wanted.take(i as int)).push(wanted[i as int]));
                }
                rows.push(row);
                i += 1;
            }
            assert(wanted.take(i as int) =~= wanted);
        },
        None => {
            let parts = wrapped(line, width);
            push_wrapped(rows, &parts);
        },
    }
}

pub fn help_lines(content: &str, width: usize, colors: bool) -> (r: Vec<Row>)
    ensures
        row_views(r@) == help_rows(content@, width, colors),
{
    let lines = text_lines(content);
    let ghost all = views(lines@);
    let wanted = widest_key(&lines).saturating_add(4);
    let most = width.saturating_sub(1);
    let indent: usize = if wanted < most { wanted } else { most };
    let mut rows: Vec<Row> = Vec::new();
    let mut i: usize = 0;
    assert(row_views(rows@) =~= help_rows_of(all.take(0), indent, width, colors));
    while i < lines.len()
        invariant
            i <= lines@.len(),
            all == views(lines@),
            row_views(rows@) == help_rows_of(all.take(i as int), indent, width, colors),
        decreases lines@.len() - i,
    {
        push_help_line(&mut rows, lines[i].as_str(), indent, width, colors);
        assert(all.take(i + 1).drop_last() =~= all.take(i as int));
        i += 1;
    }
    assert(all.take(i as int) =~= all);
    rows
}

/// The screen of a help text: its footer follows the text, and where not all of it is shown, the
/// place stands at the right.
pub open spec fn help_page_of(
    size: Size,
    title: Seq<char>,
    content: Seq<char>,
    scroll: usize,
    footer: Footer,
    colors: bool,
) -> Seq<WidgetView> {
    if !usable_size(size) {
        seq![small_screen(size, "esc back"@)]
    } else {
        let x = margin_of(size);
        let width = inner_of(size);
        let rows = help_rows(content, width as usize, colors);
        let capacity = size.height - 6;
        let at = held_back(scroll, rows.len() as int, capacity);
        let shown = window(rows, at as int, capacity);
        let keys = cells16(footer_cells(footer) as int);
        let foot = (4 + shown.len()) as u16;
        let place = clipped(
            place_text((at + 1) as nat, rows.len()),
            less16(width, more16(keys, 4)) as nat,
            true,
        );
        let place_cells = cells16(text_width(place) as int);
        let first = seq![
            WidgetView::Text {
                area: Area { x, y: 1, width, height: 1 },
                rows: seq![
                    a_row(seq![a_span(clipped(title, width as nat, false), plain_look())]),
                ],
                style: title_look(Tone::Accent, colors),
            },
            WidgetView::Text {
                area: Area { x, y: 3, width, height: shown.len() as u16 },
                rows: shown,
                style: plain_look(),
            },
            WidgetView::Text {
                area: Area { x: (x + 2) as u16, y: foot, width: keys, height: 1 },
                rows: seq![a_row(hint_spans(hints_of(footer), "   "@, colors))],
                style: plain_look(),
            },
        ];
        if rows.len() > capacity {
            first.push(
                WidgetView::Text {
                    area: Area {
                        x: less16((x + width) as u16, place_cells),
                        y: foot,
                        width: place_cells,
                        height: 1,
                    },
                    rows: seq![a_row(seq![a_span(place, plain_look())])],
                    style: muted_look(),
                },
            )
        } else {
            first
        }
    }
}

pub fn draw_help(out: &mut Vec<Widget>, size: Size, title: &str, content: &str, scroll: &mut usize, footer: Footer, colors: bool)
    ensures
        widget_views(final(out)@) == widget_views(old(out)@) + help_page_of(
            size,
            title@,
            content@,
            *old(scroll),
            footer,
            colors,
        ),
        *final(scroll) == (if usable_size(size) {
            held_back(
                *old(scroll),
                help_rows(content@, inner_of(size) as usize, colors).len() as int,
                size.height - 6,
            )
        } else {
            *old(scroll)
        }),
{
    if !usable(size) {
        put_small(out, size, "esc back");
        return;
    }
    let ghost before = widget_views(out@);
    let x: u16 = if size.width < 80 { 1 } else { 2 };
    let width = inner_width(size);
    let rows = help_lines(content, width as usize, colors);
    let ghost all = row_views(rows@);
    let total = rows.len();
    let capacity: usize = (size.height - 6) as usize;
    *scroll = hold_back(*scroll, total, capacity);
    let shown = window_of(rows, *scroll, capacity);
    let ghost seen = window(all, *scroll as int, capacity as int);
    let height: u16 = shown.len() as u16;
    assert(row_views(shown@).len() == shown@.len());
    let shown_title = clip(title, width as usize, false);
    put_text(
        out,
        Area { x, y: 1, width, height: 1 },
        plain_row(shown_title.as_str()),
        title_style(Tone::Accent, colors),
    );
    put_text(out, Area { x, y: 3, width, height }, shown, plain());
    let foot: u16 = 4 + height;
    let keys = to_cells(footer_width(footer));
    put_text(
        out,
        Area { x: x + 2, y: foot, width: keys, height: 1 },
        one_row(key_hints(footer, "   ", colors)),
        plain(),
    );
    if total > capacity {
        let room = width.saturating_sub(keys.saturating_add(4));
        let place = place_of(*scroll as u64 + 1, total as u64);
        let place = clip(place.as_str(), room as usize, true);
        let cells = to_cells(width_of(place.as_str()));
        let right: u16 = x + width;
        put_text(
            out,
            Area { x: right.saturating_sub(cells), y: foot, width: cells, height: 1 },
            plain_row(place.as_str()),
            muted(),
        );
    }
    assert(widget_views(out@) =~= before + help_page_of(
        size,
        title@,
        content@,
        *old(scroll),
        footer,
        colors,
    ));
}

} // verus!
