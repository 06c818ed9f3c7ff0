//! What a screen is made of: styled text at a place, and lists with a mark.
use crate::text::cat2;
use crate::tui::cells::{text_width, width_of};
use crate::tui::keys::sat_add;
use crate::tui::model::Tone;
use vstd::prelude::*;

verus! {

#[derive(Debug, Clone, Copy, PartialEq, Eq, Structural)]
pub struct Size {
    pub width: u16,
    pub height: u16,
}

#[derive(Debug, Clone, Copy, PartialEq, Eq, Structural)]
pub struct Area {
    pub x: u16,
    pub y: u16,
    pub width: u16,
    pub height: u16,
}

#[derive(Debug, Clone, Copy, PartialEq, Eq, Structural)]
pub enum Color {
    Reset,
    Black,
    Red,
    Green,
    Yellow,
    Cyan,
}

/// How text looks. `upright` takes a reversal away that lies underneath.
#[derive(Debug, Clone, Copy, PartialEq, Eq, Structural)]
pub struct Style {
    pub fg: Option<Color>,
    pub bg: Option<Color>,
    pub bold: bool,
    pub dim: bool,
    pub reversed: bool,
    pub upright: bool,
}

pub open spec fn plain_look() -> Style {
    Style { fg: None, bg: None, bold: false, dim: false, reversed: false, upright: false }
}

pub open spec fn tone_color(tone: Tone) -> Color {
    match tone {
        Tone::Accent => Color::Cyan,
        Tone::Success => Color::Green,
        Tone::Warning => Color::Yellow,
        Tone::Error => Color::Red,
    }
}

pub open spec fn tone_look(tone: Tone, colors: bool) -> Style {
    if colors {
        Style { fg: Some(tone_color(tone)), ..plain_look() }
    } else {
        plain_look()
    }
}

pub open spec fn muted_look() -> Style {
    Style { dim: true, ..plain_look() }
}

pub open spec fn selected_look() -> Style {
    Style { fg: Some(Color::Reset), bg: Some(Color::Reset), reversed: true, ..plain_look() }
}

pub open spec fn danger_look(selected: bool, colors: bool) -> Style {
    if selected && colors {
        Style { fg: Some(Color::Red), ..selected_look() }
    } else if selected {
        selected_look()
    } else {
        tone_look(Tone::Error, colors)
    }
}

pub open spec fn title_look(tone: Tone, colors: bool) -> Style {
    Style { bold: true, ..tone_look(tone, colors) }
}

/// What keeps the margin of a marked row as it is.
pub open spec fn margin_look() -> Style {
    Style { fg: Some(Color::Reset), bg: Some(Color::Reset), upright: true, ..plain_look() }
}

/// Colors are used unless the environment asks for none.
pub fn colors_enabled(no_color: Option<&str>) -> (r: bool)
    ensures
        r == (no_color is None || no_color->0@.len() == 0),
{
    match no_color {
        None => true,
        Some(value) => crate::text::chars_of(value).len() == 0,
    }
}

pub fn plain() -> (r: Style)
    ensures
        r == plain_look(),
{
    Style { fg: None, bg: None, bold: false, dim: false, reversed: false, upright: false }
}

pub fn tone_style(tone: Tone, colors: bool) -> (r: Style)
    ensures
        r == tone_look(tone, colors),
{
    let mut style = plain();
    if colors {
        style.fg = Some(
            match tone {
                Tone::Accent => Color::Cyan,
                Tone::Success => Color::Green,
                Tone::Warning => Color::Yellow,
                Tone::Error => Color::Red,
            },
        );
    }
    style
}

pub fn muted() -> (r: Style)
    ensures
        r == muted_look(),
{
    let mut style = plain();
    style.dim = true;
    style
}

pub fn selected_style() -> (r: Style)
    ensures
        r == selected_look(),
{
    let mut style = plain();
    style.fg = Some(Color::Reset);
    style.bg = Some(Color::Reset);
    style.reversed = true;
    style
}

pub fn danger_style(selected: bool, colors: bool) -> (r: Style)
    ensures
        r == danger_look(selected, colors),
{
    if selected && colors {
        let mut style = selected_style();
        style.fg = Some(Color::Red);
        style
    } else if selected {
        selected_style()
    } else {
        tone_style(Tone::Error, colors)
    }
}

pub fn title_style(tone: Tone, colors: bool) -> (r: Style)
    ensures
        r == title_look(tone, colors),
{
    let mut style = tone_style(tone, colors);
    style.bold = true;
    style
}

pub fn margin_style() -> (r: Style)
    ensures
        r == margin_look(),
{
    let mut style = plain();
    style.fg = Some(Color::Reset);
    style.bg = Some(Color::Reset);
    style.upright = true;
    style
}

#[derive(Debug)]
pub struct Span {
    pub text: String,
    pub style: Style,
}

#[verifier::ext_equal]
pub struct SpanView {
    pub text: Seq<char>,
    pub style: Style,
}

impl View for Span {
    type V = SpanView;

    open spec fn view(&self) -> SpanView {
        SpanView { text: self.text@, style: self.style }
    }
}

#[derive(Debug)]
pub struct Row {
    pub spans: Vec<Span>,
    pub style: Style,
}

#[verifier::ext_equal]
pub struct RowView {
    pub spans: Seq<SpanView>,
    pub style: Style,
}

pub open spec fn span_views(spans: Seq<Span>) -> Seq<SpanView> {
    Seq::new(spans.len(), |i: int| spans[i]@)
}

impl View for Row {
    type V = RowView;

    open spec fn view(&self) -> RowView {
        RowView { spans: span_views(self.spans@), style: self.style }
    }
}

pub open spec fn row_views(rows: Seq<Row>) -> Seq<RowView> {
    Seq::new(rows.len(), |i: int| rows[i]@)
}

#[derive(Debug)]
pub enum Widget {
    /// Rows of text, cut to the area.
    Text { area: Area, rows: Vec<Row>, style: Style },
    /// Rows that scroll so that the marked one is shown.
    List {
        area: Area,
        rows: Vec<Row>,
        selected: Option<usize>,
        highlight: Style,
    },
}

pub enum WidgetView {
    Text { area: Area, rows: Seq<RowView>, style: Style },
    List {
        area: Area,
        rows: Seq<RowView>,
        selected: Option<usize>,
        highlight: Style,
    },
}

impl View for Widget {
    type V = WidgetView;

    open spec fn view(&self) -> WidgetView {
        match self {
            Widget::Text { area, rows, style } => WidgetView::Text {
                area: *area,
                rows: row_views(rows@),
                style: *style,
            },
            Widget::List { area, rows, selected, highlight } => WidgetView::List {
                area: *area,
                rows: row_views(rows@),
                selected: *selected,
                highlight: *highlight,
            },
        }
    }
}

pub open spec fn widget_views(widgets: Seq<Widget>) -> Seq<WidgetView> {
    Seq::new(widgets.len(), |i: int| widgets[i]@)
}

pub open spec fn a_span(text: Seq<char>, style: Style) -> SpanView {
    SpanView { text, style }
}

pub open spec fn a_row(spans: Seq<SpanView>) -> RowView {
    RowView { spans, style: plain_look() }
}

/// Rows of plain text.
pub open spec fn plain_rows(texts: Seq<Seq<char>>) -> Seq<RowView> {
    Seq::new(texts.len(), |i: int| a_row(seq![a_span(texts[i], plain_look())]))
}

pub fn span(text: &str, style: Style) -> (r: Span)
    ensures
        r@ == a_span(text@, style),
{
    Span { text: text.to_owned(), style }
}

pub fn row_of(spans: Vec<Span>) -> (r: Row)
    ensures
        r@ == a_row(span_views(spans@)),
{
    Row { spans, style: plain() }
}

pub fn row1(a: Span) -> (r: Row)
    ensures
        r@ == a_row(seq![a@]),
{
    let mut spans: Vec<Span> = Vec::new();
    spans.push(a);
    assert(span_views(spans@) =~= seq![a@]);
    row_of(spans)
}

pub fn row2(a: Span, b: Span) -> (r: Row)
    ensures
        r@ == a_row(seq![a@, b@]),
{
    let mut spans: Vec<Span> = Vec::new();
    spans.push(a);
    spans.push(b);
    assert(span_views(spans@) =~= seq![a@, b@]);
    row_of(spans)
}

pub fn row3(a: Span, b: Span, c: Span) -> (r: Row)
    ensures
        r@ == a_row(seq![a@, b@, c@]),
{
    let mut spans: Vec<Span> = Vec::new();
    spans.push(a);
    spans.push(b);
    spans.push(c);
    assert(span_views(spans@) =~= seq![a@, b@, c@]);
    row_of(spans)
}

pub proof fn lemma_row_push(rows: Seq<Row>, row: Row)
    ensures
        row_views(rows.push(row)) == row_views(rows).push(row@),
{
    assert(row_views(rows.push(row)) =~= row_views(rows).push(row@));
}

/// Puts a row of plain text behind the others.
pub fn push_plain(rows: &mut Vec<Row>, text: &str)
    ensures
        row_views(final(rows)@) == row_views(old(rows)@).push(
            a_row(seq![a_span(text@, plain_look())]),
        ),
{
    let row = row1(span(text, plain()));
    proof {
        lemma_row_push(rows@, row);
    }
    rows.push(row);
}

/// One row.
pub fn one_row(row: Row) -> (r: Vec<Row>)
    ensures
        row_views(r@) == seq![row@],
{
    let mut rows: Vec<Row> = Vec::new();
    rows.push(row);
    assert(row_views(rows@) =~= seq![row@]);
    rows
}

/// One row of plain text.
pub fn plain_row(text: &str) -> (r: Vec<Row>)
    ensures
        row_views(r@) == seq![a_row(seq![a_span(text@, plain_look())])],
{
    one_row(row1(span(text, plain())))
}

/// Puts a text widget behind the others.
pub fn put_text(out: &mut Vec<Widget>, area: Area, rows: Vec<Row>, style: Style)
    ensures
        widget_views(final(out)@) == widget_views(old(out)@).push(
            WidgetView::Text { area, rows: row_views(rows@), style },
        ),
{
    let ghost before = out@;
    out.push(Widget::Text { area, rows, style });
    assert(widget_views(out@) =~= widget_views(before).push(
        WidgetView::Text { area, rows: row_views(rows@), style },
    ));
}

/// Puts a list behind the others.
pub fn put_list(out: &mut Vec<Widget>, area: Area, rows: Vec<Row>, selected: Option<usize>, highlight: Style)
    ensures
        widget_views(final(out)@) == widget_views(old(out)@).push(
            WidgetView::List { area, rows: row_views(rows@), selected, highlight },
        ),
{
    let ghost before = out@;
    out.push(Widget::List { area, rows, selected, highlight });
    assert(widget_views(out@) =~= widget_views(before).push(
        WidgetView::List { area, rows: row_views(rows@), selected, highlight },
    ));
}

/// The rows from `from` on, at most `n`.
pub open spec fn window<A>(rows: Seq<A>, from: int, n: int) -> Seq<A> {
    let start = if from < rows.len() { from } else { rows.len() as int };
    let end = if start + n < rows.len() { start + n } else { rows.len() as int };
    rows.subrange(start, end)
}

pub fn window_of(rows: Vec<Row>, from: usize, n: usize) -> (r: Vec<Row>)
    ensures
        row_views(r@) == window(row_views(rows@), from as int, n as int),
{
    let ghost all = rows@;
    let mut rows = rows;
    let start: usize = if from < rows.len() { from } else { rows.len() };
    let mut tail = rows.split_off(start);
    tail.truncate(n);
    assert(row_views(tail@) =~= window(row_views(all), from as int, n as int));
    tail
}

/// A key and what it does.
#[derive(Debug, Clone, Copy)]
pub struct Hint {
    pub key: &'static str,
    pub text: &'static str,
}

pub struct HintView {
    pub key: Seq<char>,
    pub text: Seq<char>,
}

impl View for Hint {
    type V = HintView;

    open spec fn view(&self) -> HintView {
        HintView { key: self.key@, text: self.text@ }
    }
}

/// The keys that a screen names at its foot.
#[derive(Debug, Clone, Copy)]
pub enum Footer {
    Services,
    Empty,
    Actions,
    Confirm,
    History,
    Content,
    Help,
    Error,
    Crash,
    /// One key by itself.
    Only(Hint),
}

pub open spec fn a_hint(key: Seq<char>, text: Seq<char>) -> HintView {
    HintView { key, text }
}

pub open spec fn hints_of(footer: Footer) -> Seq<HintView> {
    match footer {
        Footer::Services => seq![
            a_hint("enter"@, "actions"@),
            a_hint("?"@, "help"@),
            a_hint("q"@, "quit"@),
        ],
        Footer::Empty => seq![a_hint("?"@, "help"@), a_hint("esc/q"@, "quit"@)],
        Footer::Actions => seq![
            a_hint("enter"@, "select"@),
            a_hint("?"@, "help"@),
            a_hint("esc/q"@, "back"@),
        ],
        Footer::Confirm => seq![
            a_hint("enter"@, "select"@),
            a_hint("?"@, "help"@),
            a_hint("esc/q"@, "cancel"@),
        ],
        Footer::History => seq![
            a_hint("enter"@, "open"@),
            a_hint("?"@, "help"@),
            a_hint("esc/q"@, "back"@),
        ],
        Footer::Content => seq![
            a_hint("↑↓"@, "scroll"@),
            a_hint("?"@, "help"@),
            a_hint("esc/q"@, "back"@),
        ],
        Footer::Help => seq![a_hint("↑↓"@, "scroll"@), a_hint("?/esc/q"@, "back"@)],
        Footer::Error => seq![a_hint("↑↓"@, "scroll"@), a_hint("esc/q"@, "back"@)],
        Footer::Crash => seq![a_hint("enter/y"@, "open log"@), a_hint("n/esc"@, "cancel"@)],
        Footer::Only(hint) => seq![hint@],
    }
}

pub open spec fn hint_views(hints: Seq<Hint>) -> Seq<HintView> {
    Seq::new(hints.len(), |i: int| hints[i]@)
}

fn hint(key: &'static str, text: &'static str) -> (r: Hint)
    ensures
        r@ == a_hint(key@, text@),
{
    Hint { key, text }
}

fn hints2(a: Hint, b: Hint) -> (r: Vec<Hint>)
    ensures
        hint_views(r@) == seq![a@, b@],
{
    let mut out: Vec<Hint> = Vec::new();
    out.push(a);
    out.push(b);
    assert(hint_views(out@) =~= seq![a@, b@]);
    out
}

fn hints3(a: Hint, b: Hint, c: Hint) -> (r: Vec<Hint>)
    ensures
        hint_views(r@) == seq![a@, b@, c@],
{
    let mut out: Vec<Hint> = Vec::new();
    out.push(a);
    out.push(b);
    out.push(c);
    assert(hint_views(out@) =~= seq![a@, b@, c@]);
    out
}

impl Footer {
    pub fn hints(self) -> (r: Vec<Hint>)
        ensures
            hint_views(r@) == hints_of(self),
    {
        match self {
            Footer::Services => hints3(
                hint("enter", "actions"),
                hint("?", "help"),
                hint("q", "quit"),
            ),
            Footer::Empty => hints2(hint("?", "help"), hint("esc/q", "quit")),
            Footer::Actions => hints3(
                hint("enter", "select"),
                hint("?", "help"),
                hint("esc/q", "back"),
            ),
            Footer::Confirm => hints3(
                hint("enter", "select"),
                hint("?", "help"),
                hint("esc/q", "cancel"),
            ),
            Footer::History => hints3(
                hint("enter", "open"),
                hint("?", "help"),
                hint("esc/q", "back"),
            ),
            Footer::Content => hints3(
                hint("↑↓", "scroll"),
                hint("?", "help"),
                hint("esc/q", "back"),
            ),
            Footer::Help => hints2(hint("↑↓", "scroll"), hint("?/esc/q", "back")),
            Footer::Error => hints2(hint("↑↓", "scroll"), hint("esc/q", "back")),
            Footer::Crash => hints2(hint("enter/y", "open log"), hint("n/esc", "cancel")),
            Footer::Only(only) => {
                let mut out: Vec<Hint> = Vec::new();
                out.push(only);
                assert(hint_views(out@) =~= seq![only@]);
                out
            },
        }
    }
}

/// The columns of the hints themselves.
pub open spec fn hint_cells(hints: Seq<HintView>) -> usize
    decreases hints.len(),
{
    if hints.len() == 0 {
        0
    } else {
        sat_add(
            hint_cells(hints.drop_last()),
            (text_width(hints.last().key) + 1 + text_width(hints.last().text)) as int,
        )
    }
}

/// The columns of a footer, with three between two hints.
pub open spec fn footer_cells(footer: Footer) -> usize {
    let hints = hints_of(footer);
    sat_add(hint_cells(hints), 3 * (hints.len() - 1))
}

pub fn footer_width(footer: Footer) -> (r: usize)
    ensures
        r == footer_cells(footer),
{
    let hints = footer.hints();
    let ghost all = hint_views(hints@);
    let mut sum: usize = 0;
    let mut i: usize = 0;
    while i < hints.len()
        invariant
            i <= hints@.len(),
            all == hint_views(hints@),
            sum == hint_cells(all.take(i as int)),
        decreases hints@.len() - i,
    {
        let one = width_of(hints[i].key).saturating_add(1).saturating_add(width_of(hints[i].text));
        sum = sum.saturating_add(one);
        proof {
            assert(all.take(i + 1).drop_last() =~= all.take(i as int));
            assert(all.take(i + 1).last() == hints@[i as int]@);
        }
        i += 1;
    }
    assert(all.take(i as int) =~= all);
    let gaps: usize = 3 * (hints.len() - 1);
    sum.saturating_add(gaps)
}

/// The hints of a footer as spans, with `gap` between two of them.
pub open spec fn hint_spans(hints: Seq<HintView>, gap: Seq<char>, colors: bool) -> Seq<SpanView>
    decreases hints.len(),
{
    if hints.len() == 0 {
        Seq::empty()
    } else {
        let front = hint_spans(hints.drop_last(), gap, colors);
        let spaced = if hints.len() > 1 { front.push(a_span(gap, plain_look())) } else { front };
        spaced.push(a_span(hints.last().key, tone_look(Tone::Accent, colors))).push(
            a_span(" "@ + hints.last().text, muted_look()),
        )
    }
}

proof fn lemma_span_push(spans: Seq<Span>, x: Span)
    ensures
        span_views(spans.push(x)) == span_views(spans).push(x@),
{
    assert(span_views(spans.push(x)) =~= span_views(spans).push(x@));
}

fn push_span(spans: &mut Vec<Span>, x: Span)
    ensures
        span_views(final(spans)@) == span_views(old(spans)@).push(x@),
{
    proof {
        lemma_span_push(spans@, x);
    }
    spans.push(x);
}

pub fn key_hints(footer: Footer, gap: &str, colors: bool) -> (r: Row)
    ensures
        r@ == a_row(hint_spans(hints_of(footer), gap@, colors)),
{
    let hints = footer.hints();
    let ghost all = hint_views(hints@);
    let mut spans: Vec<Span> = Vec::new();
    let mut i: usize = 0;
    assert(span_views(spans@) =~= hint_spans(all.take(0), gap@, colors));
    while i < hints.len()
        invariant
            i <= hints@.len(),
            all == hint_views(hints@),
            span_views(spans@) == hint_spans(all.take(i as int), gap@, colors),
        decreases hints@.len() - i,
    {
        proof {
            assert(all.take(i + 1).drop_last() =~= all.take(i as int));
            assert(all.take(i + 1).last() == hints@[i as int]@);
        }
        if i > 0 {
            push_span(&mut spans, span(gap, plain()));
        }
        push_span(&mut spans, span(hints[i].key, tone_style(Tone::Accent, colors)));
        let text = cat2(" ", hints[i].text);
        push_span(&mut spans, span(text.as_str(), muted()));
        i += 1;
    }
    assert(all.take(i as int) =~= all);
    row_of(spans)
}

} // verus!
