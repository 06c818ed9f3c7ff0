//! The screens of the form: its fields, the value that is edited, the questions, and the restart
//! that is offered after a change.
use crate::config::policy_text;
use crate::form::help::{help_text, help_title};
use crate::form::input::{cell_width, lemma_rows, line_views, row_of as cursor_row, rows, widths_of, Buffer, BufferView};
use crate::form::model::{policies, row_views as pair_views, shown_rows, Confirm, Editing, Form};
use crate::form::state::{is_dirty, is_disabled, policy_at, value_of, ConfirmView, EditView, FormView};
use crate::text::{cat3, chars_of, string_of, views};
use crate::tui::layout::{lines_of, pad_right, padded, text_lines, wrapped, wrapped_rows};
use crate::tui::model::{Reader, ReaderView, Tone};
use crate::tui::screens::{draw_reader, reader_page_of, reader_place};
use crate::tui::view::{draw_help, text_page, text_page_of};
use crate::tui::widget::{a_row, a_span, lemma_row_push, muted, muted_look, plain, plain_look, plain_row, row1, row2, row_of, row_views, selected_look, selected_style, span, span_views, tone_look, tone_style, widget_views, Footer, Hint, Row, RowView, Size, Span, Style, Widget, WidgetView};
use vstd::prelude::*;

verus! {

pub open spec fn tab_name(i: int) -> Seq<char> {
    if i == 0 {
        "Basic"@
    } else if i == 1 {
        "Runtime"@
    } else if i == 2 {
        "Logs"@
    } else {
        "Environment"@
    }
}

pub fn tab_label(i: usize) -> (r: &'static str)
    ensures
        r@ == tab_name(i as int),
{
    if i == 0 {
        "Basic"
    } else if i == 1 {
        "Runtime"
    } else if i == 2 {
        "Logs"
    } else {
        "Environment"
    }
}

pub open spec fn field_name(i: int) -> Seq<char> {
    if i == 0 {
        "Name"@
    } else if i == 1 {
        "Command"@
    } else if i == 2 {
        "Working directory"@
    } else if i == 3 {
        "Restart policy"@
    } else if i == 4 {
        "PTY"@
    } else if i == 5 {
        "Sync terminal size"@
    } else if i == 6 {
        "Persist logs"@
    } else if i == 7 {
        "Max bytes / file"@
    } else {
        "Retained files"@
    }
}

pub fn field_label(i: usize) -> (r: &'static str)
    ensures
        r@ == field_name(i as int),
{
    match i {
        0 => "Name",
        1 => "Command",
        2 => "Working directory",
        3 => "Restart policy",
        4 => "PTY",
        5 => "Sync terminal size",
        6 => "Persist logs",
        7 => "Max bytes / file",
        _ => "Retained files",
    }
}

/// The look of an entry that may be the marked one.
pub open spec fn marked(here: bool) -> Style {
    if here {
        selected_look()
    } else {
        plain_look()
    }
}

fn mark(here: bool) -> (r: Style)
    ensures
        r == marked(here),
{
    if here {
        selected_style()
    } else {
        plain()
    }
}

pub open spec fn text_row(text: Seq<char>, style: Style) -> RowView {
    a_row(seq![a_span(text, style)])
}

fn push_text(out: &mut Vec<Row>, text: &str, style: Style)
    ensures
        row_views(final(out)@) == row_views(old(out)@).push(text_row(text@, style)),
{
    let row = row1(span(text, style));
    proof {
        lemma_row_push(out@, row);
    }
    out.push(row);
}

/// An input on a screen of that size: the margins and the rows around it are taken off.
pub open spec fn fitted(b: BufferView, size: Size) -> BufferView {
    BufferView {
        width: if size.width > 7 { size.width - 6 } else { 1 },
        height: if size.height > 9 { size.height - 8 } else { 1 },
        ..b
    }
}

pub fn fit(input: Buffer, size: Size) -> (r: Buffer)
    requires
        input.wf(),
    ensures
        r.wf(),
        r@ == fitted(input@, size),
{
    let mut input = input;
    input.viewport_width = if size.width > 7 { (size.width - 6) as usize } else { 1 };
    input.viewport_height = if size.height > 9 { (size.height - 8) as usize } else { 1 };
    input
}

pub open spec fn edit_fitted(e: EditView, size: Size) -> EditView {
    match e {
        EditView::Text { field, input, original } => EditView::Text {
            field,
            input: fitted(input, size),
            original,
        },
        EditView::Choice(i) => EditView::Choice(i),
        EditView::Env {
            old,
            key,
            value,
            original_value,
            value_focus,
            delete_available,
            delete_focus,
        } => EditView::Env {
            old,
            key: fitted(key, size),
            value: fitted(value, size),
            original_value,
            value_focus,
            delete_available,
            delete_focus,
        },
    }
}

fn fit_editing(editing: Editing, size: Size) -> (r: Editing)
    requires
        editing.wf(),
    ensures
        r.wf(),
        r@ == edit_fitted(editing@, size),
{
    match editing {
        Editing::Text { field, input, original } => Editing::Text {
            field,
            input: fit(input, size),
            original,
        },
        Editing::Choice(i) => Editing::Choice(i),
        Editing::Env {
            old,
            key,
            value,
            original_value,
            value_focus,
            delete_available,
            delete_focus,
        } => Editing::Env {
            old,
            key: fit(key, size),
            value: fit(value, size),
            original_value,
            value_focus,
            delete_available,
            delete_focus,
        },
    }
}

/// The rows of an input, the one with the cursor marked where the input has the focus.
pub open spec fn input_rows(b: BufferView, focused: bool) -> Seq<RowView> {
    let lines = rows(b.text, b.width);
    Seq::new(
        lines.len(),
        |i: int|
            a_row(
                seq![
                    a_span("  "@, plain_look()),
                    a_span(
                        b.text.subrange(lines[i].0, lines[i].1),
                        marked(focused && i == cursor_row(lines, b.cursor)),
                    ),
                ],
            ),
    )
}

fn put_input(out: &mut Vec<Row>, input: &Buffer, focused: bool)
    requires
        input.wf(),
    ensures
        row_views(final(out)@) == row_views(old(out)@) + input_rows(input@, focused),
{
    let ghost before = row_views(out@);
    let ghost all = input_rows(input@, focused);
    let ghost lines = rows(input.text@, input.viewport_width as int);
    let text = chars_of(input.text.as_str());
    let layout = input.layout();
    proof {
        lemma_rows(input.text@, widths_of(input.text@), cell_width(input.viewport_width as int), 0);
    }
    assert(line_views(layout.lines@).len() == layout.lines@.len());
    let mut i: usize = 0;
    assert(row_views(out@) =~= before + all.take(0));
    while i < layout.lines.len()
        invariant
            i <= layout.lines@.len(),
            line_views(layout.lines@) == lines,
            lines.len() == layout.lines@.len(),
            lines == rows(input.text@, input.viewport_width as int),
            lines == rows(input@.text, input@.width),
            layout.row == cursor_row(lines, input.cursor as int),
            text@ == input.text@,
            forall|j: int|
                0 <= j < lines.len() ==> 0 <= (#[trigger] lines[j]).0 <= lines[j].1 <= text@.len(),
            all == input_rows(input@, focused),
            row_views(out@) == before + all.take(i as int),
        decreases layout.lines@.len() - i,
    {
        assert(lines[i as int] == line_views(layout.lines@)[i as int]);
        let (from, to) = layout.lines[i];
        let part = string_of(&text, from, to);
        let row = row2(span("  ", plain()), span(part.as_str(), mark(focused && i == layout.row)));
        proof {
            lemma_row_push(out@, row);
        }
        out.push(row);
        assert(row@ == all[i as int]);
        assert(before + all.take(i as int).push(all[i as int]) =~= before + all.take(i + 1));
        assert((before + all.take(i as int)).push(all[i as int]) =~= before + all.take(i + 1));
        i += 1;
    }
    assert(all.take(i as int) =~= all);
}

/// The answers one below the other, the chosen one marked.
pub open spec fn answer_rows(answers: Seq<Seq<char>>, selected: int) -> Seq<RowView> {
    Seq::new(answers.len(), |i: int| text_row(answers[i], marked(i == selected)))
}

/// The rows of what is edited.
pub open spec fn editing_rows(e: EditView) -> Seq<RowView> {
    match e {
        EditView::Text { field, input, .. } => seq![text_row(field_name(field), plain_look())]
            + input_rows(input, true),
        EditView::Choice(i) => answer_rows(
            seq![
                policy_text(policy_at(0)),
                policy_text(policy_at(1)),
                policy_text(policy_at(2)),
            ],
            i,
        ),
        EditView::Env { key, value, value_focus, delete_available, delete_focus, .. } => {
            let both = seq![text_row("Name"@, plain_look())] + input_rows(
                key,
                !value_focus && !delete_focus,
            ) + seq![text_row("Value"@, plain_look())] + input_rows(
                value,
                value_focus && !delete_focus,
            );
            if delete_available {
                both.push(text_row("Delete"@, marked(delete_focus)))
            } else {
                both
            }
        },
    }
}

fn editing_page(editing: &Editing) -> (r: Vec<Row>)
    requires
        editing.wf(),
    ensures
        row_views(r@) == editing_rows(editing@),
{
    let mut out: Vec<Row> = Vec::new();
    assert(row_views(out@) =~= Seq::empty());
    match editing {
        Editing::Text { field, input, .. } => {
            push_text(&mut out, field_label(*field), plain());
            assert(row_views(out@) =~= seq![text_row(field_name(*field as int), plain_look())]);
            put_input(&mut out, input, true);
        },
        Editing::Choice(selected) => {
            push_text(&mut out, policies(0).as_str(), mark(*selected == 0));
            push_text(&mut out, policies(1).as_str(), mark(*selected == 1));
            push_text(&mut out, policies(2).as_str(), mark(*selected == 2));
            assert(row_views(out@) =~= editing_rows(editing@));
        },
        Editing::Env { key, value, value_focus, delete_available, delete_focus, .. } => {
            push_text(&mut out, "Name", plain());
            assert(row_views(out@) =~= seq![text_row("Name"@, plain_look())]);
            put_input(&mut out, key, !*value_focus && !*delete_focus);
            let ghost first = row_views(out@);
            push_text(&mut out, "Value", plain());
            assert(row_views(out@) =~= first + seq![text_row("Value"@, plain_look())]);
            put_input(&mut out, value, *value_focus && !*delete_focus);
            if *delete_available {
                push_text(&mut out, "Delete", mark(*delete_focus));
            }
        },
    }
    out
}

/// A question and its answers.
pub open spec fn question_rows(question: Seq<char>, answers: Seq<Seq<char>>, selected: int) -> Seq<RowView> {
    seq![text_row(question, plain_look())] + answer_rows(answers, selected)
}

pub open spec fn question_of(c: ConfirmView) -> Seq<char> {
    match c {
        ConfirmView::Exit => "Save changes before leaving?"@,
        ConfirmView::Reload => "Reload and discard changes?"@,
        ConfirmView::Delete(name) => "Delete "@ + name + "?"@,
        ConfirmView::DeleteNew => "Delete the new variable?"@,
    }
}

pub open spec fn answers_of(c: ConfirmView) -> Seq<Seq<char>> {
    match c {
        ConfirmView::Exit => seq!["Keep editing"@, "Save"@, "Discard"@],
        ConfirmView::Reload => seq!["Keep editing"@, "Reload"@],
        _ => seq!["Keep"@, "Delete"@],
    }
}

fn two_answers(question: &str, first: &str, second: &str, selected: usize) -> (r: Vec<Row>)
    ensures
        row_views(r@) == question_rows(question@, seq![first@, second@], selected as int),
{
    let mut out: Vec<Row> = Vec::new();
    push_text(&mut out, question, plain());
    push_text(&mut out, first, mark(selected == 0));
    push_text(&mut out, second, mark(selected == 1));
    assert(row_views(out@) =~= question_rows(question@, seq![first@, second@], selected as int));
    out
}

fn question_page(question: &Confirm, selected: usize) -> (r: Vec<Row>)
    ensures
        row_views(r@) == question_rows(question_of(question@), answers_of(question@), selected as int),
{
    match question {
        Confirm::Exit => {
            let mut out = two_answers("Save changes before leaving?", "Keep editing", "Save", selected);
            push_text(&mut out, "Discard", mark(selected == 2));
            assert(row_views(out@) =~= question_rows(
                question_of(question@),
                answers_of(question@),
                selected as int,
            ));
            out
        },
        Confirm::Reload => two_answers("Reload and discard changes?", "Keep editing", "Reload", selected),
        Confirm::Delete(name) => {
            let text = cat3("Delete ", name.as_str(), "?");
            two_answers(text.as_str(), "Keep", "Delete", selected)
        },
        Confirm::DeleteNew => two_answers("Delete the new variable?", "Keep", "Delete", selected),
    }
}

/// The first line of a text.
pub open spec fn first_line(text: Seq<char>) -> Seq<char> {
    if lines_of(text).len() == 0 {
        ""@
    } else {
        lines_of(text)[0]
    }
}

/// A field: its label, and the first line of its value.
pub open spec fn field_row(label: Seq<char>, value: Seq<char>, here: bool, disabled: bool) -> RowView {
    let rest = if disabled {
        muted_look()
    } else {
        plain_look()
    };
    a_row(
        seq![
            a_span(
                padded(label, 20),
                if here {
                    selected_look()
                } else {
                    rest
                },
            ),
            a_span(first_line(value), rest),
        ],
    )
}

fn push_field(out: &mut Vec<Row>, label: &str, value: &str, here: bool, disabled: bool)
    ensures
        row_views(final(out)@) == row_views(old(out)@).push(field_row(label@, value@, here, disabled)),
{
    let lines = text_lines(value);
    assert(views(lines@).len() == lines@.len());
    let rest = if disabled {
        muted()
    } else {
        plain()
    };
    let style = if here {
        selected_style()
    } else {
        rest
    };
    let name = pad_right(label, 20);
    let row = if lines.len() == 0 {
        row2(span(name.as_str(), style), span("", rest))
    } else {
        assert(views(lines@)[0] == lines@[0]@);
        row2(span(name.as_str(), style), span(lines[0].as_str(), rest))
    };
    proof {
        lemma_row_push(out@, row);
    }
    out.push(row);
}

/// The row of the pages, the shown one marked.
pub open spec fn tab_row(tab: int) -> RowView {
    a_row(
        Seq::new(
            8,
            |i: int|
                if i % 2 == 0 {
                    a_span(
                        tab_name(i / 2),
                        if i / 2 == tab {
                            selected_look()
                        } else {
                            muted_look()
                        },
                    )
                } else {
                    a_span("  "@, plain_look())
                },
        ),
    )
}

fn tabs(tab: usize) -> (r: Row)
    ensures
        r@ == tab_row(tab as int),
{
    let mut spans: Vec<Span> = Vec::new();
    let mut i: usize = 0;
    while i < 4
        invariant
            i <= 4,
            span_views(spans@) == tab_row(tab as int).spans.take(2 * i),
        decreases 4 - i,
    {
        let ghost before = spans@;
        let style = if i == tab {
            selected_style()
        } else {
            muted()
        };
        spans.push(span(tab_label(i), style));
        spans.push(span("  ", plain()));
        proof {
            let all = tab_row(tab as int).spans;
            assert((2 * i) / 2 == i && (2 * i) % 2 == 0 && (2 * i + 1) % 2 == 1);
            assert(span_views(spans@) =~= span_views(before).push(all[2 * i]).push(all[2 * i + 1]));
            assert(span_views(spans@) =~= all.take(2 * (i + 1)));
        }
        i += 1;
    }
    assert(span_views(spans@) =~= tab_row(tab as int).spans);
    row_of(spans)
}

/// What stands on the shown page: its three fields, or the variables.
pub open spec fn entry_rows(f: FormView) -> Seq<RowView> {
    if f.tab == 3 {
        let pairs = shown_rows(f.config.env, f.drafts);
        if pairs.len() == 0 {
            seq![text_row("No variables"@, muted_look())]
        } else {
            Seq::new(pairs.len(), |i: int| field_row(pairs[i].0, pairs[i].1, i == f.selected, false))
        }
    } else {
        Seq::new(
            3,
            |i: int|
                field_row(
                    field_name(f.tab * 3 + i),
                    value_of(f, f.tab * 3 + i),
                    i == f.selected,
                    is_disabled(f.config, f.tab * 3 + i),
                ),
        )
    }
}

pub open spec fn field_rows(f: FormView) -> Seq<RowView> {
    seq![tab_row(f.tab), text_row(""@, plain_look())] + entry_rows(f)
}

fn field_page(form: &Form) -> (r: Vec<Row>)
    requires
        form.wf(),
    ensures
        row_views(r@) == field_rows(form@),
{
    let mut out: Vec<Row> = Vec::new();
    out.push(tabs(form.tab));
    assert(row_views(out@) =~= seq![tab_row(form.tab as int)]);
    push_text(&mut out, "", plain());
    let ghost head = seq![tab_row(form.tab as int), text_row(""@, plain_look())];
    assert(row_views(out@) =~= head);
    let ghost all = entry_rows(form@);
    let mut i: usize = 0;
    assert(row_views(out@) =~= head + all.take(0));
    if form.tab == 3 {
        let pairs = form.env_rows();
        assert(pair_views(pairs@).len() == pairs@.len());
        if pairs.len() == 0 {
            push_text(&mut out, "No variables", muted());
            assert(row_views(out@) =~= head + all);
            return out;
        }
        while i < pairs.len()
            invariant
                i <= pairs@.len(),
                form.tab == 3,
                pairs@.len() > 0,
                all == entry_rows(form@),
                pair_views(pairs@) == shown_rows(form.config@.env, form@.drafts),
                pair_views(pairs@).len() == pairs@.len(),
                row_views(out@) == head + all.take(i as int),
            decreases pairs@.len() - i,
        {
            assert(pair_views(pairs@)[i as int] == (pairs@[i as int].0@, pairs@[i as int].1@));
            push_field(&mut out, pairs[i].0.as_str(), pairs[i].1.as_str(), i == form.selected, false);
            assert((head + all.take(i as int)).push(all[i as int]) =~= head + all.take(i + 1));
            i += 1;
        }
        assert(all.take(i as int) =~= all);
    } else {
        while i < 3
            invariant
                i <= 3,
                form.tab < 3,
                all == entry_rows(form@),
                row_views(out@) == head + all.take(i as int),
            decreases 3 - i,
        {
            let field: usize = form.tab * 3 + i;
            let value = form.value(field);
            push_field(&mut out, field_label(field), value.as_str(), i == form.selected, form.disabled(field));
            assert((head + all.take(i as int)).push(all[i as int]) =~= head + all.take(i + 1));
            i += 1;
        }
        assert(all.take(i as int) =~= all);
    }
    out
}

/// The rows of a message on a screen of that size.
pub open spec fn message_rows(message: Seq<char>, size: Size, colors: bool) -> Seq<RowView> {
    let width: usize = if size.width > 5 {
        (size.width - 4) as usize
    } else {
        1
    };
    let lines = wrapped_rows(message, width);
    Seq::new(lines.len(), |i: int| text_row(lines[i], tone_look(Tone::Error, colors)))
}

fn put_message(out: &mut Vec<Row>, message: &str, size: Size, colors: bool)
    ensures
        row_views(final(out)@) == row_views(old(out)@) + message_rows(message@, size, colors),
{
    let ghost before = row_views(out@);
    let ghost all = message_rows(message@, size, colors);
    let width: usize = if size.width > 5 { (size.width - 4) as usize } else { 1 };
    let lines = wrapped(message, width);
    assert(views(lines@).len() == lines@.len());
    let mut i: usize = 0;
    assert(row_views(out@) =~= before + all.take(0));
    while i < lines.len()
        invariant
            i <= lines@.len(),
            views(lines@) == wrapped_rows(message@, width),
            views(lines@).len() == lines@.len(),
            width == (if size.width > 5 { (size.width - 4) as usize } else { 1 }),
            all == message_rows(message@, size, colors),
            row_views(out@) == before + all.take(i as int),
        decreases lines@.len() - i,
    {
        assert(views(lines@)[i as int] == lines@[i as int]@);
        push_text(out, lines[i].as_str(), tone_style(Tone::Error, colors));
        assert((before + all.take(i as int)).push(all[i as int]) =~= before + all.take(i + 1));
        i += 1;
    }
    assert(all.take(i as int) =~= all);
}

/// The footer of the form, which names the one key that always leads back.
pub open spec fn back_footer() -> Footer {
    Footer::Only(Hint { key: "esc", text: "back" })
}

/// The rows of the form: a question, what is edited, or the fields, and the message below.
pub open spec fn form_rows(f: FormView, size: Size, colors: bool) -> Seq<RowView> {
    let body = if f.confirm is Some {
        question_rows(question_of(f.confirm->0), answers_of(f.confirm->0), f.confirm_selected)
    } else if f.editing is Some {
        editing_rows(edit_fitted(f.editing->0, size))
    } else {
        field_rows(f)
    };
    if f.inline_error is Some {
        body + message_rows(f.inline_error->0, size, colors)
    } else {
        body
    }
}

/// The reader that shows an error over the form.
pub open spec fn error_reader(f: FormView) -> ReaderView {
    ReaderView { tone: Tone::Error, title: "Edit"@, content: f.error->0, scroll: f.reader_scroll }
}

/// The reader that shows the help over the form.
pub open spec fn help_reader(f: FormView) -> ReaderView {
    ReaderView {
        tone: Tone::Accent,
        title: help_title(f),
        content: help_text(f),
        scroll: f.reader_scroll,
    }
}

/// The screen of the form. The help lies over an error, and an error over the form.
pub open spec fn form_page(f: FormView, size: Size, colors: bool) -> Seq<WidgetView> {
    if f.help {
        reader_page_of(size, help_reader(f), Footer::Help, colors)
    } else if f.error is Some {
        reader_page_of(size, error_reader(f), Footer::Error, colors)
    } else {
        text_page_of(
            size,
            "Edit"@,
            form_rows(f, size, colors),
            0,
            back_footer(),
            if is_dirty(f) {
                "unsaved changes"@
            } else {
                ""@
            },
            Tone::Accent,
            colors,
        )
    }
}

/// The form once it has been drawn: a reader stays inside its text, and an input that is shown has
/// the size of the screen.
pub open spec fn form_drawn(f: FormView, size: Size, colors: bool) -> FormView {
    if f.help {
        FormView { reader_scroll: reader_place(size, help_reader(f), Footer::Help, colors), ..f }
    } else if f.error is Some {
        FormView { reader_scroll: reader_place(size, error_reader(f), Footer::Error, colors), ..f }
    } else if f.confirm is None && f.editing is Some {
        FormView { editing: Some(edit_fitted(f.editing->0, size)), ..f }
    } else {
        f
    }
}

/// Draws the form.
pub fn draw_form(form: &mut Form, size: Size, colors: bool) -> (r: Vec<Widget>)
    requires
        old(form).wf(),
    ensures
        final(form).wf(),
        final(form)@ == form_drawn(old(form)@, size, colors),
        widget_views(r@) == form_page(old(form)@, size, colors),
{
    let ghost start = form@;
    let mut out: Vec<Widget> = Vec::new();
    assert(widget_views(out@) =~= Seq::empty());
    if form.help {
        let (title, content) = form.help_content();
        let mut scroll = form.reader_scroll;
        draw_help(&mut out, size, title, content.as_str(), &mut scroll, Footer::Help, colors);
        form.reader_scroll = scroll;
        assert(widget_views(out@) =~= form_page(start, size, colors));
        return out;
    }
    if let Some(error) = &form.error {
        let mut reader = Reader::error("Edit", error.as_str());
        reader.scroll = form.reader_scroll;
        assert(reader@ == error_reader(start));
        draw_reader(&mut out, size, &mut reader, Footer::Error, colors);
        form.reader_scroll = reader.scroll;
        assert(widget_views(out@) =~= form_page(start, size, colors));
        return out;
    }
    let detail = if form.dirty() {
        "unsaved changes"
    } else {
        ""
    };
    let mut body = match &form.confirm {
        Some(question) => question_page(question, form.confirm_selected),
        None => {
            if form.editing.is_some() {
                let mut taken: Option<Editing> = None;
                std::mem::swap(&mut taken, &mut form.editing);
                match taken {
                    Some(editing) => {
                        let shown = fit_editing(editing, size);
                        let page = editing_page(&shown);
                        form.editing = Some(shown);
                        page
                    },
                    None => Vec::new(),
                }
            } else {
                field_page(form)
            }
        },
    };
    if let Some(error) = &form.inline_error {
        put_message(&mut body, error.as_str(), size, colors);
    }
    assert(row_views(body@) =~= form_rows(start, size, colors));
    let mut scroll: usize = 0;
    text_page(
        &mut out,
        size,
        "Edit",
        body,
        &mut scroll,
        Footer::Only(Hint { key: "esc", text: "back" }),
        detail,
        Tone::Accent,
        colors,
    );
    assert(widget_views(out@) =~= form_page(start, size, colors));
    out
}

/// The screen around a restart: the question with its answers, or what is going on.
pub open spec fn restart_page(message: Seq<char>, selected: Option<usize>, size: Size, colors: bool) -> Seq<
    WidgetView,
> {
    text_page_of(
        size,
        "Restart"@,
        match selected {
            Some(i) => question_rows(message, seq!["Not now"@, "Restart"@], i as int),
            None => seq![text_row(message, plain_look())],
        },
        0,
        back_footer(),
        ""@,
        Tone::Accent,
        colors,
    )
}

pub fn draw_restart(message: &str, selected: Option<usize>, size: Size, colors: bool) -> (r: Vec<Widget>)
    ensures
        widget_views(r@) == restart_page(message@, selected, size, colors),
{
    let mut out: Vec<Widget> = Vec::new();
    assert(widget_views(out@) =~= Seq::empty());
    let body = match selected {
        Some(i) => two_answers(message, "Not now", "Restart", i),
        None => plain_row(message),
    };
    let mut scroll: usize = 0;
    text_page(
        &mut out,
        size,
        "Restart",
        body,
        &mut scroll,
        Footer::Only(Hint { key: "esc", text: "back" }),
        "",
        Tone::Accent,
        colors,
    );
    assert(widget_views(out@) =~= restart_page(message@, selected, size, colors));
    out
}

} // verus!
