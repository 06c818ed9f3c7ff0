//! How text is cut and wrapped to fit a terminal.
use crate::text::{cat2, chars_of, control, has_at, is_control, same, split, split_at_char, starts_with, string_of, views};
use crate::tui::cells::{grapheme_clusters, graphemes_of, text_width, width_of};
use crate::tui::keys::sat_add;
use vstd::prelude::*;
use vstd::string::{StrSliceExecFns, StringExecFns};

verus! {

/// The text without its control characters.
pub open spec fn printable(s: Seq<char>) -> Seq<char>
    decreases s.len(),
{
    if s.len() == 0 {
        Seq::empty()
    } else {
        let front = printable(s.drop_last());
        if control(s.last()) { front } else { front.push(s.last()) }
    }
}

fn without_controls(s: &str) -> (r: String)
    ensures
        r@ == printable(s@),
{
    let chars = chars_of(s);
    let mut out = String::new();
    let mut i: usize = 0;
    while i < chars.len()
        invariant
            i <= chars@.len(),
            out@ == printable(chars@.take(i as int)),
        decreases chars@.len() - i,
    {
        assert(chars@.take(i + 1).drop_last() =~= chars@.take(i as int));
        if !is_control(chars[i]) {
            out.push(chars[i]);
        }
        i += 1;
    }
    assert(chars@.take(i as int) =~= chars@);
    out
}

/// A part of a text that is not cut, and the columns that it takes.
#[derive(Debug)]
pub struct Cell {
    pub text: String,
    pub width: usize,
}

#[verifier::ext_equal]
pub struct CellView {
    pub text: Seq<char>,
    pub width: nat,
}

impl View for Cell {
    type V = CellView;

    open spec fn view(&self) -> CellView {
        CellView { text: self.text@, width: self.width as nat }
    }
}

pub open spec fn cell_views(cells: Seq<Cell>) -> Seq<CellView> {
    Seq::new(cells.len(), |i: int| cells[i]@)
}

pub open spec fn cell_of(text: Seq<char>) -> CellView {
    CellView { text, width: text_width(text) }
}

/// The cells one behind the other.
pub open spec fn text_of(cells: Seq<CellView>) -> Seq<char>
    decreases cells.len(),
{
    if cells.len() == 0 {
        Seq::empty()
    } else {
        text_of(cells.drop_last()) + cells.last().text
    }
}

/// The clusters of a text.
pub open spec fn measured(s: Seq<char>) -> Seq<CellView> {
    let g = grapheme_clusters(s);
    Seq::new(g.len(), |i: int| cell_of(g[i]))
}

/// How many of the cells from `i` on fit, where `used` columns are taken.
pub open spec fn fitting(cells: Seq<CellView>, i: int, used: nat, width: nat) -> int
    decreases cells.len() - i,
{
    if i < 0 || i >= cells.len() || used + cells[i].width > width {
        i
    } else {
        fitting(cells, i + 1, used + cells[i].width, width)
    }
}

pub open spec fn backwards(cells: Seq<CellView>) -> Seq<CellView> {
    Seq::new(cells.len(), |i: int| cells[cells.len() - 1 - i])
}

pub open spec fn ellipsis() -> Seq<char> {
    "…"@
}

/// A text that takes `whole` columns, cut to `width` columns between cells. Where something is left
/// out an ellipsis stands for it, in front where the tail is kept and else behind.
pub open spec fn cut(clean: Seq<char>, whole: nat, cells: Seq<CellView>, width: nat, tail: bool) -> Seq<char> {
    if whole <= width {
        clean
    } else if width == 0 {
        Seq::empty()
    } else if tail {
        ellipsis() + text_of(cells.skip(cells.len() - fitting(backwards(cells), 0, 1, width)))
    } else {
        text_of(cells.take(fitting(cells, 0, 1, width))) + ellipsis()
    }
}

/// The text without control characters, cut to `width` columns between clusters.
pub open spec fn clipped(text: Seq<char>, width: nat, tail: bool) -> Seq<char> {
    let clean = printable(text);
    cut(clean, text_width(clean), measured(clean), width, tail)
}

pub open spec fn total_width(cells: Seq<CellView>) -> nat
    decreases cells.len(),
{
    if cells.len() == 0 {
        0
    } else {
        total_width(cells.drop_last()) + cells.last().width
    }
}

proof fn lemma_fitting(cells: Seq<CellView>, i: int, used: nat, width: nat)
    requires
        0 <= i <= cells.len(),
        used <= width,
        used == 1 + total_width(cells.take(i)),
    ensures
        i <= fitting(cells, i, used, width) <= cells.len(),
        1 + total_width(cells.take(fitting(cells, i, used, width))) <= width,
    decreases cells.len() - i,
{
    if i < cells.len() && used + cells[i].width <= width {
        assert(cells.take(i + 1).drop_last() =~= cells.take(i));
        lemma_fitting(cells, i + 1, used + cells[i].width, width);
    }
}

/// Of a text that is cut, the cells that are kept and the ellipsis together take no more than the
/// columns that there are, whichever end is kept.
pub proof fn law_clipping_fits(cells: Seq<CellView>, width: nat)
    requires
        width > 0,
    ensures
        1 + total_width(cells.take(fitting(cells, 0, 1, width))) <= width,
        1 + total_width(backwards(cells).take(fitting(backwards(cells), 0, 1, width))) <= width,
{
    assert(cells.take(0) =~= Seq::empty());
    lemma_fitting(cells, 0, 1, width);
    assert(backwards(cells).take(0) =~= Seq::empty());
    lemma_fitting(backwards(cells), 0, 1, width);
}

/// The clusters of a text with their columns.
fn measure(s: &str) -> (r: Vec<Cell>)
    ensures
        cell_views(r@) == measured(s@),
{
    let g = graphemes_of(s);
    let mut out: Vec<Cell> = Vec::new();
    let mut i: usize = 0;
    while i < g.len()
        invariant
            i == out@.len() <= g@.len(),
            views(g@) == grapheme_clusters(s@),
            forall|k: int| 0 <= k < i ==> (#[trigger] out@[k])@ == cell_of(views(g@)[k]),
        decreases g@.len() - i,
    {
        let width = width_of(g[i].as_str());
        out.push(Cell { text: g[i].clone(), width });
        i += 1;
    }
    assert(cell_views(out@) =~= measured(s@));
    out
}

/// The cells from `from` to `to`, one behind the other.
fn joined_cells(cells: &Vec<Cell>, from: usize, to: usize) -> (r: String)
    requires
        from <= to <= cells@.len(),
    ensures
        r@ == text_of(cell_views(cells@).subrange(from as int, to as int)),
{
    let ghost all = cell_views(cells@);
    let mut out = String::new();
    let mut i: usize = from;
    assert(all.subrange(from as int, from as int) =~= Seq::<CellView>::empty());
    assert(out@ =~= Seq::<char>::empty());
    while i < to
        invariant
            from <= i <= to <= cells@.len(),
            all == cell_views(cells@),
            out@ == text_of(all.subrange(from as int, i as int)),
        decreases to - i,
    {
        assert(all.subrange(from as int, i + 1).drop_last() =~= all.subrange(from as int, i as int));
        assert(all.subrange(from as int, i + 1).last() == cells@[i as int]@);
        out.append(cells[i].text.as_str());
        i += 1;
    }
    out
}

fn fit_count(cells: &Vec<Cell>, width: usize, tail: bool) -> (r: usize)
    requires
        width > 0,
    ensures
        r == fitting(
            if tail { backwards(cell_views(cells@)) } else { cell_views(cells@) },
            0,
            1,
            width as nat,
        ),
        r <= cells@.len(),
{
    let ghost order = if tail { backwards(cell_views(cells@)) } else { cell_views(cells@) };
    let mut used: usize = 1;
    let mut i: usize = 0;
    while i < cells.len()
        invariant
            i <= cells@.len(),
            1 <= used <= width,
            order == (if tail { backwards(cell_views(cells@)) } else { cell_views(cells@) }),
            fitting(order, 0, 1, width as nat) == fitting(order, i as int, used as nat, width as nat),
        decreases cells@.len() - i,
    {
        let k: usize = if tail { cells.len() - 1 - i } else { i };
        let columns = cells[k].width;
        assert(order[i as int] == cells@[k as int]@);
        if columns > width - used {
            return i;
        }
        used += columns;
        i += 1;
    }
    i
}

/// Cuts a text that takes `whole` columns and is made of these cells.
pub fn clip_cells(clean: String, whole: usize, cells: &Vec<Cell>, width: usize, tail: bool) -> (r: String)
    ensures
        r@ == cut(clean@, whole as nat, cell_views(cells@), width as nat, tail),
{
    if whole <= width {
        return clean;
    }
    if width == 0 {
        let nothing = String::new();
        assert(nothing@ =~= Seq::<char>::empty());
        return nothing;
    }
    let ghost all = cell_views(cells@);
    let n = fit_count(cells, width, tail);
    if tail {
        let kept = joined_cells(cells, cells.len() - n, cells.len());
        assert(all.subrange(all.len() - n, all.len() as int) =~= all.skip(all.len() - n));
        cat2("…", kept.as_str())
    } else {
        let kept = joined_cells(cells, 0, n);
        assert(all.subrange(0, n as int) =~= all.take(n as int));
        cat2(kept.as_str(), "…")
    }
}

/// Cuts a text to so many columns. Whole clusters are kept, combining marks included.
pub fn clip(text: &str, width: usize, tail: bool) -> (r: String)
    ensures
        r@ == clipped(text@, width as nat, tail),
{
    let clean = without_controls(text);
    let whole = width_of(clean.as_str());
    let cells = measure(clean.as_str());
    clip_cells(clean, whole, &cells, width, tail)
}

/// What is shown for a cluster: four spaces for a tab.
pub open spec fn shown_part(part: Seq<char>) -> Seq<char> {
    if part == "\t"@ { "    "@ } else { part }
}

/// What is shown for the clusters of a text.
pub open spec fn shown_cells(s: Seq<char>) -> Seq<CellView> {
    let g = grapheme_clusters(s);
    Seq::new(g.len(), |i: int| cell_of(shown_part(g[i])))
}

pub open spec fn has_control(s: Seq<char>) -> bool {
    exists|i: int| 0 <= i < s.len() && #[trigger] control(s[i])
}

/// The cells from `i` on, in rows of `width` columns, where `line` has been begun and takes `used`
/// columns. Cells with control characters are left out.
pub open spec fn wrap_cells(
    cells: Seq<CellView>,
    i: int,
    line: Seq<char>,
    used: usize,
    width: usize,
) -> Seq<Seq<char>>
    decreases cells.len() - i,
{
    if i < 0 || i >= cells.len() {
        seq![line]
    } else {
        let part = cells[i].text;
        let columns = cells[i].width;
        if has_control(part) {
            wrap_cells(cells, i + 1, line, used, width)
        } else if used + columns > width && line.len() > 0 {
            seq![line] + wrap_cells(cells, i + 1, part, sat_add(0, columns as int), width)
        } else {
            wrap_cells(cells, i + 1, line + part, sat_add(used, columns as int), width)
        }
    }
}

pub open spec fn wrap_sources(sources: Seq<Seq<char>>, width: usize) -> Seq<Seq<char>>
    decreases sources.len(),
{
    if sources.len() == 0 {
        Seq::empty()
    } else {
        wrap_sources(sources.drop_last(), width) + source_rows(sources.last(), width)
    }
}

/// The rows of one line of a text.
pub open spec fn source_rows(source: Seq<char>, width: usize) -> Seq<Seq<char>> {
    wrap_cells(shown_cells(source), 0, Seq::empty(), 0, width)
}

pub open spec fn one_at_least(n: usize) -> usize {
    if n == 0 { 1 } else { n }
}

/// The rows of a text in so many columns.
pub open spec fn wrapped_rows(text: Seq<char>, width: usize) -> Seq<Seq<char>> {
    wrap_sources(split(text, '\n'), one_at_least(width))
}

/// What the cells from `i` on show.
pub open spec fn shown_parts(cells: Seq<CellView>, i: int) -> Seq<char>
    decreases cells.len() - i,
{
    if i < 0 || i >= cells.len() {
        Seq::empty()
    } else if has_control(cells[i].text) {
        shown_parts(cells, i + 1)
    } else {
        cells[i].text + shown_parts(cells, i + 1)
    }
}

proof fn lemma_flatten_front(x: Seq<char>, rest: Seq<Seq<char>>)
    ensures
        (seq![x] + rest).flatten() == x + rest.flatten(),
{
    assert((seq![x] + rest).drop_first() =~= rest);
}

/// Wrapping loses nothing that can be shown and adds nothing: the rows of a line, one behind the
/// other, are what its cells show.
pub proof fn law_wrapping_keeps_the_text(
    cells: Seq<CellView>,
    i: int,
    line: Seq<char>,
    used: usize,
    width: usize,
)
    requires
        0 <= i <= cells.len(),
    ensures
        wrap_cells(cells, i, line, used, width).flatten() == line + shown_parts(cells, i),
    decreases cells.len() - i,
{
    if i == cells.len() {
        assert(seq![line].flatten() =~= line) by {
            lemma_flatten_front(line, Seq::empty());
            assert(seq![line] + Seq::<Seq<char>>::empty() =~= seq![line]);
            assert(Seq::<Seq<char>>::empty().flatten() =~= Seq::<char>::empty());
        }
        assert(line + shown_parts(cells, i) =~= line);
    } else {
        let part = cells[i].text;
        let columns = cells[i].width;
        if has_control(part) {
            law_wrapping_keeps_the_text(cells, i + 1, line, used, width);
        } else if used + columns > width && line.len() > 0 {
            law_wrapping_keeps_the_text(cells, i + 1, part, sat_add(0, columns as int), width);
            lemma_flatten_front(
                line,
                wrap_cells(cells, i + 1, part, sat_add(0, columns as int), width),
            );
        } else {
            law_wrapping_keeps_the_text(cells, i + 1, line + part, sat_add(used, columns as int), width);
            assert((line + part) + shown_parts(cells, i + 1) =~= line + (part + shown_parts(cells, i + 1)));
        }
    }
}

/// `rows` are the cells up to each of `ends` in turn, and each row fits into `width` columns or is
/// a single cell.
pub open spec fn rows_fit(rows: Seq<Seq<char>>, cells: Seq<CellView>, ends: Seq<int>, width: nat) -> bool {
    &&& ends.len() == rows.len()
    &&& rows.len() > 0
    &&& ends.last() == cells.len()
    &&& forall|k: int| 0 <= k < rows.len() ==> row_fits(#[trigger] rows[k], cells, row_start(ends, k), ends[k], width)
}

pub open spec fn row_start(ends: Seq<int>, k: int) -> int {
    if k == 0 { 0 } else { ends[k - 1] }
}

pub open spec fn row_fits(row: Seq<char>, cells: Seq<CellView>, from: int, to: int, width: nat) -> bool {
    &&& 0 <= from <= to <= cells.len()
    &&& row == text_of(cells.subrange(from, to))
    &&& total_width(cells.subrange(from, to)) <= width || to == from + 1
}

/// Cells that wrapping neither drops nor loses track of.
pub open spec fn sound_cells(cells: Seq<CellView>) -> bool {
    forall|i: int|
        0 <= i < cells.len() ==> {
            let c = #[trigger] cells[i];
            c.text.len() > 0 && c.width <= usize::MAX && !has_control(c.text)
        }
}

proof fn lemma_row_grows(cells: Seq<CellView>, from: int, i: int)
    requires
        0 <= from <= i < cells.len(),
    ensures
        text_of(cells.subrange(from, i + 1)) == text_of(cells.subrange(from, i)) + cells[i].text,
        total_width(cells.subrange(from, i + 1)) == total_width(cells.subrange(from, i)) + cells[i].width,
{
    assert(cells.subrange(from, i + 1).drop_last() =~= cells.subrange(from, i));
}

/// The rows that are made of the cells from `from` on, of which those before `i` are in the row
/// that has been begun.
proof fn lemma_rows_from(cells: Seq<CellView>, i: int, from: int, used: usize, width: usize) -> (ends: Seq<int>)
    requires
        sound_cells(cells),
        0 <= from <= i <= cells.len(),
        used == total_width(cells.subrange(from, i)),
        used <= width || i == from + 1,
        width > 0,
    ensures
        ({
            let rows = wrap_cells(cells, i, text_of(cells.subrange(from, i)), used, width);
            &&& ends.len() == rows.len()
            &&& rows.len() > 0
            &&& ends.last() == cells.len()
            &&& forall|k: int|
                0 <= k < rows.len() ==> row_fits(
                    #[trigger] rows[k],
                    cells,
                    if k == 0 { from } else { ends[k - 1] },
                    ends[k],
                    width as nat,
                )
        }),
    decreases cells.len() - i,
{
    let line = text_of(cells.subrange(from, i));
    let rows = wrap_cells(cells, i, line, used, width);
    if i == cells.len() {
        assert(rows =~= seq![line]);
        seq![i]
    } else {
        let columns = cells[i].width;
        lemma_row_grows(cells, from, i);
        if i > from {
            lemma_row_grows(cells, from, i - 1);
            assert(line.len() > 0);
        } else {
            assert(cells.subrange(from, i) =~= Seq::<CellView>::empty());
            assert(line.len() == 0 && used == 0);
        }
        if used + columns > width && line.len() > 0 {
            lemma_row_grows(cells, i, i);
            assert(cells.subrange(i, i) =~= Seq::<CellView>::empty());
            assert(text_of(cells.subrange(i, i + 1)) =~= cells[i].text);
            let rest = lemma_rows_from(cells, i + 1, i, columns as usize, width);
            let tail = wrap_cells(cells, i + 1, cells[i].text, columns as usize, width);
            let ends = seq![i] + rest;
            assert(rows =~= seq![line] + tail);
            assert forall|k: int| 0 <= k < rows.len() implies row_fits(
                #[trigger] rows[k],
                cells,
                if k == 0 { from } else { ends[k - 1] },
                ends[k],
                width as nat,
            ) by {
                if k > 0 {
                    assert(rows[k] == tail[k - 1]);
                    assert(row_fits(
                        tail[k - 1],
                        cells,
                        if k == 1 { i } else { rest[k - 2] },
                        rest[k - 1],
                        width as nat,
                    ));
                }
            }
            ends
        } else {
            lemma_rows_from(cells, i + 1, from, (used + columns) as usize, width)
        }
    }
}

/// A line without control characters is wrapped into at least one row: one behind the other its
/// rows are the line, and each of them fits or is a single cluster.
pub open spec fn wraps_whole(source: Seq<char>, width: usize) -> bool {
    let rows = source_rows(source, width);
    !has_control(source) ==> {
        &&& rows.flatten() == source
        &&& exists|ends: Seq<int>| rows_fit(rows, shown_cells(source), ends, width as nat)
    }
}

proof fn lemma_shown_is_flat(s: Seq<char>, i: int)
    requires
        0 <= i <= grapheme_clusters(s).len(),
        forall|k: int|
            0 <= k < grapheme_clusters(s).len() ==> !has_control(#[trigger] grapheme_clusters(s)[k]),
    ensures
        shown_parts(shown_cells(s), i) == grapheme_clusters(s).skip(i).flatten(),
    decreases grapheme_clusters(s).len() - i,
{
    let g = grapheme_clusters(s);
    if i < g.len() {
        lemma_shown_is_flat(s, i + 1);
        lemma_tab_is_control();
        assert(!has_control(g[i]));
        assert(shown_part(g[i]) == g[i]);
        assert(g.skip(i) =~= seq![g[i]] + g.skip(i + 1));
        lemma_flatten_front(g[i], g.skip(i + 1));
    } else {
        assert(g.skip(i) =~= Seq::<Seq<char>>::empty());
        assert(g.skip(i).flatten() =~= Seq::<char>::empty());
    }
}

proof fn lemma_tab_is_control()
    ensures
        has_control("\t"@),
{
    reveal_strlit("\t");
    assert(control("\t"@[0]));
}

/// What a piece holds, the whole holds.
proof fn lemma_flatten_holds(g: Seq<Seq<char>>, k: int, c: char)
    requires
        0 <= k < g.len(),
        g[k].contains(c),
    ensures
        g.flatten().contains(c),
    decreases g.len(),
{
    let rest = g.drop_first();
    assert(g.flatten() == g.first() + rest.flatten());
    if k == 0 {
        let i = g[0].index_of(c);
        assert(g.flatten()[i] == c);
    } else {
        assert(rest[k - 1] == g[k]);
        lemma_flatten_holds(rest, k - 1, c);
        let i = rest.flatten().index_of(c);
        assert(g.flatten()[g.first().len() + i] == c);
    }
}

proof fn lemma_wraps_whole(s: Seq<char>, width: usize)
    requires
        width > 0,
        grapheme_clusters(s).flatten() == s,
        forall|i: int| 0 <= i < grapheme_clusters(s).len() ==> (#[trigger] grapheme_clusters(s)[i]).len() > 0,
        forall|i: int| 0 <= i < shown_cells(s).len() ==> (#[trigger] shown_cells(s)[i]).width <= usize::MAX,
    ensures
        wraps_whole(s, width),
{
    let g = grapheme_clusters(s);
    let cells = shown_cells(s);
    if !has_control(s) {
        assert forall|k: int| 0 <= k < g.len() implies !has_control(#[trigger] g[k]) by {
            if has_control(g[k]) {
                let i = choose|i: int| 0 <= i < g[k].len() && #[trigger] control(g[k][i]);
                assert(g[k].contains(g[k][i]));
                lemma_flatten_holds(g, k, g[k][i]);
                let j = s.index_of(g[k][i]);
                assert(control(s[j]));
            }
        }
        lemma_tab_is_control();
        assert forall|i: int| 0 <= i < cells.len() implies {
            let c = #[trigger] cells[i];
            c.text.len() > 0 && c.width <= usize::MAX && !has_control(c.text)
        } by {
            assert(!has_control(g[i]));
            assert(cells[i].text == g[i]);
        }
        law_wrapping_keeps_the_text(cells, 0, Seq::empty(), 0, width);
        lemma_shown_is_flat(s, 0);
        assert(g.skip(0) =~= g);
        assert(Seq::<char>::empty() + shown_parts(cells, 0) =~= s);
        assert(cells.subrange(0, 0) =~= Seq::<CellView>::empty());
        let ends = lemma_rows_from(cells, 0, 0, 0, width);
        assert(text_of(cells.subrange(0, 0)) =~= Seq::<char>::empty());
        let rows = source_rows(s, width);
        assert forall|k: int| 0 <= k < rows.len() implies row_fits(
            #[trigger] rows[k],
            cells,
            row_start(ends, k),
            ends[k],
            width as nat,
        ) by {}
        assert(rows_fit(rows, cells, ends, width as nat));
    }
}

fn contains_control(s: &str) -> (r: bool)
    ensures
        r == has_control(s@),
{
    let chars = chars_of(s);
    let mut i: usize = 0;
    while i < chars.len()
        invariant
            i <= chars@.len(),
            chars@ == s@,
            forall|k: int| 0 <= k < i ==> !#[trigger] control(chars@[k]),
        decreases chars@.len() - i,
    {
        if is_control(chars[i]) {
            assert(control(chars@[i as int]));
            return true;
        }
        i += 1;
    }
    false
}

/// The clusters of a line as they are shown, with their columns.
fn measure_shown(s: &str) -> (r: Vec<Cell>)
    ensures
        cell_views(r@) == shown_cells(s@),
        forall|width: usize| width > 0 ==> #[trigger] wraps_whole(s@, width),
{
    let g = graphemes_of(s);
    let mut out: Vec<Cell> = Vec::new();
    let mut i: usize = 0;
    while i < g.len()
        invariant
            i == out@.len() <= g@.len(),
            views(g@) == grapheme_clusters(s@),
            views(g@).flatten() == s@,
            forall|k: int| 0 <= k < g@.len() ==> (#[trigger] views(g@)[k]).len() > 0,
            forall|k: int| 0 <= k < i ==> (#[trigger] out@[k])@ == cell_of(shown_part(views(g@)[k])),
        decreases g@.len() - i,
    {
        let text = if same(g[i].as_str(), "\t") { "    ".to_owned() } else { g[i].clone() };
        let width = width_of(text.as_str());
        out.push(Cell { text, width });
        i += 1;
    }
    proof {
        assert(cell_views(out@) =~= shown_cells(s@));
        assert forall|i: int| 0 <= i < shown_cells(s@).len() implies (#[trigger] shown_cells(s@)[i]).width
            <= usize::MAX by {
            assert(cell_views(out@)[i] == out@[i]@);
        }
        assert forall|width: usize| width > 0 implies #[trigger] wraps_whole(s@, width) by {
            lemma_wraps_whole(s@, width);
        }
    }
    out
}

/// Puts the rows of one line behind those that there are.
pub fn wrap_line(cells: &Vec<Cell>, width: usize, out: &mut Vec<String>)
    ensures
        views(final(out)@) == views(old(out)@) + wrap_cells(
            cell_views(cells@),
            0,
            Seq::empty(),
            0,
            width,
        ),
{
    let ghost line_cells = cell_views(cells@);
    let ghost all = wrap_cells(line_cells, 0, Seq::empty(), 0, width);
    let mut line = String::new();
    let mut used: usize = 0;
    let mut i: usize = 0;
    assert(line@ =~= Seq::<char>::empty());
    while i < cells.len()
        invariant
            i <= cells@.len(),
            line_cells == cell_views(cells@),
            all == wrap_cells(line_cells, 0, Seq::empty(), 0, width),
            views(old(out)@) + all == views(out@) + wrap_cells(
                line_cells,
                i as int,
                line@,
                used,
                width,
            ),
        decreases cells@.len() - i,
    {
        let part = cells[i].text.as_str();
        let columns = cells[i].width;
        assert(line_cells[i as int] == cells@[i as int]@);
        if !contains_control(part) {
            if line.as_str().unicode_len() > 0 && (used > width || columns > width - used) {
                let ghost before = out@;
                let ghost rest = wrap_cells(
                    line_cells,
                    i + 1,
                    part@,
                    sat_add(0, columns as int),
                    width,
                );
                out.push(line);
                proof {
                    assert(views(out@) =~= views(before).push(line@));
                    assert(views(before) + (seq![line@] + rest) =~= views(before).push(line@) + rest);
                }
                line = part.to_owned();
                used = columns;
            } else {
                line.append(part);
                used = used.saturating_add(columns);
            }
        }
        i += 1;
    }
    let ghost before = out@;
    out.push(line);
    proof {
        assert(views(out@) =~= views(before) + seq![line@]);
    }
}

/// The rows of a text in so many columns, those of each line behind those of the line before it.
pub fn wrapped(text: &str, width: usize) -> (r: Vec<String>)
    ensures
        views(r@) == wrapped_rows(text@, width),
        forall|i: int|
            0 <= i < split(text@, '\n').len() ==> wraps_whole(
                #[trigger] split(text@, '\n')[i],
                one_at_least(width),
            ),
{
    let width: usize = if width == 0 { 1 } else { width };
    let sources = split_at_char(text, '\n');
    let mut out: Vec<String> = Vec::new();
    let mut i: usize = 0;
    assert(views(out@) =~= wrap_sources(views(sources@).take(0), width));
    while i < sources.len()
        invariant
            i <= sources@.len(),
            width > 0,
            views(out@) == wrap_sources(views(sources@).take(i as int), width),
            forall|k: int| 0 <= k < i ==> wraps_whole(#[trigger] views(sources@)[k], width),
        decreases sources@.len() - i,
    {
        let cells = measure_shown(sources[i].as_str());
        wrap_line(&cells, width, &mut out);
        assert(wraps_whole(views(sources@)[i as int], width));
        assert(views(sources@).take(i + 1).drop_last() =~= views(sources@).take(i as int));
        i += 1;
    }
    assert(views(sources@).take(i as int) =~= views(sources@));
    out
}

/// `n` spaces.
pub open spec fn blanks(n: nat) -> Seq<char> {
    Seq::new(n, |i: int| ' ')
}

pub fn spaces(n: usize) -> (r: String)
    ensures
        r@ == blanks(n as nat),
{
    let mut out = String::new();
    let mut i: usize = 0;
    while i < n
        invariant
            i <= n,
            out@ == blanks(i as nat),
        decreases n - i,
    {
        out.push(' ');
        i += 1;
        assert(out@ =~= blanks(i as nat));
    }
    out
}

/// The text with spaces behind it up to `n` characters.
pub open spec fn padded(s: Seq<char>, n: nat) -> Seq<char> {
    if s.len() >= n { s } else { s + blanks((n - s.len()) as nat) }
}

pub fn pad_right(s: &str, n: usize) -> (r: String)
    ensures
        r@ == padded(s@, n as nat),
{
    let len: usize = chars_of(s).len();
    let fill: usize = if len >= n { 0 } else { n - len };
    let blank = spaces(fill);
    assert(s@ + blanks(0) =~= s@);
    cat2(s, blank.as_str())
}

/// A line without the carriage return that ends it.
pub open spec fn chomped(s: Seq<char>) -> Seq<char> {
    if s.len() > 0 && s.last() == '\r' { s.drop_last() } else { s }
}

/// The lines of a text: what line feeds part, without what ends a line, and without a last line
/// that is empty.
pub open spec fn lines_of(s: Seq<char>) -> Seq<Seq<char>> {
    let parts = split(s, '\n');
    if parts.last().len() == 0 {
        ended(parts.drop_last())
    } else {
        ended(parts.drop_last()).push(parts.last())
    }
}

pub open spec fn ended(parts: Seq<Seq<char>>) -> Seq<Seq<char>> {
    Seq::new(parts.len(), |i: int| chomped(parts[i]))
}

pub fn text_lines(s: &str) -> (r: Vec<String>)
    ensures
        views(r@) == lines_of(s@),
{
    let parts = split_at_char(s, '\n');
    proof {
        crate::text::lemma_split_nonempty(s@, '\n');
    }
    let last: usize = parts.len() - 1;
    let mut out: Vec<String> = Vec::new();
    let mut i: usize = 0;
    while i < last
        invariant
            last == parts@.len() - 1,
            i <= last,
            views(out@) == ended(views(parts@).take(i as int)),
        decreases last - i,
    {
        let chars = chars_of(parts[i].as_str());
        let n: usize = chars.len();
        let line = if n > 0 && chars[n - 1] == '\r' {
            string_of(&chars, 0, n - 1)
        } else {
            string_of(&chars, 0, n)
        };
        proof {
            assert(line@ =~= chomped(parts@[i as int]@));
        }
        let ghost before = out@;
        out.push(line);
        proof {
            let here = views(parts@).take(i as int);
            assert(views(out@) =~= views(before).push(line@));
            assert(views(parts@).take(i + 1) =~= here.push(parts@[i as int]@));
            assert(ended(here.push(parts@[i as int]@)) =~= ended(here).push(line@));
        }
        i += 1;
    }
    assert(views(parts@).take(last as int) =~= views(parts@).drop_last());
    if chars_of(parts[last].as_str()).len() > 0 {
        let ghost before = out@;
        out.push(parts[last].clone());
        assert(views(out@) =~= views(before).push(views(parts@).last()));
    }
    out
}

/// Where two spaces first stand side by side.
pub open spec fn gap_at(s: Seq<char>, i: int) -> Option<int>
    decreases s.len() - i,
{
    if i < 0 || i + 1 >= s.len() {
        None
    } else if s[i] == ' ' && s[i + 1] == ' ' {
        Some(i)
    } else {
        gap_at(s, i + 1)
    }
}

/// What stands before and behind the first two spaces.
pub open spec fn parted(s: Seq<char>) -> Option<(Seq<char>, Seq<char>)> {
    match gap_at(s, 0) {
        Some(i) => Some((s.take(i), s.skip(i + 2))),
        None => None,
    }
}

pub fn part_at_gap(s: &str) -> (r: Option<(String, String)>)
    ensures
        match parted(s@) {
            Some(p) => r is Some && (r->0).0@ == p.0 && (r->0).1@ == p.1,
            None => r is None,
        },
{
    let chars = chars_of(s);
    let n: usize = chars.len();
    let mut i: usize = 0;
    while i < n && n - i > 1
        invariant
            n == chars@.len(),
            chars@ == s@,
            i <= n,
            gap_at(s@, 0) == gap_at(s@, i as int),
        decreases n - i,
    {
        if chars[i] == ' ' && chars[i + 1] == ' ' {
            let key = string_of(&chars, 0, i);
            let rest = string_of(&chars, i + 2, n);
            proof {
                assert(key@ =~= s@.take(i as int));
                assert(rest@ =~= s@.skip(i + 2));
            }
            return Some((key, rest));
        }
        i += 1;
    }
    None
}

/// A path as it is shown: what lies in the home directory begins with a tilde.
pub open spec fn shown_path(directory: Seq<char>, home: Option<Seq<char>>) -> Seq<char> {
    match home {
        Some(h) => if directory == h {
            "~"@
        } else if starts_with(directory, h + "/"@) {
            "~/"@ + directory.skip((h + "/"@).len() as int)
        } else {
            directory
        },
        None => directory,
    }
}

pub fn display_path(directory: &str, home: Option<&str>) -> (r: String)
    ensures
        r@ == shown_path(directory@, match home {
            Some(h) => Some(h@),
            None => None,
        }),
{
    match home {
        Some(home) => {
            if same(directory, home) {
                return "~".to_owned();
            }
            let prefix = cat2(home, "/");
            let d = chars_of(directory);
            let p = chars_of(prefix.as_str());
            assert(d@.skip(0) =~= d@);
            if has_at(&d, 0, &p) {
                let rest = string_of(&d, p.len(), d.len());
                assert(rest@ =~= directory@.skip(p@.len() as int));
                return cat2("~/", rest.as_str());
            }
            directory.to_owned()
        },
        None => directory.to_owned(),
    }
}

/// The place in a text, counted from one, and how many lines it has.
pub open spec fn position_of(scroll: u64, total: u64) -> (u64, u64) {
    if total == 0 {
        (0, 0)
    } else if scroll >= total {
        (total, total)
    } else {
        ((scroll + 1) as u64, total)
    }
}

pub fn history_position(scroll: u64, total_lines: u64) -> (r: (u64, u64))
    ensures
        r == position_of(scroll, total_lines),
{
    if total_lines == 0 {
        (0, 0)
    } else {
        let last: u64 = total_lines - 1;
        let at: u64 = if scroll < last { scroll } else { last };
        (at + 1, total_lines)
    }
}

} // verus!
