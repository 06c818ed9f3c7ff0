//! A text that is being typed: a cursor, visual rows, and what can be undone.
use crate::text::{chars_of, string_of};
use crate::tui::cells::{char_cells, text_width};
use vstd::prelude::*;

verus! {

/// How many changes can be taken back.
pub const HISTORY: usize = 32;

#[derive(Debug)]
pub struct Snapshot {
    pub text: String,
    pub cursor: usize,
}

/// A text with a cursor before one of its characters or behind the last one.
#[derive(Debug)]
pub struct Buffer {
    pub text: String,
    pub cursor: usize,
    pub viewport_width: usize,
    pub viewport_height: usize,
    pub undo: Vec<Snapshot>,
    pub redo: Vec<Snapshot>,
}

pub type SnapshotView = (Seq<char>, int);

#[verifier::ext_equal]
pub struct BufferView {
    pub text: Seq<char>,
    pub cursor: int,
    pub width: int,
    pub height: int,
    pub undo: Seq<SnapshotView>,
    pub redo: Seq<SnapshotView>,
}

pub open spec fn snapshot_views(s: Seq<Snapshot>) -> Seq<SnapshotView> {
    Seq::new(s.len(), |i: int| (s[i].text@, s[i].cursor as int))
}

impl View for Buffer {
    type V = BufferView;

    open spec fn view(&self) -> BufferView {
        BufferView {
            text: self.text@,
            cursor: self.cursor as int,
            width: self.viewport_width as int,
            height: self.viewport_height as int,
            undo: snapshot_views(self.undo@),
            redo: snapshot_views(self.redo@),
        }
    }
}

// ---------------------------------------------------------------------------------------------
// Visual rows

/// Where the row that begins at `from` ends: at a line feed, at the end, or where the next
/// character has no room. `w` are the columns that the characters take, and `used` columns of the
/// row before `at` are taken.
pub open spec fn row_end(s: Seq<char>, w: Seq<nat>, width: int, from: int, at: int, used: int) -> int
    decreases s.len() - at,
{
    if at < 0 || at >= s.len() || s[at] == '\n' {
        at
    } else if at > from && used + w[at] > width {
        at
    } else {
        row_end(s, w, width, from, at + 1, used + w[at])
    }
}

/// The rows from `from` on, each with its start and its end.
pub open spec fn rows_from(s: Seq<char>, w: Seq<nat>, width: int, from: int) -> Seq<(int, int)>
    decreases s.len() - from,
{
    let e = row_end(s, w, width, from, from, 0);
    if e < from || e >= s.len() {
        seq![(from, e)]
    } else if s[e] == '\n' {
        seq![(from, e)] + rows_from(s, w, width, e + 1)
    } else if e <= from {
        seq![(from, e)]
    } else {
        seq![(from, e)] + rows_from(s, w, width, e)
    }
}

pub open spec fn cell_width(width: int) -> int {
    if width < 1 { 1 } else { width }
}

/// How many columns each character takes by itself.
pub open spec fn widths_of(s: Seq<char>) -> Seq<nat> {
    Seq::new(s.len(), |i: int| text_width(seq![s[i]]))
}

pub open spec fn rows(s: Seq<char>, width: int) -> Seq<(int, int)> {
    rows_from(s, widths_of(s), cell_width(width), 0)
}

/// The row that holds the cursor: the last one that does not begin behind it.
pub open spec fn row_of(rows: Seq<(int, int)>, cursor: int) -> int
    decreases rows.len(),
{
    if rows.len() <= 1 {
        0
    } else if rows.last().0 <= cursor {
        rows.len() - 1
    } else {
        row_of(rows.drop_last(), cursor)
    }
}

proof fn lemma_row_end(s: Seq<char>, w: Seq<nat>, width: int, from: int, at: int, used: int)
    requires
        0 <= from <= at <= s.len(),
    ensures
        at <= row_end(s, w, width, from, at, used) <= s.len(),
        at == from && at < s.len() && s[at] != '\n' ==> row_end(s, w, width, from, at, used) > from,
    decreases s.len() - at,
{
    if at < s.len() && s[at] != '\n' && !(at > from && used + w[at] > width) {
        lemma_row_end(s, w, width, from, at + 1, used + w[at]);
    }
}

/// Rows stay inside the text and there is at least one.
pub proof fn lemma_rows(s: Seq<char>, w: Seq<nat>, width: int, from: int)
    requires
        0 <= from <= s.len(),
    ensures
        rows_from(s, w, width, from).len() >= 1,
        rows_from(s, w, width, from)[0].0 == from,
        forall|i: int|
            0 <= i < rows_from(s, w, width, from).len() ==> from <= (#[trigger] rows_from(s, w, width, from)[i]).0
                <= rows_from(s, w, width, from)[i].1 <= s.len(),
    decreases s.len() - from,
{
    lemma_row_end(s, w, width, from, from, 0);
    let e = row_end(s, w, width, from, from, 0);
    if e < s.len() {
        let next = if s[e] == '\n' { e + 1 } else { e };
        if next > from {
            lemma_rows(s, w, width, next);
            let rest = rows_from(s, w, width, next);
            let all = rows_from(s, w, width, from);
            if s[e] == '\n' || e > from {
                assert(all == seq![(from, e)] + rest);
                assert forall|i: int| 0 <= i < all.len() implies from <= (#[trigger] all[i]).0 <= all[i].1
                    <= s.len() by {
                    if i > 0 {
                        assert(all[i] == rest[i - 1]);
                    }
                }
            }
        }
    }
}

proof fn lemma_row_of(rows: Seq<(int, int)>, cursor: int)
    requires
        rows.len() >= 1,
    ensures
        0 <= row_of(rows, cursor) < rows.len(),
    decreases rows.len(),
{
    if rows.len() > 1 && rows.last().0 > cursor {
        lemma_row_of(rows.drop_last(), cursor);
    }
}

/// The rows of a text and the one that holds the cursor.
pub struct TextLayout {
    pub lines: Vec<(usize, usize)>,
    pub row: usize,
}

pub open spec fn line_views(v: Seq<(usize, usize)>) -> Seq<(int, int)> {
    Seq::new(v.len(), |i: int| (v[i].0 as int, v[i].1 as int))
}

// ---------------------------------------------------------------------------------------------
// Changes

pub open spec fn fresh(text: Seq<char>) -> BufferView {
    BufferView { text, cursor: 0, width: 80, height: 1, undo: Seq::empty(), redo: Seq::empty() }
}

pub open spec fn newest(s: Seq<SnapshotView>, x: SnapshotView) -> Seq<SnapshotView> {
    let t = s.push(x);
    if t.len() > HISTORY { t.skip(1) } else { t }
}

/// A change of the text, which can be taken back.
pub open spec fn changed(b: BufferView, text: Seq<char>, cursor: int) -> BufferView {
    BufferView {
        text,
        cursor,
        undo: newest(b.undo, (b.text, b.cursor)),
        redo: Seq::empty(),
        ..b
    }
}

/// `t` put in before the cursor, which ends up behind it. A text longer than memory can address is
/// left as it is.
pub open spec fn inserted(b: BufferView, t: Seq<char>) -> BufferView {
    if t.len() == 0 || b.text.len() + t.len() > usize::MAX {
        b
    } else {
        changed(
            b,
            b.text.subrange(0, b.cursor) + t + b.text.subrange(b.cursor, b.text.len() as int),
            b.cursor + t.len(),
        )
    }
}

pub open spec fn backspaced(b: BufferView) -> BufferView {
    if b.cursor <= 0 { b } else { changed(b, b.text.remove(b.cursor - 1), b.cursor - 1) }
}

pub open spec fn deleted(b: BufferView) -> BufferView {
    if b.cursor >= b.text.len() { b } else { changed(b, b.text.remove(b.cursor), b.cursor) }
}

pub open spec fn undone(b: BufferView, redo: bool) -> BufferView {
    if redo {
        if b.redo.len() == 0 {
            b
        } else {
            BufferView {
                text: b.redo.last().0,
                cursor: b.redo.last().1,
                undo: b.undo.push((b.text, b.cursor)),
                redo: b.redo.drop_last(),
                ..b
            }
        }
    } else {
        if b.undo.len() == 0 {
            b
        } else {
            BufferView {
                text: b.undo.last().0,
                cursor: b.undo.last().1,
                redo: b.redo.push((b.text, b.cursor)),
                undo: b.undo.drop_last(),
                ..b
            }
        }
    }
}

pub open spec fn moved(b: BufferView, cursor: int) -> BufferView {
    BufferView { cursor, ..b }
}

pub open spec fn homed(b: BufferView, all: bool) -> BufferView {
    if all {
        moved(b, 0)
    } else {
        let r = rows(b.text, b.width);
        moved(b, r[row_of(r, b.cursor)].0)
    }
}

pub open spec fn ended(b: BufferView, all: bool) -> BufferView {
    if all {
        moved(b, b.text.len() as int)
    } else {
        let r = rows(b.text, b.width);
        moved(b, r[row_of(r, b.cursor)].1)
    }
}

/// `n` rows further up or down, as far as there are rows, in the same column where the row is
/// long enough.
pub open spec fn stepped(b: BufferView, up: bool, n: int) -> BufferView {
    let r = rows(b.text, b.width);
    let here = row_of(r, b.cursor);
    let column = b.cursor - r[here].0;
    let there = if up {
        if here < n { 0 } else { here - n }
    } else {
        if here + n > r.len() - 1 { r.len() - 1 } else { here + n }
    };
    let at = r[there].0 + column;
    moved(b, if at > r[there].1 { r[there].1 } else { at })
}

pub open spec fn at_boundaries(s: Seq<Snapshot>) -> bool {
    forall|i: int| 0 <= i < s.len() ==> (#[trigger] s[i]).cursor <= s[i].text@.len()
}

pub open spec fn columns(widths: Seq<usize>) -> Seq<nat> {
    Seq::new(widths.len(), |i: int| widths[i] as nat)
}

/// The visual rows of a text whose characters take so many columns each, and the row that holds
/// the cursor.
pub fn lay_out(text: &Vec<char>, widths: &Vec<usize>, width: usize, cursor: usize) -> (r: TextLayout)
    requires
        widths@.len() == text@.len(),
    ensures
        line_views(r.lines@) == rows_from(text@, columns(widths@), cell_width(width as int), 0),
        r.row == row_of(
            rows_from(text@, columns(widths@), cell_width(width as int), 0),
            cursor as int,
        ),
        r.row < r.lines@.len(),
{
    let v = text;
    let ghost s = text@;
    let ghost w = columns(widths@);
    let width: usize = if width < 1 { 1 } else { width };
    let ghost all = rows_from(s, w, width as int, 0);
    let mut lines: Vec<(usize, usize)> = Vec::new();
    let mut from: usize = 0;
    let mut done = false;
    assert(line_views(lines@) + rows_from(s, w, width as int, 0) =~= all);
    while !done
        invariant
            v@ == s,
                widths@.len() == v@.len(),
                w == columns(widths@),
            from <= v.len(),
            width >= 1,
            done ==> line_views(lines@) == all,
            !done ==> line_views(lines@) + rows_from(s, w, width as int, from as int) == all,
        decreases v@.len() - from + (if done { 0int } else { 1 }),
    {
        let ghost before = line_views(lines@);
        let mut at: usize = from;
        let mut used: usize = 0;
        let mut full = false;
        proof {
            lemma_row_end(s, w, width as int, from as int, from as int, 0);
        }
        while at < v.len() && v[at] != '\n' && !full
            invariant
                v@ == s,
                widths@.len() == v@.len(),
                w == columns(widths@),
                from <= at <= v.len(),
                width >= 1,
                used <= width || at <= from + 1,
                at > from || used == 0,
                full ==> at > from && at < v@.len() && s[at as int] != '\n' && used + w[at as int] > width,
                row_end(s, w, width as int, from as int, from as int, 0) == row_end(
                    s,
                    w,
                    width as int,
                    from as int,
                    at as int,
                    used as int,
                ),
            decreases v@.len() - at + (if full { 0int } else { 1 }),
        {
            let cells = widths[at];
            if at > from && (used > width || cells > width - used) {
                full = true;
            } else {
                used = if at == from { cells } else { used + cells };
                at += 1;
            }
        }
        assert(at == row_end(s, w, width as int, from as int, from as int, 0));
        lines.push((from, at));
        assert(line_views(lines@) =~= before.push((from as int, at as int)));
        if at >= v.len() {
            assert(line_views(lines@) =~= before + seq![(from as int, at as int)]);
            done = true;
        } else if v[at] == '\n' {
            assert(before + (seq![(from as int, at as int)] + rows_from(s, w, width as int, at + 1))
                =~= line_views(lines@) + rows_from(s, w, width as int, at + 1));
            from = at + 1;
        } else {
            assert(before + (seq![(from as int, at as int)] + rows_from(s, w, width as int, at as int))
                =~= line_views(lines@) + rows_from(s, w, width as int, at as int));
            from = at;
        }
    }
    proof {
        lemma_rows(s, w, width as int, 0);
        assert(all.take(all.len() as int) =~= all);
    }
    let mut row: usize = lines.len() - 1;
    while row > 0 && lines[row].0 > cursor
        invariant
            row < lines@.len(),
            line_views(lines@) == all,
            row_of(all, cursor as int) == row_of(all.take(row + 1), cursor as int),
        decreases row,
    {
        assert(line_views(lines@)[row as int] == (lines@[row as int].0 as int, lines@[row as int].1 as int));
        assert(all.take(row + 1).drop_last() =~= all.take(row as int));
        row -= 1;
    }
    proof {
        assert(line_views(lines@)[row as int] == (lines@[row as int].0 as int, lines@[row as int].1 as int));
        assert(all.take(row + 1).last() == all[row as int]);
    }
    TextLayout { lines, row }
}

impl Buffer {
    /// The cursor, and every cursor that can be restored, stands in its text.
    pub open spec fn wf(&self) -> bool {
        &&& self.cursor <= self.text@.len()
        &&& at_boundaries(self.undo@)
        &&& at_boundaries(self.redo@)
    }

    pub fn new(text: String) -> (r: Self)
        ensures
            r.wf(),
            r@ == fresh(text@),
            r.text == text,
    {
        let r = Buffer {
            text,
            cursor: 0,
            viewport_width: 80,
            viewport_height: 1,
            undo: Vec::new(),
            redo: Vec::new(),
        };
        assert(r@ =~= fresh(text@));
        r
    }

    /// The visual rows, and the one that holds the cursor.
    pub fn layout(&self) -> (r: TextLayout)
        requires
            self.wf(),
        ensures
            line_views(r.lines@) == rows(self.text@, self.viewport_width as int),
            r.row == row_of(rows(self.text@, self.viewport_width as int), self.cursor as int),
            r.row < r.lines@.len(),
    {
        let text = chars_of(self.text.as_str());
        let mut widths: Vec<usize> = Vec::new();
        let mut i: usize = 0;
        while i < text.len()
            invariant
                i == widths@.len() <= text@.len(),
                forall|k: int| 0 <= k < i ==> #[trigger] widths@[k] == text_width(seq![text@[k]]),
            decreases text@.len() - i,
        {
            widths.push(char_cells(text[i]));
            i += 1;
        }
        assert(columns(widths@) =~= widths_of(text@));
        lay_out(&text, &widths, self.viewport_width, self.cursor)
    }

    fn remember(&mut self)
        requires
            old(self).wf(),
        ensures
            final(self).wf(),
            final(self).text == old(self).text,
            final(self).cursor == old(self).cursor,
            final(self)@ == (BufferView {
                undo: newest(old(self)@.undo, (old(self)@.text, old(self)@.cursor)),
                redo: Seq::empty(),
                ..old(self)@
            }),
    {
        let ghost before = snapshot_views(self.undo@);
        let ghost held = self.undo@;
        self.undo.push(Snapshot { text: self.text.clone(), cursor: self.cursor });
        assert(snapshot_views(self.undo@) =~= before.push((self.text@, self.cursor as int)));
        assert(at_boundaries(self.undo@)) by {
            assert forall|i: int| 0 <= i < self.undo@.len() implies (#[trigger] self.undo@[i]).cursor
                <= self.undo@[i].text@.len() by {
                if i < held.len() {
                    assert(self.undo@[i] == held[i]);
                }
            }
        }
        if self.undo.len() > HISTORY {
            let ghost full = self.undo@;
            self.undo.remove(0);
            assert(snapshot_views(self.undo@) =~= snapshot_views(full).skip(1));
            assert(at_boundaries(self.undo@)) by {
                assert forall|i: int| 0 <= i < self.undo@.len() implies (#[trigger] self.undo@[i]).cursor
                    <= self.undo@[i].text@.len() by {
                    assert(self.undo@[i] == full[i + 1]);
                }
            }
        }
        self.redo = Vec::new();
        assert(snapshot_views(self.redo@) =~= Seq::<SnapshotView>::empty());
    }

    pub fn insert(&mut self, t: &str)
        requires
            old(self).wf(),
        ensures
            final(self).wf(),
            final(self)@ == inserted(old(self)@, t@),
    {
        if t.is_empty() {
            return;
        }
        let v = chars_of(self.text.as_str());
        let added = chars_of(t);
        if added.len() > usize::MAX - v.len() {
            return;
        }
        self.remember();
        let head = string_of(&v, 0, self.cursor);
        let tail = string_of(&v, self.cursor, v.len());
        self.text = crate::text::cat3(head.as_str(), t, tail.as_str());
        self.cursor = self.cursor + added.len();
    }

    pub fn newline(&mut self)
        requires
            old(self).wf(),
        ensures
            final(self).wf(),
            final(self)@ == inserted(old(self)@, seq!['\n']),
    {
        proof {
            reveal_strlit("\n");
            assert("\n"@ =~= seq!['\n']);
        }
        self.insert("\n");
    }

    pub fn backspace(&mut self)
        requires
            old(self).wf(),
        ensures
            final(self).wf(),
            final(self)@ == backspaced(old(self)@),
    {
        if self.cursor == 0 {
            return;
        }
        let v = chars_of(self.text.as_str());
        self.remember();
        let head = string_of(&v, 0, self.cursor - 1);
        let tail = string_of(&v, self.cursor, v.len());
        self.text = crate::text::cat2(head.as_str(), tail.as_str());
        assert(self.text@ =~= v@.remove(self.cursor - 1));
        self.cursor = self.cursor - 1;
    }

    pub fn delete(&mut self)
        requires
            old(self).wf(),
        ensures
            final(self).wf(),
            final(self)@ == deleted(old(self)@),
    {
        let v = chars_of(self.text.as_str());
        if self.cursor >= v.len() {
            return;
        }
        self.remember();
        let head = string_of(&v, 0, self.cursor);
        let tail = string_of(&v, self.cursor + 1, v.len());
        self.text = crate::text::cat2(head.as_str(), tail.as_str());
        assert(self.text@ =~= v@.remove(self.cursor as int));
    }

    pub fn left(&mut self)
        requires
            old(self).wf(),
        ensures
            final(self).wf(),
            final(self)@ == moved(old(self)@, if old(self).cursor > 0 { old(self).cursor - 1 } else { 0 }),
    {
        if self.cursor > 0 {
            self.cursor = self.cursor - 1;
        }
    }

    pub fn right(&mut self)
        requires
            old(self).wf(),
        ensures
            final(self).wf(),
            final(self)@ == moved(
                old(self)@,
                if old(self).cursor < old(self).text@.len() { old(self).cursor + 1 } else { old(self).cursor as int },
            ),
    {
        let v = chars_of(self.text.as_str());
        if self.cursor < v.len() {
            self.cursor = self.cursor + 1;
        }
    }

    pub fn home(&mut self, all: bool)
        requires
            old(self).wf(),
        ensures
            final(self).wf(),
            final(self)@ == homed(old(self)@, all),
    {
        if all {
            self.cursor = 0;
        } else {
            let layout = self.layout();
            proof {
                lemma_rows(self.text@, widths_of(self.text@), cell_width(self.viewport_width as int), 0);
                assert(line_views(layout.lines@)[layout.row as int].0 == layout.lines@[layout.row as int].0);
            }
            self.cursor = layout.lines[layout.row].0;
        }
    }

    pub fn end(&mut self, all: bool)
        requires
            old(self).wf(),
        ensures
            final(self).wf(),
            final(self)@ == ended(old(self)@, all),
    {
        if all {
            let v = chars_of(self.text.as_str());
            self.cursor = v.len();
        } else {
            let layout = self.layout();
            proof {
                lemma_rows(self.text@, widths_of(self.text@), cell_width(self.viewport_width as int), 0);
                assert(line_views(layout.lines@)[layout.row as int].1 == layout.lines@[layout.row as int].1);
            }
            self.cursor = layout.lines[layout.row].1;
        }
    }

    pub fn vertical(&mut self, up: bool, n: usize)
        requires
            old(self).wf(),
        ensures
            final(self).wf(),
            final(self)@ == stepped(old(self)@, up, n as int),
    {
        let layout = self.layout();
        let ghost r = rows(self.text@, self.viewport_width as int);
        proof {
            lemma_rows(self.text@, widths_of(self.text@), cell_width(self.viewport_width as int), 0);
            lemma_rows_before_cursor(r, self.cursor as int);
        }
        let here = layout.row;
        let count = layout.lines.len();
        let there: usize = if up {
            if here < n { 0 } else { here - n }
        } else {
            if n > count - 1 - here { count - 1 } else { here + n }
        };
        proof {
            assert(r[here as int] == (layout.lines@[here as int].0 as int, layout.lines@[here as int].1 as int));
            assert(r[there as int] == (layout.lines@[there as int].0 as int, layout.lines@[there as int].1 as int));
        }
        let column: usize = self.cursor - layout.lines[here].0;
        let start = layout.lines[there].0;
        let end = layout.lines[there].1;
        self.cursor = if column > end - start { end } else { start + column };
    }

    pub fn undo(&mut self, redo: bool)
        requires
            old(self).wf(),
        ensures
            final(self).wf(),
            final(self)@ == undone(old(self)@, redo),
    {
        let mut from: Vec<Snapshot> = Vec::new();
        let mut to: Vec<Snapshot> = Vec::new();
        if redo {
            std::mem::swap(&mut from, &mut self.redo);
            std::mem::swap(&mut to, &mut self.undo);
        } else {
            std::mem::swap(&mut from, &mut self.undo);
            std::mem::swap(&mut to, &mut self.redo);
        }
        let ghost before_from = from@;
        let ghost before_to = to@;
        match from.pop() {
            None => {},
            Some(s) => {
                let mut text = s.text;
                std::mem::swap(&mut text, &mut self.text);
                to.push(Snapshot { text, cursor: self.cursor });
                self.cursor = s.cursor;
                proof {
                    assert(snapshot_views(to@) =~= snapshot_views(before_to).push(
                        (old(self).text@, old(self).cursor as int),
                    ));
                    assert(snapshot_views(from@) =~= snapshot_views(before_from).drop_last());
                    assert(before_from[before_from.len() - 1] == s);
                    assert forall|i: int| 0 <= i < to@.len() implies (#[trigger] to@[i]).cursor
                        <= to@[i].text@.len() by {
                        if i < before_to.len() {
                            assert(to@[i] == before_to[i]);
                        }
                    }
                    assert forall|i: int| 0 <= i < from@.len() implies (#[trigger] from@[i]).cursor
                        <= from@[i].text@.len() by {
                        assert(from@[i] == before_from[i]);
                    }
                }
            },
        }
        if redo {
            self.redo = from;
            self.undo = to;
        } else {
            self.undo = from;
            self.redo = to;
        }
    }
}

/// The row that holds the cursor does not begin behind it.
proof fn lemma_rows_before_cursor(r: Seq<(int, int)>, cursor: int)
    requires
        r.len() >= 1,
        r[0].0 <= cursor,
    ensures
        0 <= row_of(r, cursor) < r.len(),
        r[row_of(r, cursor)].0 <= cursor,
    decreases r.len(),
{
    if r.len() > 1 && r.last().0 > cursor {
        lemma_rows_before_cursor(r.drop_last(), cursor);
    }
}

/// Taking back a change restores the text and the cursor, and taking that back again restores the
/// change.
pub proof fn law_undo_restores(b: BufferView, text: Seq<char>, cursor: int)
    requires
        b.undo.len() <= HISTORY,
    ensures
        undone(changed(b, text, cursor), false).text == b.text,
        undone(changed(b, text, cursor), false).cursor == b.cursor,
        undone(undone(changed(b, text, cursor), false), true) == changed(b, text, cursor),
{
    let c = changed(b, text, cursor);
    assert(c.undo.last() == (b.text, b.cursor));
    let u = undone(c, false);
    assert(u.redo =~= seq![(c.text, c.cursor)]);
    assert(u.undo.push((u.text, u.cursor)) =~= c.undo);
    assert(undone(u, true).redo =~= c.redo);
    assert(undone(u, true) =~= c);
}

} // verus!
