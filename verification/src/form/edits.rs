//! What an edited source holds: reading it gives the properties that were there, changed as asked.
use crate::form::locality::{
    bare, closes, lemma_closes, lemma_comment_end_bound, lemma_comment_end_local, lemma_members_bound, lemma_members_local,
    lemma_members_step, lemma_name_local, lemma_node_local, lemma_read_local, lemma_reads, lemma_scalar_end_bound, lemma_string_end_local, lemma_token_char,
    lemma_trivia_ends, lemma_trivia_local, member_read, moved, moved_all, moved_node, names_within, next_place,
    read_moved, reads, same_text, value_stop, Read,
};
use crate::form::source::{
    added, comment_end, elements, indentation, insertion_point, is_key_source, key_end,
    laid_out, lemma_members, lemma_node, lemma_trivia, line_end, line_start, member_before, members,
    named, new_indent, new_property, newline_like, node, removed, replaced, root_node, scalar_end, spans_lines,
    string_end, trivia, two_at, Fault, MemberView, NodeView,
};
use crate::text::whitespace;
use vstd::prelude::*;

verus! {

/// A source without the byte order marks at its end, which are white space.
pub open spec fn unmarked(source: Seq<char>) -> Seq<char>
    decreases source.len(),
{
    if source.len() > 0 && source.last() == '\u{feff}' {
        unmarked(source.drop_last())
    } else {
        source
    }
}

/// The properties of an object, each by its name and the source of its value.
pub open spec fn entries(s: Seq<char>, ms: Seq<MemberView>) -> Seq<(Seq<char>, Seq<char>)> {
    Seq::new(ms.len(), |i: int| (ms[i].key, unmarked(s.subrange(ms[i].value_start, ms[i].value_end))))
}

/// A name or a text as JSON writes it: in double quotes, which end nowhere sooner.
pub open spec fn quoted(source: Seq<char>) -> bool {
    &&& source.len() >= 2
    &&& source[0] == '"'
    &&& string_end(source, 1, '"') == Ok::<int, Fault>(source.len() as int)
}

/// The source of exactly one value.
pub open spec fn one_value(source: Seq<char>) -> bool {
    &&& source.len() > 0
    &&& node(source, 0) is Ok
    &&& node(source, 0)->Ok_0.start == 0
    &&& node(source, 0)->Ok_0.end == source.len()
}

/// A quoted text is one value.
pub proof fn lemma_string_is_value(source: Seq<char>)
    requires
        quoted(source),
    ensures
        one_value(source),
        unmarked(source) == source,
{
    lemma_token_char(source, 0);
    lemma_string_last(source, 1, '"');
}

proof fn lemma_scalar_whole(s: Seq<char>, p: int)
    requires
        0 <= p <= s.len(),
        forall|i: int| p <= i < s.len() ==> !value_stop(#[trigger] s[i]),
    ensures
        scalar_end(s, p) == s.len(),
    decreases s.len() - p,
{
    if p < s.len() {
        assert(!value_stop(s[p]));
        lemma_scalar_whole(s, p + 1);
    }
}

/// A word that nothing ends is one value.
proof fn lemma_scalar_is_value(s: Seq<char>)
    requires
        s.len() > 0,
        forall|i: int| 0 <= i < s.len() ==> !value_stop(#[trigger] s[i]),
        bare(s, 0),
        s[0] != '\u{feff}',
    ensures
        one_value(s),
{
    lemma_scalar_whole(s, 0);
    assert(!value_stop(s[0]));
    lemma_token_char(s, 0);
}

pub proof fn lemma_number_is_value(n: nat)
    ensures
        one_value(crate::text::decimal(n)),
        unmarked(crate::text::decimal(n)) == crate::text::decimal(n),
{
    let s = crate::text::decimal(n);
    crate::text::lemma_decimal_reads_back(n);
    assert forall|i: int| 0 <= i < s.len() implies !value_stop(#[trigger] s[i]) by {
        assert(crate::text::ascii_digit(s[i]));
    }
    assert(crate::text::ascii_digit(s[0]));
    assert(crate::text::ascii_digit(s[s.len() - 1]));
    lemma_scalar_is_value(s);
}

pub proof fn lemma_words_are_values()
    ensures
        one_value("true"@),
        one_value("false"@),
        one_value("null"@),
        one_value("{}"@),
        unmarked("true"@) == "true"@,
        unmarked("false"@) == "false"@,
        unmarked("null"@) == "null"@,
        unmarked("{}"@) == "{}"@,
{
    reveal_strlit("true");
    reveal_strlit("false");
    reveal_strlit("null");
    reveal_strlit("{}");
    lemma_scalar_is_value("true"@);
    lemma_scalar_is_value("false"@);
    lemma_scalar_is_value("null"@);
    let s = "{}"@;
    lemma_token_char(s, 0);
    lemma_token_char(s, 1);
    lemma_closes(s, 1, 1, Seq::empty());
}

// ---------------------------------------------------------------------------------------------
// White space

pub open spec fn blank_between(s: Seq<char>, a: int, b: int) -> bool {
    forall|i: int| a <= i < b ==> whitespace(#[trigger] s[i])
}

proof fn lemma_blank(s: Seq<char>, a: int, b: int)
    requires
        0 <= a <= b <= s.len(),
        blank_between(s, a, b),
    ensures
        trivia(s, a) == trivia(s, b),
    decreases b - a,
{
    if a < b {
        assert(whitespace(s[a]));
        lemma_blank(s, a + 1, b);
    }
}

proof fn lemma_line_start(s: Seq<char>, p: int)
    requires
        0 <= p <= s.len(),
    ensures
        0 <= line_start(s, p) <= p,
        line_start(s, p) > 0 ==> s[line_start(s, p) - 1] == '\n',
    decreases p,
{
    if p > 0 && s[p - 1] != '\n' {
        lemma_line_start(s, p - 1);
    }
}

/// White space and comments before a line that only indents are passed over up to that line.
proof fn lemma_trivia_to_line(s: Seq<char>, t: Seq<char>, p: int, q: int, at: int, d: int)
    requires
        0 <= p <= at <= q < s.len(),
        0 <= p + d <= t.len(),
        trivia(s, p) == Ok::<int, Fault>(q),
        indentation(s, at, q),
        at == p || s[at - 1] == '\n',
        same_text(s, t, p, at, d),
    ensures
        trivia(t, p + d) == trivia(t, at + d),
    decreases at - p,
{
    lemma_trivia(s, p);
    if p < at {
        assert(s[p] == t[p + d]);
        if whitespace(s[p]) || s[p] == '\u{feff}' {
            lemma_trivia(s, p + 1);
            lemma_trivia_to_line(s, t, p + 1, q, at, d);
        } else if two_at(s, p, '/', '/') {
            lemma_first_newline(s, t, p + 2, at - 1, d);
            let e = line_end(s, p + 2);
            assert(s[p + 1] == t[p + 1 + d]);
            lemma_trivia_to_line(s, t, e, q, at, d);
        } else if two_at(s, p, '/', '*') {
            lemma_comment_before(s, t, p + 2, q, at, d);
            let e = comment_end(s, p + 2)->0;
            assert(s[p + 1] == t[p + 1 + d]);
            lemma_trivia_to_line(s, t, e + 2, q, at, d);
        }
    }
}

proof fn lemma_first_newline(s: Seq<char>, t: Seq<char>, p: int, last: int, d: int)
    requires
        0 <= p <= last < s.len(),
        0 <= p + d,
        s[last] == '\n',
        same_text(s, t, p, last + 1, d),
    ensures
        p <= line_end(s, p) <= last,
        line_end(t, p + d) == line_end(s, p) + d,
    decreases last - p,
{
    assert(s[p] == t[p + d]);
    if !newline_like(s[p]) {
        lemma_first_newline(s, t, p + 1, last, d);
    }
}

/// A comment before white space ends before it.
proof fn lemma_comment_before(s: Seq<char>, t: Seq<char>, p: int, q: int, at: int, d: int)
    requires
        0 <= p,
        at <= q < s.len(),
        0 <= p + d,
        comment_end(s, p) is Some,
        trivia(s, comment_end(s, p)->0 + 2) == Ok::<int, Fault>(q),
        indentation(s, at, q),
        same_text(s, t, p, at, d),
    ensures
        p <= comment_end(s, p)->0,
        comment_end(s, p)->0 + 2 <= at,
        comment_end(t, p + d) == Some(comment_end(s, p)->0 + d),
{
    lemma_comment_end_bound(s, p);
    let e = comment_end(s, p)->0;
    lemma_trivia(s, e + 2);
    if e + 1 >= at {
        assert(s[e + 1] == ' ' || s[e + 1] == '\t');
    }
    lemma_comment_end_local(s, t, p, d);
}

// ---------------------------------------------------------------------------------------------
// The last character of a value

proof fn lemma_string_last(s: Seq<char>, p: int, quote: char)
    requires
        0 <= p,
        string_end(s, p, quote) is Ok,
    ensures
        p < string_end(s, p, quote)->Ok_0 <= s.len(),
        s[string_end(s, p, quote)->Ok_0 - 1] == quote,
    decreases s.len() - p,
{
    if s[p] != quote {
        if s[p] == '\\' {
            lemma_string_last(s, p + 2, quote);
        } else {
            lemma_string_last(s, p + 1, quote);
        }
    }
}

proof fn lemma_scalar_last(s: Seq<char>, p: int)
    requires
        0 <= p < scalar_end(s, p),
    ensures
        p < scalar_end(s, p) <= s.len(),
        !value_stop(s[scalar_end(s, p) - 1]),
    decreases s.len() - p,
{
    if p + 1 < scalar_end(s, p + 1) {
        lemma_scalar_last(s, p + 1);
    }
}

proof fn lemma_elements_last(s: Seq<char>, p: int)
    requires
        0 <= p <= s.len(),
        elements(s, p) is Ok,
    ensures
        p < elements(s, p)->Ok_0 <= s.len(),
        s[elements(s, p)->Ok_0 - 1] == ']',
    decreases s.len() - p,
{
    lemma_trivia(s, p);
    let a = trivia(s, p)->Ok_0;
    if !(a < s.len() && s[a] == ']') {
        lemma_node(s, a);
        let v = node(s, a)->Ok_0;
        lemma_trivia(s, v.end);
        let e = trivia(s, v.end)->Ok_0;
        if s[e] == ',' {
            lemma_elements_last(s, e + 1);
        } else {
            lemma_elements_last(s, e);
        }
    }
}

proof fn lemma_value_last(s: Seq<char>, p: int)
    requires
        0 <= p <= s.len(),
        node(s, p) is Ok,
    ensures
        ({
            let v = node(s, p)->Ok_0;
            p <= v.start < v.end <= s.len() && s[v.end - 1] != ' ' && s[v.end - 1] != '\t'
        }),
{
    lemma_trivia(s, p);
    lemma_node(s, p);
    let a = trivia(s, p)->Ok_0;
    if s[a] == '{' {
        lemma_members_bound(s, a + 1, Seq::empty());
    } else if s[a] == '[' {
        lemma_elements_last(s, a + 1);
    } else if s[a] == '\'' || s[a] == '"' {
        lemma_string_last(s, a + 1, s[a]);
    } else {
        lemma_scalar_last(s, a);
    }
}

// ---------------------------------------------------------------------------------------------
// Byte order marks

/// Where the byte order marks from `p` on end.
pub open spec fn marks_end(s: Seq<char>, p: int) -> int
    decreases s.len() - p,
{
    if 0 <= p < s.len() && s[p] == '\u{feff}' {
        marks_end(s, p + 1)
    } else {
        p
    }
}

pub open spec fn marks_between(s: Seq<char>, a: int, b: int) -> bool {
    forall|i: int| a <= i < b ==> #[trigger] s[i] == '\u{feff}'
}

proof fn lemma_marks_end(s: Seq<char>, p: int)
    requires
        0 <= p <= s.len(),
    ensures
        p <= marks_end(s, p) <= s.len(),
        marks_between(s, p, marks_end(s, p)),
        marks_end(s, p) < s.len() ==> s[marks_end(s, p)] != '\u{feff}',
        trivia(s, p) == trivia(s, marks_end(s, p)),
    decreases s.len() - p,
{
    if p < s.len() && s[p] == '\u{feff}' {
        lemma_marks_end(s, p + 1);
        lemma_trivia(s, p + 1);
    }
}

/// Behind a value, what follows the byte order marks ends it.
proof fn lemma_marks_stop(s: Seq<char>, p: int, after: int)
    requires
        0 <= p <= after < s.len(),
        trivia(s, p) == Ok::<int, Fault>(after),
        s[after] == ',' || s[after] == '}',
    ensures
        p <= marks_end(s, p) <= after,
        value_stop(s[marks_end(s, p)]),
{
    lemma_marks_end(s, p);
    let k = marks_end(s, p);
    lemma_trivia(s, k);
    if k < after {
        lemma_trivia_first(s, k, after);
    }
}

proof fn lemma_unmarked(source: Seq<char>, k: int)
    requires
        0 <= k <= source.len(),
        marks_between(source, k, source.len() as int),
    ensures
        unmarked(source) == unmarked(source.take(k)),
    decreases source.len(),
{
    if k < source.len() {
        assert(source[source.len() - 1] == '\u{feff}');
        lemma_unmarked(source.drop_last(), k);
        assert(source.drop_last().take(k) =~= source.take(k));
    } else {
        assert(source.take(k) =~= source);
    }
}

/// A word with byte order marks behind it ends behind them.
proof fn lemma_scalar_marked(s: Seq<char>, t: Seq<char>, p: int, d: int, k: int)
    requires
        0 <= p <= s.len(),
        0 <= p + d <= k < t.len(),
        scalar_end(s, p) + d <= k,
        same_text(s, t, p, scalar_end(s, p), d),
        marks_between(t, scalar_end(s, p) + d, k),
        value_stop(t[k]),
    ensures
        scalar_end(t, p + d) == k,
    decreases s.len() - p,
{
    lemma_scalar_end_bound(s, p);
    if p < s.len() && !value_stop(s[p]) {
        lemma_scalar_end_bound(s, p + 1);
        assert(s[p] == t[p + d]);
        lemma_scalar_marked(s, t, p + 1, d, k);
    } else {
        lemma_only_marks(t, p + d, k);
    }
}

proof fn lemma_only_marks(t: Seq<char>, p: int, k: int)
    requires
        0 <= p <= k < t.len(),
        marks_between(t, p, k),
        value_stop(t[k]),
    ensures
        scalar_end(t, p) == k,
    decreases k - p,
{
    if p < k {
        assert(t[p] == '\u{feff}');
        lemma_only_marks(t, p + 1, k);
    }
}

/// Where a value that ends at `e` now ends in `t`: a bare one takes in the byte order marks behind
/// it.
pub open spec fn new_end(t: Seq<char>, is_bare: bool, e: int) -> int {
    if is_bare {
        marks_end(t, e)
    } else {
        e
    }
}

/// The value at `p` is read elsewhere, up to what ends it there.
proof fn lemma_node_marked(s: Seq<char>, t: Seq<char>, p: int, d: int, after: int)
    requires
        0 <= p <= s.len(),
        0 <= p + d <= t.len(),
        node(s, p) is Ok,
        same_text(s, t, p, node(s, p)->Ok_0.end, d),
        0 <= node(s, p)->Ok_0.end + d <= after < t.len(),
        trivia(t, node(s, p)->Ok_0.end + d) == Ok::<int, Fault>(after),
        t[after] == ',' || t[after] == '}',
    ensures
        ({
            let v = node(s, p)->Ok_0;
            let k = new_end(t, bare(s, v.start), v.end + d);
            &&& node(t, p + d) is Ok
            &&& node(t, p + d)->Ok_0.start == v.start + d
            &&& node(t, p + d)->Ok_0.end == k
            &&& v.end + d <= k <= after
            &&& marks_between(t, v.end + d, k)
            &&& trivia(t, k) == Ok::<int, Fault>(after)
        }),
{
    let v = node(s, p)->Ok_0;
    lemma_node(s, p);
    lemma_trivia(s, p);
    if bare(s, v.start) {
        let a = v.start;
        lemma_marks_end(t, v.end + d);
        lemma_marks_stop(t, v.end + d, after);
        lemma_scalar_end_bound(s, a);
        lemma_trivia_ends(s, p, a);
        lemma_token_char(s, a);
        lemma_trivia_local(s, t, p, a, d);
        assert(s[a] == t[a + d]);
        lemma_token_char(t, a + d);
        assert(same_text(s, t, a, v.end, d));
        lemma_scalar_marked(s, t, a, d, marks_end(t, v.end + d));
    } else {
        lemma_node_local(s, t, p, d);
    }
}

// ---------------------------------------------------------------------------------------------
// Walking through the properties

/// Where the property `i` may begin.
pub open spec fn place(ms: Seq<MemberView>, first: int, i: int) -> int {
    if i == 0 { first } else { ms[i - 1].comma->0 + 1 }
}

/// All properties but the last have a comma behind them.
proof fn lemma_commas(s: Seq<char>, p: int, seen: Seq<MemberView>)
    requires
        0 <= p <= s.len(),
        members(s, p, seen) is Ok,
    ensures
        forall|j: int|
            seen.len() <= j < members(s, p, seen)->Ok_0.0.len() - 1 ==> (#[trigger] members(
                s,
                p,
                seen,
            )->Ok_0.0[j]).comma is Some,
    decreases s.len() - p,
{
    let r = members(s, p, seen)->Ok_0;
    match lemma_members_step(s, p, seen) {
        None => {
            lemma_closes(s, p, trivia(s, p)->Ok_0, seen);
        },
        Some(x) => {
            lemma_reads(s, p, seen, x);
            let more = seen.push(member_read(s, x));
            if s[x.after] == '}' {
                lemma_trivia_ends(s, x.value.end, x.after);
                lemma_closes(s, x.after, x.after, more);
            } else {
                lemma_members_bound(s, next_place(s, x), more);
                lemma_commas(s, next_place(s, x), more);
                assert forall|j: int| seen.len() <= j < r.0.len() - 1 implies (#[trigger] r.0[j]).comma is Some by {
                    if j == seen.len() {
                        assert(r.0.take(more.len() as int)[j] == more[j]);
                    }
                }
            }
        },
    }
}

/// The properties before `i` are read in `s`, and read alike in a text that is the same up to
/// there.
pub proof fn lemma_walk(s: Seq<char>, t: Seq<char>, first: int, ms: Seq<MemberView>, end: int, i: int)
    requires
        0 <= first <= s.len(),
        members(s, first, Seq::empty()) == Ok::<(Seq<MemberView>, int), Fault>((ms, end)),
        0 <= i <= ms.len(),
        forall|j: int| 0 <= j < i ==> (#[trigger] ms[j]).comma is Some,
        first <= t.len(),
        same_text(s, t, first, place(ms, first, i), 0),
    ensures
        first <= place(ms, first, i) <= s.len(),
        place(ms, first, i) <= t.len(),
        members(s, place(ms, first, i), ms.take(i)) == Ok::<(Seq<MemberView>, int), Fault>((ms, end)),
        members(t, first, Seq::empty()) == members(t, place(ms, first, i), ms.take(i)),
    decreases i,
{
    if i == 0 {
        assert(ms.take(0) =~= Seq::<MemberView>::empty());
    } else {
        let q = place(ms, first, i - 1);
        let seen = ms.take(i - 1);
        lemma_walk_bound(s, first, ms, end, i);
        lemma_walk(s, t, first, ms, end, i - 1);
        let x = lemma_next(s, q, ms, end, i - 1);
        lemma_reads(s, q, seen, x);
        lemma_trivia_local(s, t, x.value.end, x.after, 0);
        assert(s[x.after] == t[x.after + 0]);
        lemma_token_char(t, x.after);
        if x.value.end < x.after {
            assert(s[x.value.end] == t[x.value.end + 0]);
        }
        lemma_not_named(s, q, seen, x);
        lemma_read_local(s, t, q, seen, seen, 0, x, x.after);
        let y = read_moved(x, 0, x.after);
        lemma_reads(t, q, seen, y);
        assert(member_read(t, y) == member_read(s, x));
        assert(ms.take(i) =~= seen.push(ms[i - 1]));
    }
}

proof fn lemma_not_named(s: Seq<char>, p: int, seen: Seq<MemberView>, x: Read)
    requires
        reads(s, p, seen, x),
    ensures
        !named(seen, x.key),
{
}

/// The places of the properties lie one behind the other.
proof fn lemma_walk_bound(s: Seq<char>, first: int, ms: Seq<MemberView>, end: int, i: int)
    requires
        0 <= first <= s.len(),
        members(s, first, Seq::empty()) == Ok::<(Seq<MemberView>, int), Fault>((ms, end)),
        1 <= i <= ms.len(),
        forall|j: int| 0 <= j < i ==> (#[trigger] ms[j]).comma is Some,
    ensures
        first <= place(ms, first, i - 1) < place(ms, first, i),
{
    lemma_members(s, first, Seq::empty());
    assert(member_before(ms[i - 1], end - 1));
    lemma_first_start(s, first, ms, end);
    if i >= 2 {
        assert(member_before(ms[i - 2], end - 1));
        assert(ms[i - 2].comma->0 < ms[i - 1].start);
        assert(ms[0].start <= ms[i - 2].start) by {
            if i > 2 {
                assert(member_before(ms[0], end - 1));
                assert(ms[0].value_end <= ms[i - 2].start);
            }
        }
    }
}

proof fn lemma_first_start(s: Seq<char>, first: int, ms: Seq<MemberView>, end: int)
    requires
        0 <= first <= s.len(),
        members(s, first, Seq::empty()) == Ok::<(Seq<MemberView>, int), Fault>((ms, end)),
        ms.len() > 0,
    ensures
        first <= ms[0].start,
{
    assert(ms.take(0) =~= Seq::<MemberView>::empty());
    let x = lemma_next(s, first, ms, end, 0);
    lemma_reads(s, first, Seq::empty(), x);
}

/// The property `i` is read where those before it end.
proof fn lemma_next(s: Seq<char>, q: int, ms: Seq<MemberView>, end: int, i: int) -> (x: Read)
    requires
        0 <= q <= s.len(),
        0 <= i < ms.len(),
        members(s, q, ms.take(i)) == Ok::<(Seq<MemberView>, int), Fault>((ms, end)),
    ensures
        reads(s, q, ms.take(i), x),
        member_read(s, x) == ms[i],
        members(s, next_place(s, x), ms.take(i + 1)) == Ok::<(Seq<MemberView>, int), Fault>((ms, end)),
{
    let seen = ms.take(i);
    match lemma_members_step(s, q, seen) {
        None => {
            lemma_closes(s, q, trivia(s, q)->Ok_0, seen);
            assert(false);
            arbitrary()
        },
        Some(x) => {
            lemma_reads(s, q, seen, x);
            let more = seen.push(member_read(s, x));
            lemma_members_bound(s, next_place(s, x), more);
            assert(ms.take(more.len() as int)[i] == more[i]);
            assert(more =~= ms.take(i + 1));
            x
        },
    }
}

/// Behind the last property the object is closed.
proof fn lemma_closed(s: Seq<char>, q: int, ms: Seq<MemberView>, end: int)
    requires
        0 <= q <= s.len(),
        members(s, q, ms) == Ok::<(Seq<MemberView>, int), Fault>((ms, end)),
    ensures
        closes(s, q, end - 1),
{
    match lemma_members_step(s, q, ms) {
        None => {
            lemma_closes(s, q, trivia(s, q)->Ok_0, ms);
        },
        Some(x) => {
            lemma_reads(s, q, ms, x);
            lemma_members_bound(s, next_place(s, x), ms.push(member_read(s, x)));
        },
    }
}

/// Where white space and comments lead to the same place, the same properties are read.
proof fn lemma_members_by_trivia(t: Seq<char>, p: int, q: int, seen: Seq<MemberView>)
    requires
        0 <= p <= q <= t.len(),
        trivia(t, p) == trivia(t, q),
    ensures
        members(t, p, seen) == members(t, q, seen),
{
    lemma_trivia(t, q);
}

/// An object that is read in `s` from `n.start` up to `n.end`.
pub open spec fn object_at(s: Seq<char>, n: NodeView) -> bool {
    &&& n.members is Some
    &&& 0 <= n.start < s.len()
    &&& s[n.start] == '{'
    &&& members(s, n.start + 1, Seq::empty()) == Ok::<(Seq<MemberView>, int), Fault>((n.members->0, n.end))
}

/// The parts of an object.
pub proof fn lemma_object(s: Seq<char>, n: NodeView)
    requires
        object_at(s, n),
    ensures
        n.start + 1 < n.end <= s.len(),
        laid_out(n.members->0, n.end - 1),
        s[n.end - 1] == '}',
{
    lemma_members(s, n.start + 1, Seq::empty());
    lemma_members_bound(s, n.start + 1, Seq::empty());
}

/// A whole source is an object with white space and comments around it.
pub proof fn lemma_root(s: Seq<char>, n: NodeView)
    requires
        root_node(s) == Ok::<NodeView, Fault>(n),
    ensures
        object_at(s, n),
        trivia(s, 0) == Ok::<int, Fault>(n.start),
        trivia(s, n.end) == Ok::<int, Fault>(s.len() as int),
{
    lemma_node(s, 0);
    lemma_trivia(s, 0);
}

/// `t` is `s` with the object `n` written as `m`.
pub open spec fn rewritten(s: Seq<char>, t: Seq<char>, n: NodeView, m: NodeView) -> bool {
    let d = m.end - n.end;
    &&& object_at(t, m)
    &&& m.start == n.start
    &&& t.len() == s.len() + d
    &&& same_text(s, t, 0, n.start + 1, 0)
    &&& same_text(s, t, n.end, s.len() as int, d)
}

/// An object that begins as in `s`, and behind which the text goes on as there.
proof fn lemma_rewritten(s: Seq<char>, t: Seq<char>, n: NodeView, ms: Seq<MemberView>, d: int) -> (m: NodeView)
    requires
        object_at(s, n),
        same_text(s, t, 0, n.start + 1, 0),
        n.start + 1 <= t.len(),
        members(t, n.start + 1, Seq::empty()) == Ok::<(Seq<MemberView>, int), Fault>((ms, n.end + d)),
        t.len() == s.len() + d,
        same_text(s, t, n.end, s.len() as int, d),
    ensures
        m == (NodeView { start: n.start, end: n.end + d, members: Some(ms) }),
        rewritten(s, t, n, m),
{
    assert(s[n.start] == t[n.start + 0]);
    NodeView { start: n.start, end: n.end + d, members: Some(ms) }
}

/// A whole source whose object is written anew is a whole source again.
pub proof fn lemma_root_rewritten(s: Seq<char>, t: Seq<char>, n: NodeView, m: NodeView)
    requires
        root_node(s) == Ok::<NodeView, Fault>(n),
        rewritten(s, t, n, m),
    ensures
        root_node(t) == Ok::<NodeView, Fault>(m),
{
    lemma_root(s, n);
    lemma_object(s, n);
    lemma_object(t, m);
    lemma_trivia_local(s, t, 0, n.start, 0);
    lemma_token_char(t, n.start);
    lemma_trivia_local(s, t, n.end, s.len() as int, m.end - n.end);
}

// ---------------------------------------------------------------------------------------------
// Adding

/// A property that is written out is read, and then the object is closed.
proof fn lemma_new_member(
    t: Seq<char>,
    q: int,
    at: int,
    key_source: Seq<char>,
    key: Seq<char>,
    value: Seq<char>,
    trailing: bool,
    close: int,
    seen: Seq<MemberView>,
)
    requires
        0 <= q <= at,
        trivia(t, q) == Ok::<int, Fault>(at),
        quoted(key_source),
        is_key_source(key_source, key),
        !named(seen, key),
        one_value(value),
        at + key_source.len() + 2 + value.len() < t.len(),
        t.subrange(at, at + key_source.len()) == key_source,
        t[at + key_source.len()] == ':',
        t[at + key_source.len() + 1] == ' ',
        t.subrange(at + key_source.len() + 2, at + key_source.len() + 2 + value.len()) == value,
        value_stop(t[at + key_source.len() + 2 + value.len()]),
        trailing == (t[at + key_source.len() + 2 + value.len()] == ','),
        ({
            let e = at + key_source.len() + 2 + value.len();
            closes(t, if trailing { e + 1 } else { e }, close)
        }),
    ensures
        ({
            let start = at + key_source.len() + 2;
            members(t, q, seen) == Ok::<(Seq<MemberView>, int), Fault>(
                (
                    seen.push(
                        MemberView {
                            key,
                            start: at,
                            value_start: start,
                            value_end: start + value.len(),
                            comma: if trailing { Some(start + value.len()) } else { None },
                        },
                    ),
                    close + 1,
                ),
            )
        }),
{
    let colon = at + key_source.len();
    let start = colon + 2;
    let e = start + value.len();
    // The name.
    assert(t[at] == key_source[0]) by {
        assert(t.subrange(at, colon)[0] == t[at]);
    }
    assert(same_text(key_source, t, 1, key_source.len() as int, at)) by {
        assert forall|i: int| 1 <= i < key_source.len() implies #[trigger] key_source[i] == t[i + at] by {
            assert(t.subrange(at, colon)[i] == t[at + i]);
        }
    }
    lemma_string_end_local(key_source, t, 1, '"', at);
    assert(key_end(t, at) == Ok::<int, Fault>(colon));
    lemma_token_char(t, colon);
    // The value.
    let v = node(value, 0)->Ok_0;
    assert(same_text(value, t, 0, value.len() as int, start)) by {
        assert forall|i: int| 0 <= i < value.len() implies #[trigger] value[i] == t[i + start] by {
            assert(t.subrange(start, e)[i] == t[start + i]);
        }
    }
    lemma_node_local(value, t, 0, start);
    assert(blank_between(t, colon + 1, start));
    lemma_blank(t, colon + 1, start);
    lemma_node(t, start);
    lemma_trivia(t, start);
    let found = moved_node(v, start);
    assert(node(t, colon + 1) == Ok::<NodeView, Fault>(found));
    // What follows.
    lemma_token_char(t, e);
    let after = if trailing { e } else { close };
    let x = Read { start: at, key, key_end: colon, colon, value: found, after };
    assert(t.subrange(at, colon) =~= key_source);
    assert(reads(t, q, seen, x));
    lemma_reads(t, q, seen, x);
    let more = seen.push(member_read(t, x));
    if trailing {
        lemma_closes(t, e + 1, close, more);
    } else {
        lemma_trivia_ends(t, e, close);
        lemma_closes(t, close, close, more);
    }
}

/// Where a new property goes: behind all others, before the closing brace, and where that is not
/// right before the brace, at the start of a line that only indents it.
proof fn lemma_insertion(s: Seq<char>, n: NodeView)
    requires
        object_at(s, n),
    ensures
        ({
            let at = insertion_point(s, n);
            let close = n.end - 1;
            let ms = n.members->0;
            &&& n.start < at <= close
            &&& at < close ==> s[at - 1] == '\n' && indentation(s, at, close)
            &&& forall|i: int|
                0 <= i < ms.len() ==> (#[trigger] ms[i]).value_end <= at && (ms[i].comma is Some
                    ==> ms[i].comma->0 < at)
        }),
{
    lemma_object(s, n);
    let at = insertion_point(s, n);
    let close = n.end - 1;
    let ms = n.members->0;
    let first = n.start + 1;
    lemma_line_start(s, close);
    if at < close {
        if at <= n.start {
            assert(s[n.start] == ' ' || s[n.start] == '\t');
        }
    }
    lemma_commas(s, first, Seq::empty());
    assert forall|i: int| 0 <= i < ms.len() implies (#[trigger] ms[i]).value_end <= at && (ms[i].comma is Some
        ==> ms[i].comma->0 < at) by {
        assert(member_before(ms[i], close));
        if at < close {
            let p = place(ms, first, i);
            if i > 0 {
                assert(ms[i - 1].comma is Some);
            }
            lemma_walk_same(s, first, ms, n.end, i);
            let x = lemma_next(s, p, ms, n.end, i);
            lemma_reads(s, p, ms.take(i), x);
            lemma_value_last(s, x.colon + 1);
            if ms[i].value_end > at {
                assert(s[ms[i].value_end - 1] == ' ' || s[ms[i].value_end - 1] == '\t');
            }
            if ms[i].comma is Some && ms[i].comma->0 >= at {
                assert(s[ms[i].comma->0] == ' ' || s[ms[i].comma->0] == '\t');
            }
        }
    }
}

proof fn lemma_walk_same(s: Seq<char>, first: int, ms: Seq<MemberView>, end: int, i: int)
    requires
        0 <= first <= s.len(),
        members(s, first, Seq::empty()) == Ok::<(Seq<MemberView>, int), Fault>((ms, end)),
        0 <= i <= ms.len(),
        i < ms.len() || ms.len() == 0 || ms.last().comma is Some,
    ensures
        first <= place(ms, first, i) <= s.len(),
        members(s, place(ms, first, i), ms.take(i)) == Ok::<(Seq<MemberView>, int), Fault>((ms, end)),
        forall|j: int| 0 <= j < i ==> (#[trigger] ms[j]).comma is Some,
{
    lemma_commas(s, first, Seq::empty());
    lemma_members(s, first, Seq::empty());
    assert forall|j: int| 0 <= j < i implies (#[trigger] ms[j]).comma is Some by {}
    if i > 0 {
        assert(member_before(ms[i - 1], end - 1));
        lemma_members_bound(s, first, Seq::empty());
    }
    assert(same_text(s, s, first, place(ms, first, i), 0));
    lemma_walk(s, s, first, ms, end, i);
}

/// What is written for a new property: white space, the property, white space.
proof fn lemma_property_text(s: Seq<char>, n: NodeView, key_source: Seq<char>, value: Seq<char>) -> (w: (
    Seq<char>,
    Seq<char>,
))
    requires
        object_at(s, n),
    ensures
        ({
            let ms = n.members->0;
            let tail = if ms.len() > 0 && ms.last().comma is Some { ","@ } else { ""@ };
            &&& new_property(s, n, key_source, value) == w.0 + (key_source + ": "@ + value + tail) + w.1
            &&& blank_between(w.0, 0, w.0.len() as int)
            &&& blank_between(w.1, 0, w.1.len() as int)
            &&& w.1.len() > 0
        }),
{
    lemma_object(s, n);
    lemma_insertion(s, n);
    let ms = n.members->0;
    let at = insertion_point(s, n);
    let close = n.end - 1;
    let tail = if ms.len() > 0 && ms.last().comma is Some { ","@ } else { ""@ };
    let property = key_source + ": "@ + value + tail;
    reveal_strlit(" ");
    reveal_strlit("  ");
    reveal_strlit("\n");
    reveal_strlit("");
    assert(whitespace(' ') && whitespace('\n') && whitespace('\t'));
    if spans_lines(s, n) {
        let head = if at > 0 && s[at - 1] == '\n' { ""@ } else { "\n"@ };
        let indent = new_indent(s, n);
        lemma_line_start(s, close);
        if ms.len() > 0 {
            assert(member_before(ms[0], close));
            lemma_line_start(s, ms[0].start);
        }
        assert forall|i: int| 0 <= i < indent.len() implies whitespace(#[trigger] indent[i]) by {
            if ms.len() > 0 && indentation(s, line_start(s, ms[0].start), ms[0].start) {
                let j = line_start(s, ms[0].start) + i;
                assert(s[j] == ' ' || s[j] == '\t');
                assert(indent[i] == s[j]);
            } else if at == line_start(s, close) && i < close - at {
                let j = at + i;
                assert(at < close ==> indentation(s, at, close));
                assert(s[j] == ' ' || s[j] == '\t');
                assert(indent[i] == s[j]);
            }
        }
        let w = head + indent;
        assert forall|i: int| 0 <= i < w.len() implies whitespace(#[trigger] w[i]) by {
            if i >= head.len() {
                assert(w[i] == indent[i - head.len()]);
            }
        }
        assert(new_property(s, n, key_source, value) =~= w + property + "\n"@);
        (w, "\n"@)
    } else {
        (" "@, " "@)
    }
}


/// The last property has no comma behind it.
pub open spec fn unended(ms: Seq<MemberView>) -> bool {
    ms.len() > 0 && ms.last().comma is None
}

/// How much is put before the place of a new property: the comma that the last one lacks.
pub open spec fn comma_put(ms: Seq<MemberView>) -> int {
    if unended(ms) { 1 } else { 0 }
}

/// Where that comma goes, if there is one to put.
pub open spec fn comma_place(s: Seq<char>, n: NodeView) -> int {
    if unended(n.members->0) { n.members->0.last().value_end } else { insertion_point(s, n) }
}

/// A text with `mid` and `text` put into it.
proof fn lemma_put_together(s: Seq<char>, e: int, mid: Seq<char>, at: int, text: Seq<char>, t: Seq<char>)
    requires
        0 <= e <= at <= s.len(),
        t == s.subrange(0, e) + mid + s.subrange(e, at) + text + s.subrange(at, s.len() as int),
    ensures
        t.len() == s.len() + mid.len() + text.len(),
        same_text(s, t, 0, e, 0),
        same_text(s, t, e, at, mid.len() as int),
        same_text(s, t, at, s.len() as int, (mid.len() + text.len()) as int),
        same_text(text, t, 0, text.len() as int, at + mid.len()),
        mid.len() > 0 ==> t[e] == mid[0],
{
}

/// Where the parts of a property stand in what is written for it.
proof fn lemma_parts(w: Seq<char>, key: Seq<char>, value: Seq<char>, tail: Seq<char>, v: Seq<char>, text: Seq<char>)
    requires
        text == w + (key + ": "@ + value + tail) + v,
        tail == ","@ || tail == ""@,
    ensures
        ({
            let colon = (w.len() + key.len()) as int;
            let stop = colon + 2 + value.len();
            &&& text.len() == stop + tail.len() + v.len()
            &&& tail.len() <= 1
            &&& tail.len() == 1 <==> tail == ","@
            &&& same_text(w, text, 0, w.len() as int, 0)
            &&& same_text(key, text, 0, key.len() as int, w.len() as int)
            &&& text[colon] == ':'
            &&& text[colon + 1] == ' '
            &&& same_text(value, text, 0, value.len() as int, colon + 2)
            &&& tail.len() == 1 ==> text[stop] == ','
            &&& same_text(v, text, 0, v.len() as int, stop + tail.len())
        }),
{
    reveal_strlit(",");
    reveal_strlit("");
    reveal_strlit(": ");
}

/// A part of a text that stands elsewhere too.
proof fn lemma_same_part(part: Seq<char>, t: Seq<char>, d: int)
    requires
        0 <= d,
        d + part.len() <= t.len(),
        same_text(part, t, 0, part.len() as int, d),
    ensures
        t.subrange(d, d + part.len()) == part,
{
    assert(t.subrange(d, d + part.len()) =~= part);
}

proof fn lemma_same_twice(a: Seq<char>, b: Seq<char>, c: Seq<char>, d: int, f: int)
    requires
        0 <= d,
        d + a.len() <= b.len(),
        same_text(a, b, 0, a.len() as int, d),
        same_text(b, c, 0, b.len() as int, f),
    ensures
        same_text(a, c, 0, a.len() as int, d + f),
{
    assert forall|i: int| 0 <= i < a.len() implies #[trigger] a[i] == c[i + (d + f)] by {
        assert(b[i + d] == c[i + d + f]);
    }
}

proof fn lemma_blank_there(w: Seq<char>, t: Seq<char>, d: int)
    requires
        same_text(w, t, 0, w.len() as int, d),
        blank_between(w, 0, w.len() as int),
    ensures
        blank_between(t, d, d + w.len()),
{
    assert forall|i: int| d <= i < d + w.len() implies whitespace(#[trigger] t[i]) by {
        assert(w[i - d] == t[i - d + d]);
        assert(whitespace(w[i - d]));
    }
}

pub open spec fn comma_text(ms: Seq<MemberView>) -> Seq<char> {
    if unended(ms) { ","@ } else { ""@ }
}

/// The text with a new property, part by part.
proof fn lemma_added_form(s: Seq<char>, n: NodeView, key_source: Seq<char>, value: Seq<char>)
    requires
        0 <= comma_place(s, n) <= insertion_point(s, n) <= s.len(),
    ensures
        ({
            let e = comma_place(s, n);
            let at = insertion_point(s, n);
            added(s, n, key_source, value) == s.subrange(0, e) + comma_text(n.members->0) + s.subrange(e, at)
                + new_property(s, n, key_source, value) + s.subrange(at, s.len() as int)
        }),
{
    let ms = n.members->0;
    let e = comma_place(s, n);
    let at = insertion_point(s, n);
    let text = new_property(s, n, key_source, value);
    if unended(ms) {
        crate::form::source::lemma_insert_two(s, e, ","@, at, text);
    } else {
        reveal_strlit("");
        assert(s.subrange(0, at) + ""@ + s.subrange(at, at) =~= s.subrange(0, at));
    }
}

/// The text with a new property.
pub proof fn lemma_added_text(s: Seq<char>, n: NodeView, key_source: Seq<char>, value: Seq<char>) -> (r: (int, int))
    requires
        object_at(s, n),
        quoted(key_source),
        value.len() > 0,
    ensures
        added_text(s, n, key_source, value, added(s, n, key_source, value), r.0, r.1),
{
    lemma_object(s, n);
    lemma_insertion(s, n);
    let ms = n.members->0;
    let at = insertion_point(s, n);
    let text = new_property(s, n, key_source, value);
    let t = added(s, n, key_source, value);
    let w = lemma_property_text(s, n, key_source, value);
    let e = comma_place(s, n);
    let mid = comma_text(ms);
    if unended(ms) {
        assert(member_before(ms[ms.len() - 1], n.end - 1));
        assert(ms[ms.len() - 1].value_end <= at);
    }
    lemma_added_form(s, n, key_source, value);
    reveal_strlit(",");
    reveal_strlit("");
    lemma_put_together(s, e, mid, at, text, t);
    lemma_added_places(s, n, key_source, value, t, text, w.0, w.1)
}

/// Where the new property stands.
#[verifier::rlimit(60)]
#[verifier::spinoff_prover]
proof fn lemma_added_places(
    s: Seq<char>,
    n: NodeView,
    key_source: Seq<char>,
    value: Seq<char>,
    t: Seq<char>,
    text: Seq<char>,
    w: Seq<char>,
    v: Seq<char>,
) -> (r: (int, int))
    requires
        object_at(s, n),
        quoted(key_source),
        value.len() > 0,
        ({
            let ms = n.members->0;
            let at = insertion_point(s, n);
            let e = comma_place(s, n);
            let c = comma_put(ms);
            &&& text == w + (key_source + ": "@ + value + tail_of(ms)) + v
            &&& 0 <= e <= at
            &&& t.len() == s.len() + c + text.len()
            &&& same_text(s, t, 0, e, 0)
            &&& same_text(s, t, e, at, c)
            &&& same_text(s, t, at, s.len() as int, c + text.len())
            &&& same_text(text, t, 0, text.len() as int, at + c)
            &&& unended(ms) ==> t[e] == ','
        }),
        blank_between(w, 0, w.len() as int),
        blank_between(v, 0, v.len() as int),
        v.len() > 0,
    ensures
        added_text(s, n, key_source, value, t, r.0, r.1),
{
    lemma_object(s, n);
    lemma_insertion(s, n);
    let ms = n.members->0;
    let close = n.end - 1;
    let at = insertion_point(s, n);
    let c = comma_put(ms);
    let tail = tail_of(ms);
    reveal_strlit(",");
    reveal_strlit("");
    lemma_parts(w, key_source, value, tail, v, text);
    let d = c + text.len();
    let g = at + c;
    let from = g + w.len();
    let colon = from + key_source.len();
    let stop = colon + 2 + value.len();
    let rest = stop + tail.len();
    lemma_same_twice(key_source, text, t, w.len() as int, g);
    lemma_same_part(key_source, t, from);
    lemma_same_twice(value, text, t, colon + 2 - g, g);
    lemma_same_part(value, t, colon + 2);
    lemma_same_twice(w, text, t, 0, g);
    lemma_blank_there(w, t, g);
    lemma_same_twice(v, text, t, rest - g, g);
    lemma_blank_there(v, t, rest);
    assert(text[colon - g] == t[colon - g + g]);
    assert(text[colon + 1 - g] == t[colon + 1 - g + g]);
    assert(text[stop - g] == t[stop - g + g]);
    assert(v[0] == t[0 + rest]);
    assert(whitespace(v[0]));
    lemma_blank_up_to(s, t, rest, at, close, d);
    assert(s[close] == t[close + d]);
    lemma_token_char(t, close + d);
    lemma_blank(t, rest, close + d);
    lemma_blank(t, g, from);
    assert(key_source[0] == t[0 + from]);
    lemma_token_char(t, from);
    (from, d)
}

pub open spec fn tail_of(ms: Seq<MemberView>) -> Seq<char> {
    if ms.len() > 0 && ms.last().comma is Some { ","@ } else { ""@ }
}

proof fn lemma_blank_up_to(s: Seq<char>, t: Seq<char>, rest: int, at: int, close: int, d: int)
    requires
        blank_between(t, rest, at + d),
        at <= close < s.len(),
        at < close ==> indentation(s, at, close),
        same_text(s, t, at, s.len() as int, d),
    ensures
        blank_between(t, rest, close + d),
{
    assert forall|i: int| rest <= i < close + d implies whitespace(#[trigger] t[i]) by {
        if i >= at + d {
            assert(s[i - d] == ' ' || s[i - d] == '\t');
            assert(s[i - d] == t[i - d + d]);
        }
    }
}

/// `t` is `s` with a property put into it that begins at `from`, and longer by `d`.
pub open spec fn added_text(
    s: Seq<char>,
    n: NodeView,
    key_source: Seq<char>,
    value: Seq<char>,
    t: Seq<char>,
    from: int,
    d: int,
) -> bool {
    let ms = n.members->0;
    let at = insertion_point(s, n);
    let e = comma_place(s, n);
    let c = comma_put(ms);
    let trailing = ms.len() > 0 && ms.last().comma is Some;
    let colon = from + key_source.len();
    let stop = colon + 2 + value.len();
    &&& t.len() == s.len() + d
    &&& 0 <= e <= at
    &&& same_text(s, t, 0, e, 0)
    &&& same_text(s, t, e, at, c)
    &&& same_text(s, t, at, s.len() as int, d)
    &&& unended(ms) ==> t[e] == ','
    &&& at + c <= from
    &&& at < stop < t.len()
    &&& blank_between(t, at + c, from)
    &&& trivia(t, at + c) == Ok::<int, Fault>(from)
    &&& t.subrange(from, colon) == key_source
    &&& t[colon] == ':'
    &&& t[colon + 1] == ' '
    &&& t.subrange(colon + 2, stop) == value
    &&& value_stop(t[stop])
    &&& trailing == (t[stop] == ',')
    &&& closes(t, if trailing { stop + 1 } else { stop }, n.end - 1 + d)
}

/// The properties before a new one, and where it is looked for.
#[verifier::rlimit(40)]
pub proof fn lemma_before_added(s: Seq<char>, t: Seq<char>, n: NodeView) -> (r: (Seq<MemberView>, int))
    requires
        object_at(s, n),
        comma_place(s, n) <= insertion_point(s, n),
        same_text(s, t, 0, comma_place(s, n), 0),
        same_text(s, t, comma_place(s, n), insertion_point(s, n), comma_put(n.members->0)),
        insertion_point(s, n) + comma_put(n.members->0) < t.len(),
        unended(n.members->0) ==> t[comma_place(s, n)] == ',',
    ensures
        ({
            let ms = n.members->0;
            let at = insertion_point(s, n) + comma_put(ms);
            let (seen, q) = r;
            &&& 0 <= q <= at
            &&& trivia(t, q) == trivia(t, at)
            &&& members(t, n.start + 1, Seq::empty()) == members(t, q, seen)
            &&& seen.len() == ms.len()
            &&& forall|j: int|
                0 <= j < ms.len() ==> (#[trigger] seen[j]).key == ms[j].key && seen[j].value_start
                    == ms[j].value_start && seen[j].value_end == ms[j].value_end
            &&& unended(ms) ==> seen.last().comma == Some(comma_place(s, n))
        }),
{
    lemma_object(s, n);
    lemma_insertion(s, n);
    let ms = n.members->0;
    let k = ms.len() as int;
    let first = n.start + 1;
    let close = n.end - 1;
    let at = insertion_point(s, n);
    let e = comma_place(s, n);
    let i = if unended(ms) { k - 1 } else { k };
    lemma_walk_same(s, first, ms, n.end, i);
    let p = place(ms, first, i);
    if i > 0 {
        assert(ms[i - 1].comma->0 < at);
        if unended(ms) {
            assert(ms[i - 1].comma->0 < ms[k - 1].start);
            assert(member_before(ms[k - 1], close));
        }
    }
    if unended(ms) {
        let x = lemma_next(s, p, ms, n.end, k - 1);
        lemma_reads(s, p, ms.take(k - 1), x);
        assert(same_text(s, t, first, p, 0));
        lemma_walk(s, t, first, ms, n.end, i);
        assert(ms.take(k) =~= ms);
        lemma_closed(s, x.after, ms, n.end);
        lemma_trivia_ends(s, e, x.after);
        lemma_token_char(t, e);
        lemma_not_named(s, p, ms.take(k - 1), x);
        assert(same_text(s, t, p, e, 0));
        lemma_read_local(s, t, p, ms.take(k - 1), ms.take(k - 1), 0, x, e);
        let y = read_moved(x, 0, e);
        lemma_reads(t, p, ms.take(k - 1), y);
        if at == close {
            lemma_trivia_local(s, t, e, close, 1);
        } else {
            lemma_trivia_to_line(s, t, e, close, at, 1);
        }
        (ms.take(k - 1).push(member_read(t, y)), e + 1)
    } else {
        assert(same_text(s, t, first, p, 0));
        lemma_walk(s, t, first, ms, n.end, i);
        assert(ms.take(k) =~= ms);
        lemma_closed(s, p, ms, n.end);
        assert(same_text(s, t, p, at, 0));
        if at == close {
            lemma_trivia_local(s, t, p, close, 0);
        } else {
            lemma_trivia_to_line(s, t, p, close, at, 0);
        }
        (ms, p)
    }
}

/// A property that is added to an object is read back.
pub proof fn lemma_added(
    s: Seq<char>,
    n: NodeView,
    key: Seq<char>,
    key_source: Seq<char>,
    value: Seq<char>,
) -> (m: NodeView)
    requires
        object_at(s, n),
        !named(n.members->0, key),
        quoted(key_source),
        is_key_source(key_source, key),
        one_value(value),
    ensures
        ({
            let t = added(s, n, key_source, value);
            &&& rewritten(s, t, n, m)
            &&& entries(t, m.members->0) == entries(s, n.members->0).push((key, unmarked(value)))
        }),
{
    let t = added(s, n, key_source, value);
    let (from, d) = lemma_added_text(s, n, key_source, value);
    lemma_added_is_read(s, n, key, key_source, value, t, from, d)
}

/// What is added stands behind the opening brace.
pub proof fn lemma_added_behind(s: Seq<char>, n: NodeView)
    requires
        object_at(s, n),
    ensures
        n.start < comma_place(s, n),
{
    lemma_object(s, n);
    lemma_insertion(s, n);
    let ms = n.members->0;
    let close = n.end - 1;
    if unended(ms) {
        assert(member_before(ms[ms.len() - 1], close));
        lemma_first_start(s, n.start + 1, ms, n.end);
        if ms.len() > 1 {
            assert(member_before(ms[0], close));
            assert(ms[0].value_end <= ms[ms.len() - 1].start);
        }
    }
}

#[verifier::rlimit(40)]
proof fn lemma_added_is_read(
    s: Seq<char>,
    n: NodeView,
    key: Seq<char>,
    key_source: Seq<char>,
    value: Seq<char>,
    t: Seq<char>,
    from: int,
    d: int,
) -> (m: NodeView)
    requires
        object_at(s, n),
        !named(n.members->0, key),
        quoted(key_source),
        is_key_source(key_source, key),
        one_value(value),
        added_text(s, n, key_source, value, t, from, d),
    ensures
        rewritten(s, t, n, m),
        entries(t, m.members->0) == entries(s, n.members->0).push((key, unmarked(value))),
        m.members->0.len() == n.members->0.len() + 1,
        m.members->0.last().key == key,
{
    lemma_object(s, n);
    lemma_insertion(s, n);
    let ms = n.members->0;
    let close = n.end - 1;
    let (seen, q) = lemma_before_added(s, t, n);
    let trailing = ms.len() > 0 && ms.last().comma is Some;
    let start = from + key_source.len() + 2;
    let stop = start + value.len();
    assert(!named(seen, key)) by {
        if named(seen, key) {
            let j = choose|j: int| 0 <= j < seen.len() && #[trigger] seen[j].key == key;
            assert(ms[j].key == key);
        }
    }
    lemma_new_member(t, q, from, key_source, key, value, trailing, close + d, seen);
    let all = seen.push(
        MemberView {
            key,
            start: from,
            value_start: start,
            value_end: stop,
            comma: if trailing { Some(stop) } else { None },
        },
    );
    lemma_added_behind(s, n);
    assert(same_text(s, t, 0, n.start + 1, 0));
    assert(same_text(s, t, n.end, s.len() as int, d));
    let m = lemma_rewritten(s, t, n, all, d);
    assert forall|j: int| 0 <= j < ms.len() implies (#[trigger] ms[j]).value_end <= comma_place(s, n)
        && 0 <= ms[j].value_start <= ms[j].value_end by {
        assert(member_before(ms[j], close));
        if unended(ms) && j < ms.len() - 1 {
            assert(member_before(ms[ms.len() - 1], close));
            assert(ms[j].value_end <= ms[ms.len() - 1].start);
        }
    }
    lemma_entries_kept(s, t, ms, seen, comma_place(s, n));
    assert(entries(t, all) =~= entries(t, seen).push((key, unmarked(value))));
    m
}

/// Properties in a part of the text that is the same are the same.
proof fn lemma_entries_kept(s: Seq<char>, t: Seq<char>, ms: Seq<MemberView>, seen: Seq<MemberView>, limit: int)
    requires
        same_text(s, t, 0, limit, 0),
        seen.len() == ms.len(),
        forall|j: int|
            0 <= j < ms.len() ==> (#[trigger] ms[j]).value_end <= limit && 0 <= ms[j].value_start
                <= ms[j].value_end,
        forall|j: int|
            0 <= j < ms.len() ==> (#[trigger] seen[j]).key == ms[j].key && seen[j].value_start
                == ms[j].value_start && seen[j].value_end == ms[j].value_end,
    ensures
        entries(t, seen) == entries(s, ms),
{
    assert forall|j: int| 0 <= j < ms.len() implies #[trigger] entries(t, seen)[j] == entries(s, ms)[j] by {
        assert(seen[j].key == ms[j].key);
        let a = ms[j].value_start;
        let b = ms[j].value_end;
        assert(t.subrange(a, b) =~= s.subrange(a, b)) by {
            assert forall|i: int| 0 <= i < b - a implies t.subrange(a, b)[i] == s.subrange(a, b)[i] by {
                assert(s[a + i] == t[a + i + 0]);
            }
        }
    }
    assert(entries(t, seen) =~= entries(s, ms));
}

// ---------------------------------------------------------------------------------------------
// Taking out

/// A text without what stands from `a` up to `b` and from `c` up to `f`.
pub open spec fn without(s: Seq<char>, a: int, b: int, c: int, f: int) -> Seq<char> {
    s.subrange(0, a) + s.subrange(b, c) + s.subrange(f, s.len() as int)
}

proof fn lemma_without(s: Seq<char>, a: int, b: int, c: int, f: int)
    requires
        0 <= a <= b <= c <= f <= s.len(),
    ensures
        ({
            let t = without(s, a, b, c, f);
            &&& t.len() == s.len() - (b - a) - (f - c)
            &&& same_text(s, t, 0, a, 0)
            &&& same_text(s, t, b, c, a - b)
            &&& same_text(s, t, f, s.len() as int, a - b + c - f)
        }),
{
}

/// How the property `i` was read, and where.
pub proof fn lemma_read_at(s: Seq<char>, n: NodeView, i: int) -> (r: (int, Read))
    requires
        object_at(s, n),
        0 <= i < n.members->0.len(),
    ensures
        ({
            let ms = n.members->0;
            let (p, x) = r;
            &&& p == place(ms, n.start + 1, i)
            &&& n.start < p <= x.start
            &&& forall|j: int| 0 <= j < i ==> (#[trigger] ms[j]).comma is Some
            &&& reads(s, p, ms.take(i), x)
            &&& member_read(s, x) == ms[i]
            &&& x.start == ms[i].start
            &&& x.value.start == ms[i].value_start
            &&& x.value.end == ms[i].value_end
            &&& x.key == ms[i].key
            &&& ms[i].comma is Some ==> x.after == ms[i].comma->0 && s[x.after] == ','
            &&& ms[i].comma is None ==> x.after == n.end - 1 && i == ms.len() - 1
            &&& members(s, next_place(s, x), ms.take(i + 1)) == Ok::<(Seq<MemberView>, int), Fault>((ms, n.end))
            &&& p <= x.start <= x.value.start < x.value.end <= x.after < n.end
            &&& !named(ms.take(i), x.key)
        }),
{
    lemma_object(s, n);
    let ms = n.members->0;
    let first = n.start + 1;
    lemma_commas(s, first, Seq::empty());
    lemma_walk_same(s, first, ms, n.end, i);
    let p = place(ms, first, i);
    let x = lemma_next(s, p, ms, n.end, i);
    lemma_reads(s, p, ms.take(i), x);
    assert(member_before(ms[i], n.end - 1));
    lemma_not_named(s, p, ms.take(i), x);
    if ms[i].comma is None {
        assert(ms.take(i + 1) =~= ms);
        lemma_closed(s, x.after, ms, n.end);
        lemma_trivia_ends(s, x.value.end, x.after);
    }
    (p, x)
}

/// A property with a comma behind it is taken out together with that comma.
proof fn lemma_taken_with_comma(s: Seq<char>, t: Seq<char>, n: NodeView, i: int)
    requires
        object_at(s, n),
        0 <= i < n.members->0.len(),
        n.members->0[i].comma is Some,
        ({
            let m = n.members->0[i];
            let c = m.comma->0;
            &&& t.len() == s.len() + m.start - m.value_end - 1
            &&& same_text(s, t, 0, m.start, 0)
            &&& same_text(s, t, m.value_end, c, m.start - m.value_end)
            &&& same_text(s, t, c + 1, s.len() as int, m.start - m.value_end - 1)
        }),
    ensures
        ({
            let ms = n.members->0;
            let m = ms[i];
            let d = m.start - m.value_end - 1;
            &&& n.start < m.start <= m.value_end <= m.comma->0 < n.end - 1
            &&& members(t, n.start + 1, Seq::empty()) == Ok::<(Seq<MemberView>, int), Fault>(
                (ms.take(i) + moved_all(ms.skip(i + 1), d), n.end + d),
            )
        }),
{
    let ms = n.members->0;
    let m = ms[i];
    let first = n.start + 1;
    let c = m.comma->0;
    let d = m.start - m.value_end - 1;
    let (p, x) = lemma_read_at(s, n, i);
    lemma_object(s, n);
    assert(member_before(m, n.end - 1));
    assert(same_text(s, t, first, p, 0));
    lemma_walk(s, t, first, ms, n.end, i);
    lemma_trivia_local(s, t, p, m.start, 0);
    lemma_trivia_local(s, t, m.value_end, c, m.start - m.value_end);
    lemma_members_by_trivia(t, p, c + 1 + d, ms.take(i));
    lemma_rest_local(s, t, c + 1, ms, n.end, i, d);
}

/// What follows a property that is taken out.
proof fn lemma_rest_local(s: Seq<char>, t: Seq<char>, p: int, ms: Seq<MemberView>, end: int, i: int, d: int)
    requires
        0 <= p <= s.len(),
        0 <= p + d <= t.len(),
        0 <= i < ms.len(),
        members(s, p, ms.take(i + 1)) == Ok::<(Seq<MemberView>, int), Fault>((ms, end)),
        same_text(s, t, p, s.len() as int, d),
    ensures
        members(t, p + d, ms.take(i)) == Ok::<(Seq<MemberView>, int), Fault>(
            (ms.take(i) + moved_all(ms.skip(i + 1), d), end + d),
        ),
{
    lemma_members_bound(s, p, ms.take(i + 1));
    lemma_fewer_names(ms, i);
    lemma_members_local(s, t, p, ms.take(i + 1), ms.take(i), d);
}

proof fn lemma_fewer_names(ms: Seq<MemberView>, i: int)
    requires
        0 <= i < ms.len(),
    ensures
        names_within(ms.take(i), ms.take(i + 1)),
{
    assert forall|key: Seq<char>| #[trigger] named(ms.take(i), key) implies named(ms.take(i + 1), key) by {
        let j = choose|j: int| 0 <= j < ms.take(i).len() && #[trigger] ms.take(i)[j].key == key;
        assert(ms.take(i + 1)[j].key == key);
    }
}

/// The only property is taken out.
#[verifier::rlimit(60)]
#[verifier::spinoff_prover]
proof fn lemma_taken_alone(s: Seq<char>, t: Seq<char>, n: NodeView)
    requires
        object_at(s, n),
        n.members->0.len() == 1,
        n.members->0[0].comma is None,
        ({
            let m = n.members->0[0];
            &&& t.len() == s.len() + m.start - m.value_end
            &&& same_text(s, t, 0, m.start, 0)
            &&& same_text(s, t, m.value_end, s.len() as int, m.start - m.value_end)
        }),
    ensures
        ({
            let m = n.members->0[0];
            &&& n.start < m.start <= m.value_end <= n.end - 1
            &&& members(t, n.start + 1, Seq::empty()) == Ok::<(Seq<MemberView>, int), Fault>(
                (Seq::empty(), n.end + m.start - m.value_end),
            )
        }),
{
    lemma_object(s, n);
    let ms = n.members->0;
    let m = ms[0];
    let first = n.start + 1;
    let close = n.end - 1;
    let d = m.start - m.value_end;
    assert(member_before(m, close));
    assert(ms.take(0) =~= Seq::<MemberView>::empty());
    let x = lemma_next(s, first, ms, n.end, 0);
    lemma_reads(s, first, Seq::empty(), x);
    assert(ms.take(1) =~= ms);
    lemma_closed(s, x.after, ms, n.end);
    lemma_trivia_ends(s, m.value_end, x.after);
    lemma_trivia_local(s, t, first, m.start, 0);
    lemma_trivia_local(s, t, m.value_end, close, d);
    assert(s[close] == t[close + d]);
    lemma_token_char(t, close + d);
    lemma_closes(t, first, close + d, Seq::empty());
}

/// The last property is taken out together with the comma before it.
#[verifier::rlimit(80)]
#[verifier::spinoff_prover]
proof fn lemma_taken_last(s: Seq<char>, t: Seq<char>, n: NodeView, i: int) -> (r: int)
    requires
        object_at(s, n),
        0 < i < n.members->0.len(),
        n.members->0[i].comma is None,
        n.members->0[i - 1].comma is Some,
        ({
            let m = n.members->0[i];
            let b = n.members->0[i - 1];
            let c = b.comma->0;
            &&& t.len() == s.len() + m.start - m.value_end - 1
            &&& same_text(s, t, 0, c, 0)
            &&& same_text(s, t, c + 1, m.start, -1)
            &&& same_text(s, t, m.value_end, s.len() as int, m.start - m.value_end - 1)
        }),
    ensures
        ({
            let ms = n.members->0;
            let m = ms[i];
            let b = ms[i - 1];
            let d = m.start - m.value_end - 1;
            &&& i == ms.len() - 1
            &&& n.start < b.comma->0 < m.start <= m.value_end <= n.end - 1
            &&& b.value_end <= r <= t.len()
            &&& marks_between(t, b.value_end, r)
            &&& same_text(s, t, 0, b.value_end, 0)
            &&& members(t, n.start + 1, Seq::empty()) == Ok::<(Seq<MemberView>, int), Fault>(
                (ms.take(i - 1).push(MemberView { value_end: r, comma: None, ..b }), n.end + d),
            )
        }),
{
    let ms = n.members->0;
    let m = ms[i];
    let b = ms[i - 1];
    let first = n.start + 1;
    let close = n.end - 1;
    let c = b.comma->0;
    let d = m.start - m.value_end - 1;
    let (p, x) = lemma_read_at(s, n, i - 1);
    let (q, y) = lemma_read_at(s, n, i);
    assert(q == c + 1);
    lemma_object(s, n);
    lemma_follows(s, t, x.value.end, c, m.start, m.value_end, close);
    assert(same_text(s, t, first, p, 0));
    lemma_walk(s, t, first, ms, n.end, i - 1);
    lemma_last_stays(s, t, p, ms.take(i - 1), x, close + d)
}

/// What follows the value that stays, up to the closing brace.
proof fn lemma_follows(s: Seq<char>, t: Seq<char>, v: int, c: int, a: int, b: int, close: int)
    requires
        0 <= v <= c < a <= b <= close < s.len(),
        t.len() == s.len() + a - b - 1,
        trivia(s, v) == Ok::<int, Fault>(c),
        trivia(s, c + 1) == Ok::<int, Fault>(a),
        trivia(s, b) == Ok::<int, Fault>(close),
        s[close] == '}',
        same_text(s, t, 0, c, 0),
        same_text(s, t, c + 1, a, -1),
        same_text(s, t, b, s.len() as int, a - b - 1),
    ensures
        trivia(t, v) == Ok::<int, Fault>(close + a - b - 1),
        t[close + a - b - 1] == '}',
{
    let d = a - b - 1;
    assert(same_text(s, t, v, c, 0));
    lemma_trivia_local(s, t, v, c, 0);
    lemma_trivia_local(s, t, c + 1, a, -1);
    assert(same_text(s, t, b, close, d));
    lemma_trivia_local(s, t, b, close, d);
    assert(s[close] == t[close + d]);
    lemma_token_char(t, close + d);
}

/// The property that stays is now the last one.
proof fn lemma_last_stays(
    s: Seq<char>,
    t: Seq<char>,
    p: int,
    seen: Seq<MemberView>,
    x: Read,
    close: int,
) -> (k: int)
    requires
        reads(s, p, seen, x),
        !named(seen, x.key),
        p <= t.len(),
        same_text(s, t, 0, x.value.end, 0),
        trivia(t, x.value.end) == Ok::<int, Fault>(close),
        x.value.end <= close < t.len(),
        t[close] == '}',
    ensures
        members(t, p, seen) == Ok::<(Seq<MemberView>, int), Fault>(
            (
                seen.push(
                    MemberView {
                        key: x.key,
                        start: x.start,
                        value_start: x.value.start,
                        value_end: k,
                        comma: None,
                    },
                ),
                close + 1,
            ),
        ),
        x.value.end <= k <= close,
        marks_between(t, x.value.end, k),
{
    lemma_reads(s, p, seen, x);
    assert(same_text(s, t, p, x.colon + 1, 0));
    lemma_name_local(s, t, p, seen, seen, 0, x);
    assert(same_text(s, t, x.colon + 1, x.value.end, 0));
    lemma_node_marked(s, t, x.colon + 1, 0, close);
    let v = node(t, x.colon + 1)->Ok_0;
    let z = Read { start: x.start, key: x.key, key_end: x.key_end, colon: x.colon, value: v, after: close };
    assert(reads(t, p, seen, z));
    lemma_reads(t, p, seen, z);
    let all = seen.push(member_read(t, z));
    lemma_trivia_ends(t, v.end, close);
    lemma_closes(t, close, close, all);
    v.end
}

/// What white space and comments begin with.
proof fn lemma_trivia_first(s: Seq<char>, p: int, q: int)
    requires
        0 <= p < q,
        p < s.len(),
        trivia(s, p) == Ok::<int, Fault>(q),
    ensures
        s[p] == '\u{feff}' || value_stop(s[p]),
{
}

/// A property that is taken out of an object is gone.
#[verifier::rlimit(60)]
#[verifier::spinoff_prover]
pub proof fn lemma_removed(s: Seq<char>, n: NodeView, i: int) -> (r: NodeView)
    requires
        object_at(s, n),
        0 <= i < n.members->0.len(),
    ensures
        ({
            let t = removed(s, n.members->0, i);
            &&& rewritten(s, t, n, r)
            &&& entries(t, r.members->0) == entries(s, n.members->0).remove(i)
        }),
{
    let ms = n.members->0;
    let m = ms[i];
    let t = removed(s, ms, i);
    let (p, x) = lemma_read_at(s, n, i);
    lemma_object(s, n);
    if m.comma is Some {
        let c = m.comma->0;
        lemma_without(s, m.start, m.value_end, c, c + 1);
        lemma_removed_form(s, ms, i);
        lemma_gone_with_comma(s, t, n, i)
    } else if i > 0 {
        assert(ms[i - 1].comma is Some);
        let c = ms[i - 1].comma->0;
        assert(ms[i - 1].comma->0 < ms[i].start);
        lemma_without(s, c, c + 1, m.start, m.value_end);
        lemma_removed_form(s, ms, i);
        lemma_gone_last(s, t, n, i)
    } else {
        lemma_without(s, m.start, m.value_end, m.value_end, m.value_end);
        lemma_removed_form(s, ms, i);
        lemma_gone_alone(s, t, n)
    }
}

#[verifier::rlimit(60)]
#[verifier::spinoff_prover]
proof fn lemma_gone_alone(s: Seq<char>, t: Seq<char>, n: NodeView) -> (r: NodeView)
    requires
        object_at(s, n),
        n.members->0.len() == 1,
        n.members->0[0].comma is None,
        ({
            let m = n.members->0[0];
            &&& t.len() == s.len() + m.start - m.value_end
            &&& same_text(s, t, 0, m.start, 0)
            &&& same_text(s, t, m.value_end, s.len() as int, m.start - m.value_end)
        }),
    ensures
        rewritten(s, t, n, r),
        entries(t, r.members->0) == entries(s, n.members->0).remove(0),
{
    let ms = n.members->0;
    let m = ms[0];
    let d = m.start - m.value_end;
    lemma_taken_alone(s, t, n);
    lemma_object(s, n);
    assert(same_text(s, t, 0, n.start + 1, 0));
    assert(same_text(s, t, n.end, s.len() as int, d));
    let r = lemma_rewritten(s, t, n, Seq::empty(), d);
    assert(entries(t, Seq::empty()) =~= entries(s, ms).remove(0));
    r
}

/// The source without a property, part by part.
proof fn lemma_removed_form(s: Seq<char>, ms: Seq<MemberView>, i: int)
    requires
        0 <= i < ms.len(),
        0 <= ms[i].start <= ms[i].value_end <= s.len(),
        ms[i].comma is Some ==> ms[i].value_end <= ms[i].comma->0 < s.len(),
        ms[i].comma is None && i > 0 ==> ms[i - 1].comma is Some && 0 <= ms[i - 1].comma->0 < ms[i].start,
    ensures
        removed(s, ms, i) == (if ms[i].comma is Some {
            without(s, ms[i].start, ms[i].value_end, ms[i].comma->0, ms[i].comma->0 + 1)
        } else if i > 0 {
            without(s, ms[i - 1].comma->0, ms[i - 1].comma->0 + 1, ms[i].start, ms[i].value_end)
        } else {
            without(s, ms[i].start, ms[i].value_end, ms[i].value_end, ms[i].value_end)
        }),
{
    let m = ms[i];
    if m.comma is Some {
        assert(removed(s, ms, i) =~= without(s, m.start, m.value_end, m.comma->0, m.comma->0 + 1));
    } else if i > 0 {
        let c = ms[i - 1].comma->0;
        assert(removed(s, ms, i) =~= without(s, c, c + 1, m.start, m.value_end));
    } else {
        assert(removed(s, ms, i) =~= without(s, m.start, m.value_end, m.value_end, m.value_end));
    }
}

proof fn lemma_gone_with_comma(s: Seq<char>, t: Seq<char>, n: NodeView, i: int) -> (r: NodeView)
    requires
        object_at(s, n),
        0 <= i < n.members->0.len(),
        n.members->0[i].comma is Some,
        ({
            let m = n.members->0[i];
            let c = m.comma->0;
            &&& t.len() == s.len() + m.start - m.value_end - 1
            &&& same_text(s, t, 0, m.start, 0)
            &&& same_text(s, t, m.value_end, c, m.start - m.value_end)
            &&& same_text(s, t, c + 1, s.len() as int, m.start - m.value_end - 1)
        }),
    ensures
        rewritten(s, t, n, r),
        entries(t, r.members->0) == entries(s, n.members->0).remove(i),
{
    let ms = n.members->0;
    let m = ms[i];
    let c = m.comma->0;
    let d = m.start - m.value_end - 1;
    lemma_taken_with_comma(s, t, n, i);
    lemma_object(s, n);
    let all = ms.take(i) + moved_all(ms.skip(i + 1), d);
    assert(same_text(s, t, 0, n.start + 1, 0));
    assert(same_text(s, t, n.end, s.len() as int, d));
    let r = lemma_rewritten(s, t, n, all, d);
    assert forall|j: int| 0 <= j < ms.len() implies 0 <= (#[trigger] ms[j]).value_start <= ms[j].value_end
        <= s.len() by {
        assert(member_before(ms[j], n.end - 1));
    }
    assert forall|j: int| 0 <= j < i implies (#[trigger] ms[j]).value_end <= m.start by {
        assert(ms[j].value_end <= ms[i].start);
    }
    assert forall|j: int| i < j < ms.len() implies (#[trigger] ms[j]).value_start >= c + 1 by {
        assert(ms[i].comma->0 < ms[j].start);
        assert(member_before(ms[j], n.end - 1));
    }
    lemma_entries_without(s, t, ms, i, d, m.start, c + 1);
    r
}

proof fn lemma_gone_last(s: Seq<char>, t: Seq<char>, n: NodeView, i: int) -> (r: NodeView)
    requires
        object_at(s, n),
        0 < i < n.members->0.len(),
        n.members->0[i].comma is None,
        n.members->0[i - 1].comma is Some,
        ({
            let m = n.members->0[i];
            let b = n.members->0[i - 1];
            let c = b.comma->0;
            &&& t.len() == s.len() + m.start - m.value_end - 1
            &&& same_text(s, t, 0, c, 0)
            &&& same_text(s, t, c + 1, m.start, -1)
            &&& same_text(s, t, m.value_end, s.len() as int, m.start - m.value_end - 1)
        }),
    ensures
        rewritten(s, t, n, r),
        entries(t, r.members->0) == entries(s, n.members->0).remove(i),
{
    let ms = n.members->0;
    let m = ms[i];
    let b = ms[i - 1];
    let c = b.comma->0;
    let d = m.start - m.value_end - 1;
    let k = lemma_taken_last(s, t, n, i);
    lemma_object(s, n);
    let kept = MemberView { value_end: k, comma: None, ..b };
    let all = ms.take(i - 1).push(kept);
    assert(same_text(s, t, 0, n.start + 1, 0));
    assert(same_text(s, t, n.end, s.len() as int, d));
    let r = lemma_rewritten(s, t, n, all, d);
    assert(member_before(b, n.end - 1));
    assert forall|j: int| 0 <= j < i - 1 implies (#[trigger] ms.take(i - 1)[j]).value_end <= b.value_end && 0
        <= ms.take(i - 1)[j].value_start <= ms.take(i - 1)[j].value_end by {
        assert(member_before(ms[j], n.end - 1));
        assert(ms[j].value_end <= ms[i - 1].start);
    }
    lemma_entries_kept(s, t, ms.take(i - 1), ms.take(i - 1), b.value_end);
    lemma_marked_source(s, t, b.value_start, b.value_end, k);
    assert(entries(t, all) =~= entries(s, ms).remove(i)) by {
        let front = entries(s, ms.take(i - 1));
        let last = (b.key, unmarked(s.subrange(b.value_start, b.value_end)));
        assert(entries(t, all) =~= front.push(last)) by {
            assert(entries(t, ms.take(i - 1)) == front);
            assert forall|j: int| 0 <= j < i - 1 implies #[trigger] entries(t, all)[j] == front[j] by {
                assert(entries(t, ms.take(i - 1))[j] == front[j]);
            }
        }
        assert(entries(s, ms).remove(i) =~= front.push(last));
    }
    r
}

/// A source that has only byte order marks more at its end.
proof fn lemma_marked_source(s: Seq<char>, t: Seq<char>, a: int, e: int, k: int)
    requires
        0 <= a <= e <= k <= t.len(),
        e <= s.len(),
        same_text(s, t, 0, e, 0),
        marks_between(t, e, k),
    ensures
        unmarked(t.subrange(a, k)) == unmarked(s.subrange(a, e)),
{
    let x = t.subrange(a, k);
    assert forall|i: int| e - a <= i < x.len() implies #[trigger] x[i] == '\u{feff}' by {
        assert(t[a + i] == '\u{feff}');
    }
    lemma_unmarked(x, e - a);
    assert(x.take(e - a) =~= s.subrange(a, e)) by {
        assert forall|i: int| 0 <= i < e - a implies x[i] == s.subrange(a, e)[i] by {
            assert(s[a + i] == t[a + i + 0]);
        }
    }
}

/// The properties around one that is taken out with its comma.
proof fn lemma_entries_without(s: Seq<char>, t: Seq<char>, ms: Seq<MemberView>, i: int, d: int, a: int, f: int)
    requires
        0 <= i < ms.len(),
        same_text(s, t, 0, a, 0),
        same_text(s, t, f, s.len() as int, d),
        t.len() == s.len() + d,
        a <= f,
        forall|j: int|
            0 <= j < ms.len() ==> 0 <= (#[trigger] ms[j]).value_start <= ms[j].value_end <= s.len(),
        forall|j: int| 0 <= j < i ==> (#[trigger] ms[j]).value_end <= a,
        forall|j: int| i < j < ms.len() ==> (#[trigger] ms[j]).value_start >= f,
        0 <= f + d,
    ensures
        entries(t, ms.take(i) + moved_all(ms.skip(i + 1), d)) == entries(s, ms).remove(i),
{
    let all = ms.take(i) + moved_all(ms.skip(i + 1), d);
    let want = entries(s, ms).remove(i);
    assert forall|j: int| 0 <= j < all.len() implies #[trigger] entries(t, all)[j] == want[j] by {
        if j < i {
            let x = ms[j].value_start;
            let y = ms[j].value_end;
            assert(all[j] == ms[j]);
            assert(t.subrange(x, y) =~= s.subrange(x, y)) by {
                assert forall|k: int| 0 <= k < y - x implies t.subrange(x, y)[k] == s.subrange(x, y)[k] by {
                    assert(s[x + k] == t[x + k + 0]);
                }
            }
        } else {
            let x = ms[j + 1].value_start;
            let y = ms[j + 1].value_end;
            assert(all[j] == moved(ms[j + 1], d));
            assert(t.subrange(x + d, y + d) =~= s.subrange(x, y)) by {
                assert forall|k: int| 0 <= k < y - x implies t.subrange(x + d, y + d)[k] == s.subrange(x, y)[k] by {
                    assert(s[x + k] == t[x + k + d]);
                }
            }
        }
    }
    assert(entries(t, all) =~= want);
}

// ---------------------------------------------------------------------------------------------
// Replacing

/// `t` is `s` with `value` in place of what stands from `a` up to `b`.
pub open spec fn put_over(s: Seq<char>, t: Seq<char>, a: int, b: int, value: Seq<char>) -> bool {
    let d = a + value.len() - b;
    &&& t.len() == s.len() + d
    &&& same_text(s, t, 0, a, 0)
    &&& same_text(value, t, 0, value.len() as int, a)
    &&& same_text(s, t, b, s.len() as int, d)
}

proof fn lemma_put_over(s: Seq<char>, a: int, b: int, value: Seq<char>)
    requires
        0 <= a <= b <= s.len(),
    ensures
        put_over(s, replaced(s, a, b, value), a, b, value),
{
}

/// The property with a value that ends at `k`, in a text that is longer by `d`.
pub open spec fn with_value(m: MemberView, k: int, d: int) -> MemberView {
    MemberView {
        value_end: k,
        comma: match m.comma {
            Some(c) => Some(c + d),
            None => None,
        },
        ..m
    }
}

/// A value that is put where another one began is read there.
proof fn lemma_value_there(s: Seq<char>, t: Seq<char>, p: int, a: int, value: Seq<char>, after: int) -> (k: int)
    requires
        0 <= p <= a < s.len(),
        trivia(s, p) == Ok::<int, Fault>(a),
        one_value(value),
        same_text(s, t, p, a, 0),
        same_text(value, t, 0, value.len() as int, a),
        a + value.len() <= after < t.len(),
        trivia(t, a + value.len()) == Ok::<int, Fault>(after),
        t[after] == ',' || t[after] == '}',
    ensures
        node(t, p) is Ok,
        node(t, p)->Ok_0.start == a,
        node(t, p)->Ok_0.end == k,
        a + value.len() <= k <= after,
        marks_between(t, a + value.len(), k),
        trivia(t, k) == Ok::<int, Fault>(after),
{
    lemma_trivia_local(s, t, p, a, 0);
    lemma_node_marked(value, t, 0, a, after);
    lemma_node(t, a);
    lemma_trivia(t, a);
    node(t, a)->Ok_0.end
}

/// The property is read with its new value.
#[verifier::rlimit(60)]
#[verifier::spinoff_prover]
proof fn lemma_value_put(
    s: Seq<char>,
    t: Seq<char>,
    n: NodeView,
    i: int,
    value: Seq<char>,
) -> (r: (int, Read, Read, int))
    requires
        object_at(s, n),
        0 <= i < n.members->0.len(),
        one_value(value),
        put_over(s, t, n.members->0[i].value_start, n.members->0[i].value_end, value),
    ensures
        ({
            let ms = n.members->0;
            let (p, x, y, k) = r;
            let e = ms[i].value_start + value.len();
            let d = e - ms[i].value_end;
            &&& p == place(ms, n.start + 1, i)
            &&& n.start < p <= ms[i].value_start
            &&& forall|j: int| 0 <= j < i ==> (#[trigger] ms[j]).comma is Some
            &&& reads(t, p, ms.take(i), y)
            &&& member_read(t, y) == with_value(ms[i], k, d)
            &&& e <= k <= t.len()
            &&& marks_between(t, e, k)
            &&& next_place(t, y) == next_place(s, x) + d
            &&& ms[i].value_end <= next_place(s, x) <= s.len()
            &&& members(s, next_place(s, x), ms.take(i + 1)) == Ok::<(Seq<MemberView>, int), Fault>((ms, n.end))
        }),
{
    let ms = n.members->0;
    let (p, x) = lemma_read_at(s, n, i);
    let seen = ms.take(i);
    let a = ms[i].value_start;
    let b = ms[i].value_end;
    let d = a + value.len() - b;
    lemma_reads(s, p, seen, x);
    lemma_name_local(s, t, p, seen, seen, 0, x);
    // What follows.
    lemma_trivia_local(s, t, b, x.after, d);
    assert(s[x.after] == t[x.after + d]);
    lemma_token_char(t, x.after + d);
    let k = lemma_value_there(s, t, x.colon + 1, a, value, x.after + d);
    let found = node(t, x.colon + 1)->Ok_0;
    let y = Read { start: x.start, key: x.key, key_end: x.key_end, colon: x.colon, value: found, after: x.after + d };
    assert(reads(t, p, seen, y));
    assert(member_read(t, y) == with_value(ms[i], k, d));
    (p, x, y, k)
}

/// A property of an object that is given another value is read back with it, at the same place.
pub proof fn lemma_replaced(s: Seq<char>, n: NodeView, i: int, value: Seq<char>) -> (r: NodeView)
    requires
        object_at(s, n),
        0 <= i < n.members->0.len(),
        one_value(value),
    ensures
        ({
            let m = n.members->0[i];
            let t = replaced(s, m.value_start, m.value_end, value);
            &&& rewritten(s, t, n, r)
            &&& entries(t, r.members->0) == entries(s, n.members->0).update(i, (m.key, unmarked(value)))
            &&& r.members->0.len() == n.members->0.len()
            &&& r.members->0[i].value_start == m.value_start
        }),
{
    let m = n.members->0[i];
    lemma_object(s, n);
    assert(member_before(m, n.end - 1));
    let t = replaced(s, m.value_start, m.value_end, value);
    lemma_put_over(s, m.value_start, m.value_end, value);
    lemma_over(s, t, n, i, value)
}

#[verifier::rlimit(60)]
#[verifier::spinoff_prover]
proof fn lemma_over(s: Seq<char>, t: Seq<char>, n: NodeView, i: int, value: Seq<char>) -> (r: NodeView)
    requires
        object_at(s, n),
        0 <= i < n.members->0.len(),
        one_value(value),
        put_over(s, t, n.members->0[i].value_start, n.members->0[i].value_end, value),
    ensures
        rewritten(s, t, n, r),
        r.members->0.len() == n.members->0.len(),
        r.members->0[i].value_start == n.members->0[i].value_start,
        entries(t, r.members->0) == entries(s, n.members->0).update(
            i,
            (n.members->0[i].key, unmarked(value)),
        ),
{
    let ms = n.members->0;
    let m = ms[i];
    let first = n.start + 1;
    let d = m.value_start + value.len() - m.value_end;
    let (p, x, y, k) = lemma_value_put(s, t, n, i, value);
    lemma_object(s, n);
    assert(same_text(s, t, first, p, 0));
    lemma_walk(s, t, first, ms, n.end, i);
    lemma_reads(t, p, ms.take(i), y);
    let seen = ms.take(i).push(with_value(m, k, d));
    let q = next_place(s, x);
    assert(names_within(seen, ms.take(i + 1))) by {
        assert forall|key: Seq<char>| #[trigger] named(seen, key) implies named(ms.take(i + 1), key) by {
            let j = choose|j: int| 0 <= j < seen.len() && #[trigger] seen[j].key == key;
            assert(ms.take(i + 1)[j].key == key);
        }
    }
    lemma_members_bound(s, q, ms.take(i + 1));
    assert(same_text(s, t, q, n.end, d));
    lemma_members_local(s, t, q, ms.take(i + 1), seen, d);
    let all = seen + moved_all(ms.skip(i + 1), d);
    assert(same_text(s, t, 0, first, 0));
    assert(same_text(s, t, n.end, s.len() as int, d));
    let r = lemma_rewritten(s, t, n, all, d);
    lemma_entries_over(s, t, n, i, value, k);
    r
}

/// The properties around one that has another value.
proof fn lemma_entries_over(s: Seq<char>, t: Seq<char>, n: NodeView, i: int, value: Seq<char>, k: int)
    requires
        object_at(s, n),
        0 <= i < n.members->0.len(),
        put_over(s, t, n.members->0[i].value_start, n.members->0[i].value_end, value),
        n.members->0[i].value_start + value.len() <= k <= t.len(),
        marks_between(t, n.members->0[i].value_start + value.len(), k),
    ensures
        ({
            let ms = n.members->0;
            let d = ms[i].value_start + value.len() - ms[i].value_end;
            let all = ms.take(i).push(with_value(ms[i], k, d)) + moved_all(ms.skip(i + 1), d);
            entries(t, all) == entries(s, ms).update(i, (ms[i].key, unmarked(value)))
        }),
{
    lemma_object(s, n);
    let ms = n.members->0;
    let m = ms[i];
    let a = m.value_start;
    let d = a + value.len() - m.value_end;
    let all = ms.take(i).push(with_value(m, k, d)) + moved_all(ms.skip(i + 1), d);
    let want = entries(s, ms).update(i, (m.key, unmarked(value)));
    assert(member_before(m, n.end - 1));
    assert forall|j: int| 0 <= j < all.len() implies #[trigger] entries(t, all)[j] == want[j] by {
        assert(member_before(ms[j], n.end - 1));
        let x = ms[j].value_start;
        let y = ms[j].value_end;
        if j < i {
            assert(all[j] == ms[j]);
            assert(ms[j].value_end <= ms[i].start);
            assert(t.subrange(x, y) =~= s.subrange(x, y)) by {
                assert forall|l: int| 0 <= l < y - x implies t.subrange(x, y)[l] == s.subrange(x, y)[l] by {
                    assert(s[x + l] == t[x + l + 0]);
                }
            }
        } else if j == i {
            assert(all[j] == with_value(m, k, d));
            let source = t.subrange(a, k);
            let size = value.len() as int;
            assert forall|l: int| size <= l < source.len() implies #[trigger] source[l] == '\u{feff}' by {
                assert(t[a + l] == '\u{feff}');
            }
            lemma_unmarked(source, size);
            assert(source.take(size) =~= value) by {
                assert forall|l: int| 0 <= l < size implies source[l] == value[l] by {
                    assert(value[l] == t[l + a]);
                }
            }
        } else {
            assert(all[j] == moved(ms[j], d));
            assert(ms[i].value_end <= ms[j].start);
            assert(t.subrange(x + d, y + d) =~= s.subrange(x, y)) by {
                assert forall|l: int| 0 <= l < y - x implies t.subrange(x + d, y + d)[l] == s.subrange(x, y)[l] by {
                    assert(s[x + l] == t[x + l + d]);
                }
            }
        }
    }
    assert(entries(t, all) =~= want);
}

} // verus!
