//! What is read of a source depends on nothing but the text that it is read from: the same text
//! elsewhere, or with something else around it, is read in the same way.
use crate::form::source::{
    comment_end, elements, fresh_key, json5_key, key_end, lemma_node, lemma_trivia,
    line_end, member, members, name_end, named, newline_like, node, scalar_end, string_end, trivia,
    two_at, Fault, MemberView, NodeView,
};
use crate::text::whitespace;
use vstd::prelude::*;

verus! {

/// The text of `s` from `a` up to `b` stands in `t`, `d` characters further on.
pub open spec fn same_text(s: Seq<char>, t: Seq<char>, a: int, b: int, d: int) -> bool {
    &&& a < b ==> 0 <= a && b <= s.len() && 0 <= a + d && b + d <= t.len()
    &&& forall|i: int| a <= i < b ==> #[trigger] s[i] == t[i + d]
}

proof fn lemma_line_end_local(s: Seq<char>, t: Seq<char>, p: int, d: int)
    requires
        0 <= p <= s.len(),
        line_end(s, p) < s.len(),
        same_text(s, t, p, line_end(s, p) + 1, d),
        0 <= p + d,
    ensures
        line_end(t, p + d) == line_end(s, p) + d,
        p <= line_end(s, p),
        newline_like(s[line_end(s, p)]),
    decreases s.len() - p,
{
    if p < s.len() && !newline_like(s[p]) {
        lemma_line_end_bound(s, p + 1);
        assert(s[p] == t[p + d]);
        lemma_line_end_local(s, t, p + 1, d);
    } else {
        assert(s[p] == t[p + d]);
    }
}

proof fn lemma_line_end_bound(s: Seq<char>, p: int)
    requires
        0 <= p <= s.len(),
    ensures
        p <= line_end(s, p) <= s.len(),
        line_end(s, p) < s.len() ==> newline_like(s[line_end(s, p)]),
        forall|i: int| p <= i < line_end(s, p) ==> !newline_like(#[trigger] s[i]),
    decreases s.len() - p,
{
    if p < s.len() && !newline_like(s[p]) {
        lemma_line_end_bound(s, p + 1);
    }
}

pub proof fn lemma_comment_end_local(s: Seq<char>, t: Seq<char>, p: int, d: int)
    requires
        0 <= p,
        0 <= p + d,
        comment_end(s, p) is Some,
        same_text(s, t, p, comment_end(s, p)->0 + 2, d),
    ensures
        comment_end(t, p + d) == Some(comment_end(s, p)->0 + d),
        p <= comment_end(s, p)->0,
        comment_end(s, p)->0 + 2 <= s.len(),
        s[comment_end(s, p)->0 + 1] == '/',
    decreases s.len() - p,
{
    lemma_comment_end_bound(s, p);
    assert(s[p] == t[p + d]);
    assert(s[p + 1] == t[p + 1 + d]);
    if !(s[p] == '*' && s[p + 1] == '/') {
        lemma_comment_end_local(s, t, p + 1, d);
    }
}

pub proof fn lemma_comment_end_bound(s: Seq<char>, p: int)
    requires
        0 <= p,
    ensures
        comment_end(s, p) is Some ==> p <= comment_end(s, p)->0 && comment_end(s, p)->0 + 2 <= s.len()
            && s[comment_end(s, p)->0 + 1] == '/',
    decreases s.len() - p,
{
    if p + 1 < s.len() && !(s[p] == '*' && s[p + 1] == '/') {
        lemma_comment_end_bound(s, p + 1);
    }
}

/// White space and comments are passed over wherever they stand: what is behind them decides
/// where they end.
pub proof fn lemma_trivia_local(s: Seq<char>, t: Seq<char>, p: int, q: int, d: int)
    requires
        0 <= p <= s.len(),
        0 <= p + d <= t.len(),
        trivia(s, p) == Ok::<int, Fault>(q),
        q < s.len() || t.len() == s.len() + d,
        same_text(s, t, p, q, d),
    ensures
        trivia(t, p + d) == trivia(t, q + d),
        p <= q <= s.len(),
    decreases s.len() - p,
{
    lemma_trivia(s, p);
    if p < q {
        assert(s[p] == t[p + d]);
        if whitespace(s[p]) || s[p] == '\u{feff}' {
            lemma_trivia(s, p + 1);
            lemma_trivia_local(s, t, p + 1, q, d);
        } else if two_at(s, p, '/', '/') {
            lemma_line_end_bound(s, p + 2);
            let e = line_end(s, p + 2);
            lemma_trivia(s, e);
            assert(s[p + 1] == t[p + 1 + d]);
            if e < s.len() {
                assert(newline_like(s[e]));
                assert(whitespace(s[e]));
                lemma_trivia(s, e + 1);
                lemma_line_end_local(s, t, p + 2, d);
            } else {
                lemma_line_to_the_end(s, t, p + 2, d);
            }
            lemma_trivia_local(s, t, e, q, d);
        } else if two_at(s, p, '/', '*') {
            lemma_comment_end_bound(s, p + 2);
            let e = comment_end(s, p + 2)->0;
            lemma_trivia(s, e + 2);
            assert(s[p + 1] == t[p + 1 + d]);
            lemma_comment_end_local(s, t, p + 2, d);
            lemma_trivia_local(s, t, e + 2, q, d);
        }
    }
}

proof fn lemma_line_to_the_end(s: Seq<char>, t: Seq<char>, p: int, d: int)
    requires
        0 <= p <= s.len(),
        0 <= p + d,
        line_end(s, p) == s.len(),
        t.len() == s.len() + d,
        same_text(s, t, p, s.len() as int, d),
    ensures
        line_end(t, p + d) == t.len(),
    decreases s.len() - p,
{
    if p < s.len() {
        assert(s[p] == t[p + d]);
        lemma_line_to_the_end(s, t, p + 1, d);
    }
}

/// Where white space ends, no matter how much of it there was.
pub open spec fn at_token(s: Seq<char>, p: int) -> bool {
    trivia(s, p) == Ok::<int, Fault>(p)
}

/// White space and comments end where none begin.
pub proof fn lemma_trivia_ends(s: Seq<char>, p: int, q: int)
    requires
        0 <= p <= s.len(),
        trivia(s, p) == Ok::<int, Fault>(q),
    ensures
        at_token(s, q),
        p <= q <= s.len(),
    decreases s.len() - p,
{
    lemma_trivia(s, p);
    if p < s.len() {
        if whitespace(s[p]) || s[p] == '\u{feff}' {
            lemma_trivia_ends(s, p + 1, q);
        } else if two_at(s, p, '/', '/') {
            lemma_line_end_bound(s, p + 2);
            lemma_trivia_ends(s, line_end(s, p + 2), q);
        } else if two_at(s, p, '/', '*') {
            lemma_comment_end_bound(s, p + 2);
            lemma_trivia_ends(s, comment_end(s, p + 2)->0 + 2, q);
        }
    }
}

pub proof fn lemma_string_end_local(s: Seq<char>, t: Seq<char>, p: int, quote: char, d: int)
    requires
        0 <= p,
        0 <= p + d,
        string_end(s, p, quote) is Ok,
        same_text(s, t, p, string_end(s, p, quote)->Ok_0, d),
    ensures
        string_end(t, p + d, quote) == Ok::<int, Fault>(string_end(s, p, quote)->Ok_0 + d),
        p < string_end(s, p, quote)->Ok_0 <= s.len(),
    decreases s.len() - p,
{
    lemma_string_end_bound(s, p, quote);
    assert(s[p] == t[p + d]);
    if s[p] != quote {
        if s[p] == '\\' {
            lemma_string_end_bound(s, p + 2, quote);
            assert(s[p + 1] == t[p + 1 + d]);
            lemma_string_end_local(s, t, p + 2, quote, d);
        } else {
            lemma_string_end_local(s, t, p + 1, quote, d);
        }
    }
}

proof fn lemma_string_end_bound(s: Seq<char>, p: int, quote: char)
    requires
        0 <= p,
    ensures
        string_end(s, p, quote) is Ok ==> p < string_end(s, p, quote)->Ok_0 <= s.len(),
    decreases s.len() - p,
{
    if p < s.len() && s[p] != quote {
        if s[p] == '\\' {
            if p + 1 < s.len() {
                lemma_string_end_bound(s, p + 2, quote);
            }
        } else {
            lemma_string_end_bound(s, p + 1, quote);
        }
    }
}

proof fn lemma_name_end_local(s: Seq<char>, t: Seq<char>, p: int, d: int)
    requires
        0 <= p <= s.len(),
        0 <= p + d,
        name_end(s, p) < s.len(),
        same_text(s, t, p, name_end(s, p) + 1, d),
    ensures
        name_end(t, p + d) == name_end(s, p) + d,
        p <= name_end(s, p),
    decreases s.len() - p,
{
    lemma_name_end_bound(s, p);
    assert(s[p] == t[p + d]);
    if !(whitespace(s[p]) || s[p] == ':' || s[p] == '/') {
        lemma_name_end_local(s, t, p + 1, d);
    }
}

proof fn lemma_name_end_bound(s: Seq<char>, p: int)
    requires
        0 <= p <= s.len(),
    ensures
        p <= name_end(s, p) <= s.len(),
    decreases s.len() - p,
{
    if p < s.len() && !(whitespace(s[p]) || s[p] == ':' || s[p] == '/') {
        lemma_name_end_bound(s, p + 1);
    }
}

/// What ends an unquoted value.
pub open spec fn value_stop(c: char) -> bool {
    whitespace(c) || c == ',' || c == '}' || c == ']' || c == '/'
}

pub proof fn lemma_scalar_end_bound(s: Seq<char>, p: int)
    requires
        0 <= p <= s.len(),
    ensures
        p <= scalar_end(s, p) <= s.len(),
        scalar_end(s, p) < s.len() ==> value_stop(s[scalar_end(s, p)]),
    decreases s.len() - p,
{
    if p < s.len() && !value_stop(s[p]) {
        lemma_scalar_end_bound(s, p + 1);
    }
}

/// A value that ends at `e` in `s` ends `d` characters further on in `t`: there the text ends,
/// or something that ends a value follows, or what follows it in `s`.
pub open spec fn value_ends(s: Seq<char>, t: Seq<char>, e: int, d: int) -> bool {
    ||| e + d == t.len()
    ||| 0 <= e + d < t.len() && value_stop(t[e + d])
    ||| 0 <= e + d < t.len() && e < s.len() && t[e + d] == s[e]
}

proof fn lemma_scalar_end_local(s: Seq<char>, t: Seq<char>, p: int, d: int)
    requires
        0 <= p <= s.len(),
        0 <= p + d <= t.len(),
        same_text(s, t, p, scalar_end(s, p), d),
        value_ends(s, t, scalar_end(s, p), d),
    ensures
        scalar_end(t, p + d) == scalar_end(s, p) + d,
    decreases s.len() - p,
{
    lemma_scalar_end_bound(s, p);
    if p < s.len() && !value_stop(s[p]) {
        lemma_scalar_end_bound(s, p + 1);
        assert(s[p] == t[p + d]);
        lemma_scalar_end_local(s, t, p + 1, d);
    }
}

/// A value that is neither an object nor an array nor a string.
pub open spec fn bare(s: Seq<char>, start: int) -> bool {
    s[start] != '{' && s[start] != '[' && s[start] != '\'' && s[start] != '"'
}

pub open spec fn moved(m: MemberView, d: int) -> MemberView {
    MemberView {
        key: m.key,
        start: m.start + d,
        value_start: m.value_start + d,
        value_end: m.value_end + d,
        comma: match m.comma {
            Some(c) => Some(c + d),
            None => None,
        },
    }
}

pub open spec fn moved_all(ms: Seq<MemberView>, d: int) -> Seq<MemberView> {
    Seq::new(ms.len(), |i: int| moved(ms[i], d))
}

pub open spec fn moved_node(n: NodeView, d: int) -> NodeView {
    NodeView {
        start: n.start + d,
        end: n.end + d,
        members: match n.members {
            Some(ms) => Some(moved_all(ms, d)),
            None => None,
        },
    }
}

/// Every name in `a` is one in `b`.
pub open spec fn names_within(a: Seq<MemberView>, b: Seq<MemberView>) -> bool {
    forall|key: Seq<char>| #[trigger] named(a, key) ==> named(b, key)
}

proof fn lemma_names_push(a: Seq<MemberView>, b: Seq<MemberView>, x: MemberView, y: MemberView)
    requires
        names_within(a, b),
        x.key == y.key,
    ensures
        names_within(a.push(x), b.push(y)),
{
    assert forall|key: Seq<char>| #[trigger] named(a.push(x), key) implies named(b.push(y), key) by {
        let i = choose|i: int| 0 <= i < a.push(x).len() && #[trigger] a.push(x)[i].key == key;
        if i < a.len() {
            assert(a[i].key == key);
            assert(named(a, key));
            let j = choose|j: int| 0 <= j < b.len() && #[trigger] b[j].key == key;
            assert(b.push(y)[j].key == key);
        } else {
            assert(b.push(y)[b.len() as int].key == key);
        }
    }
}

/// How one property was read: where it starts, its name and where that ends, the colon, the value
/// and what follows it.
pub struct Read {
    pub start: int,
    pub key: Seq<char>,
    pub key_end: int,
    pub colon: int,
    pub value: NodeView,
    pub after: int,
}

/// From `p` on, behind the properties already `seen`, the property `x` is read.
pub open spec fn reads(s: Seq<char>, p: int, seen: Seq<MemberView>, x: Read) -> bool {
    &&& trivia(s, p) == Ok::<int, Fault>(x.start)
    &&& 0 <= p <= x.start < s.len()
    &&& s[x.start] != '}'
    &&& key_end(s, x.start) == Ok::<int, Fault>(x.key_end)
    &&& fresh_key(json5_key(s.subrange(x.start, x.key_end)), seen) == Ok::<Seq<char>, Fault>(x.key)
    &&& trivia(s, x.key_end) == Ok::<int, Fault>(x.colon)
    &&& x.start <= x.colon < s.len()
    &&& s[x.colon] == ':'
    &&& node(s, x.colon + 1) == Ok::<NodeView, Fault>(x.value)
    &&& trivia(s, x.value.end) == Ok::<int, Fault>(x.after)
    &&& x.colon < x.after < s.len()
    &&& s[x.after] == ',' || s[x.after] == '}'
}

pub open spec fn member_read(s: Seq<char>, x: Read) -> MemberView {
    member(x.key, x.start, x.value, if s[x.after] == ',' { Some(x.after) } else { None })
}

/// Where the next property may begin.
pub open spec fn next_place(s: Seq<char>, x: Read) -> int {
    if s[x.after] == ',' { x.after + 1 } else { x.after }
}

/// Where the properties end.
pub open spec fn closes(s: Seq<char>, p: int, q: int) -> bool {
    0 <= p <= q < s.len() && trivia(s, p) == Ok::<int, Fault>(q) && s[q] == '}'
}

pub proof fn lemma_closes(s: Seq<char>, p: int, q: int, seen: Seq<MemberView>)
    requires
        closes(s, p, q),
    ensures
        members(s, p, seen) == Ok::<(Seq<MemberView>, int), Fault>((seen, q + 1)),
{
}

pub proof fn lemma_reads(s: Seq<char>, p: int, seen: Seq<MemberView>, x: Read)
    requires
        reads(s, p, seen, x),
    ensures
        members(s, p, seen) == members(s, next_place(s, x), seen.push(member_read(s, x))),
        p <= x.start <= x.key_end <= x.colon < x.value.start < x.value.end <= x.after,
        p < next_place(s, x) <= s.len(),
{
    lemma_key_bound(s, x.start);
    lemma_trivia(s, x.key_end);
    lemma_node(s, x.colon + 1);
    lemma_trivia(s, x.value.end);
}

proof fn lemma_key_bound(s: Seq<char>, p: int)
    requires
        0 <= p < s.len(),
    ensures
        key_end(s, p) is Ok ==> p <= key_end(s, p)->Ok_0 <= s.len(),
{
    lemma_string_end_bound(s, p + 1, s[p]);
    lemma_name_end_bound(s, p);
}

/// Properties that can be read end, or one of them is read.
pub proof fn lemma_members_step(s: Seq<char>, p: int, seen: Seq<MemberView>) -> (x: Option<Read>)
    requires
        0 <= p <= s.len(),
        members(s, p, seen) is Ok,
    ensures
        match x {
            Some(x) => reads(s, p, seen, x),
            None => closes(s, p, trivia(s, p)->Ok_0),
        },
{
    lemma_trivia(s, p);
    let t = trivia(s, p)->Ok_0;
    if s[t] == '}' {
        None
    } else {
        let k = key_end(s, t)->Ok_0;
        let key = fresh_key(json5_key(s.subrange(t, k)), seen)->Ok_0;
        let c = trivia(s, k)->Ok_0;
        let v = node(s, c + 1)->Ok_0;
        let e = trivia(s, v.end)->Ok_0;
        let x = Read { start: t, key, key_end: k, colon: c, value: v, after: e };
        assert(reads(s, p, seen, x));
        Some(x)
    }
}

/// What comes of reading properties keeps those that were read before.
pub proof fn lemma_members_bound(s: Seq<char>, p: int, seen: Seq<MemberView>)
    requires
        0 <= p <= s.len(),
        members(s, p, seen) is Ok,
    ensures
        ({
            let r = members(s, p, seen)->Ok_0;
            &&& p < r.1 <= s.len()
            &&& s[r.1 - 1] == '}'
            &&& r.0.len() >= seen.len()
            &&& r.0.take(seen.len() as int) == seen
        }),
    decreases s.len() - p,
{
    match lemma_members_step(s, p, seen) {
        None => {
            lemma_closes(s, p, trivia(s, p)->Ok_0, seen);
            assert(seen.take(seen.len() as int) =~= seen);
        },
        Some(x) => {
            lemma_reads(s, p, seen, x);
            let more = seen.push(member_read(s, x));
            if s[x.after] == '}' {
                lemma_token_stays(s, x.value.end, x.after);
                lemma_closes(s, x.after, x.after, more);
                assert(more.take(seen.len() as int) =~= seen);
            } else {
                lemma_members_bound(s, next_place(s, x), more);
                let r = members(s, p, seen)->Ok_0;
                assert(r.0.take(seen.len() as int) =~= r.0.take(more.len() as int).take(seen.len() as int));
                assert(more.take(seen.len() as int) =~= seen);
            }
        },
    }
}

proof fn lemma_token_stays(s: Seq<char>, p: int, q: int)
    requires
        0 <= p <= s.len(),
        trivia(s, p) == Ok::<int, Fault>(q),
    ensures
        trivia(s, q) == Ok::<int, Fault>(q),
        p <= q <= s.len(),
{
    lemma_trivia_ends(s, p, q);
}

/// A character that begins neither white space nor a comment.
pub open spec fn token_char(c: char) -> bool {
    !whitespace(c) && c != '\u{feff}' && c != '/'
}

pub proof fn lemma_token_char(s: Seq<char>, p: int)
    requires
        0 <= p < s.len(),
    ensures
        token_char(s[p]) ==> trivia(s, p) == Ok::<int, Fault>(p),
        trivia(s, p) == Ok::<int, Fault>(p) && s[p] != '/' ==> token_char(s[p]),
{
    lemma_trivia(s, p + 1);
}

/// The value at `p` is read in the same way elsewhere.
pub proof fn lemma_node_local(s: Seq<char>, t: Seq<char>, p: int, d: int)
    requires
        0 <= p <= s.len(),
        0 <= p + d <= t.len(),
        node(s, p) is Ok,
        same_text(s, t, p, node(s, p)->Ok_0.end, d),
        bare(s, node(s, p)->Ok_0.start) ==> value_ends(s, t, node(s, p)->Ok_0.end, d),
    ensures
        node(t, p + d) == Ok::<NodeView, Fault>(moved_node(node(s, p)->Ok_0, d)),
    decreases s.len() - p, 1int,
{
    lemma_node(s, p);
    lemma_trivia(s, p);
    let v = node(s, p)->Ok_0;
    let a = trivia(s, p)->Ok_0;
    lemma_trivia_local(s, t, p, a, d);
    lemma_trivia_ends(s, p, a);
    assert(s[a] == t[a + d]);
    lemma_token_char(s, a);
    lemma_token_char(t, a + d);
    if s[a] == '{' {
        let r = members(s, a + 1, Seq::empty())->Ok_0;
        lemma_members_local(s, t, a + 1, Seq::empty(), Seq::empty(), d);
        assert(r.0.skip(0) =~= r.0);
        assert(Seq::<MemberView>::empty() + moved_all(r.0, d) =~= moved_all(r.0, d));
    } else if s[a] == '[' {
        lemma_elements_local(s, t, a + 1, d);
    } else if s[a] == '\'' || s[a] == '"' {
        lemma_string_end_local(s, t, a + 1, s[a], d);
    } else {
        lemma_scalar_end_local(s, t, a, d);
    }
}

/// A name and its colon are read in the same way elsewhere.
pub proof fn lemma_name_local(
    s: Seq<char>,
    t: Seq<char>,
    p: int,
    seen: Seq<MemberView>,
    seen2: Seq<MemberView>,
    d: int,
    x: Read,
)
    requires
        reads(s, p, seen, x),
        0 <= p + d <= t.len(),
        same_text(s, t, p, x.colon + 1, d),
        !named(seen2, x.key),
    ensures
        trivia(t, p + d) == Ok::<int, Fault>(x.start + d),
        p + d <= x.start + d <= x.colon + d < t.len(),
        t[x.start + d] != '}',
        key_end(t, x.start + d) == Ok::<int, Fault>(x.key_end + d),
        fresh_key(json5_key(t.subrange(x.start + d, x.key_end + d)), seen2) == Ok::<Seq<char>, Fault>(x.key),
        trivia(t, x.key_end + d) == Ok::<int, Fault>(x.colon + d),
        t[x.colon + d] == ':',
{
    lemma_reads(s, p, seen, x);
    lemma_trivia_local(s, t, p, x.start, d);
    lemma_trivia_ends(s, p, x.start);
    assert(s[x.start] == t[x.start + d]);
    // The name.
    if s[x.start] == '\'' || s[x.start] == '"' {
        lemma_string_end_local(s, t, x.start + 1, s[x.start], d);
    } else {
        lemma_name_end_local(s, t, x.start, d);
    }
    if s[x.start] == '/' {
        assert(x.key_end == x.start);
        lemma_trivia_ends(s, x.start, x.start);
        assert(false);
    }
    lemma_token_char(s, x.start);
    lemma_token_char(t, x.start + d);
    assert(t.subrange(x.start + d, x.key_end + d) =~= s.subrange(x.start, x.key_end));
    // The colon.
    lemma_trivia_local(s, t, x.key_end, x.colon, d);
    assert(s[x.colon] == t[x.colon + d]);
    lemma_token_char(t, x.colon + d);
}

/// A property is read in the same way elsewhere, if what follows its value there is in order.
pub proof fn lemma_read_local(
    s: Seq<char>,
    t: Seq<char>,
    p: int,
    seen: Seq<MemberView>,
    seen2: Seq<MemberView>,
    d: int,
    x: Read,
    after: int,
)
    requires
        reads(s, p, seen, x),
        0 <= p + d <= t.len(),
        same_text(s, t, p, x.value.end, d),
        bare(s, x.value.start) ==> value_ends(s, t, x.value.end, d),
        !named(seen2, x.key),
        trivia(t, x.value.end + d) == Ok::<int, Fault>(after),
        after < t.len(),
        t[after] == ',' || t[after] == '}',
    ensures
        reads(t, p + d, seen2, read_moved(x, d, after)),
    decreases s.len() - p, 0int,
{
    lemma_reads(s, p, seen, x);
    lemma_name_local(s, t, p, seen, seen2, d, x);
    lemma_node_local(s, t, x.colon + 1, d);
    lemma_trivia(t, x.value.end + d);
}

pub open spec fn read_moved(x: Read, d: int, after: int) -> Read {
    Read {
        start: x.start + d,
        key: x.key,
        key_end: x.key_end + d,
        colon: x.colon + d,
        value: moved_node(x.value, d),
        after,
    }
}

/// Properties up to the closing brace are read in the same way elsewhere.
#[verifier::rlimit(60)]
pub proof fn lemma_members_local(
    s: Seq<char>,
    t: Seq<char>,
    p: int,
    seen: Seq<MemberView>,
    seen2: Seq<MemberView>,
    d: int,
)
    requires
        0 <= p <= s.len(),
        0 <= p + d <= t.len(),
        members(s, p, seen) is Ok,
        same_text(s, t, p, members(s, p, seen)->Ok_0.1, d),
        names_within(seen2, seen),
    ensures
        ({
            let r = members(s, p, seen)->Ok_0;
            members(t, p + d, seen2) == Ok::<(Seq<MemberView>, int), Fault>(
                (seen2 + moved_all(r.0.skip(seen.len() as int), d), r.1 + d),
            )
        }),
    decreases s.len() - p, 2int,
{
    let r = members(s, p, seen)->Ok_0;
    lemma_members_bound(s, p, seen);
    match lemma_members_step(s, p, seen) {
        None => {
            let q = trivia(s, p)->Ok_0;
            lemma_closes(s, p, q, seen);
            lemma_trivia_local(s, t, p, q, d);
            assert(s[q] == t[q + d]);
            lemma_token_char(t, q + d);
            lemma_closes(t, p + d, q + d, seen2);
            assert(seen2 + moved_all(r.0.skip(seen.len() as int), d) =~= seen2);
        },
        Some(x) => {
            lemma_reads(s, p, seen, x);
            let m = member_read(s, x);
            let more = seen.push(m);
            let next = next_place(s, x);
            lemma_members_bound(s, next, more);
            lemma_trivia_local(s, t, x.value.end, x.after, d);
            assert(s[x.after] == t[x.after + d]);
            assert(s[x.value.end] == t[x.value.end + d]);
            lemma_token_char(t, x.after + d);
            assert(!named(seen2, x.key));
            lemma_read_local(s, t, p, seen, seen2, d, x, x.after + d);
            let y = read_moved(x, d, x.after + d);
            lemma_reads(t, p + d, seen2, y);
            assert(member_read(t, y) == moved(m, d));
            let more2 = seen2.push(moved(m, d));
            lemma_names_push(seen2, seen, moved(m, d), m);
            lemma_members_local(s, t, next, more, more2, d);
            assert(r.0[seen.len() as int] == m) by {
                assert(r.0.take(more.len() as int)[seen.len() as int] == m);
            }
            assert(more2 + moved_all(r.0.skip(more.len() as int), d) =~= seen2 + moved_all(
                r.0.skip(seen.len() as int),
                d,
            ));
        },
    }
}

proof fn lemma_elements_bound(s: Seq<char>, p: int)
    requires
        0 <= p <= s.len(),
    ensures
        elements(s, p) matches Ok(e) ==> p < e <= s.len(),
    decreases s.len() - p,
{
    lemma_trivia(s, p);
    if elements(s, p) is Ok {
        let a = trivia(s, p)->Ok_0;
        if !(a < s.len() && s[a] == ']') {
            lemma_node(s, a);
            let v = node(s, a)->Ok_0;
            lemma_trivia(s, v.end);
            let e = trivia(s, v.end)->Ok_0;
            if s[e] == ',' {
                lemma_elements_bound(s, e + 1);
            } else {
                lemma_elements_bound(s, e);
            }
        }
    }
}

proof fn lemma_elements_local(s: Seq<char>, t: Seq<char>, p: int, d: int)
    requires
        0 <= p <= s.len(),
        0 <= p + d <= t.len(),
        elements(s, p) is Ok,
        same_text(s, t, p, elements(s, p)->Ok_0, d),
    ensures
        elements(t, p + d) == Ok::<int, Fault>(elements(s, p)->Ok_0 + d),
    decreases s.len() - p, 3int,
{
    lemma_elements_bound(s, p);
    lemma_trivia(s, p);
    let a = trivia(s, p)->Ok_0;
    if a < s.len() && s[a] == ']' {
        lemma_trivia_local(s, t, p, a, d);
        assert(s[a] == t[a + d]);
        lemma_token_char(t, a + d);
    } else {
        lemma_trivia_ends(s, p, a);
        lemma_node(s, a);
        let v = node(s, a)->Ok_0;
        assert(trivia(s, a) == Ok::<int, Fault>(a));
        lemma_trivia(s, v.end);
        let e = trivia(s, v.end)->Ok_0;
        if s[e] == ',' {
            lemma_elements_bound(s, e + 1);
        } else {
            lemma_elements_bound(s, e);
        }
        lemma_trivia_local(s, t, p, a, d);
        assert(s[a] == t[a + d]);
        if s[a] == '/' {
            assert(scalar_end(s, a) == a);
            assert(false);
        }
        lemma_token_char(s, a);
        lemma_token_char(t, a + d);
        assert(s[v.end] == t[v.end + d]);
        lemma_node_local(s, t, a, d);
        lemma_trivia_local(s, t, v.end, e, d);
        assert(s[e] == t[e + d]);
        lemma_token_char(t, e + d);
        if s[e] == ',' {
            lemma_elements_local(s, t, e + 1, d);
        } else {
            lemma_elements_local(s, t, e, d);
        }
    }
}

} // verus!
