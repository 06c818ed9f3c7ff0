//! What a source is made of: what is skipped, and where its parts end.
use crate::form::source::{
    comment_end, fresh_key, line_end, members, name_end, named, node, root_node, scalar_end, string_end, trivia, Fault,
    MemberView, NodeView,
};
use crate::text::whitespace;
use vstd::prelude::*;

verus! {

/// A character that ends a line.
pub open spec fn ends_a_line(c: char) -> bool {
    c == '\n' || c == '\r' || c == '\u{2028}' || c == '\u{2029}'
}

proof fn lemma_line_end(s: Seq<char>, p: int, n: int)
    requires
        0 <= p <= n <= s.len(),
        forall|i: int| p <= i < n ==> !ends_a_line(#[trigger] s[i]),
        n < s.len() ==> ends_a_line(s[n]),
    ensures
        line_end(s, p) == n,
    decreases n - p,
{
    if p < n {
        assert(!ends_a_line(s[p]));
        lemma_line_end(s, p + 1, n);
    }
}

proof fn lemma_comment_end(s: Seq<char>, p: int, n: int)
    requires
        0 <= p <= n < s.len() - 1,
        s[n] == '*' && s[n + 1] == '/',
        forall|i: int| p <= i < n ==> !(#[trigger] s[i] == '*' && s[i + 1] == '/'),
    ensures
        comment_end(s, p) == Some(n),
    decreases n - p,
{
    if p < n {
        assert(!(s[p] == '*' && s[p + 1] == '/'));
        lemma_comment_end(s, p + 1, n);
    }
}

proof fn lemma_no_comment_end(s: Seq<char>, p: int)
    requires
        0 <= p,
        forall|i: int| p <= i < s.len() - 1 ==> !(#[trigger] s[i] == '*' && s[i + 1] == '/'),
    ensures
        comment_end(s, p) is None,
    decreases s.len() - p,
{
    if p + 1 < s.len() {
        assert(!(s[p] == '*' && s[p + 1] == '/'));
        lemma_no_comment_end(s, p + 1);
    }
}

/// White space and the byte order mark are skipped, one by one; anything else that begins no
/// comment is not.
pub proof fn law_space_is_skipped(s: Seq<char>, p: int)
    requires
        0 <= p < s.len(),
    ensures
        whitespace(s[p]) || s[p] == '\u{feff}' ==> trivia(s, p) == trivia(s, p + 1),
        !whitespace(s[p]) && s[p] != '\u{feff}' && s[p] != '/' ==> trivia(s, p) == Ok::<int, Fault>(p),
        s[p] == '/' && (p + 1 == s.len() || (s[p + 1] != '/' && s[p + 1] != '*')) ==> trivia(s, p)
            == Ok::<int, Fault>(p),
{
}

/// A comment of one line goes on to the end of the line, whatever is in it.
pub proof fn law_line_comments_are_skipped(s: Seq<char>, p: int, n: int)
    requires
        0 <= p,
        p + 2 <= n <= s.len(),
        s[p] == '/' && s[p + 1] == '/',
        forall|i: int| p + 2 <= i < n ==> !ends_a_line(#[trigger] s[i]),
        n < s.len() ==> ends_a_line(s[n]),
    ensures
        trivia(s, p) == trivia(s, n),
{
    lemma_line_end(s, p + 2, n);
}

/// A comment of several lines goes on to the first end of one, whatever is in it, and has to have
/// one.
pub proof fn law_block_comments_are_skipped(s: Seq<char>, p: int, n: int)
    requires
        0 <= p,
        p + 2 <= n <= s.len(),
        s[p] == '/' && s[p + 1] == '*',
        forall|i: int| p + 2 <= i < n && i + 1 < s.len() ==> !(#[trigger] s[i] == '*' && s[i + 1] == '/'),
    ensures
        n < s.len() - 1 && s[n] == '*' && s[n + 1] == '/' ==> trivia(s, p) == trivia(s, n + 2),
        n == s.len() ==> trivia(s, p) == Err::<int, Fault>(Fault::UnterminatedComment),
{
    if n < s.len() - 1 && s[n] == '*' && s[n + 1] == '/' {
        lemma_comment_end(s, p + 2, n);
    }
    if n == s.len() {
        lemma_no_comment_end(s, p + 2);
    }
}

/// A string ends at the first quote of its own kind that no backslash stands before; the other
/// quote is part of it. Without such a quote it does not end.
pub proof fn law_strings_end_at_their_quote(s: Seq<char>, p: int, n: int, quote: char)
    requires
        0 <= p <= n <= s.len(),
        quote == '\'' || quote == '"',
        forall|i: int| p <= i < n ==> #[trigger] s[i] != quote && s[i] != '\\',
    ensures
        n < s.len() && s[n] == quote ==> string_end(s, p, quote) == Ok::<int, Fault>(n + 1),
        n == s.len() ==> string_end(s, p, quote) == Err::<int, Fault>(Fault::UnterminatedString),
        n + 1 < s.len() && s[n] == '\\' ==> string_end(s, p, quote) == string_end(s, n + 2, quote),
    decreases n - p,
{
    if p < n {
        assert(s[p] != quote && s[p] != '\\');
        law_strings_end_at_their_quote(s, p + 1, n, quote);
    }
}

/// A character that ends a plain value.
pub open spec fn ends_a_value(c: char) -> bool {
    whitespace(c) || c == ',' || c == '}' || c == ']' || c == '/'
}

/// A character that ends a plain name.
pub open spec fn ends_a_name(c: char) -> bool {
    whitespace(c) || c == ':' || c == '/'
}

/// A plain value goes on to the next space, comma, closing bracket or comment.
pub proof fn law_plain_values_end(s: Seq<char>, p: int, n: int)
    requires
        0 <= p <= n <= s.len(),
        forall|i: int| p <= i < n ==> !ends_a_value(#[trigger] s[i]),
        n < s.len() ==> ends_a_value(s[n]),
    ensures
        scalar_end(s, p) == n,
    decreases n - p,
{
    if p < n {
        assert(!ends_a_value(s[p]));
        law_plain_values_end(s, p + 1, n);
    }
}

/// A plain name goes on to the next space, colon or comment.
pub proof fn law_plain_names_end(s: Seq<char>, p: int, n: int)
    requires
        0 <= p <= n <= s.len(),
        forall|i: int| p <= i < n ==> !ends_a_name(#[trigger] s[i]),
        n < s.len() ==> ends_a_name(s[n]),
    ensures
        name_end(s, p) == n,
    decreases n - p,
{
    if p < n {
        assert(!ends_a_name(s[p]));
        law_plain_names_end(s, p + 1, n);
    }
}

/// What a value is shows at its first character: an object, an array, a string, or something
/// plain. Only an object has properties, and an empty one has none.
pub proof fn law_values_by_their_first_character(s: Seq<char>, p: int, t: int)
    requires
        0 <= p <= t < s.len(),
        trivia(s, p) == Ok::<int, Fault>(t),
    ensures
        node(s, p) matches Ok(v) ==> v.start == t && (v.members is Some <==> s[t] == '{'),
        s[t] == '{' && (trivia(s, t + 1) matches Ok(e) && t < e < s.len() && s[e] == '}') ==> node(s, p) == Ok::<
            NodeView,
            Fault,
        >(NodeView { start: t, end: trivia(s, t + 1)->Ok_0 + 1, members: Some(Seq::empty()) }),
        s[t] == '"' || s[t] == '\'' ==> (node(s, p) matches Ok(v) ==> string_end(s, t + 1, s[t]) == Ok::<int, Fault>(
            v.end,
        )),
        s[t] != '{' && s[t] != '[' && s[t] != '"' && s[t] != '\'' ==> (node(s, p) matches Ok(v) ==> v.end == scalar_end(
            s,
            t,
        ) && v.end > t),
{
}

/// A property without a colon is refused, and so is a second one of the same name.
pub proof fn law_properties_are_well_formed(
    s: Seq<char>,
    p: int,
    t: int,
    k: int,
    key: Seq<char>,
    seen: Seq<MemberView>,
)
    requires
        0 <= p <= t < s.len(),
        trivia(s, p) == Ok::<int, Fault>(t),
        s[t] != '}',
        crate::form::source::key_end(s, t) == Ok::<int, Fault>(k),
        crate::form::source::is_key_source(s.subrange(t, k), key),
    ensures
        named(seen, key) ==> members(s, p, seen) == Err::<(Seq<MemberView>, int), Fault>(Fault::DuplicateKey(key)),
        named(seen, key) <==> fresh_key(Ok(Some(key)), seen) is Err,
        !named(seen, key) && (trivia(s, k) matches Ok(c) && t <= c < s.len() && s[c] != ':') ==> members(s, p, seen)
            == Err::<(Seq<MemberView>, int), Fault>(Fault::MissingColon),
{
}

/// A source is one object with nothing but space and comments around it.
pub proof fn law_a_source_is_one_object(s: Seq<char>)
    ensures
        root_node(s) matches Ok(n) ==> {
            &&& trivia(s, 0) == Ok::<int, Fault>(n.start)
            &&& s[n.start] == '{'
            &&& n.members is Some
            &&& trivia(s, n.end) == Ok::<int, Fault>(s.len() as int)
        },
{
}

} // verus!
