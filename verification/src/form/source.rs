//! Locates JSON5 properties and changes one of them without touching unrelated source text.
use crate::text::{cat2, cat3, cat4, cat5, chars_of, decimal, decimal_text, is_whitespace, opt_view, same, string_of, views, whitespace};
use crate::form::edits::{
    lemma_number_is_value, lemma_string_is_value, lemma_words_are_values, one_value, quoted, unmarked,
};
use crate::form::readback::{edit_is_read, lacks, law_edits_are_read_back, law_unreadable_names_are_refused};
use vstd::prelude::*;
use vstd::string::StringExecFns;

verus! {

/// The names of the properties of the object that JSON5 reads in a text, and none where it reads
/// something else there; what JSON5 says where the text is not JSON5.
pub uninterp spec fn json5_names(text: Seq<char>) -> Result<Seq<Seq<char>>, Seq<char>>;

pub open spec fn names_result(names: Result<Vec<String>, String>) -> Result<Seq<Seq<char>>, Seq<char>> {
    match names {
        Ok(n) => Ok(views(n@)),
        Err(e) => Err(e@),
    }
}

/// `json5::from_str` into a `serde_json::Value`: whether it accepts the text, which names the map
/// of an object then holds, and what its error says otherwise. All of it depends on the text
/// alone. The values of the properties are dropped here, so nothing is said of what JSON5 reads
/// them as.
#[verifier::external_body]
fn read_json5(text: &str) -> (r: Result<Vec<String>, String>)
    ensures
        names_result(r) == json5_names(text@),
{
    match json5::from_str::<serde_json::Value>(text) {
        Ok(serde_json::Value::Object(map)) => Ok(map.into_iter().map(|(name, _)| name).collect()),
        Ok(_) => Ok(Vec::new()),
        Err(error) => Err(error.to_string()),
    }
}

/// Whether a text is JSON5.
pub open spec fn json5_valid(text: Seq<char>) -> bool {
    json5_names(text) is Ok
}

/// The property name that JSON5 reads in a piece of source; none where it reads no name, and what
/// it says where it reads nothing.
pub open spec fn json5_key(raw: Seq<char>) -> Result<Option<Seq<char>>, Seq<char>> {
    match json5_names("{"@ + raw + ":null}"@) {
        Ok(names) => if names.len() > 0 {
            Ok(Some(names[0]))
        } else {
            Ok(None)
        },
        Err(e) => Err(e),
    }
}

pub open spec fn decoded_key(key: Result<Option<String>, String>) -> Result<Option<Seq<char>>, Seq<char>> {
    match key {
        Ok(k) => Ok(opt_view(k)),
        Err(e) => Err(e@),
    }
}

/// A name is read by putting it into an object of its own.
fn decode_key(raw: &str) -> (r: Result<Option<String>, String>)
    ensures
        decoded_key(r) == json5_key(raw@),
{
    let object = cat3("{", raw, ":null}");
    match read_json5(object.as_str()) {
        Ok(names) => if names.len() > 0 {
            Ok(Some(names[0].clone()))
        } else {
            Ok(None)
        },
        Err(e) => Err(e),
    }
}

/// A text as a JSON string.
pub uninterp spec fn json_string(text: Seq<char>) -> Seq<char>;

/// A text in which JSON5 sees no line end once it is written as a JSON string: JSON leaves the
/// line separator and the paragraph separator as they are, and JSON5 reads neither in a string.
pub open spec fn one_line(text: Seq<char>) -> bool {
    !text.contains('\u{2028}') && !text.contains('\u{2029}')
}

/// JSON5 reads the name `key` in a piece of source.
pub open spec fn is_key_source(source: Seq<char>, key: Seq<char>) -> bool {
    json5_key(source) == Ok::<Option<Seq<char>>, Seq<char>>(Some(key))
}

/// `serde_json::to_string` of a text: the quoted and escaped form, which depends on the text
/// alone. Encoding a text into memory does not fail. The form stands in double quotes, and those
/// within it are escaped, as is every backslash. Where it is the name of a property,
/// `json5::from_str` reads it as the text again, unless a line or paragraph separator is in it:
/// that it refuses.
#[verifier::external_body]
fn encode_string(text: &str) -> (r: String)
    ensures
        r@ == json_string(text@),
        quoted(r@),
        one_line(text@) ==> is_key_source(r@, text@),
        !one_line(text@) ==> json5_key(r@) is Err,
{
    serde_json::to_string(text).unwrap_or_default()
}

/// What is wrong with a source text.
#[derive(Debug, Clone)]
pub enum SourceError {
    UnterminatedComment,
    UnterminatedString,
    UnterminatedEscape,
    MissingValue,
    UnterminatedObject,
    /// What JSON5 says of a property name.
    UnreadableKey(String),
    InvalidKey,
    DuplicateKey(String),
    MissingColon,
    MissingComma,
    MissingArrayComma,
    UnsupportedValue,
    NotAnObject,
    MissingObject,
    ExpectedObject,
    InvalidJson5,
    UnsafeUpdate,
}

/// The same by what its text holds.
pub enum Fault {
    UnterminatedComment,
    UnterminatedString,
    UnterminatedEscape,
    MissingValue,
    UnterminatedObject,
    UnreadableKey(Seq<char>),
    InvalidKey,
    DuplicateKey(Seq<char>),
    MissingColon,
    MissingComma,
    MissingArrayComma,
    UnsupportedValue,
    NotAnObject,
    MissingObject,
    ExpectedObject,
    InvalidJson5,
    UnsafeUpdate,
}

impl View for SourceError {
    type V = Fault;

    open spec fn view(&self) -> Fault {
        match self {
            SourceError::UnterminatedComment => Fault::UnterminatedComment,
            SourceError::UnterminatedString => Fault::UnterminatedString,
            SourceError::UnterminatedEscape => Fault::UnterminatedEscape,
            SourceError::MissingValue => Fault::MissingValue,
            SourceError::UnterminatedObject => Fault::UnterminatedObject,
            SourceError::UnreadableKey(e) => Fault::UnreadableKey(e@),
            SourceError::InvalidKey => Fault::InvalidKey,
            SourceError::DuplicateKey(k) => Fault::DuplicateKey(k@),
            SourceError::MissingColon => Fault::MissingColon,
            SourceError::MissingComma => Fault::MissingComma,
            SourceError::MissingArrayComma => Fault::MissingArrayComma,
            SourceError::UnsupportedValue => Fault::UnsupportedValue,
            SourceError::NotAnObject => Fault::NotAnObject,
            SourceError::MissingObject => Fault::MissingObject,
            SourceError::ExpectedObject => Fault::ExpectedObject,
            SourceError::InvalidJson5 => Fault::InvalidJson5,
            SourceError::UnsafeUpdate => Fault::UnsafeUpdate,
        }
    }
}

/// How a fault is told.
pub open spec fn fault_text(fault: Fault) -> Seq<char> {
    match fault {
        Fault::DuplicateKey(k) => "duplicate configuration key "@ + crate::text::debug_form(k)
            + "; repair using --editor"@,
        Fault::UnreadableKey(e) => e,
        Fault::UnterminatedComment => "unterminated comment"@,
        Fault::UnterminatedString => "unterminated string"@,
        Fault::UnterminatedEscape => "unterminated escape"@,
        Fault::MissingValue => "missing value"@,
        Fault::UnterminatedObject => "unterminated object"@,
        Fault::InvalidKey => "invalid property name"@,
        Fault::MissingColon => "missing colon"@,
        Fault::MissingComma => "missing comma"@,
        Fault::MissingArrayComma => "missing array comma"@,
        Fault::UnsupportedValue => "unsupported JSON5 value"@,
        Fault::NotAnObject => "configuration must be a JSON5 object"@,
        Fault::MissingObject => "missing object"@,
        Fault::ExpectedObject => "expected object"@,
        Fault::InvalidJson5 => "Invalid JSON5; repair using served edit --editor COMMAND"@,
        Fault::UnsafeUpdate => "cannot safely update configuration"@,
    }
}

impl SourceError {
    pub fn message(&self) -> (r: String)
        ensures
            r@ == fault_text(self@),
    {
        match self {
            SourceError::DuplicateKey(k) => {
                let shown = crate::text::debug_text(k.as_str());
                cat3("duplicate configuration key ", shown.as_str(), "; repair using --editor")
            },
            SourceError::UnreadableKey(e) => e.clone(),
            SourceError::UnterminatedComment => "unterminated comment".to_owned(),
            SourceError::UnterminatedString => "unterminated string".to_owned(),
            SourceError::UnterminatedEscape => "unterminated escape".to_owned(),
            SourceError::MissingValue => "missing value".to_owned(),
            SourceError::UnterminatedObject => "unterminated object".to_owned(),
            SourceError::InvalidKey => "invalid property name".to_owned(),
            SourceError::MissingColon => "missing colon".to_owned(),
            SourceError::MissingComma => "missing comma".to_owned(),
            SourceError::MissingArrayComma => "missing array comma".to_owned(),
            SourceError::UnsupportedValue => "unsupported JSON5 value".to_owned(),
            SourceError::NotAnObject => "configuration must be a JSON5 object".to_owned(),
            SourceError::MissingObject => "missing object".to_owned(),
            SourceError::ExpectedObject => "expected object".to_owned(),
            SourceError::InvalidJson5 => "Invalid JSON5; repair using served edit --editor COMMAND".to_owned(),
            SourceError::UnsafeUpdate => "cannot safely update configuration".to_owned(),
        }
    }
}

// ---------------------------------------------------------------------------------------------
// The grammar

pub open spec fn newline_like(c: char) -> bool {
    c == '\n' || c == '\r' || c == '\u{2028}' || c == '\u{2029}'
}

/// Where the line that holds `p` ends.
pub open spec fn line_end(s: Seq<char>, p: int) -> int
    decreases s.len() - p,
{
    if p < 0 || p >= s.len() || newline_like(s[p]) {
        p
    } else {
        line_end(s, p + 1)
    }
}

/// Where the next `*/` at or after `p` begins.
pub open spec fn comment_end(s: Seq<char>, p: int) -> Option<int>
    decreases s.len() - p,
{
    if p < 0 || p + 1 >= s.len() {
        None
    } else if s[p] == '*' && s[p + 1] == '/' {
        Some(p)
    } else {
        comment_end(s, p + 1)
    }
}

/// Whether `a` and `b` are the two characters at `p`.
pub open spec fn two_at(s: Seq<char>, p: int, a: char, b: char) -> bool {
    p + 1 < s.len() && s[p] == a && s[p + 1] == b
}

/// Where the white space and the comments from `p` on end.
pub open spec fn trivia(s: Seq<char>, p: int) -> Result<int, Fault>
    decreases s.len() - p,
{
    if p < 0 || p >= s.len() {
        Ok(p)
    } else if whitespace(s[p]) || s[p] == '\u{feff}' {
        trivia(s, p + 1)
    } else if two_at(s, p, '/', '/') {
        let e = line_end(s, p + 2);
        if e <= p || e > s.len() { Ok(p) } else { trivia(s, e) }
    } else if two_at(s, p, '/', '*') {
        match comment_end(s, p + 2) {
            Some(e) => if e <= p || e + 2 > s.len() { Ok(p) } else { trivia(s, e + 2) },
            None => Err(Fault::UnterminatedComment),
        }
    } else {
        Ok(p)
    }
}

/// Where the string whose body begins at `p` ends, behind its closing quote.
pub open spec fn string_end(s: Seq<char>, p: int, quote: char) -> Result<int, Fault>
    decreases s.len() - p,
{
    if p < 0 || p >= s.len() {
        Err(Fault::UnterminatedString)
    } else if s[p] == quote {
        Ok(p + 1)
    } else if s[p] == '\\' {
        if p + 1 >= s.len() {
            Err(Fault::UnterminatedEscape)
        } else {
            string_end(s, p + 2, quote)
        }
    } else {
        string_end(s, p + 1, quote)
    }
}

/// Where the unquoted property name at `p` ends.
pub open spec fn name_end(s: Seq<char>, p: int) -> int
    decreases s.len() - p,
{
    if p < 0 || p >= s.len() || whitespace(s[p]) || s[p] == ':' || s[p] == '/' {
        p
    } else {
        name_end(s, p + 1)
    }
}

/// Where the unquoted value at `p` ends.
pub open spec fn scalar_end(s: Seq<char>, p: int) -> int
    decreases s.len() - p,
{
    if p < 0 || p >= s.len() || whitespace(s[p]) || s[p] == ',' || s[p] == '}' || s[p] == ']'
        || s[p] == '/' {
        p
    } else {
        scalar_end(s, p + 1)
    }
}

/// One property of an object: its name, where it starts, where its value lies and where the comma
/// behind it is.
#[verifier::ext_equal]
pub struct MemberView {
    pub key: Seq<char>,
    pub start: int,
    pub value_start: int,
    pub value_end: int,
    pub comma: Option<int>,
}

/// A value: where it lies, and its properties where it is an object.
pub struct NodeView {
    pub start: int,
    pub end: int,
    pub members: Option<Seq<MemberView>>,
}

pub open spec fn named(ms: Seq<MemberView>, key: Seq<char>) -> bool {
    exists|i: int| 0 <= i < ms.len() && #[trigger] ms[i].key == key
}

/// Where the property name at `t` ends.
pub open spec fn key_end(s: Seq<char>, t: int) -> Result<int, Fault> {
    if s[t] == '\'' || s[t] == '"' {
        string_end(s, t + 1, s[t])
    } else {
        Ok(name_end(s, t))
    }
}

/// The name that the source from `t` up to `e` writes, which must not be in `seen`.
pub open spec fn fresh_key(decoded: Result<Option<Seq<char>>, Seq<char>>, seen: Seq<MemberView>) -> Result<
    Seq<char>,
    Fault,
> {
    match decoded {
        Err(e) => Err(Fault::UnreadableKey(e)),
        Ok(None) => Err(Fault::InvalidKey),
        Ok(Some(k)) => if named(seen, k) { Err(Fault::DuplicateKey(k)) } else { Ok(k) },
    }
}

/// The value at `p`.
pub open spec fn node(s: Seq<char>, p: int) -> Result<NodeView, Fault>
    decreases s.len() - p, 1int,
{
    match trivia(s, p) {
        Err(f) => Err(f),
        Ok(t) => if t < p || t < 0 || t >= s.len() {
            Err(Fault::MissingValue)
        } else if s[t] == '{' {
            match members(s, t + 1, Seq::empty()) {
                Err(f) => Err(f),
                Ok(r) => Ok(NodeView { start: t, end: r.1, members: Some(r.0) }),
            }
        } else if s[t] == '[' {
            match elements(s, t + 1) {
                Err(f) => Err(f),
                Ok(e) => Ok(NodeView { start: t, end: e, members: None }),
            }
        } else if s[t] == '\'' || s[t] == '"' {
            match string_end(s, t + 1, s[t]) {
                Err(f) => Err(f),
                Ok(e) => Ok(NodeView { start: t, end: e, members: None }),
            }
        } else if scalar_end(s, t) <= t {
            Err(Fault::UnsupportedValue)
        } else {
            Ok(NodeView { start: t, end: scalar_end(s, t), members: None })
        },
    }
}

/// The properties from `p` up to the closing brace, behind those already `seen`, and where the
/// object ends.
pub open spec fn members(s: Seq<char>, p: int, seen: Seq<MemberView>) -> Result<
    (Seq<MemberView>, int),
    Fault,
>
    decreases s.len() - p, 0int,
{
    match trivia(s, p) {
        Err(f) => Err(f),
        Ok(t) => if t < p || t < 0 || t >= s.len() {
            Err(Fault::UnterminatedObject)
        } else if s[t] == '}' {
            Ok((seen, t + 1))
        } else {
            match key_end(s, t) {
                Err(f) => Err(f),
                Ok(k) => match fresh_key(json5_key(s.subrange(t, k)), seen) {
                    Err(f) => Err(f),
                    Ok(key) => match trivia(s, k) {
                        Err(f) => Err(f),
                        Ok(c) => if c < t || c >= s.len() || s[c] != ':' {
                            Err(Fault::MissingColon)
                        } else {
                            match node(s, c + 1) {
                                Err(f) => Err(f),
                                Ok(v) => match trivia(s, v.end) {
                                    Err(f) => Err(f),
                                    Ok(e) => if e <= c || e >= s.len() {
                                        Err(Fault::MissingComma)
                                    } else if s[e] == ',' {
                                        members(
                                            s,
                                            e + 1,
                                            seen.push(member(key, t, v, Some(e))),
                                        )
                                    } else if s[e] == '}' {
                                        members(s, e, seen.push(member(key, t, v, None)))
                                    } else {
                                        Err(Fault::MissingComma)
                                    },
                                },
                            }
                        },
                    },
                },
            }
        },
    }
}

/// Where the array whose elements begin at `p` ends.
pub open spec fn elements(s: Seq<char>, p: int) -> Result<int, Fault>
    decreases s.len() - p, 2int,
{
    match trivia(s, p) {
        Err(f) => Err(f),
        Ok(t) => if t < p || t > s.len() {
            Err(Fault::MissingValue)
        } else if 0 <= t < s.len() && s[t] == ']' {
            Ok(t + 1)
        } else {
            match node(s, t) {
                Err(f) => Err(f),
                Ok(v) => match trivia(s, v.end) {
                    Err(f) => Err(f),
                    Ok(e) => if e <= t || e >= s.len() {
                        Err(Fault::MissingArrayComma)
                    } else if s[e] == ',' {
                        elements(s, e + 1)
                    } else if s[e] == ']' {
                        elements(s, e)
                    } else {
                        Err(Fault::MissingArrayComma)
                    },
                },
            }
        },
    }
}

pub open spec fn member(key: Seq<char>, start: int, v: NodeView, comma: Option<int>) -> MemberView {
    MemberView { key, start, value_start: v.start, value_end: v.end, comma }
}

/// The object that the whole text is.
pub open spec fn root_node(s: Seq<char>) -> Result<NodeView, Fault> {
    match node(s, 0) {
        Err(f) => Err(f),
        Ok(n) => match trivia(s, n.end) {
            Err(f) => Err(f),
            Ok(e) => if e == s.len() && n.members is Some {
                Ok(n)
            } else {
                Err(Fault::NotAnObject)
            },
        },
    }
}

/// Properties lie one behind the other, before `p`.
pub open spec fn laid_out(ms: Seq<MemberView>, p: int) -> bool {
    &&& forall|i: int| 0 <= i < ms.len() ==> member_before(#[trigger] ms[i], p)
    &&& forall|i: int, j: int|
        0 <= i < j < ms.len() ==> (#[trigger] ms[i]).value_end <= (#[trigger] ms[j]).start && (
        ms[i].comma is Some ==> ms[i].comma->0 < ms[j].start)
}

pub open spec fn member_before(m: MemberView, p: int) -> bool {
    &&& 0 <= m.start <= m.value_start < m.value_end <= p
    &&& m.comma is Some ==> m.value_end <= m.comma->0 < p
}

proof fn lemma_line_end(s: Seq<char>, p: int)
    requires
        0 <= p <= s.len(),
    ensures
        p <= line_end(s, p) <= s.len(),
    decreases s.len() - p,
{
    if p < s.len() && !newline_like(s[p]) {
        lemma_line_end(s, p + 1);
    }
}

proof fn lemma_comment_end(s: Seq<char>, p: int)
    requires
        0 <= p,
    ensures
        comment_end(s, p) is Some ==> p <= comment_end(s, p)->0 && comment_end(s, p)->0 + 2
            <= s.len(),
    decreases s.len() - p,
{
    if p + 1 < s.len() && !(s[p] == '*' && s[p + 1] == '/') {
        lemma_comment_end(s, p + 1);
    }
}

pub proof fn lemma_trivia(s: Seq<char>, p: int)
    requires
        0 <= p <= s.len(),
    ensures
        trivia(s, p) is Ok ==> p <= trivia(s, p)->Ok_0 <= s.len(),
    decreases s.len() - p,
{
    if p < s.len() {
        if whitespace(s[p]) || s[p] == '\u{feff}' {
            lemma_trivia(s, p + 1);
        } else if two_at(s, p, '/', '/') {
            lemma_line_end(s, p + 2);
            lemma_trivia(s, line_end(s, p + 2));
        } else if two_at(s, p, '/', '*') {
            lemma_comment_end(s, p + 2);
            if comment_end(s, p + 2) is Some {
                lemma_trivia(s, comment_end(s, p + 2)->0 + 2);
            }
        }
    }
}

proof fn lemma_string_end(s: Seq<char>, p: int, quote: char)
    requires
        0 <= p <= s.len(),
    ensures
        string_end(s, p, quote) is Ok ==> p < string_end(s, p, quote)->Ok_0 <= s.len(),
    decreases s.len() - p,
{
    if p < s.len() && s[p] != quote {
        if s[p] == '\\' {
            if p + 1 < s.len() {
                lemma_string_end(s, p + 2, quote);
            }
        } else {
            lemma_string_end(s, p + 1, quote);
        }
    }
}

proof fn lemma_name_end(s: Seq<char>, p: int)
    requires
        0 <= p <= s.len(),
    ensures
        p <= name_end(s, p) <= s.len(),
    decreases s.len() - p,
{
    if p < s.len() && !(whitespace(s[p]) || s[p] == ':' || s[p] == '/') {
        lemma_name_end(s, p + 1);
    }
}

proof fn lemma_scalar_end(s: Seq<char>, p: int)
    requires
        0 <= p <= s.len(),
    ensures
        p <= scalar_end(s, p) <= s.len(),
    decreases s.len() - p,
{
    if p < s.len() && !(whitespace(s[p]) || s[p] == ',' || s[p] == '}' || s[p] == ']' || s[p]
        == '/') {
        lemma_scalar_end(s, p + 1);
    }
}

proof fn lemma_key_end(s: Seq<char>, t: int)
    requires
        0 <= t < s.len(),
    ensures
        key_end(s, t) is Ok ==> t <= key_end(s, t)->Ok_0 <= s.len(),
{
    lemma_string_end(s, t + 1, s[t]);
    lemma_name_end(s, t);
}

/// A value that is read lies inside the text, and so do its properties.
pub proof fn lemma_node(s: Seq<char>, p: int)
    requires
        0 <= p <= s.len(),
    ensures
        node(s, p) matches Ok(n) ==> {
            &&& p <= n.start < n.end <= s.len()
            &&& n.members is Some ==> laid_out(n.members->0, n.end - 1) && s[n.start] == '{'
                && n.start + 1 < n.end
        },
    decreases s.len() - p, 1int,
{
    lemma_trivia(s, p);
    if trivia(s, p) is Ok {
        let t = trivia(s, p)->Ok_0;
        if t < s.len() {
            if s[t] == '{' {
                lemma_members(s, t + 1, Seq::empty());
            } else if s[t] == '[' {
                lemma_elements(s, t + 1);
            } else if s[t] == '\'' || s[t] == '"' {
                lemma_string_end(s, t + 1, s[t]);
            } else {
                lemma_scalar_end(s, t);
            }
        }
    }
}

pub proof fn lemma_members(s: Seq<char>, p: int, seen: Seq<MemberView>)
    requires
        0 <= p <= s.len(),
        laid_out(seen, p),
    ensures
        members(s, p, seen) matches Ok(r) ==> p < r.1 <= s.len() && laid_out(r.0, r.1 - 1),
    decreases s.len() - p, 0int,
{
    lemma_trivia(s, p);
    if trivia(s, p) is Ok {
        let t = trivia(s, p)->Ok_0;
        if t < s.len() && s[t] != '}' {
            lemma_key_end(s, t);
            if key_end(s, t) is Ok {
                let k = key_end(s, t)->Ok_0;
                lemma_trivia(s, k);
                if trivia(s, k) is Ok {
                    let c = trivia(s, k)->Ok_0;
                    if c < s.len() && s[c] == ':' {
                        lemma_node(s, c + 1);
                        if node(s, c + 1) is Ok {
                            let v = node(s, c + 1)->Ok_0;
                            lemma_trivia(s, v.end);
                            if trivia(s, v.end) is Ok {
                                let e = trivia(s, v.end)->Ok_0;
                                if fresh_key(json5_key(s.subrange(t, k)), seen) is Ok && e < s.len() {
                                    let key = fresh_key(json5_key(s.subrange(t, k)), seen)->Ok_0;
                                    if s[e] == ',' {
                                        lemma_laid_out_push(seen, p, member(key, t, v, Some(e)), e + 1);
                                        lemma_members(s, e + 1, seen.push(member(key, t, v, Some(e))));
                                    } else if s[e] == '}' {
                                        lemma_laid_out_push(seen, p, member(key, t, v, None), e);
                                        lemma_members(s, e, seen.push(member(key, t, v, None)));
                                    }
                                }
                            }
                        }
                    }
                }
            }
        } else if t < s.len() {
            assert forall|i: int| 0 <= i < seen.len() implies member_before(#[trigger] seen[i], t) by {
                assert(member_before(seen[i], p));
            }
        }
    }
}

proof fn lemma_laid_out_push(seen: Seq<MemberView>, p: int, m: MemberView, q: int)
    requires
        laid_out(seen, p),
        p <= m.start,
        p <= q,
        member_before(m, q),
    ensures
        laid_out(seen.push(m), q),
{
    let ms = seen.push(m);
    assert forall|i: int| 0 <= i < ms.len() implies member_before(#[trigger] ms[i], q) by {
        if i < seen.len() {
            assert(member_before(seen[i], p));
        }
    }
    assert forall|i: int, j: int| 0 <= i < j < ms.len() implies (#[trigger] ms[i]).value_end
        <= (#[trigger] ms[j]).start && (ms[i].comma is Some ==> ms[i].comma->0 < ms[j].start) by {
        assert(member_before(seen[i], p));
        if j < seen.len() {
            assert(seen[i].value_end <= seen[j].start);
        }
    }
}

proof fn lemma_elements(s: Seq<char>, p: int)
    requires
        0 <= p <= s.len(),
    ensures
        elements(s, p) matches Ok(e) ==> p < e <= s.len(),
    decreases s.len() - p, 2int,
{
    lemma_trivia(s, p);
    if trivia(s, p) is Ok {
        let t = trivia(s, p)->Ok_0;
        if !(t < s.len() && s[t] == ']') {
            lemma_node(s, t);
            if node(s, t) is Ok {
                let v = node(s, t)->Ok_0;
                lemma_trivia(s, v.end);
                if trivia(s, v.end) is Ok {
                    let e = trivia(s, v.end)->Ok_0;
                    if e < s.len() && e > t {
                        if s[e] == ',' {
                            lemma_elements(s, e + 1);
                        } else if s[e] == ']' {
                            lemma_elements(s, e);
                        }
                    }
                }
            }
        }
    }
}

// ---------------------------------------------------------------------------------------------
// The parser

#[derive(Debug)]
pub struct Member {
    pub key: String,
    pub start: usize,
    pub value_start: usize,
    pub value_end: usize,
    pub comma: Option<usize>,
}

#[derive(Debug)]
pub struct Node {
    pub start: usize,
    pub end: usize,
    pub members: Option<Vec<Member>>,
}

pub open spec fn opt_int(v: Option<usize>) -> Option<int> {
    match v {
        Some(n) => Some(n as int),
        None => None,
    }
}

impl View for Member {
    type V = MemberView;

    open spec fn view(&self) -> MemberView {
        MemberView {
            key: self.key@,
            start: self.start as int,
            value_start: self.value_start as int,
            value_end: self.value_end as int,
            comma: opt_int(self.comma),
        }
    }
}

pub open spec fn member_views(ms: Seq<Member>) -> Seq<MemberView> {
    Seq::new(ms.len(), |i: int| ms[i]@)
}

impl View for Node {
    type V = NodeView;

    open spec fn view(&self) -> NodeView {
        NodeView {
            start: self.start as int,
            end: self.end as int,
            members: match self.members {
                Some(ms) => Some(member_views(ms@)),
                None => None,
            },
        }
    }
}

/// `r` is what `expected` says, by views.
pub open spec fn agrees(r: Result<Node, SourceError>, expected: Result<NodeView, Fault>) -> bool {
    match r {
        Ok(n) => expected == Ok::<NodeView, Fault>(n@),
        Err(e) => expected == Err::<NodeView, Fault>(e@),
    }
}

/// A position in a text.
pub struct Parser {
    pub text: Vec<char>,
    pub pos: usize,
}

impl Parser {
    pub open spec fn wf(&self) -> bool {
        self.pos <= self.text.len()
    }

    pub fn peek(&self) -> (r: Option<char>)
        ensures
            self.pos < self.text.len() ==> r == Some(self.text@[self.pos as int]),
            self.pos >= self.text.len() ==> r is None,
    {
        if self.pos < self.text.len() {
            Some(self.text[self.pos])
        } else {
            None
        }
    }

    pub fn step(&mut self)
        requires
            old(self).wf(),
        ensures
            final(self).text == old(self).text,
            final(self).pos == (if old(self).pos < old(self).text@.len() { old(self).pos + 1 } else {
                old(self).pos as int
            }),
            final(self).wf(),
    {
        if self.pos < self.text.len() {
            self.pos = self.pos + 1;
        }
    }

    /// Whether the next two characters are `a` and `b`.
    fn sees(&self, a: char, b: char) -> (r: bool)
        requires
            self.wf(),
        ensures
            r == two_at(self.text@, self.pos as int, a, b),
            r ==> self.pos + 2 <= self.text.len(),
    {
        self.pos < self.text.len() && self.text.len() - self.pos >= 2 && self.text[self.pos] == a
            && self.text[self.pos + 1] == b
    }

    /// Skips white space and comments.
    pub fn trivia(&mut self) -> (r: Result<(), SourceError>)
        requires
            old(self).wf(),
        ensures
            final(self).wf(),
            final(self).text == old(self).text,
            match r {
                Ok(()) => trivia(old(self).text@, old(self).pos as int) == Ok::<int, Fault>(
                    final(self).pos as int,
                ),
                Err(e) => trivia(old(self).text@, old(self).pos as int) == Err::<int, Fault>(e@),
            },
    {
        let ghost s = self.text@;
        let ghost start = self.pos as int;
        loop
            invariant
                self.wf(),
                self.text@ == s,
                self.text == old(self).text,
                trivia(s, start) == trivia(s, self.pos as int),
                s == old(self).text@,
                start == old(self).pos,
            decreases s.len() - self.pos,
        {
            match self.peek() {
                None => {
                    return Ok(());
                },
                Some(c) => {
                    if is_whitespace(c) || c == '\u{feff}' {
                        self.step();
                    } else if self.sees('/', '/') {
                        let ghost from = self.pos as int;
                        self.pos = self.pos + 2;
                        while self.pos < self.text.len() && !(self.text[self.pos] == '\n'
                            || self.text[self.pos] == '\r' || self.text[self.pos] == '\u{2028}'
                            || self.text[self.pos] == '\u{2029}')
                            invariant
                                self.wf(),
                                self.text@ == s,
                                self.text == old(self).text,
                                from + 2 <= self.pos,
                                line_end(s, from + 2) == line_end(s, self.pos as int),
                            decreases s.len() - self.pos,
                        {
                            self.pos = self.pos + 1;
                        }
                    } else if self.sees('/', '*') {
                        let ghost from = self.pos as int;
                        let mut at: usize = self.pos + 2;
                        while at < self.text.len() && self.text.len() - at >= 2 && !(self.text[at]
                            == '*' && self.text[at + 1] == '/')
                            invariant
                                self.wf(),
                                self.text@ == s,
                                from + 2 <= at <= s.len(),
                                comment_end(s, from + 2) == comment_end(s, at as int),
                            decreases s.len() - at,
                        {
                            at += 1;
                        }
                        if at < self.text.len() && self.text.len() - at >= 2 {
                            self.pos = at + 2;
                        } else {
                            return Err(SourceError::UnterminatedComment);
                        }
                    } else {
                        return Ok(());
                    }
                },
            }
        }
    }

    /// Skips the string that begins with the quote under the position.
    pub fn string(&mut self) -> (r: Result<(), SourceError>)
        requires
            old(self).pos < old(self).text.len(),
        ensures
            final(self).wf(),
            final(self).text == old(self).text,
            ({
                let s = old(self).text@;
                let p = old(self).pos as int;
                match r {
                    Ok(()) => string_end(s, p + 1, s[p]) == Ok::<int, Fault>(final(self).pos as int),
                    Err(e) => string_end(s, p + 1, s[p]) == Err::<int, Fault>(e@),
                }
            }),
    {
        let ghost s = self.text@;
        let ghost p = self.pos as int;
        let quote = self.text[self.pos];
        self.pos = self.pos + 1;
        loop
            invariant
                self.wf(),
                self.text@ == s,
                self.text == old(self).text,
                quote == s[p],
                s == old(self).text@,
                p == old(self).pos,
                string_end(s, p + 1, quote) == string_end(s, self.pos as int, quote),
            decreases s.len() - self.pos,
        {
            match self.peek() {
                None => {
                    return Err(SourceError::UnterminatedString);
                },
                Some(c) => {
                    self.pos = self.pos + 1;
                    if c == quote {
                        return Ok(());
                    }
                    if c == '\\' {
                        if self.pos >= self.text.len() {
                            return Err(SourceError::UnterminatedEscape);
                        }
                        self.pos = self.pos + 1;
                    }
                },
            }
        }
    }

    /// Skips an unquoted property name.
    fn name(&mut self)
        requires
            old(self).wf(),
        ensures
            final(self).wf(),
            final(self).text == old(self).text,
            final(self).pos == name_end(old(self).text@, old(self).pos as int),
    {
        let ghost s = self.text@;
        let ghost p = self.pos as int;
        while self.pos < self.text.len() && !(is_whitespace(self.text[self.pos])
            || self.text[self.pos] == ':' || self.text[self.pos] == '/')
            invariant
                self.wf(),
                self.text@ == s,
                self.text == old(self).text,
                name_end(s, p) == name_end(s, self.pos as int),
            decreases s.len() - self.pos,
        {
            self.pos = self.pos + 1;
        }
    }

    /// Skips an unquoted value.
    fn scalar(&mut self)
        requires
            old(self).wf(),
        ensures
            final(self).wf(),
            final(self).text == old(self).text,
            final(self).pos == scalar_end(old(self).text@, old(self).pos as int),
    {
        let ghost s = self.text@;
        let ghost p = self.pos as int;
        while self.pos < self.text.len() && !(is_whitespace(self.text[self.pos])
            || self.text[self.pos] == ',' || self.text[self.pos] == '}' || self.text[self.pos]
            == ']' || self.text[self.pos] == '/')
            invariant
                self.wf(),
                self.text@ == s,
                self.text == old(self).text,
                scalar_end(s, p) == scalar_end(s, self.pos as int),
            decreases s.len() - self.pos,
        {
            self.pos = self.pos + 1;
        }
    }

    /// Reads the value at the position.
    pub fn node(&mut self) -> (r: Result<Node, SourceError>)
        requires
            old(self).wf(),
        ensures
            final(self).wf(),
            final(self).text == old(self).text,
            agrees(r, node(old(self).text@, old(self).pos as int)),
            r is Ok ==> final(self).pos == r->Ok_0.end,
        decreases old(self).text@.len() - old(self).pos, 1int,
    {
        let ghost s = self.text@;
        proof {
            lemma_trivia(s, self.pos as int);
        }
        match self.trivia() {
            Ok(()) => {},
            Err(e) => {
                return Err(e);
            },
        }
        let start = self.pos;
        let c = match self.peek() {
            None => {
                return Err(SourceError::MissingValue);
            },
            Some(c) => c,
        };
        if c == '{' {
            self.step();
            match self.object() {
                Ok(ms) => Ok(Node { start, end: self.pos, members: Some(ms) }),
                Err(e) => Err(e),
            }
        } else if c == '[' {
            self.step();
            match self.array() {
                Ok(()) => Ok(Node { start, end: self.pos, members: None }),
                Err(e) => Err(e),
            }
        } else if c == '\'' || c == '"' {
            match self.string() {
                Ok(()) => Ok(Node { start, end: self.pos, members: None }),
                Err(e) => Err(e),
            }
        } else {
            self.scalar();
            if self.pos <= start {
                return Err(SourceError::UnsupportedValue);
            }
            Ok(Node { start, end: self.pos, members: None })
        }
    }

    /// Reads properties up to the closing brace.
    fn object(&mut self) -> (r: Result<Vec<Member>, SourceError>)
        requires
            old(self).wf(),
        ensures
            final(self).wf(),
            final(self).text == old(self).text,
            match r {
                Ok(ms) => members(old(self).text@, old(self).pos as int, Seq::empty()) == Ok::<
                    (Seq<MemberView>, int),
                    Fault,
                >((member_views(ms@), final(self).pos as int)),
                Err(e) => members(old(self).text@, old(self).pos as int, Seq::empty()) == Err::<
                    (Seq<MemberView>, int),
                    Fault,
                >(e@),
            },
        decreases old(self).text@.len() - old(self).pos, 0int,
    {
        let ghost s = self.text@;
        let ghost p = self.pos as int;
        let mut entries: Vec<Member> = Vec::new();
        assert(member_views(entries@) =~= Seq::<MemberView>::empty());
        loop
            invariant
                self.wf(),
                self.text@ == s,
                self.text == old(self).text,
                s == old(self).text@,
                p == old(self).pos,
                p <= self.pos,
                members(s, p, Seq::empty()) == members(
                    s,
                    self.pos as int,
                    member_views(entries@),
                ),
            decreases s.len() - self.pos,
        {
            let ghost seen = member_views(entries@);
            let ghost here = self.pos as int;
            proof {
                lemma_trivia(s, here);
            }
            match self.trivia() {
                Ok(()) => {},
                Err(e) => {
                    return Err(e);
                },
            }
            let start = self.pos;
            match self.peek() {
                None => {
                    return Err(SourceError::UnterminatedObject);
                },
                Some(c) => {
                    if c == '}' {
                        self.step();
                        return Ok(entries);
                    }
                    proof {
                        lemma_key_end(s, start as int);
                    }
                    if c == '\'' || c == '"' {
                        match self.string() {
                            Ok(()) => {},
                            Err(e) => {
                                return Err(e);
                            },
                        }
                    } else {
                        self.name();
                    }
                },
            }
            let raw = string_of(&self.text, start, self.pos);
            let key = match check_key(decode_key(raw.as_str()), &entries) {
                Ok(k) => k,
                Err(e) => {
                    return Err(e);
                },
            };
            proof {
                lemma_trivia(s, self.pos as int);
            }
            match self.trivia() {
                Ok(()) => {},
                Err(e) => {
                    return Err(e);
                },
            }
            match self.peek() {
                Some(':') => {},
                _ => {
                    return Err(SourceError::MissingColon);
                },
            }
            self.step();
            proof {
                lemma_node(s, self.pos as int);
            }
            let value = match self.node() {
                Ok(v) => v,
                Err(e) => {
                    return Err(e);
                },
            };
            proof {
                lemma_trivia(s, self.pos as int);
            }
            match self.trivia() {
                Ok(()) => {},
                Err(e) => {
                    return Err(e);
                },
            }
            let mut comma: Option<usize> = None;
            match self.peek() {
                Some(',') => {
                    comma = Some(self.pos);
                    self.step();
                },
                Some('}') => {},
                _ => {
                    return Err(SourceError::MissingComma);
                },
            }
            let ghost m = member(key@, start as int, value@, opt_int(comma));
            entries.push(
                Member {
                    key,
                    start,
                    value_start: value.start,
                    value_end: value.end,
                    comma,
                },
            );
            assert(member_views(entries@) =~= seen.push(m));
        }
    }

    /// Skips elements up to the closing bracket.
    fn array(&mut self) -> (r: Result<(), SourceError>)
        requires
            old(self).wf(),
        ensures
            final(self).wf(),
            final(self).text == old(self).text,
            match r {
                Ok(()) => elements(old(self).text@, old(self).pos as int) == Ok::<int, Fault>(
                    final(self).pos as int,
                ),
                Err(e) => elements(old(self).text@, old(self).pos as int) == Err::<int, Fault>(e@),
            },
        decreases old(self).text@.len() - old(self).pos, 2int,
    {
        let ghost s = self.text@;
        let ghost p = self.pos as int;
        loop
            invariant
                self.wf(),
                self.text@ == s,
                self.text == old(self).text,
                s == old(self).text@,
                p == old(self).pos,
                p <= self.pos,
                elements(s, p) == elements(s, self.pos as int),
            decreases s.len() - self.pos,
        {
            proof {
                lemma_trivia(s, self.pos as int);
            }
            match self.trivia() {
                Ok(()) => {},
                Err(e) => {
                    return Err(e);
                },
            }
            match self.peek() {
                Some(']') => {
                    self.step();
                    return Ok(());
                },
                _ => {},
            }
            proof {
                lemma_node(s, self.pos as int);
            }
            match self.node() {
                Ok(_) => {},
                Err(e) => {
                    return Err(e);
                },
            }
            proof {
                lemma_trivia(s, self.pos as int);
            }
            match self.trivia() {
                Ok(()) => {},
                Err(e) => {
                    return Err(e);
                },
            }
            match self.peek() {
                Some(',') => {
                    self.step();
                },
                Some(']') => {},
                _ => {
                    return Err(SourceError::MissingArrayComma);
                },
            }
        }
    }
}

/// The name that was decoded, unless there is none or it is one of the names read before.
pub fn check_key(decoded: Result<Option<String>, String>, seen: &Vec<Member>) -> (r: Result<String, SourceError>)
    ensures
        match r {
            Ok(k) => fresh_key(decoded_key(decoded), member_views(seen@)) == Ok::<Seq<char>, Fault>(k@),
            Err(e) => fresh_key(decoded_key(decoded), member_views(seen@)) == Err::<Seq<char>, Fault>(
                e@,
            ),
        },
{
    match decoded {
        Err(e) => Err(SourceError::UnreadableKey(e)),
        Ok(None) => Err(SourceError::InvalidKey),
        Ok(Some(key)) => match find_member(seen, key.as_str()) {
            Some(_) => Err(SourceError::DuplicateKey(key)),
            None => Ok(key),
        },
    }
}

/// `i` is the first property of that name.
pub open spec fn first_named(ms: Seq<MemberView>, key: Seq<char>, i: int) -> bool {
    &&& 0 <= i < ms.len()
    &&& ms[i].key == key
    &&& forall|j: int| 0 <= j < i ==> (#[trigger] ms[j]).key != key
}

pub fn find_member(ms: &Vec<Member>, key: &str) -> (r: Option<usize>)
    ensures
        match r {
            Some(i) => first_named(member_views(ms@), key@, i as int) && named(
                member_views(ms@),
                key@,
            ),
            None => !named(member_views(ms@), key@),
        },
{
    let mut i: usize = 0;
    while i < ms.len()
        invariant
            i <= ms@.len(),
            forall|j: int| 0 <= j < i ==> (#[trigger] member_views(ms@)[j]).key != key@,
        decreases ms@.len() - i,
    {
        assert(member_views(ms@)[i as int] == ms@[i as int]@);
        if same(ms[i].key.as_str(), key) {
            return Some(i);
        }
        i += 1;
    }
    None
}

/// The object that the whole text is.
pub fn root(text: &str) -> (r: Result<Node, SourceError>)
    ensures
        agrees(r, root_node(text@)),
{
    let mut parser = Parser { text: chars_of(text), pos: 0 };
    proof {
        lemma_node(text@, 0);
    }
    let node = match parser.node() {
        Ok(n) => n,
        Err(e) => {
            return Err(e);
        },
    };
    match parser.trivia() {
        Ok(()) => {},
        Err(e) => {
            return Err(e);
        },
    }
    if parser.pos == parser.text.len() && node.members.is_some() {
        Ok(node)
    } else {
        Err(SourceError::NotAnObject)
    }
}

/// What is wrong with a whole source text, if JSON5 judges it `valid` or not.
pub open spec fn source_fault(valid: bool, s: Seq<char>) -> Option<Fault> {
    if !valid {
        Some(Fault::InvalidJson5)
    } else {
        match root_node(s) {
            Ok(_) => None,
            Err(f) => Some(f),
        }
    }
}

/// Judges a text that JSON5 finds `valid` or not: it must be one object, in which no object names
/// a property twice.
pub fn judge(valid: bool, text: &str) -> (r: Result<(), SourceError>)
    ensures
        match r {
            Ok(()) => source_fault(valid, text@) is None,
            Err(e) => source_fault(valid, text@) == Some(e@),
        },
{
    if !valid {
        return Err(SourceError::InvalidJson5);
    }
    match root(text) {
        Ok(_) => Ok(()),
        Err(e) => Err(e),
    }
}

/// Checks that the text is a usable configuration source.
pub fn parse(text: &str) -> (r: Result<(), SourceError>)
    ensures
        match r {
            Ok(()) => source_fault(json5_valid(text@), text@) is None,
            Err(e) => source_fault(json5_valid(text@), text@) == Some(e@),
        },
{
    judge(read_json5(text).is_ok(), text)
}

// ---------------------------------------------------------------------------------------------
// Changing one property

/// A value that a property can be given.
#[derive(Debug, Clone)]
pub enum Value {
    Text(String),
    Flag(bool),
    Number(u64),
    Null,
    EmptyObject,
}

/// The same by what its text holds.
pub enum ValueView {
    Text(Seq<char>),
    Flag(bool),
    Number(u64),
    Null,
    EmptyObject,
}

impl View for Value {
    type V = ValueView;

    open spec fn view(&self) -> ValueView {
        match self {
            Value::Text(t) => ValueView::Text(t@),
            Value::Flag(b) => ValueView::Flag(*b),
            Value::Number(n) => ValueView::Number(*n),
            Value::Null => ValueView::Null,
            Value::EmptyObject => ValueView::EmptyObject,
        }
    }
}

/// How a value is written.
pub open spec fn value_source(v: ValueView) -> Seq<char> {
    match v {
        ValueView::Text(t) => json_string(t),
        ValueView::Flag(b) => if b { "true"@ } else { "false"@ },
        ValueView::Number(n) => decimal(n as nat),
        ValueView::Null => "null"@,
        ValueView::EmptyObject => "{}"@,
    }
}

pub fn encode(v: &Value) -> (r: String)
    ensures
        r@ == value_source(v@),
        one_value(r@),
        unmarked(r@) == r@,
{
    proof {
        lemma_words_are_values();
        if let ValueView::Number(n) = v@ {
            lemma_number_is_value(n as nat);
        }
    }
    match v {
        Value::Text(t) => {
            let r = encode_string(t.as_str());
            proof {
                lemma_string_is_value(r@);
            }
            r
        },
        Value::Flag(b) => if *b { "true".to_owned() } else { "false".to_owned() },
        Value::Number(n) => decimal_text(*n),
        Value::Null => "null".to_owned(),
        Value::EmptyObject => "{}".to_owned(),
    }
}

/// Where the line that holds `p` begins.
pub open spec fn line_start(s: Seq<char>, p: int) -> int
    decreases p,
{
    if p <= 0 {
        0
    } else if s[p - 1] == '\n' {
        p
    } else {
        line_start(s, p - 1)
    }
}

/// Only spaces and tabs from `a` up to `b`.
pub open spec fn indentation(s: Seq<char>, a: int, b: int) -> bool {
    forall|i: int| a <= i < b ==> #[trigger] s[i] == ' ' || s[i] == '\t'
}

pub open spec fn insert_at(s: Seq<char>, p: int, t: Seq<char>) -> Seq<char> {
    s.subrange(0, p) + t + s.subrange(p, s.len() as int)
}

pub open spec fn cut(s: Seq<char>, a: int, b: int) -> Seq<char> {
    s.subrange(0, a) + s.subrange(b, s.len() as int)
}

/// The text with its part from `a` up to `b` written as `t`.
pub open spec fn replaced(s: Seq<char>, a: int, b: int, t: Seq<char>) -> Seq<char> {
    s.subrange(0, a) + t + s.subrange(b, s.len() as int)
}

/// The property `i` taken out, together with one comma: its own, or else the one before it.
pub open spec fn removed(s: Seq<char>, ms: Seq<MemberView>, i: int) -> Seq<char> {
    let m = ms[i];
    if m.comma is Some {
        cut(cut(s, m.comma->0, m.comma->0 + 1), m.start, m.value_end)
    } else if i > 0 && ms[i - 1].comma is Some {
        cut(cut(s, m.start, m.value_end), ms[i - 1].comma->0, ms[i - 1].comma->0 + 1)
    } else {
        cut(s, m.start, m.value_end)
    }
}

/// Where a new property goes: before the line of the closing brace where that brace stands on a
/// line of its own, right before the brace elsewhere.
pub open spec fn insertion_point(s: Seq<char>, n: NodeView) -> int {
    let close = n.end - 1;
    if spans_lines(s, n) && indentation(s, line_start(s, close), close) {
        line_start(s, close)
    } else {
        close
    }
}

pub open spec fn spans_lines(s: Seq<char>, n: NodeView) -> bool {
    s.subrange(n.start, n.end).contains('\n')
}

/// The indentation of a new property on a line of its own: that of the first property, where only
/// indentation stands before it, or else two spaces more than the closing brace has.
pub open spec fn new_indent(s: Seq<char>, n: NodeView) -> Seq<char> {
    let ms = n.members->0;
    let close = n.end - 1;
    let base = if insertion_point(s, n) == line_start(s, close) {
        s.subrange(line_start(s, close), close)
    } else {
        Seq::<char>::empty()
    };
    if ms.len() > 0 && indentation(s, line_start(s, ms[0].start), ms[0].start) {
        s.subrange(line_start(s, ms[0].start), ms[0].start)
    } else {
        base + "  "@
    }
}

/// What is written for a new property.
pub open spec fn new_property(s: Seq<char>, n: NodeView, key: Seq<char>, value: Seq<char>) -> Seq<
    char,
> {
    let ms = n.members->0;
    let at = insertion_point(s, n);
    let tail = if ms.len() > 0 && ms.last().comma is Some { ","@ } else { ""@ };
    let property = key + ": "@ + value + tail;
    if spans_lines(s, n) {
        let head = if at > 0 && s[at - 1] == '\n' { ""@ } else { "\n"@ };
        head + new_indent(s, n) + property + "\n"@
    } else {
        " "@ + property + " "@
    }
}

/// A new property behind the others, with a comma behind the last one where that has none.
pub open spec fn added(s: Seq<char>, n: NodeView, key: Seq<char>, value: Seq<char>) -> Seq<char> {
    let ms = n.members->0;
    let at = insertion_point(s, n);
    let text = new_property(s, n, key, value);
    if ms.len() > 0 && ms.last().comma is None {
        let e = ms.last().value_end;
        if e <= at {
            insert_at(insert_at(s, at, text), e, ","@)
        } else {
            insert_at(insert_at(s, e, ","@), at, text)
        }
    } else {
        insert_at(s, at, text)
    }
}

/// The first property of that name.
pub open spec fn place_of(ms: Seq<MemberView>, key: Seq<char>) -> int {
    choose|i: int| first_named(ms, key, i)
}

pub proof fn lemma_place_of(ms: Seq<MemberView>, key: Seq<char>, i: int)
    requires
        first_named(ms, key, i),
    ensures
        place_of(ms, key) == i,
{
    let j = place_of(ms, key);
    assert(first_named(ms, key, j));
    if i < j {
        assert(ms[i].key != key);
    }
    if j < i {
        assert(ms[j].key != key);
    }
}

/// The source with one property of the object `n` changed: written anew where it has a value
/// and is there, added where it is not, taken out where it has none.
pub open spec fn edited(
    s: Seq<char>,
    n: NodeView,
    key: Seq<char>,
    key_source: Seq<char>,
    value: Option<Seq<char>>,
) -> Seq<char> {
    let ms = n.members->0;
    if named(ms, key) {
        let i = place_of(ms, key);
        match value {
            Some(v) => replaced(s, ms[i].value_start, ms[i].value_end, v),
            None => removed(s, ms, i),
        }
    } else {
        match value {
            Some(v) => added(s, n, key_source, v),
            None => s,
        }
    }
}

/// The object whose property is meant: the whole text, or one of its properties.
pub open spec fn target_node(s: Seq<char>, object: Option<Seq<char>>) -> Result<NodeView, Fault> {
    match root_node(s) {
        Err(f) => Err(f),
        Ok(root) => match object {
            None => Ok(root),
            Some(o) => if !named(root.members->0, o) {
                Err(Fault::MissingObject)
            } else {
                match node(s, root.members->0[place_of(root.members->0, o)].value_start) {
                    Err(f) => Err(f),
                    Ok(n) => if n.members is None { Err(Fault::ExpectedObject) } else { Ok(n) },
                }
            },
        },
    }
}

/// The edited source, or what stands in the way.
pub open spec fn planned(
    s: Seq<char>,
    object: Option<Seq<char>>,
    key: Seq<char>,
    key_source: Seq<char>,
    value: Option<Seq<char>>,
) -> Result<Seq<char>, Fault> {
    match target_node(s, object) {
        Err(f) => Err(f),
        Ok(n) => Ok(edited(s, n, key, key_source, value)),
    }
}

pub open spec fn str_opt(s: Option<&str>) -> Option<Seq<char>> {
    match s {
        Some(s) => Some(s@),
        None => None,
    }
}

fn start_of_line(v: &Vec<char>, p: usize) -> (r: usize)
    requires
        p <= v@.len(),
    ensures
        r == line_start(v@, p as int),
        r <= p,
{
    let mut q: usize = p;
    while q > 0 && v[q - 1] != '\n'
        invariant
            q <= p <= v@.len(),
            line_start(v@, p as int) == line_start(v@, q as int),
        decreases q,
    {
        q -= 1;
    }
    q
}

fn is_indentation(v: &Vec<char>, a: usize, b: usize) -> (r: bool)
    requires
        a <= b <= v@.len(),
    ensures
        r == indentation(v@, a as int, b as int),
{
    let mut i: usize = a;
    while i < b
        invariant
            a <= i <= b <= v@.len(),
            indentation(v@, a as int, i as int),
        decreases b - i,
    {
        if v[i] != ' ' && v[i] != '\t' {
            return false;
        }
        i += 1;
    }
    true
}

fn has_newline(v: &Vec<char>, a: usize, b: usize) -> (r: bool)
    requires
        a <= b <= v@.len(),
    ensures
        r == v@.subrange(a as int, b as int).contains('\n'),
{
    let mut i: usize = a;
    let ghost part = v@.subrange(a as int, b as int);
    while i < b
        invariant
            a <= i <= b <= v@.len(),
            part == v@.subrange(a as int, b as int),
            forall|j: int| 0 <= j < i - a ==> part[j] != '\n',
        decreases b - i,
    {
        assert(part[i - a] == v@[i as int]);
        if v[i] == '\n' {
            return true;
        }
        i += 1;
    }
    false
}

fn put(v: &Vec<char>, a: usize, b: usize, t: &str) -> (r: String)
    requires
        a <= b <= v@.len(),
    ensures
        r@ == replaced(v@, a as int, b as int, t@),
{
    let head = string_of(v, 0, a);
    let tail = string_of(v, b, v.len());
    cat3(head.as_str(), t, tail.as_str())
}

fn remove_member(v: &Vec<char>, ms: &Vec<Member>, i: usize) -> (r: String)
    requires
        i < ms@.len(),
        laid_out(member_views(ms@), v@.len() as int),
    ensures
        r@ == removed(v@, member_views(ms@), i as int),
{
    let ghost views = member_views(ms@);
    let len: usize = v.len();
    let m = &ms[i];
    assert(views[i as int] == m@);
    assert(member_before(views[i as int], v@.len() as int));
    match m.comma {
        Some(c) => {
            let a = string_of(v, 0, m.start);
            let b = string_of(v, m.value_end, c);
            let d = string_of(v, c + 1, len);
            let r = cat3(a.as_str(), b.as_str(), d.as_str());
            assert(r@ =~= removed(v@, views, i as int));
            r
        },
        None => {
            if i > 0 {
                assert(views[i - 1] == ms@[i - 1]@);
                assert(member_before(views[i - 1], v@.len() as int));
                assert(views[i - 1].value_end <= views[i as int].start);
                match ms[i - 1].comma {
                    Some(c) => {
                        let a = string_of(v, 0, c);
                        let b = string_of(v, c + 1, m.start);
                        let d = string_of(v, m.value_end, v.len());
                        let r = cat3(a.as_str(), b.as_str(), d.as_str());
                        assert(r@ =~= removed(v@, views, i as int));
                        return r;
                    },
                    None => {},
                }
            }
            let a = string_of(v, 0, m.start);
            let d = string_of(v, m.value_end, v.len());
            let r = cat2(a.as_str(), d.as_str());
            assert(r@ =~= removed(v@, views, i as int));
            r
        },
    }
}

/// Where a new property goes and what is written there.
fn place_member(v: &Vec<char>, n: &Node, ms: &Vec<Member>, key: &str, value: &str) -> (r: (usize, String))
    requires
        n.members == Some(*ms),
        n.start < n.end <= v@.len(),
        laid_out(member_views(ms@), n.end - 1),
    ensures
        r.0 == insertion_point(v@, n@),
        r.0 <= v@.len(),
        r.1@ == new_property(v@, n@, key@, value@),
{
    let ghost s = v@;
    let ghost views = member_views(ms@);
    assert(n@.members->0 == views);
    let close: usize = n.end - 1;
    let multiline = has_newline(v, n.start, n.end);
    let mut trailing = false;
    if ms.len() > 0 {
        let last = &ms[ms.len() - 1];
        assert(views.last() == last@);
        trailing = last.comma.is_some();
    }
    let mut property = cat3(key, ": ", value);
    property.append(if trailing { "," } else { "" });
    let line = start_of_line(v, close);
    let own_line = multiline && is_indentation(v, line, close);
    let at: usize = if own_line { line } else { close };
    if !multiline {
        return (at, cat3(" ", property.as_str(), " "));
    }
    let mut base = String::new();
    if at == line {
        base = string_of(v, line, close);
    }
    let mut indent = cat2(base.as_str(), "  ");
    if ms.len() > 0 {
        let first = ms[0].start;
        assert(views[0] == ms@[0]@);
        assert(member_before(views[0], n.end - 1));
        let from = start_of_line(v, first);
        if is_indentation(v, from, first) {
            indent = string_of(v, from, first);
        }
    }
    assert(indent@ == new_indent(s, n@));
    let head = if at > 0 && v[at - 1] == '\n' { "" } else { "\n" };
    (at, cat4(head, indent.as_str(), property.as_str(), "\n"))
}

pub proof fn lemma_insert_two(s: Seq<char>, p: int, t: Seq<char>, q: int, u: Seq<char>)
    requires
        0 <= p <= q <= s.len(),
    ensures
        insert_at(insert_at(s, q, u), p, t) == s.subrange(0, p) + t + s.subrange(p, q) + u
            + s.subrange(q, s.len() as int),
{
    let inner = insert_at(s, q, u);
    assert(inner.subrange(0, p) =~= s.subrange(0, p));
    assert(inner.subrange(p, inner.len() as int) =~= s.subrange(p, q) + u + s.subrange(q, s.len() as int));
    assert(insert_at(inner, p, t) =~= s.subrange(0, p) + t + s.subrange(p, q) + u
        + s.subrange(q, s.len() as int));
}

/// The text with `t` at `p` and `u` at `q`.
fn put_two(v: &Vec<char>, p: usize, t: &str, q: usize, u: &str) -> (r: String)
    requires
        p <= q <= v@.len(),
    ensures
        r@ == insert_at(insert_at(v@, q as int, u@), p as int, t@),
{
    let a = string_of(v, 0, p);
    let b = string_of(v, p, q);
    let c = string_of(v, q, v.len());
    proof {
        lemma_insert_two(v@, p as int, t@, q as int, u@);
    }
    cat5(a.as_str(), t, b.as_str(), u, c.as_str())
}

fn add_member(v: &Vec<char>, n: &Node, ms: &Vec<Member>, key: &str, value: &str) -> (r: String)
    requires
        n.members == Some(*ms),
        n.start < n.end <= v@.len(),
        laid_out(member_views(ms@), n.end - 1),
    ensures
        r@ == added(v@, n@, key@, value@),
{
    let ghost views = member_views(ms@);
    assert(n@.members->0 == views);
    let (at, text) = place_member(v, n, ms, key, value);
    if ms.len() > 0 {
        let last = &ms[ms.len() - 1];
        assert(views.last() == last@);
        assert(member_before(views[views.len() - 1], n.end - 1));
        if last.comma.is_none() {
            let e = last.value_end;
            return if e <= at {
                put_two(v, e, ",", at, text.as_str())
            } else {
                put_two(v, at, text.as_str(), e, ",")
            };
        }
    }
    put(v, at, at, text.as_str())
}

/// Edits one property. The name and the value come as they are to be written; no value takes the
/// property out. Whether the outcome is still usable is for `set` to check.
pub fn plan(
    text: &str,
    object: Option<&str>,
    key: &str,
    key_source: &str,
    value: Option<&str>,
) -> (r: Result<String, SourceError>)
    ensures
        match r {
            Ok(t) => planned(text@, str_opt(object), key@, key_source@, str_opt(value)) == Ok::<
                Seq<char>,
                Fault,
            >(t@),
            Err(e) => planned(text@, str_opt(object), key@, key_source@, str_opt(value)) == Err::<
                Seq<char>,
                Fault,
            >(e@),
        },
{
    let ghost s = text@;
    let root = match root(text) {
        Ok(n) => n,
        Err(e) => {
            return Err(e);
        },
    };
    proof {
        lemma_node(s, 0);
    }
    let v = chars_of(text);
    let mut node = root;
    match object {
        None => {},
        Some(o) => {
            let mut found: Option<usize> = None;
            match &node.members {
                None => {},
                Some(ms) => match find_member(ms, o) {
                    None => {},
                    Some(i) => {
                        proof {
                            lemma_place_of(member_views(ms@), o@, i as int);
                            assert(member_views(ms@)[i as int] == ms@[i as int]@);
                            assert(member_before(member_views(ms@)[i as int], node.end - 1));
                        }
                        found = Some(ms[i].value_start);
                    },
                },
            }
            match found {
                None => {
                    return Err(SourceError::MissingObject);
                },
                Some(at) => {
                    let mut parser = Parser { text: chars_of(text), pos: at };
                    proof {
                        lemma_node(s, at as int);
                    }
                    match parser.node() {
                        Ok(n) => {
                            if n.members.is_none() {
                                return Err(SourceError::ExpectedObject);
                            }
                            node = n;
                        },
                        Err(e) => {
                            return Err(e);
                        },
                    }
                },
            }
        },
    }
    assert(target_node(s, str_opt(object)) == Ok::<NodeView, Fault>(node@));
    match &node.members {
        None => Err(SourceError::ExpectedObject),
        Some(ms) => {
            assert(node@.members->0 == member_views(ms@));
            assert(laid_out(member_views(ms@), v@.len() as int)) by {
                assert forall|i: int| 0 <= i < member_views(ms@).len() implies member_before(
                    #[trigger] member_views(ms@)[i],
                    v@.len() as int,
                ) by {
                    assert(member_before(member_views(ms@)[i], node.end - 1));
                }
            }
            match find_member(ms, key) {
                Some(i) => {
                    proof {
                        lemma_place_of(member_views(ms@), key@, i as int);
                        assert(member_views(ms@)[i as int] == ms@[i as int]@);
                        assert(member_before(member_views(ms@)[i as int], v@.len() as int));
                    }
                    match value {
                        Some(t) => Ok(put(&v, ms[i].value_start, ms[i].value_end, t)),
                        None => Ok(remove_member(&v, ms, i)),
                    }
                },
                None => match value {
                    Some(t) => Ok(add_member(&v, &node, ms, key_source, t)),
                    None => Ok(text.to_owned()),
                },
            }
        },
    }
}

/// The outcome of `set`: the planned source where that is still a usable one.
pub open spec fn set_outcome(
    s: Seq<char>,
    object: Option<Seq<char>>,
    key: Seq<char>,
    value: Option<ValueView>,
) -> Result<Seq<char>, Fault> {
    let v = match value {
        Some(v) => Some(value_source(v)),
        None => None,
    };
    match planned(s, object, key, json_string(key), v) {
        Err(f) => Err(f),
        Ok(t) => if source_fault(json5_valid(t), t) is None {
            Ok(t)
        } else {
            Err(Fault::UnsafeUpdate)
        },
    }
}

/// Gives one property of the configuration, or of one of its objects, a value, or takes the
/// property out. Everything else in the source stays as it is, and the edit is read back. A new
/// name that JSON5 would not read is refused.
pub fn set(text: &str, object: Option<&str>, key: &str, value: Option<&Value>) -> (r: Result<
    String,
    SourceError,
>)
    ensures
        ({
            let v = match value {
                Some(v) => Some(v@),
                None => None,
            };
            match r {
                Ok(t) => set_outcome(text@, str_opt(object), key@, v) == Ok::<Seq<char>, Fault>(t@),
                Err(e) => set_outcome(text@, str_opt(object), key@, v) == Err::<Seq<char>, Fault>(
                    e@,
                ),
            }
        }),
        r matches Ok(t) ==> edit_is_read(
            text@,
            t@,
            str_opt(object),
            key@,
            match value {
                Some(v) => Some(value_source(v@)),
                None => None,
            },
        ),
        value is Some && !one_line(key@) && lacks(text@, str_opt(object), key@) ==> r is Err,
{
    let key_source = encode_string(key);
    let planned = match value {
        Some(v) => {
            let source = encode(v);
            assert(one_value(value_source(v@)));
            plan(text, object, key, key_source.as_str(), Some(source.as_str()))
        },
        None => plan(text, object, key, key_source.as_str(), None),
    };
    proof {
        let o = str_opt(object);
        if target_node(text@, o) is Ok {
            let n = target_node(text@, o)->Ok_0;
            match value {
                Some(v) => {
                    if named(n.members->0, key@) || one_line(key@) {
                        law_edits_are_read_back(text@, o, key@, key_source@, Some(value_source(v@)));
                    } else {
                        law_unreadable_names_are_refused(text@, o, key@, key_source@, value_source(v@));
                    }
                },
                None => {
                    law_edits_are_read_back(text@, o, key@, key_source@, None);
                },
            }
        }
    }
    match planned {
        Err(e) => Err(e),
        Ok(t) => match parse(t.as_str()) {
            Ok(()) => Ok(t),
            Err(_) => Err(SourceError::UnsafeUpdate),
        },
    }
}

/// Writing a property anew keeps the source before its value and the source behind it.
pub proof fn law_replacing_keeps_the_rest(
    s: Seq<char>,
    n: NodeView,
    key: Seq<char>,
    key_source: Seq<char>,
    value: Seq<char>,
)
    requires
        target_node(s, None) == Ok::<NodeView, Fault>(n),
        named(n.members->0, key),
    ensures
        ({
            let m = n.members->0[place_of(n.members->0, key)];
            let t = edited(s, n, key, key_source, Some(value));
            &&& t.len() == s.len() - (m.value_end - m.value_start) + value.len()
            &&& t.subrange(0, m.value_start) == s.subrange(0, m.value_start)
            &&& t.subrange(m.value_start, m.value_start + value.len()) == value
            &&& t.subrange(m.value_start + value.len(), t.len() as int) == s.subrange(
                m.value_end,
                s.len() as int,
            )
        }),
{
    lemma_node(s, 0);
    let ms = n.members->0;
    lemma_named_has_place(ms, key);
    let i = place_of(ms, key);
    assert(member_before(ms[i], n.end - 1));
    let t = edited(s, n, key, key_source, Some(value));
    assert(t.subrange(0, ms[i].value_start) =~= s.subrange(0, ms[i].value_start));
    assert(t.subrange(ms[i].value_start, ms[i].value_start + value.len()) =~= value);
    assert(t.subrange(ms[i].value_start + value.len(), t.len() as int) =~= s.subrange(
        ms[i].value_end,
        s.len() as int,
    ));
}

pub proof fn lemma_named_has_place(ms: Seq<MemberView>, key: Seq<char>)
    requires
        named(ms, key),
    ensures
        first_named(ms, key, place_of(ms, key)),
{
    let i = choose|i: int| 0 <= i < ms.len() && #[trigger] ms[i].key == key;
    lemma_first_named(ms, key, i);
}

proof fn lemma_first_named(ms: Seq<MemberView>, key: Seq<char>, i: int)
    requires
        0 <= i < ms.len(),
        ms[i].key == key,
    ensures
        exists|j: int| first_named(ms, key, j),
    decreases i,
{
    if forall|j: int| 0 <= j < i ==> (#[trigger] ms[j]).key != key {
        assert(first_named(ms, key, i));
    } else {
        let j = choose|j: int| 0 <= j < i && (#[trigger] ms[j]).key == key;
        lemma_first_named(ms, key, j);
    }
}

/// Taking out a property that is not there changes nothing.
pub proof fn law_removing_what_is_absent(s: Seq<char>, n: NodeView, key: Seq<char>, key_source: Seq<char>)
    requires
        target_node(s, None) == Ok::<NodeView, Fault>(n),
        !named(n.members->0, key),
    ensures
        edited(s, n, key, key_source, None) == s,
{
}

/// No object of a source that is accepted names a property twice.
pub proof fn law_names_are_distinct(s: Seq<char>, p: int, seen: Seq<MemberView>)
    requires
        0 <= p <= s.len(),
        forall|i: int, j: int| 0 <= i < j < seen.len() ==> (#[trigger] seen[i]).key != (#[trigger] seen[j]).key,
    ensures
        members(s, p, seen) matches Ok(r) ==> forall|i: int, j: int|
            0 <= i < j < r.0.len() ==> (#[trigger] r.0[i]).key != (#[trigger] r.0[j]).key,
    decreases s.len() - p,
{
    lemma_trivia(s, p);
    if trivia(s, p) is Ok {
        let t = trivia(s, p)->Ok_0;
        if t < s.len() && s[t] != '}' && key_end(s, t) is Ok {
            lemma_key_end(s, t);
            let k = key_end(s, t)->Ok_0;
            if fresh_key(json5_key(s.subrange(t, k)), seen) is Ok && trivia(s, k) is Ok {
                lemma_trivia(s, k);
                let key = fresh_key(json5_key(s.subrange(t, k)), seen)->Ok_0;
                let c = trivia(s, k)->Ok_0;
                if c < s.len() && s[c] == ':' && node(s, c + 1) is Ok {
                    lemma_node(s, c + 1);
                    let v = node(s, c + 1)->Ok_0;
                    if trivia(s, v.end) is Ok {
                        lemma_trivia(s, v.end);
                        let e = trivia(s, v.end)->Ok_0;
                        if e < s.len() {
                            if s[e] == ',' {
                                law_names_are_distinct(s, e + 1, seen.push(member(key, t, v, Some(e))));
                            } else if s[e] == '}' {
                                law_names_are_distinct(s, e, seen.push(member(key, t, v, None)));
                            }
                        }
                    }
                }
            }
        }
    }
}

} // verus!
