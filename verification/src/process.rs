//! What the system says about a process.
use crate::text::{cat3, chars_of, decimal_text, is_whitespace, parse_number, same, string_of};
use vstd::prelude::*;

verus! {

/// When a process was started, and whether it still runs.
#[derive(Debug, Clone, Copy, PartialEq, Eq, Structural)]
pub struct ProcessInfo {
    pub start_time: u64,
    pub alive: bool,
}

/// A process is the expected one where it runs and was started at the expected time, if one is
/// expected.
pub fn matches(info: Option<ProcessInfo>, expected_start_time: Option<u64>) -> (r: bool)
    ensures
        r == (info is Some && info->0.alive && (expected_start_time is None
            || expected_start_time->0 == info->0.start_time)),
{
    match info {
        None => false,
        Some(info) => info.alive && match expected_start_time {
            None => true,
            Some(expected) => info.start_time == expected,
        },
    }
}

/// When the process was started, also where it no longer runs.
pub fn start_time(info: Option<ProcessInfo>) -> (r: Option<u64>)
    ensures
        r is Some == info is Some,
        r is Some ==> r->0 == info->0.start_time,
{
    match info {
        None => None,
        Some(info) => Some(info.start_time),
    }
}

/// The file in which Linux describes a process.
pub fn stat_path(pid: u32) -> (r: String)
    ensures
        r@ == "/proc/"@ + crate::text::decimal(pid as nat) + "/stat"@,
{
    let n = decimal_text(pid as u64);
    cat3("/proc/", n.as_str(), "/stat")
}

/// What stands behind the last `") "`, which ends the name of the program.
pub open spec fn after_name(s: Seq<char>, i: int) -> Option<Seq<char>>
    decreases i + 1,
{
    if i < 0 || i + 2 > s.len() {
        None
    } else if s[i] == ')' && s[i + 1] == ' ' {
        Some(s.skip(i + 2))
    } else {
        after_name(s, i - 1)
    }
}

/// The words of a text: what stands between white space.
pub open spec fn words(s: Seq<char>) -> Seq<Seq<char>>
    decreases s.len(),
{
    if s.len() == 0 {
        Seq::empty()
    } else {
        let front = words(s.drop_last());
        let c = s.last();
        if crate::text::whitespace(c) {
            front
        } else if s.len() == 1 || crate::text::whitespace(s[s.len() - 2]) {
            front.push(seq![c])
        } else {
            front.update(front.len() - 1, front.last().push(c))
        }
    }
}

pub fn split_words(s: &str) -> (r: Vec<String>)
    ensures
        crate::text::views(r@) == words(s@),
{
    let v = chars_of(s);
    let mut out: Vec<String> = Vec::new();
    let mut word = String::new();
    let mut inside = false;
    let mut i: usize = 0;
    assert(s@.take(0) =~= Seq::<char>::empty());
    assert(crate::text::views(out@) =~= Seq::<Seq<char>>::empty());
    while i < v.len()
        invariant
            v@ == s@,
            i <= v@.len(),
            inside == (i > 0 && !crate::text::whitespace(s@[i - 1])),
            inside ==> words(s@.take(i as int)) == crate::text::views(out@).push(word@),
            !inside ==> words(s@.take(i as int)) == crate::text::views(out@) && word@.len() == 0,
        decreases v@.len() - i,
    {
        let c = v[i];
        let ghost t = s@.take(i + 1);
        let ghost done = crate::text::views(out@);
        assert(t.drop_last() =~= s@.take(i as int));
        assert(t.last() == c);
        if i > 0 {
            assert(t[t.len() - 2] == s@[i - 1]);
        }
        if is_whitespace(c) {
            if inside {
                let ghost w = word@;
                out.push(word);
                assert(crate::text::views(out@) =~= done.push(w));
                word = String::new();
                inside = false;
            }
        } else {
            let ghost w = word@;
            word.push(c);
            if inside {
                assert(done.push(w).update(done.len() as int, w.push(c)) =~= done.push(word@));
            } else {
                assert(word@ =~= seq![c]);
            }
            inside = true;
        }
        i += 1;
    }
    assert(s@.take(s@.len() as int) =~= s@);
    if inside {
        let ghost done = crate::text::views(out@).push(word@);
        out.push(word);
        assert(crate::text::views(out@) =~= done);
    }
    out
}

/// What the line of `/proc/<pid>/stat` says: the state is the first word behind the name, the
/// start time is the twentieth.
pub open spec fn stat_info(content: Seq<char>) -> Option<ProcessInfo> {
    match after_name(content, content.len() - 2) {
        None => None,
        Some(fields) => {
            let w = words(fields);
            if w.len() < 20 {
                None
            } else {
                match crate::text::parsed_number(w[19], u64::MAX as nat) {
                    None => None,
                    Some(n) => Some(
                        ProcessInfo {
                            start_time: n as u64,
                            alive: w[0] != "Z"@ && w[0] != "X"@ && w[0] != "x"@,
                        },
                    ),
                }
            }
        },
    }
}

pub fn parse_stat(content: &str) -> (r: Option<ProcessInfo>)
    ensures
        r == stat_info(content@),
{
    let v = chars_of(content);
    if v.len() < 2 {
        return None;
    }
    let mut i: usize = v.len() - 2;
    while !(v[i] == ')' && v[i + 1] == ' ')
        invariant
            v@ == content@,
            i + 2 <= v.len(),
            after_name(content@, content@.len() - 2) == after_name(content@, i as int),
        decreases i,
    {
        if i == 0 {
            assert(after_name(content@, -1) is None);
            return None;
        }
        i -= 1;
    }
    let fields = string_of(&v, i + 2, v.len());
    assert(fields@ =~= content@.skip(i + 2));
    let w = split_words(fields.as_str());
    if w.len() < 20 {
        return None;
    }
    let ghost ws = crate::text::views(w@);
    assert(ws[0] == w@[0]@ && ws[19] == w@[19]@);
    match parse_number(w[19].as_str(), u64::MAX) {
        None => None,
        Some(start_time) => {
            let state = w[0].as_str();
            Some(
                ProcessInfo {
                    start_time,
                    alive: !(same(state, "Z") || same(state, "X") || same(state, "x")),
                },
            )
        },
    }
}

/// What is known of a process whose description is `content`, if it has one.
pub fn inspect(content: Option<&str>) -> (r: Option<ProcessInfo>)
    ensures
        match content {
            None => r is None,
            Some(c) => r == stat_info(c@),
        },
{
    match content {
        None => None,
        Some(c) => parse_stat(c),
    }
}

/// The name of a program may hold anything, brackets too: what is read stands behind the last
/// bracket that a space follows.
pub proof fn law_names_of_programs_do_not_matter(name: Seq<char>, rest: Seq<char>)
    requires
        forall|i: int| 0 <= i < rest.len() - 1 ==> !(#[trigger] rest[i] == ')' && rest[i + 1] == ' '),
    ensures
        ({
            let s = name + seq![')', ' '] + rest;
            after_name(s, s.len() - 2) == Some(rest)
        }),
{
    let s = name + seq![')', ' '] + rest;
    lemma_after_name(name, rest, s.len() - 2);
}

proof fn lemma_after_name(name: Seq<char>, rest: Seq<char>, i: int)
    requires
        name.len() <= i <= name.len() + rest.len(),
        forall|i: int| 0 <= i < rest.len() - 1 ==> !(#[trigger] rest[i] == ')' && rest[i + 1] == ' '),
    ensures
        after_name(name + seq![')', ' '] + rest, i) == Some(rest),
    decreases i,
{
    let s = name + seq![')', ' '] + rest;
    if i == name.len() {
        assert(s[i] == ')' && s[i + 1] == ' ');
        assert(s.skip(i + 2) =~= rest);
    } else {
        if i == name.len() + 1 {
            assert(s[i] == ' ');
        } else {
            let k = i - name.len() - 2;
            assert(s[i] == rest[k] && s[i + 1] == rest[k + 1]);
        }
        lemma_after_name(name, rest, i - 1);
    }
}

/// The words of a text are those before and those behind any white space in it.
pub proof fn law_space_parts_words(a: Seq<char>, space: char, b: Seq<char>)
    requires
        crate::text::whitespace(space),
    ensures
        words(a + seq![space] + b) == words(a) + words(b),
    decreases b.len(),
{
    let s = a + seq![space] + b;
    if b.len() == 0 {
        assert(s.drop_last() =~= a);
        assert(s.last() == space);
        assert(words(a) + words(b) =~= words(a));
    } else {
        let front = b.drop_last();
        let c = b.last();
        law_space_parts_words(a, space, front);
        assert(s.drop_last() =~= a + seq![space] + front);
        assert(s.last() == c);
        if crate::text::whitespace(c) {
        } else if b.len() == 1 {
            assert(s[s.len() - 2] == space);
            assert(words(front) =~= Seq::<Seq<char>>::empty());
            assert(words(a) + words(b) =~= (words(a) + words(front)).push(seq![c]));
        } else {
            assert(s[s.len() - 2] == b[b.len() - 2]);
            if crate::text::whitespace(b[b.len() - 2]) {
                assert(words(a) + words(b) =~= (words(a) + words(front)).push(seq![c]));
            } else {
                lemma_word_open(front);
                let w = words(a) + words(front);
                assert(w.last() == words(front).last());
                assert(w.update(w.len() - 1, w.last().push(c)) =~= words(a) + words(b));
            }
        }
    }
}

proof fn lemma_word_open(s: Seq<char>)
    requires
        s.len() > 0,
        !crate::text::whitespace(s.last()),
    ensures
        words(s).len() > 0,
    decreases s.len(),
{
    if s.len() > 1 && !crate::text::whitespace(s[s.len() - 2]) {
        lemma_word_open(s.drop_last());
    }
}

/// A text without white space is one word.
pub proof fn law_one_word(s: Seq<char>)
    requires
        s.len() > 0,
        forall|i: int| 0 <= i < s.len() ==> !crate::text::whitespace(#[trigger] s[i]),
    ensures
        words(s) == seq![s],
    decreases s.len(),
{
    let front = s.drop_last();
    if s.len() == 1 {
        assert(words(front) =~= Seq::<Seq<char>>::empty());
        assert(!crate::text::whitespace(s[0]));
        assert(s =~= seq![s.last()]);
        assert(words(s) =~= seq![s]);
    } else {
        assert forall|i: int| 0 <= i < front.len() implies !crate::text::whitespace(#[trigger] front[i]) by {
            assert(!crate::text::whitespace(s[i]));
        }
        law_one_word(front);
        assert(!crate::text::whitespace(s[s.len() - 2]));
        assert(!crate::text::whitespace(s[s.len() - 1]));
        assert(front.push(s.last()) =~= s);
        assert(words(s) =~= seq![s]);
    }
}

/// A description is read whatever the program is called: the first word behind its name tells
/// whether it is over, the twentieth when it began. With fewer words nothing is known.
pub proof fn law_descriptions_are_read(name: Seq<char>, rest: Seq<char>)
    requires
        forall|i: int| 0 <= i < rest.len() - 1 ==> !(#[trigger] rest[i] == ')' && rest[i + 1] == ' '),
    ensures
        ({
            let info = stat_info(name + seq![')', ' '] + rest);
            let w = words(rest);
            &&& info is Some <==> w.len() >= 20 && crate::text::parsed_number(w[19], 0xffff_ffff_ffff_ffff) is Some
            &&& info matches Some(p) ==> {
                &&& crate::text::parsed_number(w[19], 0xffff_ffff_ffff_ffff) == Some(p.start_time as nat)
                &&& p.alive <==> w[0] != "Z"@ && w[0] != "X"@ && w[0] != "x"@
            }
        }),
{
    law_names_of_programs_do_not_matter(name, rest);
}

} // verus!
