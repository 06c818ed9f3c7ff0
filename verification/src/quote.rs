//! Words between single quotes, as a shell takes them.
use crate::text::chars_of;
use vstd::prelude::*;

verus! {

/// A character as it stands between single quotes. The quote itself cannot: the quotes are closed
/// before it and opened again after it.
pub open spec fn escaped_char(c: char) -> Seq<char> {
    if c == '\'' {
        seq!['\'', '\\', '\'', '\'']
    } else {
        seq![c]
    }
}

pub open spec fn escaped(s: Seq<char>) -> Seq<char>
    decreases s.len(),
{
    if s.len() == 0 {
        Seq::empty()
    } else {
        escaped(s.drop_last()) + escaped_char(s.last())
    }
}

pub open spec fn quoted(s: Seq<char>) -> Seq<char> {
    seq!['\''] + escaped(s) + seq!['\'']
}

/// The word that is being read, one character longer.
pub open spec fn longer(word: Option<Seq<char>>, c: char) -> Option<Seq<char>> {
    match word {
        Some(w) => Some(w.push(c)),
        None => Some(seq![c]),
    }
}

/// How a shell reads words: what stands between single quotes stands for itself, and so does a
/// character behind a backslash outside of them; spaces part the words. A line with anything else
/// outside of quotes has a meaning that goes beyond its words.
pub open spec fn shell_words(
    line: Seq<char>,
    inside: bool,
    word: Option<Seq<char>>,
    done: Seq<Seq<char>>,
) -> Option<Seq<Seq<char>>>
    decreases line.len(),
{
    if line.len() == 0 {
        if inside {
            None
        } else {
            match word {
                Some(w) => Some(done.push(w)),
                None => Some(done),
            }
        }
    } else {
        let c = line[0];
        let rest = line.skip(1);
        if inside {
            if c == '\'' {
                shell_words(rest, false, word, done)
            } else {
                shell_words(rest, true, longer(word, c), done)
            }
        } else if c == '\'' {
            let begun = match word {
                Some(w) => Some(w),
                None => Some(Seq::empty()),
            };
            shell_words(rest, true, begun, done)
        } else if c == '\\' {
            if rest.len() == 0 {
                None
            } else {
                shell_words(rest.skip(1), false, longer(word, rest[0]), done)
            }
        } else if c == ' ' {
            match word {
                Some(w) => shell_words(rest, false, None, done.push(w)),
                None => shell_words(rest, false, None, done),
            }
        } else {
            None
        }
    }
}

/// One step of a shell over a character, at the front of a line.
pub proof fn lemma_step(c: char, tail: Seq<char>)
    ensures
        (seq![c] + tail)[0] == c,
        (seq![c] + tail).len() == tail.len() + 1,
        (seq![c] + tail).skip(1) == tail,
{
    assert((seq![c] + tail).skip(1) =~= tail);
}

proof fn lemma_escaped_char(c: char, tail: Seq<char>, w: Seq<char>, done: Seq<Seq<char>>)
    ensures
        shell_words(escaped_char(c) + tail, true, Some(w), done) == shell_words(
            tail,
            true,
            Some(w.push(c)),
            done,
        ),
{
    if c == '\'' {
        let t3 = seq!['\''] + tail;
        let t2 = seq!['\''] + t3;
        let t1 = seq!['\\'] + t2;
        let t0 = seq!['\''] + t1;
        assert(escaped_char(c) + tail =~= t0);
        lemma_step('\'', t1);
        lemma_step('\\', t2);
        lemma_step('\'', t3);
        lemma_step('\'', tail);
        assert(shell_words(t0, true, Some(w), done) == shell_words(t1, false, Some(w), done));
        assert(shell_words(t1, false, Some(w), done) == shell_words(
            t3,
            false,
            Some(w.push(c)),
            done,
        ));
        assert(shell_words(t3, false, Some(w.push(c)), done) == shell_words(
            tail,
            true,
            Some(w.push(c)),
            done,
        ));
    } else {
        lemma_step(c, tail);
    }
}

proof fn lemma_escaped(s: Seq<char>, tail: Seq<char>, w: Seq<char>, done: Seq<Seq<char>>)
    ensures
        shell_words(escaped(s) + tail, true, Some(w), done) == shell_words(
            tail,
            true,
            Some(w + s),
            done,
        ),
    decreases s.len(),
{
    if s.len() == 0 {
        assert(escaped(s) + tail =~= tail);
        assert(w + s =~= w);
    } else {
        let front = s.drop_last();
        let c = s.last();
        assert(escaped(s) + tail =~= escaped(front) + (escaped_char(c) + tail));
        lemma_escaped(front, escaped_char(c) + tail, w, done);
        lemma_escaped_char(c, tail, w + front, done);
        assert((w + front).push(c) =~= w + s);
    }
}

pub proof fn lemma_quoted(s: Seq<char>, tail: Seq<char>, done: Seq<Seq<char>>)
    ensures
        shell_words(quoted(s) + tail, false, None, done) == shell_words(tail, false, Some(s), done),
{
    let t1 = escaped(s) + (seq!['\''] + tail);
    assert(quoted(s) + tail =~= seq!['\''] + t1);
    lemma_step('\'', t1);
    lemma_escaped(s, seq!['\''] + tail, Seq::empty(), done);
    assert(Seq::<char>::empty() + s =~= s);
    lemma_step('\'', tail);
}

/// A shell reads a quoted text back as one word that is the text.
pub proof fn law_quoting_round_trip(s: Seq<char>)
    ensures
        shell_words(quoted(s), false, None, Seq::empty()) == Some(seq![s]),
{
    lemma_quoted(s, Seq::empty(), Seq::empty());
    assert(quoted(s) + Seq::<char>::empty() =~= quoted(s));
    assert(Seq::<Seq<char>>::empty().push(s) =~= seq![s]);
}

/// Puts a word between quotes behind a text.
pub fn push_quoted(out: &mut String, word: &str)
    ensures
        final(out)@ == old(out)@ + quoted(word@),
{
    let ghost start = out@;
    out.push('\'');
    let chars = chars_of(word);
    let mut i: usize = 0;
    assert(out@ =~= start + seq!['\''] + escaped(word@.take(0)));
    while i < chars.len()
        invariant
            i <= chars@.len(),
            chars@ == word@,
            out@ == start + seq!['\''] + escaped(word@.take(i as int)),
        decreases chars@.len() - i,
    {
        assert(word@.take(i + 1).drop_last() =~= word@.take(i as int));
        let ghost before = out@;
        let c = chars[i];
        if c == '\'' {
            out.push('\'');
            out.push('\\');
            out.push('\'');
            out.push('\'');
        } else {
            out.push(c);
        }
        assert(out@ =~= before + escaped_char(c));
        i += 1;
    }
    assert(word@.take(i as int) =~= word@);
    out.push('\'');
    assert(out@ =~= start + quoted(word@));
}

} // verus!
