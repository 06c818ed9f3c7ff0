//! How the words of a program are handed to a shell so that it takes each as it stands.
use crate::quote::{lemma_quoted, lemma_step, push_quoted, quoted, shell_words};
use crate::text::views;
use vstd::prelude::*;

verus! {

/// Words between quotes, with a space between them.
pub open spec fn command_line(argv: Seq<Seq<char>>) -> Seq<char>
    decreases argv.len(),
{
    if argv.len() == 0 {
        Seq::empty()
    } else if argv.len() == 1 {
        quoted(argv[0])
    } else {
        command_line(argv.drop_last()) + seq![' '] + quoted(argv.last())
    }
}

proof fn lemma_command_line(argv: Seq<Seq<char>>, tail: Seq<char>)
    requires
        argv.len() > 0,
    ensures
        shell_words(command_line(argv) + tail, false, None, Seq::empty()) == shell_words(
            tail,
            false,
            Some(argv.last()),
            argv.drop_last(),
        ),
    decreases argv.len(),
{
    if argv.len() == 1 {
        lemma_quoted(argv[0], tail, Seq::empty());
        assert(argv.drop_last() =~= Seq::<Seq<char>>::empty());
    } else {
        let front = argv.drop_last();
        let t1 = quoted(argv.last()) + tail;
        assert(command_line(argv) + tail =~= command_line(front) + (seq![' '] + t1));
        lemma_command_line(front, seq![' '] + t1);
        lemma_step(' ', t1);
        assert(front.drop_last().push(front.last()) =~= front);
        lemma_quoted(argv.last(), tail, front);
    }
}

/// A shell that reads the line finds exactly the words that it was made of: none is expanded,
/// split or joined.
pub proof fn law_shell_reads_the_words(argv: Seq<Seq<char>>)
    ensures
        shell_words(command_line(argv), false, None, Seq::empty()) == Some(argv),
{
    if argv.len() > 0 {
        lemma_command_line(argv, Seq::empty());
        assert(command_line(argv) + Seq::empty() =~= command_line(argv));
        assert(argv.drop_last().push(argv.last()) =~= argv);
    } else {
        assert(argv =~= Seq::<Seq<char>>::empty());
    }
}

/// The line that makes a shell run a program with these words.
pub fn shell_command(argv: &Vec<String>) -> (r: String)
    ensures
        r@ == command_line(views(argv@)),
{
    let ghost all = views(argv@);
    let mut out = String::new();
    let mut i: usize = 0;
    assert(out@ =~= command_line(all.take(0)));
    while i < argv.len()
        invariant
            i <= argv@.len(),
            all == views(argv@),
            out@ == command_line(all.take(i as int)),
        decreases argv@.len() - i,
    {
        assert(all.take(i + 1).drop_last() =~= all.take(i as int));
        assert(all.take(i + 1).last() == argv@[i as int]@);
        let ghost before = out@;
        if i > 0 {
            out.push(' ');
        }
        push_quoted(&mut out, argv[i].as_str());
        proof {
            if i == 0 {
                assert(out@ =~= quoted(argv@[0]@));
            } else {
                assert(out@ =~= before + seq![' '] + quoted(argv@[i as int]@));
            }
        }
        i += 1;
    }
    assert(all.take(i as int) =~= all);
    out
}

} // verus!
