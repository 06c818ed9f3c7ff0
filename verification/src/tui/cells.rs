//! How much room text takes on a terminal.
use crate::text::views;
use unicode_segmentation::UnicodeSegmentation;
use unicode_width::UnicodeWidthStr;
use vstd::prelude::*;

verus! {

/// How many columns a text takes.
pub uninterp spec fn text_width(s: Seq<char>) -> nat;

/// `UnicodeWidthStr::width`: the displayed width in columns, which depends on the text alone.
#[verifier::external_body]
pub(crate) fn width_of(s: &str) -> (r: usize)
    ensures
        r == text_width(s@),
{
    s.width()
}

/// The grapheme clusters of a text, in order.
pub uninterp spec fn grapheme_clusters(s: Seq<char>) -> Seq<Seq<char>>;

/// `UnicodeSegmentation::graphemes`, extended: where clusters begin depends on the text alone, and
/// one behind the other they are the text. None of them is empty.
#[verifier::external_body]
pub(crate) fn graphemes_of(s: &str) -> (r: Vec<String>)
    ensures
        views(r@) == grapheme_clusters(s@),
        views(r@).flatten() == s@,
        forall|i: int| 0 <= i < r@.len() ==> (#[trigger] views(r@)[i]).len() > 0,
{
    s.graphemes(true).map(str::to_owned).collect()
}

/// How many columns one character takes by itself.
pub fn char_cells(c: char) -> (r: usize)
    ensures
        r == text_width(seq![c]),
{
    let mut s = String::new();
    s.push(c);
    assert(s@ =~= seq![c]);
    width_of(s.as_str())
}

} // verus!
