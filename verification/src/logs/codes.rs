//! What bytes and the text that is read from them have in common.
use vstd::prelude::*;
use vstd::utf8::{encode_scalar, encode_utf8};

verus! {

pub open spec fn byte_codes(bytes: Seq<u8>) -> Seq<nat> {
    Seq::new(bytes.len(), |i: int| bytes[i] as nat)
}

pub open spec fn char_codes(text: Seq<char>) -> Seq<nat> {
    Seq::new(text.len(), |i: int| text[i] as u32 as nat)
}

/// The control characters that text may hold, by their codes.
pub proof fn lemma_code_of(c: char)
    ensures
        (c as u32 == 0x0a) == (c == '\n'),
        (c as u32 == 0x0d) == (c == '\r'),
        (c as u32 == 0x09) == (c == '\t'),
{
}

/// The codes with every run of codes beyond ASCII drawn together into one.
pub open spec fn outline(codes: Seq<nat>) -> Seq<nat>
    decreases codes.len(),
{
    if codes.len() == 0 {
        Seq::empty()
    } else {
        let front = outline(codes.drop_last());
        if codes.last() < 0x80 {
            front.push(codes.last())
        } else if front.len() > 0 && front.last() >= 0x80 {
            front
        } else {
            front.push(0x80)
        }
    }
}

/// The ASCII codes among the codes.
pub open spec fn ascii_part(codes: Seq<nat>) -> Seq<nat>
    decreases codes.len(),
{
    if codes.len() == 0 {
        Seq::empty()
    } else if codes.last() < 0x80 {
        ascii_part(codes.drop_last()).push(codes.last())
    } else {
        ascii_part(codes.drop_last())
    }
}

/// The codes of `a` occur in `b`, in the same order.
pub open spec fn is_subsequence(a: Seq<nat>, b: Seq<nat>) -> bool
    decreases b.len(),
{
    a.len() == 0 || b.len() > 0 && (is_subsequence(a, b.drop_last()) || a.last() == b.last()
        && is_subsequence(a.drop_last(), b.drop_last()))
}

pub proof fn lemma_outline_holds(codes: Seq<nat>, code: nat)
    requires
        code < 0x80,
    ensures
        outline(codes).contains(code) == codes.contains(code),
    decreases codes.len(),
{
    if codes.len() > 0 {
        let rest = codes.drop_last();
        let front = outline(rest);
        lemma_outline_holds(rest, code);
        assert(codes =~= rest.push(codes.last()));
        if rest.contains(code) {
            let i = rest.index_of(code);
            assert(codes[i] == code);
            let j = front.index_of(code);
            assert(outline(codes)[j] == code);
        }
        if codes.last() == code {
            assert(outline(codes)[front.len() as int] == code);
            assert(codes[codes.len() - 1] == code);
        }
        if outline(codes).contains(code) {
            let j = outline(codes).index_of(code);
            if j < front.len() {
                assert(front[j] == code);
            }
        }
        if codes.contains(code) && codes.last() != code {
            let i = codes.index_of(code);
            assert(rest[i] == code);
        }
    }
}

pub proof fn lemma_outline_keeps_ascii(codes: Seq<nat>)
    ensures
        ascii_part(outline(codes)) == ascii_part(codes),
    decreases codes.len(),
{
    if codes.len() > 0 {
        let front = outline(codes.drop_last());
        lemma_outline_keeps_ascii(codes.drop_last());
        if codes.last() < 0x80 {
            assert(front.push(codes.last()).drop_last() =~= front);
        } else if !(front.len() > 0 && front.last() >= 0x80) {
            assert(front.push(0x80).drop_last() =~= front);
        }
    }
}

pub proof fn lemma_ascii_is_subsequence(codes: Seq<nat>)
    ensures
        is_subsequence(ascii_part(codes), codes),
    decreases codes.len(),
{
    if codes.len() > 0 {
        lemma_ascii_is_subsequence(codes.drop_last());
        let part = ascii_part(codes);
        if codes.last() < 0x80 {
            assert(part.drop_last() =~= ascii_part(codes.drop_last()));
        }
    }
}

pub proof fn lemma_subsequence_transitive(a: Seq<nat>, b: Seq<nat>, c: Seq<nat>)
    requires
        is_subsequence(a, b),
        is_subsequence(b, c),
    ensures
        is_subsequence(a, c),
    decreases c.len(),
{
    if a.len() > 0 {
        if is_subsequence(b, c.drop_last()) {
            lemma_subsequence_transitive(a, b, c.drop_last());
        } else if is_subsequence(a, b.drop_last()) {
            lemma_subsequence_transitive(a, b.drop_last(), c.drop_last());
        } else {
            lemma_subsequence_transitive(a.drop_last(), b.drop_last(), c.drop_last());
        }
    }
}

pub proof fn lemma_subsequence_behind(front: Seq<nat>, a: Seq<nat>, b: Seq<nat>)
    requires
        is_subsequence(a, b),
    ensures
        is_subsequence(a, front + b),
    decreases b.len(),
{
    if a.len() > 0 {
        assert((front + b).drop_last() =~= front + b.drop_last());
        if is_subsequence(a, b.drop_last()) {
            lemma_subsequence_behind(front, a, b.drop_last());
        } else {
            lemma_subsequence_behind(front, a.drop_last(), b.drop_last());
        }
    }
}

pub proof fn lemma_subsequence_both(x: nat, a: Seq<nat>, b: Seq<nat>)
    requires
        is_subsequence(a, b),
    ensures
        is_subsequence(seq![x] + a, seq![x] + b),
    decreases b.len(),
{
    let xa = seq![x] + a;
    let xb = seq![x] + b;
    if b.len() == 0 {
        assert(xa =~= xb);
        assert(is_subsequence(xa.drop_last(), xb.drop_last()));
    } else {
        assert(xb.drop_last() =~= seq![x] + b.drop_last());
        if is_subsequence(a, b.drop_last()) {
            lemma_subsequence_both(x, a, b.drop_last());
        } else {
            lemma_subsequence_both(x, a.drop_last(), b.drop_last());
            assert(xa.drop_last() =~= seq![x] + a.drop_last());
            assert(xa.last() == a.last());
        }
    }
}

// ---------------------------------------------------------------------------------------------
// Lines

/// Lines that have ended, whether one has begun, and whether the last code is a CR.
pub struct LineState {
    pub lines: nat,
    pub open: bool,
    pub cr: bool,
}

/// CR, LF and CR LF each end a line, and everything else opens one.
pub open spec fn line_state(codes: Seq<nat>) -> LineState
    decreases codes.len(),
{
    if codes.len() == 0 {
        LineState { lines: 0, open: false, cr: false }
    } else {
        let before = line_state(codes.drop_last());
        if codes.last() == 0x0a && before.cr {
            LineState { cr: false, ..before }
        } else if codes.last() == 0x0a || codes.last() == 0x0d {
            LineState { lines: before.lines + 1, open: false, cr: codes.last() == 0x0d }
        } else {
            LineState { lines: before.lines, open: true, cr: false }
        }
    }
}

pub open spec fn line_total(state: LineState) -> nat {
    state.lines + if state.open { 1nat } else { 0nat }
}

pub proof fn lemma_outline_keeps_lines(codes: Seq<nat>)
    ensures
        line_state(outline(codes)) == line_state(codes),
    decreases codes.len(),
{
    if codes.len() > 0 {
        let front = outline(codes.drop_last());
        lemma_outline_keeps_lines(codes.drop_last());
        if codes.last() < 0x80 {
            assert(front.push(codes.last()).drop_last() =~= front);
        } else if !(front.len() > 0 && front.last() >= 0x80) {
            assert(front.push(0x80).drop_last() =~= front);
        }
    }
}

pub proof fn lemma_lines_are_few(codes: Seq<nat>)
    ensures
        line_total(line_state(codes)) <= codes.len(),
        line_state(codes).cr ==> !line_state(codes).open,
    decreases codes.len(),
{
    if codes.len() > 0 {
        lemma_lines_are_few(codes.drop_last());
    }
}

// ---------------------------------------------------------------------------------------------
// UTF-8

/// How often the code occurs.
pub open spec fn occurrences(codes: Seq<nat>, code: nat) -> nat
    decreases codes.len(),
{
    if codes.len() == 0 {
        0
    } else {
        occurrences(codes.drop_last(), code) + if codes.last() == code { 1nat } else { 0nat }
    }
}

pub proof fn lemma_occurrences_add(a: Seq<nat>, b: Seq<nat>, code: nat)
    ensures
        occurrences(a + b, code) == occurrences(a, code) + occurrences(b, code),
    decreases b.len(),
{
    if b.len() == 0 {
        assert(a + b =~= a);
    } else {
        assert((a + b).drop_last() =~= a + b.drop_last());
        lemma_occurrences_add(a, b.drop_last(), code);
    }
}

proof fn lemma_scalar_bytes(n: u32)
    by (bit_vector)
    ensures
        n < 0x80 ==> (n & 0x7f) as u8 == n,
        (0xC0u8 | ((n >> 6) & 0x1F) as u8) >= 0x80,
        (0xE0u8 | ((n >> 12) & 0x0F) as u8) >= 0x80,
        (0xF0u8 | ((n >> 18) & 0x7) as u8) >= 0x80,
        (0x80u8 | (n & 0x3F) as u8) >= 0x80,
        (0x80u8 | ((n >> 6) & 0x3F) as u8) >= 0x80,
        (0x80u8 | ((n >> 12) & 0x3F) as u8) >= 0x80,
{
}

/// An ASCII character is written as one byte of the same code, and any other one as bytes beyond
/// ASCII.
pub proof fn lemma_encode_scalar(c: char)
    ensures
        c as u32 <= 0x7f ==> encode_scalar(c as u32).len() == 1 && encode_scalar(c as u32)[0] == c as u32,
        c as u32 > 0x7f ==> forall|i: int|
            0 <= i < encode_scalar(c as u32).len() ==> #[trigger] encode_scalar(c as u32)[i] >= 0x80,
{
    lemma_scalar_bytes(c as u32);
}

pub proof fn lemma_no_occurrence(codes: Seq<nat>, code: nat)
    requires
        forall|i: int| 0 <= i < codes.len() ==> codes[i] != code,
    ensures
        occurrences(codes, code) == 0,
    decreases codes.len(),
{
    if codes.len() > 0 {
        lemma_no_occurrence(codes.drop_last(), code);
    }
}

/// Writing a text as UTF-8 keeps how often an ASCII character occurs.
pub proof fn lemma_encoding_keeps_occurrences(s: Seq<char>, code: nat)
    requires
        code < 0x80,
    ensures
        occurrences(byte_codes(encode_utf8(s)), code) == occurrences(char_codes(s), code),
    decreases s.len(),
{
    if s.len() == 0 {
        assert(byte_codes(encode_utf8(s)) =~= Seq::<nat>::empty());
    } else {
        let rest = s.drop_first();
        let head = encode_scalar(s[0] as u32);
        lemma_encoding_keeps_occurrences(rest, code);
        lemma_encode_scalar(s[0]);
        assert(byte_codes(encode_utf8(s)) =~= byte_codes(head) + byte_codes(encode_utf8(rest)));
        lemma_occurrences_add(byte_codes(head), byte_codes(encode_utf8(rest)), code);
        let first = seq![s[0] as u32 as nat];
        assert(char_codes(s) =~= first + char_codes(rest));
        lemma_occurrences_add(first, char_codes(rest), code);
        assert(first.drop_last() =~= Seq::<nat>::empty());
        reveal_with_fuel(occurrences, 2);
        if s[0] as u32 <= 0x7f {
            assert(byte_codes(head) =~= first);
        } else {
            lemma_no_occurrence(byte_codes(head), code);
        }
    }
}

pub proof fn lemma_encoding_adds(a: Seq<char>, b: Seq<char>)
    ensures
        encode_utf8(a + b) == encode_utf8(a) + encode_utf8(b),
    decreases a.len(),
{
    if a.len() == 0 {
        assert(a + b =~= b);
        assert(encode_utf8(a) + encode_utf8(b) =~= encode_utf8(b));
    } else {
        lemma_encoding_adds(a.drop_first(), b);
        assert((a + b).drop_first() =~= a.drop_first() + b);
        assert(encode_utf8(a + b) =~= encode_utf8(a) + encode_utf8(b));
    }
}

} // verus!
