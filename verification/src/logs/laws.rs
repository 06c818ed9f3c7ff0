//! What cleaning and counting make of output, sequence by sequence.
use crate::logs::display::{
    clean_from, count_byte, count_bytes, counted, csi_end, empty_counter, escape_after, escape_next,
    item_end, last_n, law_counting_in_pieces, osc_end, shown_bytes, unix_lines, EscapeState, LineCounter,
};
use vstd::prelude::*;

verus! {

// ---------------------------------------------------------------------------------------------
// Complete output

proof fn lemma_csi_shift(a: Seq<u8>, b: Seq<u8>, i: int)
    requires
        0 <= i <= b.len(),
    ensures
        csi_end(a + b, a.len() + i) == a.len() + csi_end(b, i),
    decreases b.len() - i,
{
    if i < b.len() {
        assert((a + b)[a.len() + i] == b[i]);
        lemma_csi_shift(a, b, i + 1);
    }
}

proof fn lemma_osc_shift(a: Seq<u8>, b: Seq<u8>, i: int)
    requires
        0 <= i <= b.len(),
    ensures
        osc_end(a + b, a.len() + i) == a.len() + osc_end(b, i),
    decreases b.len() - i,
{
    if i < b.len() {
        assert((a + b)[a.len() + i] == b[i]);
        if i + 1 < b.len() {
            assert((a + b)[a.len() + i + 1] == b[i + 1]);
        }
        lemma_osc_shift(a, b, i + 1);
    }
}

/// What stands before a place does not matter for what is shown from there on.
proof fn lemma_clean_shift(a: Seq<u8>, b: Seq<u8>, i: int)
    requires
        0 <= i <= b.len(),
    ensures
        clean_from(a + b, a.len() + i) == clean_from(b, i),
    decreases b.len() - i,
{
    if i < b.len() {
        let ab = a + b;
        assert(ab[a.len() + i] == b[i]);
        if i + 1 < b.len() {
            assert(ab[a.len() + i + 1] == b[i + 1]);
        }
        lemma_csi_shift(a, b, i + 1);
        if i + 2 <= b.len() {
            lemma_csi_shift(a, b, i + 2);
            lemma_osc_shift(a, b, i + 2);
        }
        let e = item_end(b, i);
        assert(item_end(ab, a.len() + i) == a.len() + e);
        if i < e <= b.len() {
            lemma_clean_shift(a, b, e);
        }
        lemma_clean_shift(a, b, i + 1);
    }
}

/// A control sequence with those parameters and that last byte ends right behind it.
proof fn lemma_csi_over(b: Seq<u8>, i: int, n: int)
    requires
        0 <= i <= n < b.len(),
        forall|k: int| i <= k < n ==> (#[trigger] b[k] < 0x40 || b[k] > 0x7e),
        0x40 <= b[n] <= 0x7e,
    ensures
        csi_end(b, i) == n + 1,
    decreases n - i,
{
    if i < n {
        assert(b[i] < 0x40 || b[i] > 0x7e);
        lemma_csi_over(b, i + 1, n);
    }
}

proof fn lemma_csi_open(b: Seq<u8>, i: int)
    requires
        0 <= i <= b.len(),
        forall|k: int| i <= k < b.len() ==> (#[trigger] b[k] < 0x40 || b[k] > 0x7e),
    ensures
        csi_end(b, i) == b.len(),
    decreases b.len() - i,
{
    if i < b.len() {
        assert(b[i] < 0x40 || b[i] > 0x7e);
        lemma_csi_open(b, i + 1);
    }
}

/// A command without a terminator before `n`.
proof fn lemma_osc_over(b: Seq<u8>, i: int, n: int)
    requires
        0 <= i <= n <= b.len(),
        forall|k: int| i <= k < n ==> #[trigger] b[k] != 0x07,
        forall|k: int| i <= k < n && #[trigger] b[k] == 0x1b ==> k + 1 >= b.len() || b[k + 1] != 0x5c,
    ensures
        osc_end(b, i) == osc_end(b, n),
    decreases n - i,
{
    if i < n {
        assert(b[i] != 0x07);
        lemma_osc_over(b, i + 1, n);
    }
}

/// A complete control sequence leaves no trace, whichever of its two introducers it has: what is
/// shown is what is shown of the rest. Its parameters are all bytes up to the first one from `@`
/// to `~`, which ends it.
pub proof fn law_control_sequences_leave_no_trace(parameters: Seq<u8>, last: u8, rest: Seq<u8>)
    requires
        forall|k: int| 0 <= k < parameters.len() ==> (#[trigger] parameters[k] < 0x40 || parameters[k] > 0x7e),
        0x40 <= last <= 0x7e,
    ensures
        clean_from(seq![0x1bu8, 0x5b] + parameters + seq![last] + rest, 0) == clean_from(rest, 0),
        clean_from(seq![0x9bu8] + parameters + seq![last] + rest, 0) == clean_from(rest, 0),
{
    let n = parameters.len() as int;
    let long = seq![0x1bu8, 0x5b] + parameters + seq![last];
    let b = long + rest;
    assert(b =~= seq![0x1bu8, 0x5b] + parameters + seq![last] + rest);
    assert forall|k: int| 2 <= k < 2 + n implies (#[trigger] b[k] < 0x40 || b[k] > 0x7e) by {
        assert(b[k] == parameters[k - 2]);
    }
    lemma_csi_over(b, 2, 2 + n);
    lemma_clean_shift(long, rest, 0);
    let short = seq![0x9bu8] + parameters + seq![last];
    let c = short + rest;
    assert(c =~= seq![0x9bu8] + parameters + seq![last] + rest);
    assert forall|k: int| 1 <= k < 1 + n implies (#[trigger] c[k] < 0x40 || c[k] > 0x7e) by {
        assert(c[k] == parameters[k - 1]);
    }
    lemma_csi_over(c, 1, 1 + n);
    lemma_clean_shift(short, rest, 0);
}

/// A control sequence that the output does not end, and an escape character at its very end, hide
/// what is left of it.
pub proof fn law_open_sequences_are_not_shown(parameters: Seq<u8>)
    requires
        forall|k: int| 0 <= k < parameters.len() ==> (#[trigger] parameters[k] < 0x40 || parameters[k] > 0x7e),
    ensures
        clean_from(seq![0x1bu8, 0x5b] + parameters, 0).len() == 0,
        clean_from(seq![0x9bu8] + parameters, 0).len() == 0,
        clean_from(seq![0x1bu8], 0).len() == 0,
{
    let b = seq![0x1bu8, 0x5b] + parameters;
    assert forall|k: int| 2 <= k < b.len() implies (#[trigger] b[k] < 0x40 || b[k] > 0x7e) by {
        assert(b[k] == parameters[k - 2]);
    }
    lemma_csi_open(b, 2);
    let c = seq![0x9bu8] + parameters;
    assert forall|k: int| 1 <= k < c.len() implies (#[trigger] c[k] < 0x40 || c[k] > 0x7e) by {
        assert(c[k] == parameters[k - 1]);
    }
    lemma_csi_open(c, 1);
    assert(clean_from(b, b.len() as int).len() == 0);
    assert(clean_from(c, c.len() as int).len() == 0);
    assert(clean_from(seq![0x1bu8], 1).len() == 0);
}

/// A command to the terminal, such as its title, leaves no trace, whether a bell or a string
/// terminator ends it. One without an end hides what is left of the output.
pub proof fn law_terminal_commands_leave_no_trace(text: Seq<u8>, rest: Seq<u8>)
    requires
        forall|k: int| 0 <= k < text.len() ==> #[trigger] text[k] != 0x07 && text[k] != 0x1b,
    ensures
        clean_from(seq![0x1bu8, 0x5d] + text + seq![0x07u8] + rest, 0) == clean_from(rest, 0),
        clean_from(seq![0x1bu8, 0x5d] + text + seq![0x1bu8, 0x5c] + rest, 0) == clean_from(rest, 0),
        clean_from(seq![0x1bu8, 0x5d] + text, 0).len() == 0,
{
    let n = 2 + text.len() as int;
    let open = seq![0x1bu8, 0x5d] + text;
    let bell = open + seq![0x07u8];
    let b = bell + rest;
    assert(b =~= seq![0x1bu8, 0x5d] + text + seq![0x07u8] + rest);
    assert forall|k: int| 2 <= k < n implies #[trigger] b[k] != 0x07 && b[k] != 0x1b by {
        assert(b[k] == text[k - 2]);
    }
    lemma_osc_over(b, 2, n);
    lemma_clean_shift(bell, rest, 0);
    let ended = open + seq![0x1bu8, 0x5c];
    let c = ended + rest;
    assert(c =~= seq![0x1bu8, 0x5d] + text + seq![0x1bu8, 0x5c] + rest);
    assert forall|k: int| 2 <= k < n implies #[trigger] c[k] != 0x07 && c[k] != 0x1b by {
        assert(c[k] == text[k - 2]);
    }
    lemma_osc_over(c, 2, n);
    lemma_clean_shift(ended, rest, 0);
    assert forall|k: int| 2 <= k < n implies #[trigger] open[k] != 0x07 && open[k] != 0x1b by {
        assert(open[k] == text[k - 2]);
    }
    lemma_osc_over(open, 2, n);
    assert(clean_from(open, n).len() == 0);
}

/// An escape character takes the one byte behind it along, where that opens nothing longer.
pub proof fn law_short_escapes_leave_no_trace(byte: u8, rest: Seq<u8>)
    requires
        byte != 0x5b && byte != 0x5d,
    ensures
        clean_from(seq![0x1bu8, byte] + rest, 0) == clean_from(rest, 0),
{
    lemma_clean_shift(seq![0x1bu8, byte], rest, 0);
}

/// Of bytes outside of any sequence, line feed, carriage return, tab and what is no control
/// character are shown as they are, and the others are left out.
pub proof fn law_output_is_shown_byte_by_byte(byte: u8, rest: Seq<u8>)
    requires
        byte != 0x1b && byte != 0x9b,
    ensures
        byte == 0x0a || byte == 0x0d || byte == 0x09 || (byte >= 0x20 && byte != 0x7f) ==> clean_from(
            seq![byte] + rest,
            0,
        ) == seq![byte] + clean_from(rest, 0),
        (byte < 0x20 && byte != 0x0a && byte != 0x0d && byte != 0x09) || byte == 0x7f ==> clean_from(
            seq![byte] + rest,
            0,
        ) == clean_from(rest, 0),
        clean_from(Seq::empty(), 0).len() == 0,
{
    lemma_clean_shift(seq![byte], rest, 0);
}

// ---------------------------------------------------------------------------------------------
// Output as it arrives

proof fn lemma_state_in_pieces(state: EscapeState, a: Seq<u8>, b: Seq<u8>)
    ensures
        escape_after(state, a + b) == escape_after(escape_after(state, a), b),
    decreases b.len(),
{
    if b.len() == 0 {
        assert(a + b =~= a);
    } else {
        lemma_state_in_pieces(state, a, b.drop_last());
        assert((a + b).drop_last() =~= a + b.drop_last());
        assert((a + b).last() == b.last());
    }
}

/// Output may arrive in any pieces: what is shown of them, one behind the other, is what is shown
/// of the whole, also where a piece ends within a sequence.
pub proof fn law_showing_in_pieces(state: EscapeState, a: Seq<u8>, b: Seq<u8>)
    ensures
        shown_bytes(state, a + b) == shown_bytes(state, a) + shown_bytes(escape_after(state, a), b),
    decreases b.len(),
{
    if b.len() == 0 {
        assert(a + b =~= a);
        assert(shown_bytes(state, a) + Seq::<u8>::empty() =~= shown_bytes(state, a));
    } else {
        let f = b.drop_last();
        law_showing_in_pieces(state, a, f);
        lemma_state_in_pieces(state, a, f);
        assert((a + b).drop_last() =~= a + f);
        assert((a + b).last() == b.last());
        let x = shown_bytes(state, a);
        let y = shown_bytes(escape_after(state, a), f);
        assert((x + y).push(b.last()) =~= x + y.push(b.last()));
    }
}

/// Bytes that keep a state and are not shown in it.
proof fn lemma_silent(state: EscapeState, b: Seq<u8>)
    requires
        !(state is Plain),
        forall|k: int| 0 <= k < b.len() ==> escape_next(state, #[trigger] b[k]) == state,
    ensures
        escape_after(state, b) == state,
        shown_bytes(state, b).len() == 0,
    decreases b.len(),
{
    if b.len() > 0 {
        let f = b.drop_last();
        assert forall|k: int| 0 <= k < f.len() implies escape_next(state, #[trigger] f[k]) == state by {
            assert(f[k] == b[k]);
        }
        lemma_silent(state, f);
        assert(b[b.len() - 1] == b.last());
    }
}

proof fn lemma_one(state: EscapeState, byte: u8)
    ensures
        escape_after(state, seq![byte]) == escape_next(state, byte),
        !(state is Plain) ==> shown_bytes(state, seq![byte]).len() == 0,
        state is Plain && (byte == 0x1b || byte == 0x9b) ==> shown_bytes(state, seq![byte]).len() == 0,
{
    assert(seq![byte].drop_last() =~= Seq::<u8>::empty());
    assert(escape_after(state, Seq::empty()) == state);
    assert(shown_bytes(state, Seq::empty()).len() == 0);
}

/// A sequence of an introducer, a body that keeps the state, and an end.
proof fn lemma_sequence(head: Seq<u8>, inside: EscapeState, body: Seq<u8>, last: u8, rest: Seq<u8>)
    requires
        escape_after(EscapeState::Plain, head) == inside,
        shown_bytes(EscapeState::Plain, head).len() == 0,
        !(inside is Plain),
        forall|k: int| 0 <= k < body.len() ==> escape_next(inside, #[trigger] body[k]) == inside,
        escape_next(inside, last) is Plain,
    ensures
        escape_after(EscapeState::Plain, head + body + seq![last]) is Plain,
        shown_bytes(EscapeState::Plain, head + body + seq![last]).len() == 0,
        shown_bytes(EscapeState::Plain, head + body + seq![last] + rest) == shown_bytes(
            EscapeState::Plain,
            rest,
        ),
{
    let plain = EscapeState::Plain;
    lemma_silent(inside, body);
    lemma_state_in_pieces(plain, head, body);
    law_showing_in_pieces(plain, head, body);
    lemma_one(inside, last);
    lemma_state_in_pieces(plain, head + body, seq![last]);
    law_showing_in_pieces(plain, head + body, seq![last]);
    let whole = head + body + seq![last];
    law_showing_in_pieces(plain, whole, rest);
    assert(shown_bytes(plain, whole) + shown_bytes(plain, rest) =~= shown_bytes(plain, rest));
}

proof fn lemma_heads()
    ensures
        escape_after(EscapeState::Plain, seq![0x1bu8, 0x5b]) is Csi,
        shown_bytes(EscapeState::Plain, seq![0x1bu8, 0x5b]).len() == 0,
        escape_after(EscapeState::Plain, seq![0x9bu8]) is Csi,
        shown_bytes(EscapeState::Plain, seq![0x9bu8]).len() == 0,
        escape_after(EscapeState::Plain, seq![0x1bu8, 0x5d]) is Osc,
        shown_bytes(EscapeState::Plain, seq![0x1bu8, 0x5d]).len() == 0,
{
    lemma_one(EscapeState::Plain, 0x1b);
    lemma_one(EscapeState::Plain, 0x9b);
    lemma_one(EscapeState::Escape, 0x5b);
    lemma_one(EscapeState::Escape, 0x5d);
    assert(seq![0x1bu8, 0x5b] =~= seq![0x1bu8] + seq![0x5bu8]);
    assert(seq![0x1bu8, 0x5d] =~= seq![0x1bu8] + seq![0x5du8]);
    lemma_state_in_pieces(EscapeState::Plain, seq![0x1bu8], seq![0x5bu8]);
    law_showing_in_pieces(EscapeState::Plain, seq![0x1bu8], seq![0x5bu8]);
    lemma_state_in_pieces(EscapeState::Plain, seq![0x1bu8], seq![0x5du8]);
    law_showing_in_pieces(EscapeState::Plain, seq![0x1bu8], seq![0x5du8]);
}

/// Also of output that is kept as it arrives, a complete control sequence or command leaves no
/// trace.
pub proof fn law_arriving_sequences_leave_no_trace(parameters: Seq<u8>, last: u8, text: Seq<u8>, rest: Seq<u8>)
    requires
        forall|k: int| 0 <= k < parameters.len() ==> (#[trigger] parameters[k] < 0x40 || parameters[k] > 0x7e),
        0x40 <= last <= 0x7e,
        forall|k: int| 0 <= k < text.len() ==> #[trigger] text[k] != 0x07 && text[k] != 0x1b,
    ensures
        shown_bytes(EscapeState::Plain, seq![0x1bu8, 0x5b] + parameters + seq![last] + rest) == shown_bytes(
            EscapeState::Plain,
            rest,
        ),
        shown_bytes(EscapeState::Plain, seq![0x9bu8] + parameters + seq![last] + rest) == shown_bytes(
            EscapeState::Plain,
            rest,
        ),
        shown_bytes(EscapeState::Plain, seq![0x1bu8, 0x5d] + text + seq![0x07u8] + rest) == shown_bytes(
            EscapeState::Plain,
            rest,
        ),
        shown_bytes(EscapeState::Plain, seq![0x1bu8, 0x5d] + text + seq![0x1bu8] + seq![0x5cu8] + rest)
            == shown_bytes(EscapeState::Plain, rest),
{
    let plain = EscapeState::Plain;
    lemma_heads();
    lemma_sequence(seq![0x1bu8, 0x5b], EscapeState::Csi, parameters, last, rest);
    lemma_sequence(seq![0x9bu8], EscapeState::Csi, parameters, last, rest);
    lemma_sequence(seq![0x1bu8, 0x5d], EscapeState::Osc, text, 0x07, rest);
    // The string terminator is two bytes long.
    let open = seq![0x1bu8, 0x5d] + text;
    lemma_silent(EscapeState::Osc, text);
    lemma_state_in_pieces(plain, seq![0x1bu8, 0x5d], text);
    law_showing_in_pieces(plain, seq![0x1bu8, 0x5d], text);
    lemma_one(EscapeState::Osc, 0x1b);
    lemma_state_in_pieces(plain, open, seq![0x1bu8]);
    law_showing_in_pieces(plain, open, seq![0x1bu8]);
    lemma_one(EscapeState::OscEscape, 0x5c);
    let ended = open + seq![0x1bu8];
    lemma_state_in_pieces(plain, ended, seq![0x5cu8]);
    law_showing_in_pieces(plain, ended, seq![0x5cu8]);
    let whole = ended + seq![0x5cu8];
    law_showing_in_pieces(plain, whole, rest);
    assert(shown_bytes(plain, whole) + shown_bytes(plain, rest) =~= shown_bytes(plain, rest));
}

/// Of arriving output outside of any sequence, the same bytes are shown as of complete output.
pub proof fn law_arriving_output_is_shown_byte_by_byte(before: Seq<u8>, byte: u8)
    requires
        escape_after(EscapeState::Plain, before) is Plain,
        byte != 0x1b && byte != 0x9b,
    ensures
        escape_after(EscapeState::Plain, before.push(byte)) is Plain,
        byte == 0x0a || byte == 0x0d || byte == 0x09 || (byte >= 0x20 && byte != 0x7f) ==> shown_bytes(
            EscapeState::Plain,
            before.push(byte),
        ) == shown_bytes(EscapeState::Plain, before).push(byte),
        (byte < 0x20 && byte != 0x0a && byte != 0x0d && byte != 0x09) || byte == 0x7f ==> shown_bytes(
            EscapeState::Plain,
            before.push(byte),
        ) == shown_bytes(EscapeState::Plain, before),
{
    assert(before.push(byte).drop_last() =~= before);
}

// ---------------------------------------------------------------------------------------------
// Lines

proof fn lemma_counter_state(c: LineCounter, b: Seq<u8>)
    ensures
        count_bytes(c, b).escape == escape_after(c.escape, b),
    decreases b.len(),
{
    if b.len() > 0 {
        lemma_counter_state(c, b.drop_last());
    }
}

/// Where nothing is shown, nothing is counted.
proof fn lemma_counts_nothing(c: LineCounter, b: Seq<u8>)
    requires
        forall|k: int|
            0 <= k < b.len() ==> !(escape_after(c.escape, #[trigger] b.take(k)) is Plain) || b[k] == 0x1b
                || b[k] == 0x9b,
    ensures
        count_bytes(c, b) == (LineCounter { escape: escape_after(c.escape, b), ..c }),
    decreases b.len(),
{
    if b.len() > 0 {
        let f = b.drop_last();
        assert forall|k: int| 0 <= k < f.len() implies !(escape_after(c.escape, #[trigger] f.take(k)) is Plain)
            || f[k] == 0x1b || f[k] == 0x9b by {
            assert(f.take(k) =~= b.take(k));
            assert(f[k] == b[k]);
        }
        lemma_counts_nothing(c, f);
        assert(b.take(b.len() - 1) =~= f);
    }
}

/// An introducer, a body that keeps the state, and an end count for nothing.
proof fn lemma_sequence_not_counted(
    c: LineCounter,
    head: Seq<u8>,
    inside: EscapeState,
    body: Seq<u8>,
    last: u8,
    rest: Seq<u8>,
)
    requires
        c.escape is Plain,
        escape_after(EscapeState::Plain, head) == inside,
        shown_bytes(EscapeState::Plain, head).len() == 0,
        !(inside is Plain),
        head.len() == 1 || head.len() == 2,
        head[0] == 0x1b || head[0] == 0x9b,
        head.len() == 2 ==> !(escape_after(EscapeState::Plain, head.take(1)) is Plain),
        forall|k: int| 0 <= k < body.len() ==> escape_next(inside, #[trigger] body[k]) == inside,
        escape_next(inside, last) is Plain,
    ensures
        count_bytes(c, head + body + seq![last] + rest) == count_bytes(c, rest),
{
    let plain = EscapeState::Plain;
    lemma_sequence(head, inside, body, last, rest);
    let whole = head + body + seq![last];
    let n = head.len() as int;
    assert forall|k: int| 0 <= k < whole.len() implies !(escape_after(plain, #[trigger] whole.take(k)) is Plain)
        || whole[k] == 0x1b || whole[k] == 0x9b by {
        if k == 0 {
            assert(whole[0] == head[0]);
        } else if k < n {
            assert(whole.take(1) =~= head.take(1));
        } else {
            let part = body.take(k - n);
            assert(whole.take(k) =~= head + part);
            lemma_state_in_pieces(plain, head, part);
            assert forall|j: int| 0 <= j < part.len() implies escape_next(inside, #[trigger] part[j]) == inside by {
                assert(part[j] == body[j]);
            }
            lemma_silent(inside, part);
        }
    }
    lemma_counts_nothing(c, whole);
    law_counting_in_pieces(c, whole, rest);
}

/// A complete control sequence or command counts for nothing: the lines are those without it.
pub proof fn law_control_sequences_are_not_counted(
    c: LineCounter,
    parameters: Seq<u8>,
    last: u8,
    text: Seq<u8>,
    rest: Seq<u8>,
)
    requires
        c.escape is Plain,
        forall|k: int| 0 <= k < parameters.len() ==> (#[trigger] parameters[k] < 0x40 || parameters[k] > 0x7e),
        0x40 <= last <= 0x7e,
        forall|k: int| 0 <= k < text.len() ==> #[trigger] text[k] != 0x07 && text[k] != 0x1b,
    ensures
        count_bytes(c, seq![0x1bu8, 0x5b] + parameters + seq![last] + rest) == count_bytes(c, rest),
        count_bytes(c, seq![0x9bu8] + parameters + seq![last] + rest) == count_bytes(c, rest),
        count_bytes(c, seq![0x1bu8, 0x5d] + text + seq![0x07u8] + rest) == count_bytes(c, rest),
{
    lemma_heads();
    lemma_one(EscapeState::Plain, 0x1b);
    assert(seq![0x1bu8, 0x5b].take(1) =~= seq![0x1bu8]);
    assert(seq![0x1bu8, 0x5d].take(1) =~= seq![0x1bu8]);
    lemma_sequence_not_counted(c, seq![0x1bu8, 0x5b], EscapeState::Csi, parameters, last, rest);
    lemma_sequence_not_counted(c, seq![0x9bu8], EscapeState::Csi, parameters, last, rest);
    lemma_sequence_not_counted(c, seq![0x1bu8, 0x5d], EscapeState::Osc, text, 0x07, rest);
}

/// Every line feed outside of sequences ends a line, unless it belongs to a carriage return before
/// it; a carriage return ends one by itself; and what is left without an end counts as a line.
pub proof fn law_lines_are_counted(c: LineCounter, byte: u8)
    requires
        c.escape is Plain,
        c.lines < u64::MAX - 1,
        byte != 0x1b && byte != 0x9b,
    ensures
        ({
            let d = count_byte(c, byte);
            &&& d.escape is Plain
            &&& byte == 0x0d ==> d.lines == c.lines + 1 && !d.has_content && d.pending_cr
            &&& byte == 0x0a && !c.pending_cr ==> d.lines == c.lines + 1 && !d.has_content && !d.pending_cr
            &&& byte == 0x0a && c.pending_cr ==> d.lines == c.lines && d.has_content == c.has_content
                && !d.pending_cr
            &&& byte != 0x0a && byte != 0x0d ==> d.lines == c.lines && !d.pending_cr && d.has_content == (
            c.has_content || byte == 0x09 || (byte >= 0x20 && byte != 0x7f))
            &&& counted(d) == d.lines + (if d.has_content { 1int } else { 0 })
        }),
        counted(empty_counter()) == 0,
        empty_counter().escape is Plain,
        !empty_counter().pending_cr,
{
}

/// What is kept of a text is its end: as much as there is room for, and all where there is.
pub proof fn law_the_end_is_kept<T>(s: Seq<T>, n: int)
    requires
        n >= 0,
    ensures
        last_n(s, n).len() == if s.len() <= n {
            s.len() as int
        } else {
            n
        },
        last_n(s, n) == s.skip(s.len() - last_n(s, n).len()),
{
    assert(last_n(s, n) =~= s.skip(s.len() - last_n(s, n).len()));
}

/// Every line end becomes a line feed, once, and everything else stays as it is.
pub proof fn law_line_ends_become_one(s: Seq<char>, i: int)
    requires
        0 <= i <= s.len(),
    ensures
        !unix_lines(s, i).contains('\r'),
        (forall|k: int| i <= k < s.len() ==> s[k] != '\r') ==> unix_lines(s, i) == s.skip(i),
        i + 1 < s.len() && s[i] == '\r' && s[i + 1] == '\n' ==> unix_lines(s, i) == unix_lines(s, i + 1),
        i < s.len() && s[i] == '\r' && !(i + 1 < s.len() && s[i + 1] == '\n') ==> unix_lines(s, i) == seq!['\n']
            + unix_lines(s, i + 1),
    decreases s.len() - i,
{
    if i < s.len() {
        law_line_ends_become_one(s, i + 1);
        if i + 1 < s.len() {
            law_line_ends_become_one(s, i + 2);
        }
        assert(unix_lines(s, i).len() > 0);
        let r = unix_lines(s, i);
        if r.contains('\r') {
            let k = r.index_of('\r');
            assert(r[k] == '\r');
            if k > 0 {
                let rest = if s[i] == '\r' && i + 1 < s.len() && s[i + 1] == '\n' {
                    unix_lines(s, i + 2)
                } else {
                    unix_lines(s, i + 1)
                };
                assert(rest[k - 1] == '\r');
                assert(rest.contains('\r'));
            }
        }
        if forall|k: int| i <= k < s.len() ==> s[k] != '\r' {
            assert(s[i] != '\r');
            assert(seq![s[i]] + s.skip(i + 1) =~= s.skip(i));
        }
    } else {
        assert(s.skip(i) =~= Seq::<char>::empty());
    }
}

} // verus!
