//! Raw service output made fit to show: lines counted, control sequences taken out.
use crate::logs::codes::{
    ascii_part, byte_codes, char_codes, is_subsequence, lemma_ascii_is_subsequence,
    lemma_code_of,
    lemma_encode_scalar, lemma_encoding_adds, lemma_encoding_keeps_occurrences, lemma_lines_are_few,
    lemma_no_occurrence, lemma_occurrences_add, lemma_outline_holds, lemma_outline_keeps_ascii, lemma_outline_keeps_lines,
    lemma_subsequence_behind, lemma_subsequence_both, lemma_subsequence_transitive, line_state,
    line_total, occurrences, outline,
};
use crate::text::chars_of;
use std::collections::VecDeque;
use vstd::prelude::*;
use vstd::string::StringExecFns;
use vstd::utf8::{encode_utf8, valid_utf8};

verus! {

pub const ATTACH_CACHE_LINES: usize = 48;

pub const ATTACH_CACHE_MAX_BYTES: usize = 16384;

pub const OUTPUT_TAIL_CHARS: usize = 2000;

/// Room for `OUTPUT_TAIL_CHARS` characters of the longest encoding.
pub const OUTPUT_TAIL_CACHE_BYTES: usize = 8000;

/// The text of bytes that may not be UTF-8.
pub uninterp spec fn lossy_text(bytes: Seq<u8>) -> Seq<char>;

/// A byte of the UTF-8 form of U+FFFD, which stands for what is not UTF-8.
pub open spec fn replacement_byte(byte: u8) -> bool {
    byte == 0xef || byte == 0xbf || byte == 0xbd
}

/// Every byte of `encoded` occurs in `bytes` or is one of the replacement character.
pub open spec fn kept_or_replaced(encoded: Seq<u8>, bytes: Seq<u8>) -> bool {
    forall|i: int|
        0 <= i < encoded.len() ==> bytes.contains(#[trigger] encoded[i]) || replacement_byte(encoded[i])
}

/// `String::from_utf8_lossy`: valid UTF-8 keeps its text, a text read from its own bytes among it.
/// In anything else each invalid sequence becomes U+FFFD and the rest stays. So the text is
/// written with bytes of the input and those of U+FFFD; and since an ASCII byte is a valid
/// sequence by itself, the ASCII characters are those of the input, in their places between the
/// runs of what is not ASCII. How many characters such a run becomes is not stated.
#[verifier::external_body]
fn decode_lossy(bytes: &Vec<u8>) -> (r: String)
    ensures
        r@ == lossy_text(bytes@),
        valid_utf8(bytes@) ==> encode_utf8(r@) == bytes@,
        lossy_text(encode_utf8(r@)) == r@,
        kept_or_replaced(encode_utf8(r@), bytes@),
        outline(char_codes(r@)) == outline(byte_codes(bytes@)),
{
    String::from_utf8_lossy(bytes).into_owned()
}

// ---------------------------------------------------------------------------------------------
// Escape sequences, byte by byte

#[derive(Debug, Clone, Copy, PartialEq, Eq, Structural)]
pub enum EscapeState {
    Plain,
    Escape,
    Csi,
    Osc,
    OscEscape,
}

/// The state behind one more byte.
pub open spec fn escape_next(state: EscapeState, byte: u8) -> EscapeState {
    match state {
        EscapeState::Plain => if byte == 0x1b {
            EscapeState::Escape
        } else if byte == 0x9b {
            EscapeState::Csi
        } else {
            EscapeState::Plain
        },
        EscapeState::Escape => if byte == 0x5b {
            EscapeState::Csi
        } else if byte == 0x5d {
            EscapeState::Osc
        } else {
            EscapeState::Plain
        },
        EscapeState::Csi => if 0x40 <= byte <= 0x7e { EscapeState::Plain } else { EscapeState::Csi },
        EscapeState::Osc => if byte == 0x07 {
            EscapeState::Plain
        } else if byte == 0x1b {
            EscapeState::OscEscape
        } else {
            EscapeState::Osc
        },
        EscapeState::OscEscape => if byte == 0x5c { EscapeState::Plain } else { EscapeState::Osc },
    }
}

/// Whether the byte is output rather than part of an escape sequence.
pub open spec fn outside_escape(state: EscapeState, byte: u8) -> bool {
    state is Plain && byte != 0x1b && byte != 0x9b
}

impl EscapeState {
    pub fn next(self, byte: u8) -> (r: EscapeState)
        ensures
            r == escape_next(self, byte),
    {
        match self {
            EscapeState::Plain => if byte == 0x1b {
                EscapeState::Escape
            } else if byte == 0x9b {
                EscapeState::Csi
            } else {
                EscapeState::Plain
            },
            EscapeState::Escape => if byte == 0x5b {
                EscapeState::Csi
            } else if byte == 0x5d {
                EscapeState::Osc
            } else {
                EscapeState::Plain
            },
            EscapeState::Csi => if 0x40 <= byte && byte <= 0x7e {
                EscapeState::Plain
            } else {
                EscapeState::Csi
            },
            EscapeState::Osc => if byte == 0x07 {
                EscapeState::Plain
            } else if byte == 0x1b {
                EscapeState::OscEscape
            } else {
                EscapeState::Osc
            },
            EscapeState::OscEscape => if byte == 0x5c {
                EscapeState::Plain
            } else {
                EscapeState::Osc
            },
        }
    }
}

/// Counts the lines of output as it arrives.
#[derive(Debug, Clone, Copy, PartialEq, Eq, Structural)]
pub struct LineCounter {
    pub lines: u64,
    pub has_content: bool,
    pub pending_cr: bool,
    pub escape: EscapeState,
}

pub open spec fn empty_counter() -> LineCounter {
    LineCounter { lines: 0, has_content: false, pending_cr: false, escape: EscapeState::Plain }
}

/// One more line, as far as the counter reaches.
pub open spec fn one_more(lines: u64) -> u64 {
    if lines == u64::MAX { lines } else { (lines + 1) as u64 }
}

/// A byte of output: CR, LF and CR LF each end a line, and what can be seen opens one.
pub open spec fn count_clean(c: LineCounter, byte: u8) -> LineCounter {
    if c.pending_cr && byte == 0x0a {
        LineCounter { pending_cr: false, ..c }
    } else if byte == 0x0d {
        LineCounter { lines: one_more(c.lines), pending_cr: true, has_content: false, ..c }
    } else if byte == 0x0a {
        LineCounter { lines: one_more(c.lines), pending_cr: false, has_content: false, ..c }
    } else if byte == 0x09 || 0x20 <= byte <= 0x7e || byte >= 0x80 {
        LineCounter { has_content: true, pending_cr: false, ..c }
    } else {
        LineCounter { pending_cr: false, ..c }
    }
}

pub open spec fn count_byte(c: LineCounter, byte: u8) -> LineCounter {
    let moved = LineCounter { escape: escape_next(c.escape, byte), ..c };
    if outside_escape(c.escape, byte) {
        count_clean(moved, byte)
    } else {
        moved
    }
}

/// The counter behind all of `bytes`.
pub open spec fn count_bytes(c: LineCounter, bytes: Seq<u8>) -> LineCounter
    decreases bytes.len(),
{
    if bytes.len() == 0 {
        c
    } else {
        count_byte(count_bytes(c, bytes.drop_last()), bytes.last())
    }
}

/// Lines that have ended, and one that has begun.
pub open spec fn counted(c: LineCounter) -> u64 {
    if c.has_content { one_more(c.lines) } else { c.lines }
}

/// Output may arrive in any pieces: counting them one after the other counts the whole.
pub proof fn law_counting_in_pieces(c: LineCounter, a: Seq<u8>, b: Seq<u8>)
    ensures
        count_bytes(c, a + b) == count_bytes(count_bytes(c, a), b),
    decreases b.len(),
{
    if b.len() == 0 {
        assert(a + b =~= a);
    } else {
        law_counting_in_pieces(c, a, b.drop_last());
        assert((a + b).drop_last() =~= a + b.drop_last());
        assert((a + b).last() == b.last());
    }
}

/// CR LF ends one line, as LF alone does.
pub proof fn law_crlf_is_one_line_end(c: LineCounter)
    requires
        c.escape is Plain,
        !c.pending_cr,
    ensures
        count_byte(count_byte(c, 0x0d), 0x0a) == count_byte(c, 0x0a),
{
}

impl LineCounter {
    pub fn new() -> (r: Self)
        ensures
            r == empty_counter(),
    {
        LineCounter { lines: 0, has_content: false, pending_cr: false, escape: EscapeState::Plain }
    }

    pub fn feed(&mut self, bytes: &[u8])
        ensures
            *final(self) == count_bytes(*old(self), bytes@),
    {
        let ghost start = *self;
        let mut i: usize = 0;
        assert(bytes@.take(0) =~= Seq::<u8>::empty());
        while i < bytes.len()
            invariant
                i <= bytes@.len(),
                *self == count_bytes(start, bytes@.take(i as int)),
            decreases bytes@.len() - i,
        {
            assert(bytes@.take(i + 1).drop_last() =~= bytes@.take(i as int));
            assert(bytes@.take(i + 1).last() == bytes@[i as int]);
            self.feed_byte(bytes[i]);
            i += 1;
        }
        assert(bytes@.take(bytes@.len() as int) =~= bytes@);
    }

    pub fn feed_byte(&mut self, byte: u8)
        ensures
            *final(self) == count_byte(*old(self), byte),
    {
        let clean = match self.escape {
            EscapeState::Plain => byte != 0x1b && byte != 0x9b,
            _ => false,
        };
        self.escape = self.escape.next(byte);
        if clean {
            self.feed_clean_byte(byte);
        }
    }

    pub fn feed_clean_byte(&mut self, byte: u8)
        ensures
            *final(self) == count_clean(*old(self), byte),
    {
        if self.pending_cr {
            self.pending_cr = false;
            if byte == 0x0a {
                return;
            }
        }
        if byte == 0x0d {
            self.lines = self.lines.saturating_add(1);
            self.pending_cr = true;
            self.has_content = false;
        } else if byte == 0x0a {
            self.lines = self.lines.saturating_add(1);
            self.has_content = false;
        } else if byte == 0x09 || (0x20 <= byte && byte <= 0x7e) || byte >= 0x80 {
            self.has_content = true;
        }
    }

    pub fn total_lines(&self) -> (r: u64)
        ensures
            r == counted(*self),
    {
        self.lines.saturating_add(if self.has_content { 1 } else { 0 })
    }
}

pub fn logical_line_count(bytes: &[u8]) -> (r: u64)
    ensures
        r == counted(count_bytes(empty_counter(), bytes@)),
{
    let mut counter = LineCounter::new();
    counter.feed(bytes);
    counter.total_lines()
}

// ---------------------------------------------------------------------------------------------
// The last output, kept clean as it arrives

/// What can be shown as it is.
pub open spec fn printable(byte: u8) -> bool {
    byte == 0x0a || byte == 0x0d || byte == 0x09 || (byte >= 0x20 && byte != 0x7f)
}

pub fn is_printable(byte: u8) -> (r: bool)
    ensures
        r == printable(byte),
{
    byte == 0x0a || byte == 0x0d || byte == 0x09 || (byte >= 0x20 && byte != 0x7f)
}

/// The last `n` items.
pub open spec fn last_n<T>(s: Seq<T>, n: int) -> Seq<T> {
    if s.len() > n { s.skip(s.len() - n) } else { s }
}

/// The escape state behind `bytes`.
pub open spec fn escape_after(state: EscapeState, bytes: Seq<u8>) -> EscapeState
    decreases bytes.len(),
{
    if bytes.len() == 0 {
        state
    } else {
        escape_next(escape_after(state, bytes.drop_last()), bytes.last())
    }
}

/// The bytes of `bytes` that are output and can be shown.
pub open spec fn shown_bytes(state: EscapeState, bytes: Seq<u8>) -> Seq<u8>
    decreases bytes.len(),
{
    if bytes.len() == 0 {
        Seq::empty()
    } else {
        let front = shown_bytes(state, bytes.drop_last());
        let b = bytes.last();
        if outside_escape(escape_after(state, bytes.drop_last()), b) && printable(b) {
            front.push(b)
        } else {
            front
        }
    }
}

#[derive(Debug)]
pub struct SanitizedTail {
    pub bytes: VecDeque<u8>,
    pub escape: EscapeState,
}

impl SanitizedTail {
    pub fn new() -> (r: Self)
        ensures
            r.bytes@ == Seq::<u8>::empty(),
            r.escape is Plain,
    {
        SanitizedTail { bytes: VecDeque::new(), escape: EscapeState::Plain }
    }

    pub fn feed(&mut self, bytes: &[u8])
        ensures
            final(self).escape == escape_after(old(self).escape, bytes@),
            final(self).bytes@ == last_n(
                old(self).bytes@ + shown_bytes(old(self).escape, bytes@),
                OUTPUT_TAIL_CACHE_BYTES as int,
            ),
    {
        let ghost start = self.escape;
        let ghost kept = self.bytes@;
        let mut i: usize = 0;
        assert(bytes@.take(0) =~= Seq::<u8>::empty());
        while i < bytes.len()
            invariant
                i <= bytes@.len(),
                self.escape == escape_after(start, bytes@.take(i as int)),
                self.bytes@ == kept + shown_bytes(start, bytes@.take(i as int)),
            decreases bytes@.len() - i,
        {
            assert(bytes@.take(i + 1).drop_last() =~= bytes@.take(i as int));
            assert(bytes@.take(i + 1).last() == bytes@[i as int]);
            let byte = bytes[i];
            match self.escape {
                EscapeState::Plain => {
                    if byte != 0x1b && byte != 0x9b && is_printable(byte) {
                        self.bytes.push_back(byte);
                    }
                },
                _ => {},
            }
            self.escape = self.escape.next(byte);
            i += 1;
        }
        assert(bytes@.take(bytes@.len() as int) =~= bytes@);
        let ghost all = self.bytes@;
        keep_last(&mut self.bytes, OUTPUT_TAIL_CACHE_BYTES);
    }

    pub fn render(&self) -> (r: String)
        ensures
            r@ == last_n(lossy_text(self.bytes@), OUTPUT_TAIL_CHARS as int),
    {
        let raw = to_vec(&self.bytes);
        let cleaned = decode_lossy(&raw);
        last_chars(cleaned.as_str(), OUTPUT_TAIL_CHARS)
    }
}

/// Drops items from the front until at most `n` are left.
pub fn keep_last(v: &mut VecDeque<u8>, n: usize)
    ensures
        final(v)@ == last_n(old(v)@, n as int),
{
    let ghost all = v@;
    assert(v@ =~= all.skip(0));
    while v.len() > n
        invariant
            v@.len() <= all.len(),
            v@ == all.skip(all.len() - v@.len()),
            v@.len() >= n || v@.len() == all.len(),
        decreases v@.len(),
    {
        let ghost before = v@;
        v.pop_front();
        assert(v@ =~= all.skip(all.len() - v@.len()));
    }
    assert(v@ =~= last_n(all, n as int));
}

pub fn to_vec(v: &VecDeque<u8>) -> (r: Vec<u8>)
    ensures
        r@ == v@,
{
    let mut out: Vec<u8> = Vec::new();
    let mut i: usize = 0;
    while i < v.len()
        invariant
            i <= v@.len(),
            out@ == v@.take(i as int),
        decreases v@.len() - i,
    {
        out.push(v[i]);
        i += 1;
    }
    out
}

/// The last `n` characters of a text.
pub fn last_chars(s: &str, n: usize) -> (r: String)
    ensures
        r@ == last_n(s@, n as int),
{
    let v = chars_of(s);
    let from: usize = if v.len() > n { v.len() - n } else { 0 };
    let r = crate::text::string_of(&v, from, v.len());
    assert(r@ =~= last_n(s@, n as int));
    r
}

// ---------------------------------------------------------------------------------------------
// Complete output

/// Behind the final byte of the control sequence that goes on at `i`.
pub open spec fn csi_end(b: Seq<u8>, i: int) -> int
    decreases b.len() - i,
{
    if i < 0 || i >= b.len() {
        i
    } else if 0x40 <= b[i] <= 0x7e {
        i + 1
    } else {
        csi_end(b, i + 1)
    }
}

/// Behind the terminator of the operating system command that goes on at `i`.
pub open spec fn osc_end(b: Seq<u8>, i: int) -> int
    decreases b.len() - i,
{
    if i < 0 || i >= b.len() {
        i
    } else if b[i] == 0x07 {
        i + 1
    } else if b[i] == 0x1b && i + 1 < b.len() && b[i + 1] == 0x5c {
        i + 2
    } else {
        osc_end(b, i + 1)
    }
}

proof fn lemma_csi_end(b: Seq<u8>, i: int)
    requires
        0 <= i <= b.len(),
    ensures
        i <= csi_end(b, i) <= b.len(),
    decreases b.len() - i,
{
    if i < b.len() && !(0x40 <= b[i] <= 0x7e) {
        lemma_csi_end(b, i + 1);
    }
}

proof fn lemma_osc_end(b: Seq<u8>, i: int)
    requires
        0 <= i <= b.len(),
    ensures
        i <= osc_end(b, i) <= b.len(),
    decreases b.len() - i,
{
    if i < b.len() && b[i] != 0x07 && !(b[i] == 0x1b && i + 1 < b.len() && b[i + 1] == 0x5c) {
        lemma_osc_end(b, i + 1);
    }
}

/// Where the item at `i` ends: an escape sequence, or one byte.
pub open spec fn item_end(b: Seq<u8>, i: int) -> int {
    if b[i] == 0x1b {
        if i + 1 >= b.len() {
            i + 1
        } else if b[i + 1] == 0x5d {
            osc_end(b, i + 2)
        } else if b[i + 1] == 0x5b {
            csi_end(b, i + 2)
        } else {
            i + 2
        }
    } else if b[i] == 0x9b {
        csi_end(b, i + 1)
    } else {
        i + 1
    }
}

/// What can be shown of the bytes from `i` on.
pub open spec fn clean_from(b: Seq<u8>, i: int) -> Seq<u8>
    decreases b.len() - i,
{
    if i < 0 || i >= b.len() || item_end(b, i) <= i || item_end(b, i) > b.len() {
        Seq::empty()
    } else if b[i] != 0x1b && b[i] != 0x9b && printable(b[i]) {
        seq![b[i]] + clean_from(b, i + 1)
    } else {
        clean_from(b, item_end(b, i))
    }
}

fn end_of_csi(b: &[u8], from: usize) -> (r: usize)
    requires
        from <= b@.len(),
    ensures
        r == csi_end(b@, from as int),
        from <= r <= b@.len(),
{
    let mut i: usize = from;
    while i < b.len()
        invariant
            from <= i <= b@.len(),
            csi_end(b@, from as int) == csi_end(b@, i as int),
        decreases b@.len() - i,
    {
        if 0x40 <= b[i] && b[i] <= 0x7e {
            return i + 1;
        }
        i += 1;
    }
    i
}

fn end_of_osc(b: &[u8], from: usize) -> (r: usize)
    requires
        from <= b@.len(),
    ensures
        r == osc_end(b@, from as int),
        from <= r <= b@.len(),
{
    let mut i: usize = from;
    while i < b.len()
        invariant
            from <= i <= b@.len(),
            osc_end(b@, from as int) == osc_end(b@, i as int),
        decreases b@.len() - i,
    {
        if b[i] == 0x07 {
            return i + 1;
        }
        if b[i] == 0x1b && b.len() - i >= 2 && b[i + 1] == 0x5c {
            return i + 2;
        }
        i += 1;
    }
    i
}

/// The bytes without escape sequences and other control characters.
pub fn sanitize_bytes(bytes: &[u8]) -> (r: Vec<u8>)
    ensures
        r@ == clean_from(bytes@, 0),
{
    let mut clean: Vec<u8> = Vec::new();
    let mut i: usize = 0;
    assert(clean@ + clean_from(bytes@, 0) =~= clean_from(bytes@, 0));
    while i < bytes.len()
        invariant
            i <= bytes@.len(),
            clean@ + clean_from(bytes@, i as int) == clean_from(bytes@, 0),
        decreases bytes@.len() - i,
    {
        let byte = bytes[i];
        proof {
            lemma_csi_end(bytes@, i + 1);
            if i + 2 <= bytes@.len() {
                lemma_csi_end(bytes@, i + 2);
                lemma_osc_end(bytes@, i + 2);
            }
        }
        if byte == 0x1b {
            if bytes.len() - i < 2 {
                i += 1;
            } else if bytes[i + 1] == 0x5d {
                i = end_of_osc(bytes, i + 2);
            } else if bytes[i + 1] == 0x5b {
                i = end_of_csi(bytes, i + 2);
            } else {
                i += 2;
            }
        } else if byte == 0x9b {
            i = end_of_csi(bytes, i + 1);
        } else {
            let ghost before = clean@;
            if is_printable(byte) {
                clean.push(byte);
                assert(clean@ + clean_from(bytes@, i + 1) =~= before + (seq![byte] + clean_from(
                    bytes@,
                    i + 1,
                )));
            }
            i += 1;
        }
    }
    assert(clean_from(bytes@, i as int) =~= Seq::<u8>::empty());
    assert(clean@ =~= clean_from(bytes@, 0));
    clean
}

/// Cleaned bytes hold nothing but what can be shown, and nothing that begins a control sequence.
pub proof fn law_clean_bytes_are_printable(b: Seq<u8>, i: int)
    ensures
        plain_bytes(clean_from(b, i)),
    decreases b.len() - i,
{
    if i < 0 || i >= b.len() || item_end(b, i) <= i || item_end(b, i) > b.len() {
    } else if b[i] != 0x1b && b[i] != 0x9b && printable(b[i]) {
        law_clean_bytes_are_printable(b, i + 1);
        let rest = clean_from(b, i + 1);
        assert forall|k: int| 0 <= k < clean_from(b, i).len() implies plain_byte(#[trigger] clean_from(b, i)[k]) by {
            if k > 0 {
                assert(clean_from(b, i)[k] == rest[k - 1]);
            }
        }
    } else {
        law_clean_bytes_are_printable(b, item_end(b, i));
        assert(clean_from(b, i) == clean_from(b, item_end(b, i)));
    }
}

/// A byte that cleaning leaves alone wherever it stands.
pub open spec fn plain_byte(byte: u8) -> bool {
    printable(byte) && byte != 0x9b
}

pub open spec fn plain_bytes(b: Seq<u8>) -> bool {
    forall|i: int| 0 <= i < b.len() ==> plain_byte(#[trigger] b[i])
}

/// Text that holds no control character but line feed, carriage return and tab.
pub open spec fn plain_text(s: Seq<char>) -> bool {
    forall|i: int|
        0 <= i < s.len() ==> {
            ||| #[trigger] s[i] == '\n'
            ||| s[i] == '\r'
            ||| s[i] == '\t'
            ||| s[i] as u32 >= 0x20 && s[i] as u32 != 0x7f
        }
}

/// Cleaning what is clean changes nothing.
pub proof fn law_clean_bytes_stay(b: Seq<u8>, i: int)
    requires
        0 <= i <= b.len(),
        plain_bytes(b),
    ensures
        clean_from(b, i) == b.skip(i),
    decreases b.len() - i,
{
    if i < b.len() {
        law_clean_bytes_stay(b, i + 1);
        assert(plain_byte(b[i]));
        assert(b.skip(i) =~= seq![b[i]] + b.skip(i + 1));
    } else {
        assert(b.skip(i) =~= Seq::<u8>::empty());
    }
}

/// Cleaning takes bytes out and leaves the others in their order.
pub proof fn law_cleaning_keeps_the_order(b: Seq<u8>, i: int)
    requires
        0 <= i <= b.len(),
    ensures
        is_subsequence(byte_codes(clean_from(b, i)), byte_codes(b.skip(i))),
    decreases b.len() - i,
{
    let clean = clean_from(b, i);
    if i >= b.len() || item_end(b, i) <= i || item_end(b, i) > b.len() {
    } else if b[i] != 0x1b && b[i] != 0x9b && printable(b[i]) {
        law_cleaning_keeps_the_order(b, i + 1);
        lemma_subsequence_both(
            b[i] as nat,
            byte_codes(clean_from(b, i + 1)),
            byte_codes(b.skip(i + 1)),
        );
        assert(byte_codes(clean) =~= seq![b[i] as nat] + byte_codes(clean_from(b, i + 1)));
        assert(byte_codes(b.skip(i)) =~= seq![b[i] as nat] + byte_codes(b.skip(i + 1)));
    } else {
        let e = item_end(b, i);
        law_cleaning_keeps_the_order(b, e);
        let front = byte_codes(b.subrange(i, e));
        lemma_subsequence_behind(front, byte_codes(clean), byte_codes(b.skip(e)));
        assert(byte_codes(b.skip(i)) =~= front + byte_codes(b.skip(e)));
    }
}

/// What the counter makes of bytes that cleaning leaves alone.
proof fn lemma_plain_bytes_counted(b: Seq<u8>)
    requires
        plain_bytes(b),
        b.len() <= u64::MAX,
    ensures
        ({
            let c = count_bytes(empty_counter(), b);
            let s = line_state(byte_codes(b));
            &&& c.escape is Plain
            &&& c.lines == s.lines
            &&& c.has_content == s.open
            &&& c.pending_cr == s.cr
            &&& counted(c) == line_total(s)
        }),
    decreases b.len(),
{
    lemma_lines_are_few(byte_codes(b));
    if b.len() > 0 {
        let rest = b.drop_last();
        assert forall|i: int| 0 <= i < rest.len() implies plain_byte(#[trigger] rest[i]) by {
            assert(rest[i] == b[i]);
        }
        lemma_plain_bytes_counted(rest);
        lemma_lines_are_few(byte_codes(rest));
        assert(byte_codes(b).drop_last() =~= byte_codes(rest));
        assert(plain_byte(b[b.len() - 1]));
        assert(byte_codes(b).last() == b.last() as nat);
    }
}

/// One more character behind a text, by the lines that it has.
proof fn lemma_unix_lines_push(s: Seq<char>, c: char, i: int)
    requires
        0 <= i <= s.len(),
        !(i == s.len() && c == '\n' && s.len() > 0 && s.last() == '\r'),
    ensures
        unix_lines(s.push(c), i) == (if c == '\n' && s.len() > 0 && s.last() == '\r' {
            unix_lines(s, i)
        } else {
            unix_lines(s, i).push(if c == '\r' { '\n' } else { c })
        }),
    decreases s.len() - i,
{
    let t = s.push(c);
    let last = if c == '\r' { '\n' } else { c };
    let pair = c == '\n' && s.len() > 0 && s.last() == '\r';
    if i == s.len() {
        assert(unix_lines(t, i + 1) =~= Seq::<char>::empty());
        assert(unix_lines(t, i) =~= seq![last]);
        assert(unix_lines(s, i).push(last) =~= seq![last]);
    } else if i == s.len() - 1 && pair {
        assert(unix_lines(t, i + 2) =~= Seq::<char>::empty());
        assert(unix_lines(s, i + 1) =~= Seq::<char>::empty());
        assert(unix_lines(t, i) == unix_lines(s, i));
    } else {
        let step: int = if s[i] == '\r' && i + 1 < s.len() && s[i + 1] == '\n' { 2 } else { 1 };
        assert(t[i] == s[i]);
        if i + 1 < s.len() {
            assert(t[i + 1] == s[i + 1]);
        }
        lemma_unix_lines_push(s, c, i + step);
        let head = seq![if s[i] == '\r' { '\n' } else { s[i] }];
        assert(unix_lines(s, i) == head + unix_lines(s, i + step));
        assert(unix_lines(t, i) == head + unix_lines(t, i + step));
        assert(head + unix_lines(s, i + step).push(last) =~= (head + unix_lines(s, i + step)).push(last));
    }
}

proof fn lemma_split_counts(s: Seq<char>)
    ensures
        crate::text::split(s, '\n').len() == occurrences(char_codes(s), 0x0a) + 1,
    decreases s.len(),
{
    crate::text::lemma_split_nonempty(s, '\n');
    if s.len() > 0 {
        lemma_split_counts(s.drop_last());
        crate::text::lemma_split_nonempty(s.drop_last(), '\n');
        assert(char_codes(s).drop_last() =~= char_codes(s.drop_last()));
        lemma_code_of(s.last());
        assert(char_codes(s).last() == s.last() as u32);
    }
}

/// The lines of a text, told by its codes.
proof fn lemma_lines_of_text(s: Seq<char>)
    ensures
        ({
            let u = unix_lines(s, 0);
            let state = line_state(char_codes(s));
            &&& occurrences(char_codes(u), 0x0a) == state.lines
            &&& state.open == (u.len() > 0 && u.last() != '\n')
            &&& state.cr == (s.len() > 0 && s.last() == '\r')
            &&& text_lines(u).len() == line_total(state)
        }),
    decreases s.len(),
{
    let u = unix_lines(s, 0);
    lemma_split_counts(u);
    crate::text::lemma_split_nonempty(u, '\n');
    if s.len() == 0 {
        assert(u =~= Seq::<char>::empty());
    } else {
        let rest = s.drop_last();
        let c = s.last();
        lemma_lines_of_text(rest);
        assert(s =~= rest.push(c));
        lemma_unix_lines_push(rest, c, 0);
        lemma_lines_are_few(char_codes(rest));
        assert(char_codes(s).drop_last() =~= char_codes(rest));
        assert(char_codes(s).last() == c as u32);
        lemma_code_of(c);
        let v = unix_lines(rest, 0);
        if !(c == '\n' && rest.len() > 0 && rest.last() == '\r') {
            let last = if c == '\r' { '\n' } else { c };
            assert(char_codes(u).drop_last() =~= char_codes(v));
            assert(char_codes(u).last() == last as u32);
        } else {
            assert(v.len() > 0 && v.last() == '\n') by {
                lemma_last_cr(rest);
            }
        }
        if u.len() > 0 && u.last() == '\n' {
            assert(text_lines(u).len() == crate::text::split(u, '\n').len() - 1);
        }
    }
}

/// A text that ends in CR has a line feed at the end of its lines.
proof fn lemma_last_cr(s: Seq<char>)
    requires
        s.len() > 0,
        s.last() == '\r',
    ensures
        unix_lines(s, 0).len() > 0,
        unix_lines(s, 0).last() == '\n',
{
    assert(s =~= s.drop_last().push('\r'));
    lemma_unix_lines_push(s.drop_last(), '\r', 0);
}

/// Output as text, without escape sequences and other control characters. What is ASCII in it
/// comes from the output in its order; cleaning it once more changes nothing; clean UTF-8 comes
/// back as it is; and clean output has as many lines as are counted in it.
pub fn sanitize_log(bytes: &[u8]) -> (r: String)
    ensures
        r@ == lossy_text(clean_from(bytes@, 0)),
        plain_text(r@),
        is_subsequence(ascii_part(char_codes(r@)), byte_codes(bytes@)),
        lossy_text(clean_from(encode_utf8(r@), 0)) == r@,
        valid_utf8(bytes@) && plain_bytes(bytes@) ==> encode_utf8(r@) == bytes@,
        plain_bytes(bytes@) ==> text_lines(unix_lines(r@, 0)).len() == counted(
            count_bytes(empty_counter(), bytes@),
        ),
{
    let clean = sanitize_bytes(bytes);
    let r = decode_lossy(&clean);
    let length = bytes.len();
    proof {
        let c = clean@;
        let b = bytes@;
        law_clean_bytes_are_printable(b, 0);
        // The characters.
        assert forall|i: int| 0 <= i < r@.len() implies {
            ||| #[trigger] r@[i] == '\n'
            ||| r@[i] == '\r'
            ||| r@[i] == '\t'
            ||| r@[i] as u32 >= 0x20 && r@[i] as u32 != 0x7f
        } by {
            let code = r@[i] as u32 as nat;
            lemma_code_of(r@[i]);
            if code < 0x80 {
                assert(char_codes(r@)[i] == code);
                lemma_outline_holds(char_codes(r@), code);
                lemma_outline_holds(byte_codes(c), code);
                let k = byte_codes(c).index_of(code);
                assert(plain_byte(c[k]));
            }
        }
        // Their order.
        lemma_outline_keeps_ascii(char_codes(r@));
        lemma_outline_keeps_ascii(byte_codes(c));
        lemma_ascii_is_subsequence(byte_codes(c));
        law_cleaning_keeps_the_order(b, 0);
        assert(b.skip(0) =~= b);
        lemma_subsequence_transitive(ascii_part(byte_codes(c)), byte_codes(c), byte_codes(b));
        // Cleaning once more.
        let e = encode_utf8(r@);
        assert forall|i: int| 0 <= i < e.len() implies plain_byte(#[trigger] e[i]) by {
            if c.contains(e[i]) {
                let k = c.index_of(e[i]);
                assert(plain_byte(c[k]));
            }
        }
        law_clean_bytes_stay(e, 0);
        assert(e.skip(0) =~= e);
        // What is clean.
        if plain_bytes(b) {
            law_clean_bytes_stay(b, 0);
            assert(c == b);
            lemma_plain_bytes_counted(b);
            lemma_outline_keeps_lines(char_codes(r@));
            lemma_outline_keeps_lines(byte_codes(b));
            lemma_lines_of_text(r@);
        }
    }
    r
}

// ---------------------------------------------------------------------------------------------
// What an attaching terminal is shown first

/// CR LF and CR as LF, from `i` on.
pub open spec fn unix_lines(s: Seq<char>, i: int) -> Seq<char>
    decreases s.len() - i,
{
    if i < 0 || i >= s.len() {
        Seq::empty()
    } else if s[i] == '\r' {
        if i + 1 < s.len() && s[i + 1] == '\n' {
            seq!['\n'] + unix_lines(s, i + 2)
        } else {
            seq!['\n'] + unix_lines(s, i + 1)
        }
    } else {
        seq![s[i]] + unix_lines(s, i + 1)
    }
}

pub fn normalize_line_endings(value: &str) -> (r: String)
    ensures
        r@ == unix_lines(value@, 0),
{
    let v = chars_of(value);
    let mut out = String::new();
    let mut i: usize = 0;
    assert(out@ + unix_lines(v@, 0) =~= unix_lines(v@, 0));
    while i < v.len()
        invariant
            v@ == value@,
            i <= v@.len(),
            out@ + unix_lines(v@, i as int) == unix_lines(v@, 0),
        decreases v@.len() - i,
    {
        let ghost before = out@;
        let c = v[i];
        if c == '\r' {
            out.push('\n');
            if v.len() - i >= 2 && v[i + 1] == '\n' {
                assert(out@ + unix_lines(v@, i + 2) =~= before + (seq!['\n'] + unix_lines(v@, i + 2)));
                i += 2;
            } else {
                assert(out@ + unix_lines(v@, i + 1) =~= before + (seq!['\n'] + unix_lines(v@, i + 1)));
                i += 1;
            }
        } else {
            out.push(c);
            assert(out@ + unix_lines(v@, i + 1) =~= before + (seq![c] + unix_lines(v@, i + 1)));
            i += 1;
        }
    }
    assert(out@ =~= unix_lines(v@, 0));
    out
}

/// How many bytes UTF-8 takes for a character.
pub open spec fn utf8_len(c: char) -> nat {
    let n = c as u32;
    if n < 0x80 { 1 } else if n < 0x800 { 2 } else if n < 0x10000 { 3 } else { 4 }
}

/// How many bytes UTF-8 takes for a text.
pub open spec fn utf8_size(s: Seq<char>) -> nat
    decreases s.len(),
{
    if s.len() == 0 { 0 } else { utf8_len(s[0]) + utf8_size(s.skip(1)) }
}

/// `r` is the longest end of `s` that takes at most `max` bytes.
pub open spec fn is_tail_within(r: Seq<char>, s: Seq<char>, max: nat) -> bool {
    exists|k: int|
        {
            &&& 0 <= k <= s.len()
            &&& r == #[trigger] s.skip(k)
            &&& utf8_size(s.skip(k)) <= max
            &&& k > 0 ==> utf8_size(s.skip(k - 1)) > max
        }
}

pub fn char_size(c: char) -> (r: usize)
    ensures
        r == utf8_len(c),
{
    let n: u32 = c as u32;
    if n < 0x80 {
        1
    } else if n < 0x800 {
        2
    } else if n < 0x10000 {
        3
    } else {
        4
    }
}

/// The longest end of the text that takes at most `max_bytes` bytes.
pub fn tail_chars(value: &str, max_bytes: usize) -> (r: String)
    ensures
        is_tail_within(r@, value@, max_bytes as nat),
{
    let v = chars_of(value);
    let mut used: usize = 0;
    let mut start: usize = v.len();
    assert(v@.skip(v@.len() as int) =~= Seq::<char>::empty());
    while start > 0
        invariant
            v@ == value@,
            start <= v@.len(),
            used == utf8_size(v@.skip(start as int)),
            used <= max_bytes,
        decreases start,
    {
        let size = char_size(v[start - 1]);
        assert(v@.skip(start - 1)[0] == v@[start - 1]);
        assert(v@.skip(start - 1).skip(1) =~= v@.skip(start as int));
        if size > max_bytes - used {
            let r = crate::text::string_of(&v, start, v.len());
            assert(r@ =~= value@.skip(start as int));
            return r;
        }
        used += size;
        start -= 1;
    }
    assert(v@.skip(0) =~= value@);
    assert(value@ == value@.skip(0));
    value.to_owned()
}

/// The lines one behind the other, CR LF between them.
pub open spec fn crlf_joined(lines: Seq<Seq<char>>) -> Seq<char>
    decreases lines.len(),
{
    if lines.len() == 0 {
        Seq::empty()
    } else if lines.len() == 1 {
        lines[0]
    } else {
        crlf_joined(lines.drop_last()) + "\r\n"@ + lines.last()
    }
}

/// The lines of a text; a line feed at its very end begins no further line, and an empty text
/// has none.
pub open spec fn text_lines(s: Seq<char>) -> Seq<Seq<char>> {
    let pieces = crate::text::split(s, '\n');
    if s.len() == 0 || s.last() == '\n' { pieces.drop_last() } else { pieces }
}

/// `r` is what an attaching terminal is shown of the output `text`: its last lines, as far as
/// they fit.
pub open spec fn is_snapshot(r: Seq<u8>, text: Seq<char>) -> bool {
    let body = crlf_joined(last_n(text_lines(unix_lines(text, 0)), ATTACH_CACHE_LINES as int));
    exists|t: Seq<char>|
        {
            &&& #[trigger] is_tail_within(t, body, ATTACH_CACHE_MAX_BYTES as nat)
            &&& r == encode_utf8(if t.len() > 0 { t + "\r\n"@ } else { t })
        }
}

/// The lines from `start` up to `end`, CR LF between them.
fn join_crlf(lines: &Vec<String>, start: usize, end: usize) -> (r: String)
    requires
        start <= end <= lines@.len(),
    ensures
        r@ == crlf_joined(crate::text::views(lines@).subrange(start as int, end as int)),
{
    let ghost views = crate::text::views(lines@);
    let mut body = String::new();
    let mut i: usize = start;
    assert(views.subrange(start as int, start as int) =~= Seq::<Seq<char>>::empty());
    while i < end
        invariant
            start <= i <= end <= lines@.len(),
            views == crate::text::views(lines@),
            body@ == crlf_joined(views.subrange(start as int, i as int)),
        decreases end - i,
    {
        let ghost grown = views.subrange(start as int, i + 1);
        assert(grown.drop_last() =~= views.subrange(start as int, i as int));
        assert(grown.last() == lines@[i as int]@);
        if i > start {
            body.append("\r\n");
            body.append(lines[i].as_str());
        } else {
            body = lines[i].clone();
        }
        i += 1;
    }
    body
}

/// How many of the pieces of a text between its line feeds are lines.
fn line_pieces(text: &str) -> (r: (Vec<String>, usize))
    ensures
        r.1 <= r.0@.len(),
        text_lines(text@) == crate::text::views(r.0@).take(r.1 as int),
{
    let c = chars_of(text);
    let pieces = crate::text::split_at_char(text, '\n');
    let ghost views = crate::text::views(pieces@);
    proof {
        crate::text::lemma_split_nonempty(text@, '\n');
        assert(views.take(views.len() as int) =~= views);
        assert(views.take(views.len() - 1) =~= views.drop_last());
    }
    let count: usize = pieces.len();
    if c.len() == 0 || c[c.len() - 1] == '\n' {
        (pieces, count - 1)
    } else {
        (pieces, count)
    }
}

/// The last lines of cleaned output, in the form that a raw terminal needs.
pub fn snapshot_of_text(text: &str) -> (r: Vec<u8>)
    ensures
        is_snapshot(r@, text@),
{
    let cleaned = normalize_line_endings(text);
    let (pieces, count) = line_pieces(cleaned.as_str());
    let start: usize = if count > ATTACH_CACHE_LINES { count - ATTACH_CACHE_LINES } else { 0 };
    proof {
        let lines = text_lines(cleaned@);
        assert(last_n(lines, ATTACH_CACHE_LINES as int) =~= crate::text::views(pieces@).subrange(
            start as int,
            count as int,
        ));
    }
    let body = join_crlf(&pieces, start, count);
    let mut snapshot = tail_chars(body.as_str(), ATTACH_CACHE_MAX_BYTES);
    let ghost tail = snapshot@;
    assert(is_tail_within(tail, body@, ATTACH_CACHE_MAX_BYTES as nat));
    if !snapshot.as_str().is_empty() {
        snapshot.append("\r\n");
    }
    snapshot.as_str().as_bytes_vec()
}

pub fn attach_snapshot_from_bytes(bytes: &[u8]) -> (r: Vec<u8>)
    ensures
        is_snapshot(r@, lossy_text(clean_from(bytes@, 0))),
{
    let cleaned = sanitize_log(bytes);
    snapshot_of_text(cleaned.as_str())
}

/// What an attaching terminal is shown is UTF-8 of at most the limit and a line end, holds at most
/// as many line feeds as there may be lines, and ends in CR LF where it is not empty.
pub proof fn law_snapshots_are_bounded(r: Seq<u8>, text: Seq<char>)
    requires
        is_snapshot(r, text),
    ensures
        valid_utf8(r),
        r.len() <= ATTACH_CACHE_MAX_BYTES + 2,
        occurrences(byte_codes(r), 0x0a) <= ATTACH_CACHE_LINES,
        r.len() == 0 || r.len() >= 2 && r[r.len() - 2] == 0x0d && r[r.len() - 1] == 0x0a,
{
    let all = text_lines(unix_lines(text, 0));
    let lines = last_n(all, ATTACH_CACHE_LINES as int);
    let body = crlf_joined(lines);
    let t = choose|t: Seq<char>|
        {
            &&& #[trigger] is_tail_within(t, body, ATTACH_CACHE_MAX_BYTES as nat)
            &&& r == encode_utf8(if t.len() > 0 { t + "\r\n"@ } else { t })
        };
    let shown = if t.len() > 0 { t + "\r\n"@ } else { t };
    let k = choose|k: int|
        {
            &&& 0 <= k <= body.len()
            &&& t == #[trigger] body.skip(k)
            &&& utf8_size(body.skip(k)) <= ATTACH_CACHE_MAX_BYTES
            &&& k > 0 ==> utf8_size(body.skip(k - 1)) > ATTACH_CACHE_MAX_BYTES
        };
    vstd::utf8::encode_utf8_valid_utf8(shown);
    // The size.
    lemma_size_of_both(t, "\r\n"@);
    reveal_strlit("\r\n");
    reveal_with_fuel(utf8_size, 3);
    assert("\r\n"@.skip(1).skip(1) =~= Seq::<char>::empty());
    assert(utf8_size("\r\n"@) == 2);
    lemma_encoded_size(shown);
    // The line feeds.
    crate::text::lemma_split_pieces(unix_lines(text, 0), '\n');
    assert forall|i: int| 0 <= i < lines.len() implies !(#[trigger] lines[i]).contains('\n') by {
        let j = if all.len() > ATTACH_CACHE_LINES { i + all.len() - ATTACH_CACHE_LINES } else { i };
        assert(lines[i] == all[j]);
        assert(all[j] == crate::text::split(unix_lines(text, 0), '\n')[j]);
    }
    lemma_joined_line_feeds(lines);
    let front = char_codes(body.take(k));
    assert(char_codes(body) =~= front + char_codes(t));
    lemma_occurrences_add(front, char_codes(t), 0x0a);
    let end = char_codes("\r\n"@);
    assert(end =~= seq![0x0dnat, 0x0anat]);
    lemma_occurrences_add(seq![0x0dnat], seq![0x0anat], 0x0a);
    assert(end =~= seq![0x0dnat] + seq![0x0anat]);
    lemma_occurrences_add(char_codes(t), end, 0x0a);
    reveal_with_fuel(occurrences, 2);
    assert(seq![0x0dnat].drop_last() =~= Seq::<nat>::empty());
    assert(seq![0x0anat].drop_last() =~= Seq::<nat>::empty());
    if t.len() > 0 {
        assert(char_codes(shown) =~= char_codes(t) + end);
        if lines.len() == 0 {
            assert(body =~= Seq::<char>::empty());
        }
    }
    lemma_encoding_keeps_occurrences(shown, 0x0a);
    // The end.
    if t.len() > 0 {
        let e = encode_utf8("\r\n"@);
        lemma_encoding_adds(t, "\r\n"@);
        reveal_with_fuel(encode_utf8, 3);
        lemma_encode_scalar('\r');
        lemma_encode_scalar('\n');
        assert("\r\n"@.drop_first()[0] == '\n');
        assert("\r\n"@.drop_first().drop_first() =~= Seq::<char>::empty());
        assert(e =~= seq![0x0du8, 0x0au8]);
        assert(r =~= encode_utf8(t) + e);
    } else {
        assert(shown =~= Seq::<char>::empty());
    }
}

proof fn lemma_encoded_size(s: Seq<char>)
    ensures
        encode_utf8(s).len() == utf8_size(s),
    decreases s.len(),
{
    if s.len() > 0 {
        assert(s.drop_first() =~= s.skip(1));
        lemma_encoded_size(s.skip(1));
        vstd::utf8::char_is_scalar(s[0]);
    }
}

/// Joining lines puts a line feed between them and nowhere else.
proof fn lemma_joined_line_feeds(lines: Seq<Seq<char>>)
    requires
        forall|i: int| 0 <= i < lines.len() ==> !(#[trigger] lines[i]).contains('\n'),
    ensures
        occurrences(char_codes(crlf_joined(lines)), 0x0a) == if lines.len() == 0 {
            0
        } else {
            lines.len() - 1
        },
    decreases lines.len(),
{
    if lines.len() > 0 {
        let last = lines.last();
        assert(!lines[lines.len() - 1].contains('\n'));
        assert forall|i: int| 0 <= i < char_codes(last).len() implies char_codes(last)[i] != 0x0a by {
            lemma_code_of(last[i]);
            if last[i] == '\n' {
                assert(last.contains('\n'));
            }
        }
        lemma_no_occurrence(char_codes(last), 0x0a);
        if lines.len() > 1 {
            let front = lines.drop_last();
            assert forall|i: int| 0 <= i < front.len() implies !(#[trigger] front[i]).contains('\n') by {
                assert(front[i] == lines[i]);
            }
            lemma_joined_line_feeds(front);
            reveal_strlit("\r\n");
            let end = seq![0x0dnat] + seq![0x0anat];
            let joined = char_codes(crlf_joined(front));
            assert(char_codes(crlf_joined(lines)) =~= joined + end + char_codes(last));
            lemma_occurrences_add(joined + end, char_codes(last), 0x0a);
            lemma_occurrences_add(joined, end, 0x0a);
            lemma_occurrences_add(seq![0x0dnat], seq![0x0anat], 0x0a);
            reveal_with_fuel(occurrences, 2);
            assert(seq![0x0dnat].drop_last() =~= Seq::<nat>::empty());
            assert(seq![0x0anat].drop_last() =~= Seq::<nat>::empty());
        }
    }
}

proof fn lemma_size_of_both(a: Seq<char>, b: Seq<char>)
    ensures
        utf8_size(a + b) == utf8_size(a) + utf8_size(b),
    decreases a.len(),
{
    if a.len() == 0 {
        assert(a + b =~= b);
    } else {
        lemma_size_of_both(a.skip(1), b);
        assert((a + b).skip(1) =~= a.skip(1) + b);
    }
}

} // verus!
