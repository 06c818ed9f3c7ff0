//! The runs of one service: the current one and the ones before it.
use crate::config::{DEFAULT_LOG_MAX_BYTES, DEFAULT_LOG_MAX_FILES};
use crate::logs::display::{
    clean_from, count_bytes, counted, empty_counter, is_snapshot, keep_last, last_chars, last_n,
    logical_line_count, lossy_text, sanitize_log, snapshot_of_text, to_vec, LineCounter, OUTPUT_TAIL_CHARS,
};
use crate::paths::{join, joined};
use crate::protocol::HistoryRecord;
use crate::text::{
    cat2, cat4, chars_of, decimal, decimal_text, ends_with, has_char, is_trim_of, opt_view, parse_number,
    parsed_number, same, string_of, text_less, text_lt, trim, views,
};
use std::collections::VecDeque;
use vstd::prelude::*;

verus! {

pub const MEMORY_LOG_LIMIT: usize = 65536;

pub const MAX_ARCHIVED_LOGS: usize = 100;

pub const DEFAULT_CHUNK_LIMIT: u32 = 49152;

pub const LATEST_FILE: &'static str = "latest.log";

pub const STARTED_FILE: &'static str = ".latest.started";

pub const LATEST_LINES_FILE: &'static str = ".latest.lines";

/// A finished run that was kept in memory.
#[derive(Debug)]
pub struct MemoryLog {
    pub id: String,
    pub bytes: Vec<u8>,
}

/// A part of a run's output, ready to show.
#[derive(Debug)]
pub struct LogChunk {
    pub next_offset: u64,
    pub total: u64,
    pub total_lines: u64,
    pub eof: bool,
    pub content: String,
}

#[derive(Debug)]
pub struct LogStore {
    pub directory: String,
    pub max_bytes: u64,
    pub max_files: u32,
    pub current: VecDeque<u8>,
    pub current_started: Option<String>,
    pub current_persisted: bool,
    pub segment_open: bool,
    pub disk_bytes: u64,
    pub line_counter: LineCounter,
    pub memory_archives: Vec<MemoryLog>,
}

/// What is where `latest.log` belongs.
#[derive(Debug, Clone, Copy, PartialEq, Eq, Structural)]
pub enum LatestFile {
    Missing,
    Regular,
    Other,
}

/// A file of the log directory.
#[derive(Debug)]
pub struct DiskFile {
    pub name: String,
    pub bytes: u64,
    pub regular: bool,
}

/// What comes next when output goes to disk.
#[derive(Debug, Clone, Copy, PartialEq, Eq, Structural)]
pub enum AppendStep {
    Done,
    Rotate,
    Write(usize),
}

/// Where a part of a run is to be read.
#[derive(Debug)]
pub enum ChunkSource {
    Memory(LogChunk),
    /// In a file of the log directory, with its number of lines where that is known.
    Disk { file: String, lines: Option<u64>, limit: u32 },
    Invalid,
}

// ---------------------------------------------------------------------------------------------
// Names of archives

pub open spec fn stem_char(c: char) -> bool {
    '0' <= c <= '9' || c == '-'
}

/// Digits and dashes, at least one of them.
pub open spec fn valid_stem(s: Seq<char>) -> bool {
    s.len() > 0 && forall|i: int| 0 <= i < s.len() ==> stem_char(#[trigger] s[i])
}

pub fn valid_archive_stem(value: &str) -> (r: bool)
    ensures
        r == valid_stem(value@),
{
    let v = chars_of(value);
    if v.len() == 0 {
        return false;
    }
    let mut i: usize = 0;
    while i < v.len()
        invariant
            v@ == value@,
            i <= v@.len(),
            forall|j: int| 0 <= j < i ==> stem_char(#[trigger] value@[j]),
        decreases v@.len() - i,
    {
        let c = v[i];
        if !(('0' <= c && c <= '9') || c == '-') {
            assert(!stem_char(value@[i as int]));
            return false;
        }
        i += 1;
    }
    true
}

/// A stem followed by `.log`. Of several `.log` at the end only the first belongs to it.
pub open spec fn valid_id(s: Seq<char>) -> bool {
    ends_with(s, ".log"@) && valid_stem(without_log(s))
}

/// The text without any `.log` at its end.
pub open spec fn without_log(s: Seq<char>) -> Seq<char>
    decreases s.len(),
{
    if s.len() >= 4 && ends_with(s, ".log"@) {
        without_log(s.take(s.len() - 4))
    } else {
        s
    }
}

fn ends_in_log(v: &Vec<char>, n: usize) -> (r: bool)
    requires
        n <= v@.len(),
    ensures
        r == ends_with(v@.take(n as int), ".log"@),
        r ==> n >= 4,
{
    proof {
        reveal_strlit(".log");
        assert(".log"@ =~= seq!['.', 'l', 'o', 'g']);
    }
    let ghost s = v@.take(n as int);
    if n < 4 {
        return false;
    }
    let r = v[n - 4] == '.' && v[n - 3] == 'l' && v[n - 2] == 'o' && v[n - 1] == 'g';
    proof {
        let t = s.subrange(n - 4, n as int);
        assert(t[0] == v@[n - 4] && t[1] == v@[n - 3] && t[2] == v@[n - 2] && t[3] == v@[n - 1]);
        if r {
            assert(t =~= ".log"@);
        }
    }
    r
}

pub fn valid_archive_id(value: &str) -> (r: bool)
    ensures
        r == valid_id(value@),
{
    let v = chars_of(value);
    let mut n: usize = v.len();
    assert(v@.take(n as int) =~= value@);
    if !ends_in_log(&v, n) {
        return false;
    }
    while ends_in_log(&v, n)
        invariant
            v@ == value@,
            n <= v@.len(),
            without_log(value@) == without_log(v@.take(n as int)),
        decreases n,
    {
        assert(v@.take(n as int).take(n - 4) =~= v@.take(n - 4));
        n -= 4;
    }
    let stem = string_of(&v, 0, n);
    assert(stem@ =~= v@.take(n as int));
    valid_archive_stem(stem.as_str())
}

/// Where the last dash of a stem stands; before its start where it has none.
pub open spec fn last_dash(s: Seq<char>) -> int
    decreases s.len(),
{
    if s.len() == 0 {
        -1
    } else if s.last() == '-' {
        s.len() - 1
    } else {
        last_dash(s.drop_last())
    }
}

/// The age of an archive, as its name tells it: the time at which its run began, and its number
/// among the archives of that run. A time is written with one dash, so a number is what follows
/// a further one; the archive without a number is the first.
pub open spec fn archive_age(name: Seq<char>) -> (Seq<char>, nat) {
    let stem = without_log(name);
    let at = last_dash(stem);
    let number = parsed_number(stem.skip(at + 1), u64::MAX as nat);
    if at >= 0 && stem.take(at).contains('-') && number is Some {
        (stem.take(at), number->0)
    } else {
        (stem, 0)
    }
}

/// The archive `a` is older than `b`: its run began earlier, or it comes earlier in their run.
pub open spec fn older(a: Seq<char>, b: Seq<char>) -> bool {
    let x = archive_age(a);
    let y = archive_age(b);
    text_lt(x.0, y.0) || x.0 == y.0 && x.1 < y.1
}

/// `a` is older than `b`; of two names that tell the same age, the one that sorts lower counts
/// as the older.
pub open spec fn goes_first(a: Seq<char>, b: Seq<char>) -> bool {
    older(a, b) || archive_age(a) == archive_age(b) && text_lt(a, b)
}

proof fn lemma_last_dash(s: Seq<char>)
    ensures
        -1 <= last_dash(s) < s.len(),
        last_dash(s) >= 0 ==> s[last_dash(s)] == '-',
        forall|i: int| last_dash(s) < i < s.len() ==> s[i] != '-',
    decreases s.len(),
{
    if s.len() > 0 && s.last() != '-' {
        lemma_last_dash(s.drop_last());
        assert forall|i: int| last_dash(s) < i < s.len() implies s[i] != '-' by {
            if i < s.len() - 1 {
                assert(s.drop_last()[i] == s[i]);
            }
        }
    }
}

proof fn lemma_last_dash_is(s: Seq<char>, at: int)
    requires
        -1 <= at < s.len(),
        at >= 0 ==> s[at] == '-',
        forall|i: int| at < i < s.len() ==> s[i] != '-',
    ensures
        last_dash(s) == at,
{
    lemma_last_dash(s);
    if last_dash(s) > at {
        assert(s[last_dash(s)] == '-');
    }
}

/// What the name of an archive tells of its age.
fn age_of(name: &str) -> (r: (String, u64))
    ensures
        (r.0@, r.1 as nat) == archive_age(name@),
{
    let v = chars_of(name);
    let mut n: usize = v.len();
    assert(v@.take(n as int) =~= name@);
    while ends_in_log(&v, n)
        invariant
            v@ == name@,
            n <= v@.len(),
            without_log(name@) == without_log(v@.take(n as int)),
        decreases n,
    {
        assert(v@.take(n as int).take(n - 4) =~= v@.take(n - 4));
        n -= 4;
    }
    let ghost stem = v@.take(n as int);
    let whole = string_of(&v, 0, n);
    assert(whole@ =~= stem);
    let mut at: usize = n;
    while at > 0 && v[at - 1] != '-'
        invariant
            at <= n <= v@.len(),
            stem == v@.take(n as int),
            forall|i: int| at <= i < n ==> stem[i] != '-',
        decreases at,
    {
        at -= 1;
    }
    proof {
        lemma_last_dash_is(stem, at - 1);
    }
    if at == 0 {
        return (whole, 0);
    }
    let start = string_of(&v, 0, at - 1);
    let number = string_of(&v, at, n);
    assert(start@ =~= stem.take(at - 1));
    assert(number@ =~= stem.skip(at as int));
    if !has_char(start.as_str(), '-') {
        return (whole, 0);
    }
    match parse_number(number.as_str(), u64::MAX) {
        Some(k) => (start, k),
        None => (whole, 0),
    }
}

/// Whether the archive `a` goes before `b` when the oldest go first.
fn archive_goes_first(a: &str, b: &str) -> (r: bool)
    ensures
        r == goes_first(a@, b@),
{
    let x = age_of(a);
    let y = age_of(b);
    proof {
        crate::text::lemma_text_lt_irreflexive(x.0@);
    }
    if same(x.0.as_str(), y.0.as_str()) {
        x.1 < y.1 || (x.1 == y.1 && text_less(a, b))
    } else {
        text_less(x.0.as_str(), y.0.as_str())
    }
}

proof fn lemma_goes_first_irreflexive(a: Seq<char>)
    ensures
        !goes_first(a, a),
{
    crate::text::lemma_text_lt_irreflexive(a);
    crate::text::lemma_text_lt_irreflexive(archive_age(a).0);
}

proof fn lemma_goes_first_transitive(a: Seq<char>, b: Seq<char>, c: Seq<char>)
    requires
        goes_first(a, b),
        goes_first(b, c),
    ensures
        goes_first(a, c),
{
    let x = archive_age(a);
    let y = archive_age(b);
    let z = archive_age(c);
    if text_lt(x.0, y.0) && text_lt(y.0, z.0) {
        crate::text::lemma_text_lt_transitive(x.0, y.0, z.0);
    }
    if text_lt(a, b) && text_lt(b, c) {
        crate::text::lemma_text_lt_transitive(a, b, c);
    }
}

proof fn lemma_goes_first_total(a: Seq<char>, b: Seq<char>)
    ensures
        a == b || goes_first(a, b) || goes_first(b, a),
{
    crate::text::lemma_text_lt_total(archive_age(a).0, archive_age(b).0);
    crate::text::lemma_text_lt_total(a, b);
}

proof fn lemma_not_first_transitive(a: Seq<char>, b: Seq<char>, c: Seq<char>)
    requires
        !goes_first(a, b),
        !goes_first(b, c),
    ensures
        !goes_first(a, c),
{
    if goes_first(a, c) {
        lemma_goes_first_total(a, b);
        lemma_goes_first_total(b, c);
        if a != b && b != c {
            lemma_goes_first_transitive(c, b, a);
            lemma_goes_first_transitive(a, c, a);
            lemma_goes_first_irreflexive(a);
        }
    }
}

/// The time at which a run began, as archives are named after it: digits around one dash.
pub open spec fn run_start(s: Seq<char>) -> bool {
    valid_stem(s) && s.contains('-') && !s.take(last_dash(s)).contains('-')
}

/// The archives of one run are numbered in the order of their age, and an archive is older than
/// every one of a run that began later.
pub proof fn law_archive_names_tell_the_age(base: Seq<char>, k: nat)
    requires
        run_start(base),
        k <= u64::MAX,
    ensures
        archive_age(archive_candidate(base, k)) == (base, k),
        forall|j: nat| j < k ==> older(#[trigger] archive_candidate(base, j), archive_candidate(base, k)),
        forall|later: Seq<char>, j: nat|
            run_start(later) && text_lt(base, later) && j <= u64::MAX ==> older(
                archive_candidate(base, k),
                #[trigger] archive_candidate(later, j),
            ),
{
    lemma_candidate_age(base, k);
    assert forall|j: nat| j < k implies older(
        #[trigger] archive_candidate(base, j),
        archive_candidate(base, k),
    ) by {
        lemma_candidate_age(base, j);
    }
    assert forall|later: Seq<char>, j: nat|
        run_start(later) && text_lt(base, later) && j <= u64::MAX implies older(
        archive_candidate(base, k),
        #[trigger] archive_candidate(later, j),
    ) by {
        lemma_candidate_age(later, j);
    }
}

/// A name for an archive is named like one.
proof fn lemma_candidate_is_archive(base: Seq<char>, k: nat)
    requires
        valid_stem(base),
    ensures
        valid_id(archive_candidate(base, k)),
        archive_candidate(base, k) != LATEST_FILE@,
{
    reveal_strlit(".log");
    reveal_strlit("-");
    let name = archive_candidate(base, k);
    let stem = if k == 0 { base } else { base + "-"@ + decimal(k) };
    crate::text::lemma_decimal_reads_back(k);
    assert(name =~= stem + ".log"@);
    assert(name.subrange(name.len() - 4, name.len() as int) =~= ".log"@);
    assert(name.take(name.len() - 4) =~= stem);
    assert forall|i: int| 0 <= i < stem.len() implies stem_char(#[trigger] stem[i]) by {
        if i < base.len() {
            assert(stem[i] == base[i]);
        } else if i > base.len() {
            let d = decimal(k)[i - base.len() - 1];
            assert(stem[i] == d);
            assert(crate::text::ascii_digit(d));
        }
    }
    assert(!ends_with(stem, ".log"@)) by {
        if ends_with(stem, ".log"@) {
            assert(stem.subrange(stem.len() - 4, stem.len() as int)[3] == stem[stem.len() - 1]);
            assert(".log"@[3] == 'g');
            assert(stem_char(stem[stem.len() - 1]));
        }
    }
    assert(without_log(stem) == stem);
    lemma_latest_is_no_archive();
}

/// No name for an archive is that of the current run's file.
proof fn lemma_candidate_is_apart(base: Seq<char>, k: nat)
    requires
        valid_stem(base) || base != "latest"@,
    ensures
        archive_candidate(base, k) != LATEST_FILE@,
{
    if valid_stem(base) {
        lemma_candidate_is_archive(base, k);
    } else {
        reveal_strlit(".log");
        reveal_strlit("-");
        reveal_strlit("latest");
        reveal_strlit("latest.log");
        let name = archive_candidate(base, k);
        if name == LATEST_FILE@ {
            if k == 0 {
                assert(name.len() == base.len() + 4);
                assert forall|i: int| 0 <= i < base.len() implies base[i] == "latest"@[i] by {
                    assert(name[i] == base[i]);
                }
                assert(base =~= "latest"@);
            } else {
                crate::text::lemma_decimal_reads_back(k);
                let d = decimal(k);
                assert(name[name.len() - 5] == d[d.len() - 1]);
                assert(crate::text::ascii_digit(d[d.len() - 1]));
            }
        }
    }
}

/// The file of the current run is not named like an archive.
proof fn lemma_latest_is_no_archive()
    ensures
        !valid_id(LATEST_FILE@),
{
    reveal_strlit(".log");
    reveal_strlit("latest.log");
    let name = LATEST_FILE@;
    let stem = name.take(name.len() - 4);
    assert(name.subrange(name.len() - 4, name.len() as int) =~= ".log"@);
    assert(!ends_with(stem, ".log"@)) by {
        if ends_with(stem, ".log"@) {
            assert(stem.subrange(stem.len() - 4, stem.len() as int)[3] == stem[5]);
        }
    }
    assert(without_log(stem) == stem);
    assert(without_log(name) == stem);
    assert(!stem_char(stem[0]));
}

proof fn lemma_candidate_age(base: Seq<char>, k: nat)
    requires
        run_start(base),
        k <= u64::MAX,
    ensures
        archive_age(archive_candidate(base, k)) == (base, k),
{
    reveal_strlit(".log");
    reveal_strlit("-");
    let name = archive_candidate(base, k);
    let stem = if k == 0 { base } else { base + "-"@ + decimal(k) };
    crate::text::lemma_decimal_reads_back(k);
    assert(name =~= stem + ".log"@);
    assert(name.subrange(name.len() - 4, name.len() as int) =~= ".log"@);
    assert(name.take(name.len() - 4) =~= stem);
    assert(stem.len() > 0);
    assert(stem_char(stem.last()) || crate::text::ascii_digit(stem.last())) by {
        if k == 0 {
            assert(stem_char(base[base.len() - 1]));
        } else {
            assert(stem.last() == decimal(k).last());
            assert(crate::text::ascii_digit(decimal(k)[decimal(k).len() - 1]));
        }
    }
    assert(!ends_with(stem, ".log"@)) by {
        if ends_with(stem, ".log"@) {
            assert(stem.subrange(stem.len() - 4, stem.len() as int)[3] == stem.last());
            assert(".log"@[3] == 'g');
        }
    }
    assert(without_log(stem) == stem);
    assert(without_log(name) == stem);
    if k > 0 {
        let at = base.len() as int;
        assert(stem[at] == '-');
        assert forall|i: int| at < i < stem.len() implies stem[i] != '-' by {
            assert(stem[i] == decimal(k)[i - at - 1]);
            assert(crate::text::ascii_digit(decimal(k)[i - at - 1]));
        }
        lemma_last_dash_is(stem, at);
        assert(stem.take(at) =~= base);
        assert(stem.skip(at + 1) =~= decimal(k));
    }
}

/// The name of the `k`th candidate for an archive.
pub open spec fn archive_candidate(base: Seq<char>, k: nat) -> Seq<char> {
    if k == 0 { base + ".log"@ } else { base + "-"@ + decimal(k) + ".log"@ }
}

pub open spec fn ids(archives: Seq<MemoryLog>) -> Seq<Seq<char>> {
    Seq::new(archives.len(), |i: int| archives[i].id@)
}

fn has_text(list: &Vec<String>, name: &str) -> (r: bool)
    ensures
        r == views(list@).contains(name@),
{
    let mut i: usize = 0;
    while i < list.len()
        invariant
            i <= list@.len(),
            forall|j: int| 0 <= j < i ==> views(list@)[j] != name@,
        decreases list@.len() - i,
    {
        assert(views(list@)[i as int] == list@[i as int]@);
        if same(list[i].as_str(), name) {
            return true;
        }
        i += 1;
    }
    false
}

/// What every store keeps: its limits, and that no archive goes by the name of the current run.
pub open spec fn bounded(s: LogStore) -> bool {
    &&& s.max_bytes >= 1
    &&& s.max_files >= 1
    &&& s.current@.len() <= MEMORY_LOG_LIMIT
    &&& s.memory_archives@.len() <= MAX_ARCHIVED_LOGS
    &&& s.current_persisted ==> s.segment_open
    &&& forall|i: int| 0 <= i < s.memory_archives@.len() ==> (#[trigger] s.memory_archives@[i]).bytes@.len()
        <= MEMORY_LOG_LIMIT
    &&& apart(s.memory_archives@)
}

/// No archive in memory goes by the name of the current run's file.
pub open spec fn apart(archives: Seq<MemoryLog>) -> bool {
    forall|i: int| 0 <= i < archives.len() ==> (#[trigger] archives[i]).id@ != LATEST_FILE@
}

/// The archives in memory are named like archives.
pub open spec fn well_named(archives: Seq<MemoryLog>) -> bool {
    forall|i: int| 0 <= i < archives.len() ==> valid_id((#[trigger] archives[i]).id@)
}

pub open spec fn at_least_one(n: int) -> int {
    if n < 1 { 1 } else { n }
}

/// `r` is `base.log` where that is free, and otherwise the first free one of the numbered names.
pub open spec fn is_free_id(r: Seq<char>, base: Seq<char>, taken: Seq<Seq<char>>, kept: Seq<Seq<char>>) -> bool {
    exists|k: nat|
        {
            &&& r == #[trigger] archive_candidate(base, k)
            &&& !taken.contains(r) && !kept.contains(r)
            &&& forall|j: nat|
                j < k ==> taken.contains(#[trigger] archive_candidate(base, j)) || kept.contains(
                    archive_candidate(base, j),
                )
        }
}

/// What an archive is named after: the time at which its run began, or else the present one.
pub open spec fn archive_base(started: Seq<char>, now: Seq<char>) -> Seq<char> {
    if valid_stem(started) { started } else { now }
}

/// No numbered name is left.
pub open spec fn all_taken(base: Seq<char>, taken: Seq<Seq<char>>, kept: Seq<Seq<char>>) -> bool {
    forall|j: nat|
        j <= u64::MAX ==> taken.contains(#[trigger] archive_candidate(base, j)) || kept.contains(
            archive_candidate(base, j),
        )
}

/// `r` is the first free name, where one is left.
pub open spec fn chosen_id(r: Option<String>, base: Seq<char>, taken: Seq<Seq<char>>, kept: Seq<Seq<char>>) -> bool {
    match r {
        Some(id) => is_free_id(id@, base, taken, kept),
        None => all_taken(base, taken, kept),
    }
}

/// What is done with output that is still to be written.
pub open spec fn next_step(s: LogStore, remaining: nat) -> AppendStep {
    if remaining == 0 || !s.segment_open {
        AppendStep::Done
    } else if s.disk_bytes >= s.max_bytes {
        AppendStep::Rotate
    } else if s.disk_bytes + remaining <= s.max_bytes {
        AppendStep::Write(remaining as usize)
    } else {
        AppendStep::Write((s.max_bytes - s.disk_bytes) as usize)
    }
}

/// The store once bytes were written to its segment.
pub open spec fn with_written(s: LogStore, bytes: Seq<u8>) -> LogStore {
    LogStore {
        disk_bytes: if s.disk_bytes + bytes.len() > u64::MAX {
            u64::MAX
        } else {
            (s.disk_bytes + bytes.len()) as u64
        },
        line_counter: if s.current_persisted {
            count_bytes(s.line_counter, bytes)
        } else {
            s.line_counter
        },
        ..s
    }
}

/// The store once a fresh segment was opened.
pub open spec fn with_fresh_segment(s: LogStore) -> LogStore {
    LogStore { disk_bytes: 0, line_counter: empty_counter(), segment_open: true, ..s }
}

/// Where a part of a run is read.
pub open spec fn is_source(s: LogStore, id: Seq<char>, offset: u64, requested: u32, r: ChunkSource) -> bool {
    let limit = chunk_limit(requested);
    if id == "latest"@ {
        if s.current_started is Some && !s.current_persisted {
            r matches ChunkSource::Memory(c) && is_chunk(c, s.current@, offset, limit as nat)
        } else {
            r matches ChunkSource::Disk { file, lines, limit: l } && file@ == LATEST_FILE@ && lines == Some(
                counted(s.line_counter),
            ) && l == limit
        }
    } else if ids(s.memory_archives@).contains(id) {
        r matches ChunkSource::Memory(c) && exists|i: int|
            {
                &&& 0 <= i < s.memory_archives@.len()
                &&& (#[trigger] s.memory_archives@[i]).id@ == id
                &&& forall|j: int| 0 <= j < i ==> (#[trigger] s.memory_archives@[j]).id@ != id
                &&& is_chunk(c, s.memory_archives@[i].bytes@, offset, limit as nat)
            }
    } else if valid_id(id) {
        r matches ChunkSource::Disk { file, lines, limit: l } && file@ == id && lines is None && l == limit
    } else {
        r is Invalid
    }
}

fn candidate(base: &str, k: u64) -> (r: String)
    ensures
        r@ == archive_candidate(base@, k as nat),
{
    if k == 0 {
        cat2(base, ".log")
    } else {
        let n = decimal_text(k);
        cat4(base, "-", n.as_str(), ".log")
    }
}

impl LogStore {
    pub fn new(directory: String) -> (r: Self)
        ensures
            bounded(r),
            r.directory == directory,
            r.max_bytes == DEFAULT_LOG_MAX_BYTES,
            r.max_files == DEFAULT_LOG_MAX_FILES,
            r.current@.len() == 0,
            r.current_started is None,
            !r.current_persisted,
            !r.segment_open,
            r.disk_bytes == 0,
            r.line_counter == empty_counter(),
            r.memory_archives@.len() == 0,
    {
        Self::with_limits(directory, DEFAULT_LOG_MAX_BYTES, DEFAULT_LOG_MAX_FILES)
    }

    pub fn with_limits(directory: String, max_bytes: u64, max_files: u32) -> (r: Self)
        ensures
            bounded(r),
            r.directory == directory,
            r.max_bytes == at_least_one(max_bytes as int),
            r.max_files == at_least_one(max_files as int),
            r.current@.len() == 0,
            r.current_started is None,
            !r.current_persisted,
            !r.segment_open,
            r.disk_bytes == 0,
            r.line_counter == empty_counter(),
            r.memory_archives@.len() == 0,
    {
        LogStore {
            directory,
            max_bytes: if max_bytes < 1 { 1 } else { max_bytes },
            max_files: if max_files < 1 { 1 } else { max_files },
            current: VecDeque::new(),
            current_started: None,
            current_persisted: false,
            segment_open: false,
            disk_bytes: 0,
            line_counter: LineCounter::new(),
            memory_archives: Vec::new(),
        }
    }

    pub fn set_limits(&mut self, max_bytes: u64, max_files: u32)
        requires
            bounded(*old(self)),
        ensures
            bounded(*final(self)),
            *final(self) == (LogStore {
                max_bytes: at_least_one(max_bytes as int) as u64,
                max_files: at_least_one(max_files as int) as u32,
                ..*old(self)
            }),
    {
        self.max_bytes = if max_bytes < 1 { 1 } else { max_bytes };
        self.max_files = if max_files < 1 { 1 } else { max_files };
    }

    fn archive_kept(&self, id: &str) -> (r: bool)
        ensures
            r == ids(self.memory_archives@).contains(id@),
    {
        let mut i: usize = 0;
        while i < self.memory_archives.len()
            invariant
                i <= self.memory_archives@.len(),
                forall|j: int| 0 <= j < i ==> ids(self.memory_archives@)[j] != id@,
            decreases self.memory_archives@.len() - i,
        {
            assert(ids(self.memory_archives@)[i as int] == self.memory_archives@[i as int].id@);
            if same(self.memory_archives[i].id.as_str(), id) {
                return true;
            }
            i += 1;
        }
        false
    }

    /// A name for an archive of the run that began at `started`, or at `now` where `started` is
    /// no such time. `taken` are the names in the log directory. `None` only where all numbers
    /// are used up.
    pub fn unique_archive_id(&self, started: &str, now: &str, taken: &Vec<String>) -> (r: Option<String>)
        ensures
            chosen_id(r, archive_base(started@, now@), views(taken@), ids(self.memory_archives@)),
    {
        let base = if valid_archive_stem(started) { started } else { now };
        let mut k: u64 = 0;
        loop
            invariant
                forall|j: nat|
                    j < k ==> views(taken@).contains(#[trigger] archive_candidate(base@, j)) || ids(
                        self.memory_archives@,
                    ).contains(archive_candidate(base@, j)),
                base@ == archive_base(started@, now@),
            decreases u64::MAX - k,
        {
            let id = candidate(base, k);
            if !has_text(taken, id.as_str()) && !self.archive_kept(id.as_str()) {
                assert(id@ == archive_candidate(base@, k as nat));
                return Some(id);
            }
            if k == u64::MAX {
                return None;
            }
            k += 1;
        }
    }

    /// Starts a run. The run before it, where it was kept in memory, becomes the newest memory
    /// archive, under the first free name; older ones beyond the limit are dropped. `now` is the
    /// time as an archive stem, and `taken` are the names in the log directory.
    pub fn begin_run(&mut self, now: &str, taken: &Vec<String>)
        requires
            bounded(*old(self)),
            now@ != "latest"@,
        ensures
            bounded(*final(self)),
            final(self).directory == old(self).directory,
            final(self).max_bytes == old(self).max_bytes,
            final(self).max_files == old(self).max_files,
            final(self).current@.len() == 0,
            opt_view(final(self).current_started) == Some(now@),
            !final(self).current_persisted,
            !final(self).segment_open,
            final(self).disk_bytes == 0,
            final(self).line_counter == empty_counter(),
            archived(*old(self), now@, views(taken@), final(self).memory_archives@),
            valid_stem(now@) && well_named(old(self).memory_archives@) ==> well_named(
                final(self).memory_archives@,
            ),
    {
        let mut previous: Option<String> = None;
        std::mem::swap(&mut previous, &mut self.current_started);
        match previous {
            None => {},
            Some(started) => {
                if !self.current_persisted {
                    match self.unique_archive_id(started.as_str(), now, taken) {
                        None => {},
                        Some(id) => {
                            let bytes = to_vec(&self.current);
                            let entry = MemoryLog { id, bytes };
                            let ghost before = self.memory_archives@;
                            self.memory_archives.insert(0, entry);
                            self.memory_archives.truncate(MAX_ARCHIVED_LOGS);
                            proof {
                                let all = newest_first(entry, before);
                                assert(before.insert(0, entry) =~= all);
                                assert(self.memory_archives@ =~= first_n(
                                    all,
                                    MAX_ARCHIVED_LOGS as int,
                                ));
                                assert forall|i: int| 0 <= i < self.memory_archives@.len() implies (
                                #[trigger] self.memory_archives@[i]).bytes@.len() <= MEMORY_LOG_LIMIT by {
                                    if i > 0 {
                                        assert(self.memory_archives@[i] == before[i - 1]);
                                    }
                                }
                                let base = archive_base(started@, now@);
                                let k = choose|k: nat|
                                    {
                                        &&& entry.id@ == #[trigger] archive_candidate(base, k)
                                        &&& !views(taken@).contains(entry.id@) && !ids(before).contains(entry.id@)
                                    };
                                lemma_candidate_is_apart(base, k);
                                assert forall|i: int| 0 <= i < self.memory_archives@.len() implies (
                                #[trigger] self.memory_archives@[i]).id@ != LATEST_FILE@ by {
                                    if i > 0 {
                                        assert(self.memory_archives@[i] == before[i - 1]);
                                    }
                                }
                                if valid_stem(now@) && well_named(before) {
                                    lemma_candidate_is_archive(base, k);
                                    assert forall|i: int| 0 <= i < self.memory_archives@.len() implies valid_id(
                                        (#[trigger] self.memory_archives@[i]).id@,
                                    ) by {
                                        if i > 0 {
                                            assert(self.memory_archives@[i] == before[i - 1]);
                                        }
                                    }
                                }
                            }
                        },
                    }
                }
            },
        }
        self.segment_open = false;
        self.current = VecDeque::new();
        self.disk_bytes = 0;
        self.line_counter = LineCounter::new();
        self.current_persisted = false;
        self.current_started = Some(now.to_owned());
    }

    /// Under which name the `latest.log` of an earlier run is archived; none where there is none.
    /// `sidecar` is the text that was kept beside it.
    pub fn rotate_latest(
        &self,
        latest: LatestFile,
        sidecar: Option<&str>,
        fallback_started: &str,
        taken: &Vec<String>,
    ) -> (r: Result<Option<String>, String>)
        ensures
            match latest {
                LatestFile::Missing => r == Ok::<Option<String>, String>(None),
                LatestFile::Other => r is Err && r->Err_0@ == joined(self.directory@, LATEST_FILE@)
                    + " is not a regular file"@,
                LatestFile::Regular => r is Ok && exists|base: Seq<char>|
                    #[trigger] is_rotation_base(base, sidecar, fallback_started@) && chosen_id(
                        r->Ok_0,
                        base,
                        views(taken@),
                        ids(self.memory_archives@),
                    ),
            },
    {
        match latest {
            LatestFile::Missing => Ok(None),
            LatestFile::Other => {
                let path = join(self.directory.as_str(), LATEST_FILE);
                Err(cat2(path.as_str(), " is not a regular file"))
            },
            LatestFile::Regular => {
                let mut base = fallback_started.to_owned();
                match sidecar {
                    Some(text) => {
                        let started = trim(text);
                        proof {
                            assert forall|t: Seq<char>| #[trigger] is_trim_of(t, text@) implies t == started@ by {
                                crate::text::lemma_trim_unique(t, started@, text@);
                            }
                        }
                        if valid_archive_stem(started.as_str()) {
                            base = started;
                        }
                    },
                    None => {},
                }
                assert(is_rotation_base(base@, sidecar, fallback_started@));
                let r = self.unique_archive_id(base.as_str(), base.as_str(), taken);
                Ok(r)
            },
        }
    }

    /// Notes that the file of the current run was opened.
    pub fn run_opened(&mut self)
        requires
            bounded(*old(self)),
        ensures
            bounded(*final(self)),
            *final(self) == (LogStore { segment_open: true, current_persisted: true, ..*old(self) }),
    {
        self.segment_open = true;
        self.current_persisted = true;
    }

    /// Takes output into memory, of which the newest part is kept. Says whether the output also
    /// goes to disk.
    pub fn append(&mut self, bytes: &[u8]) -> (r: bool)
        requires
            bounded(*old(self)),
        ensures
            bounded(*final(self)),
            final(self).current@ == last_n(old(self).current@ + bytes@, MEMORY_LOG_LIMIT as int),
            r == old(self).segment_open,
            final(self).directory == old(self).directory,
            final(self).max_bytes == old(self).max_bytes,
            final(self).max_files == old(self).max_files,
            final(self).current_started == old(self).current_started,
            final(self).current_persisted == old(self).current_persisted,
            final(self).segment_open == old(self).segment_open,
            final(self).disk_bytes == old(self).disk_bytes,
            final(self).line_counter == old(self).line_counter,
            final(self).memory_archives == old(self).memory_archives,
    {
        let mut current: VecDeque<u8> = VecDeque::new();
        std::mem::swap(&mut current, &mut self.current);
        let ghost start = current@;
        let mut i: usize = 0;
        assert(start + bytes@.take(0) =~= start);
        while i < bytes.len()
            invariant
                i <= bytes@.len(),
                current@ == start + bytes@.take(i as int),
            decreases bytes@.len() - i,
        {
            current.push_back(bytes[i]);
            assert(start + bytes@.take(i + 1) =~= (start + bytes@.take(i as int)).push(bytes@[i as int]));
            i += 1;
        }
        assert(bytes@.take(bytes@.len() as int) =~= bytes@);
        keep_last(&mut current, MEMORY_LOG_LIMIT);
        self.current = current;
        self.segment_open
    }

    /// What to do with the `remaining` bytes of output that are still to be written.
    pub fn append_step(&self, remaining: usize) -> (r: AppendStep)
        requires
            bounded(*self),
        ensures
            r is Done == (remaining == 0 || !self.segment_open),
            r is Rotate == (remaining > 0 && self.segment_open && self.disk_bytes >= self.max_bytes),
            r matches AppendStep::Write(n) ==> {
                &&& 0 < n <= remaining
                &&& self.disk_bytes + n <= self.max_bytes
                &&& n == remaining || self.disk_bytes + n == self.max_bytes
            },
            r == next_step(*self, remaining as nat),
    {
        if remaining == 0 || !self.segment_open {
            return AppendStep::Done;
        }
        if self.disk_bytes >= self.max_bytes {
            return AppendStep::Rotate;
        }
        let available: u64 = self.max_bytes - self.disk_bytes;
        if available >= remaining as u64 {
            AppendStep::Write(remaining)
        } else {
            AppendStep::Write(available as usize)
        }
    }

    /// Notes that `bytes` were written to the open segment.
    pub fn segment_written(&mut self, bytes: &[u8])
        requires
            bounded(*old(self)),
        ensures
            bounded(*final(self)),
            *final(self) == (LogStore {
                disk_bytes: if old(self).disk_bytes + bytes@.len() > u64::MAX {
                    u64::MAX
                } else {
                    (old(self).disk_bytes + bytes@.len()) as u64
                },
                line_counter: if old(self).current_persisted {
                    count_bytes(old(self).line_counter, bytes@)
                } else {
                    old(self).line_counter
                },
                ..*old(self)
            }),
            *final(self) == with_written(*old(self), bytes@),
    {
        self.disk_bytes = self.disk_bytes.saturating_add(bytes.len() as u64);
        if self.current_persisted {
            self.line_counter.feed(bytes);
        }
    }

    /// The archive name and the line count for the segment that is full. `taken` are the names in
    /// the log directory, and those that archives of the run had: a name that has become free is
    /// not used again within a run, so that later archives have higher numbers.
    pub fn rotate_active_segment(&self, now: &str, taken: &Vec<String>) -> (r: (Option<String>, u64))
        ensures
            r.1 == counted(self.line_counter),
            chosen_id(
                r.0,
                archive_base(
                    match self.current_started {
                        Some(s) => s@,
                        None => now@,
                    },
                    now@,
                ),
                views(taken@),
                ids(self.memory_archives@),
            ),
    {
        let id = match &self.current_started {
            Some(s) => self.unique_archive_id(s.as_str(), now, taken),
            None => self.unique_archive_id(now, now, taken),
        };
        (id, self.line_counter.total_lines())
    }

    /// Notes that a fresh segment is open.
    pub fn segment_rotated(&mut self)
        requires
            bounded(*old(self)),
        ensures
            bounded(*final(self)),
            *final(self) == (LogStore {
                disk_bytes: 0,
                line_counter: empty_counter(),
                segment_open: true,
                ..*old(self)
            }),
            *final(self) == with_fresh_segment(*old(self)),
    {
        self.line_counter = LineCounter::new();
        self.disk_bytes = 0;
        self.segment_open = true;
    }

    /// Gives up on disk for the rest of the run.
    pub fn disable_persistence(&mut self)
        requires
            bounded(*old(self)),
        ensures
            bounded(*final(self)),
            *final(self) == (LogStore { segment_open: false, current_persisted: false, ..*old(self) }),
    {
        self.segment_open = false;
        self.current_persisted = false;
    }

    pub fn output_tail(&self) -> (r: String)
        ensures
            r@ == last_n(lossy_text(clean_from(self.current@, 0)), OUTPUT_TAIL_CHARS as int),
    {
        let raw = to_vec(&self.current);
        let cleaned = sanitize_log(raw.as_slice());
        last_chars(cleaned.as_str(), OUTPUT_TAIL_CHARS)
    }

    pub fn attach_snapshot(&self) -> (r: Vec<u8>)
        ensures
            is_snapshot(r@, lossy_text(clean_from(self.current@, 0))),
    {
        let raw = to_vec(&self.current);
        let cleaned = sanitize_log(raw.as_slice());
        snapshot_of_text(cleaned.as_str())
    }

    /// The file of the current run, where it has one.
    pub fn latest_log_path(&self) -> (r: Option<String>)
        ensures
            r is Some == (self.current_started is Some && self.current_persisted),
            r is Some ==> r->0@ == joined(self.directory@, LATEST_FILE@),
    {
        if self.current_started.is_some() && self.current_persisted {
            Some(join(self.directory.as_str(), LATEST_FILE))
        } else {
            None
        }
    }

    pub open spec fn spec_current_size(&self) -> u64 {
        if self.current_persisted { self.disk_bytes } else { self.current@.len() as u64 }
    }

    pub fn current_size(&self) -> (r: u64)
        ensures
            r == self.spec_current_size(),
    {
        if self.current_persisted {
            self.disk_bytes
        } else {
            self.current.len() as u64
        }
    }

    /// All runs that can be read: the current one, those in memory and those among `files`. The
    /// current one comes first, the others follow by descending name.
    pub fn records(&self, files: &Vec<DiskFile>) -> (r: Vec<HistoryRecord>)
        ensures
            forall|i: int, j: int| 0 <= i < j < r@.len() ==> record_order(#[trigger] r@[i], #[trigger] r@[j]),
            same_records(record_views(r@), self.spec_records(files@)),
    {
        let mut records: Vec<HistoryRecord> = Vec::new();
        if self.current_started.is_some() {
            records.push(
                HistoryRecord {
                    id: "latest".to_owned(),
                    bytes: self.current_size(),
                    current: true,
                    persisted: self.current_persisted,
                },
            );
        }
        assert(record_views(records@) =~= self.current_record());
        let mut i: usize = 0;
        assert(memory_records(self.memory_archives@.take(0)) =~= Seq::<RecordView>::empty());
        assert(record_views(records@) =~= self.current_record() + memory_records(self.memory_archives@.take(0)));
        while i < self.memory_archives.len()
            invariant
                i <= self.memory_archives@.len(),
                record_views(records@) == self.current_record() + memory_records(
                    self.memory_archives@.take(i as int),
                ),
            decreases self.memory_archives@.len() - i,
        {
            let archive = &self.memory_archives[i];
            let ghost before = record_views(records@);
            records.push(
                HistoryRecord {
                    id: archive.id.clone(),
                    bytes: archive.bytes.len() as u64,
                    current: false,
                    persisted: false,
                },
            );
            assert(record_views(records@) =~= before.push(memory_record(*archive)));
            assert(memory_records(self.memory_archives@.take(i + 1)) =~= memory_records(
                self.memory_archives@.take(i as int),
            ).push(memory_record(*archive)));
            i += 1;
        }
        assert(self.memory_archives@.take(i as int) =~= self.memory_archives@);
        let ghost front = record_views(records@);
        let mut k: usize = 0;
        assert(disk_records(files@.take(0)) =~= Seq::<RecordView>::empty());
        assert(front + Seq::<RecordView>::empty() =~= front);
        while k < files.len()
            invariant
                k <= files@.len(),
                record_views(records@) == front + disk_records(files@.take(k as int)),
            decreases files@.len() - k,
        {
            let file = &files[k];
            let ghost before = record_views(records@);
            assert(files@.take(k + 1).drop_last() =~= files@.take(k as int));
            assert(files@.take(k + 1).last() == *file);
            if is_archive_file(file) {
                records.push(
                    HistoryRecord {
                        id: file.name.clone(),
                        bytes: file.bytes,
                        current: false,
                        persisted: true,
                    },
                );
                assert(record_views(records@) =~= before.push(disk_record(*file)));
                assert((front + disk_records(files@.take(k as int))).push(disk_record(*file)) =~= front
                    + disk_records(files@.take(k as int)).push(disk_record(*file)));
            }
            k += 1;
        }
        assert(files@.take(k as int) =~= files@);
        sort_records(&mut records);
        records
    }

    pub open spec fn current_record(&self) -> Seq<RecordView> {
        if self.current_started is Some {
            seq![
                RecordView {
                    id: "latest"@,
                    bytes: self.spec_current_size(),
                    current: true,
                    persisted: self.current_persisted,
                },
            ]
        } else {
            Seq::empty()
        }
    }

    pub open spec fn spec_records(&self, files: Seq<DiskFile>) -> Seq<RecordView> {
        self.current_record() + memory_records(self.memory_archives@) + disk_records(files)
    }

    /// Where the part of a run from `offset` on comes from. A run in memory is read at once.
    pub fn read_chunk(&self, id: &str, offset: u64, requested_limit: u32) -> (r: ChunkSource)
        ensures
            ({
                let limit = chunk_limit(requested_limit);
                if id@ == "latest"@ {
                    if self.current_started is Some && !self.current_persisted {
                        r matches ChunkSource::Memory(c) && is_chunk(c, self.current@, offset, limit as nat)
                    } else {
                        r matches ChunkSource::Disk { file, lines, limit: l } && file@ == LATEST_FILE@
                            && lines == Some(counted(self.line_counter)) && l == limit
                    }
                } else if ids(self.memory_archives@).contains(id@) {
                    r matches ChunkSource::Memory(c) && exists|i: int|
                        {
                            &&& 0 <= i < self.memory_archives@.len()
                            &&& (#[trigger] self.memory_archives@[i]).id@ == id@
                            &&& forall|j: int| 0 <= j < i ==> (#[trigger] self.memory_archives@[j]).id@ != id@
                            &&& is_chunk(c, self.memory_archives@[i].bytes@, offset, limit as nat)
                        }
                } else if valid_id(id@) {
                    r matches ChunkSource::Disk { file, lines, limit: l } && file@ == id@ && lines is None
                        && l == limit
                } else {
                    r is Invalid
                }
            }),
            is_source(*self, id@, offset, requested_limit, r),
    {
        let limit: u32 = if requested_limit < 1 {
            1
        } else if requested_limit > DEFAULT_CHUNK_LIMIT {
            DEFAULT_CHUNK_LIMIT
        } else {
            requested_limit
        };
        if same(id, "latest") {
            if self.current_started.is_some() && !self.current_persisted {
                let raw = to_vec(&self.current);
                return ChunkSource::Memory(memory_chunk(&raw, offset, limit as usize));
            }
            return ChunkSource::Disk {
                file: LATEST_FILE.to_owned(),
                lines: Some(self.line_counter.total_lines()),
                limit,
            };
        }
        let mut i: usize = 0;
        while i < self.memory_archives.len()
            invariant
                i <= self.memory_archives@.len(),
                id@ != "latest"@,
                limit == chunk_limit(requested_limit),
                forall|j: int| 0 <= j < i ==> (#[trigger] self.memory_archives@[j]).id@ != id@,
            decreases self.memory_archives@.len() - i,
        {
            if same(self.memory_archives[i].id.as_str(), id) {
                proof {
                    assert(ids(self.memory_archives@)[i as int] == id@);
                }
                let c = memory_chunk(&self.memory_archives[i].bytes, offset, limit as usize);
                assert(is_chunk(c, self.memory_archives@[i as int].bytes@, offset, limit as nat));
                return ChunkSource::Memory(c);
            }
            i += 1;
        }
        proof {
            assert forall|j: int| 0 <= j < ids(self.memory_archives@).len() implies ids(
                self.memory_archives@,
            )[j] != id@ by {
                assert(self.memory_archives@[j].id@ != id@);
            }
        }
        if !valid_archive_id(id) {
            return ChunkSource::Invalid;
        }
        ChunkSource::Disk { file: id.to_owned(), lines: None, limit }
    }

    /// Where the line count of an archive is kept.
    pub fn line_count_path(&self, id: &str) -> (r: String)
        ensures
            r@ == (if id@ == LATEST_FILE@ { joined(self.directory@, LATEST_LINES_FILE@) } else {
                joined(self.directory@, id@ + ".lines"@)
            }),
    {
        if same(id, LATEST_FILE) {
            join(self.directory.as_str(), LATEST_LINES_FILE)
        } else {
            let name = cat2(id, ".lines");
            join(self.directory.as_str(), name.as_str())
        }
    }

    /// Which archives to delete: first those that are too large, then the oldest of the others as
    /// far as there are too many.
    pub fn prune_disk_archives(&self, files: &Vec<DiskFile>) -> (r: (Vec<String>, Vec<String>))
        ensures
            views(r.0@) == file_names(files@.filter(|f: DiskFile| archive_file(f) && f.bytes > self.max_bytes)),
            oldest_surplus(
                views(r.1@),
                file_names(files@.filter(|f: DiskFile| archive_file(f) && f.bytes <= self.max_bytes)),
                self.max_files as int,
            ),
            is_pruning(files@, self.max_bytes, self.max_files, views(r.0@), views(r.1@)),
    {
        let mut oversized: Vec<String> = Vec::new();
        let mut rest: Vec<String> = Vec::new();
        let max = self.max_bytes;
        let ghost big = |f: DiskFile| archive_file(f) && f.bytes > self.max_bytes;
        let ghost fit = |f: DiskFile| archive_file(f) && f.bytes <= self.max_bytes;
        let mut i: usize = 0;
        proof {
            lemma_filter_step(files@, 0, big);
            lemma_filter_step(files@, 0, fit);
            assert(views(oversized@) =~= file_names(files@.take(0).filter(big)));
            assert(views(rest@) =~= file_names(files@.take(0).filter(fit)));
        }
        while i < files.len()
            invariant
                i <= files@.len(),
                max == self.max_bytes,
                big == |f: DiskFile| archive_file(f) && f.bytes > self.max_bytes,
                fit == |f: DiskFile| archive_file(f) && f.bytes <= self.max_bytes,
                views(oversized@) == file_names(files@.take(i as int).filter(big)),
                views(rest@) == file_names(files@.take(i as int).filter(fit)),
            decreases files@.len() - i,
        {
            let file = &files[i];
            let ghost o = views(oversized@);
            let ghost s = views(rest@);
            proof {
                lemma_filter_step(files@, i as int, big);
                lemma_filter_step(files@, i as int, fit);
            }
            if is_archive_file(file) {
                if file.bytes > max {
                    oversized.push(file.name.clone());
                    assert(views(oversized@) =~= o.push(file.name@));
                } else {
                    rest.push(file.name.clone());
                    assert(views(rest@) =~= s.push(file.name@));
                }
            }
            assert(file_names(files@.take(i as int).filter(big).push(*file)) =~= o.push(file.name@));
            assert(file_names(files@.take(i as int).filter(fit).push(*file)) =~= s.push(file.name@));
            i += 1;
        }
        assert(files@.take(files@.len() as int) =~= files@);
        let ghost unsorted = views(rest@);
        sort_archives(&mut rest);
        let ghost sorted = views(rest@);
        let keep = self.max_files as usize;
        let surplus: usize = if rest.len() > keep { rest.len() - keep } else { 0 };
        rest.truncate(surplus);
        assert(views(rest@) =~= sorted.take(surplus as int));
        assert(ascending(sorted));
        (oversized, rest)
    }
}

/// The older archives come first.
pub open spec fn ascending(s: Seq<Seq<char>>) -> bool {
    forall|i: int, j: int| 0 <= i < j < s.len() ==> !goes_first(#[trigger] s[j], #[trigger] s[i])
}

/// `names` are the oldest ones of `all`, as many as there are beyond `max`.
pub open spec fn oldest_surplus(names: Seq<Seq<char>>, all: Seq<Seq<char>>, max: int) -> bool {
    exists|sorted: Seq<Seq<char>>|
        {
            &&& #[trigger] ascending(sorted)
            &&& sorted.to_multiset() == all.to_multiset()
            &&& names == sorted.take(if sorted.len() > max { sorted.len() - max } else { 0 })
        }
}

/// Which archives are deleted: those that are too large, and the oldest of the others as far as
/// there are too many.
pub open spec fn is_pruning(
    files: Seq<DiskFile>,
    max_bytes: u64,
    max_files: u32,
    oversized: Seq<Seq<char>>,
    surplus: Seq<Seq<char>>,
) -> bool {
    &&& oversized == file_names(files.filter(|f: DiskFile| archive_file(f) && f.bytes > max_bytes))
    &&& oldest_surplus(
        surplus,
        file_names(files.filter(|f: DiskFile| archive_file(f) && f.bytes <= max_bytes)),
        max_files as int,
    )
}

/// The first `n` items.
pub open spec fn first_n<T>(s: Seq<T>, n: int) -> Seq<T> {
    if s.len() > n { s.take(n) } else { s }
}

pub open spec fn newest_first(entry: MemoryLog, older: Seq<MemoryLog>) -> Seq<MemoryLog> {
    seq![entry] + older
}

/// What `begin_run` makes of the memory archives.
pub open spec fn archived(s: LogStore, now: Seq<char>, taken: Seq<Seq<char>>, after: Seq<MemoryLog>) -> bool {
    let before = s.memory_archives@;
    if s.current_started is Some && !s.current_persisted {
        let base = archive_base(s.current_started->0@, now);
        ||| exists|entry: MemoryLog|
            {
                &&& is_free_id(entry.id@, base, taken, ids(before))
                &&& entry.bytes@ == s.current@
                &&& after == first_n(#[trigger] newest_first(entry, before), MAX_ARCHIVED_LOGS as int)
            }
        ||| after == before && all_taken(base, taken, ids(before))
    } else {
        after == before
    }
}

/// What the archive of an earlier run is named after: the time kept beside it, where there is a
/// usable one.
pub open spec fn is_rotation_base(base: Seq<char>, sidecar: Option<&str>, fallback: Seq<char>) -> bool {
    match sidecar {
        Some(text) => {
            ||| is_trim_of(base, text@) && valid_stem(base)
            ||| base == fallback && forall|t: Seq<char>|
                #[trigger] is_trim_of(t, text@) ==> !valid_stem(t)
        },
        None => base == fallback,
    }
}

proof fn lemma_filter_step(s: Seq<DiskFile>, i: int, p: spec_fn(DiskFile) -> bool)
    requires
        0 <= i <= s.len(),
    ensures
        s.take(0).filter(p) == Seq::<DiskFile>::empty(),
        i < s.len() ==> s.take(i + 1).filter(p) == (if p(s[i]) {
            s.take(i).filter(p).push(s[i])
        } else {
            s.take(i).filter(p)
        }),
{
    reveal(Seq::filter);
    assert(s.take(0) =~= Seq::<DiskFile>::empty());
    if i < s.len() {
        assert(s.take(i + 1).drop_last() =~= s.take(i));
        assert(s.take(i + 1).last() == s[i]);
    }
}

pub open spec fn file_names(s: Seq<DiskFile>) -> Seq<Seq<char>> {
    Seq::new(s.len(), |i: int| s[i].name@)
}

/// A regular file that is named like an archive.
pub open spec fn archive_file(f: DiskFile) -> bool {
    f.regular && valid_id(f.name@)
}

pub fn is_archive_file(f: &DiskFile) -> (r: bool)
    ensures
        r == archive_file(*f),
{
    f.regular && valid_archive_id(f.name.as_str())
}

#[verifier::ext_equal]
pub struct RecordView {
    pub id: Seq<char>,
    pub bytes: u64,
    pub current: bool,
    pub persisted: bool,
}

pub open spec fn record_view(r: HistoryRecord) -> RecordView {
    RecordView { id: r.id@, bytes: r.bytes, current: r.current, persisted: r.persisted }
}

pub open spec fn record_views(s: Seq<HistoryRecord>) -> Seq<RecordView> {
    Seq::new(s.len(), |i: int| record_view(s[i]))
}

pub open spec fn memory_record(m: MemoryLog) -> RecordView {
    RecordView { id: m.id@, bytes: m.bytes@.len() as u64, current: false, persisted: false }
}

pub open spec fn memory_records(s: Seq<MemoryLog>) -> Seq<RecordView> {
    Seq::new(s.len(), |i: int| memory_record(s[i]))
}

pub open spec fn disk_record(f: DiskFile) -> RecordView {
    RecordView { id: f.name@, bytes: f.bytes, current: false, persisted: true }
}

pub open spec fn disk_records(s: Seq<DiskFile>) -> Seq<RecordView>
    decreases s.len(),
{
    if s.len() == 0 {
        Seq::empty()
    } else if archive_file(s.last()) {
        disk_records(s.drop_last()).push(disk_record(s.last()))
    } else {
        disk_records(s.drop_last())
    }
}

/// The same records, in whatever order.
pub open spec fn same_records(a: Seq<RecordView>, b: Seq<RecordView>) -> bool {
    a.to_multiset() == b.to_multiset()
}

/// `a` may stand before `b`.
pub open spec fn record_order(a: HistoryRecord, b: HistoryRecord) -> bool {
    if a.current != b.current { a.current } else { !text_lt(a.id@, b.id@) }
}

fn goes_before(a: &HistoryRecord, b: &HistoryRecord) -> (r: bool)
    ensures
        r == record_order(*a, *b),
{
    if a.current != b.current {
        a.current
    } else {
        !text_less(a.id.as_str(), b.id.as_str())
    }
}

proof fn lemma_order_total(a: HistoryRecord, b: HistoryRecord)
    ensures
        record_order(a, b) || record_order(b, a),
{
    if text_lt(a.id@, b.id@) && text_lt(b.id@, a.id@) {
        crate::text::lemma_text_lt_transitive(a.id@, b.id@, a.id@);
        crate::text::lemma_text_lt_irreflexive(a.id@);
    }
}

proof fn lemma_order_transitive(a: HistoryRecord, b: HistoryRecord, c: HistoryRecord)
    requires
        record_order(a, b),
        record_order(b, c),
    ensures
        record_order(a, c),
{
    if a.current == b.current && b.current == c.current && text_lt(a.id@, c.id@) {
        lemma_not_lt_transitive(a.id@, b.id@, c.id@);
    }
}

proof fn lemma_not_lt_transitive(a: Seq<char>, b: Seq<char>, c: Seq<char>)
    requires
        !text_lt(a, b),
        !text_lt(b, c),
    ensures
        !text_lt(a, c),
{
    if text_lt(a, c) {
        crate::text::lemma_text_lt_total(a, b);
        crate::text::lemma_text_lt_total(b, c);
        if a == b || b == c {
        } else {
            crate::text::lemma_text_lt_transitive(c, b, a);
            crate::text::lemma_text_lt_transitive(a, c, a);
            crate::text::lemma_text_lt_irreflexive(a);
        }
    }
}

proof fn lemma_insert_multiset<T>(s: Seq<T>, i: int, x: T)
    requires
        0 <= i <= s.len(),
    ensures
        s.insert(i, x).to_multiset() == s.to_multiset().insert(x),
        s.push(x).to_multiset() == s.to_multiset().insert(x),
{
    broadcast use vstd::seq_lib::group_to_multiset_ensures;

    let a = s.take(i);
    let b = s.skip(i);
    assert(s =~= a + b);
    assert(s.insert(i, x) =~= a.push(x) + b);
    vstd::seq_lib::lemma_multiset_commutative(a, b);
    vstd::seq_lib::lemma_multiset_commutative(a.push(x), b);
    assert(s.insert(i, x).to_multiset() =~= s.to_multiset().insert(x));
}

/// Puts records into their order, by inserting one after the other.
pub fn sort_records(v: &mut Vec<HistoryRecord>)
    ensures
        same_records(record_views(final(v)@), record_views(old(v)@)),
        forall|i: int, j: int|
            0 <= i < j < final(v)@.len() ==> record_order(#[trigger] final(v)@[i], #[trigger] final(v)@[j]),
{
    let ghost all = record_views(v@);
    let mut out: Vec<HistoryRecord> = Vec::new();
    proof {
        assert(record_views(out@) =~= Seq::<RecordView>::empty());
        assert(record_views(v@) + record_views(out@) =~= all);
    }
    let ghost mut rest = record_views(v@);
    while v.len() > 0
        invariant
            rest == record_views(v@),
            (rest + record_views(out@)).to_multiset() == all.to_multiset(),
            forall|i: int, j: int|
                0 <= i < j < out@.len() ==> record_order(#[trigger] out@[i], #[trigger] out@[j]),
        decreases v@.len(),
    {
        let ghost before_v = v@;
        let ghost before_out = out@;
        match v.pop() {
            None => {},
            Some(x) => {
                let mut at: usize = 0;
                while at < out.len() && goes_before(&out[at], &x)
                    invariant
                        at <= out@.len(),
                        out@ == before_out,
                        forall|i: int| 0 <= i < at ==> record_order(#[trigger] out@[i], x),
                    decreases out@.len() - at,
                {
                    at += 1;
                }
                out.insert(at, x);
                proof {
                    assert(out@ == before_out.insert(at as int, x));
                    assert forall|i: int, j: int| 0 <= i < j < out@.len() implies record_order(
                        #[trigger] out@[i],
                        #[trigger] out@[j],
                    ) by {
                        let oi = if i < at { i } else { i - 1 };
                        let oj = if j < at { j } else { j - 1 };
                        if i == at {
                            lemma_order_total(before_out[at as int], x);
                            if j > at + 1 {
                                assert(record_order(before_out[at as int], before_out[oj]));
                                lemma_order_transitive(x, before_out[at as int], before_out[oj]);
                            }
                        } else if j == at {
                            assert(out@[i] == before_out[i]);
                        } else {
                            assert(record_order(before_out[oi], before_out[oj]));
                        }
                    }
                    let xv = record_view(x);
                    let ov = record_views(before_out);
                    assert(record_views(out@) =~= ov.insert(at as int, xv));
                    lemma_insert_multiset(ov, at as int, xv);
                    let front = record_views(v@);
                    assert(rest =~= front.push(xv));
                    assert(rest + ov =~= front + (seq![xv] + ov));
                    assert((seq![xv] + ov) =~= ov.insert(0, xv));
                    lemma_insert_multiset(ov, 0, xv);
                    vstd::seq_lib::lemma_multiset_commutative(front, ov.insert(0, xv));
                    vstd::seq_lib::lemma_multiset_commutative(front, ov.insert(at as int, xv));
                    rest = front;
                    assert((rest + record_views(out@)).to_multiset() =~= all.to_multiset());
                }
            },
        }
    }
    proof {
        assert(rest + record_views(out@) =~= record_views(out@));
    }
    std::mem::swap(v, &mut out);
}

/// Puts the names of archives into the order of their age, the oldest first.
fn sort_archives(v: &mut Vec<String>)
    ensures
        views(final(v)@).to_multiset() == views(old(v)@).to_multiset(),
        forall|i: int, j: int|
            0 <= i < j < final(v)@.len() ==> !goes_first(
                #[trigger] views(final(v)@)[j],
                #[trigger] views(final(v)@)[i],
            ),
{
    let ghost all = views(v@);
    let mut out: Vec<String> = Vec::new();
    proof {
        assert(views(v@) + views(out@) =~= all);
    }
    let ghost mut rest = views(v@);
    while v.len() > 0
        invariant
            rest == views(v@),
            (rest + views(out@)).to_multiset() == all.to_multiset(),
            forall|i: int, j: int|
                0 <= i < j < out@.len() ==> !goes_first(
                    #[trigger] views(out@)[j],
                    #[trigger] views(out@)[i],
                ),
        decreases v@.len(),
    {
        let ghost before_out = views(out@);
        match v.pop() {
            None => {},
            Some(x) => {
                let mut at: usize = 0;
                let ghost xv = x@;
                while at < out.len() && !archive_goes_first(x.as_str(), out[at].as_str())
                    invariant
                        at <= out@.len(),
                        views(out@) == before_out,
                        forall|i: int| 0 <= i < at ==> !goes_first(x@, #[trigger] before_out[i]),
                    decreases out@.len() - at,
                {
                    assert(before_out[at as int] == out@[at as int]@);
                    at += 1;
                }
                proof {
                    if at < out@.len() {
                        assert(before_out[at as int] == out@[at as int]@);
                    }
                }
                out.insert(at, x);
                proof {
                    let now = views(out@);
                    assert(now =~= before_out.insert(at as int, xv));
                    assert forall|i: int, j: int| 0 <= i < j < out@.len() implies !goes_first(
                        #[trigger] now[j],
                        #[trigger] now[i],
                    ) by {
                        let oi = if i < at { i } else { i - 1 };
                        let oj = if j < at { j } else { j - 1 };
                        if i == at {
                            let b = before_out[at as int];
                            if goes_first(b, xv) {
                                lemma_goes_first_transitive(b, xv, b);
                                lemma_goes_first_irreflexive(b);
                            }
                            if j > at + 1 {
                                assert(!goes_first(before_out[oj], b));
                                lemma_not_first_transitive(before_out[oj], b, xv);
                            }
                        } else if j == at {
                            assert(now[i] == before_out[i]);
                        } else {
                            assert(!goes_first(before_out[oj], before_out[oi]));
                        }
                    }
                    lemma_insert_multiset(before_out, at as int, xv);
                    let front = views(v@);
                    assert(rest =~= front.push(xv));
                    assert(rest + before_out =~= front + (seq![xv] + before_out));
                    assert((seq![xv] + before_out) =~= before_out.insert(0, xv));
                    lemma_insert_multiset(before_out, 0, xv);
                    vstd::seq_lib::lemma_multiset_commutative(front, before_out.insert(0, xv));
                    vstd::seq_lib::lemma_multiset_commutative(front, now);
                    rest = front;
                    assert((rest + views(out@)).to_multiset() =~= all.to_multiset());
                }
            },
        }
    }
    proof {
        assert(rest + views(out@) =~= views(out@));
    }
    std::mem::swap(v, &mut out);
}

/// A request for a part asks for at least one byte and at most `DEFAULT_CHUNK_LIMIT`.
pub open spec fn chunk_limit(requested: u32) -> u32 {
    if requested < 1 {
        1
    } else if requested > DEFAULT_CHUNK_LIMIT {
        DEFAULT_CHUNK_LIMIT
    } else {
        requested
    }
}

/// `c` is the part of `bytes` from `offset` on, `limit` bytes long where there are as many.
pub open spec fn is_chunk(c: LogChunk, bytes: Seq<u8>, offset: u64, limit: nat) -> bool {
    let total = bytes.len();
    &&& c.total == total
    &&& c.total_lines == counted(count_bytes(empty_counter(), bytes))
    &&& if offset >= total {
        c.next_offset == total && c.eof && c.content@ == Seq::<char>::empty()
    } else {
        let end = if offset + limit > total { total as int } else { offset + limit };
        &&& c.next_offset == end
        &&& c.eof == (end >= total)
        &&& c.content@ == lossy_text(clean_from(bytes.subrange(offset as int, end), 0))
    }
}

pub fn memory_chunk(bytes: &Vec<u8>, offset: u64, limit: usize) -> (r: LogChunk)
    ensures
        is_chunk(r, bytes@, offset, limit as nat),
{
    let total_lines = logical_line_count(bytes.as_slice());
    let total: u64 = bytes.len() as u64;
    if offset >= total {
        return LogChunk {
            next_offset: total,
            total,
            total_lines,
            eof: true,
            content: String::new(),
        };
    }
    let start: usize = offset as usize;
    let left: usize = bytes.len() - start;
    let length: usize = if left < limit { left } else { limit };
    let end: usize = start + length;
    let mut raw: Vec<u8> = Vec::new();
    let mut i: usize = 0;
    while i < length
        invariant
            start + length == end,
            end <= bytes@.len(),
            i <= length,
            raw@ == bytes@.subrange(start as int, start + i),
        decreases length - i,
    {
        raw.push(bytes[start + i]);
        i += 1;
        assert(raw@ =~= bytes@.subrange(start as int, start + i));
    }
    let next_offset: u64 = offset + length as u64;
    LogChunk {
        next_offset,
        total,
        total_lines,
        eof: next_offset >= total,
        content: sanitize_log(raw.as_slice()),
    }
}

/// How many bytes of a file of `total` bytes to read from `offset` on.
pub fn read_length(total: u64, offset: u64, limit: u32) -> (r: u64)
    ensures
        r == (if offset >= total {
            0
        } else if total - offset < limit {
            total - offset
        } else {
            limit as int
        }),
{
    if offset >= total {
        0
    } else if total - offset < limit as u64 {
        total - offset
    } else {
        limit as u64
    }
}

/// The part of a file of `total` bytes of which `raw` was read at `offset`.
pub fn disk_chunk(total: u64, offset: u64, raw: &Vec<u8>, total_lines: u64) -> (r: LogChunk)
    ensures
        r.total == total,
        r.total_lines == total_lines,
        offset >= total ==> r.next_offset == total && r.eof && r.content@ == Seq::<char>::empty(),
        offset < total ==> {
            &&& r.next_offset == (if offset + raw@.len() > u64::MAX {
                u64::MAX as int
            } else {
                offset + raw@.len()
            })
            &&& r.eof == (r.next_offset >= total)
            &&& r.content@ == lossy_text(clean_from(raw@, 0))
        },
{
    if offset >= total {
        return LogChunk {
            next_offset: total,
            total,
            total_lines,
            eof: true,
            content: String::new(),
        };
    }
    let next_offset: u64 = offset.saturating_add(raw.len() as u64);
    LogChunk {
        next_offset,
        total,
        total_lines,
        eof: next_offset >= total,
        content: sanitize_log(raw.as_slice()),
    }
}

/// The line count that a file beside an archive holds, where it holds one.
pub fn sidecar_count(text: &str) -> (r: Option<u64>)
    ensures
        forall|t: Seq<char>| #[trigger] is_trim_of(t, text@) ==> match r {
            Some(n) => parsed_number(t, u64::MAX as nat) == Some(n as nat),
            None => parsed_number(t, u64::MAX as nat) is None,
        },
{
    let t = trim(text);
    proof {
        assert forall|u: Seq<char>| #[trigger] is_trim_of(u, text@) implies u == t@ by {
            crate::text::lemma_trim_unique(u, t@, text@);
        }
    }
    parse_number(t.as_str(), u64::MAX)
}

/// Reading part after part, each from where the one before it ended, comes to the end: a part
/// that is not the last one makes progress.
pub proof fn law_reading_makes_progress(c: LogChunk, bytes: Seq<u8>, offset: u64, limit: nat)
    requires
        limit > 0,
        is_chunk(c, bytes, offset, limit),
        !c.eof,
    ensures
        offset < c.next_offset <= c.total,
{
}

/// What is kept in memory of all output is its newest part, however the output was cut.
pub proof fn law_memory_is_the_newest_output(kept: Seq<u8>, a: Seq<u8>, b: Seq<u8>)
    ensures
        last_n(last_n(kept + a, MEMORY_LOG_LIMIT as int) + b, MEMORY_LOG_LIMIT as int) == last_n(
            kept + (a + b),
            MEMORY_LOG_LIMIT as int,
        ),
{
    assert(last_n(last_n(kept + a, MEMORY_LOG_LIMIT as int) + b, MEMORY_LOG_LIMIT as int) =~= last_n(
        kept + (a + b),
        MEMORY_LOG_LIMIT as int,
    ));
}

/// No two archives in memory have the same name.
pub open spec fn distinct_ids(archives: Seq<MemoryLog>) -> bool {
    forall|i: int, j: int|
        0 <= i < j < archives.len() ==> (#[trigger] archives[i]).id@ != (#[trigger] archives[j]).id@
}

/// A run that was kept in memory can be read once the next one has begun: it is the newest
/// archive, under a name of its own, and those before it stay as they were.
pub proof fn law_finished_runs_stay_readable(s: LogStore, now: Seq<char>, taken: Seq<Seq<char>>, after: Seq<MemoryLog>)
    requires
        s.current_started is Some && !s.current_persisted,
        distinct_ids(s.memory_archives@),
        archived(s, now, taken, after),
        !all_taken(archive_base(s.current_started->0@, now), taken, ids(s.memory_archives@)),
    ensures
        after.len() > 0,
        after[0].bytes@ == s.current@,
        forall|i: int| 0 < i < after.len() ==> #[trigger] after[i] == s.memory_archives@[i - 1],
        distinct_ids(after),
{
    let before = s.memory_archives@;
    let base = archive_base(s.current_started->0@, now);
    let entry = choose|entry: MemoryLog|
        {
            &&& is_free_id(entry.id@, base, taken, ids(before))
            &&& entry.bytes@ == s.current@
            &&& after == first_n(#[trigger] newest_first(entry, before), MAX_ARCHIVED_LOGS as int)
        };
    assert(newest_first(entry, before)[0] == entry);
    assert forall|i: int, j: int| 0 <= i < j < after.len() implies (#[trigger] after[i]).id@ != (
    #[trigger] after[j]).id@ by {
        assert(after[j] == before[j - 1]);
        assert(ids(before)[j - 1] == before[j - 1].id@);
        if i > 0 {
            assert(after[i] == before[i - 1]);
        }
    }
}

proof fn lemma_filter_len_by_multiset(a: Seq<RecordView>, b: Seq<RecordView>, p: spec_fn(RecordView) -> bool)
    requires
        a.to_multiset() == b.to_multiset(),
    ensures
        a.filter(p).len() == b.filter(p).len(),
    decreases a.len(),
{
    broadcast use vstd::seq_lib::group_to_multiset_ensures;

    reveal(Seq::filter);
    a.to_multiset_ensures();
    b.to_multiset_ensures();
    if a.len() > 0 {
        let x = a.last();
        let front = a.drop_last();
        assert(a =~= front.push(x));
        lemma_insert_multiset(front, 0, x);
        assert(a.to_multiset().count(x) > 0);
        assert(b.contains(x)) by {
            if !b.contains(x) {
                assert(b.to_multiset().count(x) == 0);
            }
        }
        let i = b.index_of(x);
        let rest = b.remove(i);
        assert(b =~= rest.insert(i, x));
        lemma_insert_multiset(rest, i, x);
        assert(front.to_multiset() =~= a.to_multiset().remove(x));
        assert(rest.to_multiset() =~= b.to_multiset().remove(x));
        lemma_filter_len_by_multiset(front, rest, p);
        let left = b.take(i);
        let right = b.skip(i + 1);
        assert(b =~= (left + seq![x]) + right);
        assert(rest =~= left + right);
        Seq::filter_distributes_over_add(left + seq![x], right, p);
        Seq::filter_distributes_over_add(left, seq![x], p);
        Seq::filter_distributes_over_add(left, right, p);
        Seq::filter_distributes_over_add(front, seq![x], p);
        assert(a =~= front + seq![x]);
    }
}

proof fn lemma_filter_all_out(s: Seq<RecordView>, p: spec_fn(RecordView) -> bool)
    requires
        forall|i: int| 0 <= i < s.len() ==> !p(#[trigger] s[i]),
    ensures
        s.filter(p).len() == 0,
    decreases s.len(),
{
    reveal(Seq::filter);
    if s.len() > 0 {
        assert(!p(s[s.len() - 1]));
        assert forall|i: int| 0 <= i < s.drop_last().len() implies !p(#[trigger] s.drop_last()[i]) by {
            assert(s.drop_last()[i] == s[i]);
        }
        lemma_filter_all_out(s.drop_last(), p);
    }
}

proof fn lemma_disk_records(files: Seq<DiskFile>)
    ensures
        forall|i: int|
            0 <= i < disk_records(files).len() ==> {
                let v = #[trigger] disk_records(files)[i];
                !v.current && v.persisted && valid_id(v.id)
            },
    decreases files.len(),
{
    if files.len() > 0 {
        lemma_disk_records(files.drop_last());
        let front = disk_records(files.drop_last());
        assert forall|i: int| 0 <= i < disk_records(files).len() implies {
            let v = #[trigger] disk_records(files)[i];
            !v.current && v.persisted && valid_id(v.id)
        } by {
            if i < front.len() {
                assert(disk_records(files)[i] == front[i]);
            }
        }
    }
}

/// Of the records of any store, one is the current one exactly where a run has begun: it comes
/// first, is called `latest` and is the only one of its kind. The others follow by descending
/// name, none of them under the name of the current run's file. Those kept in memory are no more
/// than the limit, and none of them is larger than what is kept of a run.
pub proof fn law_records_are_in_order(s: LogStore, files: Seq<DiskFile>, r: Seq<HistoryRecord>)
    requires
        bounded(s),
        same_records(record_views(r), s.spec_records(files)),
        forall|i: int, j: int| 0 <= i < j < r.len() ==> record_order(#[trigger] r[i], #[trigger] r[j]),
    ensures
        (r.len() > 0 && r[0].current) == (s.current_started is Some),
        forall|i: int| 0 <= i < r.len() && (#[trigger] r[i]).current ==> i == 0 && r[i].id@ == "latest"@,
        forall|i: int, j: int|
            0 <= i < j < r.len() && !(#[trigger] r[i]).current ==> !text_lt(r[i].id@, (#[trigger] r[j]).id@),
        forall|i: int| 0 <= i < r.len() && !(#[trigger] r[i]).current ==> r[i].id@ != LATEST_FILE@,
        record_views(r).filter(|v: RecordView| !v.current && !v.persisted).len() <= MAX_ARCHIVED_LOGS,
        forall|i: int|
            0 <= i < r.len() && !(#[trigger] r[i]).current && !r[i].persisted ==> r[i].bytes
                <= MEMORY_LOG_LIMIT,
{
    let views = record_views(r);
    let first = s.current_record();
    let memory = memory_records(s.memory_archives@);
    let disk = disk_records(files);
    let all = s.spec_records(files);
    let is_current = |v: RecordView| v.current;
    let in_memory = |v: RecordView| !v.current && !v.persisted;
    lemma_disk_records(files);
    lemma_latest_is_no_archive();
    views.to_multiset_ensures();
    all.to_multiset_ensures();
    // How many there are of a kind.
    lemma_filter_len_by_multiset(views, all, is_current);
    lemma_filter_len_by_multiset(views, all, in_memory);
    Seq::filter_distributes_over_add(first + memory, disk, is_current);
    Seq::filter_distributes_over_add(first, memory, is_current);
    Seq::filter_distributes_over_add(first + memory, disk, in_memory);
    Seq::filter_distributes_over_add(first, memory, in_memory);
    lemma_filter_all_out(memory, is_current);
    lemma_filter_all_out(disk, is_current);
    lemma_filter_all_out(first, in_memory);
    lemma_filter_all_out(disk, in_memory);
    first.lemma_filter_len(is_current);
    memory.lemma_filter_len(in_memory);
    // Each record is one of those that there are.
    assert forall|i: int| 0 <= i < r.len() implies all.contains(#[trigger] views[i]) by {
        assert(views.contains(views[i]));
        assert(views.to_multiset().count(views[i]) > 0);
    }
    assert forall|i: int| 0 <= i < r.len() implies {
        let v = #[trigger] views[i];
        ||| first.len() == 1 && v == first[0]
        ||| !v.current && v.id != LATEST_FILE@ && (v.persisted || v.bytes <= MEMORY_LOG_LIMIT)
    } by {
        let k = all.index_of(views[i]);
        if k < first.len() {
            assert(all[k] == first[k]);
        } else if k < first.len() + memory.len() {
            let m = s.memory_archives@[k - first.len()];
            assert(all[k] == memory[k - first.len()]);
            assert(m.id@ != LATEST_FILE@);
        } else {
            assert(all[k] == disk[k - first.len() - memory.len()]);
        }
    }
    // The current one.
    if r.len() > 0 {
        assert(views[0] == record_view(r[0]));
    }
    if s.current_started is Some {
        assert(all[0] == first[0]);
        assert(all.contains(first[0]));
        assert(all.to_multiset().count(first[0]) > 0);
        assert(views.contains(first[0]));
        let i = views.index_of(first[0]);
        assert(r[i].current);
        if i > 0 {
            assert(record_order(r[0], r[i]));
        }
    }
    assert forall|i: int| 0 <= i < r.len() && (#[trigger] r[i]).current implies i == 0 && r[i].id@ == "latest"@ by {
        assert(views[i] == record_view(r[i]));
        if i > 0 {
            assert(record_order(r[0], r[i]));
            assert(r[0].current);
            assert(views[0] == record_view(r[0]));
            let a = views.take(i);
            let b = views.skip(i);
            assert(views =~= a + b);
            Seq::filter_distributes_over_add(a, b, is_current);
            assert(a[0] == views[0]);
            assert(b[0] == views[i]);
            a.lemma_filter_contains(is_current, 0);
            b.lemma_filter_contains(is_current, 0);
            assert(a.filter(is_current).len() > 0);
            assert(b.filter(is_current).len() > 0);
        }
    }
    assert forall|i: int| 0 <= i < r.len() && !(#[trigger] r[i]).current implies r[i].id@ != LATEST_FILE@ by {
        assert(views[i] == record_view(r[i]));
    }
    assert forall|i: int| 0 <= i < r.len() && !(#[trigger] r[i]).current && !r[i].persisted implies r[i].bytes
        <= MEMORY_LOG_LIMIT by {
        assert(views[i] == record_view(r[i]));
    }
}

/// Once the surplus is deleted there are no more archives than the limit, and no archive that is
/// kept is older, as the names tell it, than one that was deleted.
pub proof fn law_old_archives_go_first(names: Seq<Seq<char>>, all: Seq<Seq<char>>, max: int)
    requires
        max >= 0,
        oldest_surplus(names, all, max),
    ensures
        all.len() - names.len() <= max,
        exists|kept: Seq<Seq<char>>|
            {
                &&& all.to_multiset() == #[trigger] (names + kept).to_multiset()
                &&& forall|i: int, j: int|
                    0 <= i < names.len() && 0 <= j < kept.len() ==> !older(
                        #[trigger] kept[j],
                        #[trigger] names[i],
                    )
            },
{
    let sorted = choose|sorted: Seq<Seq<char>>|
        {
            &&& #[trigger] ascending(sorted)
            &&& sorted.to_multiset() == all.to_multiset()
            &&& names == sorted.take(if sorted.len() > max { sorted.len() - max } else { 0 })
        };
    sorted.to_multiset_ensures();
    all.to_multiset_ensures();
    assert(sorted.len() == all.len());
    let kept = sorted.skip(names.len() as int);
    assert(names + kept =~= sorted);
    assert forall|i: int, j: int| 0 <= i < names.len() && 0 <= j < kept.len() implies !older(
        #[trigger] kept[j],
        #[trigger] names[i],
    ) by {
        assert(kept[j] == sorted[names.len() + j]);
        assert(names[i] == sorted[i]);
    }
}

/// No more are deleted than there are beyond the limit.
pub proof fn law_surplus_is_beyond_the_limit(names: Seq<Seq<char>>, all: Seq<Seq<char>>, max: int)
    requires
        max >= 0,
        oldest_surplus(names, all, max),
    ensures
        names.len() == if all.len() > max {
            all.len() - max
        } else {
            0
        },
{
    let sorted = choose|sorted: Seq<Seq<char>>|
        {
            &&& #[trigger] ascending(sorted)
            &&& sorted.to_multiset() == all.to_multiset()
            &&& names == sorted.take(if sorted.len() > max { sorted.len() - max } else { 0 })
        };
    sorted.to_multiset_ensures();
    all.to_multiset_ensures();
}

} // verus!
