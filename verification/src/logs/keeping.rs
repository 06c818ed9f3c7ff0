//! What is kept of the output of a service, and what can be read of it.
use crate::logs::display::{clean_from, count_bytes, counted, empty_counter, lossy_text};
use crate::logs::store::{
    archive_base, archive_candidate, archive_file, bounded, chosen_id, chunk_limit, file_names, ids, is_chunk, is_pruning, is_rotation_base,
    is_source, next_step, valid_stem, with_fresh_segment, with_written, AppendStep, ChunkSource, DiskFile, LogChunk, LogStore, RecordView,
};
use crate::text::{is_trim_of, lemma_trim_unique};
use vstd::prelude::*;

verus! {

/// Output goes to disk as long as a segment is open, and a segment never grows beyond the limit:
/// what fits is written, what does not waits for a fresh segment, and no room is left unused
/// before that.
pub proof fn law_segments_stay_within_the_limit(s: LogStore, bytes: Seq<u8>)
    requires
        bounded(s),
        bytes.len() <= usize::MAX,
    ensures
        ({
            let step = next_step(s, bytes.len());
            &&& step is Done <==> bytes.len() == 0 || !s.segment_open
            &&& step matches AppendStep::Write(n) ==> {
                let after = with_written(s, bytes.take(n as int));
                &&& 0 < n <= bytes.len()
                &&& after.disk_bytes == s.disk_bytes + n
                &&& after.disk_bytes <= s.max_bytes
                &&& n < bytes.len() ==> next_step(after, (bytes.len() - n) as nat) is Rotate
                &&& n == bytes.len() ==> next_step(after, 0) is Done
            }
            &&& step is Rotate ==> s.disk_bytes >= s.max_bytes
        }),
{
}

/// A fresh segment has room: where output is left, some of it is written next, and none of what
/// the run has in memory is lost by it.
pub proof fn law_rotating_makes_room(s: LogStore, remaining: nat)
    requires
        bounded(s),
        0 < remaining <= usize::MAX,
    ensures
        next_step(with_fresh_segment(s), remaining) is Write,
        with_fresh_segment(s).disk_bytes == 0,
        counted(with_fresh_segment(s).line_counter) == 0,
        with_fresh_segment(s).current == s.current,
        with_fresh_segment(s).memory_archives == s.memory_archives,
        with_fresh_segment(s).current_started == s.current_started,
        with_fresh_segment(s).current_persisted == s.current_persisted,
{
}

/// It makes no difference in how many pieces output is written to a segment.
pub proof fn law_writing_in_pieces(s: LogStore, a: Seq<u8>, b: Seq<u8>)
    requires
        s.disk_bytes + a.len() + b.len() <= u64::MAX,
    ensures
        with_written(with_written(s, a), b) == with_written(s, a + b),
        with_written(s, a).disk_bytes == s.disk_bytes + a.len(),
        with_written(s, a).current == s.current,
{
    if s.current_persisted {
        crate::logs::display::law_counting_in_pieces(s.line_counter, a, b);
    }
}

/// The lines of a segment are those of what was written to it since it was opened.
pub proof fn law_segments_count_their_lines(s: LogStore, bytes: Seq<u8>)
    requires
        s.current_persisted,
        bytes.len() <= u64::MAX,
    ensures
        ({
            let after = with_written(with_fresh_segment(s), bytes);
            after.disk_bytes == bytes.len() && counted(after.line_counter) == counted(
                count_bytes(empty_counter(), bytes),
            )
        }),
{
}

/// A part of a run begins where it was asked to, shows all bytes up to where the next part begins
/// and no others, and is the last one exactly where none are left. It is as long as was asked for
/// unless the run ends before.
pub proof fn law_parts_leave_no_gap(c: LogChunk, bytes: Seq<u8>, offset: u64, limit: nat)
    requires
        is_chunk(c, bytes, offset, limit),
        offset <= bytes.len(),
    ensures
        offset <= c.next_offset <= bytes.len(),
        c.next_offset - offset <= limit,
        c.eof <==> c.next_offset == bytes.len(),
        !c.eof ==> c.next_offset == offset + limit,
        c.total == bytes.len(),
        bytes.take(offset as int) + bytes.subrange(offset as int, c.next_offset as int) == bytes.take(
            c.next_offset as int,
        ),
        offset < bytes.len() ==> c.content@ == lossy_text(
            clean_from(bytes.subrange(offset as int, c.next_offset as int), 0),
        ),
{
    assert(bytes.take(offset as int) + bytes.subrange(offset as int, c.next_offset as int) =~= bytes.take(
        c.next_offset as int,
    ));
}

/// Whatever is asked for, a part holds at least one byte where one is left, and never more than
/// fits into an answer.
pub proof fn law_parts_are_of_use(requested: u32)
    ensures
        1 <= chunk_limit(requested) <= 49_152,
        1 <= requested <= 49_152 ==> chunk_limit(requested) == requested,
        requested > 49_152 ==> chunk_limit(requested) == 49_152,
{
}

/// What is listed can be read: a run that the listing gives with its size, and as kept in memory,
/// is read from memory, and is as large as listed.
pub proof fn law_what_is_listed_can_be_read(
    s: LogStore,
    record: RecordView,
    i: int,
    offset: u64,
    requested: u32,
    r: ChunkSource,
)
    requires
        bounded(s),
        is_source(s, record.id, offset, requested, r),
        s.current_record().contains(record) && !record.persisted || {
            &&& 0 <= i < s.memory_archives@.len()
            &&& record == crate::logs::store::memory_record(s.memory_archives@[i])
            &&& record.id != "latest"@
            &&& crate::logs::store::distinct_ids(s.memory_archives@)
        },
    ensures
        r matches ChunkSource::Memory(c) && c.total == record.bytes,
{
    if s.current_record().contains(record) && !record.persisted {
        assert(s.current_record()[0] == record);
    } else {
        let m = s.memory_archives@;
        assert(ids(m)[i] == record.id);
        let k = choose|k: int|
            {
                &&& 0 <= k < m.len()
                &&& (#[trigger] m[k]).id@ == record.id
                &&& forall|j: int| 0 <= j < k ==> (#[trigger] m[j]).id@ != record.id
                &&& is_chunk(r->Memory_0, m[k].bytes@, offset, chunk_limit(requested) as nat)
            };
        if k != i {
            if k < i {
                assert(m[k].id@ != m[i].id@);
            } else {
                assert(m[i].id@ != m[k].id@);
            }
        }
    }
}

/// A run that is kept on disk is read from its own file: the current one from `latest.log`, with
/// the lines counted so far, every other one from the file that it is named after. Nothing else
/// is read.
pub proof fn law_files_are_read_by_name(s: LogStore, id: Seq<char>, offset: u64, requested: u32, r: ChunkSource)
    requires
        is_source(s, id, offset, requested, r),
    ensures
        r matches ChunkSource::Disk { file, lines, limit } ==> {
            &&& id == "latest"@ ==> file@ == "latest.log"@ && lines == Some(counted(s.line_counter))
            &&& id != "latest"@ ==> file@ == id && crate::logs::store::valid_id(id) && lines is None
            &&& 1 <= limit <= 49_152
        },
        s.current_persisted && id == "latest"@ ==> r is Disk,
        r is Invalid ==> id != "latest"@ && !ids(s.memory_archives@).contains(id),
{
}

proof fn lemma_filtered(s: Seq<DiskFile>, p: spec_fn(DiskFile) -> bool)
    ensures
        forall|i: int|
            0 <= i < s.filter(p).len() ==> p(#[trigger] s.filter(p)[i]) && exists|j: int|
                0 <= j < s.len() && s.filter(p)[i] == #[trigger] s[j],
        forall|j: int| 0 <= j < s.len() && p(#[trigger] s[j]) ==> s.filter(p).contains(s[j]),
    decreases s.len(),
{
    reveal(Seq::filter);
    if s.len() > 0 {
        let front = s.drop_last();
        lemma_filtered(front, p);
        let all = s.filter(p);
        let before = front.filter(p);
        assert forall|i: int| 0 <= i < all.len() implies p(#[trigger] all[i]) && exists|j: int|
            0 <= j < s.len() && all[i] == #[trigger] s[j] by {
            if i < before.len() {
                assert(all[i] == before[i]);
                assert(p(before[i]));
                let j = choose|j: int| 0 <= j < front.len() && before[i] == #[trigger] front[j];
                assert(all[i] == s[j]);
            } else {
                assert(all[i] == s[s.len() - 1]);
            }
        }
        assert forall|j: int| 0 <= j < s.len() && p(#[trigger] s[j]) implies all.contains(s[j]) by {
            if j < front.len() {
                assert(front[j] == s[j]);
                assert(before.contains(front[j]));
                let i = before.index_of(front[j]);
                assert(all[i] == s[j]);
            } else {
                assert(all.last() == s[j]);
            }
        }
    }
}

/// What is deleted is an archive: never the file of the current run, and never a file that is not
/// an archive. One that is larger than the limit is always deleted, and where all are within the
/// limits nothing is.
pub proof fn law_only_archives_are_deleted(
    files: Seq<DiskFile>,
    max_bytes: u64,
    max_files: u32,
    oversized: Seq<Seq<char>>,
    surplus: Seq<Seq<char>>,
    i: int,
)
    requires
        is_pruning(files, max_bytes, max_files, oversized, surplus),
    ensures
        forall|k: int|
            0 <= k < oversized.len() ==> exists|j: int|
                0 <= j < files.len() && (#[trigger] files[j]).name@ == #[trigger] oversized[k] && files[j].regular
                    && files[j].bytes > max_bytes && crate::logs::store::valid_id(files[j].name@),
        0 <= i < files.len() && files[i].regular && crate::logs::store::valid_id(files[i].name@) && files[i].bytes
            > max_bytes ==> oversized.contains(files[i].name@),
        (forall|j: int| 0 <= j < files.len() && archive_file(#[trigger] files[j]) ==> files[j].bytes <= max_bytes)
            ==> oversized.len() == 0,
        files.len() <= max_files ==> surplus.len() == 0,
{
    let big = |f: DiskFile| archive_file(f) && f.bytes > max_bytes;
    let fit = |f: DiskFile| archive_file(f) && f.bytes <= max_bytes;
    lemma_filtered(files, big);
    let names = file_names(files.filter(big));
    assert forall|k: int| 0 <= k < oversized.len() implies exists|j: int|
        0 <= j < files.len() && (#[trigger] files[j]).name@ == #[trigger] oversized[k] && files[j].regular
            && files[j].bytes > max_bytes && crate::logs::store::valid_id(files[j].name@) by {
        let f = files.filter(big)[k];
        assert(big(f));
        let j = choose|j: int| 0 <= j < files.len() && f == #[trigger] files[j];
        assert(files[j].name@ == oversized[k]);
    }
    if 0 <= i < files.len() && files[i].regular && crate::logs::store::valid_id(files[i].name@) && files[i].bytes
        > max_bytes {
        assert(big(files[i]));
        let k = files.filter(big).index_of(files[i]);
        assert(names[k] == files[i].name@);
    }
    if oversized.len() > 0 {
        let f = files.filter(big)[0];
        assert(big(f));
        let j = choose|j: int| 0 <= j < files.len() && f == #[trigger] files[j];
        assert(archive_file(files[j]) && files[j].bytes > max_bytes);
    }
    if files.len() <= max_files {
        files.lemma_filter_len(fit);
        crate::logs::store::law_surplus_is_beyond_the_limit(surplus, file_names(files.filter(fit)), max_files as int);
    }
}

/// An archive gets a name that nothing else has: no file of the directory, and no run in memory.
/// It is named after its run, with a number only where the plain name is taken.
pub proof fn law_archives_overwrite_nothing(
    r: Option<String>,
    base: Seq<char>,
    taken: Seq<Seq<char>>,
    kept: Seq<Seq<char>>,
)
    requires
        chosen_id(r, base, taken, kept),
    ensures
        r matches Some(id) ==> !taken.contains(id@) && !kept.contains(id@),
        r matches Some(id) ==> id@.len() >= base.len() + 4 && id@.take(base.len() as int) == base && id@.skip(
            id@.len() - 4,
        ) == ".log"@,
        !taken.contains(base + ".log"@) && !kept.contains(base + ".log"@) ==> (r matches Some(id) && id@
            == base + ".log"@),
{
    reveal_strlit(".log");
    reveal_strlit("-");
    assert(archive_candidate(base, 0) == base + ".log"@);
    if r is Some {
        let id = r->0@;
        let k = choose|k: nat|
            {
                &&& id == #[trigger] archive_candidate(base, k)
                &&& !taken.contains(id) && !kept.contains(id)
                &&& forall|j: nat|
                    j < k ==> taken.contains(#[trigger] archive_candidate(base, j)) || kept.contains(
                        archive_candidate(base, j),
                    )
            };
        assert(id.take(base.len() as int) =~= base);
        assert(id.skip(id.len() - 4) =~= ".log"@);
    }
}

/// An archive is named after the time at which its run began, where that is known and can be part
/// of a name.
pub proof fn law_archives_are_named_after_their_run(
    base: Seq<char>,
    sidecar: Option<&str>,
    fallback: Seq<char>,
    started: Seq<char>,
    now: Seq<char>,
)
    requires
        is_rotation_base(base, sidecar, fallback),
    ensures
        sidecar is None ==> base == fallback,
        (sidecar matches Some(t) && is_trim_of(started, t@)) && valid_stem(started) ==> base == started,
        (sidecar matches Some(t) && is_trim_of(started, t@)) && !valid_stem(started) ==> base == fallback || valid_stem(
            base,
        ),
        valid_stem(started) ==> archive_base(started, now) == started,
        !valid_stem(started) ==> archive_base(started, now) == now,
{
    if sidecar is Some && is_trim_of(started, sidecar->0@) && valid_stem(started) {
        if is_trim_of(base, sidecar->0@) {
            lemma_trim_unique(base, started, sidecar->0@);
        }
    }
}

} // verus!
