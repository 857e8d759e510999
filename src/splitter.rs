//! Splits a job's newline-delimited text input into byte-range chunks, one map
//! task per chunk, and a job's declared outputs into reduce tasks.
//!
//! A chunk starts where the previous one ended and takes whole lines for as
//! long as it stays within the chunk size. A line longer than the chunk size
//! forms a chunk of its own, so lines are never split and chunks are never
//! empty.
use vstd::prelude::*;
use crate::types::{InputChunk, InputDataKind, Job, Task, TaskStatus, TaskType};
use crate::ids::{fresh_id, now_secs};

verus! {

/// Why a job could not be split.
#[derive(Clone, Copy, Debug, PartialEq, Eq, Structural)]
pub enum SplitterErrorKind {
    FileOpenFailed,
    FileReadFailed,
    GenericIOError,
    InputDirectoryOpenFailed,
    InvalidInputDataKind,
    OutputDirectoryOpenFailed,
}

/// A failed split, tagged with what failed.
#[derive(Clone, Copy, Debug, PartialEq, Eq, Structural)]
pub struct SplitterError {
    pub kind: SplitterErrorKind,
}

impl SplitterError {
    pub fn kind(&self) -> (r: SplitterErrorKind)
        ensures
            r == self.kind,
    {
        self.kind
    }
}

/// One regular file of a job's input directory, as read from disk.
#[derive(Clone, Debug)]
pub struct InputFile {
    pub path: String,
    pub content: Vec<u8>,
}

/// The splitter of newline-delimited text input.
pub struct LineSplitter;

/// The byte that ends a line.
pub const NEWLINE: u8 = 10;

/// One past the end of the line that starts at `i`: one past the first newline
/// at or after `i`, or the end of `s`.
pub open spec fn line_end(s: Seq<u8>, i: int) -> int
    decreases s.len() - i,
{
    if i < 0 || i >= s.len() {
        s.len() as int
    } else if s[i] == NEWLINE {
        i + 1
    } else {
        line_end(s, i + 1)
    }
}

/// The end of a chunk that starts at `start` and so far ends at `e`, after
/// taking as many further whole lines as keep it within `size` bytes.
pub open spec fn extend_chunk(s: Seq<u8>, start: int, e: int, size: int) -> int
    decreases s.len() - e,
{
    if e < 0 || e >= s.len() || line_end(s, e) <= e || line_end(s, e) > s.len() {
        e
    } else if line_end(s, e) - start <= size {
        extend_chunk(s, start, line_end(s, e), size)
    } else {
        e
    }
}

/// The end of the chunk that starts at `start`: its first line, whatever its
/// length, and then whole lines while the chunk fits in `size` bytes.
pub open spec fn chunk_end(s: Seq<u8>, start: int, size: int) -> int {
    extend_chunk(s, start, line_end(s, start), size)
}

/// The byte ranges `[start, end)` of the chunks of `s` from `start` on.
pub open spec fn chunk_ranges(s: Seq<u8>, start: int, size: int) -> Seq<(int, int)>
    decreases s.len() - start,
{
    if start < 0 || start >= s.len() || chunk_end(s, start, size) <= start || chunk_end(
        s,
        start,
        size,
    ) > s.len() {
        seq![]
    } else {
        seq![(start, chunk_end(s, start, size))] + chunk_ranges(s, chunk_end(s, start, size), size)
    }
}

/// The chunks of a whole file.
pub open spec fn file_ranges(s: Seq<u8>, size: int) -> Seq<(int, int)> {
    chunk_ranges(s, 0, size)
}

/// A position where a chunk may end: the end of the file or just past a newline.
pub open spec fn is_line_boundary(s: Seq<u8>, e: int) -> bool {
    e == s.len() || (0 < e <= s.len() && s[e - 1] == NEWLINE)
}

proof fn lemma_line_end(s: Seq<u8>, i: int)
    requires
        0 <= i < s.len(),
    ensures
        i < line_end(s, i) <= s.len(),
        is_line_boundary(s, line_end(s, i)),
        forall|k: int| i <= k < line_end(s, i) - 1 ==> s[k] != NEWLINE,
    decreases s.len() - i,
{
    if s[i] != NEWLINE {
        if i + 1 < s.len() {
            lemma_line_end(s, i + 1);
        } else {
            assert(line_end(s, i + 1) == s.len());
        }
    }
}

/// A run of bytes without a newline (but perhaps the last one) is one line.
proof fn lemma_line_end_no_newline(s: Seq<u8>, i: int)
    requires
        0 <= i < s.len(),
        forall|k: int| i <= k < s.len() - 1 ==> s[k] != NEWLINE,
    ensures
        line_end(s, i) == s.len(),
    decreases s.len() - i,
{
    if i + 1 < s.len() {
        lemma_line_end_no_newline(s, i + 1);
    } else if s[i] != NEWLINE {
        assert(line_end(s, i + 1) == s.len());
    }
}

proof fn lemma_extend_chunk(s: Seq<u8>, start: int, e: int, size: int)
    requires
        0 <= start < e <= s.len(),
        is_line_boundary(s, e),
    ensures
        e <= extend_chunk(s, start, e, size) <= s.len(),
        is_line_boundary(s, extend_chunk(s, start, e, size)),
        extend_chunk(s, start, e, size) == e || extend_chunk(s, start, e, size) - start <= size,
    decreases s.len() - e,
{
    if e < s.len() {
        lemma_line_end(s, e);
        if line_end(s, e) - start <= size {
            lemma_extend_chunk(s, start, line_end(s, e), size);
        }
    }
}

/// The chunk that starts at `start` is not empty, ends on a line boundary, and
/// either fits in `size` bytes or is a single line.
pub proof fn lemma_chunk_end(s: Seq<u8>, start: int, size: int)
    requires
        0 <= start < s.len(),
    ensures
        start < chunk_end(s, start, size) <= s.len(),
        is_line_boundary(s, chunk_end(s, start, size)),
        chunk_end(s, start, size) - start <= size
            || chunk_end(s, start, size) == line_end(s, start),
{
    lemma_line_end(s, start);
    lemma_extend_chunk(s, start, line_end(s, start), size);
}

/// The chunks from `start` on tile `[start, s.len())`: in order, contiguous,
/// each non-empty, each ending on a line boundary, and each either within
/// `size` bytes or a single line.
pub proof fn lemma_ranges_tile(s: Seq<u8>, start: int, size: int)
    requires
        0 <= start <= s.len(),
    ensures
        (chunk_ranges(s, start, size).len() == 0) == (start == s.len()),
        chunk_ranges(s, start, size).len() > 0 ==> chunk_ranges(s, start, size)[0].0 == start,
        chunk_ranges(s, start, size).len() > 0 ==> chunk_ranges(s, start, size).last().1
            == s.len(),
        forall|i: int|
            0 <= i < chunk_ranges(s, start, size).len() - 1 ==> (#[trigger] chunk_ranges(
                s,
                start,
                size,
            )[i]).1 == chunk_ranges(s, start, size)[i + 1].0,
        forall|i: int|
            0 <= i < chunk_ranges(s, start, size).len() ==> {
                let r = #[trigger] chunk_ranges(s, start, size)[i];
                &&& start <= r.0 < r.1 <= s.len()
                &&& is_line_boundary(s, r.1)
                &&& (r.1 - r.0 <= size || r.1 == line_end(s, r.0))
            },
    decreases s.len() - start,
{
    if start < s.len() {
        lemma_chunk_end(s, start, size);
        let e = chunk_end(s, start, size);
        lemma_ranges_tile(s, e, size);
        let rest = chunk_ranges(s, e, size);
        let all = chunk_ranges(s, start, size);
        assert(all == seq![(start, e)] + rest);
        assert forall|i: int| 0 <= i < all.len() - 1 implies (#[trigger] all[i]).1 == all[i + 1].0 by {
            if i > 0 {
                assert(all[i] == rest[i - 1]);
                assert(all[i + 1] == rest[i]);
            }
        }
        assert forall|i: int| 0 <= i < all.len() implies {
            let r = #[trigger] all[i];
            &&& start <= r.0 < r.1 <= s.len()
            &&& is_line_boundary(s, r.1)
            &&& (r.1 - r.0 <= size || r.1 == line_end(s, r.0))
        } by {
            if i > 0 {
                assert(all[i] == rest[i - 1]);
            }
        }
        if rest.len() > 0 {
            assert(all.last() == rest.last());
        }
    }
}

/// Chunk coverage: the chunks of a file are non-empty, in order, disjoint and
/// contiguous, and together cover exactly `[0, file size)`. Each ends on a line
/// boundary and fits in `size` bytes unless it is a single line.
pub proof fn lemma_chunks_cover_file(s: Seq<u8>, size: int)
    ensures
        (file_ranges(s, size).len() == 0) == (s.len() == 0),
        file_ranges(s, size).len() > 0 ==> file_ranges(s, size)[0].0 == 0,
        file_ranges(s, size).len() > 0 ==> file_ranges(s, size).last().1 == s.len(),
        forall|i: int|
            0 <= i < file_ranges(s, size).len() - 1 ==> (#[trigger] file_ranges(s, size)[i]).1
                == file_ranges(s, size)[i + 1].0,
        forall|i: int|
            0 <= i < file_ranges(s, size).len() ==> {
                let r = #[trigger] file_ranges(s, size)[i];
                &&& 0 <= r.0 < r.1 <= s.len()
                &&& is_line_boundary(s, r.1)
                &&& (r.1 - r.0 <= size || r.1 == line_end(s, r.0))
            },
{
    lemma_ranges_tile(s, 0, size);
}

/// Splitting is deterministic: the same bytes and chunk size always give the
/// same chunks.
pub proof fn lemma_split_deterministic(s1: Seq<u8>, s2: Seq<u8>, size: int)
    requires
        s1 == s2,
    ensures
        file_ranges(s1, size) == file_ranges(s2, size),
{
}

/// A position where a line begins: the start of the file or just past a newline.
pub open spec fn is_line_start(s: Seq<u8>, p: int) -> bool {
    p == 0 || (0 < p <= s.len() && s[p - 1] == NEWLINE)
}

proof fn lemma_line_end_before_newline(s: Seq<u8>, p: int, q: int)
    requires
        0 <= p < q <= s.len(),
        s[q - 1] == NEWLINE,
    ensures
        line_end(s, p) <= q,
{
    lemma_line_end(s, p);
    if line_end(s, p) > q {
        assert(s[q - 1] != NEWLINE);
    }
}

/// A chunk that starts before a line longer than `size` ends at or before it.
proof fn lemma_extend_stops_before_long_line(s: Seq<u8>, st: int, e: int, size: int, q: int)
    requires
        0 <= st < e <= q < s.len(),
        is_line_start(s, q),
        line_end(s, q) - q > size,
        is_line_boundary(s, e),
    ensures
        extend_chunk(s, st, e, size) <= q,
    decreases q - e,
{
    lemma_line_end(s, e);
    if e < q {
        lemma_line_end_before_newline(s, e, q);
        if line_end(s, e) - st <= size {
            lemma_extend_stops_before_long_line(s, st, line_end(s, e), size, q);
        }
    }
}

/// Every chunk `(a, b)` from `st` on ends where the chunk from `a` ends.
proof fn lemma_ranges_shape(s: Seq<u8>, st: int, size: int)
    requires
        0 <= st <= s.len(),
    ensures
        forall|i: int|
            0 <= i < chunk_ranges(s, st, size).len() ==> (#[trigger] chunk_ranges(s, st, size)[i]).1
                == chunk_end(s, chunk_ranges(s, st, size)[i].0, size),
    decreases s.len() - st,
{
    if st < s.len() {
        lemma_chunk_end(s, st, size);
        let e = chunk_end(s, st, size);
        lemma_ranges_shape(s, e, size);
        let rest = chunk_ranges(s, e, size);
        let all = chunk_ranges(s, st, size);
        assert forall|i: int| 0 <= i < all.len() implies (#[trigger] all[i]).1 == chunk_end(
            s,
            all[i].0,
            size,
        ) by {
            if i > 0 {
                assert(all[i] == rest[i - 1]);
            }
        }
    }
}

/// The chunks from a line start `st` at or before a line longer than `size`
/// include that line as a chunk of its own.
proof fn lemma_long_line_in_ranges(s: Seq<u8>, st: int, size: int, q: int)
    requires
        0 <= st <= q < s.len(),
        is_line_start(s, st),
        is_line_start(s, q),
        line_end(s, q) - q > size,
    ensures
        chunk_ranges(s, st, size).contains((q, line_end(s, q))),
    decreases q - st,
{
    lemma_chunk_end(s, st, size);
    lemma_line_end(s, st);
    let ce = chunk_end(s, st, size);
    let all = chunk_ranges(s, st, size);
    if st == q {
        lemma_line_end(s, q);
        assert(extend_chunk(s, q, line_end(s, q), size) == line_end(s, q));
        assert(all[0] == (q, line_end(s, q)));
    } else {
        lemma_line_end_before_newline(s, st, q);
        lemma_extend_stops_before_long_line(s, st, line_end(s, st), size, q);
        assert(ce <= q);
        lemma_long_line_in_ranges(s, ce, size, q);
        let rest = chunk_ranges(s, ce, size);
        let k = choose|k: int| 0 <= k < rest.len() && rest[k] == (q, line_end(s, q));
        assert(all[k + 1] == rest[k]);
    }
}

/// Oversized lines: a line longer than the chunk size, wherever it stands in
/// the file, is a chunk of its own, of exactly the line's length; no other
/// chunk starts where it does.
pub proof fn lemma_long_line_is_own_chunk(s: Seq<u8>, q: int, size: int)
    requires
        0 <= q < s.len(),
        is_line_start(s, q),
        line_end(s, q) - q > size,
    ensures
        file_ranges(s, size).contains((q, line_end(s, q))),
        forall|j: int|
            0 <= j < file_ranges(s, size).len() && (#[trigger] file_ranges(s, size)[j]).0 == q
                ==> file_ranges(s, size)[j] == (q, line_end(s, q)),
{
    lemma_long_line_in_ranges(s, 0, size, q);
    lemma_ranges_shape(s, 0, size);
    lemma_line_end(s, q);
    if line_end(s, q) < s.len() {
        assert(extend_chunk(s, q, line_end(s, q), size) == line_end(s, q));
    }
    assert(chunk_end(s, q, size) == line_end(s, q));
}

/// A file that is one line longer than the chunk size (no newline but perhaps
/// a final one) is exactly one chunk, of the file's whole length.
pub proof fn lemma_oversized_line(s: Seq<u8>, size: int)
    requires
        s.len() > size,
        s.len() > 0,
        forall|k: int| 0 <= k < s.len() - 1 ==> s[k] != NEWLINE,
    ensures
        file_ranges(s, size) == seq![(0int, s.len() as int)],
{
    lemma_line_end_no_newline(s, 0);
    assert(extend_chunk(s, 0, s.len() as int, size) == s.len());
    assert(chunk_end(s, 0, size) == s.len());
    assert(chunk_ranges(s, s.len() as int, size) == Seq::<(int, int)>::empty());
    assert(file_ranges(s, size) =~= seq![(0int, s.len() as int)]);
}

/// What a chunk record says: its file and its byte range.
pub open spec fn chunk_view(c: InputChunk) -> (Seq<char>, int, int) {
    (c.path@, c.start_byte as int, c.end_byte as int)
}

/// The chunks of one file, as (path, start, end).
pub open spec fn file_chunk_views(path: Seq<char>, s: Seq<u8>, size: int) -> Seq<
    (Seq<char>, int, int),
> {
    file_ranges(s, size).map_values(|r: (int, int)| (path, r.0, r.1))
}

/// The chunks of several files, file after file, each in byte order.
pub open spec fn files_chunk_views(files: Seq<InputFile>, size: int) -> Seq<(Seq<char>, int, int)>
    decreases files.len(),
{
    if files.len() == 0 {
        seq![]
    } else {
        files_chunk_views(files.drop_last(), size) + file_chunk_views(
            files.last().path@,
            files.last().content@,
            size,
        )
    }
}

/// `t` is a freshly made task of `job` and `kind`: pending, never started or
/// failed, assigned to no worker. Its id and creation time are not fixed here.
pub open spec fn is_fresh_task(t: Task, job: Job, kind: TaskType) -> bool {
    &&& t.job_id@ == job.id@
    &&& t.kind == kind
    &&& t.status == TaskStatus::Pending
    &&& t.payload_path@ == job.payload_path@
    &&& t.intermediate_key.is_none()
    &&& t.input_file_paths@.len() == 0
    &&& t.time_started.is_none()
    &&& t.time_done.is_none()
    &&& t.failure_count == 0
    &&& t.failure_details.is_none()
    &&& t.assigned_worker_id@.len() == 0
}

/// `t` is a fresh map task of `job` over the chunk `c`.
pub open spec fn is_map_task_for(t: Task, job: Job, c: (Seq<char>, int, int)) -> bool {
    &&& is_fresh_task(t, job, TaskType::MapTask)
    &&& t.input_chunk.is_some()
    &&& chunk_view(t.input_chunk.unwrap()) == c
    &&& t.output_file.is_none()
}

/// `t` is a fresh reduce task of `job` that writes the output file `out`.
pub open spec fn is_reduce_task_for(t: Task, job: Job, out: Seq<char>) -> bool {
    &&& is_fresh_task(t, job, TaskType::ReduceTask)
    &&& t.input_chunk.is_none()
    &&& t.output_file.is_some()
    &&& t.output_file.unwrap()@ == out
}

/// A pending map task of `job` over `chunk`, under the given id and creation time.
pub fn new_map_task(job: &Job, chunk: InputChunk, id: String, now: u64) -> (t: Task)
    ensures
        is_map_task_for(t, *job, chunk_view(chunk)),
        t.id@ == id@,
        t.time_created == now,
{
    Task {
        id,
        job_id: job.id.clone(),
        kind: TaskType::MapTask,
        status: TaskStatus::Pending,
        payload_path: job.payload_path.clone(),
        input_chunk: Some(chunk),
        output_file: None,
        intermediate_key: None,
        input_file_paths: Vec::new(),
        time_created: now,
        time_started: None,
        time_done: None,
        failure_count: 0,
        failure_details: None,
        assigned_worker_id: String::new(),
    }
}

/// A pending reduce task of `job` writing `output_file`, under the given id and
/// creation time.
pub fn new_reduce_task(job: &Job, output_file: String, id: String, now: u64) -> (t: Task)
    ensures
        is_reduce_task_for(t, *job, output_file@),
        t.id@ == id@,
        t.time_created == now,
{
    Task {
        id,
        job_id: job.id.clone(),
        kind: TaskType::ReduceTask,
        status: TaskStatus::Pending,
        payload_path: job.payload_path.clone(),
        input_chunk: None,
        output_file: Some(output_file),
        intermediate_key: None,
        input_file_paths: Vec::new(),
        time_created: now,
        time_started: None,
        time_done: None,
        failure_count: 0,
        failure_details: None,
        assigned_worker_id: String::new(),
    }
}

impl LineSplitter {
    /// The chunks of one file.
    pub fn split_file(path: &String, content: &[u8], chunk_size: u64) -> (r: Vec<InputChunk>)
        ensures
            r@.map_values(|c: InputChunk| chunk_view(c)) == file_chunk_views(
                path@,
                content@,
                chunk_size as int,
            ),
    {
        let ranges = chunk_boundaries(content, chunk_size);
        let ghost want = file_chunk_views(path@, content@, chunk_size as int);
        let mut out: Vec<InputChunk> = Vec::new();
        let mut i: usize = 0;
        while i < ranges.len()
            invariant
                i <= ranges@.len(),
                want.len() == ranges@.len(),
                want == file_chunk_views(path@, content@, chunk_size as int),
                forall|k: int|
                    0 <= k < ranges@.len() ==> want[k] == (
                        path@,
                        ranges@[k].0 as int,
                        ranges@[k].1 as int,
                    ),
                out@.map_values(|c: InputChunk| chunk_view(c)) == want.subrange(0, i as int),
            decreases ranges@.len() - i,
        {
            let (start, end) = ranges[i];
            let c = InputChunk { path: path.clone(), start_byte: start, end_byte: end };
            proof {
                assert(chunk_view(c) == want[i as int]);
                assert(out@.push(c).map_values(|c: InputChunk| chunk_view(c)) =~= out@.map_values(
                    |c: InputChunk| chunk_view(c),
                ).push(chunk_view(c)));
                assert(want.subrange(0, i as int).push(want[i as int]) =~= want.subrange(
                    0,
                    i + 1,
                ));
            }
            out.push(c);
            i = i + 1;
        }
        proof {
            assert(want.subrange(0, i as int) =~= want);
        }
        out
    }

    /// The chunks of all files, file after file in the given order.
    pub fn split_files(files: &Vec<InputFile>, chunk_size: u64) -> (r: Vec<InputChunk>)
        ensures
            r@.map_values(|c: InputChunk| chunk_view(c)) == files_chunk_views(
                files@,
                chunk_size as int,
            ),
    {
        let mut out: Vec<InputChunk> = Vec::new();
        let mut i: usize = 0;
        while i < files.len()
            invariant
                i <= files@.len(),
                out@.map_values(|c: InputChunk| chunk_view(c)) == files_chunk_views(
                    files@.subrange(0, i as int),
                    chunk_size as int,
                ),
            decreases files@.len() - i,
        {
            let mut part = LineSplitter::split_file(&files[i].path, &files[i].content, chunk_size);
            let ghost old_out = out@;
            let ghost part_v = part@;
            out.append(&mut part);
            proof {
                let pre = files@.subrange(0, i as int);
                let cur = files@.subrange(0, i + 1);
                assert(cur.drop_last() =~= pre);
                assert(cur.last() == files@[i as int]);
                assert(out@ == old_out + part_v);
                assert(out@.map_values(|c: InputChunk| chunk_view(c)) =~= old_out.map_values(
                    |c: InputChunk| chunk_view(c),
                ) + part_v.map_values(|c: InputChunk| chunk_view(c)));
            }
            i = i + 1;
        }
        proof {
            assert(files@.subrange(0, i as int) =~= files@);
        }
        out
    }

    /// The map tasks of `job` over the given chunks, each with the id and the
    /// creation time at the same index.
    pub fn tasks_for_chunks(job: &Job, chunks: Vec<InputChunk>, ids: Vec<String>, times: Vec<u64>) -> (r: Vec<Task>)
        requires
            ids@.len() == chunks@.len(),
            times@.len() == chunks@.len(),
        ensures
            r@.len() == chunks@.len(),
            forall|i: int|
                0 <= i < r@.len() ==> {
                    &&& is_map_task_for(#[trigger] r@[i], *job, chunk_view(chunks@[i]))
                    &&& r@[i].id@ == ids@[i]@
                    &&& r@[i].time_created == times@[i]
                },
    {
        let mut out: Vec<Task> = Vec::new();
        let mut i: usize = 0;
        while i < chunks.len()
            invariant
                i <= chunks@.len(),
                ids@.len() == chunks@.len(),
                times@.len() == chunks@.len(),
                out@.len() == i,
                forall|k: int|
                    0 <= k < i ==> {
                        &&& is_map_task_for(#[trigger] out@[k], *job, chunk_view(chunks@[k]))
                        &&& out@[k].id@ == ids@[k]@
                        &&& out@[k].time_created == times@[k]
                    },
            decreases chunks@.len() - i,
        {
            let c = InputChunk {
                path: chunks[i].path.clone(),
                start_byte: chunks[i].start_byte,
                end_byte: chunks[i].end_byte,
            };
            let t = new_map_task(job, c, ids[i].clone(), times[i]);
            out.push(t);
            i = i + 1;
        }
        out
    }

    /// The map tasks of `job`: one per chunk of its input files, in order, each
    /// with a fresh id and the current time.
    pub fn split(job: &Job, files: &Vec<InputFile>, chunk_size: u64) -> (r: Vec<Task>)
        ensures
            r@.len() == files_chunk_views(files@, chunk_size as int).len(),
            forall|i: int|
                0 <= i < r@.len() ==> is_map_task_for(
                    #[trigger] r@[i],
                    *job,
                    files_chunk_views(files@, chunk_size as int)[i],
                ),
    {
        let chunks = LineSplitter::split_files(files, chunk_size);
        let ghost views = chunks@.map_values(|c: InputChunk| chunk_view(c));
        let mut ids: Vec<String> = Vec::new();
        let mut times: Vec<u64> = Vec::new();
        let mut i: usize = 0;
        while i < chunks.len()
            invariant
                i <= chunks@.len(),
                ids@.len() == i,
                times@.len() == i,
            decreases chunks@.len() - i,
        {
            ids.push(fresh_id());
            times.push(now_secs());
            i = i + 1;
        }
        let r = LineSplitter::tasks_for_chunks(job, chunks, ids, times);
        proof {
            assert forall|i: int| 0 <= i < r@.len() implies is_map_task_for(
                #[trigger] r@[i],
                *job,
                files_chunk_views(files@, chunk_size as int)[i],
            ) by {
                assert(views[i] == files_chunk_views(files@, chunk_size as int)[i]);
            }
        }
        r
    }
}

/// The map split of a job: an error for an undefined input kind, else the map
/// tasks of its input files.
pub fn map_split(job: &Job, files: &Vec<InputFile>, chunk_size: u64) -> (r: Result<
    Vec<Task>,
    SplitterError,
>)
    ensures
        (job.input_kind == InputDataKind::Undefined) <==> r.is_err(),
        r.is_err() ==> r->Err_0.kind == SplitterErrorKind::InvalidInputDataKind,
        r.is_ok() ==> r->Ok_0@.len() == files_chunk_views(files@, chunk_size as int).len(),
        r.is_ok() ==> forall|i: int|
            0 <= i < r->Ok_0@.len() ==> is_map_task_for(
                #[trigger] r->Ok_0@[i],
                *job,
                files_chunk_views(files@, chunk_size as int)[i],
            ),
{
    match job.input_kind {
        InputDataKind::Undefined => Err(SplitterError { kind: SplitterErrorKind::InvalidInputDataKind }),
        InputDataKind::TextNewlines => Ok(LineSplitter::split(job, files, chunk_size)),
    }
}

/// The reduce tasks of `job`, one per declared output file in order, each
/// with the id and the creation time at the same index.
pub fn reduce_tasks_for(job: &Job, ids: Vec<String>, times: Vec<u64>) -> (r: Vec<Task>)
    requires
        ids@.len() == job.output_files@.len(),
        times@.len() == job.output_files@.len(),
    ensures
        r@.len() == job.output_files@.len(),
        forall|i: int|
            0 <= i < r@.len() ==> {
                &&& is_reduce_task_for(#[trigger] r@[i], *job, job.output_files@[i]@)
                &&& r@[i].id@ == ids@[i]@
                &&& r@[i].time_created == times@[i]
            },
{
    let mut out: Vec<Task> = Vec::new();
    let mut i: usize = 0;
    while i < job.output_files.len()
        invariant
            i <= job.output_files@.len(),
            ids@.len() == job.output_files@.len(),
            times@.len() == job.output_files@.len(),
            out@.len() == i,
            forall|k: int|
                0 <= k < i ==> {
                    &&& is_reduce_task_for(#[trigger] out@[k], *job, job.output_files@[k]@)
                    &&& out@[k].id@ == ids@[k]@
                    &&& out@[k].time_created == times@[k]
                },
        decreases job.output_files@.len() - i,
    {
        let t = new_reduce_task(job, job.output_files[i].clone(), ids[i].clone(), times[i]);
        out.push(t);
        i = i + 1;
    }
    out
}

/// The reduce split of a job: one reduce task per declared output file, in
/// order, each with a fresh id and the current time.
pub fn reduce_split(job: &Job) -> (r: Vec<Task>)
    ensures
        r@.len() == job.output_files@.len(),
        forall|i: int|
            0 <= i < r@.len() ==> is_reduce_task_for(
                #[trigger] r@[i],
                *job,
                job.output_files@[i]@,
            ),
{
    let mut ids: Vec<String> = Vec::new();
    let mut times: Vec<u64> = Vec::new();
    let mut i: usize = 0;
    while i < job.output_files.len()
        invariant
            i <= job.output_files@.len(),
            ids@.len() == i,
            times@.len() == i,
        decreases job.output_files@.len() - i,
    {
        ids.push(fresh_id());
        times.push(now_secs());
        i = i + 1;
    }
    reduce_tasks_for(job, ids, times)
}

fn line_end_exec(content: &[u8], i: usize) -> (e: usize)
    requires
        i < content@.len(),
    ensures
        e == line_end(content@, i as int),
{
    let n = content.len();
    let mut j: usize = i;
    while j < n && content[j] != NEWLINE
        invariant
            i <= j <= n,
            n == content@.len(),
            line_end(content@, i as int) == line_end(content@, j as int),
        decreases n - j,
    {
        j = j + 1;
    }
    if j < n {
        j + 1
    } else {
        n
    }
}

fn chunk_end_exec(content: &[u8], start: usize, chunk_size: u64) -> (e: usize)
    requires
        start < content@.len(),
    ensures
        e == chunk_end(content@, start as int, chunk_size as int),
        start < e <= content@.len(),
{
    proof {
        lemma_chunk_end(content@, start as int, chunk_size as int);
    }
    let n = content.len();
    let mut e = line_end_exec(content, start);
    proof {
        lemma_line_end(content@, start as int);
    }
    while e < n
        invariant
            start < e <= n,
            n == content@.len(),
            extend_chunk(content@, start as int, e as int, chunk_size as int) == chunk_end(
                content@,
                start as int,
                chunk_size as int,
            ),
        decreases n - e,
    {
        let ne = line_end_exec(content, e);
        proof {
            lemma_line_end(content@, e as int);
        }
        if (ne - start) as u64 > chunk_size {
            return e;
        }
        e = ne;
    }
    e
}

/// The byte ranges `[start, end)` of the chunks of `content`.
pub fn chunk_boundaries(content: &[u8], chunk_size: u64) -> (r: Vec<(u64, u64)>)
    ensures
        r@.len() == file_ranges(content@, chunk_size as int).len(),
        forall|i: int|
            0 <= i < r@.len() ==> r@[i].0 as int == file_ranges(content@, chunk_size as int)[i].0
                && r@[i].1 as int == file_ranges(content@, chunk_size as int)[i].1,
{
    let ghost s = content@;
    let ghost size = chunk_size as int;
    let n = content.len();
    let mut out: Vec<(u64, u64)> = Vec::new();
    let mut start: usize = 0;
    while start < n
        invariant
            start <= n,
            n == s.len(),
            s == content@,
            size == chunk_size as int,
            file_ranges(s, size) == out@.map_values(|p: (u64, u64)| (p.0 as int, p.1 as int))
                + chunk_ranges(s, start as int, size),
        decreases n - start,
    {
        let e = chunk_end_exec(content, start, chunk_size);
        proof {
            let before = out@.map_values(|p: (u64, u64)| (p.0 as int, p.1 as int));
            let after = out@.push((start as u64, e as u64)).map_values(
                |p: (u64, u64)| (p.0 as int, p.1 as int),
            );
            assert(chunk_ranges(s, start as int, size) == seq![(start as int, e as int)]
                + chunk_ranges(s, e as int, size));
            assert(after =~= before.push((start as int, e as int)));
            assert(before + chunk_ranges(s, start as int, size) =~= after + chunk_ranges(
                s,
                e as int,
                size,
            ));
        }
        out.push((start as u64, e as u64));
        start = e;
    }
    proof {
        assert(chunk_ranges(s, n as int, size) == Seq::<(int, int)>::empty());
        let v = out@.map_values(|p: (u64, u64)| (p.0 as int, p.1 as int));
        assert(file_ranges(s, size) =~= v);
        assert forall|i: int| 0 <= i < out@.len() implies out@[i].0 as int == file_ranges(
            s,
            size,
        )[i].0 && out@[i].1 as int == file_ranges(s, size)[i].1 by {
            assert(v[i] == (out@[i].0 as int, out@[i].1 as int));
        }
    }
    out
}

} // verus!
