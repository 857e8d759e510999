//! The record of a task in the state store, and its round trip.
use vstd::prelude::*;
use vstd::utf8::*;
use crate::types::{InputChunk, Task, TaskStatus, TaskType};
use crate::codec::{
    lemma_fields_fit_in_memory,
    fields_fit, frame, lemma_frame_push, lemma_le_round_trip, lemma_parse_frame, le, le_bytes,
    le_value, opt_str_field, opt_string_view, opt_u64_field, parse, parse_fields, push_byte_field,
    push_bytes, push_field, push_str_field, push_str_fields, push_u64, push_u64_field, read_le,
    read_string, read_u64, str_field, str_fields, strings_view, u64_field, utf8, Field,
};

verus! {

broadcast use {encode_utf8_decode_utf8, encode_utf8_valid_utf8};

/// An input chunk as its record holds it.
pub ghost struct ChunkView {
    pub path: Seq<char>,
    pub start: u64,
    pub end: u64,
}

/// A task as its record holds it: every string by its characters.
pub ghost struct TaskView {
    pub id: Seq<char>,
    pub job_id: Seq<char>,
    pub kind: TaskType,
    pub status: TaskStatus,
    pub payload_path: Seq<char>,
    pub input_chunk: Option<ChunkView>,
    pub output_file: Option<Seq<char>>,
    pub intermediate_key: Option<Seq<char>>,
    pub input_file_paths: Seq<Seq<char>>,
    pub time_created: u64,
    pub time_started: Option<u64>,
    pub time_done: Option<u64>,
    pub failure_count: u64,
    pub failure_details: Option<Seq<char>>,
    pub assigned_worker_id: Seq<char>,
}

pub open spec fn chunk_rec_view(c: InputChunk) -> ChunkView {
    ChunkView { path: c.path@, start: c.start_byte, end: c.end_byte }
}

pub open spec fn task_view(t: Task) -> TaskView {
    TaskView {
        id: t.id@,
        job_id: t.job_id@,
        kind: t.kind,
        status: t.status,
        payload_path: t.payload_path@,
        input_chunk: match t.input_chunk {
            Some(c) => Some(chunk_rec_view(c)),
            None => None,
        },
        output_file: opt_string_view(t.output_file),
        intermediate_key: opt_string_view(t.intermediate_key),
        input_file_paths: strings_view(t.input_file_paths@),
        time_created: t.time_created,
        time_started: t.time_started,
        time_done: t.time_done,
        failure_count: t.failure_count,
        failure_details: opt_string_view(t.failure_details),
        assigned_worker_id: t.assigned_worker_id@,
    }
}

pub open spec fn kind_byte(k: TaskType) -> u8 {
    match k {
        TaskType::MapTask => 0,
        TaskType::ReduceTask => 1,
    }
}

pub open spec fn byte_kind(b: Seq<u8>) -> Option<TaskType> {
    if b.len() != 1 {
        None
    } else if b[0] == 0 {
        Some(TaskType::MapTask)
    } else if b[0] == 1 {
        Some(TaskType::ReduceTask)
    } else {
        None
    }
}

pub open spec fn task_status_byte(s: TaskStatus) -> u8 {
    match s {
        TaskStatus::Pending => 0,
        TaskStatus::InProgress => 1,
        TaskStatus::Done => 2,
        TaskStatus::Failed => 3,
        TaskStatus::Unknown => 4,
    }
}

pub open spec fn byte_task_status(b: Seq<u8>) -> Option<TaskStatus> {
    if b.len() != 1 {
        None
    } else if b[0] == 0 {
        Some(TaskStatus::Pending)
    } else if b[0] == 1 {
        Some(TaskStatus::InProgress)
    } else if b[0] == 2 {
        Some(TaskStatus::Done)
    } else if b[0] == 3 {
        Some(TaskStatus::Failed)
    } else if b[0] == 4 {
        Some(TaskStatus::Unknown)
    } else {
        None
    }
}

/// The payload of a chunk field: start and end as little-endian numbers, then
/// the path.
pub open spec fn chunk_bytes(c: ChunkView) -> Seq<u8> {
    le_bytes(c.start) + le_bytes(c.end) + encode_utf8(c.path)
}

pub open spec fn chunk_of(p: Seq<u8>) -> Option<ChunkView> {
    if p.len() >= 16 && valid_utf8(p.subrange(16, p.len() as int)) {
        Some(
            ChunkView {
                start: le_value(p.subrange(0, 8)),
                end: le_value(p.subrange(8, 16)),
                path: decode_utf8(p.subrange(16, p.len() as int)),
            },
        )
    } else {
        None
    }
}

proof fn lemma_chunk_round_trip(c: ChunkView)
    ensures
        chunk_of(chunk_bytes(c)) == Some(c),
{
    let p = chunk_bytes(c);
    assert(p.subrange(0, 8) =~= le_bytes(c.start));
    assert(p.subrange(8, 16) =~= le_bytes(c.end));
    assert(p.subrange(16, p.len() as int) =~= encode_utf8(c.path));
    lemma_le_round_trip(c.start);
    lemma_le_round_trip(c.end);
}

pub open spec fn opt_chunk_field(o: Option<ChunkView>) -> Seq<Field> {
    match o {
        Some(c) => seq![(6u8, chunk_bytes(c))],
        None => seq![],
    }
}

pub open spec fn task_head(t: TaskView) -> Seq<Field> {
    seq![
        str_field(1, t.id),
        str_field(2, t.job_id),
        (3u8, seq![kind_byte(t.kind)]),
        (4u8, seq![task_status_byte(t.status)]),
        str_field(5, t.payload_path),
    ]
}

pub open spec fn task_middle(t: TaskView) -> Seq<Field> {
    opt_chunk_field(t.input_chunk) + opt_str_field(7, t.output_file) + opt_str_field(
        8,
        t.intermediate_key,
    ) + str_fields(9, t.input_file_paths)
}

pub open spec fn task_tail(t: TaskView) -> Seq<Field> {
    seq![u64_field(10, t.time_created)] + opt_u64_field(11, t.time_started) + opt_u64_field(
        12,
        t.time_done,
    ) + seq![u64_field(13, t.failure_count)] + opt_str_field(14, t.failure_details) + seq![
        str_field(15, t.assigned_worker_id),
    ]
}

/// The fields of a task's record, in the order they are written.
pub open spec fn task_fields(t: TaskView) -> Seq<Field> {
    task_head(t) + task_middle(t) + task_tail(t)
}

/// The task a reader starts from before the first field.
pub open spec fn blank_task() -> TaskView {
    TaskView {
        id: seq![],
        job_id: seq![],
        kind: TaskType::MapTask,
        status: TaskStatus::Unknown,
        payload_path: seq![],
        input_chunk: None,
        output_file: None,
        intermediate_key: None,
        input_file_paths: seq![],
        time_created: 0,
        time_started: None,
        time_done: None,
        failure_count: 0,
        failure_details: None,
        assigned_worker_id: seq![],
    }
}

/// Reads one field into the task read so far; unknown field numbers are skipped.
pub open spec fn apply_task_field(v: TaskView, f: Field) -> Option<TaskView> {
    let (tag, p) = f;
    if tag == 1 {
        match utf8(p) { Some(s) => Some(TaskView { id: s, ..v }), None => None }
    } else if tag == 2 {
        match utf8(p) { Some(s) => Some(TaskView { job_id: s, ..v }), None => None }
    } else if tag == 3 {
        match byte_kind(p) { Some(k) => Some(TaskView { kind: k, ..v }), None => None }
    } else if tag == 4 {
        match byte_task_status(p) { Some(st) => Some(TaskView { status: st, ..v }), None => None }
    } else if tag == 5 {
        match utf8(p) { Some(s) => Some(TaskView { payload_path: s, ..v }), None => None }
    } else if tag == 6 {
        match chunk_of(p) { Some(c) => Some(TaskView { input_chunk: Some(c), ..v }), None => None }
    } else if tag == 7 {
        match utf8(p) { Some(s) => Some(TaskView { output_file: Some(s), ..v }), None => None }
    } else if tag == 8 {
        match utf8(p) { Some(s) => Some(TaskView { intermediate_key: Some(s), ..v }), None => None }
    } else if tag == 9 {
        match utf8(p) {
            Some(s) => Some(TaskView { input_file_paths: v.input_file_paths.push(s), ..v }),
            None => None,
        }
    } else if tag == 10 {
        match le(p) { Some(n) => Some(TaskView { time_created: n, ..v }), None => None }
    } else if tag == 11 {
        match le(p) { Some(n) => Some(TaskView { time_started: Some(n), ..v }), None => None }
    } else if tag == 12 {
        match le(p) { Some(n) => Some(TaskView { time_done: Some(n), ..v }), None => None }
    } else if tag == 13 {
        match le(p) { Some(n) => Some(TaskView { failure_count: n, ..v }), None => None }
    } else if tag == 14 {
        match utf8(p) { Some(s) => Some(TaskView { failure_details: Some(s), ..v }), None => None }
    } else if tag == 15 {
        match utf8(p) { Some(s) => Some(TaskView { assigned_worker_id: s, ..v }), None => None }
    } else {
        Some(v)
    }
}

/// Reads the fields `fs` in order into `v`; `None` at the first bad payload.
pub open spec fn read_task_fields(v: TaskView, fs: Seq<Field>) -> Option<TaskView>
    decreases fs.len(),
{
    if fs.len() == 0 {
        Some(v)
    } else {
        match read_task_fields(v, fs.drop_last()) {
            Some(w) => apply_task_field(w, fs.last()),
            None => None,
        }
    }
}

/// The task that the bytes `b` hold, if they hold one.
pub open spec fn decode_task_spec(b: Seq<u8>) -> Option<TaskView> {
    match parse(b) {
        Some(fs) => read_task_fields(blank_task(), fs),
        None => None,
    }
}

proof fn lemma_read_task_append(v: TaskView, a: Seq<Field>, b: Seq<Field>)
    ensures
        read_task_fields(v, a + b) == (match read_task_fields(v, a) {
            Some(w) => read_task_fields(w, b),
            None => None,
        }),
    decreases b.len(),
{
    if b.len() == 0 {
        assert(a + b =~= a);
    } else {
        assert((a + b).drop_last() =~= a + b.drop_last());
        assert((a + b).last() == b.last());
        lemma_read_task_append(v, a, b.drop_last());
    }
}

proof fn lemma_read_task_one(v: TaskView, f: Field)
    ensures
        read_task_fields(v, seq![f]) == apply_task_field(v, f),
{
    reveal_with_fuel(read_task_fields, 2);
    assert(seq![f].drop_last() =~= Seq::<Field>::empty());
    assert(seq![f].last() == f);
}

proof fn lemma_read_task_opt_str(v: TaskView, tag: u8, o: Option<Seq<char>>)
    ensures
        o.is_none() ==> read_task_fields(v, opt_str_field(tag, o)) == Some(v),
        o.is_some() ==> read_task_fields(v, opt_str_field(tag, o)) == apply_task_field(
            v,
            str_field(tag, o->0),
        ),
{
    if o.is_some() {
        lemma_read_task_one(v, str_field(tag, o->0));
        assert(opt_str_field(tag, o) == seq![str_field(tag, o->0)]);
    } else {
        assert(opt_str_field(tag, o) =~= Seq::<Field>::empty());
    }
}

proof fn lemma_read_task_opt_u64(v: TaskView, tag: u8, o: Option<u64>)
    ensures
        o.is_none() ==> read_task_fields(v, opt_u64_field(tag, o)) == Some(v),
        o.is_some() ==> read_task_fields(v, opt_u64_field(tag, o)) == apply_task_field(
            v,
            u64_field(tag, o->0),
        ),
        o.is_some() ==> le_value(le_bytes(o->0)) == o->0,
{
    if o.is_some() {
        lemma_read_task_one(v, u64_field(tag, o->0));
        assert(opt_u64_field(tag, o) == seq![u64_field(tag, o->0)]);
        lemma_le_round_trip(o->0);
    } else {
        assert(opt_u64_field(tag, o) =~= Seq::<Field>::empty());
    }
}

proof fn lemma_read_task_paths(v: TaskView, ss: Seq<Seq<char>>)
    ensures
        read_task_fields(v, str_fields(9, ss)) == Some(
            TaskView { input_file_paths: v.input_file_paths + ss, ..v },
        ),
    decreases ss.len(),
{
    if ss.len() == 0 {
        assert(str_fields(9, ss) =~= Seq::<Field>::empty());
        assert(v.input_file_paths + ss =~= v.input_file_paths);
    } else {
        let fs = str_fields(9, ss);
        assert(fs.drop_last() =~= str_fields(9, ss.drop_last()));
        lemma_read_task_paths(v, ss.drop_last());
        assert(fs.last() == str_field(9, ss.last()));
        assert((v.input_file_paths + ss.drop_last()).push(ss.last()) =~= v.input_file_paths + ss);
    }
}

proof fn lemma_read_task_head(v: TaskView, t: TaskView)
    ensures
        read_task_fields(v, task_head(t)) == Some(
            TaskView {
                id: t.id,
                job_id: t.job_id,
                kind: t.kind,
                status: t.status,
                payload_path: t.payload_path,
                ..v
            },
        ),
{
    let h = task_head(t);
    assert(h.subrange(0, 0) =~= Seq::<Field>::empty());
    assert(h.subrange(0, 1).drop_last() =~= h.subrange(0, 0));
    assert(h.subrange(0, 2).drop_last() =~= h.subrange(0, 1));
    assert(h.subrange(0, 3).drop_last() =~= h.subrange(0, 2));
    assert(h.subrange(0, 4).drop_last() =~= h.subrange(0, 3));
    assert(h.subrange(0, 5).drop_last() =~= h.subrange(0, 4));
    assert(h.subrange(0, 5) =~= h);
    assert(read_task_fields(v, h.subrange(0, 0)) == Some(v));
    assert(read_task_fields(v, h.subrange(0, 1)) == Some(TaskView { id: t.id, ..v }));
    assert(read_task_fields(v, h.subrange(0, 2)) == Some(
        TaskView { id: t.id, job_id: t.job_id, ..v },
    ));
    assert(read_task_fields(v, h.subrange(0, 3)) == Some(
        TaskView { id: t.id, job_id: t.job_id, kind: t.kind, ..v },
    ));
    assert(read_task_fields(v, h.subrange(0, 4)) == Some(
        TaskView { id: t.id, job_id: t.job_id, kind: t.kind, status: t.status, ..v },
    ));
}

proof fn lemma_read_task_middle(v: TaskView, t: TaskView)
    requires
        v.input_chunk.is_none(),
        v.output_file.is_none(),
        v.intermediate_key.is_none(),
        v.input_file_paths.len() == 0,
    ensures
        read_task_fields(v, task_middle(t)) == Some(
            TaskView {
                input_chunk: t.input_chunk,
                output_file: t.output_file,
                intermediate_key: t.intermediate_key,
                input_file_paths: t.input_file_paths,
                ..v
            },
        ),
{
    let c = opt_chunk_field(t.input_chunk);
    let o = opt_str_field(7, t.output_file);
    let k = opt_str_field(8, t.intermediate_key);
    let p = str_fields(9, t.input_file_paths);
    let v1 = TaskView { input_chunk: t.input_chunk, ..v };
    if t.input_chunk.is_some() {
        lemma_chunk_round_trip(t.input_chunk->0);
        lemma_read_task_one(v, (6u8, chunk_bytes(t.input_chunk->0)));
        assert(c == seq![(6u8, chunk_bytes(t.input_chunk->0))]);
    } else {
        assert(c =~= Seq::<Field>::empty());
    }
    assert(read_task_fields(v, c) == Some(v1));
    let v2 = TaskView { output_file: t.output_file, ..v1 };
    lemma_read_task_opt_str(v1, 7, t.output_file);
    lemma_read_task_append(v, c, o);
    let v3 = TaskView { intermediate_key: t.intermediate_key, ..v2 };
    lemma_read_task_opt_str(v2, 8, t.intermediate_key);
    lemma_read_task_append(v, c + o, k);
    lemma_read_task_paths(v3, t.input_file_paths);
    assert(v3.input_file_paths + t.input_file_paths =~= t.input_file_paths);
    lemma_read_task_append(v, c + o + k, p);
}

proof fn lemma_read_task_tail(v: TaskView, t: TaskView)
    requires
        v.time_started.is_none(),
        v.time_done.is_none(),
        v.failure_details.is_none(),
    ensures
        read_task_fields(v, task_tail(t)) == Some(
            TaskView {
                time_created: t.time_created,
                time_started: t.time_started,
                time_done: t.time_done,
                failure_count: t.failure_count,
                failure_details: t.failure_details,
                assigned_worker_id: t.assigned_worker_id,
                ..v
            },
        ),
{
    let a = seq![u64_field(10, t.time_created)];
    let b = opt_u64_field(11, t.time_started);
    let c = opt_u64_field(12, t.time_done);
    let d = seq![u64_field(13, t.failure_count)];
    let e = opt_str_field(14, t.failure_details);
    let f = seq![str_field(15, t.assigned_worker_id)];
    lemma_le_round_trip(t.time_created);
    lemma_le_round_trip(t.failure_count);
    lemma_read_task_one(v, u64_field(10, t.time_created));
    let v1 = TaskView { time_created: t.time_created, ..v };
    assert(read_task_fields(v, a) == Some(v1));
    lemma_read_task_opt_u64(v1, 11, t.time_started);
    let v2 = TaskView { time_started: t.time_started, ..v1 };
    assert(read_task_fields(v1, b) == Some(v2));
    lemma_read_task_append(v, a, b);
    assert(read_task_fields(v, a + b) == Some(v2));
    lemma_read_task_opt_u64(v2, 12, t.time_done);
    let v3 = TaskView { time_done: t.time_done, ..v2 };
    assert(read_task_fields(v2, c) == Some(v3));
    lemma_read_task_append(v, a + b, c);
    lemma_read_task_one(v3, u64_field(13, t.failure_count));
    let v4 = TaskView { failure_count: t.failure_count, ..v3 };
    assert(read_task_fields(v3, d) == Some(v4));
    lemma_read_task_append(v, a + b + c, d);
    lemma_read_task_opt_str(v4, 14, t.failure_details);
    let v5 = TaskView { failure_details: t.failure_details, ..v4 };
    assert(read_task_fields(v4, e) == Some(v5));
    lemma_read_task_append(v, a + b + c + d, e);
    lemma_read_task_one(v5, str_field(15, t.assigned_worker_id));
    let v6 = TaskView { assigned_worker_id: t.assigned_worker_id, ..v5 };
    assert(read_task_fields(v5, f) == Some(v6));
    lemma_read_task_append(v, a + b + c + d + e, f);
    assert(task_tail(t) == a + b + c + d + e + f);
}

/// Saving then loading a task gives it back: a task written as a record
/// reads back as the same task, field for field.
pub proof fn lemma_task_round_trip(t: TaskView)
    requires
        fields_fit(task_fields(t)),
    ensures
        decode_task_spec(frame(task_fields(t))) == Some(t),
{
    lemma_parse_frame(task_fields(t));
    let v0 = blank_task();
    lemma_read_task_head(v0, t);
    let v1 = TaskView {
        id: t.id,
        job_id: t.job_id,
        kind: t.kind,
        status: t.status,
        payload_path: t.payload_path,
        ..v0
    };
    lemma_read_task_middle(v1, t);
    let v2 = TaskView {
        input_chunk: t.input_chunk,
        output_file: t.output_file,
        intermediate_key: t.intermediate_key,
        input_file_paths: t.input_file_paths,
        ..v1
    };
    lemma_read_task_append(v0, task_head(t), task_middle(t));
    lemma_read_task_tail(v2, t);
    lemma_read_task_append(v0, task_head(t) + task_middle(t), task_tail(t));
}

fn kind_to_byte(k: TaskType) -> (r: u8)
    ensures
        r == kind_byte(k),
{
    match k {
        TaskType::MapTask => 0,
        TaskType::ReduceTask => 1,
    }
}

fn task_status_to_byte(st: TaskStatus) -> (r: u8)
    ensures
        r == task_status_byte(st),
{
    match st {
        TaskStatus::Pending => 0,
        TaskStatus::InProgress => 1,
        TaskStatus::Done => 2,
        TaskStatus::Failed => 3,
        TaskStatus::Unknown => 4,
    }
}

fn chunk_payload(c: &InputChunk) -> (r: Vec<u8>)
    ensures
        r@ == chunk_bytes(chunk_rec_view(*c)),
{
    let mut r: Vec<u8> = Vec::new();
    push_u64(&mut r, c.start_byte);
    push_u64(&mut r, c.end_byte);
    push_bytes(&mut r, c.path.as_str().as_bytes());
    proof {
        assert(r@ =~= chunk_bytes(chunk_rec_view(*c)));
    }
    r
}

fn push_opt_str_field(out: &mut Vec<u8>, tag: u8, o: &Option<String>, Ghost(fs): Ghost<Seq<Field>>)
    requires
        old(out)@ == frame(fs),
    ensures
        final(out)@ == frame(fs + opt_str_field(tag, opt_string_view(*o))),
{
    match o {
        Some(s) => {
            push_str_field(out, tag, s, Ghost(fs));
            proof {
                assert(fs.push(str_field(tag, s@)) =~= fs + opt_str_field(tag, opt_string_view(*o)));
            }
        },
        None => {
            proof {
                assert(fs =~= fs + opt_str_field(tag, opt_string_view(*o)));
            }
        },
    }
}

fn push_opt_u64_field(out: &mut Vec<u8>, tag: u8, o: Option<u64>, Ghost(fs): Ghost<Seq<Field>>)
    requires
        old(out)@ == frame(fs),
    ensures
        final(out)@ == frame(fs + opt_u64_field(tag, o)),
{
    match o {
        Some(v) => {
            push_u64_field(out, tag, v, Ghost(fs));
            proof {
                assert(fs.push(u64_field(tag, v)) =~= fs + opt_u64_field(tag, o));
            }
        },
        None => {
            proof {
                assert(fs =~= fs + opt_u64_field(tag, o));
            }
        },
    }
}

fn push_task_head(out: &mut Vec<u8>, t: &Task, Ghost(fs0): Ghost<Seq<Field>>)
    requires
        old(out)@ == frame(fs0),
    ensures
        final(out)@ == frame(fs0 + task_head(task_view(*t))),
{
    let ghost mut fs = fs0;
    push_str_field(out, 1, &t.id, Ghost(fs));
    proof { fs = fs.push(str_field(1, t.id@)); }
    push_str_field(out, 2, &t.job_id, Ghost(fs));
    proof { fs = fs.push(str_field(2, t.job_id@)); }
    push_byte_field(out, 3, kind_to_byte(t.kind), Ghost(fs));
    proof { fs = fs.push((3u8, seq![kind_byte(t.kind)])); }
    push_byte_field(out, 4, task_status_to_byte(t.status), Ghost(fs));
    proof { fs = fs.push((4u8, seq![task_status_byte(t.status)])); }
    push_str_field(out, 5, &t.payload_path, Ghost(fs));
    proof {
        fs = fs.push(str_field(5, t.payload_path@));
        assert(fs =~= fs0 + task_head(task_view(*t)));
    }
}

fn push_task_middle(out: &mut Vec<u8>, t: &Task, Ghost(fs0): Ghost<Seq<Field>>)
    requires
        old(out)@ == frame(fs0),
    ensures
        final(out)@ == frame(fs0 + task_middle(task_view(*t))),
{
    let ghost mut fs = fs0;
    match &t.input_chunk {
        Some(c) => {
            let payload = chunk_payload(c);
            push_field(out, 6, payload.as_slice());
            proof {
                lemma_frame_push(fs, (6u8, chunk_bytes(chunk_rec_view(*c))));
                fs = fs.push((6u8, chunk_bytes(chunk_rec_view(*c))));
            }
        },
        None => {},
    }
    proof {
        assert(fs =~= fs0 + opt_chunk_field(task_view(*t).input_chunk));
    }
    push_opt_str_field(out, 7, &t.output_file, Ghost(fs));
    proof { fs = fs + opt_str_field(7, opt_string_view(t.output_file)); }
    push_opt_str_field(out, 8, &t.intermediate_key, Ghost(fs));
    proof { fs = fs + opt_str_field(8, opt_string_view(t.intermediate_key)); }
    push_str_fields(out, 9, &t.input_file_paths, Ghost(fs));
    proof {
        fs = fs + str_fields(9, strings_view(t.input_file_paths@));
        assert(fs =~= fs0 + task_middle(task_view(*t)));
    }
}

fn push_task_tail(out: &mut Vec<u8>, t: &Task, Ghost(fs0): Ghost<Seq<Field>>)
    requires
        old(out)@ == frame(fs0),
    ensures
        final(out)@ == frame(fs0 + task_tail(task_view(*t))),
{
    let ghost mut fs = fs0;
    push_u64_field(out, 10, t.time_created, Ghost(fs));
    proof { fs = fs.push(u64_field(10, t.time_created)); }
    push_opt_u64_field(out, 11, t.time_started, Ghost(fs));
    proof { fs = fs + opt_u64_field(11, t.time_started); }
    push_opt_u64_field(out, 12, t.time_done, Ghost(fs));
    proof { fs = fs + opt_u64_field(12, t.time_done); }
    push_u64_field(out, 13, t.failure_count, Ghost(fs));
    proof { fs = fs.push(u64_field(13, t.failure_count)); }
    push_opt_str_field(out, 14, &t.failure_details, Ghost(fs));
    proof { fs = fs + opt_str_field(14, opt_string_view(t.failure_details)); }
    push_str_field(out, 15, &t.assigned_worker_id, Ghost(fs));
    proof {
        fs = fs.push(str_field(15, t.assigned_worker_id@));
        assert(fs =~= fs0 + task_tail(task_view(*t)));
    }
}

/// The record of a task.
pub fn encode_task(t: &Task) -> (r: Vec<u8>)
    ensures
        r@ == frame(task_fields(task_view(*t))),
        decode_task_spec(r@) == Some(task_view(*t)),
{
    let mut out: Vec<u8> = Vec::new();
    let ghost e: Seq<Field> = seq![];
    proof {
        assert(out@ =~= frame(e));
    }
    push_task_head(&mut out, t, Ghost(e));
    let ghost h = e + task_head(task_view(*t));
    push_task_middle(&mut out, t, Ghost(h));
    let ghost m = h + task_middle(task_view(*t));
    push_task_tail(&mut out, t, Ghost(m));
    proof {
        assert(m + task_tail(task_view(*t)) =~= task_fields(task_view(*t)));
    }
    let n = out.len();
    proof {
        lemma_fields_fit_in_memory(task_fields(task_view(*t)), n);
        lemma_task_round_trip(task_view(*t));
    }
    out
}

/// Reads a string field (numbers 1, 2, 5, 7, 8, 9, 14 and 15) into `task`.
fn read_task_str_field(task: &mut Task, tag: u8, b: &[u8], start: usize, end: usize) -> (ok: bool)
    requires
        start <= end <= b@.len(),
        tag == 1 || tag == 2 || tag == 5 || tag == 7 || tag == 8 || tag == 9 || tag == 14 || tag
            == 15,
    ensures
        ok == apply_task_field(task_view(*old(task)), (tag, b@.subrange(start as int, end as int))).is_some(),
        ok ==> task_view(*final(task)) == apply_task_field(
            task_view(*old(task)),
            (tag, b@.subrange(start as int, end as int)),
        )->0,
{
    let s = match read_string(b, start, end) {
        Some(s) => s,
        None => return false,
    };
    let ghost before = task.input_file_paths@;
    if tag == 1 {
        task.id = s;
    } else if tag == 2 {
        task.job_id = s;
    } else if tag == 5 {
        task.payload_path = s;
    } else if tag == 7 {
        task.output_file = Some(s);
    } else if tag == 8 {
        task.intermediate_key = Some(s);
    } else if tag == 9 {
        task.input_file_paths.push(s);
        proof {
            assert(strings_view(task.input_file_paths@) =~= strings_view(before).push(s@));
        }
    } else if tag == 14 {
        task.failure_details = Some(s);
    } else {
        task.assigned_worker_id = s;
    }
    true
}

/// Reads a number, enumeration or chunk field (numbers 3, 4, 6 and 10 to 13)
/// into `task`.
fn read_task_num_field(task: &mut Task, tag: u8, b: &[u8], start: usize, end: usize) -> (ok: bool)
    requires
        start <= end <= b@.len(),
        tag == 3 || tag == 4 || tag == 6 || (10 <= tag <= 13),
    ensures
        ok == apply_task_field(task_view(*old(task)), (tag, b@.subrange(start as int, end as int))).is_some(),
        ok ==> task_view(*final(task)) == apply_task_field(
            task_view(*old(task)),
            (tag, b@.subrange(start as int, end as int)),
        )->0,
{
    let ghost p = b@.subrange(start as int, end as int);
    if tag == 6 {
        if end - start < 16 {
            return false;
        }
        let path = match read_string(b, start + 16, end) {
            Some(s) => s,
            None => {
                proof {
                    assert(p.subrange(16, p.len() as int) =~= b@.subrange(start + 16, end as int));
                }
                return false;
            },
        };
        let s0 = read_u64(b, start);
        let s1 = read_u64(b, start + 8);
        proof {
            assert(p.subrange(16, p.len() as int) =~= b@.subrange(start + 16, end as int));
            assert(p.subrange(0, 8) =~= b@.subrange(start as int, start + 8));
            assert(p.subrange(8, 16) =~= b@.subrange(start + 8, start + 16));
        }
        task.input_chunk = Some(InputChunk { path, start_byte: s0, end_byte: s1 });
        return true;
    }
    if tag == 3 || tag == 4 {
        if end - start != 1 {
            return false;
        }
        let v = b[start];
        proof {
            assert(p[0] == v);
        }
        if tag == 3 {
            if v == 0 {
                task.kind = TaskType::MapTask;
            } else if v == 1 {
                task.kind = TaskType::ReduceTask;
            } else {
                return false;
            }
        } else {
            if v == 0 {
                task.status = TaskStatus::Pending;
            } else if v == 1 {
                task.status = TaskStatus::InProgress;
            } else if v == 2 {
                task.status = TaskStatus::Done;
            } else if v == 3 {
                task.status = TaskStatus::Failed;
            } else if v == 4 {
                task.status = TaskStatus::Unknown;
            } else {
                return false;
            }
        }
        return true;
    }
    let n = match read_le(b, start, end) {
        Some(n) => n,
        None => return false,
    };
    if tag == 10 {
        task.time_created = n;
    } else if tag == 11 {
        task.time_started = Some(n);
    } else if tag == 12 {
        task.time_done = Some(n);
    } else {
        task.failure_count = n;
    }
    true
}

fn blank_task_exec() -> (t: Task)
    ensures
        task_view(t) == blank_task(),
{
    let t = Task {
        id: String::new(),
        job_id: String::new(),
        kind: TaskType::MapTask,
        status: TaskStatus::Unknown,
        payload_path: String::new(),
        input_chunk: None,
        output_file: None,
        intermediate_key: None,
        input_file_paths: Vec::new(),
        time_created: 0,
        time_started: None,
        time_done: None,
        failure_count: 0,
        failure_details: None,
        assigned_worker_id: String::new(),
    };
    proof {
        assert(strings_view(t.input_file_paths@) =~= Seq::<Seq<char>>::empty());
    }
    t
}

/// The task a record holds, or `None` if the bytes are not a task's record.
/// Fields with unknown numbers are skipped.
pub fn decode_task(b: &[u8]) -> (r: Option<Task>)
    ensures
        r.is_some() == decode_task_spec(b@).is_some(),
        r.is_some() ==> task_view(r->0) == decode_task_spec(b@)->0,
{
    let spans = match parse_fields(b) {
        Some(sp) => sp,
        None => return None,
    };
    let ghost fs = parse(b@)->0;
    let mut task = blank_task_exec();
    let mut k: usize = 0;
    proof {
        assert(fs.subrange(0, 0) =~= Seq::<Field>::empty());
    }
    while k < spans.len()
        invariant
            k <= spans@.len(),
            spans@.len() == fs.len(),
            fs == parse(b@)->0,
            parse(b@).is_some(),
            forall|i: int|
                0 <= i < spans@.len() ==> {
                    let sp = #[trigger] spans@[i];
                    &&& sp.start <= sp.end <= b@.len()
                    &&& sp.tag == fs[i].0
                    &&& b@.subrange(sp.start as int, sp.end as int) == fs[i].1
                },
            read_task_fields(blank_task(), fs.subrange(0, k as int)) == Some(task_view(task)),
        decreases spans@.len() - k,
    {
        let sp = spans[k];
        proof {
            let pre = fs.subrange(0, k + 1);
            assert(pre.drop_last() =~= fs.subrange(0, k as int));
            assert(pre.last() == fs[k as int]);
            assert(fs[k as int] == (sp.tag, b@.subrange(sp.start as int, sp.end as int)));
        }
        let t = sp.tag;
        let ok = if t == 1 || t == 2 || t == 5 || t == 7 || t == 8 || t == 9 || t == 14 || t == 15 {
            read_task_str_field(&mut task, t, b, sp.start, sp.end)
        } else if t == 3 || t == 4 || t == 6 || (10 <= t && t <= 13) {
            read_task_num_field(&mut task, t, b, sp.start, sp.end)
        } else {
            true
        };
        if !ok {
            proof {
                lemma_read_task_append(blank_task(), fs.subrange(0, k + 1), fs.subrange(k + 1, fs.len() as int));
                assert(fs.subrange(0, k + 1) + fs.subrange(k + 1, fs.len() as int) =~= fs);
            }
            return None;
        }
        k = k + 1;
    }
    proof {
        assert(fs.subrange(0, k as int) =~= fs);
    }
    Some(task)
}

} // verus!
