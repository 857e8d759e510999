//! The record of a job in the state store, and its round trip.
use vstd::prelude::*;
use vstd::utf8::*;
use crate::types::{InputDataKind, Job, JobStatus};
use crate::codec::{
    lemma_fields_fit_in_memory,
    fields_fit, frame, lemma_le_round_trip, lemma_parse_frame, opt_str_field,
    opt_string_view, opt_u64_field, parse, parse_fields, push_byte_field, push_str_field,
    push_str_fields, push_u64_field, read_le, read_string, str_field, str_fields,
    strings_view, u64_field, le, utf8, Field,
};

verus! {

broadcast use {encode_utf8_decode_utf8, encode_utf8_valid_utf8};

/// A job as its record holds it: every string by its characters.
pub ghost struct JobView {
    pub id: Seq<char>,
    pub client_id: Seq<char>,
    pub payload_path: Seq<char>,
    pub input_directory: Seq<char>,
    pub output_directory: Seq<char>,
    pub input_kind: InputDataKind,
    pub output_files: Seq<Seq<char>>,
    pub status: JobStatus,
    pub status_details: Option<Seq<char>>,
    pub map_tasks_total: u64,
    pub map_tasks_completed: u64,
    pub reduce_tasks_total: u64,
    pub reduce_tasks_completed: u64,
    pub time_created: u64,
    pub time_started: Option<u64>,
    pub time_completed: Option<u64>,
    pub cpu_time: u64,
}

pub open spec fn job_view(j: Job) -> JobView {
    JobView {
        id: j.id@,
        client_id: j.client_id@,
        payload_path: j.payload_path@,
        input_directory: j.input_directory@,
        output_directory: j.output_directory@,
        input_kind: j.input_kind,
        output_files: strings_view(j.output_files@),
        status: j.status,
        status_details: opt_string_view(j.status_details),
        map_tasks_total: j.map_tasks_total,
        map_tasks_completed: j.map_tasks_completed,
        reduce_tasks_total: j.reduce_tasks_total,
        reduce_tasks_completed: j.reduce_tasks_completed,
        time_created: j.time_created,
        time_started: j.time_started,
        time_completed: j.time_completed,
        cpu_time: j.cpu_time,
    }
}

pub open spec fn input_kind_byte(k: InputDataKind) -> u8 {
    match k {
        InputDataKind::Undefined => 0,
        InputDataKind::TextNewlines => 1,
    }
}

pub open spec fn byte_input_kind(b: Seq<u8>) -> Option<InputDataKind> {
    if b.len() != 1 {
        None
    } else if b[0] == 0 {
        Some(InputDataKind::Undefined)
    } else if b[0] == 1 {
        Some(InputDataKind::TextNewlines)
    } else {
        None
    }
}

pub open spec fn job_status_byte(s: JobStatus) -> u8 {
    match s {
        JobStatus::Queued => 0,
        JobStatus::InProgress => 1,
        JobStatus::Done => 2,
        JobStatus::Failed => 3,
    }
}

pub open spec fn byte_job_status(b: Seq<u8>) -> Option<JobStatus> {
    if b.len() != 1 {
        None
    } else if b[0] == 0 {
        Some(JobStatus::Queued)
    } else if b[0] == 1 {
        Some(JobStatus::InProgress)
    } else if b[0] == 2 {
        Some(JobStatus::Done)
    } else if b[0] == 3 {
        Some(JobStatus::Failed)
    } else {
        None
    }
}

/// The fields of a job's record, in the order they are written.
pub open spec fn job_fields(j: JobView) -> Seq<Field> {
    job_head(j) + job_middle(j) + job_tail(j)
}

pub open spec fn job_middle(j: JobView) -> Seq<Field> {
    str_fields(7, j.output_files) + seq![(8u8, seq![job_status_byte(j.status)])] + opt_str_field(
        9,
        j.status_details,
    )
}

pub open spec fn job_tail(j: JobView) -> Seq<Field> {
    job_counts(j) + opt_u64_field(15, j.time_started) + opt_u64_field(16, j.time_completed) + seq![
        u64_field(17, j.cpu_time),
    ]
}

/// The job a reader starts from before the first field.
pub open spec fn blank_job() -> JobView {
    JobView {
        id: seq![],
        client_id: seq![],
        payload_path: seq![],
        input_directory: seq![],
        output_directory: seq![],
        input_kind: InputDataKind::Undefined,
        output_files: seq![],
        status: JobStatus::Queued,
        status_details: None,
        map_tasks_total: 0,
        map_tasks_completed: 0,
        reduce_tasks_total: 0,
        reduce_tasks_completed: 0,
        time_created: 0,
        time_started: None,
        time_completed: None,
        cpu_time: 0,
    }
}

/// Reads one field into the job read so far; unknown field numbers are skipped.
pub open spec fn apply_job_field(v: JobView, f: Field) -> Option<JobView> {
    let (tag, p) = f;
    if tag == 1 {
        match utf8(p) { Some(s) => Some(JobView { id: s, ..v }), None => None }
    } else if tag == 2 {
        match utf8(p) { Some(s) => Some(JobView { client_id: s, ..v }), None => None }
    } else if tag == 3 {
        match utf8(p) { Some(s) => Some(JobView { payload_path: s, ..v }), None => None }
    } else if tag == 4 {
        match utf8(p) { Some(s) => Some(JobView { input_directory: s, ..v }), None => None }
    } else if tag == 5 {
        match utf8(p) { Some(s) => Some(JobView { output_directory: s, ..v }), None => None }
    } else if tag == 6 {
        match byte_input_kind(p) { Some(k) => Some(JobView { input_kind: k, ..v }), None => None }
    } else if tag == 7 {
        match utf8(p) {
            Some(s) => Some(JobView { output_files: v.output_files.push(s), ..v }),
            None => None,
        }
    } else if tag == 8 {
        match byte_job_status(p) { Some(st) => Some(JobView { status: st, ..v }), None => None }
    } else if tag == 9 {
        match utf8(p) { Some(s) => Some(JobView { status_details: Some(s), ..v }), None => None }
    } else if tag == 10 {
        match le(p) { Some(n) => Some(JobView { map_tasks_total: n, ..v }), None => None }
    } else if tag == 11 {
        match le(p) { Some(n) => Some(JobView { map_tasks_completed: n, ..v }), None => None }
    } else if tag == 12 {
        match le(p) { Some(n) => Some(JobView { reduce_tasks_total: n, ..v }), None => None }
    } else if tag == 13 {
        match le(p) { Some(n) => Some(JobView { reduce_tasks_completed: n, ..v }), None => None }
    } else if tag == 14 {
        match le(p) { Some(n) => Some(JobView { time_created: n, ..v }), None => None }
    } else if tag == 15 {
        match le(p) { Some(n) => Some(JobView { time_started: Some(n), ..v }), None => None }
    } else if tag == 16 {
        match le(p) { Some(n) => Some(JobView { time_completed: Some(n), ..v }), None => None }
    } else if tag == 17 {
        match le(p) { Some(n) => Some(JobView { cpu_time: n, ..v }), None => None }
    } else {
        Some(v)
    }
}

/// Reads the fields `fs` in order into `v`; `None` at the first bad payload.
pub open spec fn read_job_fields(v: JobView, fs: Seq<Field>) -> Option<JobView>
    decreases fs.len(),
{
    if fs.len() == 0 {
        Some(v)
    } else {
        match read_job_fields(v, fs.drop_last()) {
            Some(w) => apply_job_field(w, fs.last()),
            None => None,
        }
    }
}

/// The job that the bytes `b` hold, if they hold one.
pub open spec fn decode_job_spec(b: Seq<u8>) -> Option<JobView> {
    match parse(b) {
        Some(fs) => read_job_fields(blank_job(), fs),
        None => None,
    }
}

pub proof fn lemma_read_job_append(v: JobView, a: Seq<Field>, b: Seq<Field>)
    ensures
        read_job_fields(v, a + b) == (match read_job_fields(v, a) {
            Some(w) => read_job_fields(w, b),
            None => None,
        }),
    decreases b.len(),
{
    if b.len() == 0 {
        assert(a + b =~= a);
    } else {
        assert((a + b).drop_last() =~= a + b.drop_last());
        assert((a + b).last() == b.last());
        lemma_read_job_append(v, a, b.drop_last());
    }
}

proof fn lemma_read_job_output_files(v: JobView, ss: Seq<Seq<char>>)
    ensures
        read_job_fields(v, str_fields(7, ss)) == Some(
            JobView { output_files: v.output_files + ss, ..v },
        ),
    decreases ss.len(),
{
    if ss.len() == 0 {
        assert(str_fields(7, ss) =~= Seq::<Field>::empty());
        assert(v.output_files + ss =~= v.output_files);
    } else {
        let fs = str_fields(7, ss);
        assert(fs.drop_last() =~= str_fields(7, ss.drop_last()));
        lemma_read_job_output_files(v, ss.drop_last());
        assert(v.output_files + ss.drop_last() + seq![ss.last()] =~= v.output_files + ss);
        assert(fs.last() == str_field(7, ss.last()));
        assert((v.output_files + ss.drop_last()).push(ss.last()) =~= v.output_files + ss);
    }
}

proof fn lemma_read_one(v: JobView, f: Field)
    ensures
        read_job_fields(v, seq![f]) == apply_job_field(v, f),
{
    reveal_with_fuel(read_job_fields, 2);
    assert(seq![f].drop_last() =~= Seq::<Field>::empty());
    assert(seq![f].last() == f);
}

pub open spec fn job_head(j: JobView) -> Seq<Field> {
    seq![
        str_field(1, j.id),
        str_field(2, j.client_id),
        str_field(3, j.payload_path),
        str_field(4, j.input_directory),
        str_field(5, j.output_directory),
        (6u8, seq![input_kind_byte(j.input_kind)]),
    ]
}

pub open spec fn job_counts(j: JobView) -> Seq<Field> {
    seq![
        u64_field(10, j.map_tasks_total),
        u64_field(11, j.map_tasks_completed),
        u64_field(12, j.reduce_tasks_total),
        u64_field(13, j.reduce_tasks_completed),
        u64_field(14, j.time_created),
    ]
}

proof fn lemma_read_head(v: JobView, j: JobView)
    ensures
        read_job_fields(v, job_head(j)) == Some(
            JobView {
                id: j.id,
                client_id: j.client_id,
                payload_path: j.payload_path,
                input_directory: j.input_directory,
                output_directory: j.output_directory,
                input_kind: j.input_kind,
                ..v
            },
        ),
{
    let h = job_head(j);
    assert(h.subrange(0, 0) =~= Seq::<Field>::empty());
    assert(h.subrange(0, 1).drop_last() =~= h.subrange(0, 0));
    assert(h.subrange(0, 2).drop_last() =~= h.subrange(0, 1));
    assert(h.subrange(0, 3).drop_last() =~= h.subrange(0, 2));
    assert(h.subrange(0, 4).drop_last() =~= h.subrange(0, 3));
    assert(h.subrange(0, 5).drop_last() =~= h.subrange(0, 4));
    assert(h.subrange(0, 6).drop_last() =~= h.subrange(0, 5));
    assert(h.subrange(0, 6) =~= h);
    assert(read_job_fields(v, h.subrange(0, 0)) == Some(v));
    assert(read_job_fields(v, h.subrange(0, 1)) == Some(JobView { id: j.id, ..v }));
    assert(read_job_fields(v, h.subrange(0, 2)) == Some(
        JobView { id: j.id, client_id: j.client_id, ..v },
    ));
    assert(read_job_fields(v, h.subrange(0, 3)) == Some(
        JobView { id: j.id, client_id: j.client_id, payload_path: j.payload_path, ..v },
    ));
    assert(read_job_fields(v, h.subrange(0, 4)) == Some(
        JobView {
            id: j.id,
            client_id: j.client_id,
            payload_path: j.payload_path,
            input_directory: j.input_directory,
            ..v
        },
    ));
    assert(read_job_fields(v, h.subrange(0, 5)) == Some(
        JobView {
            id: j.id,
            client_id: j.client_id,
            payload_path: j.payload_path,
            input_directory: j.input_directory,
            output_directory: j.output_directory,
            ..v
        },
    ));
}

proof fn lemma_read_counts(v: JobView, j: JobView)
    ensures
        read_job_fields(v, job_counts(j)) == Some(
            JobView {
                map_tasks_total: j.map_tasks_total,
                map_tasks_completed: j.map_tasks_completed,
                reduce_tasks_total: j.reduce_tasks_total,
                reduce_tasks_completed: j.reduce_tasks_completed,
                time_created: j.time_created,
                ..v
            },
        ),
{
    lemma_le_round_trip(j.map_tasks_total);
    lemma_le_round_trip(j.map_tasks_completed);
    lemma_le_round_trip(j.reduce_tasks_total);
    lemma_le_round_trip(j.reduce_tasks_completed);
    lemma_le_round_trip(j.time_created);
    let h = job_counts(j);
    assert(h.subrange(0, 0) =~= Seq::<Field>::empty());
    assert(h.subrange(0, 1).drop_last() =~= h.subrange(0, 0));
    assert(h.subrange(0, 2).drop_last() =~= h.subrange(0, 1));
    assert(h.subrange(0, 3).drop_last() =~= h.subrange(0, 2));
    assert(h.subrange(0, 4).drop_last() =~= h.subrange(0, 3));
    assert(h.subrange(0, 5).drop_last() =~= h.subrange(0, 4));
    assert(h.subrange(0, 5) =~= h);
    assert(read_job_fields(v, h.subrange(0, 0)) == Some(v));
    assert(read_job_fields(v, h.subrange(0, 1)) == Some(
        JobView { map_tasks_total: j.map_tasks_total, ..v },
    ));
    assert(read_job_fields(v, h.subrange(0, 2)) == Some(
        JobView {
            map_tasks_total: j.map_tasks_total,
            map_tasks_completed: j.map_tasks_completed,
            ..v
        },
    ));
    assert(read_job_fields(v, h.subrange(0, 3)) == Some(
        JobView {
            map_tasks_total: j.map_tasks_total,
            map_tasks_completed: j.map_tasks_completed,
            reduce_tasks_total: j.reduce_tasks_total,
            ..v
        },
    ));
    assert(read_job_fields(v, h.subrange(0, 4)) == Some(
        JobView {
            map_tasks_total: j.map_tasks_total,
            map_tasks_completed: j.map_tasks_completed,
            reduce_tasks_total: j.reduce_tasks_total,
            reduce_tasks_completed: j.reduce_tasks_completed,
            ..v
        },
    ));
}

/// Saving then loading a job gives it back: the record that `encode_job`
/// writes reads back, through `decode_job`, as the same job: every field,
/// every output file in order, every absent optional field absent again.
proof fn lemma_read_middle(v: JobView, j: JobView)
    requires
        v.output_files.len() == 0,
        v.status_details.is_none(),
    ensures
        read_job_fields(v, job_middle(j)) == Some(
            JobView { output_files: j.output_files, status: j.status, status_details: j.status_details, ..v },
        ),
{
    let files = str_fields(7, j.output_files);
    let status = seq![(8u8, seq![job_status_byte(j.status)])];
    let details = opt_str_field(9, j.status_details);
    lemma_read_job_output_files(v, j.output_files);
    assert(v.output_files + j.output_files =~= j.output_files);
    let v2 = JobView { output_files: j.output_files, ..v };
    let v3 = JobView { status: j.status, ..v2 };
    lemma_read_one(v2, (8u8, seq![job_status_byte(j.status)]));
    lemma_read_job_append(v, files, status);
    let v4 = JobView { status_details: j.status_details, ..v3 };
    if j.status_details.is_some() {
        lemma_read_one(v3, str_field(9, j.status_details->0));
        assert(details == seq![str_field(9, j.status_details->0)]);
    } else {
        assert(details =~= Seq::<Field>::empty());
    }
    assert(read_job_fields(v3, details) == Some(v4));
    lemma_read_job_append(v, files + status, details);
}

proof fn lemma_read_tail(v: JobView, j: JobView)
    requires
        v.time_started.is_none(),
        v.time_completed.is_none(),
    ensures
        read_job_fields(v, job_tail(j)) == Some(
            JobView {
                map_tasks_total: j.map_tasks_total,
                map_tasks_completed: j.map_tasks_completed,
                reduce_tasks_total: j.reduce_tasks_total,
                reduce_tasks_completed: j.reduce_tasks_completed,
                time_created: j.time_created,
                time_started: j.time_started,
                time_completed: j.time_completed,
                cpu_time: j.cpu_time,
                ..v
            },
        ),
{
    let counts = job_counts(j);
    let started = opt_u64_field(15, j.time_started);
    let completed = opt_u64_field(16, j.time_completed);
    let cpu = seq![u64_field(17, j.cpu_time)];
    lemma_le_round_trip(j.cpu_time);
    lemma_read_counts(v, j);
    let v5 = JobView {
        map_tasks_total: j.map_tasks_total,
        map_tasks_completed: j.map_tasks_completed,
        reduce_tasks_total: j.reduce_tasks_total,
        reduce_tasks_completed: j.reduce_tasks_completed,
        time_created: j.time_created,
        ..v
    };
    let v6 = JobView { time_started: j.time_started, ..v5 };
    if j.time_started.is_some() {
        lemma_le_round_trip(j.time_started->0);
        lemma_read_one(v5, u64_field(15, j.time_started->0));
        assert(started == seq![u64_field(15, j.time_started->0)]);
    } else {
        assert(started =~= Seq::<Field>::empty());
    }
    assert(read_job_fields(v5, started) == Some(v6));
    lemma_read_job_append(v, counts, started);
    let v7 = JobView { time_completed: j.time_completed, ..v6 };
    if j.time_completed.is_some() {
        lemma_le_round_trip(j.time_completed->0);
        lemma_read_one(v6, u64_field(16, j.time_completed->0));
        assert(completed == seq![u64_field(16, j.time_completed->0)]);
    } else {
        assert(completed =~= Seq::<Field>::empty());
    }
    assert(read_job_fields(v6, completed) == Some(v7));
    lemma_read_job_append(v, counts + started, completed);
    lemma_read_one(v7, u64_field(17, j.cpu_time));
    lemma_read_job_append(v, counts + started + completed, cpu);
}

/// Saving then loading a job gives it back: the record that `encode_job`
/// writes reads back, through `decode_job`, as the same job: every field,
/// every output file in order, every absent optional field absent again.
pub proof fn lemma_job_round_trip(j: JobView)
    requires
        fields_fit(job_fields(j)),
    ensures
        decode_job_spec(frame(job_fields(j))) == Some(j),
{
    lemma_parse_frame(job_fields(j));
    let v0 = blank_job();
    lemma_read_head(v0, j);
    let v1 = JobView {
        id: j.id,
        client_id: j.client_id,
        payload_path: j.payload_path,
        input_directory: j.input_directory,
        output_directory: j.output_directory,
        input_kind: j.input_kind,
        ..v0
    };
    lemma_read_middle(v1, j);
    let v2 = JobView { output_files: j.output_files, status: j.status, status_details: j.status_details, ..v1 };
    lemma_read_job_append(v0, job_head(j), job_middle(j));
    lemma_read_tail(v2, j);
    lemma_read_job_append(v0, job_head(j) + job_middle(j), job_tail(j));
}

fn input_kind_to_byte(k: InputDataKind) -> (r: u8)
    ensures
        r == input_kind_byte(k),
{
    match k {
        InputDataKind::Undefined => 0,
        InputDataKind::TextNewlines => 1,
    }
}

fn job_status_to_byte(st: JobStatus) -> (r: u8)
    ensures
        r == job_status_byte(st),
{
    match st {
        JobStatus::Queued => 0,
        JobStatus::InProgress => 1,
        JobStatus::Done => 2,
        JobStatus::Failed => 3,
    }
}

fn push_job_head(out: &mut Vec<u8>, j: &Job, Ghost(fs0): Ghost<Seq<Field>>)
    requires
        old(out)@ == frame(fs0),
    ensures
        final(out)@ == frame(fs0 + job_head(job_view(*j))),
{
    let ghost mut fs = fs0;
    push_str_field(out, 1, &j.id, Ghost(fs));
    proof { fs = fs.push(str_field(1, j.id@)); }
    push_str_field(out, 2, &j.client_id, Ghost(fs));
    proof { fs = fs.push(str_field(2, j.client_id@)); }
    push_str_field(out, 3, &j.payload_path, Ghost(fs));
    proof { fs = fs.push(str_field(3, j.payload_path@)); }
    push_str_field(out, 4, &j.input_directory, Ghost(fs));
    proof { fs = fs.push(str_field(4, j.input_directory@)); }
    push_str_field(out, 5, &j.output_directory, Ghost(fs));
    proof { fs = fs.push(str_field(5, j.output_directory@)); }
    push_byte_field(out, 6, input_kind_to_byte(j.input_kind), Ghost(fs));
    proof {
        fs = fs.push((6u8, seq![input_kind_byte(j.input_kind)]));
        assert(fs =~= fs0 + job_head(job_view(*j)));
    }
}

fn push_job_middle(out: &mut Vec<u8>, j: &Job, Ghost(fs0): Ghost<Seq<Field>>)
    requires
        old(out)@ == frame(fs0),
    ensures
        final(out)@ == frame(fs0 + job_middle(job_view(*j))),
{
    let ghost mut fs = fs0;
    push_str_fields(out, 7, &j.output_files, Ghost(fs));
    proof { fs = fs + str_fields(7, strings_view(j.output_files@)); }
    push_byte_field(out, 8, job_status_to_byte(j.status), Ghost(fs));
    proof { fs = fs.push((8u8, seq![job_status_byte(j.status)])); }
    match &j.status_details {
        Some(d) => {
            push_str_field(out, 9, d, Ghost(fs));
            proof { fs = fs.push(str_field(9, d@)); }
        },
        None => {},
    }
    proof {
        assert(fs =~= fs0 + job_middle(job_view(*j)));
    }
}

fn push_job_tail(out: &mut Vec<u8>, j: &Job, Ghost(fs0): Ghost<Seq<Field>>)
    requires
        old(out)@ == frame(fs0),
    ensures
        final(out)@ == frame(fs0 + job_tail(job_view(*j))),
{
    let ghost mut fs = fs0;
    push_u64_field(out, 10, j.map_tasks_total, Ghost(fs));
    proof { fs = fs.push(u64_field(10, j.map_tasks_total)); }
    push_u64_field(out, 11, j.map_tasks_completed, Ghost(fs));
    proof { fs = fs.push(u64_field(11, j.map_tasks_completed)); }
    push_u64_field(out, 12, j.reduce_tasks_total, Ghost(fs));
    proof { fs = fs.push(u64_field(12, j.reduce_tasks_total)); }
    push_u64_field(out, 13, j.reduce_tasks_completed, Ghost(fs));
    proof { fs = fs.push(u64_field(13, j.reduce_tasks_completed)); }
    push_u64_field(out, 14, j.time_created, Ghost(fs));
    proof { fs = fs.push(u64_field(14, j.time_created)); }
    match j.time_started {
        Some(t) => {
            push_u64_field(out, 15, t, Ghost(fs));
            proof { fs = fs.push(u64_field(15, t)); }
        },
        None => {},
    }
    match j.time_completed {
        Some(t) => {
            push_u64_field(out, 16, t, Ghost(fs));
            proof { fs = fs.push(u64_field(16, t)); }
        },
        None => {},
    }
    push_u64_field(out, 17, j.cpu_time, Ghost(fs));
    proof {
        fs = fs.push(u64_field(17, j.cpu_time));
        assert(fs =~= fs0 + job_tail(job_view(*j)));
    }
}

/// The record of a job.
pub fn encode_job(j: &Job) -> (r: Vec<u8>)
    ensures
        r@ == frame(job_fields(job_view(*j))),
        decode_job_spec(r@) == Some(job_view(*j)),
{
    let mut out: Vec<u8> = Vec::new();
    let ghost e: Seq<Field> = seq![];
    proof {
        assert(out@ =~= frame(e));
    }
    push_job_head(&mut out, j, Ghost(e));
    let ghost h = e + job_head(job_view(*j));
    push_job_middle(&mut out, j, Ghost(h));
    let ghost m = h + job_middle(job_view(*j));
    push_job_tail(&mut out, j, Ghost(m));
    proof {
        assert(m + job_tail(job_view(*j)) =~= job_fields(job_view(*j)));
    }
    let n = out.len();
    proof {
        lemma_fields_fit_in_memory(job_fields(job_view(*j)), n);
        lemma_job_round_trip(job_view(*j));
    }
    out
}

/// Reads a string field (numbers 1 to 5, 7 and 9) into `job`.
fn read_job_str_field(job: &mut Job, tag: u8, b: &[u8], start: usize, end: usize) -> (ok: bool)
    requires
        start <= end <= b@.len(),
        tag == 1 || tag == 2 || tag == 3 || tag == 4 || tag == 5 || tag == 7 || tag == 9,
    ensures
        ok == apply_job_field(job_view(*old(job)), (tag, b@.subrange(start as int, end as int))).is_some(),
        ok ==> job_view(*final(job)) == apply_job_field(
            job_view(*old(job)),
            (tag, b@.subrange(start as int, end as int)),
        )->0,
{
    let s = match read_string(b, start, end) {
        Some(s) => s,
        None => return false,
    };
    let ghost before = job.output_files@;
    if tag == 1 {
        job.id = s;
    } else if tag == 2 {
        job.client_id = s;
    } else if tag == 3 {
        job.payload_path = s;
    } else if tag == 4 {
        job.input_directory = s;
    } else if tag == 5 {
        job.output_directory = s;
    } else if tag == 7 {
        job.output_files.push(s);
        proof {
            assert(strings_view(job.output_files@) =~= strings_view(before).push(s@));
        }
    } else {
        job.status_details = Some(s);
    }
    true
}

/// Reads a number or enumeration field (numbers 6, 8 and 10 to 17) into `job`.
fn read_job_num_field(job: &mut Job, tag: u8, b: &[u8], start: usize, end: usize) -> (ok: bool)
    requires
        start <= end <= b@.len(),
        tag == 6 || tag == 8 || (10 <= tag <= 17),
    ensures
        ok == apply_job_field(job_view(*old(job)), (tag, b@.subrange(start as int, end as int))).is_some(),
        ok ==> job_view(*final(job)) == apply_job_field(
            job_view(*old(job)),
            (tag, b@.subrange(start as int, end as int)),
        )->0,
{
    let ghost p = b@.subrange(start as int, end as int);
    if tag == 6 || tag == 8 {
        if end - start != 1 {
            return false;
        }
        let v = b[start];
        proof {
            assert(p[0] == v);
        }
        if tag == 6 {
            if v == 0 {
                job.input_kind = InputDataKind::Undefined;
            } else if v == 1 {
                job.input_kind = InputDataKind::TextNewlines;
            } else {
                return false;
            }
        } else {
            if v == 0 {
                job.status = JobStatus::Queued;
            } else if v == 1 {
                job.status = JobStatus::InProgress;
            } else if v == 2 {
                job.status = JobStatus::Done;
            } else if v == 3 {
                job.status = JobStatus::Failed;
            } else {
                return false;
            }
        }
        return true;
    }
    let n = match read_le(b, start, end) {
        Some(n) => n,
        None => return false,
    };
    if tag == 10 {
        job.map_tasks_total = n;
    } else if tag == 11 {
        job.map_tasks_completed = n;
    } else if tag == 12 {
        job.reduce_tasks_total = n;
    } else if tag == 13 {
        job.reduce_tasks_completed = n;
    } else if tag == 14 {
        job.time_created = n;
    } else if tag == 15 {
        job.time_started = Some(n);
    } else if tag == 16 {
        job.time_completed = Some(n);
    } else {
        job.cpu_time = n;
    }
    true
}

fn blank_job_exec() -> (j: Job)
    ensures
        job_view(j) == blank_job(),
{
    let j = Job {
        id: String::new(),
        client_id: String::new(),
        payload_path: String::new(),
        input_directory: String::new(),
        output_directory: String::new(),
        input_kind: InputDataKind::Undefined,
        output_files: Vec::new(),
        status: JobStatus::Queued,
        status_details: None,
        map_tasks_total: 0,
        map_tasks_completed: 0,
        reduce_tasks_total: 0,
        reduce_tasks_completed: 0,
        time_created: 0,
        time_started: None,
        time_completed: None,
        cpu_time: 0,
    };
    proof {
        assert(strings_view(j.output_files@) =~= Seq::<Seq<char>>::empty());
    }
    j
}

/// The job a record holds, or `None` if the bytes are not a job's record.
/// Fields with unknown numbers are skipped.
pub fn decode_job(b: &[u8]) -> (r: Option<Job>)
    ensures
        r.is_some() == decode_job_spec(b@).is_some(),
        r.is_some() ==> job_view(r->0) == decode_job_spec(b@)->0,
{
    let spans = match parse_fields(b) {
        Some(sp) => sp,
        None => return None,
    };
    let ghost fs = parse(b@)->0;
    let mut job = blank_job_exec();
    let mut k: usize = 0;
    proof {
        assert(fs.subrange(0, 0) =~= Seq::<Field>::empty());
    }
    while k < spans.len()
        invariant
            k <= spans@.len(),
            spans@.len() == fs.len(),
            fs == parse(b@)->0,
            parse(b@).is_some(),
            forall|i: int|
                0 <= i < spans@.len() ==> {
                    let sp = #[trigger] spans@[i];
                    &&& sp.start <= sp.end <= b@.len()
                    &&& sp.tag == fs[i].0
                    &&& b@.subrange(sp.start as int, sp.end as int) == fs[i].1
                },
            read_job_fields(blank_job(), fs.subrange(0, k as int)) == Some(job_view(job)),
        decreases spans@.len() - k,
    {
        let sp = spans[k];
        proof {
            let pre = fs.subrange(0, k + 1);
            assert(pre.drop_last() =~= fs.subrange(0, k as int));
            assert(pre.last() == fs[k as int]);
            assert(fs[k as int] == (sp.tag, b@.subrange(sp.start as int, sp.end as int)));
        }
        let t = sp.tag;
        let ok = if t == 1 || t == 2 || t == 3 || t == 4 || t == 5 || t == 7 || t == 9 {
            read_job_str_field(&mut job, t, b, sp.start, sp.end)
        } else if t == 6 || t == 8 || (10 <= t && t <= 17) {
            read_job_num_field(&mut job, t, b, sp.start, sp.end)
        } else {
            true
        };
        if !ok {
            proof {
                lemma_read_job_append(blank_job(), fs.subrange(0, k + 1), fs.subrange(k + 1, fs.len() as int));
                assert(fs.subrange(0, k + 1) + fs.subrange(k + 1, fs.len() as int) =~= fs);
            }
            return None;
        }
        k = k + 1;
    }
    proof {
        assert(fs.subrange(0, k as int) =~= fs);
    }
    Some(job)
}

} // verus!
