//! The binary record format of stored jobs and tasks: framing of fields.
//!
//! A message is a sequence of fields. Each field is a one-byte field number,
//! the payload's length as eight little-endian bytes, and the payload. A
//! reader skips the fields whose numbers it does not know, so newer writers
//! stay readable.
use vstd::prelude::*;
use vstd::utf8::*;

verus! {

broadcast use {encode_utf8_decode_utf8, encode_utf8_valid_utf8};

/// The eight little-endian bytes of `v`.
pub open spec fn le_bytes(v: u64) -> Seq<u8> {
    seq![
        v as u8,
        (v >> 8u64) as u8,
        (v >> 16u64) as u8,
        (v >> 24u64) as u8,
        (v >> 32u64) as u8,
        (v >> 40u64) as u8,
        (v >> 48u64) as u8,
        (v >> 56u64) as u8,
    ]
}

/// The value of eight little-endian bytes.
pub open spec fn le_value(b: Seq<u8>) -> u64 {
    (b[0] as u64) | ((b[1] as u64) << 8u64) | ((b[2] as u64) << 16u64) | ((b[3] as u64) << 24u64)
        | ((b[4] as u64) << 32u64) | ((b[5] as u64) << 40u64) | ((b[6] as u64) << 48u64) | ((
    b[7] as u64) << 56u64)
}

pub proof fn lemma_le_round_trip(v: u64)
    ensures
        le_value(le_bytes(v)) == v,
{
    let b = le_bytes(v);
    assert(b[0] == v as u8 && b[1] == (v >> 8u64) as u8 && b[2] == (v >> 16u64) as u8 && b[3] == (v
        >> 24u64) as u8 && b[4] == (v >> 32u64) as u8 && b[5] == (v >> 40u64) as u8 && b[6] == (v
        >> 48u64) as u8 && b[7] == (v >> 56u64) as u8);
    assert(((v as u8) as u64) | ((((v >> 8u64) as u8) as u64) << 8u64) | ((((v >> 16u64) as u8)
        as u64) << 16u64) | ((((v >> 24u64) as u8) as u64) << 24u64) | ((((v >> 32u64) as u8)
        as u64) << 32u64) | ((((v >> 40u64) as u8) as u64) << 40u64) | ((((v >> 48u64) as u8)
        as u64) << 48u64) | ((((v >> 56u64) as u8) as u64) << 56u64) == v) by (bit_vector);
}

/// One field: its number and its payload.
pub type Field = (u8, Seq<u8>);

/// The bytes of one field.
pub open spec fn frame_field(f: Field) -> Seq<u8> {
    seq![f.0] + le_bytes(f.1.len() as u64) + f.1
}

/// The bytes of a message made of `fs`.
pub open spec fn frame(fs: Seq<Field>) -> Seq<u8>
    decreases fs.len(),
{
    if fs.len() == 0 {
        seq![]
    } else {
        frame_field(fs[0]) + frame(fs.drop_first())
    }
}

/// The fields of a message, or `None` if the bytes are not a message.
pub open spec fn parse(b: Seq<u8>) -> Option<Seq<Field>>
    decreases b.len(),
{
    if b.len() == 0 {
        Some(seq![])
    } else if b.len() < 9 {
        None
    } else {
        let n = le_value(b.subrange(1, 9)) as int;
        if n > b.len() - 9 {
            None
        } else {
            match parse(b.subrange(9 + n, b.len() as int)) {
                Some(rest) => Some(seq![(b[0], b.subrange(9, 9 + n))] + rest),
                None => None,
            }
        }
    }
}

/// Every payload's length fits the length field.
pub open spec fn fields_fit(fs: Seq<Field>) -> bool {
    forall|i: int| 0 <= i < fs.len() ==> (#[trigger] fs[i]).1.len() <= u64::MAX
}

pub proof fn lemma_frame_append(a: Seq<Field>, b: Seq<Field>)
    ensures
        frame(a + b) == frame(a) + frame(b),
    decreases a.len(),
{
    if a.len() == 0 {
        assert(a + b =~= b);
        assert(frame(a) + frame(b) =~= frame(b));
    } else {
        assert((a + b).drop_first() =~= a.drop_first() + b);
        lemma_frame_append(a.drop_first(), b);
        assert(frame(a + b) =~= frame(a) + frame(b));
    }
}

/// Every payload is shorter than the message that holds it.
pub proof fn lemma_payloads_within_frame(fs: Seq<Field>)
    ensures
        forall|i: int| 0 <= i < fs.len() ==> (#[trigger] fs[i]).1.len() <= frame(fs).len(),
    decreases fs.len(),
{
    if fs.len() > 0 {
        lemma_payloads_within_frame(fs.drop_first());
        assert forall|i: int| 0 <= i < fs.len() implies (#[trigger] fs[i]).1.len() <= frame(fs).len() by {
            if i > 0 {
                assert(fs[i] == fs.drop_first()[i - 1]);
            }
        }
    }
}

/// The fields of a message held in memory fit their length fields.
pub proof fn lemma_fields_fit_in_memory(fs: Seq<Field>, len: usize)
    requires
        frame(fs).len() == len,
    ensures
        fields_fit(fs),
{
    lemma_payloads_within_frame(fs);
    assert(len <= u64::MAX);
}

/// Reading a framed message gives back its fields.
pub proof fn lemma_parse_frame(fs: Seq<Field>)
    requires
        fields_fit(fs),
    ensures
        parse(frame(fs)) == Some(fs),
    decreases fs.len(),
{
    if fs.len() == 0 {
        assert(frame(fs) =~= Seq::<u8>::empty());
    } else {
        let f = fs[0];
        let rest = fs.drop_first();
        let b = frame(fs);
        let n = f.1.len() as int;
        lemma_le_round_trip(n as u64);
        assert(b.subrange(1, 9) =~= le_bytes(n as u64));
        assert(b.subrange(9, 9 + n) =~= f.1);
        assert(b.subrange(9 + n, b.len() as int) =~= frame(rest));
        assert forall|i: int| 0 <= i < rest.len() implies (#[trigger] rest[i]).1.len() <= u64::MAX by {
            assert(rest[i] == fs[i + 1]);
        }
        lemma_parse_frame(rest);
        assert(seq![(b[0], b.subrange(9, 9 + n))] + rest =~= fs);
    }
}

pub fn push_u64(out: &mut Vec<u8>, v: u64)
    ensures
        final(out)@ == old(out)@ + le_bytes(v),
{
    out.push(v as u8);
    out.push((v >> 8) as u8);
    out.push((v >> 16) as u8);
    out.push((v >> 24) as u8);
    out.push((v >> 32) as u8);
    out.push((v >> 40) as u8);
    out.push((v >> 48) as u8);
    out.push((v >> 56) as u8);
    proof {
        assert(final(out)@ =~= old(out)@ + le_bytes(v));
    }
}

pub fn read_u64(b: &[u8], pos: usize) -> (r: u64)
    requires
        pos + 8 <= b@.len(),
    ensures
        r == le_value(b@.subrange(pos as int, pos + 8)),
{
    let ghost s = b@.subrange(pos as int, pos + 8);
    assert(s[0] == b@[pos as int] && s[1] == b@[pos + 1] && s[2] == b@[pos + 2] && s[3] == b@[pos
        + 3] && s[4] == b@[pos + 4] && s[5] == b@[pos + 5] && s[6] == b@[pos + 6] && s[7] == b@[pos
        + 7]);
    (b[pos] as u64) | ((b[pos + 1] as u64) << 8) | ((b[pos + 2] as u64) << 16) | ((b[pos + 3] as u64)
        << 24) | ((b[pos + 4] as u64) << 32) | ((b[pos + 5] as u64) << 40) | ((b[pos + 6] as u64)
        << 48) | ((b[pos + 7] as u64) << 56)
}

/// Appends one field.
pub fn push_field(out: &mut Vec<u8>, tag: u8, payload: &[u8])
    ensures
        final(out)@ == old(out)@ + frame_field((tag, payload@)),
{
    out.push(tag);
    push_u64(out, payload.len() as u64);
    let mut i: usize = 0;
    let ghost start = out@;
    while i < payload.len()
        invariant
            i <= payload@.len(),
            out@ == start + payload@.subrange(0, i as int),
        decreases payload@.len() - i,
    {
        out.push(payload[i]);
        i = i + 1;
        proof {
            assert(out@ =~= start + payload@.subrange(0, i as int));
        }
    }
    proof {
        assert(payload@.subrange(0, i as int) =~= payload@);
        assert(final(out)@ =~= old(out)@ + frame_field((tag, payload@)));
    }
}

/// A field read from a message: its number and where its payload lies.
#[derive(Clone, Copy, Debug, PartialEq, Eq, Structural)]
pub struct FieldSpan {
    pub tag: u8,
    pub start: usize,
    pub end: usize,
}

/// The fields of a message, as spans of `b`, or `None` if `b` is not a message.
pub fn parse_fields(b: &[u8]) -> (r: Option<Vec<FieldSpan>>)
    ensures
        r.is_some() == parse(b@).is_some(),
        r.is_some() ==> {
            let fs = parse(b@)->0;
            let spans = r->0@;
            &&& spans.len() == fs.len()
            &&& forall|i: int|
                0 <= i < spans.len() ==> {
                    let sp = #[trigger] spans[i];
                    &&& sp.start <= sp.end <= b@.len()
                    &&& sp.tag == fs[i].0
                    &&& b@.subrange(sp.start as int, sp.end as int) == fs[i].1
                }
        },
{
    let n = b.len();
    let mut pos: usize = 0;
    let mut spans: Vec<FieldSpan> = Vec::new();
    let ghost mut acc: Seq<Field> = seq![];
    proof {
        assert(b@.subrange(0, n as int) =~= b@);
        if parse(b@).is_some() {
            assert(acc + parse(b@)->0 =~= parse(b@)->0);
        }
    }
    while pos < n
        invariant
            pos <= n,
            n == b@.len(),
            parse(b@).is_some() == parse(b@.subrange(pos as int, n as int)).is_some(),
            parse(b@.subrange(pos as int, n as int)).is_some() ==> parse(b@)->0 == acc + parse(
                b@.subrange(pos as int, n as int),
            )->0,
            spans@.len() == acc.len(),
            forall|i: int|
                0 <= i < spans@.len() ==> {
                    let sp = #[trigger] spans@[i];
                    &&& sp.start <= sp.end <= n
                    &&& sp.tag == acc[i].0
                    &&& b@.subrange(sp.start as int, sp.end as int) == acc[i].1
                },
        decreases n - pos,
    {
        let ghost rest = b@.subrange(pos as int, n as int);
        if n - pos < 9 {
            return None;
        }
        let len = read_u64(b, pos + 1);
        proof {
            assert(rest.subrange(1, 9) =~= b@.subrange(pos + 1, pos + 9));
        }
        if len > (n - pos - 9) as u64 {
            return None;
        }
        let end = pos + 9 + len as usize;
        proof {
            assert(rest.subrange(9 + len as int, rest.len() as int) =~= b@.subrange(
                end as int,
                n as int,
            ));
            assert(rest.subrange(9, 9 + len as int) =~= b@.subrange(pos + 9, end as int));
            assert(rest[0] == b@[pos as int]);
            let f = (b@[pos as int], b@.subrange(pos + 9, end as int));
            let tail = b@.subrange(end as int, n as int);
            if parse(tail).is_some() {
                assert(acc.push(f) + parse(tail)->0 =~= acc + (seq![f] + parse(tail)->0));
            }
            acc = acc.push(f);
        }
        spans.push(FieldSpan { tag: b[pos], start: pos + 9, end });
        pos = end;
    }
    proof {
        assert(b@.subrange(n as int, n as int) =~= Seq::<u8>::empty());
        assert(acc + Seq::<Field>::empty() =~= acc);
    }
    Some(spans)
}

pub proof fn lemma_frame_push(fs: Seq<Field>, f: Field)
    ensures
        frame(fs.push(f)) == frame(fs) + frame_field(f),
{
    lemma_frame_append(fs, seq![f]);
    assert(seq![f].drop_first() =~= Seq::<Field>::empty());
    assert(frame(Seq::<Field>::empty()) =~= Seq::<u8>::empty());
    assert(seq![f][0] == f);
    assert(fs + seq![f] =~= fs.push(f));
    assert(frame(seq![f]) =~= frame_field(f));
}

/// Relies on `String::from_utf8`, which succeeds exactly on valid UTF-8 and
/// then holds the characters those bytes encode.
#[verifier::external_body]
fn string_from_utf8(bytes: Vec<u8>) -> (r: Option<String>)
    ensures
        r.is_some() == valid_utf8(bytes@),
        r.is_some() ==> r->0@ == decode_utf8(bytes@),
{
    String::from_utf8(bytes).ok()
}

/// The bytes `b[start..end]`.
pub fn copy_range(b: &[u8], start: usize, end: usize) -> (r: Vec<u8>)
    requires
        start <= end <= b@.len(),
    ensures
        r@ == b@.subrange(start as int, end as int),
{
    let mut r: Vec<u8> = Vec::new();
    let mut i: usize = start;
    while i < end
        invariant
            start <= i <= end,
            end <= b@.len(),
            r@ == b@.subrange(start as int, i as int),
        decreases end - i,
    {
        r.push(b[i]);
        i = i + 1;
        proof {
            assert(r@ =~= b@.subrange(start as int, i as int));
        }
    }
    r
}

/// The string held in `b[start..end]`, if those bytes are valid UTF-8.
pub fn read_string(b: &[u8], start: usize, end: usize) -> (r: Option<String>)
    requires
        start <= end <= b@.len(),
    ensures
        r.is_some() == valid_utf8(b@.subrange(start as int, end as int)),
        r.is_some() ==> r->0@ == decode_utf8(b@.subrange(start as int, end as int)),
{
    string_from_utf8(copy_range(b, start, end))
}

/// A string field.
pub open spec fn str_field(tag: u8, s: Seq<char>) -> Field {
    (tag, encode_utf8(s))
}

/// A number field.
pub open spec fn u64_field(tag: u8, v: u64) -> Field {
    (tag, le_bytes(v))
}

/// A field for a present optional string; none for an absent one.
pub open spec fn opt_str_field(tag: u8, o: Option<Seq<char>>) -> Seq<Field> {
    match o {
        Some(s) => seq![str_field(tag, s)],
        None => seq![],
    }
}

/// A field for a present optional number; none for an absent one.
pub open spec fn opt_u64_field(tag: u8, o: Option<u64>) -> Seq<Field> {
    match o {
        Some(v) => seq![u64_field(tag, v)],
        None => seq![],
    }
}

/// One field per string, all under `tag`.
pub open spec fn str_fields(tag: u8, ss: Seq<Seq<char>>) -> Seq<Field> {
    ss.map_values(|s: Seq<char>| str_field(tag, s))
}

pub(crate) fn push_str_field(out: &mut Vec<u8>, tag: u8, s: &String, Ghost(fs): Ghost<Seq<Field>>)
    requires
        old(out)@ == frame(fs),
    ensures
        final(out)@ == frame(fs.push(str_field(tag, s@))),
{
    push_field(out, tag, s.as_str().as_bytes());
    proof {
        lemma_frame_push(fs, str_field(tag, s@));
    }
}

pub(crate) fn push_u64_field(out: &mut Vec<u8>, tag: u8, v: u64, Ghost(fs): Ghost<Seq<Field>>)
    requires
        old(out)@ == frame(fs),
    ensures
        final(out)@ == frame(fs.push(u64_field(tag, v))),
{
    let mut payload: Vec<u8> = Vec::new();
    push_u64(&mut payload, v);
    proof {
        assert(payload@ =~= le_bytes(v));
    }
    push_field(out, tag, payload.as_slice());
    proof {
        lemma_frame_push(fs, u64_field(tag, v));
    }
}

pub(crate) fn push_byte_field(out: &mut Vec<u8>, tag: u8, v: u8, Ghost(fs): Ghost<Seq<Field>>)
    requires
        old(out)@ == frame(fs),
    ensures
        final(out)@ == frame(fs.push((tag, seq![v]))),
{
    let payload: Vec<u8> = vec![v];
    proof {
        assert(payload@ =~= seq![v]);
    }
    push_field(out, tag, payload.as_slice());
    proof {
        lemma_frame_push(fs, (tag, seq![v]));
    }
}

pub open spec fn strings_view(v: Seq<String>) -> Seq<Seq<char>> {
    v.map_values(|s: String| s@)
}

pub open spec fn opt_string_view(o: Option<String>) -> Option<Seq<char>> {
    match o {
        Some(s) => Some(s@),
        None => None,
    }
}

pub open spec fn utf8(b: Seq<u8>) -> Option<Seq<char>> {
    if valid_utf8(b) {
        Some(decode_utf8(b))
    } else {
        None
    }
}

pub open spec fn le(b: Seq<u8>) -> Option<u64> {
    if b.len() == 8 {
        Some(le_value(b))
    } else {
        None
    }
}

pub fn read_le(b: &[u8], start: usize, end: usize) -> (r: Option<u64>)
    requires
        start <= end <= b@.len(),
    ensures
        r == le(b@.subrange(start as int, end as int)),
{
    if end - start != 8 {
        return None;
    }
    Some(read_u64(b, start))
}

/// Writes the fields of the strings `ss`, each under `tag`.
pub(crate) fn push_str_fields(out: &mut Vec<u8>, tag: u8, ss: &Vec<String>, Ghost(fs): Ghost<Seq<Field>>)
    requires
        old(out)@ == frame(fs),
    ensures
        final(out)@ == frame(fs + str_fields(tag, strings_view(ss@))),
{
    let ghost sv = strings_view(ss@);
    let mut i: usize = 0;
    proof {
        assert(fs + str_fields(tag, sv.subrange(0, 0)) =~= fs);
    }
    while i < ss.len()
        invariant
            i <= ss@.len(),
            sv == strings_view(ss@),
            out@ == frame(fs + str_fields(tag, sv.subrange(0, i as int))),
        decreases ss@.len() - i,
    {
        let ghost cur = fs + str_fields(tag, sv.subrange(0, i as int));
        push_str_field(out, tag, &ss[i], Ghost(cur));
        proof {
            assert(sv[i as int] == ss@[i as int]@);
            assert(cur.push(str_field(tag, ss@[i as int]@)) =~= fs + str_fields(
                tag,
                sv.subrange(0, i + 1),
            ));
        }
        i = i + 1;
    }
    proof {
        assert(sv.subrange(0, i as int) =~= sv);
    }
}

/// Appends the bytes `b`.
pub fn push_bytes(out: &mut Vec<u8>, b: &[u8])
    ensures
        final(out)@ == old(out)@ + b@,
{
    let ghost start = out@;
    let mut i: usize = 0;
    while i < b.len()
        invariant
            i <= b@.len(),
            out@ == start + b@.subrange(0, i as int),
        decreases b@.len() - i,
    {
        out.push(b[i]);
        i = i + 1;
        proof {
            assert(out@ =~= start + b@.subrange(0, i as int));
        }
    }
    proof {
        assert(b@.subrange(0, i as int) =~= b@);
    }
}

} // verus!
