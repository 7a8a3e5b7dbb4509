//! Windows onto a job's output log: which bytes to read for a request, and
//! how the bytes read are cut to whole UTF-8 characters.

use vstd::prelude::*;
use vstd::utf8::*;
use crate::errors::ServerError;
use crate::text::{string_from_utf8, concat_str, push_decimal, decimal, ascii_chars, ascii_string, lemma_decimal_ascii};

verus! {

pub struct OutputWindow {
    pub output: String,
    pub offset: i64,
    pub truncated: bool,
}

pub open spec fn continuation(b: u8) -> bool {
    0x80u8 <= b < 0xC0u8
}

pub fn is_utf8_continuation(b: u8) -> (r: bool)
    ensures
        r == continuation(b),
{
    assert(((b & 0xC0u8) == 0x80u8) == (0x80u8 <= b < 0xC0u8)) by (bit_vector);
    (b & 0xC0) == 0x80
}

/// The first index from `start` on that is not a continuation byte (or the
/// end).
pub open spec fn boundary_from(data: Seq<u8>, start: int) -> int
    decreases data.len() - start,
{
    if start < data.len() && continuation(data[start]) {
        boundary_from(data, start + 1)
    } else {
        start
    }
}

pub fn advance_to_utf8_boundary(data: &[u8], start: usize) -> (r: usize)
    ensures
        r == boundary_from(data@, start as int),
        r >= start,
        start <= data@.len() ==> r <= data@.len(),
{
    let mut i = start;
    while i < data.len() && is_utf8_continuation(data[i])
        invariant
            start <= i,
            boundary_from(data@, i as int) == boundary_from(data@, start as int),
            start <= data@.len() ==> i <= data@.len(),
        decreases data@.len() - i,
    {
        i = i + 1;
    }
    i
}

/// Whether bytes are UTF-8, with `std::str::from_utf8`, which refuses
/// exactly the byte strings that are not well-formed UTF-8 (no overlong
/// forms, no surrogates, nothing above U+10FFFF).
#[verifier::external_body]
fn utf8_valid(bytes: &[u8]) -> (r: bool)
    ensures
        r == valid_utf8(bytes@),
{
    std::str::from_utf8(bytes).is_ok()
}

/// The longest prefix of `data`, at most `end` bytes, that is valid UTF-8.
pub open spec fn valid_prefix_len(data: Seq<u8>, end: int) -> int
    decreases end,
{
    if end <= 0 {
        0
    } else if valid_utf8(data.subrange(0, end)) {
        end
    } else {
        valid_prefix_len(data, end - 1)
    }
}

pub open spec fn min_int(a: int, b: int) -> int {
    if a <= b {
        a
    } else {
        b
    }
}

pub fn valid_utf8_prefix_len(data: &[u8], max_len: usize) -> (r: usize)
    ensures
        r == valid_prefix_len(data@, min_int(max_len as int, data@.len() as int)),
{
    let mut end: usize = if max_len < data.len() {
        max_len
    } else {
        data.len()
    };
    let ghost top = end as int;
    while end > 0
        invariant
            end <= data@.len(),
            top == min_int(max_len as int, data@.len() as int),
            valid_prefix_len(data@, end as int) == valid_prefix_len(data@, top),
        decreases end,
    {
        if utf8_valid(slice_subrange(data, 0, end)) {
            return end;
        }
        end = end - 1;
    }
    0
}

/// The length of the shortest prefix, of at least `from` and at most four
/// bytes, that is valid UTF-8: the first character where it is complete.
pub open spec fn first_char_len_from(data: Seq<u8>, from: int) -> int
    decreases 5 - from,
{
    if from > 4 || from > data.len() {
        0
    } else if valid_utf8(data.subrange(0, from)) {
        from
    } else {
        first_char_len_from(data, from + 1)
    }
}

pub fn first_complete_rune_len(data: &[u8]) -> (r: usize)
    ensures
        r == first_char_len_from(data@, 1),
{
    let mut end: usize = 1;
    while end <= data.len() && end <= 4
        invariant
            1 <= end <= 5,
            first_char_len_from(data@, end as int) == first_char_len_from(data@, 1),
        decreases 5 - end,
    {
        if utf8_valid(slice_subrange(data, 0, end)) {
            return end;
        }
        end = end + 1;
    }
    0
}

/// `data[start..end]` as a slice.
fn slice_subrange(data: &[u8], start: usize, end: usize) -> (r: &[u8])
    requires
        start <= end <= data@.len(),
    ensures
        r@ == data@.subrange(start as int, end as int),
{
    vstd::slice::slice_subrange(data, start, end)
}

fn copy_range(data: &[u8], start: usize, end: usize) -> (r: Vec<u8>)
    requires
        start <= end <= data@.len(),
    ensures
        r@ == data@.subrange(start as int, end as int),
{
    let mut v: Vec<u8> = Vec::new();
    let mut i = start;
    while i < end
        invariant
            start <= i <= end <= data@.len(),
            v@ == data@.subrange(start as int, i as int),
        decreases end - i,
    {
        v.push(data[i]);
        i = i + 1;
        assert(v@ =~= data@.subrange(start as int, i as int));
    }
    v
}

proof fn lemma_valid_prefix(data: Seq<u8>, end: int)
    requires
        end <= data.len(),
    ensures
        0 <= valid_prefix_len(data, end) <= if end < 0 { 0 } else { end },
        valid_utf8(data.subrange(0, valid_prefix_len(data, end))),
    decreases end,
{
    if end <= 0 {
        assert(data.subrange(0, 0) =~= Seq::<u8>::empty());
    } else if !valid_utf8(data.subrange(0, end)) {
        lemma_valid_prefix(data, end - 1);
    }
}

proof fn lemma_first_char_len(data: Seq<u8>, from: int)
    requires
        from >= 1,
    ensures
        0 <= first_char_len_from(data, from) <= data.len(),
        first_char_len_from(data, from) <= 4,
        first_char_len_from(data, from) != 0 ==> from <= first_char_len_from(data, from) && valid_utf8(
            data.subrange(0, first_char_len_from(data, from)),
        ),
    decreases 5 - from,
{
    if from <= 4 && from <= data.len() && !valid_utf8(data.subrange(0, from)) {
        lemma_first_char_len(data, from + 1);
    }
}

/// What a forward read answers: nothing more to read, or which bytes to read.
pub enum ReadPlan {
    Answer(OutputWindow),
    Read { start: i64, len: i64 },
}

/// The bytes of a decimal number as text, `-` in front where it is negative.
pub open spec fn signed_decimal(v: int) -> Seq<char> {
    if v < 0 {
        seq!['-'] + ascii_chars(decimal((-v) as nat))
    } else {
        ascii_chars(decimal(v as nat))
    }
}

pub fn signed_decimal_text(v: i64) -> (s: String)
    ensures
        s@ == signed_decimal(v as int),
{
    let mut digits: Vec<u8> = Vec::new();
    let mag: u64 = if v < 0 {
        (-(v as i128)) as u64
    } else {
        v as u64
    };
    push_decimal(&mut digits, mag);
    assert(digits@ =~= decimal(mag as nat));
    proof {
        lemma_decimal_ascii(mag as nat);
    }
    let t = ascii_string(digits);
    if v < 0 {
        let r = concat_str("-", t.as_str());
        proof {
            reveal_strlit("-");
            assert(r@ =~= signed_decimal(v as int));
        }
        r
    } else {
        t
    }
}

/// The refusal of an offset past the end of a log of `size` bytes.
pub fn offset_exceeds_error(offset: i64, size: i64) -> (e: ServerError)
    ensures
        e.status_code == 400,
        e.code@ == "invalid_offset"@,
        e.message@ == "offset "@ + signed_decimal(offset as int) + " exceeds current file size "@
            + signed_decimal(size as int),
{
    let a = signed_decimal_text(offset);
    let b = signed_decimal_text(size);
    let m0 = concat_str("offset ", a.as_str());
    let m1 = concat_str(m0.as_str(), " exceeds current file size ");
    let m2 = concat_str(m1.as_str(), b.as_str());
    ServerError::new(400, "invalid_offset", m2.as_str())
}

pub open spec fn empty_window_at(w: OutputWindow, offset: int) -> bool {
    w.output@.len() == 0 && w.offset == offset && !w.truncated
}

/// Where a forward read starts and how much it reads, for a log of `size`
/// bytes (`None`: there is no log yet). An offset past the end is refused.
pub fn forward_read_plan(size: Option<i64>, offset: i64, limit: i64) -> (r: Result<ReadPlan, ServerError>)
    requires
        size matches Some(n) ==> n >= 0,
        size matches Some(n) && offset < n ==> limit + 4 <= i64::MAX && i64::MIN <= offset + limit + 4 <= i64::MAX,
    ensures
        match size {
            None => if offset == 0 {
                r matches Ok(ReadPlan::Answer(w)) && empty_window_at(w, 0)
            } else {
                r matches Err(e) && e.status_code == 400 && e.code@ == "invalid_offset"@ && e.message@
                    == "offset exceeds current file size 0"@
            },
            Some(n) => if offset > n {
                r matches Err(e) && e.status_code == 400 && e.code@ == "invalid_offset"@ && e.message@
                    == "offset "@ + signed_decimal(offset as int) + " exceeds current file size "@
                    + signed_decimal(n as int)
            } else if offset == n {
                r matches Ok(ReadPlan::Answer(w)) && empty_window_at(w, offset as int)
            } else {
                r matches Ok(ReadPlan::Read { start, len }) && start == offset && len == min_int(
                    limit + 4,
                    n - offset,
                )
            },
        },
{
    match size {
        None => {
            if offset == 0 {
                Ok(ReadPlan::Answer(OutputWindow { output: String::new(), offset: 0, truncated: false }))
            } else {
                Err(ServerError::new(400, "invalid_offset", "offset exceeds current file size 0"))
            }
        },
        Some(n) => {
            if offset > n {
                Err(offset_exceeds_error(offset, n))
            } else if offset == n {
                Ok(ReadPlan::Answer(OutputWindow { output: String::new(), offset, truncated: false }))
            } else {
                let mut read_size = limit + 4;
                if offset + read_size > n {
                    read_size = n - offset;
                }
                Ok(ReadPlan::Read { start: offset, len: read_size })
            }
        },
    }
}

/// The bytes that a forward window keeps of the bytes read at `offset`:
/// leading continuation bytes are skipped, then as many bytes as fit in what
/// is left of `limit` and form whole characters, or, where none fits, the
/// first whole character.
pub open spec fn forward_keep(buf: Seq<u8>, limit: int) -> (int, int) {
    let shift = boundary_from(buf, 0);
    let data = buf.subrange(shift, buf.len() as int);
    let budget = if limit - shift < 0 {
        0
    } else {
        limit - shift
    };
    let c = valid_prefix_len(data, min_int(budget, data.len() as int));
    let consumed = if c == 0 && data.len() != 0 {
        first_char_len_from(data, 1)
    } else {
        c
    };
    (shift, consumed)
}

/// The window that the bytes read at `offset` give, in a log of `size` bytes.
pub fn forward_window(buf: &[u8], offset: i64, limit: i64, size: i64) -> (w: OutputWindow)
    requires
        buf@.len() <= i64::MAX,
        offset + buf@.len() <= i64::MAX,
    ensures
        ({
            let (shift, consumed) = forward_keep(buf@, limit as int);
            &&& valid_utf8(buf@.subrange(shift, shift + consumed))
            &&& w.output@ == decode_utf8(buf@.subrange(shift, shift + consumed))
            &&& w.offset == offset + shift + consumed
            &&& w.truncated == (w.offset < size)
            &&& shift + consumed <= buf@.len()
        }),
{
    let shift = advance_to_utf8_boundary(buf, 0);
    let data = slice_subrange(buf, shift, buf.len());
    let ghost d = buf@.subrange(shift as int, buf@.len() as int);
    let budget: u64 = if limit < shift as i64 {
        0
    } else {
        (limit - shift as i64) as u64
    };
    let cap: usize = if budget < data.len() as u64 {
        budget as usize
    } else {
        data.len()
    };
    let mut consumed = valid_utf8_prefix_len(data, cap);
    proof {
        lemma_valid_prefix(d, cap as int);
    }
    if consumed == 0 && data.len() != 0 {
        consumed = first_complete_rune_len(data);
        proof {
            lemma_first_char_len(d, 1);
            if consumed == 0 {
                assert(d.subrange(0, 0) =~= Seq::<u8>::empty());
            }
        }
    }
    let kept = copy_range(data, 0, consumed);
    assert(kept@ =~= buf@.subrange(shift as int, shift + consumed));
    let output = string_from_utf8(kept);
    let new_offset = offset + shift as i64 + consumed as i64;
    OutputWindow { output, offset: new_offset, truncated: new_offset < size }
}

/// What a tail read answers: an empty window, or where to read from.
pub enum TailPlan {
    Empty,
    Read { start: i64, padded: i64 },
}

/// A tail window covers the last `limit` bytes; four bytes more are read in
/// front so that a character cut at the start can be recognised.
pub fn tail_read_plan(size: Option<i64>, limit: i64) -> (r: TailPlan)
    requires
        size matches Some(n) ==> n >= 0 && n - limit <= i64::MAX,
    ensures
        match size {
            None => r is Empty,
            Some(n) => if n == 0 {
                r is Empty
            } else {
                let start = if n - limit < 0 {
                    0
                } else {
                    n - limit
                };
                r matches TailPlan::Read { start: s, padded: p } && s == start && p == (if start - 4 < 0 {
                    0
                } else {
                    start - 4
                })
            },
        },
{
    match size {
        None => TailPlan::Empty,
        Some(n) => {
            if n == 0 {
                TailPlan::Empty
            } else {
                let mut start = n - limit;
                if start < 0 {
                    start = 0;
                }
                let mut padded = start - 4;
                if padded < 0 {
                    padded = 0;
                }
                TailPlan::Read { start, padded }
            }
        },
    }
}

/// The window that the bytes read from `padded` to the end give, where the
/// window proper starts at `start`.
pub fn tail_window(buf: &[u8], start: i64, padded: i64) -> (w: OutputWindow)
    requires
        0 <= padded <= start,
        start - padded <= 4,
        padded + buf@.len() <= i64::MAX,
    ensures
        ({
            let rel = boundary_from(buf@, (start - padded) as int);
            let payload = buf@.subrange(min_int(rel, buf@.len() as int), buf@.len() as int);
            let consumed = valid_prefix_len(payload, payload.len() as int);
            &&& valid_utf8(payload.subrange(0, consumed))
            &&& w.output@ == decode_utf8(payload.subrange(0, consumed))
            &&& w.offset == padded + min_int(rel, buf@.len() as int) + consumed
            &&& !w.truncated
        }),
{
    let s = (start - padded) as usize;
    let rel0 = advance_to_utf8_boundary(buf, s);
    let rel = if rel0 < buf.len() {
        rel0
    } else {
        buf.len()
    };
    let payload = slice_subrange(buf, rel, buf.len());
    let consumed = valid_utf8_prefix_len(payload, payload.len());
    proof {
        lemma_valid_prefix(payload@, payload@.len() as int);
    }
    let kept = copy_range(payload, 0, consumed);
    let output = string_from_utf8(kept);
    OutputWindow { output, offset: padded + rel as i64 + consumed as i64, truncated: false }
}

} // verus!
