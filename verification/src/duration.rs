//! Go-style durations (`1h30m`, `250ms`, `1.5s`): the text is cut into
//! terms, each a decimal number and a unit.

use vstd::prelude::*;
use crate::text::{utf8_bytes, ascii_chars, all_ascii, ascii_string, concat_str, debug_quote, debug_quoted, str_eq, trim_text, trimmed};

verus! {

#[derive(Debug, Clone, Copy, PartialEq, Eq, Structural)]
pub enum DurationUnit {
    Nanos,
    Micros,
    Millis,
    Seconds,
    Minutes,
    Hours,
}

/// One term of a duration: its number as written (decimal digits with at
/// most one point) and its unit.
pub struct DurationTerm {
    pub number: String,
    pub unit: DurationUnit,
}

pub enum DurationFault {
    /// A term starts with a minus sign.
    Negative,
    /// Anything else that is not a duration.
    Invalid,
}

pub open spec fn is_number_byte(b: u8) -> bool {
    (0x30 <= b <= 0x39) || b == 0x2Eu8
}

pub open spec fn is_letter(b: u8) -> bool {
    (0x41 <= b <= 0x5A) || (0x61 <= b <= 0x7A)
}

/// Where the run of digits and points that starts at `i` ends.
pub open spec fn number_end(b: Seq<u8>, i: int) -> int
    decreases b.len() - i,
{
    if 0 <= i < b.len() && is_number_byte(b[i]) {
        number_end(b, i + 1)
    } else {
        i
    }
}

/// Where the unit that starts at `i` ends: ASCII letters, and `µ` in UTF-8.
pub open spec fn unit_end(b: Seq<u8>, i: int) -> int
    decreases b.len() - i,
{
    if 0 <= i < b.len() && is_letter(b[i]) {
        unit_end(b, i + 1)
    } else if 0 <= i && i + 1 < b.len() && b[i] == 0xC2u8 && b[i + 1] == 0xB5u8 {
        unit_end(b, i + 2)
    } else {
        i
    }
}

pub open spec fn count_points(t: Seq<u8>) -> int
    decreases t.len(),
{
    if t.len() == 0 {
        0
    } else {
        count_points(t.drop_last()) + if t.last() == 0x2Eu8 {
            1int
        } else {
            0int
        }
    }
}

/// A run of digits and points is a number when it has at most one point and
/// at least one digit.
pub open spec fn number_ok(t: Seq<u8>) -> bool {
    count_points(t) <= 1 && t.len() > count_points(t)
}

pub open spec fn unit_of(u: Seq<u8>) -> Option<DurationUnit> {
    if u.len() == 1 {
        if u[0] == 0x73u8 {
            Some(DurationUnit::Seconds)
        } else if u[0] == 0x6Du8 {
            Some(DurationUnit::Minutes)
        } else if u[0] == 0x68u8 {
            Some(DurationUnit::Hours)
        } else {
            None
        }
    } else if u.len() == 2 {
        if u[1] != 0x73u8 {
            None
        } else if u[0] == 0x6Eu8 {
            Some(DurationUnit::Nanos)
        } else if u[0] == 0x75u8 {
            Some(DurationUnit::Micros)
        } else if u[0] == 0x6Du8 {
            Some(DurationUnit::Millis)
        } else {
            None
        }
    } else if u.len() == 3 && u[0] == 0xC2u8 && u[1] == 0xB5u8 && u[2] == 0x73u8 {
        Some(DurationUnit::Micros)
    } else {
        None
    }
}

/// Law: a unit is read by Go's table and by nothing else: `ns` is
/// nanoseconds; `us` and `µs` (in UTF-8) are both microseconds; `ms`
/// milliseconds; `s` seconds; `m` minutes; `h` hours. Any other text is no
/// unit.
pub proof fn law_unit_table(u: Seq<u8>)
    ensures
        unit_of(u) == Some(DurationUnit::Nanos) <==> u == seq![0x6Eu8, 0x73u8],
        unit_of(u) == Some(DurationUnit::Micros) <==> (u == seq![0x75u8, 0x73u8] || u == seq![
            0xC2u8,
            0xB5u8,
            0x73u8,
        ]),
        unit_of(u) == Some(DurationUnit::Millis) <==> u == seq![0x6Du8, 0x73u8],
        unit_of(u) == Some(DurationUnit::Seconds) <==> u == seq![0x73u8],
        unit_of(u) == Some(DurationUnit::Minutes) <==> u == seq![0x6Du8],
        unit_of(u) == Some(DurationUnit::Hours) <==> u == seq![0x68u8],
        unit_of(seq![0x75u8, 0x73u8]) == unit_of(seq![0xC2u8, 0xB5u8, 0x73u8]),
{
    if u.len() == 1 {
        assert(u =~= seq![u[0]]);
    } else if u.len() == 2 {
        assert(u =~= seq![u[0], u[1]]);
    } else if u.len() == 3 {
        assert(u =~= seq![u[0], u[1], u[2]]);
    }
    assert(seq![0xC2u8, 0xB5u8, 0x73u8].len() == 3);
}

/// The terms from byte `i` on.
pub open spec fn scan_terms(b: Seq<u8>, i: int) -> Result<Seq<(Seq<u8>, DurationUnit)>, DurationFault>
    decreases b.len() - i,
{
    if i < 0 || i >= b.len() {
        Ok(Seq::empty())
    } else if b[i] == 0x2Du8 {
        Err(DurationFault::Negative)
    } else {
        let ne = number_end(b, i);
        let ue = unit_end(b, ne);
        proof {
            lemma_number_end(b, i);
            lemma_unit_end(b, ne);
        }
        if ne == i || !number_ok(b.subrange(i, ne)) {
            Err(DurationFault::Invalid)
        } else {
            match unit_of(b.subrange(ne, ue)) {
                None => Err(DurationFault::Invalid),
                Some(u) => match scan_terms(b, ue) {
                    Ok(rest) => Ok(seq![(b.subrange(i, ne), u)] + rest),
                    Err(f) => Err(f),
                },
            }
        }
    }
}

/// The terms of a duration text (`0` alone has none).
pub open spec fn duration_terms(s: Seq<char>, b: Seq<u8>) -> Result<Seq<(Seq<u8>, DurationUnit)>, DurationFault> {
    if s == "0"@ {
        Ok(Seq::empty())
    } else if b.len() == 0 {
        Err(DurationFault::Invalid)
    } else {
        scan_terms(b, 0)
    }
}

pub open spec fn fault_message(f: DurationFault, s: Seq<char>) -> Seq<char> {
    match f {
        DurationFault::Negative => "must be positive"@,
        DurationFault::Invalid => "invalid duration "@ + debug_quoted(s),
    }
}

pub open spec fn term_view(t: DurationTerm) -> (Seq<u8>, DurationUnit) {
    (t.number@.map_values(|c: char| c as u8), t.unit)
}

pub proof fn lemma_number_end(b: Seq<u8>, i: int)
    requires
        0 <= i <= b.len(),
    ensures
        i <= number_end(b, i) <= b.len(),
        forall|k: int| i <= k < number_end(b, i) ==> is_number_byte(#[trigger] b[k]),
    decreases b.len() - i,
{
    if i < b.len() && is_number_byte(b[i]) {
        lemma_number_end(b, i + 1);
    }
}

pub proof fn lemma_unit_end(b: Seq<u8>, i: int)
    requires
        0 <= i <= b.len(),
    ensures
        i <= unit_end(b, i) <= b.len(),
    decreases b.len() - i,
{
    if i < b.len() && is_letter(b[i]) {
        lemma_unit_end(b, i + 1);
    } else if i + 1 < b.len() && b[i] == 0xC2u8 && b[i + 1] == 0xB5u8 {
        lemma_unit_end(b, i + 2);
    }
}

fn number_text_ok(b: &[u8], start: usize, end: usize) -> (r: bool)
    requires
        start <= end <= b@.len(),
    ensures
        r == number_ok(b@.subrange(start as int, end as int)),
{
    let mut points: usize = 0;
    let mut i = start;
    while i < end
        invariant
            start <= i <= end <= b@.len(),
            points == count_points(b@.subrange(start as int, i as int)),
            points <= i - start,
        decreases end - i,
    {
        assert(b@.subrange(start as int, i + 1).drop_last() =~= b@.subrange(start as int, i as int));
        if b[i] == 0x2Eu8 {
            points = points + 1;
        }
        i = i + 1;
    }
    points <= 1 && end - start > points
}

fn unit_from(b: &[u8], start: usize, end: usize) -> (r: Option<DurationUnit>)
    requires
        start <= end <= b@.len(),
    ensures
        r == unit_of(b@.subrange(start as int, end as int)),
{
    let ghost u = b@.subrange(start as int, end as int);
    let n = end - start;
    if n == 1 {
        let c = b[start];
        assert(u =~= seq![c]);
        if c == 0x73u8 {
            Some(DurationUnit::Seconds)
        } else if c == 0x6Du8 {
            Some(DurationUnit::Minutes)
        } else if c == 0x68u8 {
            Some(DurationUnit::Hours)
        } else {
            None
        }
    } else if n == 2 {
        let c0 = b[start];
        let c1 = b[start + 1];
        assert(u =~= seq![c0, c1]);
        if c1 != 0x73u8 {
            None
        } else if c0 == 0x6Eu8 {
            Some(DurationUnit::Nanos)
        } else if c0 == 0x75u8 {
            Some(DurationUnit::Micros)
        } else if c0 == 0x6Du8 {
            Some(DurationUnit::Millis)
        } else {
            None
        }
    } else if n == 3 {
        let c0 = b[start];
        let c1 = b[start + 1];
        let c2 = b[start + 2];
        assert(u =~= seq![c0, c1, c2]);
        if c0 == 0xC2u8 && c1 == 0xB5u8 && c2 == 0x73u8 {
            Some(DurationUnit::Micros)
        } else {
            None
        }
    } else {
        None
    }
}

fn ascii_text(b: &[u8], start: usize, end: usize) -> (s: String)
    requires
        start <= end <= b@.len(),
        forall|k: int| start <= k < end ==> is_number_byte(#[trigger] b@[k]),
    ensures
        s@.map_values(|c: char| c as u8) == b@.subrange(start as int, end as int),
{
    let mut v: Vec<u8> = Vec::new();
    let mut i = start;
    while i < end
        invariant
            start <= i <= end <= b@.len(),
            v@ == b@.subrange(start as int, i as int),
        decreases end - i,
    {
        v.push(b[i]);
        i = i + 1;
        assert(v@ =~= b@.subrange(start as int, i as int));
    }
    assert(all_ascii(v@)) by {
        assert forall|k: int| 0 <= k < v@.len() implies #[trigger] v@[k] < 0x80u8 by {
            assert(v@[k] == b@[start + k]);
            assert(is_number_byte(b@[start + k]));
        }
    }
    let ghost bytes = v@;
    let s = ascii_string(v);
    assert(s@.map_values(|c: char| c as u8) =~= bytes);
    s
}

/// Cuts a Go duration into its terms: `0` alone, or one or more terms, each
/// a decimal number (digits with at most one point) followed by one of the
/// units `ns`, `us`, `µs`, `ms`, `s`, `m`, `h`. A minus sign at the start of
/// a term is refused as not positive, anything else as invalid.
pub fn parse_go_duration(s: &str) -> (r: Result<Vec<DurationTerm>, String>)
    ensures
        match duration_terms(s@, utf8_bytes(s@)) {
            Ok(ts) => r matches Ok(v) && v@.len() == ts.len() && forall|k: int|
                0 <= k < ts.len() ==> term_view(#[trigger] v@[k]) == ts[k],
            Err(f) => r matches Err(m) && m@ == fault_message(f, s@),
        },
{
    proof {
        reveal_strlit("0");
    }
    let mut terms: Vec<DurationTerm> = Vec::new();
    if str_eq(s, "0") {
        return Ok(terms);
    }
    let b = s.as_bytes();
    let ghost bs = b@;
    assert(bs == utf8_bytes(s@));
    if b.len() == 0 {
        let q = debug_quote(s);
        return Err(concat_str("invalid duration ", q.as_str()));
    }
    let mut i: usize = 0;
    while i < b.len()
        invariant
            bs == b@,
            i <= b@.len(),
            b@.len() > 0,
            s@ != "0"@,
            bs == utf8_bytes(s@),
            duration_terms(s@, bs) == (match scan_terms(bs, i as int) {
                Ok(rest) => Ok(Seq::new(terms@.len(), |k: int| term_view(terms@[k])) + rest),
                Err(f) => Err(f),
            }),
        decreases b@.len() - i,
    {
        let start = i;
        if b[i] == 0x2Du8 {
            return Err("must be positive".to_string());
        }
        proof {
            lemma_number_end(bs, i as int);
        }
        while i < b.len() && (b[i] >= 0x30u8 && b[i] <= 0x39u8 || b[i] == 0x2Eu8)
            invariant
                start <= i <= b@.len(),
                number_end(b@, i as int) == number_end(b@, start as int),
            decreases b@.len() - i,
        {
            i = i + 1;
        }
        assert(i == number_end(bs, start as int));
        if i == start || !number_text_ok(b, start, i) {
            let q = debug_quote(s);
            return Err(concat_str("invalid duration ", q.as_str()));
        }
        let ne = i;
        proof {
            lemma_unit_end(bs, ne as int);
        }
        loop
            invariant
                ne <= i <= b@.len(),
                unit_end(b@, i as int) == unit_end(b@, ne as int),
            ensures
                i == unit_end(b@, ne as int),
            decreases b@.len() - i,
        {
            if i < b.len() && ((b[i] >= 0x41u8 && b[i] <= 0x5Au8) || (b[i] >= 0x61u8 && b[i] <= 0x7Au8)) {
                i = i + 1;
            } else if b.len() - i > 1 && b[i] == 0xC2u8 && b[i + 1] == 0xB5u8 {
                i = i + 2;
            } else {
                break;
            }
        }
        assert(i == unit_end(bs, ne as int));
        let unit = match unit_from(b, ne, i) {
            Some(u) => u,
            None => {
                let q = debug_quote(s);
                return Err(concat_str("invalid duration ", q.as_str()));
            },
        };
        let number = ascii_text(b, start, ne);
        let ghost old_terms = terms@;
        terms.push(DurationTerm { number, unit });
        proof {
            let tv_old = Seq::new(old_terms.len(), |k: int| term_view(old_terms[k]));
            let tv_new = Seq::new(terms@.len(), |k: int| term_view(terms@[k]));
            assert(tv_new =~= tv_old.push((bs.subrange(start as int, ne as int), unit)));
            match scan_terms(bs, i as int) {
                Ok(rest) => {
                    assert(tv_old + (seq![(bs.subrange(start as int, ne as int), unit)] + rest) =~= tv_new + rest);
                },
                Err(f) => {},
            }
        }
    }
    proof {
        let tv = Seq::new(terms@.len(), |k: int| term_view(terms@[k]));
        assert(tv + Seq::<(Seq<u8>, DurationUnit)>::empty() =~= tv);
    }
    Ok(terms)
}

/// The terms of the snapshot timeout set in the environment: `None` where
/// the text is blank (the default applies), else the terms of the trimmed
/// text, with the variable's name in front of an error. What the terms add
/// up to is left to the caller.
pub fn snapshot_timeout_terms(raw: &str) -> (r: Result<Option<Vec<DurationTerm>>, String>)
    ensures
        ({
            let t = trimmed(raw@);
            if t.len() == 0 {
                r matches Ok(None)
            } else {
                match duration_terms(t, utf8_bytes(t)) {
                    Ok(ts) => r matches Ok(Some(v)) && v@.len() == ts.len() && forall|k: int|
                        0 <= k < ts.len() ==> term_view(#[trigger] v@[k]) == ts[k],
                    Err(f) => r matches Err(m) && m@ == "SHELLCTL_SNAPSHOT_TIMEOUT: "@
                        + fault_message(f, t),
                }
            }
        }),
{
    let t = trim_text(raw);
    if t.is_empty() {
        return Ok(None);
    }
    match parse_go_duration(t) {
        Ok(v) => Ok(Some(v)),
        Err(m) => Err(concat_str("SHELLCTL_SNAPSHOT_TIMEOUT: ", m.as_str())),
    }
}

/// The error for a snapshot timeout whose terms add up to nothing.
pub fn snapshot_timeout_zero_error(trimmed_text: &str) -> (m: String)
    ensures
        m@ == "SHELLCTL_SNAPSHOT_TIMEOUT: must be positive, got "@ + debug_quoted(trimmed_text@),
{
    let q = debug_quote(trimmed_text);
    concat_str("SHELLCTL_SNAPSHOT_TIMEOUT: must be positive, got ", q.as_str())
}

} // verus!
