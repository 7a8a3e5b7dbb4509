//! The job service's timestamps (`YYYY-MM-DDTHH:MM:SSZ`, UTC) and the names
//! it gives a job's tmux session and pane.

use vstd::prelude::*;
use crate::text::{utf8_bytes, ascii_chars, decimal, zero_pad, lemma_decimal_ascii, concat_str};
use crate::runner::{civil_from_days_spec, timestamp_bytes, year_text, two_digits, format_unix_for_ts, lemma_year_of_era};

verus! {

pub open spec fn is_digit(b: u8) -> bool {
    0x30 <= b <= 0x39
}

pub open spec fn all_digits(b: Seq<u8>) -> bool {
    forall|i: int| 0 <= i < b.len() ==> is_digit(#[trigger] b[i])
}

/// The number that a run of decimal digits spells.
pub open spec fn digits_value(b: Seq<u8>) -> int
    decreases b.len(),
{
    if b.len() == 0 {
        0
    } else {
        digits_value(b.drop_last()) * 10 + (b.last() - 0x30)
    }
}

pub proof fn lemma_digits_nonneg(b: Seq<u8>)
    requires
        all_digits(b),
    ensures
        digits_value(b) >= 0,
    decreases b.len(),
{
    if b.len() > 0 {
        assert(all_digits(b.drop_last())) by {
            assert forall|i: int| 0 <= i < b.drop_last().len() implies is_digit(#[trigger] b.drop_last()[i]) by {
                assert(b.drop_last()[i] == b[i]);
            }
        }
        lemma_digits_nonneg(b.drop_last());
        assert(is_digit(b[b.len() - 1]));
    }
}

/// What `str::parse` gives for an integer type (one that takes a minus sign
/// when `signed`) on a text too short to overflow it: an optional sign, then
/// at least one decimal digit and nothing else.
pub open spec fn parse_small_int(b: Seq<u8>, signed: bool) -> Option<int> {
    if b.len() == 0 {
        None
    } else if b[0] == 0x2Bu8 || (signed && b[0] == 0x2Du8) {
        let rest = b.drop_first();
        if rest.len() > 0 && all_digits(rest) {
            Some(
                if b[0] == 0x2Du8 {
                    -digits_value(rest)
                } else {
                    digits_value(rest)
                },
            )
        } else {
            None
        }
    } else if all_digits(b) {
        Some(digits_value(b))
    } else {
        None
    }
}

/// Days since 1970-01-01 of a proleptic Gregorian date, by the era method
/// (the inverse of `civil_from_days_spec`). Months outside 1..=12 and days
/// outside a month are not refused: they count on from the year's start.
pub open spec fn days_from_civil_spec(y0: int, m: int, d: int) -> int {
    let y = if m <= 2 {
        y0 - 1
    } else {
        y0
    };
    let era = y / 400;
    let yoe = y - era * 400;
    let mp = if m > 2 {
        m - 3
    } else {
        m + 9
    };
    let doy = (153 * mp + 2) / 5 + d - 1;
    let doe = yoe * 365 + yoe / 4 - yoe / 100 + doy;
    era * 146097 + doe - 719468
}

/// The field `b[start..end]` read as an integer.
pub open spec fn field(b: Seq<u8>, start: int, end: int, signed: bool) -> Option<int> {
    parse_small_int(b.subrange(start, end), signed)
}

/// Seconds since the Unix epoch of a `YYYY-MM-DDTHH:MM:SSZ` text, given as
/// its UTF-8 bytes. The separators are not looked at, only the length and
/// the final `Z`.
pub open spec fn parse_timestamp_spec(b: Seq<u8>) -> Option<int> {
    if b.len() != 20 || b[19] != 0x5Au8 {
        None
    } else {
        let y = field(b, 0, 4, true);
        let m = field(b, 5, 7, false);
        let d = field(b, 8, 10, false);
        let hh = field(b, 11, 13, false);
        let mm = field(b, 14, 16, false);
        let ss = field(b, 17, 19, false);
        if y is Some && m is Some && d is Some && hh is Some && mm is Some && ss is Some {
            Some(
                days_from_civil_spec(y->0, m->0, d->0) * 86400 + hh->0 * 3600 + mm->0 * 60
                    + ss->0,
            )
        } else {
            None
        }
    }
}

/// `i` is a place where a `str` of these bytes may be cut.
pub open spec fn cut_ok(b: Seq<u8>, i: int) -> bool {
    i >= b.len() || !(0x80u8 <= b[i] < 0xC0u8)
}

/// The fields are cut out of the text one after the other and each is read
/// before the next is cut: every cut that is reached falls on a character
/// boundary.
pub open spec fn timestamp_cuts_ok(b: Seq<u8>) -> bool {
    b.len() != 20 || b[19] != 0x5Au8 || (cut_ok(b, 4) && (field(b, 0, 4, true) is None || (
    cut_ok(b, 5) && cut_ok(b, 7) && (field(b, 5, 7, false) is None || (cut_ok(b, 8) && cut_ok(
        b,
        10,
    ) && (field(b, 8, 10, false) is None || (cut_ok(b, 11) && cut_ok(b, 13) && (field(
        b,
        11,
        13,
        false,
    ) is None || (cut_ok(b, 14) && cut_ok(b, 16) && (field(b, 14, 16, false) is None || (cut_ok(
        b,
        17,
    ) && cut_ok(b, 19))))))))))))
}

/// Formats seconds since the Unix epoch as `YYYY-MM-DDTHH:MM:SSZ`.
pub fn format_timestamp(secs: u64) -> (s: String)
    ensures
        s@ == ascii_chars(timestamp_bytes(secs as nat)),
{
    format_unix_for_ts(secs)
}

fn parse_field(b: &[u8], start: usize, end: usize, signed: bool) -> (r: Option<i64>)
    requires
        start < end <= b@.len(),
        end - start <= 4,
    ensures
        r is Some == field(b@, start as int, end as int, signed) is Some,
        r is Some ==> r->0 as int == field(b@, start as int, end as int, signed)->0,
        r is Some ==> -9999 <= r->0 <= 9999,
        r is Some && end - start <= 2 ==> -99 <= r->0 <= 99,
        r is Some && !signed ==> r->0 >= 0,
{
    let ghost f = b@.subrange(start as int, end as int);
    let c0 = b[start];
    assert(f[0] == c0);
    let mut i = start;
    let neg = signed && c0 == 0x2Du8;
    if c0 == 0x2Bu8 || neg {
        i = i + 1;
        if i == end {
            return None;
        }
    }
    let ghost first = i;
    let mut v: i64 = 0;
    while i < end
        invariant
            start <= first <= i <= end <= b@.len(),
            end - start <= 4,
            first < end,
            f == b@.subrange(start as int, end as int),
            f[0] == b@[start as int],
            first == start || first == start + 1,
            (first == start + 1) == (b@[start as int] == 0x2Bu8 || (signed && b@[start as int] == 0x2Du8)),
            neg == (signed && b@[start as int] == 0x2Du8),
            all_digits(b@.subrange(first as int, i as int)),
            v == digits_value(b@.subrange(first as int, i as int)),
            0 <= v <= 9999,
            i - first <= 0 ==> v == 0,
            i - first <= 1 ==> v <= 9,
            i - first <= 2 ==> v <= 99,
            i - first <= 3 ==> v <= 999,
        decreases end - i,
    {
        let c = b[i];
        if c < 0x30u8 || c > 0x39u8 {
            assert(!is_digit(b@.subrange(first as int, end as int)[i - first]));
            assert(!is_digit(f[i - start]));
            proof {
                let rest = b@.subrange(first as int, end as int);
                if first == start + 1 {
                    assert(f.drop_first() =~= rest);
                } else {
                    assert(f =~= rest);
                }
            }
            return None;
        }
        proof {
            let s0 = b@.subrange(first as int, i as int);
            let s1 = b@.subrange(first as int, i + 1);
            assert(s1.drop_last() =~= s0);
            assert(s1.last() == c);
        }
        v = v * 10 + (c - 0x30) as i64;
        i = i + 1;
    }
    proof {
        let rest = b@.subrange(first as int, end as int);
        if first == start + 1 {
            assert(f.drop_first() =~= rest);
        } else {
            assert(f =~= rest);
        }
    }
    if neg {
        Some(-v)
    } else {
        Some(v)
    }
}

fn days_from_civil(y: i64, m: i64, d: i64) -> (r: i64)
    requires
        -9999 <= y <= 9999,
        0 <= m <= 99,
        0 <= d <= 99,
    ensures
        r == days_from_civil_spec(y as int, m as int, d as int),
{
    let yy: i64 = if m <= 2 {
        y - 1
    } else {
        y
    };
    let shifted: u64 = (yy + 10400) as u64;
    let era: i64 = (shifted / 400) as i64 - 26;
    let yoe: i64 = yy - era * 400;
    assert(era == yy / 400) by {
        assert(shifted == yy + 26 * 400);
    }
    let mp: i64 = if m > 2 {
        m - 3
    } else {
        m + 9
    };
    let doy: i64 = (153 * mp + 2) / 5 + d - 1;
    let doe: i64 = yoe * 365 + yoe / 4 - yoe / 100 + doy;
    era * 146097 + doe - 719468
}

/// Reads a `YYYY-MM-DDTHH:MM:SSZ` timestamp back into seconds since the Unix
/// epoch. Any text of another length or without the final `Z`, or with a
/// field that is not a number, is refused.
pub fn parse_timestamp(s: &str) -> (r: Result<i64, ()>)
    requires
        timestamp_cuts_ok(utf8_bytes(s@)),
    ensures
        r is Ok == parse_timestamp_spec(utf8_bytes(s@)) is Some,
        r is Ok ==> r->Ok_0 as int == parse_timestamp_spec(utf8_bytes(s@))->0,
{
    let b = s.as_bytes();
    if b.len() != 20 || b[19] != 0x5Au8 {
        return Err(());
    }
    let y = match parse_field(b, 0, 4, true) {
        Some(v) => v,
        None => return Err(()),
    };
    let m = match parse_field(b, 5, 7, false) {
        Some(v) => v,
        None => return Err(()),
    };
    let d = match parse_field(b, 8, 10, false) {
        Some(v) => v,
        None => return Err(()),
    };
    let hh = match parse_field(b, 11, 13, false) {
        Some(v) => v,
        None => return Err(()),
    };
    let mm = match parse_field(b, 14, 16, false) {
        Some(v) => v,
        None => return Err(()),
    };
    let ss = match parse_field(b, 17, 19, false) {
        Some(v) => v,
        None => return Err(()),
    };
    let days = days_from_civil(y, m, d);
    Ok(days * 86400 + hh * 3600 + mm * 60 + ss)
}

fn cut_at(b: &[u8], i: usize) -> (r: bool)
    ensures
        r == cut_ok(b@, i as int),
{
    i >= b.len() || !(0x80u8 <= b[i] && b[i] < 0xC0u8)
}

/// Whether `parse_timestamp` may be given this text: every field boundary
/// that reading it reaches falls between characters.
pub fn timestamp_cuts_check(s: &str) -> (r: bool)
    ensures
        r == timestamp_cuts_ok(utf8_bytes(s@)),
{
    let b = s.as_bytes();
    if b.len() != 20 || b[19] != 0x5Au8 {
        return true;
    }
    if !cut_at(b, 4) {
        return false;
    }
    if parse_field(b, 0, 4, true).is_none() {
        return true;
    }
    if !(cut_at(b, 5) && cut_at(b, 7)) {
        return false;
    }
    if parse_field(b, 5, 7, false).is_none() {
        return true;
    }
    if !(cut_at(b, 8) && cut_at(b, 10)) {
        return false;
    }
    if parse_field(b, 8, 10, false).is_none() {
        return true;
    }
    if !(cut_at(b, 11) && cut_at(b, 13)) {
        return false;
    }
    if parse_field(b, 11, 13, false).is_none() {
        return true;
    }
    if !(cut_at(b, 14) && cut_at(b, 16)) {
        return false;
    }
    if parse_field(b, 14, 16, false).is_none() {
        return true;
    }
    cut_at(b, 17) && cut_at(b, 19)
}

/// The tmux session of a job: `shellctl-<job id>`.
pub fn job_session_name(job_id: &str) -> (s: String)
    ensures
        s@ == "shellctl-"@ + job_id@,
{
    concat_str("shellctl-", job_id)
}

/// The pane a job runs in: window 0, pane 0 of its session.
pub fn job_pane_target(job_id: &str) -> (s: String)
    ensures
        s@ == "shellctl-"@ + job_id@ + ":0.0"@,
{
    let session = job_session_name(job_id);
    concat_str(session.as_str(), ":0.0")
}

} // verus!

verus! {

proof fn lemma_days_round_trip(z: int)
    ensures
        ({
            let (y, m, d) = civil_from_days_spec(z);
            days_from_civil_spec(y, m, d) == z
        }),
{
    let zz = z + 719468;
    let era = zz / 146097;
    let doe = zz - era * 146097;
    assert(0 <= doe < 146097);
    let du = doe as u64;
    lemma_year_of_era(du);
    let yoe = (doe - doe / 1460 + doe / 36524 - doe / 146096) / 365;
    assert(yoe == ((((du - du / 1460u64) as u64 + du / 36524u64) as u64 - du / 146096u64) as u64) / 365u64);
    let doy = doe - (365 * yoe + yoe / 4 - yoe / 100);
    assert(0 <= yoe <= 399);
    assert(0 <= doy <= 365);
    let dy = doy as u64;
    crate::runner::lemma_month_of_year(dy);
    let mp = (5 * doy + 2) / 153;
    assert(mp == ((5u64 * dy + 2u64) as u64) / 153u64);
    assert(0 <= mp <= 11);
    let y = yoe + era * 400;
    assert(y / 400 == era) by {
        assert(era * 400 <= y < era * 400 + 400);
    }
}

proof fn lemma_digits_value_decimal(n: nat)
    ensures
        digits_value(decimal(n)) == n,
    decreases n,
{
    let s = decimal(n);
    if n >= 10 {
        lemma_digits_value_decimal(n / 10);
        assert(s.drop_last() =~= decimal(n / 10));
        assert(s.last() == (0x30 + n % 10) as u8);
        assert(digits_value(s) == digits_value(decimal(n / 10)) * 10 + n % 10);
    } else {
        assert(s.drop_last() =~= Seq::<u8>::empty());
        assert(digits_value(s) == digits_value(Seq::<u8>::empty()) * 10 + n);
    }
}

proof fn lemma_four_digit_field(n: nat)
    requires
        1000 <= n <= 9999,
    ensures
        year_text(n as int).len() == 4,
        parse_small_int(year_text(n as int), true) == Some(n as int),
        forall|i: int| 0 <= i < 4 ==> #[trigger] year_text(n as int)[i] < 0x80u8,
{
    lemma_decimal_ascii(n);
    lemma_digits_value_decimal(n);
    assert(decimal(n) == decimal(n / 10).push((0x30 + n % 10) as u8));
    assert(decimal(n / 10) == decimal(n / 100).push((0x30 + (n / 10) % 10) as u8));
    assert(decimal(n / 100) == decimal(n / 1000).push((0x30 + (n / 100) % 10) as u8));
    assert(decimal(n / 1000).len() == 1);
    assert(zero_pad(decimal(n), 4) == decimal(n));
    let s = decimal(n);
    assert(all_digits(s)) by {
        assert forall|i: int| 0 <= i < s.len() implies is_digit(#[trigger] s[i]) by {
            assert(0x30 <= s[i] <= 0x39);
        }
    }
}

proof fn lemma_two_digit_field(n: nat)
    requires
        n <= 99,
    ensures
        two_digits(n).len() == 2,
        parse_small_int(two_digits(n), false) == Some(n as int),
        forall|i: int| 0 <= i < 2 ==> #[trigger] two_digits(n)[i] < 0x80u8,
{
    lemma_decimal_ascii(n);
    lemma_digits_value_decimal(n);
    let s = two_digits(n);
    if n < 10 {
        assert(decimal(n) == seq![(0x30 + n) as u8]);
        assert(s =~= seq![0x30u8, (0x30 + n) as u8]);
        assert(s.drop_last() =~= seq![0x30u8]);
        assert(seq![0x30u8].drop_last() =~= Seq::<u8>::empty());
        assert(digits_value(Seq::<u8>::empty()) == 0);
        assert(seq![0x30u8].last() == 0x30u8);
        assert(digits_value(seq![0x30u8]) == 0);
        assert(digits_value(s) == digits_value(seq![0x30u8]) * 10 + n);
    } else {
        assert(decimal(n) == decimal(n / 10).push((0x30 + n % 10) as u8));
        assert(decimal(n / 10).len() == 1);
        assert(s == decimal(n));
    }
    assert(all_digits(s)) by {
        assert forall|i: int| 0 <= i < s.len() implies is_digit(#[trigger] s[i]) by {
            if n < 10 {
                assert(0x30 <= s[i] <= 0x39);
            } else {
                assert(0x30 <= decimal(n)[i] <= 0x39);
            }
        }
    }
}

/// Every instant before 10000-01-01T00:00:00Z falls in a year up to 9999.
proof fn lemma_year_bound(secs: nat)
    requires
        secs < 253402300800,
    ensures
        civil_from_days_spec((secs / 86400) as int).0 <= 9999,
{
    let z = secs / 86400;
    assert(z < 2932897);
    let zz = z + 719468;
    let era = zz / 146097;
    assert(era <= 24);
    let doe = zz - era * 146097;
    assert(0 <= doe < 146097);
    let du = doe as u64;
    lemma_year_of_era(du);
    let yoe = (doe - doe / 1460 + doe / 36524 - doe / 146096) / 365;
    assert(yoe == ((((du - du / 1460u64) as u64 + du / 36524u64) as u64 - du / 146096u64) as u64) / 365u64);
    assert(0 <= yoe <= 399);
    if era == 24 && yoe == 399 {
        assert(doe <= 146036);
        let doy = doe - (365 * yoe + yoe / 4 - yoe / 100);
        assert(doy <= 305);
        let mp = (5 * doy + 2) / 153;
        assert(mp <= 9);
    }
}

#[verifier::rlimit(60)]
/// A timestamp that was written reads back as the same number of seconds,
/// for every instant from the epoch to the end of the year 9999.
pub proof fn law_timestamp_round_trip(secs: nat)
    requires
        secs < 253402300800,
    ensures
        timestamp_cuts_ok(utf8_bytes(ascii_chars(timestamp_bytes(secs)))),
        parse_timestamp_spec(utf8_bytes(ascii_chars(timestamp_bytes(secs)))) == Some(secs as int),
{
    lemma_year_bound(secs);
    let b = timestamp_bytes(secs);
    crate::runner::lemma_timestamp_ascii(secs);
    crate::text::lemma_ascii_utf8(b);
    let days = secs / 86400;
    let rem = secs % 86400;
    let (y, m, d) = civil_from_days_spec(days as int);
    lemma_days_round_trip(days as int);
    let zz = days + 719468;
    let era = zz / 146097;
    assert(era >= 4);
    let doe = zz - era * 146097;
    let du = doe as u64;
    lemma_year_of_era(du);
    let yoe = (doe - doe / 1460 + doe / 36524 - doe / 146096) / 365;
    assert(yoe == ((((du - du / 1460u64) as u64 + du / 36524u64) as u64 - du / 146096u64) as u64) / 365u64);
    assert(yoe >= 0);
    assert(y >= 1600);
    assert((y as i32) as int == y);
    let doy = doe - (365 * yoe + yoe / 4 - yoe / 100);
    let dy = doy as u64;
    crate::runner::lemma_month_of_year(dy);
    assert(((5u64 * dy + 2u64) as u64) / 153u64 == (5 * doy + 2) / 153);
    assert(1 <= m <= 12);
    assert(1 <= d <= 31);
    lemma_four_digit_field(y as nat);
    lemma_two_digit_field(m as nat);
    lemma_two_digit_field(d as nat);
    lemma_two_digit_field(rem / 3600);
    lemma_two_digit_field((rem % 3600) / 60);
    lemma_two_digit_field(rem % 60);
    let p0 = year_text(y);
    let p1 = two_digits(m as nat);
    let p2 = two_digits(d as nat);
    let p3 = two_digits(rem / 3600);
    let p4 = two_digits((rem % 3600) / 60);
    let p5 = two_digits(rem % 60);
    assert(b == p0 + seq![0x2Du8] + p1 + seq![0x2Du8] + p2 + seq![0x54u8] + p3 + seq![0x3Au8] + p4
        + seq![0x3Au8] + p5 + seq![0x5Au8]);
    assert(b.len() == 20);
    assert(b.subrange(0, 4) =~= p0);
    assert(b.subrange(5, 7) =~= p1);
    assert(b.subrange(8, 10) =~= p2);
    assert(b.subrange(11, 13) =~= p3);
    assert(b.subrange(14, 16) =~= p4);
    assert(b.subrange(17, 19) =~= p5);
    assert(b[19] == 0x5Au8);
    assert forall|i: int| 0 <= i < 20 implies cut_ok(b, i) by {
        assert(b[i] < 0x80u8);
    }
    assert(rem / 3600 * 3600 + (rem % 3600) / 60 * 60 + rem % 60 == rem);
}

} // verus!
