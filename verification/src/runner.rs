//! The runner's own logic: how it reads its arguments, which environment a
//! job gets, and the UTC timestamps it writes next to a job.

use vstd::prelude::*;
use crate::jobmode::{Mode, mode_of_name, invalid_mode_message};
use crate::agentcli::{JsonValue, JsonValueView, json_members, json_object_members, members_view};
use crate::text::{str_eq, 
    all_ascii, ascii_chars, ascii_string, decimal, lemma_ascii_concat, lemma_decimal_ascii,
    lemma_zero_pad_ascii, push_padded, zero_pad,
};

verus! {

/// Days since 1970-01-01 to the proleptic Gregorian (year, month, day), by
/// the era-of-400-years method: an era has 146097 days and its years start
/// on March 1st, so the leap day falls at the end of a year.
pub open spec fn civil_from_days_spec(z0: int) -> (int, int, int) {
    let z = z0 + 719468;
    let era = z / 146097;
    let doe = z - era * 146097;
    let yoe = (doe - doe / 1460 + doe / 36524 - doe / 146096) / 365;
    let y = yoe + era * 400;
    let doy = doe - (365 * yoe + yoe / 4 - yoe / 100);
    let mp = (5 * doy + 2) / 153;
    let d = doy - (153 * mp + 2) / 5 + 1;
    let m = if mp < 10 {
        mp + 3
    } else {
        mp - 9
    };
    (if m <= 2 {
        y + 1
    } else {
        y
    }, m, d)
}

/// A year as `{:04}` writes an `i32`: at least four characters, the sign
/// counting as one of them.
pub open spec fn year_text(v: int) -> Seq<u8> {
    if v < 0 {
        seq![0x2Du8] + zero_pad(decimal((-v) as nat), 3)
    } else {
        zero_pad(decimal(v as nat), 4)
    }
}

pub open spec fn two_digits(n: nat) -> Seq<u8> {
    zero_pad(decimal(n), 2)
}

/// `YYYY-MM-DDTHH:MM:SSZ` for a number of seconds since the Unix epoch.
/// The year is the calendar year cut to an `i32`, as the format does.
pub open spec fn timestamp_bytes(secs: nat) -> Seq<u8> {
    let days = secs / 86400;
    let rem = secs % 86400;
    let (y, m, d) = civil_from_days_spec(days as int);
    year_text((y as i32) as int) + seq![0x2Du8] + two_digits(m as nat) + seq![0x2Du8] + two_digits(
        d as nat,
    ) + seq![0x54u8] + two_digits(rem / 3600) + seq![0x3Au8] + two_digits((rem % 3600) / 60) + seq![0x3Au8]
        + two_digits(rem % 60) + seq![0x5Au8]
}

/// Bounds that hold within every era: the year of the era is below 400 and
/// the day of the year below 366.
pub proof fn lemma_year_of_era(doe: u64)
    by (bit_vector)
    requires
        doe <= 146096u64,
    ensures
        ({
            let a = (doe - doe / 1460u64) as u64;
            let b = (a + doe / 36524u64) as u64;
            let t = (b - doe / 146096u64) as u64;
            let yoe = t / 365u64;
            let base = (365u64 * yoe + yoe / 4u64 - yoe / 100u64) as u64;
            &&& yoe <= 399u64
            &&& base <= doe
            &&& doe - base <= 365u64
        }),
{
}

/// Bounds on the month (counted from March) and the day of a day of the year.
pub proof fn lemma_month_of_year(doy: u64)
    by (bit_vector)
    requires
        doy <= 365u64,
    ensures
        ({
            let mp = ((5u64 * doy + 2u64) as u64) / 153u64;
            let md = ((153u64 * mp + 2u64) as u64) / 5u64;
            &&& mp <= 11u64
            &&& md <= doy
            &&& doy - md <= 30u64
        }),
{
}

/// The largest day count that a `u64` number of seconds reaches.
pub const MAX_DAYS: i64 = 213503982334601;

fn civil_from_days(z: i64) -> (r: (i32, u32, u32))
    requires
        0 <= z <= MAX_DAYS,
    ensures
        r.0 == (civil_from_days_spec(z as int).0) as i32,
        r.1 as int == civil_from_days_spec(z as int).1,
        r.2 as int == civil_from_days_spec(z as int).2,
        1 <= r.1 <= 12,
        1 <= r.2 <= 31,
{
    let zz: u64 = (z + 719468) as u64;
    let era: u64 = zz / 146097;
    let doe: u64 = zz - era * 146097;
    proof {
        lemma_year_of_era(doe);
    }
    let yoe: u64 = (doe - doe / 1460 + doe / 36524 - doe / 146096) / 365;
    let y: u64 = yoe + era * 400;
    let doy: u64 = doe - (365 * yoe + yoe / 4 - yoe / 100);
    proof {
        lemma_month_of_year(doy);
    }
    let mp: u64 = (5 * doy + 2) / 153;
    let d: u64 = doy - (153 * mp + 2) / 5 + 1;
    let m: u64 = if mp < 10 { mp + 3 } else { mp - 9 };
    let y2: u64 = if m <= 2 { y + 1 } else { y };
    (y2 as i32, m as u32, d as u32)
}

fn push_year(buf: &mut Vec<u8>, y: i32)
    ensures
        final(buf)@ == old(buf)@ + year_text(y as int),
{
    if y < 0 {
        buf.push(0x2Du8);
        let v: u64 = (-(y as i64)) as u64;
        push_padded(buf, v, 3);
        assert(final(buf)@ =~= old(buf)@ + year_text(y as int));
    } else {
        push_padded(buf, y as u64, 4);
    }
}

proof fn lemma_year_text_ascii(v: int)
    ensures
        all_ascii(year_text(v)),
{
    if v < 0 {
        lemma_decimal_ascii((-v) as nat);
        lemma_zero_pad_ascii(decimal((-v) as nat), 3);
        lemma_ascii_concat(seq![0x2Du8], zero_pad(decimal((-v) as nat), 3));
    } else {
        lemma_decimal_ascii(v as nat);
        lemma_zero_pad_ascii(decimal(v as nat), 4);
    }
}

proof fn lemma_two_digits_ascii(n: nat)
    ensures
        all_ascii(two_digits(n)),
{
    lemma_decimal_ascii(n);
    lemma_zero_pad_ascii(decimal(n), 2);
}

pub proof fn lemma_timestamp_ascii(secs: nat)
    ensures
        all_ascii(timestamp_bytes(secs)),
{
    let days = secs / 86400;
    let rem = secs % 86400;
    let (y, m, d) = civil_from_days_spec(days as int);
    lemma_year_text_ascii((y as i32) as int);
    lemma_two_digits_ascii(m as nat);
    lemma_two_digits_ascii(d as nat);
    lemma_two_digits_ascii(rem / 3600);
    lemma_two_digits_ascii((rem % 3600) / 60);
    lemma_two_digits_ascii(rem % 60);
    let b = timestamp_bytes(secs);
    assert forall|k: int| 0 <= k < b.len() implies #[trigger] b[k] < 0x80u8 by {
        let p0 = year_text((y as i32) as int);
        lemma_ascii_concat(p0, seq![0x2Du8]);
        let p1 = p0 + seq![0x2Du8];
        lemma_ascii_concat(p1, two_digits(m as nat));
        let p2 = p1 + two_digits(m as nat);
        lemma_ascii_concat(p2, seq![0x2Du8]);
        let p3 = p2 + seq![0x2Du8];
        lemma_ascii_concat(p3, two_digits(d as nat));
        let p4 = p3 + two_digits(d as nat);
        lemma_ascii_concat(p4, seq![0x54u8]);
        let p5 = p4 + seq![0x54u8];
        lemma_ascii_concat(p5, two_digits(rem / 3600));
        let p6 = p5 + two_digits(rem / 3600);
        lemma_ascii_concat(p6, seq![0x3Au8]);
        let p7 = p6 + seq![0x3Au8];
        lemma_ascii_concat(p7, two_digits((rem % 3600) / 60));
        let p8 = p7 + two_digits((rem % 3600) / 60);
        lemma_ascii_concat(p8, seq![0x3Au8]);
        let p9 = p8 + seq![0x3Au8];
        lemma_ascii_concat(p9, two_digits(rem % 60));
        let p10 = p9 + two_digits(rem % 60);
        lemma_ascii_concat(p10, seq![0x5Au8]);
        assert(b == p10 + seq![0x5Au8]);
    }
}

fn format_unix_utc(secs: u64) -> (s: String)
    ensures
        s@ == ascii_chars(timestamp_bytes(secs as nat)),
{
    let days = secs / 86400;
    let rem = secs % 86400;
    let hour = rem / 3600;
    let min = (rem % 3600) / 60;
    let sec = rem % 60;
    let (y, m, d) = civil_from_days(days as i64);
    let mut buf: Vec<u8> = Vec::new();
    push_year(&mut buf, y);
    buf.push(0x2Du8);
    push_padded(&mut buf, m as u64, 2);
    buf.push(0x2Du8);
    push_padded(&mut buf, d as u64, 2);
    buf.push(0x54u8);
    push_padded(&mut buf, hour, 2);
    buf.push(0x3Au8);
    push_padded(&mut buf, min, 2);
    buf.push(0x3Au8);
    push_padded(&mut buf, sec, 2);
    buf.push(0x5Au8);
    assert(buf@ =~= timestamp_bytes(secs as nat));
    proof {
        lemma_timestamp_ascii(secs as nat);
    }
    ascii_string(buf)
}

/// Formats seconds since the Unix epoch as `YYYY-MM-DDTHH:MM:SSZ` (UTC).
pub fn format_unix_for_ts(secs: u64) -> (s: String)
    ensures
        s@ == ascii_chars(timestamp_bytes(secs as nat)),
{
    format_unix_utc(secs)
}


/// An environment: names and values, in order.
pub open spec fn env_view(v: Seq<(String, String)>) -> Seq<(Seq<char>, Seq<char>)> {
    Seq::new(v.len(), |i: int| (v[i].0@, v[i].1@))
}

/// The first entry named `key`.
pub open spec fn env_index(e: Seq<(Seq<char>, Seq<char>)>, key: Seq<char>) -> Option<int>
    decreases e.len(),
{
    if e.len() == 0 {
        None
    } else {
        match env_index(e.drop_last(), key) {
            Some(i) => Some(i),
            None => if e.last().0 == key {
                Some(e.len() - 1)
            } else {
                None
            },
        }
    }
}

/// The value of the first entry named `key`.
pub open spec fn env_lookup(e: Seq<(Seq<char>, Seq<char>)>, key: Seq<char>) -> Option<Seq<char>> {
    match env_index(e, key) {
        Some(i) => Some(e[i].1),
        None => None,
    }
}

/// Sets `key` to `value`: the first entry of that name gets the value, or
/// the entry is added at the end.
pub open spec fn env_set(e: Seq<(Seq<char>, Seq<char>)>, key: Seq<char>, value: Seq<char>) -> Seq<
    (Seq<char>, Seq<char>),
> {
    match env_index(e, key) {
        Some(i) => e.update(i, (key, value)),
        None => e.push((key, value)),
    }
}

/// The environment after setting each entry of `overlay`, in order.
pub open spec fn env_merge(e: Seq<(Seq<char>, Seq<char>)>, overlay: Seq<(Seq<char>, Seq<char>)>) -> Seq<
    (Seq<char>, Seq<char>),
>
    decreases overlay.len(),
{
    if overlay.len() == 0 {
        e
    } else {
        let m = env_merge(e, overlay.drop_last());
        env_set(m, overlay.last().0, overlay.last().1)
    }
}

/// The entries whose names are not among `remove`, in order.
pub open spec fn env_without(e: Seq<(Seq<char>, Seq<char>)>, remove: Seq<Seq<char>>) -> Seq<
    (Seq<char>, Seq<char>),
>
    decreases e.len(),
{
    if e.len() == 0 {
        e
    } else {
        let rest = env_without(e.drop_last(), remove);
        if remove.contains(e.last().0) {
            rest
        } else {
            rest.push(e.last())
        }
    }
}

pub proof fn lemma_env_index(e: Seq<(Seq<char>, Seq<char>)>, key: Seq<char>)
    ensures
        env_index(e, key) matches Some(i) ==> 0 <= i < e.len() && e[i].0 == key && forall|j: int|
            0 <= j < i ==> e[j].0 != key,
        env_index(e, key) is None ==> forall|j: int| 0 <= j < e.len() ==> e[j].0 != key,
    decreases e.len(),
{
    if e.len() > 0 {
        let d = e.drop_last();
        lemma_env_index(d, key);
        assert forall|j: int| 0 <= j < d.len() implies d[j] == e[j] by {}
    }
}

proof fn lemma_env_index_unique(e: Seq<(Seq<char>, Seq<char>)>, key: Seq<char>, i: int)
    requires
        0 <= i < e.len(),
        e[i].0 == key,
        forall|j: int| 0 <= j < i ==> e[j].0 != key,
    ensures
        env_index(e, key) == Some(i),
    decreases e.len(),
{
    lemma_env_index(e, key);
    if i < e.len() - 1 {
        lemma_env_index_unique(e.drop_last(), key, i);
    } else {
        lemma_env_index(e.drop_last(), key);
    }
}

proof fn lemma_env_index_none(e: Seq<(Seq<char>, Seq<char>)>, key: Seq<char>)
    requires
        forall|j: int| 0 <= j < e.len() ==> e[j].0 != key,
    ensures
        env_index(e, key) is None,
    decreases e.len(),
{
    if e.len() > 0 {
        lemma_env_index_none(e.drop_last(), key);
    }
}

/// Reading a name just set gives its new value.
pub proof fn law_env_set_then_get(e: Seq<(Seq<char>, Seq<char>)>, key: Seq<char>, value: Seq<char>)
    ensures
        env_lookup(env_set(e, key, value), key) == Some(value),
{
    lemma_env_index(e, key);
    let s = env_set(e, key, value);
    match env_index(e, key) {
        Some(i) => {
            assert forall|j: int| 0 <= j < i implies s[j].0 != key by {
                assert(s[j] == e[j]);
            }
            lemma_env_index_unique(s, key, i);
        },
        None => {
            assert forall|j: int| 0 <= j < e.len() implies s[j].0 != key by {
                assert(s[j] == e[j]);
            }
            lemma_env_index_unique(s, key, e.len() as int);
        },
    }
}

/// Setting one name leaves every other name as it was.
pub proof fn law_env_set_keeps_others(
    e: Seq<(Seq<char>, Seq<char>)>,
    key: Seq<char>,
    value: Seq<char>,
    other: Seq<char>,
)
    requires
        other != key,
    ensures
        env_lookup(env_set(e, key, value), other) == env_lookup(e, other),
{
    lemma_env_index(e, key);
    lemma_env_index(e, other);
    let s = env_set(e, key, value);
    assert forall|j: int| 0 <= j < e.len() && (#[trigger] s[j]).0 == other implies s[j] == e[j] by {
    }
    match env_index(e, other) {
        Some(i) => {
            assert forall|j: int| 0 <= j < i implies s[j].0 != other by {
                if s[j].0 == other {
                    assert(s[j] == e[j]);
                }
            }
            assert(s[i] == e[i]);
            lemma_env_index_unique(s, other, i);
        },
        None => {
            assert forall|j: int| 0 <= j < s.len() implies s[j].0 != other by {
                if j < e.len() && s[j].0 == other {
                    assert(s[j] == e[j]);
                }
            }
            lemma_env_index_none(s, other);
        },
    }
}

/// After a merge, a name the overlay sets reads as the value its last entry
/// gives it.
pub proof fn law_merge_overlay_wins(
    e: Seq<(Seq<char>, Seq<char>)>,
    overlay: Seq<(Seq<char>, Seq<char>)>,
    k: int,
)
    requires
        0 <= k < overlay.len(),
        forall|j: int| k < j < overlay.len() ==> overlay[j].0 != overlay[k].0,
    ensures
        env_lookup(env_merge(e, overlay), overlay[k].0) == Some(overlay[k].1),
    decreases overlay.len(),
{
    let key = overlay[k].0;
    if k == overlay.len() - 1 {
        law_env_set_then_get(env_merge(e, overlay.drop_last()), key, overlay[k].1);
    } else {
        let init = overlay.drop_last();
        assert(init[k] == overlay[k]);
        law_merge_overlay_wins(e, init, k);
        law_env_set_keeps_others(env_merge(e, init), overlay.last().0, overlay.last().1, key);
    }
}

pub fn env_get(env: &[(String, String)], key: &str) -> (r: Option<String>)
    ensures
        match env_lookup(env_view(env@), key@) {
            Some(v) => r matches Some(s) && s@ == v,
            None => r is None,
        },
{
    proof {
        lemma_env_index(env_view(env@), key@);
    }
    let mut i: usize = 0;
    while i < env.len()
        invariant
            i <= env@.len(),
            forall|j: int| 0 <= j < i ==> env_view(env@)[j].0 != key@,
        decreases env.len() - i,
    {
        if str_eq(env[i].0.as_str(), key) {
            proof {
                lemma_env_index_unique(env_view(env@), key@, i as int);
            }
            return Some(env[i].1.clone());
        }
        i = i + 1;
    }
    proof {
        lemma_env_index_none(env_view(env@), key@);
    }
    None
}

fn set_entry(env: &mut Vec<(String, String)>, key: String, value: String)
    ensures
        env_view(final(env)@) == env_set(env_view(old(env)@), key@, value@),
{
    let ghost e = env_view(env@);
    proof {
        lemma_env_index(e, key@);
    }
    let mut i: usize = 0;
    while i < env.len()
        invariant
            i <= env@.len(),
            env@ == old(env)@,
            e == env_view(env@),
            forall|j: int| 0 <= j < i ==> e[j].0 != key@,
        decreases env.len() - i,
    {
        if str_eq(env[i].0.as_str(), key.as_str()) {
            proof {
                lemma_env_index_unique(e, key@, i as int);
            }
            let kv = (key, value);
            let ghost pair = (kv.0@, kv.1@);
            env.set(i, kv);
            assert(env_view(env@) =~= e.update(i as int, pair));
            return;
        }
        i = i + 1;
    }
    proof {
        lemma_env_index_none(e, key@);
    }
    let ghost pair = (key@, value@);
    env.push((key, value));
    assert(env_view(env@) =~= e.push(pair));
}

/// Sets each entry of `overlay` in turn.
pub fn merge_env(env: &mut Vec<(String, String)>, overlay: Vec<(String, String)>)
    ensures
        env_view(final(env)@) == env_merge(env_view(old(env)@), env_view(overlay@)),
{
    let ghost start = env_view(env@);
    let mut i: usize = 0;
    while i < overlay.len()
        invariant
            i <= overlay@.len(),
            env_view(env@) == env_merge(start, env_view(overlay@).take(i as int)),
        decreases overlay.len() - i,
    {
        let k = overlay[i].0.clone();
        let v = overlay[i].1.clone();
        set_entry(env, k, v);
        proof {
            let t1 = env_view(overlay@).take(i + 1);
            assert(t1.drop_last() =~= env_view(overlay@).take(i as int));
            assert(t1.last() == (overlay@[i as int].0@, overlay@[i as int].1@));
        }
        i = i + 1;
    }
    assert(env_view(overlay@).take(overlay@.len() as int) =~= env_view(overlay@));
}

pub open spec fn strs_view(v: Seq<&str>) -> Seq<Seq<char>> {
    Seq::new(v.len(), |i: int| v[i]@)
}

/// The entries whose names are not among `remove`.
pub fn filter_env(vars: Vec<(String, String)>, remove: &[&str]) -> (r: Vec<(String, String)>)
    ensures
        env_view(r@) == env_without(env_view(vars@), strs_view(remove@)),
{
    let mut r: Vec<(String, String)> = Vec::new();
    let mut i: usize = 0;
    while i < vars.len()
        invariant
            i <= vars@.len(),
            env_view(r@) == env_without(env_view(vars@).take(i as int), strs_view(remove@)),
        decreases vars.len() - i,
    {
        let mut hit = false;
        let mut j: usize = 0;
        while j < remove.len()
            invariant
                j <= remove@.len(),
                i < vars@.len(),
                hit == exists|q: int| 0 <= q < j && strs_view(remove@)[q] == vars@[i as int].0@,
            decreases remove.len() - j,
        {
            let same = str_eq(vars[i].0.as_str(), remove[j]);
            assert(strs_view(remove@)[j as int] == remove@[j as int]@);
            if same {
                hit = true;
            }
            j = j + 1;
        }
        proof {
            let t1 = env_view(vars@).take(i + 1);
            assert(t1.drop_last() =~= env_view(vars@).take(i as int));
            assert(t1.last() == (vars@[i as int].0@, vars@[i as int].1@));
            if hit {
                let q = choose|q: int| 0 <= q < remove@.len() && strs_view(remove@)[q] == vars@[i as int].0@;
                assert(strs_view(remove@).contains(vars@[i as int].0@));
            } else {
                assert(!strs_view(remove@).contains(vars@[i as int].0@));
            }
        }
        if !hit {
            let ghost before = r@;
            r.push((vars[i].0.clone(), vars[i].1.clone()));
            assert(env_view(r@) =~= env_view(before).push((vars@[i as int].0@, vars@[i as int].1@)));
        }
        i = i + 1;
    }
    assert(env_view(vars@).take(vars@.len() as int) =~= env_view(vars@));
    r
}

/// The variables of the service that a job does not inherit.
pub fn removed_env_names() -> (v: Vec<&'static str>)
    ensures
        strs_view(v@) == seq![
            "TMUX"@,
            "SHELLCTL_STATE_DIR"@,
            "SHELLCTL_RUNTIME_DIR"@,
            "SHELLCTL_TMUX_SOCKET"@,
            "SHELLCTL_RUNNER"@,
            "SHELLCTL_AUTH_TOKEN"@,
        ],
{
    let mut v: Vec<&'static str> = Vec::new();
    v.push("TMUX");
    v.push("SHELLCTL_STATE_DIR");
    v.push("SHELLCTL_RUNTIME_DIR");
    v.push("SHELLCTL_TMUX_SOCKET");
    v.push("SHELLCTL_RUNNER");
    v.push("SHELLCTL_AUTH_TOKEN");
    assert(strs_view(v@) =~= seq![
        "TMUX"@,
        "SHELLCTL_STATE_DIR"@,
        "SHELLCTL_RUNTIME_DIR"@,
        "SHELLCTL_TMUX_SOCKET"@,
        "SHELLCTL_RUNNER"@,
        "SHELLCTL_AUTH_TOKEN"@,
    ]);
    v
}

/// A job's temporary files go to its working directory.
pub fn temp_dir_overlay(cwd: &str) -> (v: Vec<(String, String)>)
    ensures
        env_view(v@) == seq![("TMPDIR"@, cwd@), ("TMP"@, cwd@), ("TEMP"@, cwd@)],
{
    let mut v: Vec<(String, String)> = Vec::new();
    v.push(("TMPDIR".to_string(), cwd.to_string()));
    v.push(("TMP".to_string(), cwd.to_string()));
    v.push(("TEMP".to_string(), cwd.to_string()));
    assert(env_view(v@) =~= seq![("TMPDIR"@, cwd@), ("TMP"@, cwd@), ("TEMP"@, cwd@)]);
    v
}

/// What the runner was asked to do.
#[derive(Debug, PartialEq, Eq)]
pub enum RunnerInvocation {
    /// Run the job: `<job_dir> <job_id> <cwd> [mode]`.
    Parent { job_dir: String, job_id: String, cwd: String, mode: Mode },
    /// Fewer than three job arguments.
    ParentUsage,
    /// The mode is not known; the message says which.
    BadMode(String),
    /// Replace this process by the script: `--exec [--landlock] <script> <cwd>`.
    Child { landlock: bool, script_path: String, cwd: String },
    /// `--exec` without a script and a working directory.
    ChildUsage,
}

pub open spec fn arg_views(v: Seq<String>) -> Seq<Seq<char>> {
    Seq::new(v.len(), |i: int| v[i]@)
}

pub fn runner_invocation(args: &[String]) -> (r: RunnerInvocation)
    ensures
        ({
            let a = arg_views(args@);
            if a.len() > 1 && a[1] == "--exec"@ {
                let rest = a.subrange(2, a.len() as int);
                let lock = rest.len() > 0 && rest[0] == "--landlock"@;
                let rest2 = if lock {
                    rest.drop_first()
                } else {
                    rest
                };
                if rest2.len() < 2 {
                    r is ChildUsage
                } else {
                    r matches RunnerInvocation::Child { landlock, script_path, cwd } && landlock == lock
                        && script_path@ == rest2[0] && cwd@ == rest2[1]
                }
            } else if a.len() < 4 {
                r is ParentUsage
            } else {
                let raw = if a.len() >= 5 {
                    a[4]
                } else {
                    Seq::<char>::empty()
                };
                match mode_of_name(raw) {
                    Some(m) => r matches RunnerInvocation::Parent { job_dir, job_id, cwd, mode }
                        && job_dir@ == a[1] && job_id@ == a[2] && cwd@ == a[3] && mode == m,
                    None => r matches RunnerInvocation::BadMode(msg) && msg@ == invalid_mode_message(raw),
                }
            }
        }),
{
    if args.len() > 1 && str_eq(args[1].as_str(), "--exec") {
        let mut start: usize = 2;
        let lock = args.len() > 2 && str_eq(args[2].as_str(), "--landlock");
        if lock {
            start = 3;
        }
        proof {
            let a = arg_views(args@);
            let rest = a.subrange(2, a.len() as int);
            if rest.len() > 0 {
                assert(rest[0] == a[2]);
                assert(rest.drop_first() =~= a.subrange(3, a.len() as int));
            }
        }
        if args.len() < start + 2 {
            return RunnerInvocation::ChildUsage;
        }
        return RunnerInvocation::Child {
            landlock: lock,
            script_path: args[start].clone(),
            cwd: args[start + 1].clone(),
        };
    }
    if args.len() < 4 {
        return RunnerInvocation::ParentUsage;
    }
    let raw: &str = if args.len() >= 5 {
        args[4].as_str()
    } else {
        ""
    };
    proof {
        reveal_strlit("");
    }
    match crate::jobmode::parse(raw) {
        Ok(mode) => RunnerInvocation::Parent {
            job_dir: args[1].clone(),
            job_id: args[2].clone(),
            cwd: args[3].clone(),
            mode,
        },
        Err(msg) => RunnerInvocation::BadMode(msg),
    }
}

/// The arguments of the runner's child: `--exec`, `--landlock` where the
/// job is isolated, the script and the working directory.
pub fn child_args(isolated: bool, script_path: &str, cwd: &str) -> (v: Vec<String>)
    ensures
        arg_views(v@) == seq!["--exec"@] + (if isolated {
            seq!["--landlock"@]
        } else {
            Seq::<Seq<char>>::empty()
        }) + seq![script_path@, cwd@],
{
    let mut v: Vec<String> = Vec::new();
    v.push("--exec".to_string());
    if isolated {
        v.push("--landlock".to_string());
    }
    v.push(script_path.to_string());
    v.push(cwd.to_string());
    assert(arg_views(v@) =~= seq!["--exec"@] + (if isolated {
        seq!["--landlock"@]
    } else {
        Seq::<Seq<char>>::empty()
    }) + seq![script_path@, cwd@]);
    v
}

/// How a script is run: by itself where it starts with `#!`, else by `sh`.
pub fn exec_argv(script_path: &str, has_shebang: bool) -> (v: Vec<String>)
    ensures
        arg_views(v@) == if has_shebang {
            seq![script_path@]
        } else {
            seq!["sh"@, script_path@]
        },
{
    let mut v: Vec<String> = Vec::new();
    if !has_shebang {
        v.push("sh".to_string());
    }
    v.push(script_path.to_string());
    assert(arg_views(v@) =~= if has_shebang {
        seq![script_path@]
    } else {
        seq!["sh"@, script_path@]
    });
    v
}

/// The first two bytes of a script mark it as one that names its own
/// interpreter.
pub fn is_shebang(head: &[u8]) -> (r: bool)
    ensures
        r == (head@.len() == 2 && head@[0] == 0x23u8 && head@[1] == 0x21u8),
{
    head.len() == 2 && head[0] == 0x23u8 && head[1] == 0x21u8
}

/// The string members of an object, in order; other members are passed over.
pub open spec fn string_members(ms: Seq<(Seq<char>, JsonValueView)>) -> Seq<(Seq<char>, Seq<char>)>
    decreases ms.len(),
{
    if ms.len() == 0 {
        Seq::empty()
    } else {
        let rest = string_members(ms.drop_last());
        match ms.last().1 {
            JsonValueView::Text(t) => rest.push((ms.last().0, t)),
            _ => rest,
        }
    }
}

/// The variables of a job's environment file: the string members of the
/// JSON object it holds. `None` where the text is no JSON object.
pub fn env_json_overlay(text: &[u8]) -> (r: Option<Vec<(String, String)>>)
    ensures
        match json_object_members(text@) {
            None => r is None,
            Some(ms) => r matches Some(v) && env_view(v@) == string_members(ms),
        },
{
    match json_members(text) {
        None => None,
        Some(ms) => {
            let ghost msv = members_view(ms@);
            let mut out: Vec<(String, String)> = Vec::new();
            let mut i: usize = 0;
            while i < ms.len()
                invariant
                    i <= ms@.len(),
                    msv == members_view(ms@),
                    env_view(out@) == string_members(msv.take(i as int)),
                decreases ms.len() - i,
            {
                proof {
                    let t = msv.take(i + 1);
                    assert(t.drop_last() =~= msv.take(i as int));
                    assert(t.last() == msv[i as int]);
                }
                match &ms[i].1 {
                    JsonValue::Text(v) => {
                        let ghost before = out@;
                        out.push((ms[i].0.clone(), v.clone()));
                        assert(env_view(out@) =~= env_view(before).push((ms@[i as int].0@, v@)));
                    },
                    _ => {},
                }
                i = i + 1;
            }
            assert(msv.take(ms@.len() as int) =~= msv);
            Some(out)
        },
    }
}

} // verus!

