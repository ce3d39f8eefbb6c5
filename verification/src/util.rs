//! Time formatting and the parsing of offsets and durations.
//!
//! Times are unix milliseconds (UTC). Display adds a local offset, which the
//! caller passes in (the stored `ts` stays UTC).

use vstd::prelude::*;

use crate::parser::{find_char, find_char_in};
use crate::text::{
    padded, padded_int, parse_i64_range, parse_i64_spec, push_char, push_padded, push_padded_i64, push_str,
    to_chars, trim, trim_bounds, trim_end, trim_start, is_ws, all_digits, lemma_digits_value_nonneg,
};

verus! {

// ---------------------------------------------------------------------------
// The proleptic Gregorian calendar
// ---------------------------------------------------------------------------

pub open spec fn is_leap(y: int) -> bool {
    (y % 4 == 0 && y % 100 != 0) || y % 400 == 0
}

pub open spec fn leap_day(y: int) -> int {
    if is_leap(y) {
        1
    } else {
        0
    }
}

pub open spec fn days_in_month(y: int, m: int) -> int {
    if m == 2 {
        28 + leap_day(y)
    } else if m == 4 || m == 6 || m == 9 || m == 11 {
        30
    } else {
        31
    }
}

/// Days of a common year before the first of month `m`.
pub open spec fn common_days_before(m: int) -> int {
    if m <= 1 {
        0
    } else if m == 2 {
        31
    } else if m == 3 {
        59
    } else if m == 4 {
        90
    } else if m == 5 {
        120
    } else if m == 6 {
        151
    } else if m == 7 {
        181
    } else if m == 8 {
        212
    } else if m == 9 {
        243
    } else if m == 10 {
        273
    } else if m == 11 {
        304
    } else {
        334
    }
}

/// Days of year `y` before the first of month `m`.
pub open spec fn days_before_month(y: int, m: int) -> int {
    common_days_before(m) + if m > 2 {
        leap_day(y)
    } else {
        0
    }
}

/// Leap years among the years `1..=y` (for `y >= 0`; extended by the same formula).
pub open spec fn leaps_through(y: int) -> int {
    y / 4 - y / 100 + y / 400
}

/// Days from 1970-01-01 to the first of January of year `y` (negative before 1970).
pub open spec fn days_before_year(y: int) -> int {
    365 * (y - 1970) + leaps_through(y - 1) - leaps_through(1969)
}

/// Days from 1970-01-01 to the date `y-m-d`.
pub open spec fn days_from_civil(y: int, m: int, d: int) -> int {
    days_before_year(y) + days_before_month(y, m) + d - 1
}

pub open spec fn valid_date(y: int, m: int, d: int) -> bool {
    1 <= m <= 12 && 1 <= d <= days_in_month(y, m)
}

/// The date `days` days after 1970-01-01.
pub open spec fn civil_date(days: int) -> (int, int, int) {
    choose|r: (int, int, int)| valid_date(r.0, r.1, r.2) && days_from_civil(r.0, r.1, r.2) == days
}

/// Each year is 365 days long, plus a leap day in leap years.
pub proof fn lemma_days_before_year_step(y: int)
    ensures
        days_before_year(1970) == 0,
        days_before_year(y + 1) == days_before_year(y) + 365 + leap_day(y),
{
    assert(y / 4 - (y - 1) / 4 == if y % 4 == 0 { 1int } else { 0int });
    assert(y / 100 - (y - 1) / 100 == if y % 100 == 0 { 1int } else { 0int });
    assert(y / 400 - (y - 1) / 400 == if y % 400 == 0 { 1int } else { 0int });
}

/// Later years start later.
pub proof fn lemma_days_before_year_monotone(a: int, b: int)
    requires
        a <= b,
    ensures
        days_before_year(a) + 365 * (b - a) <= days_before_year(b),
    decreases b - a,
{
    if a < b {
        lemma_days_before_year_monotone(a, b - 1);
        lemma_days_before_year_step(b - 1);
    }
}

/// A valid date lies inside its year.
proof fn lemma_date_in_year(y: int, m: int, d: int)
    requires
        valid_date(y, m, d),
    ensures
        days_before_year(y) <= days_from_civil(y, m, d) < days_before_year(y + 1),
{
    lemma_days_before_year_step(y);
}

/// Two valid dates with the same day number are the same date.
pub proof fn lemma_civil_unique(a: (int, int, int), b: (int, int, int))
    requires
        valid_date(a.0, a.1, a.2),
        valid_date(b.0, b.1, b.2),
        days_from_civil(a.0, a.1, a.2) == days_from_civil(b.0, b.1, b.2),
    ensures
        a == b,
{
    lemma_date_in_year(a.0, a.1, a.2);
    lemma_date_in_year(b.0, b.1, b.2);
    if a.0 < b.0 {
        lemma_days_before_year_monotone(a.0 + 1, b.0);
    } else if b.0 < a.0 {
        lemma_days_before_year_monotone(b.0 + 1, a.0);
    } else {
        if a.1 < b.1 {
            assert(days_before_month(a.0, a.1) + days_in_month(a.0, a.1) <= days_before_month(
                a.0,
                b.1,
            ));
        } else if b.1 < a.1 {
            assert(days_before_month(a.0, b.1) + days_in_month(a.0, b.1) <= days_before_month(
                a.0,
                a.1,
            ));
        }
    }
}

/// `civil_date` names the one valid date of a day number.
pub proof fn lemma_civil_date(days: int, r: (int, int, int))
    requires
        valid_date(r.0, r.1, r.2),
        days_from_civil(r.0, r.1, r.2) == days,
    ensures
        civil_date(days) == r,
{
    let c = civil_date(days);
    assert(valid_date(c.0, c.1, c.2) && days_from_civil(c.0, c.1, c.2) == days);
    lemma_civil_unique(c, r);
}

// Days since 0000-03-01 are split into 400-year eras of 146097 days; inside an era,
// years start in March, so the leap day is the last day of a year.

pub open spec fn year_of_era(doe: u32) -> u32 {
    ((doe - doe / 1460 + doe / 36524 - doe / 146096) / 365) as u32
}

pub open spec fn start_of_year_of_era(yoe: u32) -> u32 {
    (365 * yoe + yoe / 4 - yoe / 100) as u32
}

proof fn lemma_year_of_era(doe: u32)
    by (bit_vector)
    requires
        doe < 146097,
    ensures
        year_of_era(doe) <= 399,
        start_of_year_of_era(year_of_era(doe)) <= doe,
        doe - start_of_year_of_era(year_of_era(doe)) <= 364 + (if (year_of_era(doe) + 1) % 4 == 0
            && ((year_of_era(doe) + 1) % 100 != 0 || year_of_era(doe) == 399) {
            1u32
        } else {
            0u32
        }),
{
}

/// Days of the March-based year before the first of its month `mp` (0 = March).
pub open spec fn march_days_before(mp: u32) -> u32 {
    ((153 * mp + 2) / 5) as u32
}

pub open spec fn march_month(doy: u32) -> u32 {
    ((5 * doy + 2) / 153) as u32
}

proof fn lemma_month_of_year(doy: u32)
    by (bit_vector)
    requires
        doy <= 365,
    ensures
        march_month(doy) <= 11u32,
        march_days_before(march_month(doy)) <= doy,
        march_month(doy) < 11u32 ==> doy < march_days_before((march_month(doy) + 1) as u32),
{
}

/// Splits `z` days after 1970-01-01 into year, month and day
/// (Howard Hinnant's `civil_from_days`).
fn civil_from_days(z: i64) -> (r: (i64, u32, u32))
    requires
        -1_000_000_000_000 <= z <= 1_000_000_000_000,
    ensures
        valid_date(r.0 as int, r.1 as int, r.2 as int),
        days_from_civil(r.0 as int, r.1 as int, r.2 as int) == z,
{
    let z = z + 719_468;
    let era: i64 = if z >= 0 {
        z / 146_097
    } else {
        -((146_096 - z) / 146_097)
    };
    assert(0 <= z - era * 146_097 < 146_097) by (nonlinear_arith)
        requires
            era == if z >= 0 {
                z / 146_097
            } else {
                -((146_096 - z) / 146_097)
            },
    ;
    let doe = (z - era * 146_097) as u64;
    proof {
        lemma_year_of_era(doe as u32);
    }
    let yoe = (doe - doe / 1460 + doe / 36_524 - doe / 146_096) / 365;
    assert(yoe == year_of_era(doe as u32));
    let y = yoe as i64 + era * 400;
    let doy = doe - (365 * yoe + yoe / 4 - yoe / 100);
    assert(doy == doe - start_of_year_of_era(yoe as u32));
    proof {
        lemma_month_of_year(doy as u32);
    }
    let mp = (5 * doy + 2) / 153;
    let d = (doy - (153 * mp + 2) / 5 + 1) as u32;
    let m = if mp < 10 {
        mp + 3
    } else {
        mp - 9
    } as u32;
    let year = if m <= 2 {
        y + 1
    } else {
        y
    };
    proof {
        lemma_civil_assemble(era as int, yoe as int, doy as int, mp as int);
    }
    (year, m, d)
}

/// The arithmetic behind `civil_from_days`: era, year of era, day of year and
/// March-based month give back the day number.
proof fn lemma_civil_assemble(era: int, yoe: int, doy: int, mp: int)
    requires
        0 <= yoe <= 399,
        0 <= doy <= 364 + (if (yoe + 1) % 4 == 0 && ((yoe + 1) % 100 != 0 || yoe == 399) {
            1int
        } else {
            0int
        }),
        mp == (5 * doy + 2) / 153,
        0 <= mp <= 11,
        (153 * mp + 2) / 5 <= doy,
        mp < 11 ==> doy < (153 * (mp + 1) + 2) / 5,
    ensures
        ({
            let y = yoe + era * 400;
            let m = if mp < 10 {
                mp + 3
            } else {
                mp - 9
            };
            let d = doy - (153 * mp + 2) / 5 + 1;
            let year = if m <= 2 {
                y + 1
            } else {
                y
            };
            &&& valid_date(year, m, d)
            &&& days_from_civil(year, m, d) == 146097 * era + (365 * yoe + yoe / 4 - yoe / 100)
                + doy - 719468
        }),
{
    let y = yoe + era * 400;
    assert(y / 4 == era * 100 + yoe / 4);
    assert(y / 100 == era * 4 + yoe / 100);
    assert(y / 400 == era + yoe / 400);
    assert(yoe / 400 == 0);
    assert((y + 1) % 4 == (yoe + 1) % 4);
    assert((y + 1) % 100 == (yoe + 1) % 100);
    assert((y + 1) % 400 == (yoe + 1) % 400);
    assert(y % 4 == yoe % 4);
    assert(y % 100 == yoe % 100);
    assert(y % 400 == yoe % 400);
    lemma_days_before_year_step(y);
    assert(y / 4 - (y - 1) / 4 == if y % 4 == 0 { 1int } else { 0int });
    assert(y / 100 - (y - 1) / 100 == if y % 100 == 0 { 1int } else { 0int });
    assert(y / 400 - (y - 1) / 400 == if y % 400 == 0 { 1int } else { 0int });
}

// ---------------------------------------------------------------------------
// Formatting
// ---------------------------------------------------------------------------

pub const DAY_MS: i64 = 86_400_000;

/// The local date of unix millis `t` (already shifted by the offset).
pub open spec fn local_date(t: int) -> (int, int, int) {
    civil_date(t / DAY_MS as int)
}

/// Seconds since local midnight.
pub open spec fn local_seconds(t: int) -> int {
    (t % DAY_MS as int) / 1000
}

/// `YYYY-MM-DD`.
pub open spec fn date_text(t: int) -> Seq<char> {
    let (y, m, d) = local_date(t);
    padded_int(y, 4) + seq!['-'] + padded(m as nat, 2) + seq!['-'] + padded(d as nat, 2)
}

/// `HH:MM:SS`.
pub open spec fn time_text(t: int) -> Seq<char> {
    let s = local_seconds(t);
    padded((s / 3600) as nat, 2) + seq![':'] + padded(((s % 3600) / 60) as nat, 2) + seq![':']
        + padded((s % 60) as nat, 2)
}

/// `YYYY-MM-DD HH:MM:SS`.
pub open spec fn datetime_text(t: int) -> Seq<char> {
    date_text(t) + seq![' '] + time_text(t)
}

/// Local year, month, day, hour, minute and second of `ts_ms + tz_offset_ms`.
fn breakdown(ts_ms: i64, tz_offset_ms: i64) -> (r: (i64, u32, u32, u32, u32, u32))
    requires
        fits_i64(ts_ms + tz_offset_ms),
    ensures
        (r.0 as int, r.1 as int, r.2 as int) == local_date(ts_ms + tz_offset_ms),
        r.3 == local_seconds(ts_ms + tz_offset_ms) / 3600,
        r.4 == (local_seconds(ts_ms + tz_offset_ms) % 3600) / 60,
        r.5 == local_seconds(ts_ms + tz_offset_ms) % 60,
{
    let t = ts_ms + tz_offset_ms;
    let days = match t.checked_div_euclid(86_400_000) {
        Some(d) => d,
        None => 0,
    };
    let rem = match t.checked_rem_euclid(86_400_000) {
        Some(r) => r,
        None => 0,
    };
    let secs = (rem / 1000) as u32;
    let (y, m, d) = civil_from_days(days);
    proof {
        lemma_civil_date(days as int, (y as int, m as int, d as int));
    }
    (y, m, d, secs / 3600, (secs % 3600) / 60, secs % 60)
}

/// Unix millis to `YYYY-MM-DD HH:MM:SS` in local time (`ts_ms + tz_offset_ms`).
pub fn fmt_datetime(ts_ms: i64, tz_offset_ms: i64) -> (s: String)
    requires
        fits_i64(ts_ms + tz_offset_ms),
    ensures
        s@ == datetime_text(ts_ms + tz_offset_ms),
{
    let mut s = fmt_date(ts_ms, tz_offset_ms);
    push_char(&mut s, ' ');
    let t = fmt_time(ts_ms, tz_offset_ms);
    push_str(&mut s, t.as_str());
    s
}

/// Unix millis to `HH:MM:SS` in local time.
pub fn fmt_time(ts_ms: i64, tz_offset_ms: i64) -> (s: String)
    requires
        fits_i64(ts_ms + tz_offset_ms),
    ensures
        s@ == time_text(ts_ms + tz_offset_ms),
{
    let (_, _, _, hh, mm, ss) = breakdown(ts_ms, tz_offset_ms);
    let mut s = String::new();
    push_padded(&mut s, hh as u64, 2);
    push_char(&mut s, ':');
    push_padded(&mut s, mm as u64, 2);
    push_char(&mut s, ':');
    push_padded(&mut s, ss as u64, 2);
    proof {
        assert(s@ =~= time_text(ts_ms + tz_offset_ms));
    }
    s
}

/// Unix millis to `YYYY-MM-DD` in local time.
pub fn fmt_date(ts_ms: i64, tz_offset_ms: i64) -> (s: String)
    requires
        fits_i64(ts_ms + tz_offset_ms),
    ensures
        s@ == date_text(ts_ms + tz_offset_ms),
{
    let (y, m, d, _, _, _) = breakdown(ts_ms, tz_offset_ms);
    let mut s = String::new();
    push_padded_i64(&mut s, y, 4);
    push_char(&mut s, '-');
    push_padded(&mut s, m as u64, 2);
    push_char(&mut s, '-');
    push_padded(&mut s, d as u64, 2);
    proof {
        assert(s@ =~= date_text(ts_ms + tz_offset_ms));
    }
    s
}

// ---------------------------------------------------------------------------
// Time-zone offsets
// ---------------------------------------------------------------------------

pub open spec fn ascii_lower(c: char) -> char {
    if 'A' <= c && c <= 'Z' {
        (((c as u8) + 32) as u8) as char
    } else {
        c
    }
}

/// `str::eq_ignore_ascii_case`.
pub open spec fn eq_ignore_ascii_case(a: Seq<char>, b: Seq<char>) -> bool {
    a.len() == b.len() && forall|i: int| 0 <= i < a.len() ==> ascii_lower(a[i]) == ascii_lower(b[i])
}

pub const HOUR_MS: i64 = 3_600_000;

pub const MINUTE_MS: i64 = 60_000;

/// The largest offset accepted, 14 hours.
pub const MAX_OFFSET_MS: i64 = 50_400_000;

/// `utc` or `z`, in any case.
pub open spec fn is_utc_word(s: Seq<char>) -> bool {
    eq_ignore_ascii_case(s, seq!['u', 't', 'c']) || eq_ignore_ascii_case(s, seq!['z'])
}

/// The part after an optional sign.
pub open spec fn unsigned_part(s: Seq<char>) -> Seq<char> {
    if s.len() > 0 && (s[0] == '-' || s[0] == '+') {
        s.drop_first()
    } else {
        s
    }
}

/// Hours and minutes of an offset without its sign: `H` or `H:M` (each part
/// trimmed, the minutes below 60).
pub open spec fn hours_minutes(rest: Seq<char>) -> Option<(i64, i64)> {
    match find_char(rest, ':') {
        Some(k) => match (
            parse_i64_spec(trim(rest.take(k))),
            parse_i64_spec(trim(rest.skip(k + 1))),
        ) {
            (Some(h), Some(m)) => if m >= 60 {
                None
            } else {
                Some((h, m))
            },
            _ => None,
        },
        None => match parse_i64_spec(trim(rest)) {
            Some(h) => Some((h, 0)),
            None => None,
        },
    }
}

pub open spec fn fits_i64(x: int) -> bool {
    i64::MIN <= x <= i64::MAX
}

/// The offset text makes the offset arithmetic leave `i64`: the hours or minutes in
/// milliseconds, their sum, or its absolute value. Such a text is not accepted by
/// `parse_tz_offset` (the computation would overflow).
pub open spec fn tz_offset_overflows(s: Seq<char>) -> bool {
    let t = trim(s);
    !is_utc_word(t) && match hours_minutes(unsigned_part(t)) {
        Some((h, m)) => {
            ||| !fits_i64(h * HOUR_MS)
            ||| !fits_i64(m * MINUTE_MS)
            ||| !fits_i64(h * HOUR_MS + m * MINUTE_MS)
            ||| h * HOUR_MS + m * MINUTE_MS == i64::MIN
        },
        None => false,
    }
}

/// The offset in milliseconds that `s` denotes: `utc` / `Z` / `+9` / `-5` /
/// `+05:30` / `-03:30`, at most 14 hours either way.
pub open spec fn tz_offset_spec(s: Seq<char>) -> Option<i64> {
    let t = trim(s);
    if is_utc_word(t) {
        Some(0)
    } else {
        match hours_minutes(unsigned_part(t)) {
            Some((h, m)) => {
                let x = h * HOUR_MS + m * MINUTE_MS;
                if x > MAX_OFFSET_MS || x < -MAX_OFFSET_MS {
                    None
                } else if t.len() > 0 && t[0] == '-' {
                    Some((-x) as i64)
                } else {
                    Some(x as i64)
                }
            },
            None => None,
        }
    }
}

fn ascii_lower_char(c: char) -> (r: char)
    ensures
        r == ascii_lower(c),
{
    if 'A' <= c && c <= 'Z' {
        ((c as u8) + 32) as char
    } else {
        c
    }
}

/// `v[lo..hi]` equals `w` ignoring ASCII case.
fn range_eq_ignore_case(v: &Vec<char>, lo: usize, hi: usize, w: &Vec<char>) -> (b: bool)
    requires
        lo <= hi <= v@.len(),
    ensures
        b == eq_ignore_ascii_case(v@.subrange(lo as int, hi as int), w@),
{
    let ghost s = v@.subrange(lo as int, hi as int);
    if hi - lo != w.len() {
        return false;
    }
    let mut i: usize = 0;
    while i < w.len()
        invariant
            i <= w@.len(),
            hi - lo == w@.len(),
            lo <= hi <= v@.len(),
            s == v@.subrange(lo as int, hi as int),
            forall|k: int| 0 <= k < i ==> ascii_lower(s[k]) == ascii_lower(w@[k]),
        decreases w@.len() - i,
    {
        if ascii_lower_char(v[lo + i]) != ascii_lower_char(w[i]) {
            proof {
                assert(s[i as int] == v@[lo + i]);
            }
            return false;
        }
        proof {
            assert(s[i as int] == v@[lo + i]);
        }
        i = i + 1;
    }
    true
}

/// `trim(v[lo..hi]).parse::<i64>().ok()`.
fn parse_trimmed(v: &Vec<char>, lo: usize, hi: usize) -> (r: Option<i64>)
    requires
        lo <= hi <= v@.len(),
    ensures
        r == parse_i64_spec(trim(v@.subrange(lo as int, hi as int))),
{
    let (a, b) = trim_bounds(v, lo, hi);
    parse_i64_range(v, a, b)
}

/// Hours and minutes of `v[lo..hi]` (no sign).
fn hours_minutes_in(v: &Vec<char>, lo: usize, hi: usize) -> (r: Option<(i64, i64)>)
    requires
        lo <= hi <= v@.len(),
    ensures
        r == hours_minutes(v@.subrange(lo as int, hi as int)),
{
    let ghost rest = v@.subrange(lo as int, hi as int);
    match find_char_in(v, lo, hi, ':') {
        Some(k) => {
            proof {
                assert(rest.take(k as int) =~= v@.subrange(lo as int, lo + k));
                assert(rest.skip(k + 1) =~= v@.subrange(lo + k + 1, hi as int));
            }
            let h = parse_trimmed(v, lo, lo + k);
            let m = parse_trimmed(v, lo + k + 1, hi);
            match (h, m) {
                (Some(h), Some(m)) => if m >= 60 {
                    None
                } else {
                    Some((h, m))
                },
                _ => None,
            }
        },
        None => match parse_trimmed(v, lo, hi) {
            Some(h) => Some((h, 0)),
            None => None,
        },
    }
}

/// The pieces of an offset text: `None` for `utc` / `z`; otherwise whether it starts
/// with `-`, and its hours and minutes when they parse.
fn tz_pieces(s: &str) -> (r: Option<(bool, Option<(i64, i64)>)>)
    ensures
        match r {
            None => is_utc_word(trim(s@)),
            Some((neg, hm)) => {
                &&& !is_utc_word(trim(s@))
                &&& neg == (trim(s@).len() > 0 && trim(s@)[0] == '-')
                &&& hm == hours_minutes(unsigned_part(trim(s@)))
            },
        },
{
    let v = to_chars(s);
    let (lo, hi) = trim_bounds(&v, 0, v.len());
    proof {
        assert(v@.subrange(0, v@.len() as int) =~= s@);
    }
    let ghost t = v@.subrange(lo as int, hi as int);
    let utc = vec!['u', 't', 'c'];
    let z = vec!['z'];
    proof {
        assert(utc@ =~= seq!['u', 't', 'c']);
        assert(z@ =~= seq!['z']);
    }
    if range_eq_ignore_case(&v, lo, hi, &utc) || range_eq_ignore_case(&v, lo, hi, &z) {
        return None;
    }
    let neg = lo < hi && v[lo] == '-';
    let signed = lo < hi && (v[lo] == '-' || v[lo] == '+');
    let start = if signed {
        lo + 1
    } else {
        lo
    };
    proof {
        if lo < hi {
            assert(t[0] == v@[lo as int]);
        }
        if signed {
            assert(t.drop_first() =~= v@.subrange(start as int, hi as int));
        }
        assert(unsigned_part(t) == v@.subrange(start as int, hi as int));
    }
    Some((neg, hours_minutes_in(&v, start, hi)))
}

/// Parses a time-zone offset into milliseconds.
/// Accepts `utc` / `Z` / `+9` / `-5` / `+05:30` / `-03:30`.
pub fn parse_tz_offset(s: &str) -> (r: Option<i64>)
    requires
        !tz_offset_overflows(s@),
    ensures
        r == tz_offset_spec(s@),
{
    match tz_pieces(s) {
        None => Some(0),
        Some((neg, Some((h, m)))) => {
            let x: i128 = h as i128 * 3_600_000 + m as i128 * 60_000;
            if x > 50_400_000 || x < -50_400_000 {
                None
            } else if neg {
                Some((-x) as i64)
            } else {
                Some(x as i64)
            }
        },
        Some((_, None)) => None,
    }
}

/// Whether the offset text is one on which `parse_tz_offset` may not be called (its
/// arithmetic would leave `i64`).
pub fn tz_offset_would_overflow(s: &str) -> (b: bool)
    ensures
        b == tz_offset_overflows(s@),
{
    match tz_pieces(s) {
        None => false,
        Some((_, Some((h, m)))) => {
            let hh: i128 = h as i128 * 3_600_000;
            let mm: i128 = m as i128 * 60_000;
            let lo: i128 = -9_223_372_036_854_775_808;
            let hi: i128 = 9_223_372_036_854_775_807;
            hh < lo || hh > hi || mm < lo || mm > hi || hh + mm < lo || hh + mm > hi || hh + mm
                == lo
        },
        Some((_, None)) => false,
    }
}

// ---------------------------------------------------------------------------
// Durations
// ---------------------------------------------------------------------------

/// Milliseconds per unit letter (`s`, `m`, `h`, `d`, `w`, either case); 0 for any other.
pub open spec fn unit_ms(c: char) -> int {
    if c == 's' || c == 'S' {
        1_000
    } else if c == 'm' || c == 'M' {
        60_000
    } else if c == 'h' || c == 'H' {
        3_600_000
    } else if c == 'd' || c == 'D' {
        86_400_000
    } else if c == 'w' || c == 'W' {
        604_800_000
    } else {
        0
    }
}

/// The unit is one byte split off the end of the text, which cannot be done when the
/// last character is not ASCII; the product also leaves `i64` for large numbers.
/// Such a text is not accepted by `parse_duration_ms`.
pub open spec fn duration_panics(s: Seq<char>) -> bool {
    let t = trim(s);
    t.len() > 0 && {
        ||| t.last() as u32 >= 128
        ||| (unit_ms(t.last()) != 0 && match parse_i64_spec(t.drop_last()) {
            Some(n) => !fits_i64(n * unit_ms(t.last())),
            None => false,
        })
        ||| (unit_ms(t.last()) == 0 && match parse_i64_spec(t) {
            Some(n) => !fits_i64(n * 1000),
            None => false,
        })
    }
}

/// The duration in milliseconds that `s` denotes: a number and a unit letter
/// (`30d`, `12h`, `45m`, `90s`, `2w`), or a bare number of seconds.
pub open spec fn duration_spec(s: Seq<char>) -> Option<i64> {
    let t = trim(s);
    if t.len() == 0 {
        None
    } else if unit_ms(t.last()) != 0 {
        match parse_i64_spec(t.drop_last()) {
            Some(n) => Some((n * unit_ms(t.last())) as i64),
            None => None,
        }
    } else {
        match parse_i64_spec(t) {
            Some(n) => Some((n * 1000) as i64),
            None => None,
        }
    }
}

fn unit_of(c: char) -> (u: i64)
    ensures
        u == unit_ms(c),
{
    match c {
        's' | 'S' => 1_000,
        'm' | 'M' => 60_000,
        'h' | 'H' => 3_600_000,
        'd' | 'D' => 86_400_000,
        'w' | 'W' => 604_800_000,
        _ => 0,
    }
}

/// Converts `30d` / `12h` / `45m` / `90s` (or a bare number of seconds) into milliseconds.
pub fn parse_duration_ms(s: &str) -> (r: Option<i64>)
    requires
        !duration_panics(s@),
    ensures
        r == duration_spec(s@),
{
    let v = to_chars(s);
    let (lo, hi) = trim_bounds(&v, 0, v.len());
    proof {
        assert(v@.subrange(0, v@.len() as int) =~= s@);
    }
    let ghost t = v@.subrange(lo as int, hi as int);
    if lo == hi {
        return None;
    }
    let last = v[hi - 1];
    proof {
        assert(t.last() == last);
        assert(t.drop_last() =~= v@.subrange(lo as int, hi - 1));
    }
    let unit = unit_of(last);
    if unit != 0 {
        match parse_i64_range(&v, lo, hi - 1) {
            Some(n) => Some(n * unit),
            None => None,
        }
    } else {
        match parse_i64_range(&v, lo, hi) {
            Some(n) => Some(n * 1000),
            None => None,
        }
    }
}


/// Whether the duration text is one on which `parse_duration_ms` may not be called
/// (a non-ASCII last character, or a product that leaves `i64`).
pub fn duration_would_panic(s: &str) -> (b: bool)
    ensures
        b == duration_panics(s@),
{
    let v = to_chars(s);
    let (lo, hi) = trim_bounds(&v, 0, v.len());
    proof {
        assert(v@.subrange(0, v@.len() as int) =~= s@);
    }
    let ghost t = v@.subrange(lo as int, hi as int);
    if lo == hi {
        return false;
    }
    let last = v[hi - 1];
    proof {
        assert(t.last() == last);
        assert(t.drop_last() =~= v@.subrange(lo as int, hi - 1));
    }
    if last as u32 >= 128 {
        return true;
    }
    let unit = unit_of(last);
    let lo_i: i128 = -9_223_372_036_854_775_808;
    let hi_i: i128 = 9_223_372_036_854_775_807;
    if unit != 0 {
        match parse_i64_range(&v, lo, hi - 1) {
            Some(n) => {
                let x: i128 = n as i128 * unit as i128;
                x < lo_i || x > hi_i
            },
            None => false,
        }
    } else {
        match parse_i64_range(&v, lo, hi) {
            Some(n) => {
                let x: i128 = n as i128 * 1000;
                x < lo_i || x > hi_i
            },
            None => false,
        }
    }
}


/// Trailing whitespace of `s` goes, whatever stands in front of it, as long as `s`
/// itself starts with a character that is not whitespace.
proof fn lemma_trim_end_prefix(p: Seq<char>, s: Seq<char>)
    requires
        s.len() > 0,
        !is_ws(s[0]),
    ensures
        trim_end(p + s) == p + trim_end(s),
        trim_end(s).len() > 0,
        trim_end(s)[0] == s[0],
    decreases s.len(),
{
    if s.len() > 1 && is_ws(s.last()) {
        assert((p + s).drop_last() =~= p + s.drop_last());
        assert((p + s).last() == s.last());
        lemma_trim_end_prefix(p, s.drop_last());
    } else {
        assert((p + s).last() == s.last());
    }
}

/// A leading `+` changes nothing, and a leading `-` negates: for an offset text that
/// starts with a digit, `+s` denotes what `s` denotes and `-s` its negation (and both
/// are refused where `s` is).
pub proof fn lemma_tz_offset_sign(s: Seq<char>)
    requires
        s.len() > 0,
        '0' <= s[0] <= '9',
        !tz_offset_overflows(s),
    ensures
        tz_offset_spec(seq!['+'] + s) == tz_offset_spec(s),
        tz_offset_spec(seq!['-'] + s) == match tz_offset_spec(s) {
            Some(v) => Some((-v) as i64),
            None => None,
        },
{
    let plus = seq!['+'] + s;
    let minus = seq!['-'] + s;
    lemma_trim_end_prefix(seq!['+'], s);
    lemma_trim_end_prefix(seq!['-'], s);
    lemma_trim_end_prefix(Seq::empty(), s);
    assert(Seq::<char>::empty() + s =~= s);
    assert(Seq::<char>::empty() + trim_end(s) =~= trim_end(s));
    assert(trim_start(plus) == plus);
    assert(trim_start(minus) == minus);
    assert(trim_start(s) == s);
    let t = trim_end(s);
    assert(trim(s) == t);
    assert(trim(plus) == seq!['+'] + t);
    assert(trim(minus) == seq!['-'] + t);
    assert((seq!['+'] + t)[0] == '+');
    assert((seq!['-'] + t)[0] == '-');
    assert(!is_utc_word(t)) by {
        assert(ascii_lower(t[0]) == t[0]);
        assert(ascii_lower('u') == 'u' && ascii_lower('z') == 'z');
    }
    assert(!is_utc_word(seq!['+'] + t)) by {
        assert(ascii_lower('+') == '+');
        assert(ascii_lower('u') == 'u' && ascii_lower('z') == 'z');
    }
    assert(!is_utc_word(seq!['-'] + t)) by {
        assert(ascii_lower('-') == '-');
        assert(ascii_lower('u') == 'u' && ascii_lower('z') == 'z');
    }
    assert(unsigned_part(seq!['+'] + t) =~= t);
    assert(unsigned_part(seq!['-'] + t) =~= t);
    assert(unsigned_part(t) == t);
}

/// The unit letters scale one number. For a string of digits `n` that denotes `v`,
/// with `v` weeks still a millisecond count in `i64`: `n` followed by a unit letter
/// denotes `v` times that unit, so a day is 24 hours and a week 7 days, upper and lower
/// case alike; and `n` alone denotes what `n` followed by `s` does.
pub proof fn lemma_duration_units(n: Seq<char>, v: i64)
    requires
        n.len() > 0,
        all_digits(n),
        parse_i64_spec(n) == Some(v),
        v * 604_800_000 <= i64::MAX,
    ensures
        forall|c: char|
            unit_ms(c) != 0 ==> #[trigger] duration_spec(n.push(c)) == Some(
                (v * unit_ms(c)) as i64,
            ) && 0 <= v * unit_ms(c) <= i64::MAX,
        duration_spec(n.push('d'))->0 == 24 * duration_spec(n.push('h'))->0,
        duration_spec(n.push('w'))->0 == 7 * duration_spec(n.push('d'))->0,
        duration_spec(n.push('D')) == duration_spec(n.push('d')),
        duration_spec(n.push('W')) == duration_spec(n.push('w')),
        duration_spec(n) == duration_spec(n.push('s')),
{
    assert(!is_ws(n[0]) && !is_ws(n.last()));
    assert(n[0] != '-' && n[0] != '+');
    lemma_digits_value_nonneg(n);
    assert(v >= 0);
    assert(trim(n) == n);
    assert forall|c: char| unit_ms(c) != 0 implies #[trigger] duration_spec(n.push(c)) == Some(
        (v * unit_ms(c)) as i64,
    ) && 0 <= v * unit_ms(c) <= i64::MAX by {
        let t = n.push(c);
        assert(t[0] == n[0]);
        assert(!is_ws(c));
        assert(trim(t) == t);
        assert(t.drop_last() =~= n);
    }
    assert(duration_spec(n.push('d')) == Some((v * 86_400_000) as i64));
    assert(duration_spec(n.push('h')) == Some((v * 3_600_000) as i64));
    assert(duration_spec(n.push('w')) == Some((v * 604_800_000) as i64));
    assert(duration_spec(n.push('D')) == Some((v * 86_400_000) as i64));
    assert(duration_spec(n.push('W')) == Some((v * 604_800_000) as i64));
    assert(duration_spec(n.push('s')) == Some((v * 1000) as i64));
}

} // verus!
