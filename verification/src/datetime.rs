//! Timestamps of the data feeds: ISO-8601 and NWIS date-times and WSDOT's
//! `/Date(...)/` form, turned into Unix seconds.
//!
//! The date-time parsers are best effort: a malformed field reads as zero
//! and a string without the date/time shape gives 0. The arithmetic is done
//! in 64-bit signed integers step by step; inputs whose arithmetic would
//! leave that range, or whose month is past 13, are not accepted.
use vstd::prelude::*;
use crate::strings::{
    find_first, find_last, split_on, trim, parse_i64, parse_u64, parse_or_zero, find_char, rfind_char,
    split_chars, trim_chars, parse_int, parse_uint,
};
use crate::text::{chars_of, sub_chars, all_digits, digits_value, is_digit, is_whitespace};
use crate::strings::{find_from, find_before, lead_from, trail_before};

verus! {

broadcast use vstd::seq_lib::group_seq_properties;

/// Gregorian leap year.
pub open spec fn leap(y: int) -> bool {
    (y % 4 == 0 && y % 100 != 0) || y % 400 == 0
}

/// Whether `y` is a leap year in the Gregorian calendar.
pub fn is_leap_year(y: i64) -> (r: bool)
    ensures
        r == leap(y as int),
{
    (y % 4 == 0 && y % 100 != 0) || y % 400 == 0
}

pub open spec fn year_len(y: int) -> int {
    if leap(y) { 366 } else { 365 }
}

/// Days from 1970-01-01 to the start of `year` (none before 1970).
pub open spec fn days_before_year(year: int) -> int
    decreases year - 1970,
{
    if year <= 1970 {
        0
    } else {
        days_before_year(year - 1) + year_len(year - 1)
    }
}

/// Days in month `m` of a common year (month 0 counts as none).
pub open spec fn month_len(m: int) -> int {
    if m == 2 {
        28
    } else if m == 4 || m == 6 || m == 9 || m == 11 {
        30
    } else if 1 <= m <= 12 {
        31
    } else {
        0
    }
}

/// Days of the months before `month`, with February 29 in leap years.
pub open spec fn days_before_month(month: int, year: int) -> int
    decreases month,
{
    if month <= 1 {
        0
    } else {
        days_before_month(month - 1, year) + month_len(month - 1) + if month - 1 == 2 && leap(year) { 1int } else { 0int }
    }
}

pub open spec fn in_i64(v: int) -> bool {
    i64::MIN <= v && v <= i64::MAX
}

/// Days since the epoch of a (year, month, day) date.
pub open spec fn epoch_days(year: int, month: int, day: int) -> int {
    days_before_year(year) + days_before_month(month, year) + (day - 1)
}

/// Whether every step of the epoch arithmetic stays within `i64` and the
/// month table is not read past its end.
pub open spec fn epoch_ok(year: int, month: int, day: int, hour: int, min: int, sec: int, tz: int) -> bool {
    let d = epoch_days(year, month, day);
    &&& month <= 13
    &&& days_before_year(year) + days_before_month(month, year) <= i64::MAX
    &&& in_i64(day - 1)
    &&& in_i64(d)
    &&& in_i64(d * 86400)
    &&& in_i64(hour * 3600)
    &&& in_i64(d * 86400 + hour * 3600)
    &&& in_i64(min * 60)
    &&& in_i64(d * 86400 + hour * 3600 + min * 60)
    &&& in_i64(d * 86400 + hour * 3600 + min * 60 + sec)
    &&& in_i64(d * 86400 + hour * 3600 + min * 60 + sec - tz)
}

/// Unix seconds of the date and time, shifted by the UTC offset `tz`;
/// instants before the epoch read as 0.
pub open spec fn epoch_secs(year: int, month: int, day: int, hour: int, min: int, sec: int, tz: int) -> int {
    let e = epoch_days(year, month, day) * 86400 + hour * 3600 + min * 60 + sec - tz;
    if e >= 0 { e } else { 0 }
}

proof fn lemma_days_before_year_mono(a: int, b: int)
    requires
        a <= b,
    ensures
        days_before_year(a) <= days_before_year(b),
    decreases b - a,
{
    if a < b {
        lemma_days_before_year_mono(a, b - 1);
    }
}

proof fn lemma_days_before_month_nonneg(a: int, year: int)
    ensures
        0 <= days_before_month(a, year),
    decreases a,
{
    if a > 1 {
        lemma_days_before_month_nonneg(a - 1, year);
    }
}

proof fn lemma_days_before_month_mono(a: int, b: int, year: int)
    requires
        a <= b,
    ensures
        days_before_month(a, year) <= days_before_month(b, year),
        0 <= days_before_month(a, year),
    decreases b - a,
{
    lemma_days_before_month_nonneg(a, year);
    if a < b {
        lemma_days_before_month_mono(a, b - 1, year);
    }
}

const MONTH_DAYS: [i64; 13] = [0, 31, 28, 31, 30, 31, 30, 31, 31, 30, 31, 30, 31];

/// The epoch arithmetic, returning `None` exactly where a step would leave
/// `i64` or read past the month table.
pub fn epoch_from_fields(year: i64, month: i64, day: i64, hour: i64, min: i64, sec: i64, tz: i64) -> (r: Option<u64>)
    ensures
        r matches Some(v) ==> epoch_ok(year as int, month as int, day as int, hour as int, min as int, sec as int, tz as int)
            && v == epoch_secs(year as int, month as int, day as int, hour as int, min as int, sec as int, tz as int),
        r is None ==> !epoch_ok(year as int, month as int, day as int, hour as int, min as int, sec as int, tz as int),
{
    let mut days: i64 = 0;
    let mut y: i64 = 1970;
    while y < year
        invariant
            1970 <= y,
            y <= year || year < 1970,
            year < 1970 ==> y == 1970,
            days == days_before_year(y as int),
            days <= i64::MAX,
        decreases year - y,
    {
        let add: i64 = if is_leap_year(y) { 366 } else { 365 };
        if days > i64::MAX - add {
            proof {
                lemma_days_before_year_mono(y + 1, year as int);
                lemma_days_before_month_nonneg(month as int, year as int);
            }
            return None;
        }
        days = days + add;
        y = y + 1;
    }
    assert(days == days_before_year(year as int));
    if month >= 14 {
        return None;
    }
    let ghost base = days;
    let mut m: i64 = 1;
    while m < month
        invariant
            1 <= m,
            m <= month || month < 1,
            month < 1 ==> m == 1,
            month <= 13,
            base == days_before_year(year as int),
            days == base + days_before_month(m as int, year as int),
            days <= i64::MAX,
        decreases month - m,
    {
        let md = MONTH_DAYS[m as usize];
        assert(md == month_len(m as int));
        let extra: i64 = if m == 2 && is_leap_year(year) { 1 } else { 0 };
        if days > i64::MAX - md - extra {
            proof {
                lemma_days_before_month_mono(m + 1, month as int, year as int);
            }
            return None;
        }
        days = days + md + extra;
        m = m + 1;
    }
    assert(days == days_before_year(year as int) + days_before_month(month as int, year as int)) by {
        if month < 1 {
            assert(days_before_month(month as int, year as int) == 0);
        }
    }
    let d = days as i128 + day as i128 - 1;
    if (day as i128) - 1 < i64::MIN as i128 || d < i64::MIN as i128 || d > i64::MAX as i128 {
        return None;
    }
    let p1 = d * 86400;
    let p2 = hour as i128 * 3600;
    let p3 = min as i128 * 60;
    if p1 < i64::MIN as i128 || p1 > i64::MAX as i128 || p2 < i64::MIN as i128 || p2 > i64::MAX as i128 {
        return None;
    }
    let s1 = p1 + p2;
    if s1 < i64::MIN as i128 || s1 > i64::MAX as i128 || p3 < i64::MIN as i128 || p3 > i64::MAX as i128 {
        return None;
    }
    let s2 = s1 + p3;
    if s2 < i64::MIN as i128 || s2 > i64::MAX as i128 {
        return None;
    }
    let s3 = s2 + sec as i128;
    if s3 < i64::MIN as i128 || s3 > i64::MAX as i128 {
        return None;
    }
    let e = s3 - tz as i128;
    if e < i64::MIN as i128 || e > i64::MAX as i128 {
        return None;
    }
    if e >= 0 {
        Some(e as u64)
    } else {
        Some(0)
    }
}

/// The date fields of "YYYY-MM-DD": exactly three '-'-separated parts.
pub open spec fn date_fields(date: Seq<char>) -> Option<(int, int, int)> {
    let dp = split_on(date, '-');
    if dp.len() != 3 {
        None
    } else {
        Some((parse_or_zero(dp[0]), parse_or_zero(dp[1]), parse_or_zero(dp[2])))
    }
}

/// The time fields of "HH:MM[:SS]": at least two ':'-separated parts, the
/// seconds zero when absent.
pub open spec fn time_fields(time: Seq<char>) -> Option<(int, int, int)> {
    let tp = split_on(time, ':');
    if tp.len() < 2 {
        None
    } else {
        Some((parse_or_zero(tp[0]), parse_or_zero(tp[1]), if tp.len() > 2 { parse_or_zero(tp[2]) } else { 0 }))
    }
}

/// The date part and the rest of a trimmed "dateTtime" string.
pub open spec fn date_time_split(s: Seq<char>) -> Option<(Seq<char>, Seq<char>)> {
    let t = trim(s);
    match find_first(t, 'T') {
        Some(k) => Some((t.take(k), t.skip(k + 1))),
        None => None,
    }
}

/// The six fields of an ISO-8601 timestamp; the clock time ends at the first
/// '+' or '-' (the offset is not applied).
pub open spec fn iso_fields(s: Seq<char>) -> Option<(int, int, int, int, int, int)> {
    match date_time_split(s) {
        None => None,
        Some((date, rest)) => match date_fields(date) {
            None => None,
            Some((y, mo, d)) => {
                let time = split_on(split_on(rest, '+')[0], '-')[0];
                match time_fields(time) {
                    None => None,
                    Some((h, mi, se)) => Some((y, mo, d, h, mi, se)),
                }
            },
        },
    }
}

/// Whether [`parse_iso8601_to_epoch`] accepts `s`.
pub open spec fn iso_ok(s: Seq<char>) -> bool {
    match iso_fields(s) {
        None => true,
        Some((y, mo, d, h, mi, se)) => epoch_ok(y, mo, d, h, mi, se, 0),
    }
}

/// Unix seconds of an ISO-8601 timestamp, 0 when it has no date/time shape.
pub open spec fn iso_epoch(s: Seq<char>) -> int {
    match iso_fields(s) {
        None => 0,
        Some((y, mo, d, h, mi, se)) => epoch_secs(y, mo, d, h, mi, se, 0),
    }
}

/// Splits the trimmed string at the first 'T'.
fn split_date_time(s: &str) -> (r: Option<(Vec<char>, Vec<char>)>)
    ensures
        r matches Some((a, b)) ==> date_time_split(s@) == Some((a@, b@)),
        r is None ==> date_time_split(s@) is None,
{
    let t = trim_chars(&chars_of(s));
    match find_char(&t, 'T') {
        Some(k) => {
            let n = t.len();
            assert(k < n);
            let date = sub_chars(t.as_slice(), 0, k);
            let rest = sub_chars(t.as_slice(), k + 1, t.len());
            assert(date@ =~= t@.take(k as int));
            assert(rest@ =~= t@.skip(k + 1));
            Some((date, rest))
        },
        None => None,
    }
}

/// `parse().unwrap_or(0)` on a piece.
fn int_or_zero(s: &Vec<char>) -> (v: i64)
    ensures
        v == parse_or_zero(s@),
{
    match parse_int(s) {
        Some(v) => v,
        None => 0,
    }
}

fn parse_date(date: &Vec<char>) -> (r: Option<(i64, i64, i64)>)
    ensures
        r matches Some((a, b, c)) ==> date_fields(date@) == Some((a as int, b as int, c as int)),
        r is None ==> date_fields(date@) is None,
{
    let dp = split_chars(date, '-');
    if dp.len() != 3 {
        return None;
    }
    assert(dp[0]@ == split_on(date@, '-')[0]);
    assert(dp[1]@ == split_on(date@, '-')[1]);
    assert(dp[2]@ == split_on(date@, '-')[2]);
    Some((int_or_zero(&dp[0]), int_or_zero(&dp[1]), int_or_zero(&dp[2])))
}

fn parse_time(time: &Vec<char>) -> (r: Option<(i64, i64, i64)>)
    ensures
        r matches Some((a, b, c)) ==> time_fields(time@) == Some((a as int, b as int, c as int)),
        r is None ==> time_fields(time@) is None,
{
    let tp = split_chars(time, ':');
    if tp.len() < 2 {
        return None;
    }
    assert(tp[0]@ == split_on(time@, ':')[0]);
    assert(tp[1]@ == split_on(time@, ':')[1]);
    let h = int_or_zero(&tp[0]);
    let m = int_or_zero(&tp[1]);
    let sec = if tp.len() > 2 {
        assert(tp[2]@ == split_on(time@, ':')[2]);
        int_or_zero(&tp[2])
    } else {
        0
    };
    Some((h, m, sec))
}

/// The text before the first `c` (`split(c).next()`).
fn first_piece(s: &Vec<char>, c: char) -> (r: Vec<char>)
    ensures
        r@ == split_on(s@, c)[0],
{
    let parts = split_chars(s, c);
    let p = parts[0].clone();
    assert(p@ =~= parts.deep_view()[0]);
    p
}

/// ISO-8601 timestamp to Unix seconds, or `None` where the epoch arithmetic
/// would overflow.
pub fn checked_iso8601_to_epoch(s: &str) -> (r: Option<u64>)
    ensures
        r matches Some(v) ==> iso_ok(s@) && v == iso_epoch(s@),
        r is None ==> !iso_ok(s@),
{
    let (date, rest) = match split_date_time(s) {
        Some(p) => p,
        None => return Some(0),
    };
    let (year, month, day) = match parse_date(&date) {
        Some(f) => f,
        None => return Some(0),
    };
    let before_plus = first_piece(&rest, '+');
    let time = first_piece(&before_plus, '-');
    let (hour, min, sec) = match parse_time(&time) {
        Some(f) => f,
        None => return Some(0),
    };
    epoch_from_fields(year, month, day, hour, min, sec, 0)
}

/// Parse an ISO-8601 timestamp such as "2026-03-28T12:53:00+00:00" to Unix
/// seconds. The clock time is taken as UTC; a string without the date/time
/// shape gives 0, a malformed field reads as 0.
pub fn parse_iso8601_to_epoch(s: &str) -> (r: u64)
    requires
        iso_ok(s@),
    ensures
        r == iso_epoch(s@),
{
    match checked_iso8601_to_epoch(s) {
        Some(v) => v,
        None => 0,
    }
}

// ── NWIS date-times with UTC offsets ─────────────────────────────────────────

/// Seconds of an "HH:MM" offset, each part 0 when missing or malformed.
pub open spec fn tz_hhmm(s: Seq<char>) -> int {
    let parts = split_on(s, ':');
    parse_or_zero(parts[0]) * 3600 + if parts.len() > 1 { parse_or_zero(parts[1]) * 60 } else { 0 }
}

/// Whether the offset arithmetic stays within `i64`.
pub open spec fn tz_hhmm_ok(s: Seq<char>) -> bool {
    let parts = split_on(s, ':');
    let h = parse_or_zero(parts[0]);
    let m = if parts.len() > 1 { parse_or_zero(parts[1]) } else { 0 };
    in_i64(h * 3600) && in_i64(m * 60) && in_i64(h * 3600 + m * 60)
}

/// Parse "07:00" to 25200 seconds.
pub fn parse_tz_hhmm(s: &str) -> (r: i64)
    requires
        tz_hhmm_ok(s@),
    ensures
        r == tz_hhmm(s@),
{
    let cs = chars_of(s);
    let parts = split_chars(&cs, ':');
    assert(parts[0]@ == split_on(s@, ':')[0]);
    let h = int_or_zero(&parts[0]);
    let m = if parts.len() > 1 {
        assert(parts[1]@ == split_on(s@, ':')[1]);
        int_or_zero(&parts[1])
    } else {
        0
    };
    h * 3600 + m * 60
}

/// The time text without its trailing UTC offset, and the offset in seconds:
/// the last '+' (not at the start) begins a positive offset, else the last
/// '-' (not at the start) a negative one; otherwise there is none.
pub open spec fn tz_split(s: Seq<char>) -> (Seq<char>, int) {
    match find_last(s, '+') {
        Some(i) if i > 0 => (s.take(i), tz_hhmm(s.skip(i + 1))),
        _ => match find_last(s, '-') {
            Some(i) if i > 0 => (s.take(i), -tz_hhmm(s.skip(i + 1))),
            _ => (s, 0),
        },
    }
}

/// Whether the offset that [`tz_split`] reads can be computed in `i64`.
pub open spec fn tz_split_ok(s: Seq<char>) -> bool {
    match find_last(s, '+') {
        Some(i) if i > 0 => tz_hhmm_ok(s.skip(i + 1)),
        _ => match find_last(s, '-') {
            Some(i) if i > 0 => tz_hhmm_ok(s.skip(i + 1)) && in_i64(-tz_hhmm(s.skip(i + 1))),
            _ => true,
        },
    }
}

/// Extract the timezone offset in seconds from a time string:
/// "12:45:00.000-07:00" gives ("12:45:00.000", -25200).
pub fn extract_tz_offset(s: &str) -> (r: (String, i64))
    requires
        tz_split_ok(s@),
    ensures
        r.0@ == tz_split(s@).0,
        r.1 == tz_split(s@).1,
{
    let cs = chars_of(s);
    let (head, off) = split_tz(&cs);
    (crate::text::string_from_chars(head.as_slice()), off)
}

fn split_tz(cs: &Vec<char>) -> (r: (Vec<char>, i64))
    requires
        tz_split_ok(cs@),
    ensures
        r.0@ == tz_split(cs@).0,
        r.1 == tz_split(cs@).1,
{
    let n = cs.len();
    if let Some(idx) = rfind_char(cs, '+') {
        if idx > 0 {
            assert(idx < n);
            let tail = sub_chars(cs.as_slice(), idx + 1, cs.len());
            let head = sub_chars(cs.as_slice(), 0, idx);
            assert(tail@ =~= cs@.skip(idx + 1));
            assert(head@ =~= cs@.take(idx as int));
            let off = parse_tz_hhmm(crate::text::string_from_chars(tail.as_slice()).as_str());
            return (head, off);
        }
    }
    if let Some(idx) = rfind_char(cs, '-') {
        if idx > 0 {
            assert(idx < n);
            let tail = sub_chars(cs.as_slice(), idx + 1, cs.len());
            let head = sub_chars(cs.as_slice(), 0, idx);
            assert(tail@ =~= cs@.skip(idx + 1));
            assert(head@ =~= cs@.take(idx as int));
            let off = parse_tz_hhmm(crate::text::string_from_chars(tail.as_slice()).as_str());
            return (head, -off);
        }
    }
    (cs.clone(), 0)
}

/// The seven fields of an NWIS date-time: date, clock time (fraction
/// dropped) and UTC offset.
pub open spec fn nwis_fields(s: Seq<char>) -> Option<(int, int, int, int, int, int, int)> {
    match date_time_split(s) {
        None => None,
        Some((date, rest)) => match date_fields(date) {
            None => None,
            Some((y, mo, d)) => {
                let (tf, tz) = tz_split(rest);
                let time = split_on(tf, '.')[0];
                match time_fields(time) {
                    None => None,
                    Some((h, mi, se)) => Some((y, mo, d, h, mi, se, tz)),
                }
            },
        },
    }
}

/// Whether [`parse_nwis_datetime`] accepts `s`.
pub open spec fn nwis_ok(s: Seq<char>) -> bool {
    match date_time_split(s) {
        None => true,
        Some((date, rest)) => match date_fields(date) {
            None => true,
            Some(_) => tz_split_ok(rest) && match nwis_fields(s) {
                None => true,
                Some((y, mo, d, h, mi, se, tz)) => epoch_ok(y, mo, d, h, mi, se, tz),
            },
        },
    }
}

/// Unix seconds of an NWIS date-time, 0 when it has no date/time shape.
pub open spec fn nwis_epoch(s: Seq<char>) -> int {
    match nwis_fields(s) {
        None => 0,
        Some((y, mo, d, h, mi, se, tz)) => epoch_secs(y, mo, d, h, mi, se, tz),
    }
}

/// NWIS date-time to Unix seconds, or `None` where the arithmetic would
/// overflow.
pub fn checked_nwis_datetime(s: &str) -> (r: Option<u64>)
    ensures
        r matches Some(v) ==> nwis_ok(s@) && v == nwis_epoch(s@),
        r is None ==> !nwis_ok(s@),
{
    let (date, rest) = match split_date_time(s) {
        Some(p) => p,
        None => return Some(0),
    };
    let (year, month, day) = match parse_date(&date) {
        Some(f) => f,
        None => return Some(0),
    };
    if !tz_ok_chars(&rest) {
        return None;
    }
    let (time_and_frac, tz) = split_tz(&rest);
    let time = first_piece(&time_and_frac, '.');
    let (hour, min, sec) = match parse_time(&time) {
        Some(f) => f,
        None => return Some(0),
    };
    epoch_from_fields(year, month, day, hour, min, sec, tz)
}

/// Whether the offset in `s` can be computed ([`tz_split_ok`]).
fn tz_ok_chars(cs: &Vec<char>) -> (r: bool)
    ensures
        r == tz_split_ok(cs@),
{
    let n = cs.len();
    if let Some(idx) = rfind_char(cs, '+') {
        if idx > 0 {
            assert(idx < n);
            let tail = sub_chars(cs.as_slice(), idx + 1, cs.len());
            assert(tail@ =~= cs@.skip(idx + 1));
            return hhmm_ok(&tail).0;
        }
    }
    if let Some(idx) = rfind_char(cs, '-') {
        if idx > 0 {
            assert(idx < n);
            let tail = sub_chars(cs.as_slice(), idx + 1, cs.len());
            assert(tail@ =~= cs@.skip(idx + 1));
            let (ok, v) = hhmm_ok(&tail);
            return ok && v > i64::MIN as i128;
        }
    }
    true
}

/// Whether the offset arithmetic of "HH:MM" stays within `i64`, and the
/// offset computed exactly.
fn hhmm_ok(cs: &Vec<char>) -> (r: (bool, i128))
    ensures
        r.0 == tz_hhmm_ok(cs@),
        r.1 == tz_hhmm(cs@),
{
    let parts = split_chars(cs, ':');
    assert(parts[0]@ == split_on(cs@, ':')[0]);
    let h = int_or_zero(&parts[0]) as i128;
    let m = if parts.len() > 1 {
        assert(parts[1]@ == split_on(cs@, ':')[1]);
        int_or_zero(&parts[1]) as i128
    } else {
        0
    };
    let a = h * 3600;
    let b = m * 60;
    let ok = i64::MIN as i128 <= a && a <= i64::MAX as i128 && i64::MIN as i128 <= b && b <= i64::MAX as i128
        && i64::MIN as i128 <= a + b && a + b <= i64::MAX as i128;
    (ok, a + b)
}

/// Parse an NWIS date-time such as "2026-03-28T12:45:00.000-07:00" to Unix
/// seconds, applying its UTC offset. Best effort: 0 when the string has no
/// date/time shape, a malformed field reads as 0.
pub fn parse_nwis_datetime(s: &str) -> (r: u64)
    requires
        nwis_ok(s@),
    ensures
        r == nwis_epoch(s@),
{
    match checked_nwis_datetime(s) {
        Some(v) => v,
        None => 0,
    }
}

// ── WSDOT /Date(...)/ ─────────────────────────────────────────────────────────

/// The inside of "/Date(...)/", if the string has that frame.
pub open spec fn wsdot_inner(s: Seq<char>) -> Option<Seq<char>> {
    let pre = "/Date("@;
    let suf = ")/"@;
    if s.len() >= pre.len() && s.take(pre.len() as int) == pre && s.skip(pre.len() as int).len() >= suf.len()
        && s.skip(pre.len() as int).skip(s.skip(pre.len() as int).len() - suf.len()) == suf {
        Some(s.skip(pre.len() as int).take(s.skip(pre.len() as int).len() - suf.len()))
    } else {
        None
    }
}

/// Whether `c` starts an offset in `inner`: a sign other than the first
/// character of `inner`.
pub open spec fn offset_sign(inner: Seq<char>, c: char) -> bool {
    (c == '+' || c == '-') && !(inner.len() > 0 && inner[0] == c)
}

/// Index of the first offset sign in `inner[i..]`.
pub open spec fn offset_from(inner: Seq<char>, i: int) -> Option<int>
    decreases inner.len() - i,
{
    if i < 0 || i >= inner.len() {
        None
    } else if offset_sign(inner, inner[i]) {
        Some(i)
    } else {
        offset_from(inner, i + 1)
    }
}

/// Seconds of a "/Date(MILLISECONDS±OFFSET)/" timestamp: the milliseconds
/// before the offset, divided by 1000.
pub open spec fn wsdot_secs(s: Seq<char>) -> Option<int> {
    match wsdot_inner(s) {
        None => None,
        Some(inner) => {
            let millis = match offset_from(inner, 0) {
                Some(p) => inner.take(p),
                None => inner,
            };
            match parse_u64(millis) {
                Some(v) => Some(v / 1000),
                None => None,
            }
        },
    }
}

/// Index of the first offset sign of `inner`.
fn find_offset(inner: &Vec<char>) -> (r: Option<usize>)
    ensures
        r matches Some(p) ==> offset_from(inner@, 0) == Some(p as int) && p < inner@.len(),
        r is None ==> offset_from(inner@, 0) is None,
{
    let mut i: usize = 0;
    while i < inner.len()
        invariant
            i <= inner@.len(),
            offset_from(inner@, 0) == offset_from(inner@, i as int),
        decreases inner.len() - i,
    {
        let c = inner[i];
        if (c == '+' || c == '-') && !(inner[0] == c) {
            return Some(i);
        }
        i = i + 1;
    }
    None
}

/// Parse a WSDOT "/Date(1711652400000-0700)/" timestamp to Unix seconds.
pub fn parse_wsdot_date(s: &str) -> (r: Option<u64>)
    ensures
        r matches Some(v) ==> wsdot_secs(s@) == Some(v as int),
        r is None ==> wsdot_secs(s@) is None,
{
    let cs = chars_of(s);
    let pre = chars_of("/Date(");
    let suf = chars_of(")/");
    proof {
        reveal_strlit("/Date(");
        reveal_strlit(")/");
    }
    if cs.len() < 6 {
        return None;
    }
    let head = sub_chars(cs.as_slice(), 0, 6);
    if !crate::text::chars_eq(head.as_slice(), pre.as_slice()) {
        assert(head@ =~= cs@.take(6));
        return None;
    }
    let body = sub_chars(cs.as_slice(), 6, cs.len());
    assert(body@ =~= cs@.skip(6));
    if body.len() < 2 {
        return None;
    }
    let tail = sub_chars(body.as_slice(), body.len() - 2, body.len());
    assert(tail@ =~= body@.skip(body@.len() - 2));
    if !crate::text::chars_eq(tail.as_slice(), suf.as_slice()) {
        return None;
    }
    let inner = sub_chars(body.as_slice(), 0, body.len() - 2);
    assert(inner@ =~= body@.take(body@.len() - 2));
    assert(head@ =~= cs@.take(6));
    let cut: usize = match find_offset(&inner) {
        Some(p) => p,
        None => inner.len(),
    };
    let millis = sub_chars(inner.as_slice(), 0, cut);
    proof {
        if offset_from(inner@, 0) is None {
            assert(millis@ =~= inner@);
        } else {
            assert(millis@ =~= inner@.take(cut as int));
        }
    }
    match parse_uint(&millis) {
        Some(v) => Some(v / 1000),
        None => None,
    }
}

// ── Laws of the calendar ─────────────────────────────────────────────────────

/// Midnight at the start of a day from 1970 on is never before the epoch.
proof fn lemma_epoch_days_nonneg(y: int, m: int, d: int)
    requires
        1970 <= y,
        1 <= d,
    ensures
        epoch_days(y, m, d) >= 0,
{
    lemma_days_before_year_mono(1970, y);
    lemma_days_before_month_nonneg(m, y);
}

/// The month lengths of the proleptic Gregorian calendar: from the first of
/// month `m` to the first of the next month there are 31 days, 30 in April,
/// June, September and November, 28 in February, and 29 in February of a
/// year divisible by 4 but not by 100, or by 400. So the leap day ends
/// February: 1 March of a leap year is 60 days after 1 January.
pub proof fn law_month_lengths(y: int, m: int)
    requires
        1970 <= y,
        1 <= m <= 11,
    ensures
        epoch_secs(y, m + 1, 1, 0, 0, 0, 0) == epoch_secs(y, m, 1, 0, 0, 0, 0) + 86400 * (
            if m == 2 {
                if (y % 4 == 0 && y % 100 != 0) || y % 400 == 0 { 29int } else { 28int }
            } else if m == 4 || m == 6 || m == 9 || m == 11 {
                30int
            } else {
                31int
            }),
        epoch_secs(y, 3, 1, 0, 0, 0, 0) == epoch_secs(y, 1, 1, 0, 0, 0, 0)
            + 86400 * (if (y % 4 == 0 && y % 100 != 0) || y % 400 == 0 { 60int } else { 59int }),
{
    lemma_epoch_days_nonneg(y, m, 1);
    lemma_epoch_days_nonneg(y, m + 1, 1);
    lemma_epoch_days_nonneg(y, 1, 1);
    lemma_epoch_days_nonneg(y, 3, 1);
    assert(days_before_month(2, y) == 31);
}

/// Years follow one another: 1 January 1970 is the epoch, and 1 January of
/// the next year comes 31 days after 1 December.
pub proof fn law_year_turns(y: int)
    requires
        1970 <= y,
    ensures
        epoch_secs(1970, 1, 1, 0, 0, 0, 0) == 0,
        epoch_secs(y + 1, 1, 1, 0, 0, 0, 0) == epoch_secs(y, 12, 1, 0, 0, 0, 0) + 86400 * 31,
        epoch_secs(y + 1, 1, 1, 0, 0, 0, 0) == epoch_secs(y, 1, 1, 0, 0, 0, 0)
            + 86400 * (if (y % 4 == 0 && y % 100 != 0) || y % 400 == 0 { 366int } else { 365int }),
{
    lemma_epoch_days_nonneg(y, 12, 1);
    lemma_epoch_days_nonneg(y + 1, 1, 1);
    lemma_epoch_days_nonneg(y, 1, 1);
    reveal_with_fuel(days_before_month, 13);
    assert(days_before_year(y + 1) == days_before_year(y) + year_len(y));
}

/// Within a day the clock counts seconds from midnight, and a UTC offset is
/// subtracted: day `d` at h:mi:s with offset `tz` is (d - 1) days, h hours,
/// mi minutes and s seconds after the first of the month at midnight, less
/// `tz` seconds.
pub proof fn law_day_and_clock(y: int, m: int, d: int, h: int, mi: int, s: int, tz: int)
    requires
        1970 <= y,
        1 <= m <= 12,
        1 <= d,
        0 <= h,
        0 <= mi,
        0 <= s,
        tz <= h * 3600 + mi * 60 + s,
    ensures
        epoch_secs(y, m, d, h, mi, s, tz) == epoch_secs(y, m, 1, 0, 0, 0, 0) + (d - 1) * 86400 + h * 3600 + mi * 60 + s - tz,
{
    lemma_epoch_days_nonneg(y, m, 1);
    assert(epoch_days(y, m, d) == epoch_days(y, m, 1) + (d - 1));
    assert(epoch_days(y, m, d) * 86400 == epoch_days(y, m, 1) * 86400 + (d - 1) * 86400) by (nonlinear_arith)
        requires epoch_days(y, m, d) == epoch_days(y, m, 1) + (d - 1);
    assert((d - 1) * 86400 >= 0) by (nonlinear_arith)
        requires d >= 1;
}

// ── Laws of timestamp parsing ────────────────────────────────────────────────

/// A non-empty run of ASCII digits whose value fits `i64`.
pub open spec fn digit_field(s: Seq<char>) -> bool {
    s.len() > 0 && all_digits(s) && digits_value(s) <= i64::MAX
}

/// A UTC-offset suffix: nothing, or a sign followed by digits and colons.
pub open spec fn offset_suffix(z: Seq<char>) -> bool {
    z.len() == 0 || ((z[0] == '+' || z[0] == '-') && forall|i: int| 1 <= i < z.len() ==> is_digit(#[trigger] z[i]) || z[i] == ':')
}

proof fn lemma_split_len(x: Seq<char>, c: char)
    ensures
        split_on(x, c).len() >= 1,
    decreases x.len(),
{
    if x.len() > 0 {
        lemma_split_len(x.drop_last(), c);
    }
}

/// Text without the separator is one part.
proof fn lemma_split_no_sep(x: Seq<char>, c: char)
    requires
        forall|i: int| 0 <= i < x.len() ==> #[trigger] x[i] != c,
    ensures
        split_on(x, c) == seq![x],
    decreases x.len(),
{
    if x.len() > 0 {
        assert forall|i: int| 0 <= i < x.drop_last().len() implies #[trigger] x.drop_last()[i] != c by {
            assert(x.drop_last()[i] == x[i]);
        }
        lemma_split_no_sep(x.drop_last(), c);
        assert(x.drop_last().push(x.last()) =~= x);
        assert(seq![x.drop_last()].update(0, x) =~= seq![x]);
    } else {
        assert(x =~= Seq::<char>::empty());
    }
}

/// Splitting at a separator between two texts splits each of them.
proof fn lemma_split_concat(x: Seq<char>, y: Seq<char>, c: char)
    ensures
        split_on(x + seq![c] + y, c) == split_on(x, c) + split_on(y, c),
    decreases y.len(),
{
    lemma_split_len(x, c);
    if y.len() == 0 {
        assert(x + seq![c] + y =~= x.push(c));
        assert((x.push(c)).drop_last() =~= x);
        assert(split_on(y, c) == seq![Seq::<char>::empty()]);
        assert(split_on(x, c).push(Seq::<char>::empty()) =~= split_on(x, c) + seq![Seq::<char>::empty()]);
    } else {
        let y0 = y.drop_last();
        lemma_split_concat(x, y0, c);
        lemma_split_len(y0, c);
        let s = x + seq![c] + y;
        assert(s.drop_last() =~= x + seq![c] + y0);
        assert(s.last() == y.last());
        let a = split_on(x, c);
        let b = split_on(y0, c);
        if y.last() == c {
            assert((a + b).push(Seq::<char>::empty()) =~= a + b.push(Seq::<char>::empty()));
        } else {
            assert((a + b).update((a + b).len() - 1, (a + b).last().push(y.last()))
                =~= a + b.update(b.len() - 1, b.last().push(y.last())));
        }
    }
}

proof fn lemma_find_after(p: Seq<char>, q: Seq<char>, c: char, i: int)
    requires
        0 <= i <= p.len(),
        forall|k: int| 0 <= k < p.len() ==> #[trigger] p[k] != c,
    ensures
        find_from(p + seq![c] + q, c, i) == Some(p.len() as int),
    decreases p.len() - i,
{
    let s = p + seq![c] + q;
    if i < p.len() {
        assert(s[i] == p[i]);
        lemma_find_after(p, q, c, i + 1);
    } else {
        assert(s[i] == c);
    }
}

/// Text that neither starts nor ends with whitespace is its own trim.
proof fn lemma_trim_id(s: Seq<char>)
    requires
        s.len() > 0,
        !is_whitespace(s[0]),
        !is_whitespace(s[s.len() - 1]),
    ensures
        trim(s) == s,
{
    assert(lead_from(s, 0) == 0);
    assert(trail_before(s, s.len() as int) == 0);
    assert(s.subrange(0, s.len() as int) =~= s);
}

proof fn lemma_digit_field(s: Seq<char>)
    requires
        digit_field(s),
    ensures
        parse_or_zero(s) == digits_value(s),
        forall|i: int| 0 <= i < s.len() ==> !is_whitespace(#[trigger] s[i]) && s[i] != '-' && s[i] != '+'
            && s[i] != ':' && s[i] != 'T',
{
    assert(is_digit(s[0]));
    assert forall|i: int| 0 <= i < s.len() implies !is_whitespace(#[trigger] s[i]) && s[i] != '-' && s[i] != '+'
        && s[i] != ':' && s[i] != 'T' by {
        assert(is_digit(s[i]));
    }
}

/// "Y-M-D" reads as its three fields.
proof fn lemma_iso_date(yr: Seq<char>, mo: Seq<char>, dy: Seq<char>)
    requires
        digit_field(yr),
        digit_field(mo),
        digit_field(dy),
    ensures
        date_fields(yr + seq!['-'] + mo + seq!['-'] + dy)
            == Some((digits_value(yr) as int, digits_value(mo) as int, digits_value(dy) as int)),
        forall|k: int| 0 <= k < (yr + seq!['-'] + mo + seq!['-'] + dy).len()
            ==> #[trigger] (yr + seq!['-'] + mo + seq!['-'] + dy)[k] != 'T',
{
    lemma_digit_field(yr);
    lemma_digit_field(mo);
    lemma_digit_field(dy);
    let date = yr + seq!['-'] + mo + seq!['-'] + dy;
    assert forall|k: int| 0 <= k < date.len() implies #[trigger] date[k] != 'T' by {
        if k < yr.len() {
            assert(date[k] == yr[k]);
        } else if k == yr.len() {
        } else if k < yr.len() + 1 + mo.len() {
            assert(date[k] == mo[k - yr.len() - 1]);
        } else if k == yr.len() + 1 + mo.len() {
        } else {
            assert(date[k] == dy[k - yr.len() - 2 - mo.len()]);
        }
    }
    lemma_split_no_sep(yr, '-');
    lemma_split_no_sep(mo, '-');
    lemma_split_no_sep(dy, '-');
    lemma_split_concat(mo, dy, '-');
    lemma_split_concat(yr, mo + seq!['-'] + dy, '-');
    assert(date =~= yr + seq!['-'] + (mo + seq!['-'] + dy));
    assert(split_on(date, '-') =~= seq![yr, mo, dy]);
}

/// "h:m:s" followed by a UTC offset reads as its three clock fields.
proof fn lemma_iso_time(hh: Seq<char>, mi: Seq<char>, ss: Seq<char>, zone: Seq<char>)
    requires
        digit_field(hh),
        digit_field(mi),
        digit_field(ss),
        offset_suffix(zone),
    ensures
        time_fields(split_on(split_on(hh + seq![':'] + mi + seq![':'] + ss + zone, '+')[0], '-')[0])
            == Some((digits_value(hh) as int, digits_value(mi) as int, digits_value(ss) as int)),
{
    lemma_digit_field(hh);
    lemma_digit_field(mi);
    lemma_digit_field(ss);
    let time = hh + seq![':'] + mi + seq![':'] + ss;
    let rest = time + zone;
    assert(rest =~= hh + seq![':'] + mi + seq![':'] + ss + zone);
    lemma_split_no_sep(hh, ':');
    lemma_split_no_sep(mi, ':');
    lemma_split_no_sep(ss, ':');
    lemma_split_concat(mi, ss, ':');
    lemma_split_concat(hh, mi + seq![':'] + ss, ':');
    assert(time =~= hh + seq![':'] + (mi + seq![':'] + ss));
    assert(split_on(time, ':') =~= seq![hh, mi, ss]);
    assert forall|k: int| 0 <= k < time.len() implies #[trigger] time[k] != '+' && time[k] != '-' by {
        if k < hh.len() {
            assert(time[k] == hh[k]);
        } else if k == hh.len() {
        } else if k < hh.len() + 1 + mi.len() {
            assert(time[k] == mi[k - hh.len() - 1]);
        } else if k == hh.len() + 1 + mi.len() {
        } else {
            assert(time[k] == ss[k - hh.len() - 2 - mi.len()]);
        }
    }
    lemma_split_no_sep(time, '-');
    lemma_split_no_sep(time, '+');
    if zone.len() == 0 {
        assert(rest =~= time);
    } else if zone[0] == '+' {
        let z1 = zone.skip(1);
        assert(rest =~= time + seq!['+'] + z1);
        lemma_split_concat(time, z1, '+');
        lemma_split_len(z1, '+');
        assert(split_on(rest, '+')[0] == time);
    } else {
        let z1 = zone.skip(1);
        assert(rest =~= time + seq!['-'] + z1);
        assert forall|k: int| 0 <= k < rest.len() implies #[trigger] rest[k] != '+' by {
            if k < time.len() {
                assert(rest[k] == time[k]);
            } else {
                assert(rest[k] == zone[k - time.len()]);
                if k > time.len() {
                    assert(is_digit(zone[k - time.len()]) || zone[k - time.len()] == ':');
                }
            }
        }
        lemma_split_no_sep(rest, '+');
        lemma_split_concat(time, z1, '-');
        lemma_split_len(z1, '-');
        assert(split_on(rest, '-')[0] == time);
    }
}

/// A date without 'T', then 'T', then the rest: the text splits there.
proof fn lemma_dt_split(date: Seq<char>, rest: Seq<char>)
    requires
        date.len() > 0,
        rest.len() > 0,
        !is_whitespace(date[0]),
        !is_whitespace(rest[rest.len() - 1]),
        forall|k: int| 0 <= k < date.len() ==> #[trigger] date[k] != 'T',
    ensures
        date_time_split(date + seq!['T'] + rest) == Some((date, rest)),
{
    let s = date + seq!['T'] + rest;
    assert(s[0] == date[0]);
    assert(s[s.len() - 1] == rest[rest.len() - 1]);
    lemma_trim_id(s);
    lemma_find_after(date, rest, 'T', 0);
    assert(s.take(date.len() as int) =~= date);
    assert(s.skip(date.len() as int + 1) =~= rest);
}

/// An ISO-8601 timestamp "Y-M-D" "T" "h:m:s" with an optional UTC offset
/// reads as its six decimal fields, and as the Unix seconds of that date
/// and time (the offset is not applied).
#[verifier::spinoff_prover]
pub proof fn law_iso_timestamp_fields(
    yr: Seq<char>, mo: Seq<char>, dy: Seq<char>, hh: Seq<char>, mi: Seq<char>, ss: Seq<char>, zone: Seq<char>,
)
    requires
        digit_field(yr),
        digit_field(mo),
        digit_field(dy),
        digit_field(hh),
        digit_field(mi),
        digit_field(ss),
        offset_suffix(zone),
    ensures
        iso_fields(yr + seq!['-'] + mo + seq!['-'] + dy + seq!['T'] + hh + seq![':'] + mi + seq![':'] + ss + zone)
            == Some((digits_value(yr) as int, digits_value(mo) as int, digits_value(dy) as int,
                digits_value(hh) as int, digits_value(mi) as int, digits_value(ss) as int)),
        iso_epoch(yr + seq!['-'] + mo + seq!['-'] + dy + seq!['T'] + hh + seq![':'] + mi + seq![':'] + ss + zone)
            == epoch_secs(digits_value(yr) as int, digits_value(mo) as int, digits_value(dy) as int,
                digits_value(hh) as int, digits_value(mi) as int, digits_value(ss) as int, 0),
{
    let date = yr + seq!['-'] + mo + seq!['-'] + dy;
    let rest = hh + seq![':'] + mi + seq![':'] + ss + zone;
    let s = yr + seq!['-'] + mo + seq!['-'] + dy + seq!['T'] + hh + seq![':'] + mi + seq![':'] + ss + zone;
    assert(date_time_split(s) == Some((date, rest))) by {
        lemma_digit_field(yr);
        lemma_digit_field(ss);
        lemma_iso_date(yr, mo, dy);
        assert(s =~= date + seq!['T'] + rest);
        assert(date[0] == yr[0]);
        if zone.len() == 0 {
            assert(rest[rest.len() - 1] == ss[ss.len() - 1]);
        } else {
            assert(rest[rest.len() - 1] == zone[zone.len() - 1]);
            if zone.len() > 1 {
                assert(is_digit(zone[zone.len() - 1]) || zone[zone.len() - 1] == ':');
            }
        }
        lemma_dt_split(date, rest);
    }
    assert(date_fields(date) == Some((digits_value(yr) as int, digits_value(mo) as int, digits_value(dy) as int))) by {
        lemma_iso_date(yr, mo, dy);
    }
    assert(time_fields(split_on(split_on(rest, '+')[0], '-')[0])
        == Some((digits_value(hh) as int, digits_value(mi) as int, digits_value(ss) as int))) by {
        lemma_iso_time(hh, mi, ss, zone);
    }
}

/// The last `c` in text whose tail after it holds none.
proof fn lemma_find_last_at(x: Seq<char>, y: Seq<char>, c: char)
    requires
        forall|k: int| 0 <= k < y.len() ==> #[trigger] y[k] != c,
    ensures
        find_last(x + seq![c] + y, c) == Some(x.len() as int),
{
    let s = x + seq![c] + y;
    lemma_find_before_at(s, c, x.len() as int, s.len() as int);
}

proof fn lemma_find_before_at(s: Seq<char>, c: char, p: int, j: int)
    requires
        0 <= p < j <= s.len(),
        s[p] == c,
        forall|k: int| p < k < s.len() ==> #[trigger] s[k] != c,
    ensures
        find_before(s, c, j) == Some(p),
    decreases j,
{
    if j - 1 > p {
        lemma_find_before_at(s, c, p, j - 1);
    }
}

/// No `c` in the text: none is found from the end.
proof fn lemma_find_before_none(s: Seq<char>, c: char, j: int)
    requires
        0 <= j <= s.len(),
        forall|k: int| 0 <= k < s.len() ==> #[trigger] s[k] != c,
    ensures
        find_before(s, c, j) is None,
    decreases j,
{
    if j > 0 {
        lemma_find_before_none(s, c, j - 1);
    }
}

/// "h:m:s" reads as its three clock fields; it holds only digits and colons.
proof fn lemma_clock_fields(hh: Seq<char>, mi: Seq<char>, ss: Seq<char>)
    requires
        digit_field(hh),
        digit_field(mi),
        digit_field(ss),
    ensures
        time_fields(hh + seq![':'] + mi + seq![':'] + ss)
            == Some((digits_value(hh) as int, digits_value(mi) as int, digits_value(ss) as int)),
        forall|k: int| 0 <= k < (hh + seq![':'] + mi + seq![':'] + ss).len()
            ==> is_digit(#[trigger] (hh + seq![':'] + mi + seq![':'] + ss)[k]) || (hh + seq![':'] + mi + seq![':'] + ss)[k] == ':',
{
    lemma_digit_field(hh);
    lemma_digit_field(mi);
    lemma_digit_field(ss);
    let time = hh + seq![':'] + mi + seq![':'] + ss;
    lemma_split_no_sep(hh, ':');
    lemma_split_no_sep(mi, ':');
    lemma_split_no_sep(ss, ':');
    lemma_split_concat(mi, ss, ':');
    lemma_split_concat(hh, mi + seq![':'] + ss, ':');
    assert(time =~= hh + seq![':'] + (mi + seq![':'] + ss));
    assert(split_on(time, ':') =~= seq![hh, mi, ss]);
    assert forall|k: int| 0 <= k < time.len() implies is_digit(#[trigger] time[k]) || time[k] == ':' by {
        if k < hh.len() {
            assert(time[k] == hh[k]);
        } else if k == hh.len() {
        } else if k < hh.len() + 1 + mi.len() {
            assert(time[k] == mi[k - hh.len() - 1]);
        } else if k == hh.len() + 1 + mi.len() {
        } else {
            assert(time[k] == ss[k - hh.len() - 2 - mi.len()]);
        }
    }
}

/// An "HH:MM" offset is HH hours and MM minutes in seconds.
proof fn lemma_offset_value(oh: Seq<char>, om: Seq<char>)
    requires
        digit_field(oh),
        digit_field(om),
    ensures
        tz_hhmm(oh + seq![':'] + om) == digits_value(oh) * 3600 + digits_value(om) * 60,
        forall|k: int| 0 <= k < (oh + seq![':'] + om).len()
            ==> is_digit(#[trigger] (oh + seq![':'] + om)[k]) || (oh + seq![':'] + om)[k] == ':',
{
    lemma_digit_field(oh);
    lemma_digit_field(om);
    let z = oh + seq![':'] + om;
    lemma_split_no_sep(oh, ':');
    lemma_split_no_sep(om, ':');
    lemma_split_concat(oh, om, ':');
    assert(split_on(z, ':') =~= seq![oh, om]);
    assert forall|k: int| 0 <= k < z.len() implies is_digit(#[trigger] z[k]) || z[k] == ':' by {
        if k < oh.len() {
            assert(z[k] == oh[k]);
        } else if k > oh.len() {
            assert(z[k] == om[k - oh.len() - 1]);
        }
    }
}

/// The clock part of an NWIS date-time: the offset after the fraction of a
/// second is read, and the fraction dropped.
proof fn lemma_nwis_rest(hh: Seq<char>, mi: Seq<char>, ss: Seq<char>, frac: Seq<char>, sign: char, oh: Seq<char>, om: Seq<char>)
    requires
        digit_field(hh),
        digit_field(mi),
        digit_field(ss),
        frac.len() == 0 || (frac[0] == '.' && all_digits(frac.skip(1))),
        sign == '+' || sign == '-',
        digit_field(oh),
        digit_field(om),
    ensures
        ({
            let time = hh + seq![':'] + mi + seq![':'] + ss;
            let rest = time + frac + seq![sign] + oh + seq![':'] + om;
            let off: int = digits_value(oh) as int * 3600 + digits_value(om) as int * 60;
            &&& tz_split(rest) == (time + frac, if sign == '+' { off } else { -off })
            &&& split_on(time + frac, '.')[0] == time
        }),
{
    lemma_clock_fields(hh, mi, ss);
    lemma_offset_value(oh, om);
    let time = hh + seq![':'] + mi + seq![':'] + ss;
    let z = oh + seq![':'] + om;
    let tf = time + frac;
    let rest = tf + seq![sign] + z;
    assert(time + frac + seq![sign] + oh + seq![':'] + om =~= rest);
    assert forall|k: int| 0 <= k < tf.len() implies #[trigger] tf[k] != '+' && tf[k] != '-' by {
        if k < time.len() {
            assert(tf[k] == time[k]);
            assert(is_digit(time[k]) || time[k] == ':');
        } else if k > time.len() {
            assert(tf[k] == frac[k - time.len()]);
            assert(frac.skip(1)[k - time.len() - 1] == frac[k - time.len()]);
        } else {
            assert(tf[k] == frac[0]);
        }
    }
    assert forall|k: int| 0 <= k < z.len() implies #[trigger] z[k] != '+' && z[k] != '-' by {
        assert(is_digit(z[k]) || z[k] == ':');
    }
    assert(rest.take(tf.len() as int) =~= tf);
    assert(rest.skip(tf.len() as int + 1) =~= z);
    assert(tf.len() > 0);
    if sign == '+' {
        lemma_find_last_at(tf, z, '+');
    } else {
        assert forall|k: int| 0 <= k < rest.len() implies #[trigger] rest[k] != '+' by {
            if k < tf.len() {
                assert(rest[k] == tf[k]);
            } else if k > tf.len() {
                assert(rest[k] == z[k - tf.len() - 1]);
            }
        }
        lemma_find_before_none(rest, '+', rest.len() as int);
        lemma_find_last_at(tf, z, '-');
    }
    assert forall|k: int| 0 <= k < time.len() implies #[trigger] time[k] != '.' by {
        assert(is_digit(time[k]) || time[k] == ':');
    }
    if frac.len() == 0 {
        assert(tf =~= time);
        lemma_split_no_sep(time, '.');
    } else {
        assert(tf =~= time + seq!['.'] + frac.skip(1));
        lemma_split_concat(time, frac.skip(1), '.');
        lemma_split_no_sep(time, '.');
        lemma_split_len(frac.skip(1), '.');
    }
}

/// An NWIS date-time "Y-M-D" "T" "h:m:s", an optional fraction of a second
/// ".digits", and a UTC offset "+HH:MM" or "-HH:MM" reads as its date and
/// clock fields and the offset in seconds (negative west of UTC), and as the
/// Unix seconds of that local time less the offset.
#[verifier::spinoff_prover]
#[verifier::rlimit(50)]
pub proof fn law_nwis_timestamp_fields(
    yr: Seq<char>, mo: Seq<char>, dy: Seq<char>, hh: Seq<char>, mi: Seq<char>, ss: Seq<char>,
    frac: Seq<char>, sign: char, oh: Seq<char>, om: Seq<char>,
)
    requires
        digit_field(yr),
        digit_field(mo),
        digit_field(dy),
        digit_field(hh),
        digit_field(mi),
        digit_field(ss),
        frac.len() == 0 || (frac[0] == '.' && all_digits(frac.skip(1))),
        sign == '+' || sign == '-',
        digit_field(oh),
        digit_field(om),
    ensures
        ({
            let s = yr + seq!['-'] + mo + seq!['-'] + dy + seq!['T'] + hh + seq![':'] + mi + seq![':'] + ss + frac
                + seq![sign] + oh + seq![':'] + om;
            let off: int = digits_value(oh) as int * 3600 + digits_value(om) as int * 60;
            let tz = if sign == '+' { off } else { -off };
            &&& nwis_fields(s) == Some((digits_value(yr) as int, digits_value(mo) as int, digits_value(dy) as int,
                digits_value(hh) as int, digits_value(mi) as int, digits_value(ss) as int, tz))
            &&& nwis_epoch(s) == epoch_secs(digits_value(yr) as int, digits_value(mo) as int, digits_value(dy) as int,
                digits_value(hh) as int, digits_value(mi) as int, digits_value(ss) as int, tz)
        }),
{
    let date = yr + seq!['-'] + mo + seq!['-'] + dy;
    let time = hh + seq![':'] + mi + seq![':'] + ss;
    let rest = time + frac + seq![sign] + oh + seq![':'] + om;
    let s = yr + seq!['-'] + mo + seq!['-'] + dy + seq!['T'] + hh + seq![':'] + mi + seq![':'] + ss + frac
        + seq![sign] + oh + seq![':'] + om;
    let off: int = digits_value(oh) as int * 3600 + digits_value(om) as int * 60;
    let tz = if sign == '+' { off } else { -off };
    assert(date_time_split(s) == Some((date, rest))) by {
        lemma_digit_field(yr);
        lemma_digit_field(om);
        lemma_iso_date(yr, mo, dy);
        assert(s =~= date + seq!['T'] + rest);
        assert(date[0] == yr[0]);
        assert(rest[rest.len() - 1] == om[om.len() - 1]);
        lemma_dt_split(date, rest);
    }
    assert(date_fields(date) == Some((digits_value(yr) as int, digits_value(mo) as int, digits_value(dy) as int))) by {
        lemma_iso_date(yr, mo, dy);
    }
    assert(tz_split(rest) == (time + frac, tz) && split_on(time + frac, '.')[0] == time) by {
        lemma_nwis_rest(hh, mi, ss, frac, sign, oh, om);
    }
    assert(time_fields(time) == Some((digits_value(hh) as int, digits_value(mi) as int, digits_value(ss) as int))) by {
        lemma_clock_fields(hh, mi, ss);
    }
}

/// A WSDOT "/Date(MILLISECONDS)/" timestamp, with or without an offset such
/// as "-0700" after the milliseconds, reads as the whole seconds of the
/// milliseconds.
pub proof fn law_wsdot_timestamp(ms: Seq<char>, off: Seq<char>)
    requires
        ms.len() > 0,
        all_digits(ms),
        digits_value(ms) <= u64::MAX,
        off.len() == 0 || ((off[0] == '+' || off[0] == '-') && all_digits(off.skip(1))),
    ensures
        wsdot_secs("/Date("@ + ms + off + ")/"@) == Some(digits_value(ms) as int / 1000),
{
    reveal_strlit("/Date(");
    reveal_strlit(")/");
    let s = "/Date("@ + ms + off + ")/"@;
    let inner = ms + off;
    assert(s.take(6) =~= "/Date("@);
    assert(s.skip(6) =~= inner + ")/"@);
    assert(s.skip(6).skip(s.skip(6).len() - 2) =~= ")/"@);
    assert(s.skip(6).take(s.skip(6).len() - 2) =~= inner);
    assert(wsdot_inner(s) == Some(inner));
    assert(is_digit(ms[0]));
    assert(inner[0] == ms[0]);
    lemma_offset_from(inner, ms.len() as int, 0);
    if off.len() > 0 {
        assert(inner[ms.len() as int] == off[0]);
        assert(offset_from(inner, ms.len() as int) == Some(ms.len() as int));
        assert(inner.take(ms.len() as int) =~= ms);
    } else {
        assert(inner =~= ms);
        assert(offset_from(inner, ms.len() as int) is None);
    }
}

/// No offset sign among the milliseconds: the search goes on to `m`.
proof fn lemma_offset_from(inner: Seq<char>, m: int, i: int)
    requires
        0 <= i <= m <= inner.len(),
        forall|k: int| 0 <= k < m ==> is_digit(#[trigger] inner[k]),
    ensures
        offset_from(inner, i) == offset_from(inner, m),
    decreases m - i,
{
    if i < m {
        assert(is_digit(inner[i]));
        lemma_offset_from(inner, m, i + 1);
    }
}

} // verus!
