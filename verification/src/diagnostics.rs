//! Diagnostics: version comparison for update checks, and the names and
//! texts of support reports, with the UTC calendar their timestamps use.

use vstd::prelude::*;
use crate::parse::{find_char_from, find_from, lemma_find_from, nth_piece, parse_unsigned, parse_unsigned_spec, split_nth};
use crate::text::{chars_of, string_push, string_push_str};
use crate::errors::{decimal_spec, push_decimal};
use vstd::arithmetic::div_mod::{lemma_fundamental_div_mod, lemma_fundamental_div_mod_converse, lemma_mod_bound};

verus! {

/// Result of comparing the running version with the latest release.
#[derive(Debug, Clone)]
pub struct UpdateCheck {
    /// The running version, as `v{version}`.
    pub current: String,
    /// The latest release tag.
    pub latest: String,
    /// Whether `latest` is a newer version than `current`.
    pub newer_available: bool,
}

/// `s` without its leading `c` characters (`str::trim_start_matches`).
pub open spec fn strip_leading(s: Seq<char>, c: char) -> Seq<char>
    decreases s.len(),
{
    if s.len() > 0 && s[0] == c {
        strip_leading(s.drop_first(), c)
    } else {
        s
    }
}

/// A component's value: its text parsed as a `u32`, or 0 when it is missing
/// or does not parse.
pub open spec fn component(o: Option<Seq<char>>) -> u32 {
    match o {
        Some(t) => match parse_unsigned_spec(t, u32::MAX as nat) {
            Some(n) => n as u32,
            None => 0,
        },
        None => 0,
    }
}

/// `vMAJOR.MINOR.PATCH-N` as a comparable tuple: leading `v`s dropped, the
/// part after the first `-` is `N`, the part before it is split at `.`;
/// missing or unparsable components are 0.
pub open spec fn version_tuple_spec(v: Seq<char>) -> (u32, u32, u32, u32) {
    let st = strip_leading(v, 'v');
    let k = find_from(st, '-', 0);
    let base = if k < st.len() { st.take(k) } else { st };
    let suffix = if k < st.len() { Some(st.skip(k + 1)) } else { None };
    (
        component(split_nth(base, '.', 0)),
        component(split_nth(base, '.', 1)),
        component(split_nth(base, '.', 2)),
        component(suffix),
    )
}

/// Lexicographic `>` on version tuples (as Rust orders tuples).
pub open spec fn version_gt(a: (u32, u32, u32, u32), b: (u32, u32, u32, u32)) -> bool {
    ||| a.0 > b.0
    ||| a.0 == b.0 && a.1 > b.1
    ||| a.0 == b.0 && a.1 == b.1 && a.2 > b.2
    ||| a.0 == b.0 && a.1 == b.1 && a.2 == b.2 && a.3 > b.3
}

fn component_of(o: Option<Vec<char>>) -> (r: u32)
    ensures
        r == component(match o {
            Some(v) => Some(v@),
            None => None,
        }),
{
    match o {
        Some(t) => match parse_unsigned(&t, 0xffff_ffff) {
            Some(n) => n as u32,
            None => 0,
        },
        None => 0,
    }
}

/// Parses a version string into `(major, minor, patch, suffix)`.
pub fn version_tuple(v: &str) -> (r: (u32, u32, u32, u32))
    ensures
        r == version_tuple_spec(v@),
{
    let s = chars_of(v);
    let mut lo: usize = 0;
    proof {
        assert(s@.skip(0) =~= s@);
    }
    while lo < s.len() && s[lo] == 'v'
        invariant
            lo <= s.len(),
            strip_leading(s@, 'v') == strip_leading(s@.skip(lo as int), 'v'),
        decreases s.len() - lo,
    {
        proof {
            assert(s@.skip(lo as int).drop_first() =~= s@.skip(lo + 1));
        }
        lo += 1;
    }
    let mut st: Vec<char> = Vec::new();
    let mut i = lo;
    while i < s.len()
        invariant
            lo <= i <= s.len(),
            st@ == s@.subrange(lo as int, i as int),
        decreases s.len() - i,
    {
        st.push(s[i]);
        proof {
            assert(s@.subrange(lo as int, i + 1) =~= s@.subrange(lo as int, i as int).push(s@[i as int]));
        }
        i += 1;
    }
    proof {
        assert(st@ =~= s@.skip(lo as int));
        if lo < s.len() {
            assert(s@.skip(lo as int)[0] == s@[lo as int]);
        }
        assert(strip_leading(st@, 'v') == st@);
    }
    let k = find_char_from(&st, '-', 0);
    proof {
        lemma_find_from(st@, '-', 0);
    }
    let mut base: Vec<char> = Vec::new();
    let mut j: usize = 0;
    while j < k
        invariant
            j <= k <= st.len(),
            base@ == st@.take(j as int),
        decreases k - j,
    {
        base.push(st[j]);
        proof {
            assert(st@.take(j + 1) =~= st@.take(j as int).push(st@[j as int]));
        }
        j += 1;
    }
    proof {
        if k >= st.len() {
            assert(base@ =~= st@);
        }
    }
    let suffix: Option<Vec<char>> = if k < st.len() {
        let mut sf: Vec<char> = Vec::new();
        let mut m = k + 1;
        while m < st.len()
            invariant
                k + 1 <= m <= st.len(),
                sf@ == st@.subrange(k + 1, m as int),
            decreases st.len() - m,
        {
            sf.push(st[m]);
            proof {
                assert(st@.subrange(k + 1, m + 1) =~= st@.subrange(k + 1, m as int).push(st@[m as int]));
            }
            m += 1;
        }
        proof {
            assert(sf@ =~= st@.skip(k + 1));
        }
        Some(sf)
    } else {
        None
    };
    let major = component_of(nth_piece(&base, '.', 0));
    let minor = component_of(nth_piece(&base, '.', 1));
    let patch = component_of(nth_piece(&base, '.', 2));
    let n = component_of(suffix);
    (major, minor, patch, n)
}

/// Whether `y` is a leap year of the proleptic Gregorian calendar.
pub open spec fn is_leap_year(y: int) -> bool {
    (y % 4 == 0 && y % 100 != 0) || y % 400 == 0
}

/// The number of days of month `m` (1 to 12) in year `y`.
pub open spec fn days_in_month(y: int, m: int) -> int {
    if m == 2 {
        if is_leap_year(y) { 29 } else { 28 }
    } else if m == 4 || m == 6 || m == 9 || m == 11 {
        30
    } else {
        31
    }
}

/// The days of year `y` before the first day of month `m` (1 to 12).
pub open spec fn days_before_month(y: int, m: int) -> int {
    let common: int = if m == 1 { 0 } else if m == 2 { 31 } else if m == 3 { 59 } else if m == 4 { 90 }
        else if m == 5 { 120 } else if m == 6 { 151 } else if m == 7 { 181 } else if m == 8 { 212 }
        else if m == 9 { 243 } else if m == 10 { 273 } else if m == 11 { 304 } else { 334 };
    common + if m > 2 && is_leap_year(y) { 1int } else { 0int }
}

/// The leap years among the years 1 to `y`; the same count extended below
/// year 1, so that a difference of two counts is the number of leap years
/// between two years.
pub open spec fn leap_years_through(y: int) -> int {
    y / 4 - y / 100 + y / 400
}

/// The days from 1970-01-01 to the date `y`-`m`-`d`.
pub open spec fn days_from_epoch(y: int, m: int, d: int) -> int {
    365 * (y - 1970) + (leap_years_through(y - 1) - leap_years_through(1969))
        + days_before_month(y, m) + (d - 1)
}

/// Whether `(year, month, day, hour, minute, second)` names an existing
/// date and time of day.
pub open spec fn is_valid_date_time(r: (i32, u32, u32, u32, u32, u32)) -> bool {
    &&& 1 <= r.1 <= 12
    &&& 1 <= r.2 <= days_in_month(r.0 as int, r.1 as int)
    &&& r.3 < 24
    &&& r.4 < 60
    &&& r.5 < 60
}

/// The seconds from 1970-01-01 00:00:00 UTC to a date and time.
pub open spec fn seconds_from_epoch(r: (i32, u32, u32, u32, u32, u32)) -> int {
    days_from_epoch(r.0 as int, r.1 as int, r.2 as int) * 86400 + r.3 * 3600 + r.4 * 60 + r.5
}

/// The 400-year cycle, counted from 0000-03-01, that holds second `t`.
pub open spec fn era_of_second(t: int) -> int {
    (t / 86400 + 719468) / 146097
}

proof fn lemma_floor_step(y: int, d: int)
    requires
        d > 0,
    ensures
        y / d - (y - 1) / d == (if y % d == 0 { 1int } else { 0int }),
{
    lemma_fundamental_div_mod(y, d);
    lemma_mod_bound(y, d);
    let q = y / d;
    let r = y % d;
    assert(y == q * d + r) by (nonlinear_arith)
        requires
            y == d * q + r;
    if r == 0 {
        assert((q - 1) * d + (d - 1) == q * d - 1) by (nonlinear_arith);
        lemma_fundamental_div_mod_converse(y - 1, d, q - 1, d - 1);
    } else {
        lemma_fundamental_div_mod_converse(y - 1, d, q, r - 1);
    }
}

proof fn lemma_divisible_by_factor(y: int, q: int, big: int, small: int)
    requires
        small > 0,
        big % small == 0,
        big > 0,
        y == q * big,
    ensures
        y % small == 0,
{
    lemma_fundamental_div_mod(big, small);
    let k = big / small;
    assert(y == (q * k) * small + 0) by (nonlinear_arith)
        requires
            y == q * big,
            big == small * k + 0;
    lemma_fundamental_div_mod_converse(y, small, q * k, 0);
}

/// A leap year adds one to the count of leap years, any other year nothing.
pub proof fn law_leap_years_through_counts_leap_years(y: int)
    ensures
        leap_years_through(y) - leap_years_through(y - 1) == (if is_leap_year(y) { 1int } else { 0int }),
{
    lemma_floor_step(y, 4);
    lemma_floor_step(y, 100);
    lemma_floor_step(y, 400);
    lemma_fundamental_div_mod(y, 100);
    lemma_fundamental_div_mod(y, 400);
    if y % 100 == 0 {
        lemma_divisible_by_factor(y, y / 100, 100, 4);
    }
    if y % 400 == 0 {
        lemma_divisible_by_factor(y, y / 400, 400, 100);
        lemma_divisible_by_factor(y, y / 400, 400, 4);
    }
}

proof fn lemma_shift_by_eras(e: int, k: int)
    requires
        0 <= k < 400,
    ensures
        leap_years_through(400 * e + k) == 97 * e + k / 4 - k / 100,
        (400 * e + k) % 4 == k % 4,
        (400 * e + k) % 100 == k % 100,
        (400 * e + k) % 400 == k,
{
    lemma_fundamental_div_mod(k, 4);
    lemma_mod_bound(k, 4);
    lemma_fundamental_div_mod(k, 100);
    lemma_mod_bound(k, 100);
    lemma_fundamental_div_mod_converse(400 * e + k, 4, 100 * e + k / 4, k % 4);
    lemma_fundamental_div_mod_converse(400 * e + k, 100, 4 * e + k / 100, k % 100);
    lemma_fundamental_div_mod_converse(400 * e + k, 400, e, k);
}

proof fn lemma_month_of_year(doy: u32, mp: u32, c: u32, d: u32)
    by (bit_vector)
    requires
        doy < 366,
        mp == ((5 * doy + 2) / 153) as u32,
        c == ((153 * mp + 2) / 5) as u32,
        d == (doy - c + 1) as u32,
    ensures
        mp < 12,
        c <= doy,
        1 <= d <= 31,
        (mp == 1 || mp == 3 || mp == 6 || mp == 8) ==> d <= 30,
        mp == 11 ==> d <= 29,
        mp == 11 && d == 29 ==> doy == 365,
        mp == 0 ==> c == 0,
        mp == 1 ==> c == 31,
        mp == 2 ==> c == 61,
        mp == 3 ==> c == 92,
        mp == 4 ==> c == 122,
        mp == 5 ==> c == 153,
        mp == 6 ==> c == 184,
        mp == 7 ==> c == 214,
        mp == 8 ==> c == 245,
        mp == 9 ==> c == 275,
        mp == 10 ==> c == 306,
        mp == 11 ==> c == 337,
{
}


proof fn lemma_year_of_era(doe: u32, yoe: u32)
    by (bit_vector)
    requires
        doe < 146097,
        yoe == ((doe - doe / 1460 + doe / 36524 - doe / 146096) / 365) as u32,
    ensures
        yoe < 400,
        365 * yoe + yoe / 4 - yoe / 100 <= doe,
        doe < 365 * yoe + yoe / 4 - yoe / 100 + 366,
        doe == 365 * yoe + yoe / 4 - yoe / 100 + 365 ==> (yoe % 4 == 3 && (yoe % 100 != 99 || yoe == 399)),
{
}



/// The month (March-based index `mp`) and day `d` found in day `doy` of
/// March-based year `yoe` of cycle `era` name that day in the calendar.
proof fn lemma_civil_date(era: int, yoe: int, doy: int, mp: int, c: int, d: int)
    requires
        0 <= yoe < 400,
        0 <= doy <= 365,
        doy == 365 ==> (yoe % 4 == 3 && (yoe % 100 != 99 || yoe == 399)),
        0 <= mp < 12,
        c <= doy,
        d == doy - c + 1,
        1 <= d <= 31,
        (mp == 1 || mp == 3 || mp == 6 || mp == 8) ==> d <= 30,
        mp == 11 ==> d <= 29,
        mp == 11 && d == 29 ==> doy == 365,
        mp == 0 ==> c == 0,
        mp == 1 ==> c == 31,
        mp == 2 ==> c == 61,
        mp == 3 ==> c == 92,
        mp == 4 ==> c == 122,
        mp == 5 ==> c == 153,
        mp == 6 ==> c == 184,
        mp == 7 ==> c == 214,
        mp == 8 ==> c == 245,
        mp == 9 ==> c == 275,
        mp == 10 ==> c == 306,
        mp == 11 ==> c == 337,
    ensures
        ({
            let mo = if mp < 10 { mp + 3 } else { mp - 9 };
            let year = 400 * era + yoe + if mo <= 2 { 1int } else { 0int };
            &&& days_from_epoch(year, mo, d) == 146097 * era + 365 * yoe + yoe / 4 - yoe / 100 + doy - 719468
            &&& d <= days_in_month(year, mo)
        }),
{
    let y = 400 * era + yoe;
    lemma_shift_by_eras(era, yoe);
    law_leap_years_through_counts_leap_years(y);
    assert(leap_years_through(1969) == 477);
    if mp == 11 && d == 29 {
        if yoe == 399 {
            lemma_shift_by_eras(era + 1, 0);
            assert(y + 1 == 400 * (era + 1) + 0);
        } else {
            lemma_shift_by_eras(era, yoe + 1);
            lemma_fundamental_div_mod(yoe, 4);
            lemma_fundamental_div_mod(yoe, 100);
            lemma_fundamental_div_mod_converse(yoe + 1, 4, yoe / 4 + 1, 0);
            lemma_mod_bound(yoe + 1, 100);
            if (yoe + 1) % 100 == 0 {
                lemma_fundamental_div_mod_converse(yoe, 100, (yoe + 1) / 100 - 1, 99);
            }
        }
        assert(is_leap_year(y + 1));
    }
}

/// Splits a count of seconds since 1970-01-01 00:00:00 UTC into year,
/// month, day, hour, minute and second (UTC), with Howard Hinnant's
/// civil-from-days algorithm.
pub fn ymd_hms(t: i64) -> (r: (i32, u32, u32, u32, u32, u32))
    requires
        i32::MIN <= 400 * era_of_second(t as int),
        400 * era_of_second(t as int) + 400 <= i32::MAX,
    ensures
        is_valid_date_time(r),
        seconds_from_epoch(r) == t,
{
    let s = t.checked_rem_euclid(60).unwrap();
    let t1 = t.checked_div_euclid(60).unwrap();
    let mi = t1.checked_rem_euclid(60).unwrap();
    let t2 = t1.checked_div_euclid(60).unwrap();
    let h = t2.checked_rem_euclid(24).unwrap();
    let days_since_epoch = t2.checked_div_euclid(24).unwrap();
    proof {
        lemma_fundamental_div_mod(t as int, 60);
        lemma_mod_bound(t as int, 60);
        lemma_fundamental_div_mod(t1 as int, 60);
        lemma_mod_bound(t1 as int, 60);
        lemma_fundamental_div_mod(t2 as int, 24);
        lemma_mod_bound(t2 as int, 24);
        lemma_fundamental_div_mod_converse(t as int, 86400, days_since_epoch as int, h * 3600 + mi * 60 + s);
    }
    let days = days_since_epoch + 719468;
    let era = days.checked_div_euclid(146097).unwrap();
    proof {
        lemma_fundamental_div_mod(days as int, 146097);
        lemma_mod_bound(days as int, 146097);
    }
    let doe = (days - era * 146097) as u32;
    let yoe = (doe - doe / 1460 + doe / 36524 - doe / 146096) / 365;
    proof {
        lemma_year_of_era(doe, yoe);
    }
    let doy = doe - (365 * yoe + yoe / 4 - yoe / 100);
    let mp = (5 * doy + 2) / 153;
    let c = (153 * mp + 2) / 5;
    let d = doy - c + 1;
    proof {
        lemma_month_of_year(doy, mp, c, d);
        lemma_civil_date(era as int, yoe as int, doy as int, mp as int, c as int, d as int);
    }
    let mo = if mp < 10 { mp + 3 } else { mp - 9 };
    let y = yoe as i32 + era as i32 * 400;
    let y = y + if mo <= 2 { 1 } else { 0 };
    (y, mo, d, h as u32, mi as u32, s as u32)
}

proof fn lemma_next_year_start(y: int)
    ensures
        days_from_epoch(y + 1, 1, 1) == days_from_epoch(y, 1, 1) + 365 + if is_leap_year(y) { 1int } else { 0int },
{
    law_leap_years_through_counts_leap_years(y);
}

proof fn lemma_year_starts_increase(a: int, b: int)
    requires
        a < b,
    ensures
        days_from_epoch(a + 1, 1, 1) <= days_from_epoch(b, 1, 1),
    decreases b - a,
{
    if a + 1 < b {
        lemma_year_starts_increase(a, b - 1);
        lemma_next_year_start(b - 1);
    }
}

proof fn lemma_date_within_year(y: int, m: int, d: int)
    requires
        1 <= m <= 12,
        1 <= d <= days_in_month(y, m),
    ensures
        days_from_epoch(y, 1, 1) <= days_from_epoch(y, m, d) < days_from_epoch(y + 1, 1, 1),
{
    lemma_next_year_start(y);
}

proof fn lemma_same_day_of_year(y: int, m1: int, d1: int, m2: int, d2: int)
    requires
        1 <= m1 <= 12,
        1 <= d1 <= days_in_month(y, m1),
        1 <= m2 <= 12,
        1 <= d2 <= days_in_month(y, m2),
        days_before_month(y, m1) + d1 == days_before_month(y, m2) + d2,
    ensures
        m1 == m2,
        d1 == d2,
{
}

/// Two existing dates and times that lie the same number of seconds after
/// the epoch are the same: the split done by `ymd_hms` has one answer.
pub proof fn law_date_time_of_a_second_is_unique(a: (i32, u32, u32, u32, u32, u32), b: (i32, u32, u32, u32, u32, u32))
    requires
        is_valid_date_time(a),
        is_valid_date_time(b),
        seconds_from_epoch(a) == seconds_from_epoch(b),
    ensures
        a == b,
{
    let da = days_from_epoch(a.0 as int, a.1 as int, a.2 as int);
    let db = days_from_epoch(b.0 as int, b.1 as int, b.2 as int);
    let ta = a.3 * 3600 + a.4 * 60 + a.5;
    let tb = b.3 * 3600 + b.4 * 60 + b.5;
    lemma_fundamental_div_mod_converse(seconds_from_epoch(a), 86400, da, ta);
    lemma_fundamental_div_mod_converse(seconds_from_epoch(a), 86400, db, tb);
    lemma_fundamental_div_mod_converse(ta, 60, a.3 * 60 + a.4, a.5 as int);
    lemma_fundamental_div_mod_converse(ta, 60, b.3 * 60 + b.4, b.5 as int);
    lemma_fundamental_div_mod_converse(a.3 * 60 + a.4, 60, a.3 as int, a.4 as int);
    lemma_fundamental_div_mod_converse(a.3 * 60 + a.4, 60, b.3 as int, b.4 as int);
    lemma_date_within_year(a.0 as int, a.1 as int, a.2 as int);
    lemma_date_within_year(b.0 as int, b.1 as int, b.2 as int);
    if a.0 < b.0 {
        lemma_year_starts_increase(a.0 as int, b.0 as int);
    }
    if b.0 < a.0 {
        lemma_year_starts_increase(b.0 as int, a.0 as int);
    }
    assert(a.0 == b.0);
    lemma_same_day_of_year(a.0 as int, a.1 as int, a.2 as int, b.1 as int, b.2 as int);
}

/// The date and time of day of second `t` (see `ymd_hms`).
pub open spec fn date_time_of_second(t: int) -> (i32, u32, u32, u32, u32, u32) {
    choose|r: (i32, u32, u32, u32, u32, u32)| is_valid_date_time(r) && seconds_from_epoch(r) == t
}

/// `n` in decimal, with zeros in front up to `width` characters.
pub open spec fn zero_padded(n: nat, width: nat) -> Seq<char> {
    let digits = decimal_spec(n);
    let pad: nat = if digits.len() < width { (width - digits.len()) as nat } else { 0 };
    Seq::new(pad, |_i: int| '0') + digits
}

/// `v` in decimal with zeros after the sign up to `width` characters in
/// all (the `{:0width}` format of a signed integer).
pub open spec fn signed_zero_padded(v: int, width: nat) -> Seq<char> {
    if v < 0 {
        seq!['-'] + zero_padded((-v) as nat, if width > 0 { (width - 1) as nat } else { 0 })
    } else {
        zero_padded(v as nat, width)
    }
}

/// A date and time as `YYYYMMDD-HHMMSS`.
pub open spec fn timestamp_text(r: (i32, u32, u32, u32, u32, u32)) -> Seq<char> {
    signed_zero_padded(r.0 as int, 4) + zero_padded(r.1 as nat, 2) + zero_padded(r.2 as nat, 2)
        + seq!['-'] + zero_padded(r.3 as nat, 2) + zero_padded(r.4 as nat, 2) + zero_padded(r.5 as nat, 2)
}

/// Appends `n` in decimal with zeros in front up to `width` characters.
pub fn push_zero_padded(s: &mut String, n: u64, width: usize)
    ensures
        final(s)@ == old(s)@ + zero_padded(n as nat, width as nat),
{
    let mut digits = String::new();
    push_decimal(&mut digits, n);
    proof {
        assert(digits@ =~= decimal_spec(n as nat));
    }
    let cs = chars_of(digits.as_str());
    let mut k = cs.len();
    proof {
        assert(old(s)@ + Seq::new(0, |_i: int| '0') =~= old(s)@);
    }
    while k < width
        invariant
            cs.len() <= k <= (if cs.len() < width { width } else { cs.len() }),
            cs@ == decimal_spec(n as nat),
            s@ == old(s)@ + Seq::new((k - cs.len()) as nat, |_i: int| '0'),
        decreases width - k,
    {
        string_push(s, '0');
        proof {
            assert(old(s)@ + Seq::new((k + 1 - cs.len()) as nat, |_i: int| '0')
                =~= (old(s)@ + Seq::new((k - cs.len()) as nat, |_i: int| '0')).push('0'));
        }
        k += 1;
    }
    string_push_str(s, digits.as_str());
    proof {
        let pad: nat = if cs.len() < width { (width - cs.len()) as nat } else { 0 };
        assert((k - cs.len()) as nat == pad);
        assert(s@ =~= old(s)@ + zero_padded(n as nat, width as nat));
    }
}

/// Formats a date and time as `YYYYMMDD-HHMMSS`, each field zero-padded
/// (the year to four characters, sign included).
pub fn format_timestamp(r: (i32, u32, u32, u32, u32, u32)) -> (out: String)
    ensures
        out@ == timestamp_text(r),
{
    let mut out = String::new();
    if r.0 < 0 {
        string_push(&mut out, '-');
        let magnitude: i64 = -(r.0 as i64);
        push_zero_padded(&mut out, magnitude as u64, 3);
    } else {
        push_zero_padded(&mut out, r.0 as u64, 4);
    }
    push_zero_padded(&mut out, r.1 as u64, 2);
    push_zero_padded(&mut out, r.2 as u64, 2);
    string_push(&mut out, '-');
    push_zero_padded(&mut out, r.3 as u64, 2);
    push_zero_padded(&mut out, r.4 as u64, 2);
    push_zero_padded(&mut out, r.5 as u64, 2);
    proof {
        assert(out@ =~= timestamp_text(r));
    }
    out
}

/// The UTC timestamp of second `secs` as `YYYYMMDD-HHMMSS`, for report
/// file names.
pub fn report_timestamp(secs: i64) -> (out: String)
    requires
        i32::MIN <= 400 * era_of_second(secs as int),
        400 * era_of_second(secs as int) + 400 <= i32::MAX,
    ensures
        out@ == timestamp_text(date_time_of_second(secs as int)),
{
    let r = ymd_hms(secs);
    proof {
        let c = date_time_of_second(secs as int);
        assert(is_valid_date_time(c) && seconds_from_epoch(c) == secs);
        law_date_time_of_a_second_is_unique(r, c);
    }
    format_timestamp(r)
}

/// The name of a report's directory: `sootmix-report-{timestamp}`.
pub fn report_dir_name(timestamp: &str) -> (r: String)
    ensures
        r@ == "sootmix-report-"@ + timestamp@,
{
    let mut r = String::new();
    string_push_str(&mut r, "sootmix-report-");
    string_push_str(&mut r, timestamp);
    r
}

/// The file name of a report's archive: `{dir_name}.tar.gz`.
pub fn report_archive_name(dir_name: &str) -> (r: String)
    ensures
        r@ == dir_name@ + ".tar.gz"@,
{
    let mut r = String::new();
    string_push_str(&mut r, dir_name);
    string_push_str(&mut r, ".tar.gz");
    r
}

/// The path of entry `name` inside the report archive: `{dir_name}/{name}`.
pub fn report_entry_path(dir_name: &str, name: &str) -> (r: String)
    ensures
        r@ == dir_name@ + "/"@ + name@,
{
    let mut r = String::new();
    string_push_str(&mut r, dir_name);
    string_push_str(&mut r, "/");
    string_push_str(&mut r, name);
    r
}

/// The text of the report's `version.txt`.
pub fn report_version_text(version: &str, timestamp: &str) -> (r: String)
    ensures
        r@ == "sootmix GUI version: "@ + version@ + "\nreport generated: "@ + timestamp@ + "\n"@,
{
    let mut r = String::new();
    string_push_str(&mut r, "sootmix GUI version: ");
    string_push_str(&mut r, version);
    string_push_str(&mut r, "\nreport generated: ");
    string_push_str(&mut r, timestamp);
    string_push_str(&mut r, "\n");
    r
}

/// What a report records of a command that ran: its standard output, then
/// its standard error under a marker when there is any, then its exit
/// status under a marker when it failed.
pub fn command_output_text(stdout: &str, stderr: &str, success: bool, status: &str) -> (r: String)
    ensures
        r@ == stdout@
            + (if stderr@.len() > 0 { "\n--- stderr ---\n"@ + stderr@ } else { Seq::empty() })
            + (if !success { "\n--- exit: "@ + status@ + " ---\n"@ } else { Seq::empty() }),
{
    let mut r = String::new();
    string_push_str(&mut r, stdout);
    let ghost after_out = r@;
    let has_stderr = chars_of(stderr).len() > 0;
    if has_stderr {
        string_push_str(&mut r, "\n--- stderr ---\n");
        string_push_str(&mut r, stderr);
    }
    let ghost after_err = r@;
    if !success {
        string_push_str(&mut r, "\n--- exit: ");
        string_push_str(&mut r, status);
        string_push_str(&mut r, " ---\n");
    }
    proof {
        let e: Seq<char> = if stderr@.len() > 0 { "\n--- stderr ---\n"@ + stderr@ } else { Seq::empty() };
        let x: Seq<char> = if !success { "\n--- exit: "@ + status@ + " ---\n"@ } else { Seq::empty() };
        assert(after_err =~= stdout@ + e);
        assert(r@ =~= stdout@ + e + x);
    }
    r
}

/// The words of `args` separated by single spaces.
pub open spec fn joined_with_spaces(args: Seq<Seq<char>>) -> Seq<char>
    decreases args.len(),
{
    if args.len() == 0 {
        Seq::empty()
    } else if args.len() == 1 {
        args[0]
    } else {
        joined_with_spaces(args.drop_last()) + seq![' '] + args.last()
    }
}

/// What a report records of a command that could not be started.
pub fn command_failure_text(program: &str, args: &[&str], error: &str) -> (r: String)
    ensures
        r@ == "<command `"@ + program@ + " "@ + joined_with_spaces(args@.map_values(|a: &str| a@))
            + "` failed: "@ + error@ + ">\n"@,
{
    let mut r = String::new();
    string_push_str(&mut r, "<command `");
    string_push_str(&mut r, program);
    string_push_str(&mut r, " ");
    let ghost head = r@;
    let mut i: usize = 0;
    while i < args.len()
        invariant
            i <= args.len(),
            r@ == head + joined_with_spaces(args@.take(i as int).map_values(|a: &str| a@)),
        decreases args.len() - i,
    {
        let ghost before = args@.take(i as int).map_values(|a: &str| a@);
        if i > 0 {
            string_push_str(&mut r, " ");
        }
        string_push_str(&mut r, args[i]);
        proof {
            let after = args@.take(i + 1).map_values(|a: &str| a@);
            assert(after.drop_last() =~= before);
            assert(after.last() == args@[i as int]@);
            reveal_strlit(" ");
            if i == 0 {
                assert(before =~= Seq::<Seq<char>>::empty());
                assert(after.len() == 1);
                assert(joined_with_spaces(after) == after[0]);
                assert(r@ =~= head + joined_with_spaces(after));
            } else {
                assert(r@ =~= head + joined_with_spaces(after));
            }
        }
        i += 1;
    }
    proof {
        assert(args@.take(args.len() as int) =~= args@);
    }
    string_push_str(&mut r, "` failed: ");
    string_push_str(&mut r, error);
    string_push_str(&mut r, ">\n");
    r
}

/// Whether tuple `a` is greater than tuple `b`.
pub fn version_newer(a: (u32, u32, u32, u32), b: (u32, u32, u32, u32)) -> (r: bool)
    ensures
        r == version_gt(a, b),
{
    if a.0 != b.0 {
        return a.0 > b.0;
    }
    if a.1 != b.1 {
        return a.1 > b.1;
    }
    if a.2 != b.2 {
        return a.2 > b.2;
    }
    a.3 > b.3
}

/// Compares the running version with the tag of the latest release:
/// `current` is `v{version}`, and `newer_available` says whether the tag's
/// version tuple is greater.
pub fn update_check_from(version: &str, latest_tag: &str) -> (r: UpdateCheck)
    ensures
        r.current@ == "v"@ + version@,
        r.latest@ == latest_tag@,
        r.newer_available == version_gt(version_tuple_spec(latest_tag@), version_tuple_spec("v"@ + version@)),
{
    let mut current = String::new();
    string_push(&mut current, 'v');
    string_push_str(&mut current, version);
    proof {
        reveal_strlit("v");
        assert(current@ =~= "v"@ + version@);
    }
    let newer = version_newer(version_tuple(latest_tag), version_tuple(current.as_str()));
    UpdateCheck { current, latest: latest_tag.to_string(), newer_available: newer }
}


/// What a release description holds: `Err` with serde_json's message when
/// the text is not JSON, `Ok(None)` when it has no string `tag_name`, else
/// `Ok(Some(tag))`.
pub uninterp spec fn release_json_tag(body: Seq<char>) -> Result<Option<Seq<char>>, Seq<char>>;

/// `serde_json::from_str` into a `serde_json::Value`, then its `tag_name`
/// when that is a string. Trusted: the result, the error's message
/// included, is a function of the text alone, named `release_json_tag`.
#[verifier::external_body]
fn release_tag_name(body: &str) -> (r: Result<Option<String>, String>)
    ensures
        match r {
            Ok(Some(t)) => release_json_tag(body@) == Ok::<Option<Seq<char>>, Seq<char>>(Some(t@)),
            Ok(None) => release_json_tag(body@) == Ok::<Option<Seq<char>>, Seq<char>>(None),
            Err(e) => release_json_tag(body@) == Err::<Option<Seq<char>>, Seq<char>>(e@),
        },
{
    match serde_json::from_str::<serde_json::Value>(body) {
        Ok(json) => Ok(json.get("tag_name").and_then(|v| v.as_str()).map(|t| t.to_string())),
        Err(e) => Err(e.to_string()),
    }
}

/// Reads the latest release's description (the text of the releases API)
/// and compares its tag with the running version; the errors say that the
/// text is not JSON or that it names no tag.
pub fn update_check_from_release(version: &str, body: &str) -> (r: Result<UpdateCheck, String>)
    ensures
        match release_json_tag(body@) {
            Err(e) => (r matches Err(m) && m@ == "response parse failed: "@ + e),
            Ok(None) => (r matches Err(m) && m@ == "tag_name missing from GitHub response"@),
            Ok(Some(t)) => (r matches Ok(u) && u.current@ == "v"@ + version@ && u.latest@ == t
                && u.newer_available == version_gt(version_tuple_spec(t), version_tuple_spec("v"@ + version@))),
        },
{
    match release_tag_name(body) {
        Ok(Some(t)) => Ok(update_check_from(version, t.as_str())),
        Ok(None) => Err("tag_name missing from GitHub response".to_string()),
        Err(e) => {
            let mut m = String::new();
            string_push_str(&mut m, "response parse failed: ");
            string_push_str(&mut m, e.as_str());
            proof {
                assert(m@ =~= "response parse failed: "@ + e@);
            }
            Err(m)
        },
    }
}

proof fn lemma_no_char(s: Seq<char>, c: char)
    requires
        forall|i: int| 0 <= i < s.len() ==> crate::parse::is_digit(#[trigger] s[i]),
        !crate::parse::is_digit(c),
    ensures
        find_from(s, c, 0) == s.len(),
        split_nth(s, c, 0) == Some(s),
{
    crate::parse::lemma_find_unique(s, c, s.len() as int);
}

proof fn lemma_split_first_piece(x: Seq<char>, rest: Seq<char>, c: char)
    requires
        forall|i: int| 0 <= i < x.len() ==> crate::parse::is_digit(#[trigger] x[i]),
        !crate::parse::is_digit(c),
    ensures
        crate::parse::split_spec(x + seq![c] + rest, c) == seq![x] + crate::parse::split_spec(rest, c),
{
    let s = x + seq![c] + rest;
    assert forall|j: int| 0 <= j < x.len() implies s[j] != c by {
        assert(s[j] == x[j]);
    }
    crate::parse::lemma_find_unique(s, c, x.len() as int);
    assert(s.take(x.len() as int) =~= x);
    assert(s.skip(x.len() as int + 1) =~= rest);
}

/// A release tag written as `v{major}.{minor}.{patch}` gives back its three
/// numbers, with no suffix number.
pub proof fn law_release_tag_parses_to_its_numbers(major: u32, minor: u32, patch: u32)
    ensures
        version_tuple_spec(seq!['v'] + decimal_spec(major as nat) + seq!['.'] + decimal_spec(minor as nat) + seq!['.']
            + decimal_spec(patch as nat)) == (major, minor, patch, 0u32),
{
    let da = decimal_spec(major as nat);
    let db = decimal_spec(minor as nat);
    let dc = decimal_spec(patch as nat);
    crate::errors::lemma_decimal_digits(major as nat);
    crate::errors::lemma_decimal_digits(minor as nat);
    crate::errors::lemma_decimal_digits(patch as nat);
    crate::errors::law_decimal_parses_back(major as nat, u32::MAX as nat);
    crate::errors::law_decimal_parses_back(minor as nat, u32::MAX as nat);
    crate::errors::law_decimal_parses_back(patch as nat, u32::MAX as nat);
    let v = seq!['v'] + da + seq!['.'] + db + seq!['.'] + dc;
    let st = da + seq!['.'] + db + seq!['.'] + dc;
    assert(v.drop_first() =~= st);
    assert(st[0] == da[0]);
    assert(strip_leading(v, 'v') == strip_leading(st, 'v'));
    assert(strip_leading(st, 'v') == st);
    let rest = db + seq!['.'] + dc;
    assert(st =~= da + seq!['.'] + rest);
    assert forall|i: int| 0 <= i < st.len() implies st[i] != '-' by {
        if i < da.len() {
            assert(st[i] == da[i]);
        } else if i == da.len() {
        } else if i < da.len() + 1 + db.len() {
            assert(st[i] == db[i - da.len() - 1]);
        } else if i == da.len() + 1 + db.len() {
        } else {
            assert(st[i] == dc[i - da.len() - 2 - db.len()]);
        }
    }
    crate::parse::lemma_find_unique(st, '-', st.len() as int);
    lemma_split_first_piece(da, rest, '.');
    lemma_split_first_piece(db, dc, '.');
    lemma_no_char(dc, '.');
    let pieces = crate::parse::split_spec(st, '.');
    assert(pieces =~= seq![da] + (seq![db] + crate::parse::split_spec(dc, '.')));
    assert(crate::parse::split_spec(dc, '.') == seq![dc]);
    assert(split_nth(st, '.', 0) == Some(da));
    assert(split_nth(st, '.', 1) == Some(db));
    assert(split_nth(st, '.', 2) == Some(dc));
}

/// `major.minor.patch` written in decimal.
pub open spec fn release_version_text(major: u32, minor: u32, patch: u32) -> Seq<char> {
    decimal_spec(major as nat) + seq!['.'] + decimal_spec(minor as nat) + seq!['.'] + decimal_spec(patch as nat)
}

/// For a running version `a.b.c` and a latest release tagged `vx.y.z`, an
/// update is reported exactly when `(x, y, z)` comes after `(a, b, c)` in
/// lexicographic order.
pub proof fn law_update_reported_exactly_for_newer_release(a: u32, b: u32, c: u32, x: u32, y: u32, z: u32)
    ensures
        version_gt(version_tuple_spec(seq!['v'] + release_version_text(x, y, z)),
            version_tuple_spec("v"@ + release_version_text(a, b, c)))
            == (x > a || (x == a && y > b) || (x == a && y == b && z > c)),
{
    reveal_strlit("v");
    assert(seq!['v'] + release_version_text(x, y, z) =~= seq!['v'] + decimal_spec(x as nat) + seq!['.']
        + decimal_spec(y as nat) + seq!['.'] + decimal_spec(z as nat));
    assert("v"@ + release_version_text(a, b, c) =~= seq!['v'] + decimal_spec(a as nat) + seq!['.']
        + decimal_spec(b as nat) + seq!['.'] + decimal_spec(c as nat));
    law_release_tag_parses_to_its_numbers(x, y, z);
    law_release_tag_parses_to_its_numbers(a, b, c);
}

/// "Newer than" between version tuples is a strict total order: never
/// true of a version and itself, transitive, and of two different versions
/// exactly one is newer.
pub proof fn law_version_order_is_strict_total(a: (u32, u32, u32, u32), b: (u32, u32, u32, u32), c: (u32, u32, u32, u32))
    ensures
        !version_gt(a, a),
        version_gt(a, b) && version_gt(b, c) ==> version_gt(a, c),
        a != b ==> (version_gt(a, b) != version_gt(b, a)),
        version_gt(a, b) ==> !version_gt(b, a),
{
}

/// An update check whose latest tag is the running version reports no
/// newer version.
pub proof fn law_same_version_is_not_newer(version: Seq<char>)
    ensures
        !version_gt(version_tuple_spec("v"@ + version), version_tuple_spec("v"@ + version)),
{
}

} // verus!
