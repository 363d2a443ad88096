//! The support log: time stamps and file names, and the id of a configuration.

use crate::text::{
    from_range, join_path, push_nat, push_padded, strip_bound, to_chars, trim_bounds,
};
use vstd::prelude::*;
use vstd::string::*;

verus! {

use crate::text::{
    decimal_nat, digits_value, is_digit, lemma_decimal_len, lemma_decimal_nat, padded, path_in,
    repeat, strip_back, trimmed,
};
use vstd::utf8::encode_utf8;

// ---------------------------------------------------------------------------
// The calendar
// ---------------------------------------------------------------------------

pub open spec fn is_leap(y: int) -> bool {
    y % 4 == 0 && (y % 100 != 0 || y % 400 == 0)
}

pub open spec fn days_in_year(y: int) -> int {
    if is_leap(y) {
        366
    } else {
        365
    }
}

pub open spec fn days_in_month(y: int, m: int) -> int {
    if m == 2 {
        if is_leap(y) {
            29
        } else {
            28
        }
    } else if m == 4 || m == 6 || m == 9 || m == 11 {
        30
    } else {
        31
    }
}

/// The days of the years from 0 up to `y`.
pub open spec fn days_before_year(y: int) -> int {
    365 * y + (y + 3) / 4 - (y + 99) / 100 + (y + 399) / 400
}

/// The days of the months before `m` in year `y`.
pub open spec fn days_before_month(y: int, m: int) -> int
    decreases m,
{
    if m <= 1 {
        0
    } else {
        days_before_month(y, m - 1) + days_in_month(y, m - 1)
    }
}

/// The number of a day, counted from 1970-01-01.
pub open spec fn day_number(y: int, m: int, d: int) -> int {
    days_before_year(y) + days_before_month(y, m) + d - 1 - 719528
}

/// The day is one of the calendar.
pub open spec fn is_date(y: int, m: int, d: int) -> bool {
    1 <= m <= 12 && 1 <= d <= days_in_month(y, m)
}

/// The count of days before a year grows by the days of that year.
pub proof fn law_years_have_their_days(y: int)
    ensures
        days_before_year(y + 1) == days_before_year(y) + days_in_year(y),
        days_before_year(0) == 0,
{
}

proof fn lemma_months(y: int)
    ensures
        days_before_month(y, 1) == 0,
        days_before_month(y, 2) == 31,
        days_before_month(y, 3) == 59 + days_in_year(y) - 365,
        days_before_month(y, 4) == 90 + days_in_year(y) - 365,
        days_before_month(y, 5) == 120 + days_in_year(y) - 365,
        days_before_month(y, 6) == 151 + days_in_year(y) - 365,
        days_before_month(y, 7) == 181 + days_in_year(y) - 365,
        days_before_month(y, 8) == 212 + days_in_year(y) - 365,
        days_before_month(y, 9) == 243 + days_in_year(y) - 365,
        days_before_month(y, 10) == 273 + days_in_year(y) - 365,
        days_before_month(y, 11) == 304 + days_in_year(y) - 365,
        days_before_month(y, 12) == 334 + days_in_year(y) - 365,
{
    reveal_with_fuel(days_before_month, 13);
}

proof fn lemma_years_grow(a: int, b: int)
    requires
        a < b,
    ensures
        days_before_year(a) + days_in_year(a) <= days_before_year(b),
    decreases b - a,
{
    law_years_have_their_days(a);
    if a + 1 < b {
        lemma_years_grow(a + 1, b);
    }
}

/// Two dates with the same number are the same date.
pub proof fn law_day_number_is_unique(y: int, m: int, d: int, y2: int, m2: int, d2: int)
    requires
        is_date(y, m, d),
        is_date(y2, m2, d2),
        day_number(y, m, d) == day_number(y2, m2, d2),
    ensures
        y == y2,
        m == m2,
        d == d2,
{
    lemma_months(y);
    lemma_months(y2);
    assert(0 <= days_before_month(y, m) + d - 1 < days_in_year(y));
    assert(0 <= days_before_month(y2, m2) + d2 - 1 < days_in_year(y2));
    if y < y2 {
        lemma_years_grow(y, y2);
    } else if y2 < y {
        lemma_years_grow(y2, y);
    }
}

/// The year of a 400-year cycle that starts in March: the days before it, and
/// what is left of the day.
proof fn lemma_year_of_era(doe: int, yoe: int, doy: int)
    requires
        0 <= doe < 146097,
        yoe == (doe - doe / 1460 + doe / 36524 - doe / 146096) / 365,
        doy == doe - (365 * yoe + yoe / 4 - yoe / 100),
    ensures
        0 <= yoe < 400,
        0 <= doy,
        doy < days_in_year(yoe + 1),
{
    let c = doe / 36524;
    assert(0 <= c <= 4);
    assert(doe / 146096 == if doe == 146096 {
        1int
    } else {
        0
    });
    if c == 0 {
        lemma_year_of_century(doe, 0, doe, yoe);
    } else if c == 1 {
        lemma_year_of_century(doe, 1, doe - 36524, yoe);
    } else if c == 2 {
        lemma_year_of_century(doe, 2, doe - 73048, yoe);
    } else if c == 3 {
        lemma_year_of_century(doe, 3, doe - 109572, yoe);
    }
}

proof fn lemma_year_of_century(doe: int, c: int, e: int, yoe: int)
    requires
        0 <= c <= 3,
        0 <= e < 36524,
        doe == 36524 * c + e,
        yoe == (doe - doe / 1460 + c) / 365,
    ensures
        ({
            let doy = doe - (365 * yoe + yoe / 4 - yoe / 100);
            0 <= yoe < 400 && 0 <= doy < days_in_year(yoe + 1)
        }),
{
    let q = e / 1461;
    let f = e % 1461;
    assert(0 <= q <= 24);
    assert(e == 1461 * q + f);
    let n = 25 * c + q;
    let x = doe - doe / 1460 + c;
    assert(doe == 36524 * c + 1461 * q + f);
    // doe / 1460 lies at n plus what the rest adds
    assert(doe == 1460 * n + 24 * c + q + f);
    assert(24 * c + q + f < 1460 + 96);
    let r = 24 * c + q + f;
    if r < 1460 {
        assert(doe / 1460 == n);
        assert(x == 1460 * n + r - n + c);
        assert(x == 365 * (4 * n) + f);
        if f < 1460 {
            assert(yoe == 4 * n + f / 365);
        } else {
            assert(yoe == 4 * n + 4);
        }
    } else {
        assert(doe / 1460 == n + 1);
        assert(x == 365 * (4 * n) + f - 1);
        assert(yoe == 4 * n + (f - 1) / 365);
    }
}

/// The calendar repeats after 400 years.
proof fn lemma_era(era: int, yoe: int)
    requires
        0 <= era,
        0 <= yoe <= 400,
    ensures
        days_before_year(yoe + era * 400) == days_before_year(yoe) + era * 146097,
        is_leap(yoe + era * 400) == is_leap(yoe),
{
    let y = yoe + era * 400;
    assert((y + 3) / 4 == (yoe + 3) / 4 + era * 100);
    assert((y + 99) / 100 == (yoe + 99) / 100 + era * 4);
    assert((y + 399) / 400 == (yoe + 399) / 400 + era);
    assert(y % 4 == yoe % 4);
    assert(y % 100 == yoe % 100);
    assert(y % 400 == yoe % 400);
}

/// The first of March in a year of the first era.
proof fn lemma_first_of_march(yoe: int)
    requires
        0 <= yoe < 400,
    ensures
        days_before_year(yoe) + days_in_year(yoe) - 306 == 365 * yoe + yoe / 4 - yoe / 100 + 60,
{
    assert((yoe + 399) / 400 == if yoe == 0 {
        0int
    } else {
        1int
    });
    assert((yoe + 3) / 4 == yoe / 4 + if yoe % 4 == 0 {
        0int
    } else {
        1int
    });
    assert((yoe + 99) / 100 == yoe / 100 + if yoe % 100 == 0 {
        0int
    } else {
        1int
    });
    if yoe % 4 != 0 {
        assert(yoe % 100 != 0);
    }
    assert(yoe % 400 == yoe);
}

/// The month of a day in a year that starts in March.
proof fn lemma_month_of_day(doy: int, mp: int)
    requires
        0 <= doy <= 365,
        mp == (5 * doy + 2) / 153,
    ensures
        0 <= mp <= 11,
        mp == 0 ==> 0 <= doy < 31 && (153 * mp + 2) / 5 == 0,
        mp == 1 ==> 31 <= doy < 61 && (153 * mp + 2) / 5 == 31,
        mp == 2 ==> 61 <= doy < 92 && (153 * mp + 2) / 5 == 61,
        mp == 3 ==> 92 <= doy < 122 && (153 * mp + 2) / 5 == 92,
        mp == 4 ==> 122 <= doy < 153 && (153 * mp + 2) / 5 == 122,
        mp == 5 ==> 153 <= doy < 184 && (153 * mp + 2) / 5 == 153,
        mp == 6 ==> 184 <= doy < 214 && (153 * mp + 2) / 5 == 184,
        mp == 7 ==> 214 <= doy < 245 && (153 * mp + 2) / 5 == 214,
        mp == 8 ==> 245 <= doy < 275 && (153 * mp + 2) / 5 == 245,
        mp == 9 ==> 275 <= doy < 306 && (153 * mp + 2) / 5 == 275,
        mp == 10 ==> 306 <= doy < 337 && (153 * mp + 2) / 5 == 306,
        mp == 11 ==> 337 <= doy && (153 * mp + 2) / 5 == 337,
{
}

/// A day of a year that starts in March, as a date.
proof fn lemma_date_from_march(era: int, yoe: int, doy: int, mp: int)
    requires
        0 <= era,
        0 <= yoe < 400,
        0 <= doy < days_in_year(yoe + 1),
        mp == (5 * doy + 2) / 153,
    ensures
        ({
            let y = yoe + era * 400;
            let day = doy - (153 * mp + 2) / 5 + 1;
            let month = if mp < 10 {
                mp + 3
            } else {
                mp - 9
            };
            let year = if month <= 2 {
                y + 1
            } else {
                y
            };
            &&& 0 <= mp <= 11
            &&& is_date(year, month, day)
            &&& day_number(year, month, day) == era * 146097 + 365 * yoe + yoe / 4 - yoe / 100 + doy
                - 719468
        }),
{
    let y = yoe + era * 400;
    lemma_months(y);
    lemma_months(y + 1);
    lemma_era(era, yoe);
    lemma_era(era, yoe + 1);
    lemma_first_of_march(yoe);
    lemma_month_of_day(doy, mp);
    law_years_have_their_days(y);
    assert(y + 1 == (yoe + 1) + era * 400);
}

/// The date of a day, counted from 1970-01-01.
fn date_from_days(days: i64) -> (r: (i64, u32, u32))
    requires
        0 <= days <= 0x0100_0000_0000_0000,
    ensures
        is_date(r.0 as int, r.1 as int, r.2 as int),
        days == day_number(r.0 as int, r.1 as int, r.2 as int),
{
    // days since 0000-03-01
    let z: i64 = days + 719_468;
    let era: i64 = z / 146_097;
    let doe: i64 = z % 146_097;
    assert(z == era * 146_097 + doe);
    let yoe: i64 = (doe - doe / 1460 + doe / 36524 - doe / 146096) / 365;
    proof {
        lemma_year_of_era(
            doe as int,
            yoe as int,
            doe - (365 * yoe + yoe as int / 4 - yoe as int / 100),
        );
    }
    let y: i64 = yoe + era * 400;
    let doy: i64 = doe - (365 * yoe + yoe / 4 - yoe / 100);
    let mp: i64 = (5 * doy + 2) / 153;
    proof {
        lemma_date_from_march(era as int, yoe as int, doy as int, mp as int);
        lemma_month_of_day(doy as int, mp as int);
    }
    let day: u32 = (doy - (153 * mp + 2) / 5 + 1) as u32;
    let month: u32 = if mp < 10 {
        (mp + 3) as u32
    } else {
        (mp - 9) as u32
    };
    let year: i64 = if month <= 2 {
        y + 1
    } else {
        y
    };
    (year, month, day)
}

/// A day from 1970 on is in a year from 1970 on.
proof fn lemma_year_from_1970(y: int, m: int, d: int)
    requires
        is_date(y, m, d),
        day_number(y, m, d) >= 0,
    ensures
        y >= 1970,
{
    if y < 1970 {
        lemma_months(y);
        lemma_years_grow(y, 1970);
        assert(days_before_year(1970) == 719528);
    }
}

/// A moment in the calendar: year, month, day, hour, minute, second.
pub type Moment = (i64, u32, u32, u32, u32, u32);

/// Splits a count of seconds since 1970 into a calendar date and a time.
pub fn civil_from_epoch(epoch_secs: u64) -> (r: Moment)
    ensures
        is_date(r.0 as int, r.1 as int, r.2 as int),
        r.3 < 24,
        r.4 < 60,
        r.5 < 60,
        epoch_secs as int == day_number(r.0 as int, r.1 as int, r.2 as int) * 86400 + r.3 * 3600
            + r.4 * 60 + r.5,
        r.0 >= 1970,
{
    let days: i64 = (epoch_secs / 86_400) as i64;
    let secs_of_day: u32 = (epoch_secs % 86_400) as u32;
    let hour: u32 = secs_of_day / 3600;
    let min: u32 = (secs_of_day % 3600) / 60;
    let sec: u32 = secs_of_day % 60;
    let (year, month, day) = date_from_days(days);
    proof {
        lemma_year_from_1970(year as int, month as int, day as int);
    }
    (year, month, day, hour, min, sec)
}

// ---------------------------------------------------------------------------
// Time stamps
// ---------------------------------------------------------------------------

/// The platform's breakdown of a moment into local time, or the calendar's in
/// universal time where the platform has none.
pub fn broken_down(epoch_secs: u64, local: Option<Moment>) -> (r: Moment)
    ensures
        local matches Some(m) ==> r == m,
        local is None ==> is_date(r.0 as int, r.1 as int, r.2 as int) && r.3 < 24 && r.4 < 60 && r.5
            < 60 && epoch_secs as int == day_number(r.0 as int, r.1 as int, r.2 as int) * 86400
            + r.3 * 3600 + r.4 * 60 + r.5 && r.0 >= 1970,
{
    match local {
        Some(m) => m,
        None => civil_from_epoch(epoch_secs),
    }
}

/// A moment as text, with the given separators.
pub open spec fn stamp_text(m: Moment, middle: Seq<char>, colon: Seq<char>) -> Seq<char> {
    padded(m.0 as int, 4) + "-"@ + padded(m.1 as int, 2) + "-"@ + padded(m.2 as int, 2) + middle
        + padded(m.3 as int, 2) + colon + padded(m.4 as int, 2) + colon + padded(m.5 as int, 2)
}

fn stamp(m: Moment, middle: &str, colon: &str) -> (r: String)
    ensures
        r@ == stamp_text(m, middle@, colon@),
{
    let mut s: String = String::new();
    push_padded(&mut s, m.0, 4);
    s.append("-");
    push_padded(&mut s, m.1 as i64, 2);
    s.append("-");
    push_padded(&mut s, m.2 as i64, 2);
    s.append(middle);
    push_padded(&mut s, m.3 as i64, 2);
    s.append(colon);
    push_padded(&mut s, m.4 as i64, 2);
    s.append(colon);
    push_padded(&mut s, m.5 as i64, 2);
    assert(s@ =~= stamp_text(m, middle@, colon@));
    s
}

/// The stamp of a file name, `YYYY-MM-DD_HH-MM-SS`, for a moment broken down.
pub fn file_stamp(m: Moment) -> (r: String)
    ensures
        r@ == stamp_text(m, "_"@, "-"@),
{
    stamp(m, "_", "-")
}

/// The stamp of a file name, `YYYY-MM-DD_HH-MM-SS`, in local time.
pub fn local_timestamp(epoch_secs: u64, local: Option<Moment>) -> (r: String)
    ensures
        local matches Some(m) ==> r@ == stamp_text(m, "_"@, "-"@),
        local is None ==> exists|m: Moment|
            r@ == #[trigger] stamp_text(m, "_"@, "-"@) && is_date(
                m.0 as int,
                m.1 as int,
                m.2 as int,
            ) && m.3 < 24 && m.4 < 60 && m.5 < 60 && epoch_secs as int == day_number(
                m.0 as int,
                m.1 as int,
                m.2 as int,
            ) * 86400 + m.3 * 3600 + m.4 * 60 + m.5,
{
    file_stamp(broken_down(epoch_secs, local))
}

/// The time in the head of the log, `YYYY-MM-DD HH:MM:SS`, in local time.
pub fn human_timestamp(epoch_secs: u64, local: Option<Moment>) -> (r: String)
    ensures
        local matches Some(m) ==> r@ == stamp_text(m, " "@, ":"@),
        local is None ==> exists|m: Moment|
            r@ == #[trigger] stamp_text(m, " "@, ":"@) && is_date(
                m.0 as int,
                m.1 as int,
                m.2 as int,
            ) && m.3 < 24 && m.4 < 60 && m.5 < 60 && epoch_secs as int == day_number(
                m.0 as int,
                m.1 as int,
                m.2 as int,
            ) * 86400 + m.3 * 3600 + m.4 * 60 + m.5,
{
    stamp(broken_down(epoch_secs, local), " ", ":")
}

/// The characters of a padded number: digits, or the minus sign.
proof fn lemma_padded_chars(n: int, w: nat)
    ensures
        forall|i: int|
            0 <= i < padded(n, w).len() ==> is_digit(#[trigger] padded(n, w)[i]) || padded(n, w)[i]
                == '-',
{
    let m = if n < 0 {
        (-n) as nat
    } else {
        n as nat
    };
    lemma_decimal_nat(m);
}

proof fn lemma_padded_len(n: int)
    ensures
        0 <= n < 100 ==> padded(n, 2).len() == 2,
        0 <= n < 10000 ==> padded(n, 4).len() == 4,
{
    if 0 <= n < 10000 {
        lemma_decimal_len(n as nat);
    }
}

/// A file stamp never holds a colon, and for a year of four digits it is 19
/// characters long.
pub proof fn law_file_stamp_shape(m: Moment)
    ensures
        forall|i: int|
            0 <= i < stamp_text(m, "_"@, "-"@).len() ==> (#[trigger] stamp_text(
                m,
                "_"@,
                "-"@,
            )[i]) != ':',
        0 <= m.0 < 10000 && m.1 < 100 && m.2 < 100 && m.3 < 100 && m.4 < 100 && m.5 < 100
            ==> stamp_text(m, "_"@, "-"@).len() == 19,
{
    reveal_strlit("_");
    reveal_strlit("-");
    lemma_padded_chars(m.0 as int, 4);
    lemma_padded_chars(m.1 as int, 2);
    lemma_padded_chars(m.2 as int, 2);
    lemma_padded_chars(m.3 as int, 2);
    lemma_padded_chars(m.4 as int, 2);
    lemma_padded_chars(m.5 as int, 2);
    lemma_padded_len(m.0 as int);
    lemma_padded_len(m.1 as int);
    lemma_padded_len(m.2 as int);
    lemma_padded_len(m.3 as int);
    lemma_padded_len(m.4 as int);
    lemma_padded_len(m.5 as int);
}

// ---------------------------------------------------------------------------
// Files
// ---------------------------------------------------------------------------

/// A path without slashes and `.` components at its end; the root stays.
pub open spec fn trimmed_path(s: Seq<char>) -> Seq<char>
    decreases s.len(),
{
    if s.len() > 1 && (s.last() == '/' || (s.last() == '.' && s[s.len() - 2] == '/')) {
        trimmed_path(s.drop_last())
    } else {
        s
    }
}

/// The length of a path up to and with its last slash.
pub open spec fn dir_end(s: Seq<char>) -> int
    decreases s.len(),
{
    if s.len() == 0 {
        0
    } else if s.last() == '/' {
        s.len() as int
    } else {
        dir_end(s.drop_last())
    }
}

/// The directory that a path lies in, empty for a bare name; none for the root
/// and for an empty path.
pub open spec fn parent_of(s: Seq<char>) -> Option<Seq<char>> {
    let t = trimmed_path(s);
    if t.len() == 0 || t == seq!['/'] {
        None
    } else {
        Some(trimmed_path(t.take(dir_end(t))))
    }
}

fn trimmed_path_len(v: &Vec<char>, n: usize) -> (r: usize)
    requires
        n <= v@.len(),
    ensures
        r <= n,
        trimmed_path(v@.take(n as int)) == v@.take(r as int),
{
    let mut i: usize = n;
    while i > 1 && (v[i - 1] == '/' || (v[i - 1] == '.' && v[i - 2] == '/'))
        invariant
            i <= n <= v@.len(),
            trimmed_path(v@.take(n as int)) == trimmed_path(v@.take(i as int)),
        decreases i,
    {
        assert(v@.take(i as int).drop_last() =~= v@.take(i - 1));
        i -= 1;
    }
    i
}

/// The directory that a path lies in, empty for a bare name; none for the root
/// and for an empty path.
pub fn parent_dir(path: &str) -> (r: Option<String>)
    ensures
        opt_text(r) == parent_of(path@),
{
    let v = to_chars(path);
    assert(v@.take(v@.len() as int) =~= v@);
    let n = trimmed_path_len(&v, v.len());
    let ghost t = v@.take(n as int);
    if n == 0 {
        return None;
    }
    if n == 1 && v[0] == '/' {
        assert(t =~= seq!['/']);
        return None;
    }
    assert(n == 1 ==> t[0] != '/');
    let mut i: usize = n;
    while i > 0 && v[i - 1] != '/'
        invariant
            i <= n <= v@.len(),
            t == v@.take(n as int),
            dir_end(t) == dir_end(v@.take(i as int)),
        decreases i,
    {
        assert(v@.take(i as int).drop_last() =~= v@.take(i - 1));
        i -= 1;
    }
    assert(t.take(i as int) =~= v@.take(i as int));
    let k = trimmed_path_len(&v, i);
    assert(v@.subrange(0, k as int) =~= v@.take(k as int));
    Some(from_range(&v, 0, k))
}

/// The directory of the configuration: that of the configuration file where one
/// is named, else below the configuration home, else below the home directory.
pub open spec fn base_dir(
    config_parent: Option<Seq<char>>,
    config_home: Option<Seq<char>>,
    home: Option<Seq<char>>,
) -> Option<Seq<char>> {
    if config_parent matches Some(p) && p.len() > 0 {
        Some(config_parent->0)
    } else if config_home matches Some(x) && x.len() > 0 {
        Some(path_in(config_home->0, "tuxinjector"@))
    } else if home matches Some(h) && h.len() > 0 {
        Some(path_in(home->0, ".config/tuxinjector"@))
    } else {
        None
    }
}

pub open spec fn opt_text(s: Option<String>) -> Option<Seq<char>> {
    match s {
        Some(t) => Some(t@),
        None => None,
    }
}

/// The directory of the configuration. `config_parent` is the directory of the
/// configuration file that the environment names.
pub fn config_base_dir(
    config_parent: Option<String>,
    config_home: Option<String>,
    home: Option<String>,
) -> (r: Option<String>)
    ensures
        opt_text(r) == base_dir(opt_text(config_parent), opt_text(config_home), opt_text(home)),
{
    if let Some(p) = config_parent {
        if !p.as_str().is_empty() {
            return Some(p);
        }
    }
    if let Some(x) = config_home {
        if !x.as_str().is_empty() {
            return Some(join_path(x.as_str(), "tuxinjector"));
        }
    }
    if let Some(h) = home {
        if !h.as_str().is_empty() {
            return Some(join_path(h.as_str(), ".config/tuxinjector"));
        }
    }
    None
}

/// The directory of the logs.
pub fn logs_dir(
    config_parent: Option<String>,
    config_home: Option<String>,
    home: Option<String>,
) -> (r: Option<String>)
    ensures
        r is Some <==> base_dir(
            opt_text(config_parent),
            opt_text(config_home),
            opt_text(home),
        ) is Some,
        r matches Some(d) ==> d@ == path_in(
            base_dir(opt_text(config_parent), opt_text(config_home), opt_text(home))->0,
            "logs"@,
        ),
{
    match config_base_dir(config_parent, config_home, home) {
        Some(b) => Some(join_path(b.as_str(), "logs")),
        None => None,
    }
}

/// The name of a rotated log: the stamp, and a number from the second on.
pub open spec fn log_name(stamp: Seq<char>, n: nat) -> Seq<char> {
    if n == 0 {
        stamp + ".log"@
    } else {
        stamp + "_"@ + decimal_nat(n) + ".log"@
    }
}

/// The name of a rotated log.
pub fn log_file_name(stamp: &str, n: u64) -> (r: String)
    ensures
        r@ == log_name(stamp@, n as nat),
{
    let mut s: String = stamp.to_owned();
    if n > 0 {
        s.append("_");
        push_nat(&mut s, n);
    }
    s.append(".log");
    s
}

/// How many names are tried for a rotated log.
pub const LOG_NAMES: usize = 1000;

/// The name for a rotated log: the first of the tried ones that is free, else
/// one with the time. `taken` says of each tried name whether it exists.
pub open spec fn free_log_name(stamp: Seq<char>, taken: Seq<bool>, now_secs: nat) -> Seq<char> {
    if exists|n: int| 0 <= n < taken.len() && !#[trigger] taken[n] {
        let n = first_free(taken, 0);
        log_name(stamp, n as nat)
    } else {
        stamp + "_"@ + decimal_nat(now_secs) + ".log"@
    }
}

pub open spec fn first_free(taken: Seq<bool>, i: int) -> int
    decreases taken.len() - i,
{
    if 0 <= i < taken.len() && taken[i] {
        first_free(taken, i + 1)
    } else {
        i
    }
}

/// The name for a rotated log inside its directory.
pub fn unique_path(stamp: &str, taken: &Vec<bool>, now_secs: u64) -> (r: String)
    requires
        taken@.len() == LOG_NAMES,
    ensures
        r@ == free_log_name(stamp@, taken@, now_secs as nat),
{
    let mut n: usize = 0;
    while n < taken.len()
        invariant
            n <= taken@.len(),
            first_free(taken@, 0) == first_free(taken@, n as int),
            forall|k: int| 0 <= k < n ==> #[trigger] taken@[k],
        decreases taken.len() - n,
    {
        if !taken[n] {
            return log_file_name(stamp, n as u64);
        }
        n += 1;
    }
    let mut s: String = stamp.to_owned();
    s.append("_");
    push_nat(&mut s, now_secs);
    s.append(".log");
    s
}

/// A log that was moved away is not moved again: the first shutdown does the
/// work, later ones nothing.
pub fn begin_rotation(rotated: &mut bool) -> (r: bool)
    ensures
        *final(rotated),
        r == !*old(rotated),
{
    let first = !*rotated;
    *rotated = true;
    first
}

// ---------------------------------------------------------------------------
// The id of a configuration
// ---------------------------------------------------------------------------

/// The FNV-1a hash of 64 bits.
pub open spec fn fnv(data: Seq<u8>) -> u64
    decreases data.len(),
{
    if data.len() == 0 {
        0xcbf2_9ce4_8422_2325
    } else {
        (fnv(data.drop_last()) ^ data.last() as u64).wrapping_mul(0x0000_0100_0000_01b3)
    }
}

pub fn fnv1a64(data: &[u8]) -> (r: u64)
    ensures
        r == fnv(data@),
{
    let mut hash: u64 = 0xcbf2_9ce4_8422_2325;
    let mut i: usize = 0;
    while i < data.len()
        invariant
            i <= data@.len(),
            hash == fnv(data@.take(i as int)),
        decreases data.len() - i,
    {
        let x: u64 = hash ^ data[i] as u64;
        hash = x.wrapping_mul(0x0000_0100_0000_01b3);
        i += 1;
        assert(data@.take(i as int).drop_last() == data@.take(i - 1));
    }
    assert(data@.take(i as int) == data@);
    hash
}

/// The character of a digit to base 62: digits, capitals, small letters.
pub open spec fn digit62(d: int) -> char {
    if d < 10 {
        (48 + d) as char
    } else if d < 36 {
        (55 + d) as char
    } else {
        (61 + d) as char
    }
}

/// The low `n` digits of `v` to base 62.
pub open spec fn base62_text(v: nat, n: nat) -> Seq<char>
    decreases n,
{
    if n == 0 {
        Seq::empty()
    } else {
        base62_text(v / 62, (n - 1) as nat).push(digit62((v % 62) as int))
    }
}

fn char62(d: u64) -> (r: char)
    requires
        d < 62,
    ensures
        r == digit62(d as int),
{
    if d < 10 {
        (48u8 + d as u8) as char
    } else if d < 36 {
        (55u8 + d as u8) as char
    } else {
        (61u8 + d as u8) as char
    }
}

fn push62(out: &mut String, v: u64, n: usize)
    ensures
        final(out)@ == old(out)@ + base62_text(v as nat, n as nat),
    decreases n,
{
    if n > 0 {
        push62(out, v / 62, n - 1);
        out.push(char62(v % 62));
    }
    assert(out@ == old(out)@ + base62_text(v as nat, n as nat));
}

/// The low digits of `v` to base 62, exactly `n` of them.
pub fn base62(v: u64, n: usize) -> (r: String)
    ensures
        r@ == base62_text(v as nat, n as nat),
{
    let mut out: String = String::new();
    push62(&mut out, v, n);
    assert(out@ == base62_text(v as nat, n as nat));
    out
}

/// The id of a configuration that is written as `json`.
pub open spec fn id_text(json: Seq<char>) -> Seq<char> {
    base62_text(fnv(encode_utf8(json)) as nat, 8)
}

/// The id of a configuration, from its JSON text: eight characters that are the
/// same for the same settings.
pub fn config_id(json: &str) -> (r: String)
    ensures
        r@ == id_text(json@),
{
    base62(fnv1a64(json.as_bytes()), 8)
}

/// A letter or digit of ASCII.
pub open spec fn is_alphanumeric(c: char) -> bool {
    '0' <= c <= '9' || 'A' <= c <= 'Z' || 'a' <= c <= 'z'
}

/// A base-62 text has exactly the asked-for number of characters, and they are
/// letters and digits of ASCII.
pub proof fn law_base62_shape(v: nat, n: nat)
    ensures
        base62_text(v, n).len() == n,
        forall|i: int| 0 <= i < n ==> is_alphanumeric(#[trigger] base62_text(v, n)[i]),
    decreases n,
{
    if n > 0 {
        law_base62_shape(v / 62, (n - 1) as nat);
    }
}

/// 62 to the power `n`.
pub open spec fn pow62(n: nat) -> nat
    decreases n,
{
    if n == 0 {
        1
    } else {
        62 * pow62((n - 1) as nat)
    }
}

/// Numbers that differ in their low digits have different texts: the text of
/// `n` digits tells the number below 62 to the power `n`.
pub proof fn law_base62_is_injective(v: nat, w: nat, n: nat)
    requires
        v < pow62(n),
        w < pow62(n),
        base62_text(v, n) == base62_text(w, n),
    ensures
        v == w,
    decreases n,
{
    if n > 0 {
        let a = base62_text(v, n);
        let b = base62_text(w, n);
        law_base62_shape(v / 62, (n - 1) as nat);
        law_base62_shape(w / 62, (n - 1) as nat);
        assert(a.last() == b.last());
        assert(a.drop_last() == base62_text(v / 62, (n - 1) as nat));
        assert(b.drop_last() == base62_text(w / 62, (n - 1) as nat));
        assert(v % 62 == w % 62);
        law_base62_is_injective(v / 62, w / 62, (n - 1) as nat);
    }
}

/// The id of a configuration has eight letters and digits.
pub proof fn law_config_id_shape(json: Seq<char>)
    ensures
        id_text(json).len() == 8,
        forall|i: int| 0 <= i < 8 ==> is_alphanumeric(#[trigger] id_text(json)[i]),
{
    law_base62_shape(fnv(encode_utf8(json)) as nat, 8);
}

/// Where a configuration is stored in a registry: its id below the registry's
/// address; nowhere without an address.
pub open spec fn registry_place(base: Seq<char>, id: Seq<char>) -> Option<Seq<char>> {
    let b = strip_back(trimmed(base), '/');
    if b.len() == 0 {
        None
    } else {
        Some(b + "/"@ + id)
    }
}

pub fn registry_url(base: &str, id: &str) -> (r: Option<String>)
    ensures
        opt_text(r) == registry_place(base@, id@),
{
    let v = to_chars(base);
    let (a, b) = trim_bounds(&v, 0, v.len());
    let end: usize = strip_bound(&v, a, b, '/');
    assert(v@.subrange(0, v@.len() as int) == v@);
    if a == end {
        return None;
    }
    let mut s = from_range(&v, a, end);
    s.append("/");
    s.append(id);
    Some(s)
}

// ---------------------------------------------------------------------------
// Laws
// ---------------------------------------------------------------------------

/// The calendar: a year in four is a leap year, but not at the turn of a century
/// unless 400 divides the year; February takes the day. Days are counted on from
/// the first of January 1970, across the ends of months and years.
pub proof fn law_calendar(y: int, m: int, d: int)
    ensures
        is_leap(4 * y + 1) == false && is_leap(4 * y + 2) == false && is_leap(4 * y + 3) == false,
        is_leap(400 * y) && !is_leap(400 * y + 100) && is_leap(400 * y + 104),
        days_in_month(y, 2) == if is_leap(y) {
            29int
        } else {
            28
        },
        days_in_month(y, 1) == 31 && days_in_month(y, 4) == 30 && days_in_month(y, 8) == 31
            && days_in_month(y, 9) == 30 && days_in_month(y, 12) == 31,
        day_number(1970, 1, 1) == 0,
        is_date(y, m, d) && is_date(y, m, d + 1) ==> day_number(y, m, d + 1) == day_number(
            y,
            m,
            d,
        ) + 1,
        1 <= m < 12 ==> day_number(y, m + 1, 1) == day_number(y, m, days_in_month(y, m)) + 1,
        day_number(y + 1, 1, 1) == day_number(y, 12, 31) + 1,
{
    assert(days_before_year(1970) == 719528);
    law_years_have_their_days(y);
    lemma_months(y);
}

proof fn lemma_padded_value(n: int, w: nat)
    requires
        n >= 0,
    ensures
        digits_value(padded(n, w)) == n,
        forall|i: int| 0 <= i < padded(n, w).len() ==> is_digit(#[trigger] padded(n, w)[i]),
{
    let d = decimal_nat(n as nat);
    lemma_decimal_nat(n as nat);
    let k: nat = if d.len() < w {
        (w - d.len()) as nat
    } else {
        0
    };
    lemma_zeros_in_front(k, d);
    assert(padded(n, w) =~= repeat('0', k) + d);
}

proof fn lemma_zeros_in_front(k: nat, d: Seq<char>)
    ensures
        digits_value(repeat('0', k) + d) == digits_value(d),
    decreases k + d.len(),
{
    let s = repeat('0', k) + d;
    if d.len() > 0 {
        lemma_zeros_in_front(k, d.drop_last());
        assert(s.drop_last() =~= repeat('0', k) + d.drop_last());
    } else if k > 0 {
        lemma_zeros_in_front((k - 1) as nat, d);
        assert(s.drop_last() =~= repeat('0', (k - 1) as nat) + d);
    } else {
        assert(s.len() == 0);
    }
}

/// A stamp holds the year, the month, the day, the hour, the minute and the second
/// in this order, with as many digits each as make the stamps of later moments
/// sort behind.
pub proof fn law_stamps_hold_the_moment(m: Moment)
    requires
        0 <= m.0 < 10000,
        m.1 < 100,
        m.2 < 100,
        m.3 < 100,
        m.4 < 100,
        m.5 < 100,
    ensures
        ({
            let s = stamp_text(m, "_"@, "-"@);
            &&& s.len() == 19
            &&& digits_value(s.subrange(0, 4)) == m.0
            &&& digits_value(s.subrange(5, 7)) == m.1
            &&& digits_value(s.subrange(8, 10)) == m.2
            &&& digits_value(s.subrange(11, 13)) == m.3
            &&& digits_value(s.subrange(14, 16)) == m.4
            &&& digits_value(s.subrange(17, 19)) == m.5
            &&& s[4] == '-' && s[7] == '-' && s[10] == '_' && s[13] == '-' && s[16] == '-'
        }),
        ({
            let s = stamp_text(m, " "@, ":"@);
            &&& s.len() == 19
            &&& s.subrange(0, 10) == stamp_text(m, "_"@, "-"@).subrange(0, 10)
            &&& s[10] == ' ' && s[13] == ':' && s[16] == ':'
            &&& digits_value(s.subrange(11, 13)) == m.3
            &&& digits_value(s.subrange(14, 16)) == m.4
            &&& digits_value(s.subrange(17, 19)) == m.5
        }),
{
    reveal_strlit("_");
    reveal_strlit("-");
    reveal_strlit(" ");
    reveal_strlit(":");
    lemma_padded_len(m.0 as int);
    lemma_padded_len(m.1 as int);
    lemma_padded_len(m.2 as int);
    lemma_padded_len(m.3 as int);
    lemma_padded_len(m.4 as int);
    lemma_padded_len(m.5 as int);
    lemma_padded_value(m.0 as int, 4);
    lemma_padded_value(m.1 as int, 2);
    lemma_padded_value(m.2 as int, 2);
    lemma_padded_value(m.3 as int, 2);
    lemma_padded_value(m.4 as int, 2);
    lemma_padded_value(m.5 as int, 2);
    let s = stamp_text(m, "_"@, "-"@);
    let t = stamp_text(m, " "@, ":"@);
    assert(s.subrange(0, 4) =~= padded(m.0 as int, 4));
    assert(s.subrange(5, 7) =~= padded(m.1 as int, 2));
    assert(s.subrange(8, 10) =~= padded(m.2 as int, 2));
    assert(s.subrange(11, 13) =~= padded(m.3 as int, 2));
    assert(s.subrange(14, 16) =~= padded(m.4 as int, 2));
    assert(s.subrange(17, 19) =~= padded(m.5 as int, 2));
    assert(t.subrange(11, 13) =~= padded(m.3 as int, 2));
    assert(t.subrange(14, 16) =~= padded(m.4 as int, 2));
    assert(t.subrange(17, 19) =~= padded(m.5 as int, 2));
    assert(t.subrange(0, 10) =~= s.subrange(0, 10));
}

proof fn lemma_dir_end(dir: Seq<char>, name: Seq<char>)
    requires
        dir.len() == 0 || dir.last() == '/',
        forall|i: int| 0 <= i < name.len() ==> #[trigger] name[i] != '/',
    ensures
        dir_end(dir + name) == dir.len(),
    decreases name.len(),
{
    let s = dir + name;
    if name.len() > 0 {
        assert(s.last() == name.last());
        assert(s.drop_last() =~= dir + name.drop_last());
        lemma_dir_end(dir, name.drop_last());
    } else {
        assert(s =~= dir);
    }
}

/// A file lies in the directory in front of its name; one in the root lies there,
/// a bare name in no directory, and the root in none.
pub proof fn law_files_lie_in_their_directory(dir: Seq<char>, name: Seq<char>)
    requires
        name.len() > 0,
        forall|i: int| 0 <= i < name.len() ==> #[trigger] name[i] != '/',
        name.len() > 1 || name[0] != '.',
        dir.len() > 0,
        dir.last() != '/',
        dir.last() != '.',
    ensures
        parent_of(dir + seq!['/'] + name) == Some(dir),
        parent_of(seq!['/'] + name) == Some(seq!['/']),
        parent_of(name) == Some(Seq::<char>::empty()),
        parent_of(seq!['/']) is None,
        parent_of(Seq::empty()) is None,
{
    let front = dir + seq!['/'];
    let s = front + name;
    assert(s.last() == name.last());
    if name.len() > 1 {
        assert(s[s.len() - 2] == name[name.len() - 2]);
    }
    assert(trimmed_path(s) == s);
    lemma_dir_end(front, name);
    assert(s.take(front.len() as int) =~= front);
    assert(front.drop_last() =~= dir);
    assert(trimmed_path(dir) == dir);
    let r = seq!['/'] + name;
    assert(r.last() == name.last());
    if name.len() > 1 {
        assert(r[r.len() - 2] == name[name.len() - 2]);
    }
    assert(trimmed_path(r) == r);
    lemma_dir_end(seq!['/'], name);
    assert(r.take(1) =~= seq!['/']);
    assert(trimmed_path(name) == name);
    lemma_dir_end(Seq::empty(), name);
    assert(Seq::<char>::empty() + name =~= name);
    assert(name.take(0) =~= Seq::<char>::empty());
    assert(name != seq!['/']) by {
        assert(name[0] != '/');
    }
}

/// The configuration is where the environment puts it: beside the file that it
/// names, else in its configuration home, else in the home directory's.
pub proof fn law_configuration_places(parent: Seq<char>, config: Seq<char>, home: Seq<char>)
    requires
        parent.len() > 0,
        config.len() > 0,
        home.len() > 0,
        config.last() != '/',
        home.last() != '/',
    ensures
        base_dir(Some(parent), Some(config), Some(home)) == Some(parent),
        base_dir(None, Some(config), Some(home)) == Some(config + "/"@ + "tuxinjector"@),
        base_dir(Some(Seq::empty()), Some(config), None) == Some(config + "/"@ + "tuxinjector"@),
        base_dir(None, None, Some(home)) == Some(home + "/"@ + ".config/tuxinjector"@),
        base_dir(None, Some(Seq::empty()), Some(home)) == Some(
            home + "/"@ + ".config/tuxinjector"@,
        ),
        base_dir(None, None, None) is None,
{
    reveal_strlit("tuxinjector");
    reveal_strlit(".config/tuxinjector");
    reveal_strlit("/");
    assert("tuxinjector"@.subrange(0, 1)[0] == 't');
    assert(".config/tuxinjector"@.subrange(0, 1)[0] == '.');
    assert("/"@[0] == '/');
}

/// The name of a rotated log is the first of the numbered ones that is free, and
/// names of different numbers differ.
pub proof fn law_logs_keep_their_names(
    stamp: Seq<char>,
    taken: Seq<bool>,
    now_secs: nat,
    n: int,
    a: nat,
    b: nat,
)
    ensures
        0 <= n < taken.len() && !taken[n] && (forall|k: int| 0 <= k < n ==> #[trigger] taken[k])
            ==> free_log_name(stamp, taken, now_secs) == log_name(stamp, n as nat),
        log_name(stamp, 0) == stamp + ".log"@,
        log_name(stamp, a) == log_name(stamp, b) ==> a == b,
{
    if 0 <= n < taken.len() && !taken[n] && (forall|k: int| 0 <= k < n ==> #[trigger] taken[k]) {
        lemma_first_free(taken, 0, n);
    }
    if log_name(stamp, a) == log_name(stamp, b) {
        reveal_strlit("_");
        reveal_strlit(".log");
        let (x, y) = (log_name(stamp, a), log_name(stamp, b));
        let i = stamp.len() as int;
        lemma_decimal_nat(a);
        lemma_decimal_nat(b);
        if a > 0 && b > 0 {
            assert(x.subrange(i + 1, x.len() - 4) =~= decimal_nat(a));
            assert(y.subrange(i + 1, y.len() - 4) =~= decimal_nat(b));
        } else if a > 0 {
            assert(x[i] == '_' && y[i] == '.');
        } else if b > 0 {
            assert(y[i] == '_' && x[i] == '.');
        }
    }
}

proof fn lemma_first_free(taken: Seq<bool>, i: int, n: int)
    requires
        0 <= i <= n < taken.len(),
        !taken[n],
        forall|k: int| i <= k < n ==> #[trigger] taken[k],
    ensures
        first_free(taken, i) == n,
    decreases n - i,
{
    if i < n {
        lemma_first_free(taken, i + 1, n);
    }
}

/// The digits of an id are the ten digits, then the capitals, then the small
/// letters, the last digit counting ones.
pub proof fn law_id_digits(v: nat, n: nat)
    ensures
        digit62(0) == '0' && digit62(9) == '9' && digit62(10) == 'A' && digit62(35) == 'Z'
            && digit62(36) == 'a' && digit62(61) == 'z',
        n > 0 ==> base62_text(62 * v + 10, n).last() == 'A',
        n > 1 ==> base62_text(62 * v + 10, n).drop_last() == base62_text(v, (n - 1) as nat),
{
    assert((62 * v + 10) / 62 == v && (62 * v + 10) % 62 == 10) by (nonlinear_arith);
    if n > 0 {
        assert(base62_text(62 * v + 10, n).drop_last() =~= base62_text(v, (n - 1) as nat));
    }
}

/// An id is put behind the registry's address with one slash; without an address
/// there is no place for it.
pub proof fn law_registry_places(base: Seq<char>, id: Seq<char>)
    requires
        base.len() > 0,
        !crate::text::is_white_space(base[0]),
        !crate::text::is_white_space(base.last()),
        base.last() != '/',
    ensures
        registry_place(base, id) == Some(base + "/"@ + id),
        registry_place(base.push('/'), id) == Some(base + "/"@ + id),
        registry_place(Seq::empty(), id) is None,
{
    assert(trimmed(base) == base);
    assert(strip_back(base, '/') == base);
    let s = base.push('/');
    assert(s[0] == base[0]);
    assert(trimmed(s) == s);
    assert(s.drop_last() =~= base);
    assert(strip_back(s, '/') == strip_back(base, '/'));
}

/// Where every name is taken, the time makes a new one; a log lies in the
/// configuration's directory of logs.
pub proof fn law_logs_have_a_place(
    stamp: Seq<char>,
    taken: Seq<bool>,
    now_secs: nat,
    parent: Option<String>,
    config: Option<String>,
    home: Option<String>,
    r: Option<String>,
)
    requires
        call_ensures(logs_dir, (parent, config, home), r),
    ensures
        (forall|n: int| 0 <= n < taken.len() ==> #[trigger] taken[n]) ==> free_log_name(
            stamp,
            taken,
            now_secs,
        ) == stamp + "_"@ + decimal_nat(now_secs) + ".log"@,
        parent matches Some(p) ==> p@.len() > 0 ==> p@.last() != '/' ==> r is Some && r->0@ == p@
            + "/"@ + "logs"@,
        parent is None && config is None && home is None ==> r is None,
{
    reveal_strlit("logs");
    reveal_strlit("/");
    assert("logs"@[0] == 'l');
    assert("/"@[0] == '/');
}

/// The hash of no bytes is its basis; each byte more is mixed in and multiplied by
/// its prime, modulo two to the power of 64.
pub proof fn law_hash_goes_byte_by_byte(data: Seq<u8>, b: u8)
    ensures
        fnv(Seq::empty()) == 14695981039346656037u64,
        fnv(data.push(b)) as int == ((fnv(data) ^ b as u64) * 1099511628211) % 0x1_0000_0000_0000_0000,
{
    assert(data.push(b).drop_last() =~= data);
}

} // verus!
