//! Timestamps written as `YYYY-MM-DD`, `YYYY-MM-DD HH:MM` or
//! `YYYY-MM-DD HH:MM:SS` (a `T` may stand for the space, and a final `Z` is
//! allowed), read as whole seconds since 1970-01-01 00:00:00 UTC.
use vstd::prelude::*;
use vstd::string::StringSliceAdditionalSpecFns;

verus! {

pub open spec fn is_leap_year(y: int) -> bool {
    y % 4 == 0 && (y % 100 != 0 || y % 400 == 0)
}

pub open spec fn days_in_month(y: int, m: int) -> int {
    if m == 2 {
        if is_leap_year(y) {
            29
        } else {
            28
        }
    } else if m == 4 || m == 6 || m == 9 || m == 11 {
        30
    } else {
        31
    }
}

/// Days from 0000-01-01 to the first day of year `y`.
pub open spec fn days_before_year(y: int) -> int
    decreases y,
{
    if y <= 0 {
        0
    } else {
        days_before_year(y - 1) + if is_leap_year(y - 1) {
            366int
        } else {
            365int
        }
    }
}

/// Days in the months of year `y` that come before month `m`.
pub open spec fn days_before_month(y: int, m: int) -> int
    decreases m,
{
    if m <= 1 {
        0
    } else {
        days_before_month(y, m - 1) + days_in_month(y, m - 1)
    }
}

/// Seconds from 1970-01-01 00:00:00 to the given date and time of day.
pub open spec fn seconds_since_epoch(y: int, mo: int, d: int, h: int, mi: int, s: int) -> int {
    (days_before_year(y) - days_before_year(1970) + days_before_month(y, mo) + d - 1) * 86400
        + h * 3600 + mi * 60 + s
}

pub open spec fn is_digit(c: u8) -> bool {
    48 <= c <= 57
}

/// Whether `b[i]` and `b[i + 1]` are both decimal digits.
pub open spec fn pair_ok(b: Seq<u8>, i: int) -> bool {
    is_digit(b[i]) && is_digit(b[i + 1])
}

/// The two-digit number written at `b[i]`.
pub open spec fn pair_value(b: Seq<u8>, i: int) -> int {
    (b[i] - 48) * 10 + (b[i + 1] - 48)
}

/// Length of the text once an optional final `Z` is set aside.
pub open spec fn core_len(b: Seq<u8>) -> int {
    if b.len() > 0 && b.last() == 90 {
        b.len() - 1
    } else {
        b.len() as int
    }
}

/// `YYYY-MM-DD` at the start of `c`.
pub open spec fn date_shape(c: Seq<u8>) -> bool {
    c.len() >= 10 && pair_ok(c, 0) && pair_ok(c, 2) && c[4] == 45 && pair_ok(c, 5) && c[7] == 45
        && pair_ok(c, 8)
}

/// ` HH:MM` or `THH:MM` after the date.
pub open spec fn minutes_shape(c: Seq<u8>) -> bool {
    c.len() >= 16 && (c[10] == 32 || c[10] == 84) && pair_ok(c, 11) && c[13] == 58 && pair_ok(
        c,
        14,
    )
}

/// `:SS` after the minutes.
pub open spec fn seconds_shape(c: Seq<u8>) -> bool {
    c.len() >= 19 && c[16] == 58 && pair_ok(c, 17)
}

pub open spec fn well_shaped(c: Seq<u8>) -> bool {
    date_shape(c) && (c.len() == 10 || (c.len() == 16 && minutes_shape(c)) || (c.len() == 19
        && minutes_shape(c) && seconds_shape(c)))
}

/// The time that the text `b` denotes, or `None` when it is not a valid
/// timestamp (wrong layout, month or day out of range, hour over 23,
/// minute or second over 59).
pub open spec fn timestamp_of(b: Seq<u8>) -> Option<int> {
    let c = b.take(core_len(b));
    if !well_shaped(c) {
        None
    } else {
        let y = pair_value(c, 0) * 100 + pair_value(c, 2);
        let mo = pair_value(c, 5);
        let d = pair_value(c, 8);
        let h = if c.len() >= 16 {
            pair_value(c, 11)
        } else {
            0
        };
        let mi = if c.len() >= 16 {
            pair_value(c, 14)
        } else {
            0
        };
        let s = if c.len() == 19 {
            pair_value(c, 17)
        } else {
            0
        };
        if 1 <= mo <= 12 && 1 <= d <= days_in_month(y, mo) && h < 24 && mi < 60 && s < 60 {
            Some(seconds_since_epoch(y, mo, d, h, mi, s))
        } else {
            None
        }
    }
}

pub open spec fn as_int_option(o: Option<i64>) -> Option<int> {
    match o {
        Some(t) => Some(t as int),
        None => None,
    }
}

proof fn lemma_days_before_year_bounds(y: int)
    requires
        y >= 0,
    ensures
        365 * y <= days_before_year(y) <= 366 * y,
    decreases y,
{
    if y > 0 {
        lemma_days_before_year_bounds(y - 1);
    }
}

proof fn lemma_days_before_month_bounds(y: int, m: int)
    requires
        1 <= m <= 13,
    ensures
        0 <= days_before_month(y, m) <= 31 * (m - 1),
    decreases m,
{
    if m > 1 {
        lemma_days_before_month_bounds(y, m - 1);
    }
}

fn leap(y: i64) -> (r: bool)
    ensures
        r == is_leap_year(y as int),
{
    y % 4 == 0 && (y % 100 != 0 || y % 400 == 0)
}

fn month_length(y: i64, m: i64) -> (r: i64)
    ensures
        r == days_in_month(y as int, m as int),
{
    if m == 2 {
        if leap(y) {
            29
        } else {
            28
        }
    } else if m == 4 || m == 6 || m == 9 || m == 11 {
        30
    } else {
        31
    }
}

fn year_start(y: i64) -> (r: i64)
    requires
        0 <= y <= 9999,
    ensures
        r == days_before_year(y as int),
{
    let mut acc: i64 = 0;
    let mut k: i64 = 0;
    while k < y
        invariant
            0 <= k <= y <= 9999,
            acc == days_before_year(k as int),
        decreases y - k,
    {
        proof {
            lemma_days_before_year_bounds(k as int);
        }
        acc = acc + if leap(k) {
            366
        } else {
            365
        };
        k = k + 1;
    }
    acc
}

fn month_start(y: i64, m: i64) -> (r: i64)
    requires
        1 <= m <= 12,
    ensures
        r == days_before_month(y as int, m as int),
{
    let mut acc: i64 = 0;
    let mut k: i64 = 1;
    while k < m
        invariant
            1 <= k <= m <= 12,
            acc == days_before_month(y as int, k as int),
        decreases m - k,
    {
        proof {
            lemma_days_before_month_bounds(y as int, k as int);
        }
        acc = acc + month_length(y, k);
        k = k + 1;
    }
    acc
}

fn pair_at(b: &[u8], i: usize) -> (r: Option<i64>)
    requires
        i + 1 < b@.len(),
    ensures
        r is Some <==> pair_ok(b@, i as int),
        r is Some ==> r->Some_0 == pair_value(b@, i as int),
        r is Some ==> 0 <= r->Some_0 <= 99,
{
    let c0 = b[i];
    let c1 = b[i + 1];
    if 48 <= c0 && c0 <= 57 && 48 <= c1 && c1 <= 57 {
        Some((c0 as i64 - 48) * 10 + (c1 as i64 - 48))
    } else {
        None
    }
}

/// Reads a timestamp; `None` when `s` is not one.
pub fn parse_timestamp(s: &str) -> (r: Option<i64>)
    ensures
        as_int_option(r) == timestamp_of(s.spec_bytes()),
{
    let b = s.as_bytes();
    let ghost whole = b@;
    let mut n: usize = b.len();
    if n > 0 && b[n - 1] == 90 {
        n = n - 1;
    }
    let ghost c = whole.take(n as int);
    assert(n == core_len(whole));
    if !(n == 10 || n == 16 || n == 19) {
        return None;
    }
    assert(forall|k: int| 0 <= k < n ==> c[k] == whole[k]);
    let y_hi = match pair_at(b, 0) {
        Some(v) => v,
        None => return None,
    };
    let y_lo = match pair_at(b, 2) {
        Some(v) => v,
        None => return None,
    };
    if b[4] != 45 || b[7] != 45 {
        return None;
    }
    let mo = match pair_at(b, 5) {
        Some(v) => v,
        None => return None,
    };
    let d = match pair_at(b, 8) {
        Some(v) => v,
        None => return None,
    };
    let mut h: i64 = 0;
    let mut mi: i64 = 0;
    let mut sec: i64 = 0;
    if n >= 16 {
        if !(b[10] == 32 || b[10] == 84) || b[13] != 58 {
            return None;
        }
        h = match pair_at(b, 11) {
            Some(v) => v,
            None => return None,
        };
        mi = match pair_at(b, 14) {
            Some(v) => v,
            None => return None,
        };
    }
    if n == 19 {
        if b[16] != 58 {
            return None;
        }
        sec = match pair_at(b, 17) {
            Some(v) => v,
            None => return None,
        };
    }
    assert(well_shaped(c));
    let y = y_hi * 100 + y_lo;
    if mo < 1 || mo > 12 || d < 1 || d > month_length(y, mo) || h >= 24 || mi >= 60 || sec >= 60 {
        return None;
    }
    let epoch = year_start(1970);
    let ys = year_start(y);
    let ms = month_start(y, mo);
    proof {
        lemma_days_before_year_bounds(y as int);
        lemma_days_before_year_bounds(1970);
        lemma_days_before_month_bounds(y as int, mo as int);
    }
    let days = ys - epoch + ms + d - 1;
    assert(-1_000_000 <= days <= 4_000_000);
    assert(-1_000_000 * 86400 <= days * 86400 <= 4_000_000 * 86400) by (nonlinear_arith)
        requires
            -1_000_000 <= days <= 4_000_000,
    ;
    Some(days * 86400 + h * 3600 + mi * 60 + sec)
}

} // verus!
