//! Proleptic-Gregorian calendar arithmetic: converting a date and time of day
//! to seconds relative to 1970-01-01T00:00:00 UTC and back. The engine keeps
//! every timestamp in this one scale so that filtering and ordering compare
//! plain integers.

use vstd::prelude::*;

verus! {

/// How a parsed timestamp is to be read: an absolute UTC instant (trailing
/// `Z` marker), a zone-qualified local time already converted to UTC, or a
/// floating local time with no zone information. A floating time is compared
/// as if its wall-clock reading were UTC; this policy is deliberate and is
/// exercised by the tests.
#[derive(Clone, Copy, Debug, PartialEq, Eq, Structural)]
pub enum TimeKind {
    Utc,
    Zoned,
    Floating,
}

/// An instant in seconds relative to 1970-01-01T00:00:00 UTC (negative for
/// earlier instants). For a floating time, `seconds` holds the wall-clock
/// reading in the same scale.
#[derive(Clone, Copy, Debug, PartialEq, Eq, Structural)]
pub struct Timestamp {
    pub seconds: i64,
    pub kind: TimeKind,
}

pub open spec fn is_leap_year(y: int) -> bool {
    y % 4 == 0 && (y % 100 != 0 || y % 400 == 0)
}

pub open spec fn days_in_year(y: int) -> int {
    if is_leap_year(y) {
        366
    } else {
        365
    }
}

/// Days from the start of year 1 to the start of year `y`.
pub open spec fn spec_days_before_year(y: int) -> int
    recommends
        y >= 1,
    decreases y,
{
    if y <= 1 {
        0
    } else {
        spec_days_before_year(y - 1) + days_in_year(y - 1)
    }
}

pub open spec fn days_in_month(y: int, m: int) -> int
    recommends
        1 <= m <= 12,
{
    if m == 2 {
        if is_leap_year(y) {
            29
        } else {
            28
        }
    } else if m == 4 || m == 6 || m == 9 || m == 11 {
        30
    } else {
        31
    }
}

/// Days from the start of year `y` to the start of its month `m`.
pub open spec fn spec_days_before_month(y: int, m: int) -> int
    recommends
        1 <= m <= 13,
    decreases m,
{
    if m <= 1 {
        0
    } else {
        spec_days_before_month(y, m - 1) + days_in_month(y, m - 1)
    }
}

/// The date and time fields the engine accepts: four-digit years only.
pub open spec fn valid_date_fields(y: int, mo: int, d: int, h: int, mi: int, s: int) -> bool {
    &&& 1 <= y <= 9999
    &&& 1 <= mo <= 12
    &&& 1 <= d <= days_in_month(y, mo)
    &&& 0 <= h < 24
    &&& 0 <= mi < 60
    &&& 0 <= s < 60
}

/// Days from the start of year 1 to the given date.
pub open spec fn spec_civil_to_days(y: int, mo: int, d: int) -> int {
    spec_days_before_year(y) + spec_days_before_month(y, mo) + (d - 1)
}

/// Seconds relative to 1970-01-01T00:00:00 UTC; 719162 is the number of days
/// from year 1 to 1970.
pub open spec fn spec_fields_to_secs(y: int, mo: int, d: int, h: int, mi: int, s: int) -> int {
    (spec_civil_to_days(y, mo, d) - 719162) * 86400 + h * 3600 + mi * 60 + s
}

/// The band of seconds the engine works in: wide enough for every valid
/// date's seconds, and for such a value shifted by one zone offset.
pub open spec fn ts_in_range(s: int) -> bool {
    -62135596800 <= s <= 260000000000
}

pub proof fn lemma_days_before_year_bounds(y: int)
    requires
        y >= 1,
    ensures
        365 * (y - 1) <= spec_days_before_year(y) <= 366 * (y - 1),
    decreases y,
{
    if y > 1 {
        lemma_days_before_year_bounds(y - 1);
    }
}

pub proof fn lemma_days_before_month_bounds(y: int, m: int)
    requires
        1 <= m <= 13,
    ensures
        28 * (m - 1) <= spec_days_before_month(y, m) <= 31 * (m - 1),
    decreases m,
{
    if m > 1 {
        lemma_days_before_month_bounds(y, m - 1);
    }
}

/// Every valid date and time lands inside the engine's working band.
pub proof fn lemma_fields_secs_in_range(y: int, mo: int, d: int, h: int, mi: int, s: int)
    requires
        valid_date_fields(y, mo, d, h, mi, s),
    ensures
        ts_in_range(spec_fields_to_secs(y, mo, d, h, mi, s)),
        -62135596800 <= spec_fields_to_secs(y, mo, d, h, mi, s) <= 254100000000,
{
    lemma_days_before_year_bounds(y);
    lemma_days_before_month_bounds(y, mo);
}

/// Peels whole years off a day count: the year that day `days` (counted from
/// the start of year `y`) falls in, and the day's index within that year.
pub open spec fn year_split(days: int, y: int) -> (int, int)
    recommends
        days >= 0,
        y >= 1,
    decreases days
        when days >= 0
{
    if days < days_in_year(y) {
        (y, days)
    } else {
        year_split(days - days_in_year(y), y + 1)
    }
}

/// Peels whole months off a day count within year `y`, starting at month `m`.
pub open spec fn month_split(y: int, m: int, days: int) -> (int, int)
    recommends
        1 <= m <= 12,
        days >= 0,
    decreases 12 - m
        when m <= 12
{
    if m >= 12 || days < days_in_month(y, m) {
        (m, days)
    } else {
        month_split(y, m + 1, days - days_in_month(y, m))
    }
}

/// The date and time-of-day fields of an instant at or after the start of
/// year 1 (the engine's working band guarantees that).
pub open spec fn spec_secs_to_fields(s: int) -> (int, int, int, int, int, int)
    recommends
        s >= -62135596800,
{
    let total = s + 62135596800;
    let days = total / 86400;
    let rem = total % 86400;
    let yr = year_split(days, 1);
    let md = month_split(yr.0, 1, yr.1);
    (yr.0, md.0, md.1 + 1, rem / 3600, (rem / 60) % 60, rem % 60)
}

pub proof fn lemma_year_eq_months(y: int)
    ensures
        days_in_year(y) == spec_days_before_month(y, 13),
{
    reveal_with_fuel(spec_days_before_month, 13);
}

pub proof fn lemma_year_split_props(days: int, y: int)
    requires
        0 <= days,
        1 <= y,
    ensures
        ({
            let r = year_split(days, y);
            &&& y <= r.0
            &&& 0 <= r.1 < days_in_year(r.0)
            &&& spec_days_before_year(r.0) + r.1 == spec_days_before_year(y) + days
        }),
    decreases days,
{
    if days >= days_in_year(y) {
        lemma_year_split_props(days - days_in_year(y), y + 1);
    }
}

pub proof fn lemma_month_split_props(y: int, m: int, days: int)
    requires
        1 <= m <= 12,
        0 <= days,
        spec_days_before_month(y, m) + days < days_in_year(y),
    ensures
        ({
            let r = month_split(y, m, days);
            &&& 1 <= r.0 <= 12
            &&& 0 <= r.1 < days_in_month(y, r.0)
            &&& spec_days_before_month(y, r.0) + r.1 == spec_days_before_month(y, m) + days
        }),
    decreases 12 - m,
{
    lemma_year_eq_months(y);
    if m == 12 {
        assert(spec_days_before_month(y, 13) == spec_days_before_month(y, 12) + days_in_month(
            y,
            12,
        ));
    } else if days >= days_in_month(y, m) {
        lemma_month_split_props(y, m + 1, days - days_in_month(y, m));
    }
}

/// The two conversions agree: the fields read off an instant in the
/// engine's band denote exactly that instant, so a rendered start time
/// names the very second the selector compared.
pub proof fn lemma_secs_to_fields_roundtrip(s: int)
    requires
        -62135596800 <= s,
    ensures
        ({
            let f = spec_secs_to_fields(s);
            spec_fields_to_secs(f.0, f.1, f.2, f.3, f.4, f.5) == s
        }),
{
    let total = s + 62135596800;
    let days = total / 86400;
    let rem = total % 86400;
    vstd::arithmetic::div_mod::lemma_fundamental_div_mod(total, 86400);
    lemma_year_split_props(days, 1);
    let yr = year_split(days, 1);
    lemma_year_eq_months(yr.0);
    lemma_month_split_props(yr.0, 1, yr.1);
    let q = rem / 60;
    vstd::arithmetic::div_mod::lemma_fundamental_div_mod(rem, 60);
    vstd::arithmetic::div_mod::lemma_fundamental_div_mod(q, 60);
    vstd::arithmetic::div_mod::lemma_div_denominator(rem, 60, 60);
}

pub fn is_leap_year_x(y: u64) -> (r: bool)
    ensures
        r == is_leap_year(y as int),
{
    y % 4 == 0 && (y % 100 != 0 || y % 400 == 0)
}

pub fn days_in_month_x(y: u64, m: u64) -> (r: u64)
    requires
        1 <= m <= 12,
    ensures
        r == days_in_month(y as int, m as int),
{
    if m == 2 {
        if is_leap_year_x(y) {
            29
        } else {
            28
        }
    } else if m == 4 || m == 6 || m == 9 || m == 11 {
        30
    } else {
        31
    }
}

pub fn days_before_year_x(y: u64) -> (r: u64)
    requires
        1 <= y <= 10000,
    ensures
        r == spec_days_before_year(y as int),
{
    let mut acc: u64 = 0;
    let mut i: u64 = 1;
    while i < y
        invariant
            1 <= i <= y <= 10000,
            acc == spec_days_before_year(i as int),
            acc <= 366 * (i - 1),
        decreases y - i,
    {
        if is_leap_year_x(i) {
            acc = acc + 366;
        } else {
            acc = acc + 365;
        }
        i = i + 1;
    }
    acc
}

pub fn days_before_month_x(y: u64, m: u64) -> (r: u64)
    requires
        1 <= m <= 13,
    ensures
        r == spec_days_before_month(y as int, m as int),
{
    let mut acc: u64 = 0;
    let mut i: u64 = 1;
    while i < m
        invariant
            1 <= i <= m <= 13,
            acc == spec_days_before_month(y as int, i as int),
            acc <= 31 * (i - 1),
        decreases m - i,
    {
        acc = acc + days_in_month_x(y, i);
        i = i + 1;
    }
    acc
}

/// Seconds since the epoch of a valid date and time of day.
pub fn fields_to_secs(y: u64, mo: u64, d: u64, h: u64, mi: u64, s: u64) -> (r: i64)
    requires
        valid_date_fields(y as int, mo as int, d as int, h as int, mi as int, s as int),
    ensures
        r == spec_fields_to_secs(y as int, mo as int, d as int, h as int, mi as int, s as int),
        ts_in_range(r as int),
{
    proof {
        lemma_fields_secs_in_range(y as int, mo as int, d as int, h as int, mi as int, s as int);
        lemma_days_before_year_bounds(y as int);
        lemma_days_before_month_bounds(y as int, mo as int);
    }
    let db_year = days_before_year_x(y);
    let db_month = days_before_month_x(y, mo);
    let days: u64 = db_year + db_month + (d - 1);
    (days as i64 - 719162) * 86400 + (h as i64) * 3600 + (mi as i64) * 60 + (s as i64)
}

pub fn days_in_year_x(y: u64) -> (r: u64)
    ensures
        r == days_in_year(y as int),
{
    if is_leap_year_x(y) {
        366
    } else {
        365
    }
}

/// The date and time-of-day fields of an instant in the working band. The
/// year may exceed 9999 here (the band is slightly wider than the valid
/// dates); callers that need a four-digit year test the first field.
pub fn secs_to_fields(ts: i64) -> (r: (u64, u64, u64, u64, u64, u64))
    requires
        ts_in_range(ts as int),
    ensures
        r.0 as int == spec_secs_to_fields(ts as int).0,
        r.1 as int == spec_secs_to_fields(ts as int).1,
        r.2 as int == spec_secs_to_fields(ts as int).2,
        r.3 as int == spec_secs_to_fields(ts as int).3,
        r.4 as int == spec_secs_to_fields(ts as int).4,
        r.5 as int == spec_secs_to_fields(ts as int).5,
        1 <= r.0,
        1 <= r.1 <= 12,
        1 <= r.2 as int <= days_in_month(r.0 as int, r.1 as int),
        r.3 < 24,
        r.4 < 60,
        r.5 < 60,
{
    let total: u64 = (ts + 62135596800) as u64;
    let days: u64 = total / 86400;
    let rem: u64 = total % 86400;
    let mut y: u64 = 1;
    let mut dl: u64 = days;
    let mut diy = days_in_year_x(1);
    while dl >= diy
        invariant
            1 <= y,
            diy == days_in_year(y as int),
            year_split(days as int, 1) == year_split(dl as int, y as int),
            spec_days_before_year(y as int) + dl == days,
        decreases dl,
    {
        proof {
            lemma_days_before_year_bounds(y as int);
        }
        dl = dl - diy;
        y = y + 1;
        diy = days_in_year_x(y);
    }
    proof {
        lemma_year_split_props(days as int, 1);
    }
    let mut m: u64 = 1;
    let mut d2: u64 = dl;
    let mut dim = days_in_month_x(y, 1);
    while m < 12 && d2 >= dim
        invariant
            1 <= m <= 12,
            1 <= y,
            dl < days_in_year(y as int),
            dim == days_in_month(y as int, m as int),
            month_split(y as int, 1, dl as int) == month_split(y as int, m as int, d2 as int),
            d2 <= dl,
        decreases 12 - m,
    {
        d2 = d2 - dim;
        m = m + 1;
        dim = days_in_month_x(y, m);
    }
    proof {
        lemma_month_split_props(y as int, 1, dl as int);
    }
    (y, m, d2 + 1, rem / 3600, (rem / 60) % 60, rem % 60)
}

} // verus!
