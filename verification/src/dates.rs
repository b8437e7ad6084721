//! Calendar arithmetic on Unix timestamps: proleptic Gregorian dates with
//! the standard leap-year rule, and ISO 8601 rendering. Used to name the
//! date-partitioned snapshot files and to reconstruct dates from them.

use vstd::prelude::*;
use crate::text::{dec_digits_padded, push_u64_padded};

verus! {

/// The standard Gregorian leap-year rule.
pub open spec fn spec_is_leap_year(year: nat) -> bool {
    (year % 4 == 0 && year % 100 != 0) || year % 400 == 0
}

/// Days in a calendar year.
pub open spec fn spec_days_in_year(year: nat) -> nat {
    if spec_is_leap_year(year) { 366 } else { 365 }
}

/// Days in a calendar month (1 = January).
pub open spec fn spec_days_in_month(year: nat, month: nat) -> nat {
    if month == 2 { if spec_is_leap_year(year) { 29 } else { 28 } }
    else if month == 4 || month == 6 || month == 9 || month == 11 { 30 }
    else { 31 }
}

/// Peel whole years off a day count, starting from `year`:
/// yields the calendar year and the remaining days into it.
pub open spec fn spec_year_and_rem(days: nat, year: nat) -> (nat, nat)
    decreases days,
{
    if days < spec_days_in_year(year) {
        (year, days)
    } else {
        spec_year_and_rem((days - spec_days_in_year(year)) as nat, year + 1)
    }
}

/// Peel whole months off a day count within `year`, starting at `month`:
/// yields the calendar month and the remaining days into it.
pub open spec fn spec_month_and_rem(days: nat, year: nat, month: nat) -> (nat, nat)
    decreases 12 - month,
{
    if month >= 12 || days < spec_days_in_month(year, month) {
        (month, days)
    } else {
        spec_month_and_rem((days - spec_days_in_month(year, month)) as nat, year, month + 1)
    }
}

/// The calendar date (year, month, day) of a Unix timestamp.
pub open spec fn spec_timestamp_to_date(ts: nat) -> (nat, nat, nat) {
    let days = ts / 86400;
    let yr = spec_year_and_rem(days, 1970);
    let mr = spec_month_and_rem(yr.1, yr.0, 1);
    (yr.0, mr.0, mr.1 + 1)
}

/// Whether `year` is a leap year.
pub fn is_leap_year(year: u64) -> (r: bool)
    ensures
        r == spec_is_leap_year(year as nat),
{
    (year % 4 == 0 && year % 100 != 0) || year % 400 == 0
}

/// Days in the given year.
pub fn days_in_year(year: u64) -> (r: u64)
    ensures
        r == spec_days_in_year(year as nat),
{
    if is_leap_year(year) { 366 } else { 365 }
}

/// Days in the given month of the given year.
pub fn days_in_month(year: u64, month: u64) -> (r: u64)
    ensures
        r == spec_days_in_month(year as nat, month as nat),
        1 <= r <= 31,
{
    if month == 2 {
        if is_leap_year(year) { 29 } else { 28 }
    } else if month == 4 || month == 6 || month == 9 || month == 11 {
        30
    } else {
        31
    }
}

/// December starts 31 days before the year ends.
proof fn lemma_year_month_sum(year: nat)
    ensures
        spec_days_before_month(year, 12) + 31 == spec_days_in_year(year),
{
    reveal_with_fuel(spec_days_before_month, 13);
}

/// Convert a Unix timestamp to its calendar date `(year, month, day)`.
pub fn timestamp_to_date(ts: u64) -> (r: (u64, u64, u64))
    ensures
        (r.0 as nat, r.1 as nat, r.2 as nat) == spec_timestamp_to_date(ts as nat),
        1970 <= r.0,
        1 <= r.1 <= 12,
        1 <= r.2 <= 31,
{
    let ghost days0 = (ts / 86400) as nat;
    let mut remaining: u64 = ts / 86400;
    let mut year: u64 = 1970;
    while remaining >= days_in_year(year)
        invariant
            1970 <= year,
            remaining <= days0,
            days0 <= u64::MAX as nat / 86400,
            year <= 1970 + (days0 - remaining),
            spec_year_and_rem(days0, 1970) == spec_year_and_rem(remaining as nat, year as nat),
        decreases remaining,
    {
        let diy = days_in_year(year);
        remaining = remaining - diy;
        year = year + 1;
    }
    let ghost sy = spec_year_and_rem(days0, 1970).0;
    let ghost srem = spec_year_and_rem(days0, 1970).1;
    proof {
        assert(sy == year as nat && srem == remaining as nat);
        assert(srem < spec_days_in_year(sy));
    }
    let mut month: u64 = 1;
    while month < 12 && remaining >= days_in_month(year, month)
        invariant
            1 <= month <= 12,
            year as nat == sy,
            remaining as nat + spec_days_before_month(sy, month as nat) == srem,
            srem < spec_days_in_year(sy),
            spec_month_and_rem(srem, sy, 1)
                == spec_month_and_rem(remaining as nat, year as nat, month as nat),
        decreases 12 - month,
    {
        remaining = remaining - days_in_month(year, month);
        month = month + 1;
    }
    proof {
        if month == 12 {
            lemma_year_month_sum(sy);
        }
        assert(remaining < 31);
    }
    let day = remaining + 1;
    (year, month, day)
}

/// Days between the Unix epoch and the start of `year`.
pub open spec fn spec_days_before_year(year: nat) -> nat
    decreases year,
{
    if year <= 1970 {
        0
    } else {
        spec_days_before_year((year - 1) as nat) + spec_days_in_year((year - 1) as nat)
    }
}

/// Days between the start of `year` and the start of `month` within it.
pub open spec fn spec_days_before_month(year: nat, month: nat) -> nat
    decreases month,
{
    if month <= 1 {
        0
    } else {
        spec_days_before_month(year, (month - 1) as nat) + spec_days_in_month(year, (month - 1) as nat)
    }
}

/// The Unix timestamp of midnight on the given calendar date.
pub open spec fn spec_date_to_timestamp(year: nat, month: nat, day: nat) -> nat {
    ((spec_days_before_year(year) + spec_days_before_month(year, month) + (day - 1)) * 86400) as nat
}

/// Convert a calendar date to the Unix timestamp of its midnight.
///
/// Years far beyond the partition naming scheme are excluded so that the
/// result fits in a `u64` without saturation.
pub fn date_to_timestamp(year: u64, month: u64, day: u64) -> (r: u64)
    requires
        1970 <= year <= 9999,
        1 <= month <= 12,
        1 <= day <= 31,
    ensures
        r as nat == spec_date_to_timestamp(year as nat, month as nat, day as nat),
{
    let mut days: u64 = 0;
    let mut y: u64 = 1970;
    while y < year
        invariant
            1970 <= y <= year <= 9999,
            days == spec_days_before_year(y as nat),
            days <= (y - 1970) * 366,
        decreases year - y,
    {
        days = days + days_in_year(y);
        y = y + 1;
    }
    let mut m: u64 = 1;
    while m < month
        invariant
            1 <= m <= month <= 12,
            year <= 9999,
            days == spec_days_before_year(year as nat) + spec_days_before_month(year as nat, m as nat),
            days <= (year - 1970) * 366 + (m - 1) * 31,
        decreases month - m,
    {
        days = days + days_in_month(year, m);
        m = m + 1;
    }
    days = days + (day - 1);
    days * 86400
}

/// The ISO 8601 rendering of a Unix timestamp, always in UTC:
/// `YYYY-MM-DDThh:mm:ssZ`.
pub open spec fn spec_iso8601(ts: nat) -> Seq<char> {
    let ymd = spec_timestamp_to_date(ts);
    let secs = ts % 86400;
    dec_digits_padded(ymd.0, 4) + seq!['-']
        + dec_digits_padded(ymd.1, 2) + seq!['-']
        + dec_digits_padded(ymd.2, 2) + seq!['T']
        + dec_digits_padded(secs / 3600, 2) + seq![':']
        + dec_digits_padded((secs % 3600) / 60, 2) + seq![':']
        + dec_digits_padded(secs % 60, 2) + seq!['Z']
}

/// Render a Unix timestamp as an ISO 8601 UTC datetime string.
pub fn timestamp_to_iso8601(ts: u64) -> (r: String)
    ensures
        r@ == spec_iso8601(ts as nat),
{
    let ymd = timestamp_to_date(ts);
    let secs = ts % 86400;
    let mut out = String::new();
    push_u64_padded(&mut out, ymd.0, 4);
    out.push('-');
    push_u64_padded(&mut out, ymd.1, 2);
    out.push('-');
    push_u64_padded(&mut out, ymd.2, 2);
    out.push('T');
    push_u64_padded(&mut out, secs / 3600, 2);
    out.push(':');
    push_u64_padded(&mut out, (secs % 3600) / 60, 2);
    out.push(':');
    push_u64_padded(&mut out, secs % 60, 2);
    out.push('Z');
    proof {
        assert(out@ =~= spec_iso8601(ts as nat));
    }
    out
}

} // verus!
