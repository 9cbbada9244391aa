//! Proleptic Gregorian calendar: day numbers relative to 1970-01-01.
use crate::text::{dec, push_char, push_padded, push_signed_padded, signed_zpad, zpad};
use vstd::prelude::*;

verus! {

pub open spec fn is_leap(y: int) -> bool {
    y % 4 == 0 && (y % 100 != 0 || y % 400 == 0)
}

pub open spec fn days_in_month(y: int, m: int) -> int {
    if m == 2 {
        if is_leap(y) { 29 } else { 28 }
    } else if m == 4 || m == 6 || m == 9 || m == 11 {
        30
    } else {
        31
    }
}

pub open spec fn valid_date(y: int, m: int, d: int) -> bool {
    1 <= m <= 12 && 1 <= d <= days_in_month(y, m)
}

/// Start of year `yoe` (0..=400) of an era, counted in days from March 1 of
/// the era's first year; years run March to February.
pub open spec fn year_start(yoe: int) -> int {
    365 * yoe + yoe / 4 - yoe / 100 + yoe / 400
}

proof fn lemma_year_of_era(doe: u32)
    requires
        doe <= 146096,
    ensures
        ({
            let yoe = (doe - doe / 1460 + doe / 36524 - doe / 146096) / 365;
            &&& 0 <= yoe <= 399
            &&& year_start(yoe as int) <= doe < year_start(yoe + 1)
        }),
{
    assert(doe <= 146096 ==> ({
        let yoe = (doe - doe / 1460 + doe / 36524 - doe / 146096) / 365;
        &&& 0 <= yoe <= 399
        &&& 365 * yoe + yoe / 4 - yoe / 100 <= doe
        &&& doe < 365 * (yoe + 1) + (yoe + 1) / 4 - (yoe + 1) / 100 + (yoe + 1) / 400
    })) by (bit_vector);
}


/// Day number (days since 1970-01-01) of a calendar date.
pub open spec fn days_from_civil(y: int, m: int, d: int) -> int {
    let y1 = if m <= 2 { y - 1 } else { y };
    let era = y1 / 400;
    let yoe = y1 - era * 400;
    let mp = if m > 2 { m - 3 } else { m + 9 };
    let doy = (153 * mp + 2) / 5 + d - 1;
    let doe = yoe * 365 + yoe / 4 - yoe / 100 + doy;
    era * 146097 + doe - 719468
}

/// Whether the day number can be converted without an arithmetic overflow.
pub open spec fn civil_in_range(z: int) -> bool {
    &&& z + 719468 <= i64::MAX
    &&& z + 719468 - 146096 >= i64::MIN
}

proof fn lemma_month_of_year(doy: u32)
    requires
        doy <= 365,
    ensures
        ({
            let mp = (5 * doy + 2) / 153;
            let d = doy - (153 * mp + 2) / 5 + 1;
            &&& mp <= 11
            &&& (mp >= 10 <==> doy >= 306)
            &&& 1 <= d
            &&& (153 * mp + 2) / 5 + d - 1 == doy
            &&& mp == 11 ==> d <= 29 && (d == 29 <==> doy == 365)
            &&& mp != 11 ==> d <= days_in_month(2001, if mp < 10 { mp + 3 } else { mp - 9 })
        }),
{
}


proof fn lemma_era_year(era: int, yoe: int)
    requires
        0 <= yoe < 400,
    ensures
        (era * 400 + yoe) / 400 == era,
        (era * 400 + yoe) - ((era * 400 + yoe) / 400) * 400 == yoe,
        (era * 400 + yoe + 1) % 4 == (yoe + 1) % 4,
        (era * 400 + yoe + 1) % 100 == (yoe + 1) % 100,
        (era * 400 + yoe + 1) % 400 == (yoe + 1) % 400,
{
    vstd::arithmetic::div_mod::lemma_fundamental_div_mod_converse(era * 400 + yoe, 400, era, yoe);
    assert((era * 400 + yoe + 1) % 4 == (yoe + 1) % 4) by (nonlinear_arith);
    assert((era * 400 + yoe + 1) % 100 == (yoe + 1) % 100) by (nonlinear_arith);
    assert((era * 400 + yoe + 1) % 400 == (yoe + 1) % 400) by (nonlinear_arith);
}

proof fn lemma_floor_div_era(z2: int, era: int)
    requires
        z2 >= 0 ==> era == z2 / 146097,
        z2 < 0 ==> era == -((-(z2 + 1)) / 146097) - 1,
    ensures
        era == z2 / 146097,
        0 <= z2 - era * 146097 <= 146096,
{
    if z2 < 0 {
        let q = (-(z2 + 1)) / 146097;
        let r = (-(z2 + 1)) % 146097;
        vstd::arithmetic::div_mod::lemma_fundamental_div_mod(-(z2 + 1), 146097);
        vstd::arithmetic::div_mod::lemma_fundamental_div_mod_converse(z2, 146097, -q - 1, 146096 - r);
    } else {
        vstd::arithmetic::div_mod::lemma_fundamental_div_mod(z2, 146097);
    }
}

#[verifier::spinoff_prover]
proof fn lemma_civil_correct(z: int, era: int, doe: int, yoe: int, doy: int, mp: int, d: int, m: int)
    requires
        era == (z + 719468) / 146097,
        doe == (z + 719468) - era * 146097,
        yoe == (doe - doe / 1460 + doe / 36524 - doe / 146096) / 365,
        doy == doe - (365 * yoe + yoe / 4 - yoe / 100),
        mp == (5 * doy + 2) / 153,
        d == doy - (153 * mp + 2) / 5 + 1,
        m == if mp < 10 { mp + 3 } else { mp - 9 },
    ensures
        0 <= doe <= 146096,
        0 <= yoe <= 399,
        0 <= doy <= 365,
        0 <= mp <= 11,
        valid_date(era * 400 + yoe + (if m <= 2 { 1int } else { 0 }), m, d),
        days_from_civil(era * 400 + yoe + (if m <= 2 { 1int } else { 0 }), m, d) == z,
{
    let doe32 = doe as u32;
    lemma_year_of_era(doe32);
    let doy32 = doy as u32;
    lemma_month_of_year(doy32);
    lemma_era_year(era, yoe);
    let yy = era * 400 + yoe + (if m <= 2 { 1int } else { 0 });
    if doy == 365 {
        assert(year_start(yoe + 1) - year_start(yoe) == 366);
        assert(is_leap(era * 400 + yoe + 1));
    }
    assert(valid_date(yy, m, d));
}

/// Converts a day number (days since 1970-01-01) to a calendar date
/// (year, month, day). The year is narrowed to 32 bits with wrap-around, as
/// the computation in 32-bit arithmetic yields it.
pub fn civil_from_days(z: i64) -> (r: (i32, u32, u32))
    requires
        civil_in_range(z as int),
    ensures
        r.0 == date_of_day(z as int).0 as i32,
        r.1 == date_of_day(z as int).1,
        r.2 == date_of_day(z as int).2,
{
    let z2: i64 = z + 719468;
    let era: i64 = if z2 >= 0 { z2 / 146097 } else { -((-(z2 + 1)) / 146097) - 1 };
    proof {
        lemma_floor_div_era(z2 as int, era as int);
    }
    let doe: u32 = (z2 - era * 146097) as u32;
    proof {
        lemma_year_of_era(doe);
    }
    let yoe: u32 = (doe - doe / 1460 + doe / 36524 - doe / 146096) / 365;
    let y0: i64 = yoe as i64 + era * 400;
    let doy: u32 = doe - (365 * yoe + yoe / 4 - yoe / 100);
    proof {
        lemma_month_of_year(doy);
    }
    let mp: u32 = (5 * doy + 2) / 153;
    let d: u32 = doy - (153 * mp + 2) / 5 + 1;
    let m: u32 = if mp < 10 { mp + 3 } else { mp - 9 };
    let y: i32 = #[verifier::truncate] (y0 as i32);
    let y: i32 = if m <= 2 { y.wrapping_add(1) } else { y };
    proof {
        lemma_civil_correct(z as int, era as int, doe as int, yoe as int, doy as int, mp as int, d as int, m as int);
        let yy: int = era * 400 + yoe + (if m <= 2 { 1int } else { 0 });
        if m <= 2 {
            lemma_wrap_increment(y0);
        }
    }
    (y, m, d)
}

proof fn lemma_wrap_increment(v: i64)
    requires
        v < i64::MAX,
    ensures
        (#[verifier::truncate] (v as i32)).wrapping_add(1) == #[verifier::truncate] ((v + 1) as i32),
{
    let w = (v + 1) as i64;
    assert((#[verifier::truncate] (v as i32)).wrapping_add(1) == #[verifier::truncate] (w as i32))
        by (bit_vector)
        requires w == v + 1;
}

/// The calendar date of a day number, with the year as a mathematical
/// integer: the valid date whose day number is `z` (see `lemma_date_of_day`
/// and `lemma_days_from_civil_injective`).
pub open spec fn date_of_day(z: int) -> (int, int, int) {
    let era = (z + 719468) / 146097;
    let doe = (z + 719468) - era * 146097;
    let yoe = (doe - doe / 1460 + doe / 36524 - doe / 146096) / 365;
    let doy = doe - (365 * yoe + yoe / 4 - yoe / 100);
    let mp = (5 * doy + 2) / 153;
    let d = doy - (153 * mp + 2) / 5 + 1;
    let m = if mp < 10 { mp + 3 } else { mp - 9 };
    (era * 400 + yoe + (if m <= 2 { 1int } else { 0 }), m, d)
}

proof fn lemma_day_of_year(mp: int, d: int, leap: bool)
    requires
        0 <= mp <= 11,
        1 <= d,
        mp != 11 ==> d <= days_in_month(2001, if mp < 10 { mp + 3 } else { mp - 9 }),
        mp == 11 ==> d <= (if leap { 29int } else { 28 }),
    ensures
        ({
            let doy = (153 * mp + 2) / 5 + d - 1;
            &&& 0 <= doy <= 365
            &&& doy == 365 ==> leap
            &&& (5 * doy + 2) / 153 == mp
        }),
{
}

proof fn lemma_year_start_strict(a: int, b: int)
    requires
        0 <= a < b <= 400,
    ensures
        year_start(a + 1) <= year_start(b),
    decreases b - a,
{
    if a + 1 < b {
        lemma_year_start_strict(a + 1, b);
    }
}

/// The date of a day number is a valid date carrying that day number.
pub proof fn lemma_date_of_day(z: int)
    ensures
        valid_date(date_of_day(z).0, date_of_day(z).1, date_of_day(z).2),
        days_from_civil(date_of_day(z).0, date_of_day(z).1, date_of_day(z).2) == z,
{
    let era = (z + 719468) / 146097;
    let doe = (z + 719468) - era * 146097;
    let yoe = (doe - doe / 1460 + doe / 36524 - doe / 146096) / 365;
    let doy = doe - (365 * yoe + yoe / 4 - yoe / 100);
    let mp = (5 * doy + 2) / 153;
    let d = doy - (153 * mp + 2) / 5 + 1;
    let m = if mp < 10 { mp + 3 } else { mp - 9 };
    lemma_civil_correct(z, era, doe, yoe, doy, mp, d, m);
}

/// Every valid date is what the conversion computes for its day number.
#[verifier::spinoff_prover]
#[verifier::rlimit(40)]
pub proof fn lemma_civil_of_days_from_civil(y: int, m: int, d: int)
    requires
        valid_date(y, m, d),
    ensures
        date_of_day(days_from_civil(y, m, d)) == (y, m, d),
{
    let y1 = if m <= 2 { y - 1 } else { y };
    let era = y1 / 400;
    let yoe = y1 - era * 400;
    vstd::arithmetic::div_mod::lemma_fundamental_div_mod(y1, 400);
    assert(0 <= yoe < 400);
    let mp = if m > 2 { m - 3 } else { m + 9 };
    lemma_era_year(era, yoe);
    assert(y1 == era * 400 + yoe);
    let leap = is_leap(era * 400 + yoe + 1);
    assert(mp == 11 ==> y == era * 400 + yoe + 1);
    lemma_day_of_year(mp, d, leap);
    let doy = (153 * mp + 2) / 5 + d - 1;
    let doe = yoe * 365 + yoe / 4 - yoe / 100 + doy;
    assert(doe == year_start(yoe) + doy);
    if doy == 365 {
        assert((yoe + 1) % 4 == 0);
    }
    assert(year_start(yoe) + doy < year_start(yoe + 1));
    assert(0 <= doe <= 146096);
    let z = era * 146097 + doe - 719468;
    assert(days_from_civil(y, m, d) == z);
    vstd::arithmetic::div_mod::lemma_fundamental_div_mod_converse(z + 719468, 146097, era, doe);
    let doe32 = doe as u32;
    lemma_year_of_era(doe32);
    let yoe2 = (doe - doe / 1460 + doe / 36524 - doe / 146096) / 365;
    if yoe2 < yoe {
        lemma_year_start_strict(yoe2, yoe);
    } else if yoe < yoe2 {
        lemma_year_start_strict(yoe, yoe2);
    }
    assert(yoe2 == yoe);
}

/// Two valid dates with the same day number are the same date.
pub proof fn lemma_days_from_civil_injective(a: (int, int, int), b: (int, int, int))
    requires
        valid_date(a.0, a.1, a.2),
        valid_date(b.0, b.1, b.2),
        days_from_civil(a.0, a.1, a.2) == days_from_civil(b.0, b.1, b.2),
    ensures
        a == b,
{
    lemma_civil_of_days_from_civil(a.0, a.1, a.2);
    lemma_civil_of_days_from_civil(b.0, b.1, b.2);
}


/// `YYYY-MM-DD` rendering of a date (`{y:04}-{m:02}-{d:02}`).
pub open spec fn date_text(y: int, m: int, d: int) -> Seq<char> {
    signed_zpad(y, 4) + seq!['-'] + zpad(dec(m as nat), 2) + seq!['-'] + zpad(dec(d as nat), 2)
}

/// Text of the date of a day number, the year narrowed to 32 bits.
#[verifier::opaque]
pub open spec fn day_text(z: int) -> Seq<char> {
    date_text(date_of_day(z).0 as i32 as int, date_of_day(z).1, date_of_day(z).2)
}

/// Renders the date (UTC) of a time in seconds since the Unix epoch as
/// `YYYY-MM-DD`.
pub fn secs_to_date(secs: u64) -> (r: String)
    ensures
        r@ == day_text(secs as int / 86400),
{
    let days: i64 = (secs / 86400) as i64;
    let (y, m, d) = civil_from_days(days);
    proof {
        lemma_date_of_day(days as int);
    }
    let mut out = String::new();
    push_signed_padded(&mut out, y as i64, 4);
    push_char(&mut out, '-');
    push_padded(&mut out, m as u64, 2);
    push_char(&mut out, '-');
    push_padded(&mut out, d as u64, 2);
    reveal(day_text);
    assert(out@ =~= day_text(secs as int / 86400));
    out
}

} // verus!
