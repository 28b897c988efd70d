//! Civil dates of Unix times, for the timestamps of the evaluation history.
use vstd::prelude::*;
use crate::decimal::{decimal, decimal_chars};

verus! {

/// Days from 0000-03-01 to 1970-01-01 in the proleptic Gregorian calendar.
pub const EPOCH_SHIFT_DAYS: u64 = 719_468;
/// Days in a 400-year era.
pub const DAYS_PER_ERA: u64 = 146_097;
/// Seconds in a day.
pub const SECS_PER_DAY: u64 = 86_400;
/// Seconds in an hour.
pub const SECS_PER_HOUR: u64 = 3_600;
/// Seconds in a minute.
pub const SECS_PER_MINUTE: u64 = 60;

/// The civil date (year, month, day) of a count of days since 1970-01-01,
/// by eras of 400 years counted from March: the era, the day of the era, the
/// year of the era, the day of that March-based year, the March-based
/// month, and the day of the month, with January and February moved to the
/// next year.
pub open spec fn civil_spec(days: nat) -> (int, int, int) {
    let z = days + EPOCH_SHIFT_DAYS;
    let era = z / DAYS_PER_ERA as int;
    let doe = z - era * DAYS_PER_ERA;
    let yoe = (doe - doe / 1460 + doe / 36524 - doe / 146096) / 365;
    let y = yoe + era * 400;
    let doy = doe - (365 * yoe + yoe / 4 - yoe / 100);
    let mp = (5 * doy + 2) / 153;
    let d = doy - (153 * mp + 2) / 5 + 1;
    let m = if mp < 10 { mp + 3 } else { mp - 9 };
    (if m <= 2 { y + 1 } else { y }, m, d)
}

proof fn lemma_year_of_era(doe: int, yoe: int)
    requires
        0 <= doe <= 146096,
        yoe == (doe - doe / 1460 + doe / 36524 - doe / 146096) / 365,
    ensures
        0 <= yoe <= 399,
        0 <= doe - (365 * yoe + yoe / 4 - yoe / 100) <= 365,
{
    assert(0 <= yoe <= 399) by (nonlinear_arith)
        requires
            0 <= doe <= 146096,
            yoe == (doe - doe / 1460 + doe / 36524 - doe / 146096) / 365,
    ;
    assert(365 * yoe + yoe / 4 - yoe / 100 <= doe) by (nonlinear_arith)
        requires
            0 <= doe <= 146096,
            yoe == (doe - doe / 1460 + doe / 36524 - doe / 146096) / 365,
    ;
    assert(doe - (365 * yoe + yoe / 4 - yoe / 100) <= 365) by (nonlinear_arith)
        requires
            0 <= doe <= 146096,
            yoe == (doe - doe / 1460 + doe / 36524 - doe / 146096) / 365,
    ;
}

proof fn lemma_month_day(doy: int, mp: int)
    requires
        0 <= doy <= 365,
        mp == (5 * doy + 2) / 153,
    ensures
        0 <= mp <= 11,
        1 <= doy - (153 * mp + 2) / 5 + 1 <= 31,
{
    assert(0 <= mp <= 11) by (nonlinear_arith)
        requires
            0 <= doy <= 365,
            mp == (5 * doy + 2) / 153,
    ;
    assert(1 <= doy - (153 * mp + 2) / 5 + 1 <= 31) by (nonlinear_arith)
        requires
            0 <= doy <= 365,
            mp == (5 * doy + 2) / 153,
    ;
}

/// The civil date (year, month, day) of a count of days since 1970-01-01.
pub fn days_to_ymd(days: u64) -> (r: (u64, u64, u64))
    requires
        days <= u64::MAX - EPOCH_SHIFT_DAYS,
    ensures
        (r.0 as int, r.1 as int, r.2 as int) == civil_spec(days as nat),
        1 <= r.1 <= 12,
        1 <= r.2 <= days_in_month(r.0 as int, r.1 as int),
        civil_spec(days as nat + 1) == next_date((r.0 as int, r.1 as int, r.2 as int)),
{
    proof {
        law_days_to_ymd_calendar(days as nat);
    }
    let z = days + EPOCH_SHIFT_DAYS;
    let era = z / DAYS_PER_ERA;
    assert(era * DAYS_PER_ERA <= z) by (nonlinear_arith)
        requires
            era == z / DAYS_PER_ERA,
    ;
    assert(z - era * DAYS_PER_ERA <= 146096) by (nonlinear_arith)
        requires
            era == z / DAYS_PER_ERA,
    ;
    let doe = z - era * DAYS_PER_ERA;
    let yoe = (doe - doe / 1460 + doe / 36524 - doe / 146096) / 365;
    proof {
        lemma_year_of_era(doe as int, yoe as int);
    }
    assert(era * 400 <= z) by (nonlinear_arith)
        requires
            era == z / DAYS_PER_ERA,
    ;
    let y = yoe + era * 400;
    let doy = doe - (365 * yoe + yoe / 4 - yoe / 100);
    let mp = (5 * doy + 2) / 153;
    proof {
        lemma_month_day(doy as int, mp as int);
    }
    let d = doy - (153 * mp + 2) / 5 + 1;
    let m = if mp < 10 { mp + 3 } else { mp - 9 };
    let y = if m <= 2 { y + 1 } else { y };
    (y, m, d)
}

/// Zeros before a text so that it fills `width` characters (`{:0width}`).
pub open spec fn pad_zero(s: Seq<char>, width: nat) -> Seq<char> {
    if s.len() >= width {
        s
    } else {
        Seq::new((width - s.len()) as nat, |i: int| '0') + s
    }
}

fn push_padded(out: &mut Vec<char>, n: u64, width: usize)
    ensures
        final(out)@ == old(out)@ + pad_zero(decimal(n as nat), width as nat),
{
    let d = decimal_chars(n);
    let ghost o = out@;
    if d.len() < width {
        let pad = width - d.len();
        let mut k: usize = 0;
        while k < pad
            invariant
                k <= pad,
                out@ == o + Seq::new(k as nat, |i: int| '0'),
            decreases pad - k,
        {
            out.push('0');
            k = k + 1;
            assert(out@ =~= o + Seq::new(k as nat, |i: int| '0'));
        }
    }
    let ghost mid = out@;
    let mut k: usize = 0;
    while k < d.len()
        invariant
            k <= d@.len(),
            out@ == mid + d@.take(k as int),
        decreases d@.len() - k,
    {
        out.push(d[k]);
        k = k + 1;
        assert(out@ =~= mid + d@.take(k as int));
    }
    assert(d@.take(d@.len() as int) =~= d@);
    assert(out@ =~= o + pad_zero(decimal(n as nat), width as nat));
}

/// The ISO 8601 UTC form `YYYY-MM-DDTHH:MM:SSZ` of a Unix time in seconds.
pub open spec fn iso8601_spec(secs: nat) -> Seq<char> {
    let (y, m, d) = civil_spec(secs / SECS_PER_DAY as nat);
    let t = secs % SECS_PER_DAY as nat;
    pad_zero(decimal(y as nat), 4) + seq!['-'] + pad_zero(decimal(m as nat), 2) + seq!['-'] + pad_zero(decimal(d as nat), 2)
        + seq!['T'] + pad_zero(decimal(t / SECS_PER_HOUR as nat), 2) + seq![':'] + pad_zero(
        decimal((t % SECS_PER_HOUR as nat) / SECS_PER_MINUTE as nat),
        2,
    ) + seq![':'] + pad_zero(decimal(t % SECS_PER_MINUTE as nat), 2) + seq!['Z']
}

/// Writes a Unix time in seconds as an ISO 8601 UTC timestamp.
pub fn iso8601_from_secs(secs: u64) -> (r: String)
    ensures
        r@ == iso8601_spec(secs as nat),
{
    let days = secs / SECS_PER_DAY;
    let time_secs = secs % SECS_PER_DAY;
    let hours = time_secs / SECS_PER_HOUR;
    let minutes = (time_secs % SECS_PER_HOUR) / SECS_PER_MINUTE;
    let seconds = time_secs % SECS_PER_MINUTE;
    let (year, month, day) = days_to_ymd(days);
    let mut out: Vec<char> = Vec::new();
    push_padded(&mut out, year, 4);
    out.push('-');
    push_padded(&mut out, month, 2);
    out.push('-');
    push_padded(&mut out, day, 2);
    out.push('T');
    push_padded(&mut out, hours, 2);
    out.push(':');
    push_padded(&mut out, minutes, 2);
    out.push(':');
    push_padded(&mut out, seconds, 2);
    out.push('Z');
    assert(out@ =~= iso8601_spec(secs as nat));
    crate::text::string_of(out.as_slice())
}

/// The first day of year `y` of an era, counted from the era's first day
/// (March 1st), for `y` from 0 to 400.
pub open spec fn year_start(y: int) -> int {
    365 * y + y / 4 - y / 100
}

/// The year of an era that holds day `doe` of the era.
pub open spec fn year_of_era(doe: int) -> int {
    (doe - doe / 1460 + doe / 36524 - doe / 146096) / 365
}

/// The days of year `y` of an era (from March to the next February).
pub open spec fn era_year_len(y: int) -> int {
    if y == 399 {
        366
    } else {
        year_start(y + 1) - year_start(y)
    }
}

proof fn lemma_year_bracket(doe: int)
    requires
        0 <= doe <= 146096,
    ensures
        0 <= year_of_era(doe) <= 399,
        year_start(year_of_era(doe)) <= doe < year_start(year_of_era(doe)) + era_year_len(year_of_era(doe)),
{
}

proof fn lemma_year_unique(doe: int, y: int)
    requires
        0 <= doe <= 146096,
        0 <= y <= 399,
        year_start(y) <= doe < year_start(y) + era_year_len(y),
    ensures
        year_of_era(doe) == y,
{
    lemma_year_bracket(doe);
}

/// The first day of month `mp` of a March-based year (0 is March).
pub open spec fn month_start(mp: int) -> int {
    (153 * mp + 2) / 5
}

/// The March-based month that holds day `doy` of a year.
pub open spec fn month_of_year(doy: int) -> int {
    (5 * doy + 2) / 153
}

proof fn lemma_month_bracket(doy: int)
    requires
        0 <= doy <= 365,
    ensures
        0 <= month_of_year(doy) <= 11,
        month_start(month_of_year(doy)) <= doy < month_start(month_of_year(doy) + 1),
{
}

proof fn lemma_month_unique(doy: int, k: int)
    requires
        0 <= doy <= 365,
        0 <= k <= 11,
        month_start(k) <= doy < month_start(k + 1),
    ensures
        month_of_year(doy) == k,
{
    lemma_month_bracket(doy);
}

/// A leap year of the Gregorian calendar.
pub open spec fn is_leap_year(y: int) -> bool {
    y % 4 == 0 && (y % 100 != 0 || y % 400 == 0)
}

/// The days of month `m` (1 to 12) of year `y`.
pub open spec fn days_in_month(y: int, m: int) -> int {
    if m == 2 {
        if is_leap_year(y) {
            29
        } else {
            28
        }
    } else if m == 4 || m == 6 || m == 9 || m == 11 {
        30
    } else {
        31
    }
}

/// The day after a civil date.
pub open spec fn next_date(date: (int, int, int)) -> (int, int, int) {
    let (y, m, d) = date;
    if d < days_in_month(y, m) {
        (y, m, d + 1)
    } else if m < 12 {
        (y, m + 1, 1)
    } else {
        (y + 1, 1, 1)
    }
}

/// The civil date of day `doe` of era `era`.
pub open spec fn era_date(era: int, doe: int) -> (int, int, int) {
    let yoe = year_of_era(doe);
    let doy = doe - year_start(yoe);
    let mp = month_of_year(doy);
    let m = if mp < 10 { mp + 3 } else { mp - 9 };
    (if m <= 2 { yoe + era * 400 + 1 } else { yoe + era * 400 }, m, doy - month_start(mp) + 1)
}

proof fn lemma_leap_of_era_year(era: int, y: int)
    requires
        era >= 0,
        0 <= y <= 399,
    ensures
        (era_year_len(y) == 366) == is_leap_year(y + era * 400 + 1),
        era_year_len(y) == 365 || era_year_len(y) == 366,
{
    vstd::arithmetic::div_mod::lemma_mod_multiples_vanish(era * 100, y + 1, 4);
    vstd::arithmetic::div_mod::lemma_mod_multiples_vanish(era * 4, y + 1, 100);
    vstd::arithmetic::div_mod::lemma_mod_multiples_vanish(era, y + 1, 400);
    assert(4 * (era * 100) == era * 400) by (nonlinear_arith);
    assert(100 * (era * 4) == era * 400) by (nonlinear_arith);
    assert(400 * era == era * 400) by (nonlinear_arith);
    assert(y + era * 400 + 1 == era * 400 + (y + 1));
}

/// Within an era the dates run as the calendar does: each is a valid date,
/// and the next day of the era is the next date.
proof fn lemma_era_date_step(era: int, doe: int)
    requires
        era >= 0,
        0 <= doe < 146096,
    ensures
        1 <= era_date(era, doe).1 <= 12,
        1 <= era_date(era, doe).2 <= days_in_month(era_date(era, doe).0, era_date(era, doe).1),
        era_date(era, doe + 1) == next_date(era_date(era, doe)),
{
    let y = year_of_era(doe);
    lemma_year_bracket(doe);
    let doy = doe - year_start(y);
    lemma_month_bracket(doy);
    let mp = month_of_year(doy);
    lemma_leap_of_era_year(era, y);
    if doy + 1 < era_year_len(y) {
        lemma_year_unique(doe + 1, y);
        lemma_month_bracket(doy + 1);
        if doy + 1 < month_start(mp + 1) {
            lemma_month_unique(doy + 1, mp);
        } else {
            lemma_month_unique(doy + 1, mp + 1);
        }
    } else {
        assert(y < 399);
        lemma_year_bracket(doe + 1);
        lemma_leap_of_era_year(era, y + 1);
        lemma_year_unique(doe + 1, y + 1);
        lemma_month_unique(0, 0);
    }
}

proof fn lemma_era_date_last(era: int)
    requires
        era >= 0,
    ensures
        era_date(era, 146096) == (era * 400 + 400, 2int, 29int),
        is_leap_year(era * 400 + 400),
        era_date(era + 1, 0) == (era * 400 + 400, 3int, 1int),
{
    lemma_year_unique(146096, 399);
    lemma_month_unique(365, 11);
    lemma_year_unique(0, 0);
    lemma_month_unique(0, 0);
    lemma_leap_of_era_year(era, 399);
}

proof fn lemma_civil_is_era_date(n: nat)
    ensures
        civil_spec(n) == era_date(
            (n + EPOCH_SHIFT_DAYS) / (DAYS_PER_ERA as int),
            (n + EPOCH_SHIFT_DAYS) - (n + EPOCH_SHIFT_DAYS) / (DAYS_PER_ERA as int) * DAYS_PER_ERA,
        ),
{
}

/// The dates of `days_to_ymd` run as the calendar does: every date is
/// valid (its month from 1 to 12, its day within the month, February having
/// 29 days in leap years), and the date of the next day is the next date.
pub proof fn law_days_to_ymd_calendar(n: nat)
    ensures
        1 <= civil_spec(n).1 <= 12,
        1 <= civil_spec(n).2 <= days_in_month(civil_spec(n).0, civil_spec(n).1),
        civil_spec(n + 1) == next_date(civil_spec(n)),
{
    let z = n + EPOCH_SHIFT_DAYS;
    let era = z / (DAYS_PER_ERA as int);
    let doe = z - era * DAYS_PER_ERA;
    assert(0 <= doe < 146097);
    lemma_civil_is_era_date(n);
    lemma_civil_is_era_date((n + 1) as nat);
    if doe < 146096 {
        assert((z + 1) / (DAYS_PER_ERA as int) == era);
        lemma_era_date_step(era, doe);
    } else {
        assert((z + 1) / (DAYS_PER_ERA as int) == era + 1);
        lemma_era_date_last(era);
    }
}

/// Day zero is the first of January 1970.
pub proof fn law_days_to_ymd_epoch()
    ensures
        civil_spec(0) == (1970int, 1int, 1int),
{
    lemma_civil_is_era_date(0);
    lemma_year_unique(135080, 369);
    lemma_month_unique(306, 10);
}

} // verus!
