//! Dates: from days and seconds since 1970 to texts.

use vstd::prelude::*;

use crate::text;

verus! {

pub const SECONDS_PER_DAY: i64 = 86_400;

pub const SECONDS_PER_MINUTE: i64 = 60;

pub const MILLIS_PER_SECOND: i64 = 1000;

/// A year with a 29th of February.
pub open spec fn is_leap(y: int) -> bool {
    (y % 4 == 0 && y % 100 != 0) || y % 400 == 0
}

pub open spec fn days_in_month(y: int, m: int) -> int {
    if m == 2 {
        if is_leap(y) {
            29
        } else {
            28
        }
    } else if m == 4 || m == 6 || m == 9 || m == 11 {
        30
    } else {
        31
    }
}

/// Leap years before a year, counted from the year 1.
pub open spec fn leaps_before(y: int) -> int {
    (y - 1) / 4 - (y - 1) / 100 + (y - 1) / 400
}

/// Days from 1970-01-01 to the first day of a year.
pub open spec fn days_before_year(y: int) -> int {
    365 * (y - 1970) + leaps_before(y) - leaps_before(1970)
}

/// Days from the first day of a year to the first day of a month.
pub open spec fn days_before_month(y: int, m: int) -> int
    decreases m,
{
    if m <= 1 {
        0
    } else {
        days_before_month(y, m - 1) + days_in_month(y, m - 1)
    }
}

/// A day of the calendar.
#[derive(Debug, Clone, Copy, PartialEq, Eq, Structural)]
pub struct Date {
    pub year: i64,
    pub month: i64,
    pub day: i64,
}

/// Whether a date exists.
pub open spec fn valid_date(d: Date) -> bool {
    1 <= d.month <= 12 && 1 <= d.day <= days_in_month(d.year as int, d.month as int)
}

/// Days from 1970-01-01 to a date.
pub open spec fn day_number(d: Date) -> int {
    days_before_year(d.year as int) + days_before_month(d.year as int, d.month as int) + d.day - 1
}

/// Days that have a date here: all of 64 bits that can still be counted from the first of March of
/// the year 0.
pub open spec fn in_range(days: int) -> bool {
    i64::MIN <= days <= i64::MAX - 719_468
}

/// Days that a number of seconds in 64 bits can fall on.
pub open spec fn reachable(days: int) -> bool {
    -106_751_991_167_301 <= days <= 106_751_991_167_300
}

proof fn lemma_month_starts(y: int)
    ensures
        days_before_month(y, 1) == 0,
        days_before_month(y, 2) == 31,
        days_before_month(y, 3) == 59 + if is_leap(y) { 1int } else { 0 },
        days_before_month(y, 4) == days_before_month(y, 3) + 31,
        days_before_month(y, 5) == days_before_month(y, 3) + 61,
        days_before_month(y, 6) == days_before_month(y, 3) + 92,
        days_before_month(y, 7) == days_before_month(y, 3) + 122,
        days_before_month(y, 8) == days_before_month(y, 3) + 153,
        days_before_month(y, 9) == days_before_month(y, 3) + 184,
        days_before_month(y, 10) == days_before_month(y, 3) + 214,
        days_before_month(y, 11) == days_before_month(y, 3) + 245,
        days_before_month(y, 12) == days_before_month(y, 3) + 275,
{
    reveal_with_fuel(days_before_month, 13);
}

/// Days from the first of March of the year 0 to the first of March of year `y` of a cycle of 400
/// years.
spec fn march_days(y: int) -> int {
    365 * y + y / 4 - y / 100
}

proof fn lemma_year_of_cycle(doe: int, yoe: int)
    requires
        0 <= doe < 146_097,
        yoe == (doe - doe / 1460 + doe / 36_524 - doe / 146_096) / 365,
    ensures
        0 <= yoe < 400,
        march_days(yoe) <= doe,
        yoe < 399 ==> doe < march_days(yoe + 1),
        doe - march_days(yoe) <= 365,
{
    let a = doe / 1460;
    let b = doe / 36_524;
    let c = doe / 146_096;
    assert(0 <= b <= 4);
    assert(0 <= c <= 1);
    let q = doe - a + b - c;
    assert(365 * yoe <= q < 365 * yoe + 365);
    let u = yoe / 4;
    let v = yoe / 100;
    let u1 = (yoe + 1) / 4;
    let v1 = (yoe + 1) / 100;
    if b == 0 {
    } else if b == 1 {
    } else if b == 2 {
    } else if b == 3 {
    } else {
    }
}

/// The date of a day, counted from 1970-01-01.
pub fn date_of(days: i64) -> (r: Date)
    requires
        in_range(days as int),
    ensures
        valid_date(r),
        day_number(r) == days,
{
    let z: i64 = days + 719_468;
    let era: i64 = if z >= 0 {
        z / 146_097
    } else {
        -1 - (-1 - z) / 146_097
    };
    assert(0 <= z - era * 146_097 < 146_097);
    let doe: i64 = z - era * 146_097;
    let yoe: i64 = (doe - doe / 1460 + doe / 36_524 - doe / 146_096) / 365;
    proof {
        lemma_year_of_cycle(doe as int, yoe as int);
    }
    let doy: i64 = doe - (365 * yoe + yoe / 4 - yoe / 100);
    let mp: i64 = (5 * doy + 2) / 153;
    let day: i64 = doy - (153 * mp + 2) / 5 + 1;
    let month: i64 = if mp < 10 {
        mp + 3
    } else {
        mp - 9
    };
    let year: i64 = yoe + era * 400 + if month <= 2 {
        1
    } else {
        0
    };
    let r = Date { year, month, day };
    proof {
        lemma_date(days as int, era as int, doe as int, yoe as int, doy as int, mp as int, r);
    }
    r
}

proof fn lemma_date(days: int, era: int, doe: int, yoe: int, doy: int, mp: int, r: Date)
    requires
        days + 719_468 == era * 146_097 + doe,
        0 <= doe < 146_097,
        0 <= yoe < 400,
        march_days(yoe) <= doe,
        yoe < 399 ==> doe < march_days(yoe + 1),
        doy == doe - march_days(yoe),
        doy <= 365,
        mp == (5 * doy + 2) / 153,
        r.day == doy - (153 * mp + 2) / 5 + 1,
        r.month == if mp < 10 { mp + 3 } else { mp - 9 },
        r.year == yoe + era * 400 + if r.month <= 2 { 1int } else { 0 },
    ensures
        valid_date(r),
        day_number(r) == days,
{
    let y = yoe + era * 400;
    lemma_month_starts(y);
    lemma_month_starts(y + 1);
    lemma_leap_of_cycle(yoe, era);
    lemma_leap_of_cycle(yoe + 1, era);
    lemma_month_of_year(doy, mp, r.day as int);
    if doy == 365 {
        lemma_long_year(yoe, doy, doe);
    }
    assert(leaps_before(1970) == 477);
    assert(yoe / 400 == 0);
    assert(leaps_before(y + 1) == yoe / 4 - yoe / 100 + 97 * era);
    if mp >= 10 {
        assert(r.year == y + 1);
        assert(days_before_year(y + 1) == 365 * (y + 1 - 1970) + leaps_before(y + 1) - 477);
    } else {
        assert(r.year == y);
        assert(leaps_before(y) + (if is_leap(y) { 1int } else { 0 }) == leaps_before(y + 1)) by {
            lemma_leap_step(y);
        }
        assert(days_before_year(y) == 365 * (y - 1970) + leaps_before(y) - 477);
    }
}

proof fn lemma_quotient_step(y: int, m: int)
    requires
        m == 4 || m == 100 || m == 400,
    ensures
        y / m == (y - 1) / m + if y % m == 0 { 1int } else { 0 },
{
    if m == 4 {
        assert(y / 4 == (y - 1) / 4 + if y % 4 == 0 { 1int } else { 0 });
    } else if m == 100 {
        assert(y / 100 == (y - 1) / 100 + if y % 100 == 0 { 1int } else { 0 });
    } else {
        assert(y / 400 == (y - 1) / 400 + if y % 400 == 0 { 1int } else { 0 });
    }
}

proof fn lemma_century_is_fourth(y: int)
    ensures
        y % 100 == 0 ==> y % 4 == 0,
{
    if y % 100 == 0 {
        let k = y / 100;
        assert(y == 4 * (25 * k));
    }
}

proof fn lemma_cycle_is_century(y: int)
    ensures
        y % 400 == 0 ==> y % 100 == 0,
{
    if y % 400 == 0 {
        let k = y / 400;
        assert(y == 100 * (4 * k));
    }
}

#[verifier::rlimit(40)]
pub(crate) proof fn lemma_leap_step(y: int)
    ensures
        leaps_before(y + 1) == leaps_before(y) + if is_leap(y) { 1int } else { 0 },
{
    lemma_quotient_step(y, 4);
    lemma_quotient_step(y, 100);
    lemma_quotient_step(y, 400);
    lemma_century_is_fourth(y);
    lemma_cycle_is_century(y);
}

/// The first day of a month of a year that begins in March.
spec fn month_start(mp: int) -> int {
    if mp == 0 {
        0
    } else if mp == 1 {
        31
    } else if mp == 2 {
        61
    } else if mp == 3 {
        92
    } else if mp == 4 {
        122
    } else if mp == 5 {
        153
    } else if mp == 6 {
        184
    } else if mp == 7 {
        214
    } else if mp == 8 {
        245
    } else if mp == 9 {
        275
    } else if mp == 10 {
        306
    } else {
        337
    }
}

proof fn lemma_month_of_year(doy: int, mp: int, day: int)
    requires
        0 <= doy <= 365,
        mp == (5 * doy + 2) / 153,
        day == doy - (153 * mp + 2) / 5 + 1,
    ensures
        0 <= mp <= 11,
        day == doy - month_start(mp) + 1,
        1 <= day <= 31,
        mp == 1 || mp == 3 || mp == 6 || mp == 8 ==> day <= 30,
        mp == 11 ==> day <= 29,
        mp == 11 && day == 29 ==> doy == 365,
{
    assert(0 <= mp <= 11);
    assert((153 * mp + 2) / 5 == month_start(mp));
    if mp == 0 {
    } else if mp == 1 {
    } else if mp == 2 {
    } else if mp == 3 {
    } else if mp == 4 {
    } else if mp == 5 {
    } else if mp == 6 {
    } else if mp == 7 {
    } else if mp == 8 {
    } else if mp == 9 {
    } else if mp == 10 {
    } else {
    }
}

/// A year that begins in March has 366 days only if the February at its end has 29.
proof fn lemma_long_year(yoe: int, doy: int, doe: int)
    requires
        0 <= yoe < 400,
        0 <= doe < 146_097,
        doy == doe - march_days(yoe),
        yoe < 399 ==> doe < march_days(yoe + 1),
        doy == 365,
    ensures
        is_leap(yoe + 1),
{
    let y = yoe + 1;
    if yoe < 399 {
        assert(y / 4 - yoe / 4 == if y % 4 == 0 { 1int } else { 0 });
        assert(y / 100 - yoe / 100 == if y % 100 == 0 { 1int } else { 0 });
        assert(y % 100 == 0 ==> y % 4 == 0);
    } else {
        assert(is_leap(400));
    }
}

/// How years of a cycle of 400 count among all years.
proof fn lemma_leap_of_cycle(yoe: int, era: int)
    requires
        0 <= yoe <= 400,
    ensures
        is_leap(yoe + era * 400) == is_leap(yoe),
        leaps_before(yoe + era * 400 + 1) == yoe / 4 - yoe / 100 + yoe / 400 + 97 * era,
{
    let y = yoe + era * 400;
    assert(y / 4 == yoe / 4 + 100 * era);
    assert(y / 100 == yoe / 100 + 4 * era);
    assert(y / 400 == yoe / 400 + era);
    assert(y % 4 == yoe % 4);
    assert(y % 100 == yoe % 100);
    assert(y % 400 == yoe % 400);
}

/// A number with zeros before it up to a width.
pub open spec fn padded(n: int, width: int) -> Seq<char> {
    let digits = text::decimal_of(n);
    Seq::new(
        (if digits.len() < width {
            width - digits.len()
        } else {
            0
        }) as nat,
        |i: int| '0',
    ) + digits
}

fn pad(n: u64, width: usize) -> (r: String)
    ensures
        r@ == padded(n as int, width as int),
{
    let digits = text::decimal(n);
    let len = digits.as_str().unicode_len();
    let mut out = String::new();
    let zeros: usize = if len < width {
        width - len
    } else {
        0
    };
    let mut i: usize = 0;
    while i < zeros
        invariant
            i <= zeros,
            out@ == Seq::new(i as nat, |k: int| '0'),
        decreases zeros - i,
    {
        out.push('0');
        i += 1;
        assert(out@ =~= Seq::new(i as nat, |k: int| '0'));
    }
    out.append(digits.as_str());
    out
}

/// A year in at least four characters; a year before the year 0 has its sign among them.
pub open spec fn year_text(y: int) -> Seq<char> {
    if y >= 0 {
        padded(y, 4)
    } else {
        seq!['-'] + padded(-y, 3)
    }
}

/// A date as `YYYY-MM-DD`.
pub open spec fn date_text(d: Date) -> Seq<char> {
    year_text(d.year as int) + seq!['-'] + padded(d.month as int, 2) + seq!['-'] + padded(
        d.day as int,
        2,
    )
}

fn write_date(d: Date) -> (r: String)
    requires
        valid_date(d),
        d.year > i64::MIN,
    ensures
        r@ == date_text(d),
{
    let mut out = if d.year >= 0 {
        pad(d.year as u64, 4)
    } else {
        let mut s = String::new();
        s.push('-');
        s.append(pad((-d.year) as u64, 3).as_str());
        assert(s@ =~= year_text(d.year as int));
        s
    };
    out.push('-');
    out.append(pad(d.month as u64, 2).as_str());
    out.push('-');
    out.append(pad(d.day as u64, 2).as_str());
    assert(out@ =~= date_text(d));
    out
}

/// Whether a text is the date of a day.
pub open spec fn is_date_text(s: Seq<char>, days: int) -> bool {
    exists|d: Date| valid_date(d) && #[trigger] day_number(d) == days && s == date_text(d)
}

/// A day, counted from 1970-01-01, as `YYYY-MM-DD`.
pub fn date_string(days_since_epoch: i64) -> (r: String)
    requires
        in_range(days_since_epoch as int),
    ensures
        is_date_text(r@, days_since_epoch as int),
{
    let d = date_of(days_since_epoch);
    proof {
        lemma_year_bound(d);
    }
    write_date(d)
}

proof fn lemma_month_days(y: int, m: int)
    requires
        1 <= m <= 12,
    ensures
        0 <= days_before_month(y, m),
        days_before_month(y, m) + days_in_month(y, m) <= 365 + if is_leap(y) { 1int } else { 0 },
{
    lemma_month_starts(y);
}

proof fn lemma_year_bound(d: Date)
    requires
        valid_date(d),
        in_range(day_number(d)),
    ensures
        d.year > i64::MIN,
{
    lemma_month_days(d.year as int, d.month as int);
}

proof fn lemma_years_grow(a: int, b: int)
    requires
        a < b,
    ensures
        days_before_year(b) >= days_before_year(a + 1),
        days_before_year(a + 1) == days_before_year(a) + 365 + if is_leap(a) { 1int } else { 0 },
    decreases b - a,
{
    lemma_leap_step(a);
    if a + 1 < b {
        lemma_years_grow(a + 1, b);
        lemma_leap_step(a + 1);
    }
}

proof fn lemma_months_grow(y: int, a: int, b: int)
    requires
        1 <= a < b <= 12,
    ensures
        days_before_month(y, b) >= days_before_month(y, a) + days_in_month(y, a),
    decreases b - a,
{
    if a + 1 < b {
        lemma_months_grow(y, a + 1, b);
    }
}

/// Every day has one date only.
pub proof fn law_day_has_one_date(a: Date, b: Date)
    requires
        valid_date(a),
        valid_date(b),
        day_number(a) == day_number(b),
    ensures
        a == b,
{
    lemma_month_days(a.year as int, a.month as int);
    lemma_month_days(b.year as int, b.month as int);
    if a.year < b.year {
        lemma_years_grow(a.year as int, b.year as int);
    } else if b.year < a.year {
        lemma_years_grow(b.year as int, a.year as int);
    } else if a.month < b.month {
        lemma_months_grow(a.year as int, a.month as int, b.month as int);
    } else if b.month < a.month {
        lemma_months_grow(a.year as int, b.month as int, a.month as int);
    }
}

/// Whole seconds of a time in milliseconds, cut off towards zero.
pub open spec fn seconds_of(ms: int) -> int {
    if ms >= 0 {
        ms / 1000
    } else {
        -((-ms) / 1000)
    }
}

/// Whole seconds of a time in milliseconds, cut off towards zero.
pub fn whole_seconds(ms: i64) -> (r: i64)
    ensures
        r == seconds_of(ms as int),
{
    if ms >= 0 {
        ms / MILLIS_PER_SECOND
    } else if ms > i64::MIN {
        -((-ms) / MILLIS_PER_SECOND)
    } else {
        -9_223_372_036_854_775
    }
}

/// The day, counted from 1970-01-01, in the time zone of a browser. The offset is in minutes: UTC
/// minus local time.
pub open spec fn spec_local_day(ms: int, tz_offset_minutes: int) -> int {
    (seconds_of(ms) - tz_offset_minutes * 60) / 86_400
}

/// Whether the local time can be counted in seconds of 64 bits.
pub open spec fn has_local_day(ms: int, tz_offset_minutes: int) -> bool {
    &&& i64::MIN <= tz_offset_minutes * 60 <= i64::MAX
    &&& i64::MIN <= seconds_of(ms) - tz_offset_minutes * 60 <= i64::MAX
}

/// The day, counted from 1970-01-01, in the time zone of a browser.
pub fn local_day(ms: i64, tz_offset_minutes: i64) -> (r: i64)
    requires
        has_local_day(ms as int, tz_offset_minutes as int),
    ensures
        r == spec_local_day(ms as int, tz_offset_minutes as int),
        reachable(r as int),
{
    let seconds = whole_seconds(ms);
    let local: i64 = seconds - tz_offset_minutes * SECONDS_PER_MINUTE;
    if local >= 0 {
        local / SECONDS_PER_DAY
    } else {
        -1 - (-1 - local) / SECONDS_PER_DAY
    }
}

/// The time of a day as `HH:MM:SS`.
pub open spec fn time_text(secs: int) -> Seq<char> {
    padded(secs / 3600, 2) + seq![':'] + padded((secs % 3600) / 60, 2) + seq![':'] + padded(
        secs % 60,
        2,
    )
}

/// Whether a text is a moment, in seconds since 1970, as `YYYY-MM-DDTHH:MM:SSZ`.
pub open spec fn is_iso_text(s: Seq<char>, secs: int) -> bool {
    exists|d: Date|
        valid_date(d) && #[trigger] day_number(d) == secs / 86_400 && s == date_text(d) + seq!['T']
            + time_text(secs % 86_400) + seq!['Z']
}

/// A moment, in seconds since 1970, as `YYYY-MM-DDTHH:MM:SSZ`.
pub fn iso_at(secs: u64) -> (r: String)
    ensures
        is_iso_text(r@, secs as int),
{
    let days: i64 = (secs / 86_400) as i64;
    let rest: u64 = secs % 86_400;
    let d = date_of(days);
    proof {
        lemma_year_bound(d);
    }
    let mut out = write_date(d);
    out.push('T');
    out.append(pad(rest / 3600, 2).as_str());
    out.push(':');
    out.append(pad((rest % 3600) / 60, 2).as_str());
    out.push(':');
    out.append(pad(rest % 60, 2).as_str());
    out.push('Z');
    assert(out@ =~= date_text(d) + seq!['T'] + time_text(rest as int) + seq!['Z']);
    assert(day_number(d) == secs as int / 86_400);
    out
}

/// A moment of the system's clock.
#[verifier::external_type_specification]
#[verifier::external_body]
pub struct ExSystemTime(std::time::SystemTime);

/// Why there is no span from one moment to another: the second lies before the first.
#[verifier::external_type_specification]
#[verifier::external_body]
pub struct ExSystemTimeError(std::time::SystemTimeError);

/// `SystemTime::now`: what the clock shows. Nothing is claimed of it.
pub assume_specification[ std::time::SystemTime::now ]() -> (r: std::time::SystemTime)
;

/// `SystemTime::duration_since`, from the start of 1970: the span up to a moment, or an error for a
/// moment before. Nothing is claimed of it, since it depends on the clock.
#[verifier::external_body]
fn since_epoch(t: &std::time::SystemTime) -> (r: Result<
    std::time::Duration,
    std::time::SystemTimeError,
>) {
    t.duration_since(std::time::UNIX_EPOCH)
}

/// `Duration::as_millis`: the whole milliseconds of a span. A span counts its seconds in 64 bits.
pub assume_specification[ std::time::Duration::as_millis ](d: &std::time::Duration) -> (r: u128)
    ensures
        r <= 18_446_744_073_709_551_615_999,
;

/// Milliseconds since 1970, zero for a clock set before.
fn unix_millis() -> (r: u128)
    ensures
        r <= 18_446_744_073_709_551_615_999,
{
    match since_epoch(&std::time::SystemTime::now()) {
        Ok(d) => d.as_millis(),
        Err(_) => 0,
    }
}

/// Milliseconds since 1970, held at the largest `i64`.
pub fn now_ms() -> (r: i64)
    ensures
        r >= 0,
{
    let ms = unix_millis();
    if ms > i64::MAX as u128 {
        i64::MAX
    } else {
        ms as i64
    }
}

/// The current moment as `YYYY-MM-DDTHH:MM:SSZ`.
pub fn iso_now() -> (r: String)
    ensures
        exists|secs: u64| #[trigger] is_iso_text(r@, secs as int),
{
    let secs: u64 = (unix_millis() / 1000) as u64;
    let r = iso_at(secs);
    assert(is_iso_text(r@, secs as int));
    r
}

} // verus!
