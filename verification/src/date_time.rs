//! Points in time, counted in microseconds since the Unix epoch, and their
//! calendar form in UTC.

use vstd::arithmetic::div_mod::{
    lemma_fundamental_div_mod, lemma_fundamental_div_mod_converse, lemma_hoist_over_denominator,
    lemma_mod_multiples_vanish,
};
use vstd::prelude::*;
use vstd::string::StringExecFns;

verus! {

pub const MICROS_PER_SECOND: i64 = 1_000_000;

pub const MICROS_PER_DAY: i64 = 86_400_000_000;

/// Days in 400 years of the Gregorian calendar.
pub const DAYS_PER_CYCLE: i64 = 146_097;

pub open spec fn is_leap_year(year: int) -> bool {
    year % 4 == 0 && (year % 100 != 0 || year % 400 == 0)
}

pub open spec fn days_in_year(year: int) -> int {
    if is_leap_year(year) {
        366
    } else {
        365
    }
}

pub open spec fn days_in_month(year: int, month: int) -> int {
    if month == 2 {
        if is_leap_year(year) {
            29
        } else {
            28
        }
    } else if month == 4 || month == 6 || month == 9 || month == 11 {
        30
    } else {
        31
    }
}

/// The number of leap years among the years 1 to `year - 1`.
pub open spec fn leap_years_before(year: int) -> int {
    (year - 1) / 4 - (year - 1) / 100 + (year - 1) / 400
}

/// Days from 1970-01-01 to the first day of `year`; negative before 1970.
pub open spec fn days_before_year(year: int) -> int {
    365 * (year - 1970) + leap_years_before(year) - leap_years_before(1970)
}

/// Days from the first day of `year` to the first day of `month` in it.
pub open spec fn days_before_month(year: int, month: int) -> int {
    let leap: int = if is_leap_year(year) {
        1
    } else {
        0
    };
    if month <= 1 {
        0
    } else if month == 2 {
        31
    } else if month == 3 {
        59 + leap
    } else if month == 4 {
        90 + leap
    } else if month == 5 {
        120 + leap
    } else if month == 6 {
        151 + leap
    } else if month == 7 {
        181 + leap
    } else if month == 8 {
        212 + leap
    } else if month == 9 {
        243 + leap
    } else if month == 10 {
        273 + leap
    } else if month == 11 {
        304 + leap
    } else if month == 12 {
        334 + leap
    } else {
        365 + leap
    }
}

/// A date and time of day in UTC, as a mathematical value.
pub struct CivilModel {
    pub year: int,
    pub month: int,
    pub day: int,
    pub hour: int,
    pub minute: int,
    pub second: int,
    pub micro: int,
}

impl CivilModel {
    /// The fields name a day of the calendar and a time of that day.
    pub open spec fn valid(self) -> bool {
        &&& 1 <= self.month <= 12
        &&& 1 <= self.day <= days_in_month(self.year, self.month)
        &&& 0 <= self.hour < 24
        &&& 0 <= self.minute < 60
        &&& 0 <= self.second < 60
        &&& 0 <= self.micro < 1_000_000
    }

    /// Days from 1970-01-01 to the day.
    pub open spec fn day_number(self) -> int {
        days_before_year(self.year) + days_before_month(self.year, self.month) + self.day - 1
    }

    /// Microseconds from midnight to the time of day.
    pub open spec fn micro_of_day(self) -> int {
        ((self.hour * 60 + self.minute) * 60 + self.second) * 1_000_000 + self.micro
    }

    /// Microseconds from 1970-01-01T00:00:00 to the date and time.
    pub open spec fn unix_micros(self) -> int {
        self.day_number() * 86_400_000_000 + self.micro_of_day()
    }
}

/// The character that writes a decimal digit.
pub open spec fn digit_char(digit: int) -> char {
    (48 + digit) as char
}

/// The decimal digits of `n`, with zeros in front where they are fewer than
/// `width`.
pub open spec fn pad_decimal(n: nat, width: nat) -> Seq<char>
    decreases n, width,
{
    if n < 10 && width <= 1 {
        seq![digit_char(n as int)]
    } else {
        pad_decimal(
            n / 10,
            if width > 0 {
                (width - 1) as nat
            } else {
                0
            },
        ).push(digit_char((n % 10) as int))
    }
}

impl CivilModel {
    /// The year in four digits; a year before 0 or after 9999 has its sign in
    /// front and as many digits as it needs.
    pub open spec fn year_text(self) -> Seq<char> {
        if self.year < 0 {
            seq!['-'] + pad_decimal((-self.year) as nat, 4)
        } else if self.year > 9999 {
            seq!['+'] + pad_decimal(self.year as nat, 4)
        } else {
            pad_decimal(self.year as nat, 4)
        }
    }

    /// Date and time to the second: `YYYY-MM-DDTHH:MM:SS`.
    pub open spec fn seconds_text(self) -> Seq<char> {
        self.year_text() + seq!['-'] + pad_decimal(self.month as nat, 2) + seq!['-'] + pad_decimal(
            self.day as nat,
            2,
        ) + seq!['T'] + pad_decimal(self.hour as nat, 2) + seq![':'] + pad_decimal(
            self.minute as nat,
            2,
        ) + seq![':'] + pad_decimal(self.second as nat, 2)
    }

    /// Date and time to the microsecond, with the offset of UTC:
    /// `YYYY-MM-DDTHH:MM:SS.ffffff+00:00`.
    pub open spec fn rfc3339_text(self) -> Seq<char> {
        self.seconds_text() + seq!['.'] + pad_decimal(self.micro as nat, 6) + "+00:00"@
    }

    /// Date and time cut to the millisecond: `YYYY-MM-DDTHH:MM:SS.fff`.
    pub open spec fn millis_text(self) -> Seq<char> {
        self.seconds_text() + seq!['.'] + pad_decimal((self.micro / 1000) as nat, 3)
    }
}

/// The date and time of day in UTC at `micros` microseconds after the epoch.
/// `lemma_civil_is_unique` shows that there is at most one, and
/// `Timestamp::to_civil` finds it for every timestamp.
pub open spec fn civil_of(micros: int) -> CivilModel {
    choose|civil: CivilModel| civil.valid() && civil.unix_micros() == micros
}

/// Counting the multiples of four up to a number, one step further.
proof fn lemma_div_step_4(a: int)
    ensures
        (a + 1) / 4 == a / 4 + if (a + 1) % 4 == 0 {
            1int
        } else {
            0int
        },
{
}

/// Counting the multiples of a hundred up to a number, one step further.
proof fn lemma_div_step_100(a: int)
    ensures
        (a + 1) / 100 == a / 100 + if (a + 1) % 100 == 0 {
            1int
        } else {
            0int
        },
{
}

/// Counting the multiples of four hundred up to a number, one step further.
proof fn lemma_div_step_400(a: int)
    ensures
        (a + 1) / 400 == a / 400 + if (a + 1) % 400 == 0 {
            1int
        } else {
            0int
        },
{
}

/// A multiple of four hundred is one of a hundred, and a multiple of a
/// hundred is one of four.
proof fn lemma_multiples(year: int)
    ensures
        year % 400 == 0 ==> year % 100 == 0,
        year % 100 == 0 ==> year % 4 == 0,
{
}

/// A year is as long as the distance between its start and the next one's.
pub proof fn lemma_year_length(year: int)
    ensures
        days_before_year(year + 1) == days_before_year(year) + days_in_year(year),
        days_before_month(year, 13) == days_in_year(year),
{
    lemma_div_step_4(year - 1);
    lemma_div_step_100(year - 1);
    lemma_div_step_400(year - 1);
    lemma_multiples(year);
    assert(leap_years_before(year + 1) == leap_years_before(year) + if is_leap_year(year) {
        1int
    } else {
        0int
    });
}

/// Every year starts later than the year before it.
pub proof fn lemma_year_starts_increase(earlier: int, later: int)
    requires
        earlier <= later,
    ensures
        days_before_year(earlier) + 365 * (later - earlier) <= days_before_year(later),
        days_before_year(later) <= days_before_year(earlier) + 366 * (later - earlier),
    decreases later - earlier,
{
    if earlier < later {
        lemma_year_starts_increase(earlier, later - 1);
        lemma_year_length(later - 1);
    }
}

/// Two valid times of day at the same microsecond of the day are the same.
proof fn lemma_time_is_unique(a: CivilModel, b: CivilModel)
    requires
        a.valid(),
        b.valid(),
        a.micro_of_day() == b.micro_of_day(),
    ensures
        a.hour == b.hour,
        a.minute == b.minute,
        a.second == b.second,
        a.micro == b.micro,
{
    let a_seconds = (a.hour * 60 + a.minute) * 60 + a.second;
    let b_seconds = (b.hour * 60 + b.minute) * 60 + b.second;
    assert(a_seconds * 1_000_000 + a.micro == b_seconds * 1_000_000 + b.micro);
    assert(a_seconds == b_seconds);
    let a_minutes = a.hour * 60 + a.minute;
    let b_minutes = b.hour * 60 + b.minute;
    assert(a_minutes * 60 + a.second == b_minutes * 60 + b.second);
    assert(a_minutes == b_minutes);
}

/// Two valid days of one year at the same place in the year are the same.
proof fn lemma_day_of_year_is_unique(year: int, a: CivilModel, b: CivilModel)
    requires
        a.valid(),
        b.valid(),
        a.year == year,
        b.year == year,
        days_before_month(year, a.month) + a.day == days_before_month(year, b.month) + b.day,
    ensures
        a.month == b.month,
        a.day == b.day,
{
    assert(days_before_month(year, a.month) + days_in_month(year, a.month) == days_before_month(
        year,
        a.month + 1,
    ));
    assert(days_before_month(year, b.month) + days_in_month(year, b.month) == days_before_month(
        year,
        b.month + 1,
    ));
    if a.month < b.month {
        assert(days_before_month(year, a.month + 1) <= days_before_month(year, b.month));
    }
    if b.month < a.month {
        assert(days_before_month(year, b.month + 1) <= days_before_month(year, a.month));
    }
}

/// A valid day lies in its year.
proof fn lemma_day_lies_in_year(a: CivilModel)
    requires
        a.valid(),
    ensures
        days_before_year(a.year) <= a.day_number() < days_before_year(a.year + 1),
{
    lemma_year_length(a.year);
    assert(days_before_month(a.year, a.month) + days_in_month(a.year, a.month)
        == days_before_month(a.year, a.month + 1));
    assert(days_before_month(a.year, a.month + 1) <= days_before_month(a.year, 13));
}

/// Two valid dates and times at the same microsecond are the same.
pub proof fn lemma_civil_is_unique(a: CivilModel, b: CivilModel)
    requires
        a.valid(),
        b.valid(),
        a.unix_micros() == b.unix_micros(),
    ensures
        a == b,
{
    assert(0 <= a.micro_of_day() < 86_400_000_000);
    assert(0 <= b.micro_of_day() < 86_400_000_000);
    assert(a.day_number() == b.day_number());
    assert(a.micro_of_day() == b.micro_of_day());
    lemma_time_is_unique(a, b);
    lemma_day_lies_in_year(a);
    lemma_day_lies_in_year(b);
    if a.year < b.year {
        lemma_year_starts_increase(a.year + 1, b.year);
    }
    if b.year < a.year {
        lemma_year_starts_increase(b.year + 1, a.year);
    }
    assert(a.year == b.year);
    lemma_day_of_year_is_unique(a.year, a, b);
}

/// The only valid date and time at a microsecond is `civil_of` of it.
pub proof fn lemma_civil_of(civil: CivilModel)
    requires
        civil.valid(),
    ensures
        civil_of(civil.unix_micros()) == civil,
{
    let found = civil_of(civil.unix_micros());
    assert(found.valid() && found.unix_micros() == civil.unix_micros());
    lemma_civil_is_unique(found, civil);
}

/// A date and time of day in UTC.
#[derive(Debug, Clone, Copy, PartialEq, Eq, Structural)]
pub struct CivilDateTime {
    pub year: i64,
    pub month: u8,
    pub day: u8,
    pub hour: u8,
    pub minute: u8,
    pub second: u8,
    pub micro: u32,
}

impl View for CivilDateTime {
    type V = CivilModel;

    open spec fn view(&self) -> CivilModel {
        CivilModel {
            year: self.year as int,
            month: self.month as int,
            day: self.day as int,
            hour: self.hour as int,
            minute: self.minute as int,
            second: self.second as int,
            micro: self.micro as int,
        }
    }
}

/// A point in time: microseconds since 1970-01-01T00:00:00 UTC.
#[derive(Debug, Clone, Copy, PartialEq, Eq, Structural)]
pub struct Timestamp {
    pub unix_microseconds: i64,
}

/// Whether a year between 1970 and 2370 is a leap year.
fn leap_year(year: i64) -> (leap: bool)
    requires
        1970 <= year <= 2370,
    ensures
        leap == is_leap_year(year as int),
{
    year % 4 == 0 && (year % 100 != 0 || year % 400 == 0)
}

/// Days from 1970-01-01 to the first day of a year between 1970 and 2370.
fn year_start(year: i64) -> (days: i64)
    requires
        1970 <= year <= 2370,
    ensures
        days == days_before_year(year as int),
        365 * (year - 1970) <= days <= 366 * (year - 1970),
{
    proof {
        lemma_year_starts_increase(1970, year as int);
    }
    let before = year - 1;
    365 * (year - 1970) + (before / 4 - before / 100 + before / 400) - 477
}

/// The length of a month of a year between 1970 and 2370.
fn month_length(year: i64, month: u8) -> (days: i64)
    requires
        1970 <= year <= 2370,
        1 <= month <= 12,
    ensures
        days == days_in_month(year as int, month as int),
{
    if month == 2 {
        if leap_year(year) {
            29
        } else {
            28
        }
    } else if month == 4 || month == 6 || month == 9 || month == 11 {
        30
    } else {
        31
    }
}

/// Splits a count into whole units of `unit` and the rest, rounding towards
/// minus infinity, so that the rest is never negative.
fn floor_div(value: i64, unit: i64) -> (parts: (i64, i64))
    requires
        unit > 0,
    ensures
        value == parts.0 * unit + parts.1,
        0 <= parts.1 < unit,
        parts.0 == value as int / unit as int,
{
    if value >= 0 {
        let whole = value / unit;
        let rest = value % unit;
        proof {
            lemma_fundamental_div_mod(value as int, unit as int);
            assert(unit * whole == whole * unit) by (nonlinear_arith);
        }
        (whole, rest)
    } else {
        let below = -(value + 1);
        let whole = below / unit;
        let rest = below % unit;
        proof {
            lemma_fundamental_div_mod(below as int, unit as int);
            assert(unit * whole == whole * unit) by (nonlinear_arith);
            assert((-whole - 1) * unit == -(whole * unit) - unit) by (nonlinear_arith);
            lemma_fundamental_div_mod_converse(
                value as int,
                unit as int,
                -whole - 1,
                unit - 1 - rest,
            );
        }
        (-whole - 1, unit - 1 - rest)
    }
}

/// A year that lies a whole number of 400-year cycles away is a leap year
/// exactly if this one is.
pub proof fn lemma_cycle_shift_leap(year: int, cycles: int)
    ensures
        is_leap_year(year + 400 * cycles) == is_leap_year(year),
{
    lemma_mod_multiples_vanish(100 * cycles, year, 4);
    lemma_mod_multiples_vanish(4 * cycles, year, 100);
    lemma_mod_multiples_vanish(cycles, year, 400);
    assert(4 * (100 * cycles) + year == year + 400 * cycles);
    assert(100 * (4 * cycles) + year == year + 400 * cycles);
    assert(400 * cycles + year == year + 400 * cycles);
}

/// A year that lies a whole number of 400-year cycles away starts that many
/// cycles of days away.
pub proof fn lemma_cycle_shift(year: int, cycles: int)
    ensures
        is_leap_year(year + 400 * cycles) == is_leap_year(year),
        days_before_year(year + 400 * cycles) == days_before_year(year) + 146_097 * cycles,
{
    lemma_cycle_shift_leap(year, cycles);
    let before = year - 1;
    lemma_hoist_over_denominator(before, 100 * cycles, 4);
    lemma_hoist_over_denominator(before, 4 * cycles, 100);
    lemma_hoist_over_denominator(before, cycles, 400);
    assert(before + (100 * cycles) * 4 == year + 400 * cycles - 1);
    assert(before + (4 * cycles) * 100 == year + 400 * cycles - 1);
    assert(before + cycles * 400 == year + 400 * cycles - 1);
}

/// The year in which a day of the cycle of 400 years from 1970 lies, and the
/// day's place in that year, counted from zero.
fn year_of_cycle_day(day_of_cycle: i64) -> (found: (i64, i64))
    requires
        0 <= day_of_cycle < 146_097,
    ensures
        1970 <= found.0 < 2370,
        days_before_year(found.0 as int) + found.1 == day_of_cycle,
        0 <= found.1 < days_in_year(found.0 as int),
{
    let mut year: i64 = 1970 + day_of_cycle / 366;
    let mut start = year_start(year);
    let mut next = year_start(year + 1);
    while next <= day_of_cycle
        invariant
            1970 <= year < 2370,
            0 <= day_of_cycle < 146_097,
            start == days_before_year(year as int),
            next == days_before_year(year + 1),
            start <= day_of_cycle,
        decreases 2370 - year,
    {
        year = year + 1;
        start = next;
        next = year_start(year + 1);
    }
    proof {
        lemma_year_length(year as int);
    }
    (year, day_of_cycle - start)
}

/// The month in which a day of a year lies, and the day of the month.
fn month_of_year_day(year: i64, day_of_year: i64) -> (found: (u8, u8))
    requires
        1970 <= year <= 2370,
        0 <= day_of_year < days_in_year(year as int),
    ensures
        1 <= found.0 <= 12,
        1 <= found.1 <= days_in_month(year as int, found.0 as int),
        days_before_month(year as int, found.0 as int) + found.1 - 1 == day_of_year,
{
    let mut month: u8 = 1;
    let mut rest = day_of_year;
    let mut length = month_length(year, month);
    while rest >= length
        invariant
            1970 <= year <= 2370,
            1 <= month <= 12,
            0 <= rest,
            0 <= day_of_year < days_in_year(year as int),
            days_before_month(year as int, month as int) + rest == day_of_year,
            length == days_in_month(year as int, month as int),
        decreases 12 - month,
    {
        rest = rest - length;
        month = month + 1;
        length = month_length(year, month);
    }
    (month, (rest + 1) as u8)
}

/// The character that writes a decimal digit.
fn digit(d: u8) -> (c: char)
    requires
        d < 10,
    ensures
        c == digit_char(d as int),
{
    (48 + d) as char
}

/// Appends the decimal digits of `n` to `out`, with zeros in front where they
/// are fewer than `width`.
fn push_decimal(out: &mut String, n: u64, width: usize)
    ensures
        final(out)@ == old(out)@ + pad_decimal(n as nat, width as nat),
    decreases n, width,
{
    if n < 10 && width <= 1 {
        out.push(digit(n as u8));
        assert(out@ == old(out)@ + seq![digit_char(n as int)]);
    } else {
        let rest: usize = if width > 0 {
            width - 1
        } else {
            0
        };
        push_decimal(out, n / 10, rest);
        out.push(digit((n % 10) as u8));
        assert(out@ == old(out)@ + pad_decimal((n / 10) as nat, rest as nat).push(
            digit_char((n % 10) as int),
        ));
    }
}

impl CivilDateTime {
    /// Appends the date and time to the second.
    fn push_seconds(&self, out: &mut String)
        ensures
            final(out)@ == old(out)@ + self@.seconds_text(),
    {
        if self.year < 0 {
            out.push('-');
            let magnitude: u64 = (-(self.year + 1)) as u64 + 1;
            push_decimal(out, magnitude, 4);
            assert(out@ == old(out)@ + self@.year_text());
        } else if self.year > 9999 {
            out.push('+');
            push_decimal(out, self.year as u64, 4);
            assert(out@ == old(out)@ + self@.year_text());
        } else {
            push_decimal(out, self.year as u64, 4);
        }
        let ghost year = out@;
        out.push('-');
        push_decimal(out, self.month as u64, 2);
        out.push('-');
        push_decimal(out, self.day as u64, 2);
        out.push('T');
        push_decimal(out, self.hour as u64, 2);
        out.push(':');
        push_decimal(out, self.minute as u64, 2);
        out.push(':');
        push_decimal(out, self.second as u64, 2);
        assert(out@ == year + seq!['-'] + pad_decimal(self.month as nat, 2) + seq!['-']
            + pad_decimal(self.day as nat, 2) + seq!['T'] + pad_decimal(self.hour as nat, 2)
            + seq![':'] + pad_decimal(self.minute as nat, 2) + seq![':'] + pad_decimal(
            self.second as nat,
            2,
        ));
        assert(out@ == old(out)@ + self@.seconds_text());
    }

    /// The date and time to the microsecond, with the offset of UTC:
    /// `YYYY-MM-DDTHH:MM:SS.ffffff+00:00`.
    pub fn to_rfc3339(&self) -> (text: String)
        ensures
            text@ == self@.rfc3339_text(),
    {
        let mut out = String::new();
        self.push_seconds(&mut out);
        out.push('.');
        push_decimal(&mut out, self.micro as u64, 6);
        out.append("+00:00");
        assert(out@ == self@.rfc3339_text());
        out
    }

    /// The date and time cut to the millisecond: `YYYY-MM-DDTHH:MM:SS.fff`.
    pub fn to_millis_text(&self) -> (text: String)
        ensures
            text@ == self@.millis_text(),
    {
        let mut out = String::new();
        self.push_seconds(&mut out);
        out.push('.');
        push_decimal(&mut out, (self.micro / 1000) as u64, 3);
        assert(out@ == self@.millis_text());
        out
    }
}

impl Timestamp {
    pub fn new(unix_microseconds: i64) -> (t: Self)
        ensures
            t.unix_microseconds == unix_microseconds,
    {
        Self { unix_microseconds }
    }

    /// The date and time of day in UTC at this point in time.
    pub fn to_civil(&self) -> (civil: CivilDateTime)
        ensures
            civil@.valid(),
            civil@.unix_micros() == self.unix_microseconds,
            civil@ == civil_of(self.unix_microseconds as int),
    {
        let (days, micro_of_day) = floor_div(self.unix_microseconds, MICROS_PER_DAY);
        assert(-106_751_992 <= days <= 106_751_991);
        let (cycles, day_of_cycle) = floor_div(days, DAYS_PER_CYCLE);
        assert(-731 <= cycles <= 731);
        let (year, day_of_year) = year_of_cycle_day(day_of_cycle);
        let (month, day) = month_of_year_day(year, day_of_year);
        let seconds_of_day = micro_of_day / MICROS_PER_SECOND;
        let micro = micro_of_day % MICROS_PER_SECOND;
        let hour = seconds_of_day / 3600;
        let minute = (seconds_of_day % 3600) / 60;
        let second = seconds_of_day % 60;
        let civil = CivilDateTime {
            year: year + 400 * cycles,
            month,
            day,
            hour: hour as u8,
            minute: minute as u8,
            second: second as u8,
            micro: micro as u32,
        };
        proof {
            lemma_cycle_shift(year as int, cycles as int);
            assert(civil@.day_number() == days);
            assert(civil@.micro_of_day() == micro_of_day);
            lemma_civil_of(civil@);
        }
        civil
    }

    /// This point in time as date and time in UTC, to the microsecond:
    /// `YYYY-MM-DDTHH:MM:SS.ffffff+00:00`.
    pub fn to_rfc3339(&self) -> (text: String)
        ensures
            text@ == civil_of(self.unix_microseconds as int).rfc3339_text(),
    {
        self.to_civil().to_rfc3339()
    }

    /// This point in time as date and time in UTC, cut to the millisecond:
    /// `YYYY-MM-DDTHH:MM:SS.fff`.
    pub fn to_millis_text(&self) -> (text: String)
        ensures
            text@ == civil_of(self.unix_microseconds as int).millis_text(),
    {
        self.to_civil().to_millis_text()
    }
}

} // verus!
