//! Calendar dates and times of day, as the bot keeps and shows them.
//!
//! A date is the number of its day in the proleptic Gregorian calendar,
//! with January 1 of year 1 as day 1; a time of day is the number of
//! seconds since midnight and a nanosecond part, which reaches past one
//! second only in a leap second.
use chrono::Datelike;
use std::str::FromStr;
use vstd::prelude::*;
use crate::text::{fixed_digits, lacks, lemma_fixed_digits_chars, push_char, push_fixed_digits, two_digits};

verus! {

/// The number of the first day that a date can have (January 1, 262144 BCE).
pub const MIN_DAY: i32 = -95_746_129;

/// The number of the last day that a date can have (December 31, 262142 CE).
pub const MAX_DAY: i32 = 95_745_399;

/// A calendar date: the number of its day, January 1 of year 1 being day 1.
#[derive(Clone, Copy, PartialEq, Eq, Structural, Debug, Hash)]
pub struct Date {
    pub days: i32,
}

/// The day number of January 1, 1970.
pub const UNIX_EPOCH_DAY: i32 = 719_163;

impl Default for Date {
    /// January 1, 1970.
    fn default() -> (res: Date)
        ensures
            res.days == UNIX_EPOCH_DAY,
    {
        Date { days: UNIX_EPOCH_DAY }
    }
}


/// Year `y` of the proleptic Gregorian calendar is a leap year: a multiple of
/// 4 that is not a multiple of 100, or a multiple of 400.
pub open spec fn is_leap_year(y: int) -> bool {
    y % 4 == 0 && (y % 100 != 0 || y % 400 == 0)
}

/// The number of days of month `m` of year `y`.
pub open spec fn days_in_month(y: int, m: int) -> int {
    if m == 2 {
        if is_leap_year(y) { 29 } else { 28 }
    } else if m == 4 || m == 6 || m == 9 || m == 11 {
        30
    } else {
        31
    }
}

/// The number of days of year `y` before month `m` begins.
pub open spec fn days_before_month(y: int, m: int) -> int
    decreases m,
{
    if m <= 1 {
        0
    } else {
        days_before_month(y, m - 1) + days_in_month(y, m - 1)
    }
}

/// `year`-`month`-`day` is a date of the calendar: its year between 262144
/// BCE and 262142 CE, its month 1 to 12, its day within the month.
pub open spec fn valid_ymd(year: int, month: int, day: int) -> bool {
    &&& -262143 <= year <= 262142
    &&& 1 <= month <= 12
    &&& 1 <= day <= days_in_month(year, month)
}

/// Year, month and day of month of the date with day number `days`: the
/// calendar date whose day number it is.
pub open spec fn ymd_of(days: i32) -> (i32, u32, u32) {
    choose|t: (i32, u32, u32)| valid_ymd(t.0 as int, t.1 as int, t.2 as int) && day_number(t.0 as int, t.1 as int, t.2 as int) == days
}

/// The day number of `year`-`month`-`day`: the days of the years before it
/// since year 1, those before its month, and its day of month.
pub open spec fn day_number(year: int, month: int, day: int) -> int {
    let p = year - 1;
    365 * p + p / 4 - p / 100 + p / 400 + days_before_month(year, month) + day
}

/// The day number of the calendar date `year`-`month`-`day`, if there is such a date.
pub open spec fn days_of_ymd(year: i32, month: u32, day: u32) -> Option<i32> {
    if valid_ymd(year as int, month as int, day as int) {
        Some(day_number(year as int, month as int, day as int) as i32)
    } else {
        None
    }
}

/// The weekday of the date with day number `days`, Monday being 0: day 1,
/// January 1 of year 1, was a Monday.
pub open spec fn weekday_of(days: i32) -> u32 {
    ((days - 1) % 7) as u32
}

/// The day number of the date that `text` spells in the form `%Y-%m-%d`, if it spells one.
pub uninterp spec fn parsed_date(text: Seq<char>) -> Option<i32>;

/// Year, month and day of month of the date with day number `days`, from
/// chrono's `NaiveDate::from_num_days_from_ce_opt` and its `year`, `month`
/// and `day`. Trusted: that every day number from `MIN_DAY` to `MAX_DAY` is a
/// date, and that its parts are a calendar date whose day number is `days`.
#[verifier::external_body]
fn ymd_of_days(days: i32) -> (res: (i32, u32, u32))
    requires
        MIN_DAY <= days <= MAX_DAY,
    ensures
        res == ymd_of(days),
        valid_ymd(res.0 as int, res.1 as int, res.2 as int),
        day_number(res.0 as int, res.1 as int, res.2 as int) == days,
        1 <= res.1 <= 12,
        1 <= res.2 <= 31,
        -262143 <= res.0 <= 262142,
{
    let d = chrono::NaiveDate::from_num_days_from_ce_opt(days).unwrap();
    (d.year(), d.month(), d.day())
}

/// The day number of the calendar date `year`-`month`-`day`, if it exists,
/// from chrono's `NaiveDate::from_ymd_opt` and `num_days_from_ce`. Trusted:
/// that the triples that are dates are those `valid_ymd` names, that their
/// day number is `day_number` (days since January 1 of year 1, that day being
/// day 1, in the proleptic Gregorian calendar), between `MIN_DAY` and
/// `MAX_DAY`, and that the date has that year, month and day.
#[verifier::external_body]
fn days_from_ymd(year: i32, month: u32, day: u32) -> (res: Option<i32>)
    ensures
        res == days_of_ymd(year, month, day),
        res matches Some(n) ==> MIN_DAY <= n <= MAX_DAY && ymd_of(n) == (year, month, day),
{
    chrono::NaiveDate::from_ymd_opt(year, month, day).map(|d| d.num_days_from_ce())
}

/// The weekday of the date with day number `days`, Monday being 0, from
/// chrono's `weekday` and `Weekday::num_days_from_monday`. Trusted: that it is
/// `weekday_of(days)`, the weekdays following each other from the Monday
/// that day 1 was.
#[verifier::external_body]
fn weekday_of_days(days: i32) -> (res: u32)
    requires
        MIN_DAY <= days <= MAX_DAY,
    ensures
        res == weekday_of(days),
        res < 7,
{
    chrono::NaiveDate::from_num_days_from_ce_opt(days).unwrap().weekday().num_days_from_monday()
}

/// The day number of the date that `text` spells as `%Y-%m-%d`, if it spells
/// one, from chrono's `NaiveDate::from_str`. Trusted: that a date it gives is
/// within the calendar, and that the text `%Y-%m-%d` writes of a date of the
/// years 0 to 9999 gives that date back; what other texts give is left to
/// the name `parsed_date`.
#[verifier::external_body]
fn parse_date_days(text: &str) -> (res: Option<i32>)
    ensures
        res == parsed_date(text@),
        res matches Some(n) ==> MIN_DAY <= n <= MAX_DAY,
        forall|d: Date|
            d.wf() && 0 <= d.year() <= 9999 && text@ == #[trigger] d.text() ==> res == Some(d.days),
{
    chrono::NaiveDate::from_str(text).ok().map(|d| d.num_days_from_ce())
}

/// The number of decimal digits of `n`.
pub open spec fn num_digits(n: nat) -> nat
    decreases n,
{
    if n < 10 {
        1
    } else {
        1 + num_digits(n / 10)
    }
}

/// The year as `%Y` writes it: four digits from year 0 to 9999, else a sign
/// and at least four digits.
pub open spec fn year_text(y: int) -> Seq<char> {
    if 0 <= y <= 9999 {
        fixed_digits(y as nat, 4)
    } else {
        let a: nat = if y < 0 { (-y) as nat } else { y as nat };
        let width: nat = if num_digits(a) < 4 { 4 } else { num_digits(a) };
        seq![if y < 0 { '-' } else { '+' }] + fixed_digits(a, width)
    }
}

/// Day of month and month as `%d.%m` writes them.
pub open spec fn day_month_parts_text(day: nat, month: nat) -> Seq<char> {
    two_digits(day) + seq!['.'] + two_digits(month)
}

/// Year, month and day of month as `%Y-%m-%d` writes them.
pub open spec fn date_parts_text(year: int, month: nat, day: nat) -> Seq<char> {
    year_text(year) + seq!['-'] + two_digits(month) + seq!['-'] + two_digits(day)
}

/// Day of month and month as `%d.%m` writes them.
pub fn format_day_month_parts(day: u32, month: u32) -> (res: String)
    ensures
        res@ == day_month_parts_text(day as nat, month as nat),
{
    let mut s = String::new();
    push_fixed_digits(&mut s, day, 2);
    push_char(&mut s, '.');
    push_fixed_digits(&mut s, month, 2);
    proof {
        assert(s@ =~= day_month_parts_text(day as nat, month as nat));
    }
    s
}

/// Year, month and day of month as `%Y-%m-%d` writes them.
pub fn format_date_parts(year: i32, month: u32, day: u32) -> (res: String)
    requires
        -262143 <= year <= 262142,
    ensures
        res@ == date_parts_text(year as int, month as nat, day as nat),
{
    let mut s = String::new();
    push_year(&mut s, year);
    push_char(&mut s, '-');
    push_fixed_digits(&mut s, month, 2);
    push_char(&mut s, '-');
    push_fixed_digits(&mut s, day, 2);
    proof {
        assert(s@ =~= date_parts_text(year as int, month as nat, day as nat));
    }
    s
}

impl Date {
    /// The date names a day that the calendar can hold.
    pub open spec fn wf(self) -> bool {
        MIN_DAY <= self.days <= MAX_DAY
    }

    /// Year of the date.
    pub open spec fn year(self) -> int {
        ymd_of(self.days).0 as int
    }

    /// Month of the date, 1 to 12.
    pub open spec fn month(self) -> nat {
        ymd_of(self.days).1 as nat
    }

    /// Day of month of the date, 1 to 31.
    pub open spec fn day(self) -> nat {
        ymd_of(self.days).2 as nat
    }

    /// Weekday of the date, Monday being 0.
    pub open spec fn weekday(self) -> nat {
        weekday_of(self.days) as nat
    }

    /// The date as `%d.%m` writes it.
    pub open spec fn day_month_text(self) -> Seq<char> {
        day_month_parts_text(self.day(), self.month())
    }

    /// The date as `%Y-%m-%d` writes it, the form it is shown and read in.
    pub open spec fn text(self) -> Seq<char> {
        date_parts_text(self.year(), self.month(), self.day())
    }

    /// The date `n` days after this one.
    pub open spec fn plus(self, n: int) -> Date {
        Date { days: (self.days + n) as i32 }
    }

    /// Whether the date names a day that the calendar can hold.
    pub fn is_valid(&self) -> (res: bool)
        ensures
            res == self.wf(),
    {
        MIN_DAY <= self.days && self.days <= MAX_DAY
    }

    /// The date with the given day number, if the calendar holds it.
    pub fn from_days(days: i32) -> (res: Option<Date>)
        ensures
            res matches Some(d) ==> d.days == days,
            res is Some <==> MIN_DAY <= days <= MAX_DAY,
    {
        if MIN_DAY <= days && days <= MAX_DAY {
            Some(Date { days })
        } else {
            None
        }
    }

    /// The calendar date `year`-`month`-`day`, if it exists.
    pub fn from_ymd(year: i32, month: u32, day: u32) -> (res: Option<Date>)
        ensures
            res matches Some(d) ==> Some(d.days) == days_of_ymd(year, month, day) && d.wf()
                && d.year() == year && d.month() == month && d.day() == day,
            res is None <==> days_of_ymd(year, month, day) is None,
    {
        match days_from_ymd(year, month, day) {
            Some(n) => Some(Date { days: n }),
            None => None,
        }
    }

    /// The date that `text` spells as `%Y-%m-%d`, if it spells one; the text
    /// of a date of the years 0 to 9999 gives back that date.
    pub fn parse(text: &str) -> (res: Option<Date>)
        ensures
            res matches Some(d) ==> Some(d.days) == parsed_date(text@) && d.wf(),
            res is None <==> parsed_date(text@) is None,
            forall|d: Date|
                d.wf() && 0 <= d.year() <= 9999 && text@ == #[trigger] d.text() ==> res == Some(d),
    {
        match parse_date_days(text) {
            Some(n) => Some(Date { days: n }),
            None => None,
        }
    }

    /// Year, month and day of month of the date.
    pub fn ymd(&self) -> (res: (i32, u32, u32))
        requires
            self.wf(),
        ensures
            res == ymd_of(self.days),
            valid_ymd(res.0 as int, res.1 as int, res.2 as int),
            day_number(res.0 as int, res.1 as int, res.2 as int) == self.days,
            1 <= res.1 <= 12,
            1 <= res.2 <= 31,
            -262143 <= res.0 <= 262142,
    {
        ymd_of_days(self.days)
    }

    /// Weekday of the date, Monday being 0.
    pub fn weekday_from_monday(&self) -> (res: u32)
        requires
            self.wf(),
        ensures
            res == self.weekday(),
            res < 7,
    {
        weekday_of_days(self.days)
    }

    /// The date `n` days after this one.
    pub fn add_days(&self, n: i32) -> (res: Date)
        requires
            self.wf(),
            MIN_DAY <= self.days + n <= MAX_DAY,
        ensures
            res == self.plus(n as int),
            res.wf(),
    {
        Date { days: self.days + n }
    }

    /// The date as `%d.%m` writes it.
    pub fn format_day_month(&self) -> (res: String)
        requires
            self.wf(),
        ensures
            res@ == self.day_month_text(),
    {
        let (_y, m, d) = self.ymd();
        format_day_month_parts(d, m)
    }

    /// The date as `%Y-%m-%d` writes it.
    pub fn to_text(&self) -> (res: String)
        requires
            self.wf(),
        ensures
            res@ == self.text(),
    {
        let (y, m, d) = self.ymd();
        format_date_parts(y, m, d)
    }
}

/// Weekdays follow each other: the day after a date is the next weekday,
/// Monday after Sunday, and a date `7 * n` days on has the same weekday.
pub proof fn law_weekday_cycle(d: Date, n: int)
    requires
        d.wf(),
        d.plus(1).wf(),
        MIN_DAY <= d.days + 7 * n <= MAX_DAY,
    ensures
        d.plus(1).weekday() == (d.weekday() + 1) % 7,
        d.plus(7 * n).weekday() == d.weekday(),
{
    let x = d.days as int;
    assert((x + 7 * n - 1) % 7 == (x - 1) % 7) by (nonlinear_arith);
    assert((x + 1 - 1) % 7 == ((x - 1) % 7 + 1) % 7) by (nonlinear_arith);
}

/// The text of a date holds no `/`.
pub proof fn lemma_date_text_lacks_slash(d: Date)
    ensures
        lacks(d.text(), '/'),
{
    let y = d.year();
    let a: nat = if y < 0 { (-y) as nat } else { y as nat };
    let width: nat = if num_digits(a) < 4 { 4 } else { num_digits(a) };
    lemma_fixed_digits_chars(y as nat, 4);
    lemma_fixed_digits_chars(a, width);
    lemma_fixed_digits_chars(d.month(), 2);
    lemma_fixed_digits_chars(d.day(), 2);
    let yt = year_text(y);
    assert forall|i: int| 0 <= i < yt.len() implies yt[i] != '/' by {
        if !(0 <= y <= 9999) && i > 0 {
            assert(yt[i] == fixed_digits(a, width)[i - 1]);
        }
    }
    let t = d.text();
    assert forall|i: int| 0 <= i < t.len() implies t[i] != '/' by {
        let l = yt.len() as int;
        if i < l {
            assert(t[i] == yt[i]);
        } else if i == l || i == l + 3 {
        } else if i < l + 3 {
            assert(t[i] == two_digits(d.month())[i - l - 1]);
        } else {
            assert(t[i] == two_digits(d.day())[i - l - 4]);
        }
    }
}

/// The number of decimal digits of `n`.
fn count_digits(n: u32) -> (res: u32)
    requires
        n < 1_000_000,
    ensures
        res == num_digits(n as nat),
        n < 10 ==> res <= 1,
        n < 100 ==> res <= 2,
        n < 1_000 ==> res <= 3,
        n < 10_000 ==> res <= 4,
        n < 100_000 ==> res <= 5,
        res <= 6,
    decreases n,
{
    if n < 10 {
        1
    } else {
        1 + count_digits(n / 10)
    }
}

/// Appends the year as `%Y` writes it.
fn push_year(s: &mut String, y: i32)
    requires
        -262143 <= y <= 262142,
    ensures
        final(s)@ == old(s)@ + year_text(y as int),
{
    if 0 <= y && y <= 9999 {
        push_fixed_digits(s, y as u32, 4);
    } else {
        let a: u32 = if y < 0 { (-y) as u32 } else { y as u32 };
        let n = count_digits(a);
        let width: u32 = if n < 4 { 4 } else { n };
        push_char(s, if y < 0 { '-' } else { '+' });
        push_fixed_digits(s, a, width);
        proof {
            assert(final(s)@ =~= old(s)@ + year_text(y as int));
        }
    }
}

/// A time of day: seconds since midnight and a nanosecond part, which is at
/// least one second only in a leap second.
#[derive(Clone, Copy, PartialEq, Eq, Structural, Debug, Hash)]
pub struct Time {
    pub secs: u32,
    pub nanos: u32,
}

impl Default for Time {
    /// Midnight.
    fn default() -> (res: Time)
        ensures
            res.secs == 0 && res.nanos == 0,
    {
        Time { secs: 0, nanos: 0 }
    }
}

/// The fraction of a second as written after the seconds: nothing for a whole
/// second, else a point and three, six or nine digits, the fewest that hold it.
pub open spec fn fraction_text(nanos: nat) -> Seq<char> {
    if nanos == 0 {
        Seq::empty()
    } else if nanos % 1_000_000 == 0 {
        seq!['.'] + fixed_digits(nanos / 1_000_000, 3)
    } else if nanos % 1_000 == 0 {
        seq!['.'] + fixed_digits(nanos / 1_000, 6)
    } else {
        seq!['.'] + fixed_digits(nanos, 9)
    }
}

impl Time {
    /// The time names an instant of a day, a leap second only at the end of a minute.
    pub open spec fn wf(self) -> bool {
        &&& self.secs < 86_400
        &&& self.nanos < 2_000_000_000
        &&& self.nanos >= 1_000_000_000 ==> self.secs % 60 == 59
    }

    /// Hour of the time, 0 to 23.
    pub open spec fn hour(self) -> nat {
        (self.secs / 3600) as nat
    }

    /// Minute of the time, 0 to 59.
    pub open spec fn minute(self) -> nat {
        ((self.secs / 60) % 60) as nat
    }

    /// This time is not later than `other`.
    pub open spec fn not_after(self, other: Time) -> bool {
        self.secs < other.secs || (self.secs == other.secs && self.nanos <= other.nanos)
    }

    /// The time as `%H:%M` writes it.
    pub open spec fn hour_minute_text(self) -> Seq<char> {
        two_digits(self.hour()) + seq![':'] + two_digits(self.minute())
    }

    /// The time as it is shown in full: `%H:%M:%S`, the leap second as second
    /// 60, and the fraction of a second where there is one.
    pub open spec fn text(self) -> Seq<char> {
        let leap = self.nanos >= 1_000_000_000;
        let second: nat = if leap { (self.secs % 60 + 1) as nat } else { (self.secs % 60) as nat };
        let nanos: nat = if leap { (self.nanos - 1_000_000_000) as nat } else { self.nanos as nat };
        self.hour_minute_text() + seq![':'] + two_digits(second) + fraction_text(nanos)
    }

    /// Whether the time names an instant of a day.
    pub fn is_valid(&self) -> (res: bool)
        ensures
            res == self.wf(),
    {
        self.secs < 86_400 && self.nanos < 2_000_000_000 && (self.nanos < 1_000_000_000 || self.secs
            % 60 == 59)
    }

    /// The time `hour`:`min`:`sec`, if each part is in its range.
    pub fn from_hms_opt(hour: u32, min: u32, sec: u32) -> (res: Option<Time>)
        ensures
            res is Some <==> hour < 24 && min < 60 && sec < 60,
            res matches Some(t) ==> t.secs == hour * 3600 + min * 60 + sec && t.nanos == 0
                && t.wf(),
    {
        if hour < 24 && min < 60 && sec < 60 {
            Some(Time { secs: hour * 3600 + min * 60 + sec, nanos: 0 })
        } else {
            None
        }
    }

    /// Whether this time is not later than `other`.
    pub fn is_not_after(&self, other: &Time) -> (res: bool)
        ensures
            res == self.not_after(*other),
    {
        self.secs < other.secs || (self.secs == other.secs && self.nanos <= other.nanos)
    }

    /// The time as `%H:%M` writes it.
    pub fn format_hour_minute(&self) -> (res: String)
        requires
            self.wf(),
        ensures
            res@ == self.hour_minute_text(),
    {
        let mut s = String::new();
        push_fixed_digits(&mut s, self.secs / 3600, 2);
        push_char(&mut s, ':');
        push_fixed_digits(&mut s, (self.secs / 60) % 60, 2);
        proof {
            assert(s@ =~= self.hour_minute_text());
        }
        s
    }

    /// The time as it is shown in full.
    pub fn to_text(&self) -> (res: String)
        requires
            self.wf(),
        ensures
            res@ == self.text(),
    {
        let leap = self.nanos >= 1_000_000_000;
        let second: u32 = if leap { self.secs % 60 + 1 } else { self.secs % 60 };
        let nanos: u32 = if leap { self.nanos - 1_000_000_000 } else { self.nanos };
        let mut s = self.format_hour_minute();
        push_char(&mut s, ':');
        push_fixed_digits(&mut s, second, 2);
        if nanos == 0 {
        } else if nanos % 1_000_000 == 0 {
            push_char(&mut s, '.');
            push_fixed_digits(&mut s, nanos / 1_000_000, 3);
        } else if nanos % 1_000 == 0 {
            push_char(&mut s, '.');
            push_fixed_digits(&mut s, nanos / 1_000, 6);
        } else {
            push_char(&mut s, '.');
            push_fixed_digits(&mut s, nanos, 9);
        }
        proof {
            assert(s@ =~= self.text());
        }
        s
    }
}

} // verus!
