//! Calendar dates of pages: read from front matter or taken from the clock, and
//! written out for permalinks and for templates, through the `chrono` crate.
use vstd::prelude::*;
use chrono::Datelike;

verus! {

/// The earliest year of a date that `chrono::NaiveDate` can hold.
pub const MIN_YEAR: i32 = -262143;

/// The latest year of a date that `chrono::NaiveDate` can hold.
pub const MAX_YEAR: i32 = 262142;

/// Leap years of the proleptic Gregorian calendar.
pub open spec fn is_leap_year(y: int) -> bool {
    y % 4 == 0 && (y % 100 != 0 || y % 400 == 0)
}

/// The number of days of month `m` (1 to 12) in year `y`.
pub open spec fn days_in_month(y: int, m: int) -> int {
    if m == 2 {
        if is_leap_year(y) { 29 } else { 28 }
    } else if m == 4 || m == 6 || m == 9 || m == 11 {
        30
    } else {
        31
    }
}

/// Year, month and day name a calendar date that `chrono::NaiveDate` can hold.
pub open spec fn valid_ymd(d: (i32, u32, u32)) -> bool {
    &&& MIN_YEAR <= d.0 <= MAX_YEAR
    &&& 1 <= d.1 <= 12
    &&& 1 <= d.2 <= days_in_month(d.0 as int, d.1 as int)
}

/// The decimal digit `n` (0 to 9).
pub open spec fn digit(n: int) -> char {
    (48 + n) as char
}

/// `n` (0 to 99) in two decimal digits.
pub open spec fn two_digits(n: int) -> Seq<char> {
    seq![digit(n / 10), digit(n % 10)]
}

/// `n` (0 to 9999) in four decimal digits.
pub open spec fn four_digits(n: int) -> Seq<char> {
    seq![digit(n / 1000), digit((n / 100) % 10), digit((n / 10) % 10), digit(n % 10)]
}

/// The English three-letter name of month `m` (1 to 12).
pub open spec fn month_abbreviation(m: int) -> Seq<char> {
    if m == 1 {
        seq!['J', 'a', 'n']
    } else if m == 2 {
        seq!['F', 'e', 'b']
    } else if m == 3 {
        seq!['M', 'a', 'r']
    } else if m == 4 {
        seq!['A', 'p', 'r']
    } else if m == 5 {
        seq!['M', 'a', 'y']
    } else if m == 6 {
        seq!['J', 'u', 'n']
    } else if m == 7 {
        seq!['J', 'u', 'l']
    } else if m == 8 {
        seq!['A', 'u', 'g']
    } else if m == 9 {
        seq!['S', 'e', 'p']
    } else if m == 10 {
        seq!['O', 'c', 't']
    } else if m == 11 {
        seq!['N', 'o', 'v']
    } else {
        seq!['D', 'e', 'c']
    }
}

/// The layout in which front matter writes a date: `2015-06-30`.
pub open spec fn ymd_layout() -> Seq<char> {
    seq!['%', 'Y', '-', '%', 'm', '-', '%', 'd']
}

/// The layout of the date part of a post's permalink: `2015/06/30`.
pub open spec fn slash_layout() -> Seq<char> {
    seq!['%', 'Y', '/', '%', 'm', '/', '%', 'd']
}

/// The layout in which templates show a date: `30 Jun 2015`.
pub open spec fn display_layout() -> Seq<char> {
    seq!['%', 'd', ' ', '%', 'b', ' ', '%', 'Y']
}

/// The date that `chrono::NaiveDate::parse_from_str` reads out of `text` with
/// the layout `layout`, as year, month and day; `None` where it fails.
pub uninterp spec fn parsed_date(text: Seq<char>, layout: Seq<char>) -> Option<(i32, u32, u32)>;

/// The text that `chrono::NaiveDate::format` writes for a date with the layout `layout`.
pub uninterp spec fn formatted_date(date: (i32, u32, u32), layout: Seq<char>) -> Seq<char>;

#[verifier::external_type_specification]
#[verifier::external_body]
pub struct ExParseError(chrono::ParseError);

/// Calls `chrono::NaiveDate::parse_from_str(text, layout)`. Trusted: the date it
/// gives back is the one named by `parsed_date`, and it is a date that
/// `NaiveDate` can hold; the error carries nothing that is stated.
#[verifier::external_body]
fn chrono_parse(text: &str, layout: &str) -> (r: Result<(i32, u32, u32), chrono::ParseError>)
    ensures
        r is Ok <==> parsed_date(text@, layout@) is Some,
        r matches Ok(d) ==> parsed_date(text@, layout@) == Some(d) && valid_ymd(d),
{
    match chrono::NaiveDate::parse_from_str(text, layout) {
        Ok(d) => Ok((d.year(), d.month(), d.day())),
        Err(e) => Err(e),
    }
}

/// Reads the clock: `std::time::SystemTime::now()`, taken as a `Duration` from
/// the Unix epoch forwards or backwards (`duration_since(UNIX_EPOCH)`, whose error
/// holds the duration by which the clock is before the epoch), turned into a
/// `chrono::TimeDelta` by `from_std`, added to or taken from
/// `chrono::DateTime::UNIX_EPOCH` by `checked_add_signed` or `checked_sub_signed`,
/// and the UTC date of that instant as year, month and day. No step panics: each
/// step that can fail gives `None`, which happens only where the clock reads a
/// time whose date `NaiveDate` cannot hold. Trusted: a date that comes back is one
/// that `NaiveDate` can hold. Which date comes back depends on the clock and is
/// not stated.
#[verifier::external_body]
fn clock_today() -> (r: Option<(i32, u32, u32)>)
    ensures
        r matches Some(d) ==> valid_ymd(d),
{
    let epoch = chrono::DateTime::UNIX_EPOCH;
    let now = match std::time::SystemTime::now().duration_since(std::time::UNIX_EPOCH) {
        Ok(after) => match chrono::TimeDelta::from_std(after) {
            Ok(t) => epoch.checked_add_signed(t),
            Err(_) => None,
        },
        Err(before) => match chrono::TimeDelta::from_std(before.duration()) {
            Ok(t) => epoch.checked_sub_signed(t),
            Err(_) => None,
        },
    };
    let d = now?.date_naive();
    Some((d.year(), d.month(), d.day()))
}

/// Calls `chrono::NaiveDate::format(layout)` on the date and writes it out.
/// Trusted: the text is the one named by `formatted_date`, and for the years 0 to
/// 9999 `%Y` is the year in four digits, `%m` and `%d` the month and day in two,
/// and `%b` the English three-letter name of the month, as chrono documents.
#[verifier::external_body]
fn chrono_format(date: (i32, u32, u32), layout: &str) -> (r: String)
    requires
        valid_ymd(date),
        layout@ == slash_layout() || layout@ == display_layout(),
    ensures
        r@ == formatted_date(date, layout@),
        0 <= date.0 <= 9999 && layout@ == slash_layout() ==> r@ == four_digits(date.0 as int)
            + seq!['/'] + two_digits(date.1 as int) + seq!['/'] + two_digits(date.2 as int),
        0 <= date.0 <= 9999 && layout@ == display_layout() ==> r@ == two_digits(date.2 as int)
            + seq![' '] + month_abbreviation(date.1 as int) + seq![' '] + four_digits(
            date.0 as int,
        ),
{
    chrono::NaiveDate::from_ymd_opt(date.0, date.1, date.2).unwrap().format(layout).to_string()
}

/// A calendar date: year, month and day of the proleptic Gregorian calendar.
#[derive(Clone, Copy, Debug)]
pub struct Date {
    year: i32,
    month: u32,
    day: u32,
}

impl View for Date {
    type V = (i32, u32, u32);

    closed spec fn view(&self) -> (i32, u32, u32) {
        (self.year, self.month, self.day)
    }
}

/// `a` is an earlier date than `b`.
pub open spec fn date_before(a: (i32, u32, u32), b: (i32, u32, u32)) -> bool {
    a.0 < b.0 || (a.0 == b.0 && (a.1 < b.1 || (a.1 == b.1 && a.2 < b.2)))
}

/// Whether `year` is a leap year; for the years that a date can have.
fn leap_year(year: i32) -> (r: bool)
    requires
        MIN_YEAR <= year <= MAX_YEAR,
    ensures
        r == is_leap_year(year as int),
{
    // A shift by a multiple of 400 years keeps the leap years and makes the year non-negative.
    let y: i64 = year as i64 + 262400;
    assert(y % 4 == year % 4 && y % 100 == year % 100 && y % 400 == year % 400) by {
        vstd::arithmetic::div_mod::lemma_mod_multiples_vanish(656, year as int, 400);
        vstd::arithmetic::div_mod::lemma_mod_multiples_vanish(2624, year as int, 100);
        vstd::arithmetic::div_mod::lemma_mod_multiples_vanish(65600, year as int, 4);
    }
    y % 4 == 0 && (y % 100 != 0 || y % 400 == 0)
}

impl Date {
    #[verifier::type_invariant]
    spec fn is_valid(self) -> bool {
        valid_ymd((self.year, self.month, self.day))
    }

    /// The date with the given year, month and day; `None` unless that is a
    /// date of the calendar that `chrono::NaiveDate` can hold.
    pub fn new(year: i32, month: u32, day: u32) -> (r: Option<Date>)
        ensures
            r is Some <==> valid_ymd((year, month, day)),
            r matches Some(d) ==> d@ == (year, month, day),
    {
        if year < MIN_YEAR || year > MAX_YEAR || month < 1 || month > 12 || day < 1 {
            return None;
        }
        let last: u32 = if month == 2 {
            if leap_year(year) { 29 } else { 28 }
        } else if month == 4 || month == 6 || month == 9 || month == 11 {
            30
        } else {
            31
        };
        if day > last {
            None
        } else {
            Some(Date { year, month, day })
        }
    }

    /// The year.
    pub fn year(&self) -> (r: i32)
        ensures
            r == self@.0,
    {
        self.year
    }

    /// The month, 1 to 12.
    pub fn month(&self) -> (r: u32)
        ensures
            r == self@.1,
    {
        self.month
    }

    /// The day of the month, from 1.
    pub fn day(&self) -> (r: u32)
        ensures
            r == self@.2,
    {
        self.day
    }

    /// The date that `text` writes as `YYYY-MM-DD`, read by chrono; chrono's
    /// error where it reads none.
    pub fn parse(text: &str) -> (r: Result<Date, chrono::ParseError>)
        ensures
            r is Ok <==> parsed_date(text@, ymd_layout()) is Some,
            r matches Ok(d) ==> parsed_date(text@, ymd_layout()) == Some(d@),
    {
        let layout = "%Y-%m-%d";
        proof {
            reveal_strlit("%Y-%m-%d");
        }
        assert(layout@ =~= ymd_layout());
        match chrono_parse(text, layout) {
            Ok(d) => Ok(Date { year: d.0, month: d.1, day: d.2 }),
            Err(e) => Err(e),
        }
    }

    /// Today's date in UTC, by the clock of the machine; `None` where the clock
    /// reads a time whose date lies outside the years that a date can have.
    pub fn today() -> (r: Option<Date>)
        ensures
            r matches Some(d) ==> valid_ymd(d@),
    {
        match clock_today() {
            Some(d) => Some(Date { year: d.0, month: d.1, day: d.2 }),
            None => None,
        }
    }

    /// The date as `YYYY/MM/DD`, as chrono writes it with `%Y/%m/%d`.
    pub fn slash_form(&self) -> (r: String)
        ensures
            r@ == formatted_date(self@, slash_layout()),
            0 <= self@.0 <= 9999 ==> r@ == four_digits(self@.0 as int) + seq!['/'] + two_digits(
                self@.1 as int,
            ) + seq!['/'] + two_digits(self@.2 as int),
    {
        proof {
            use_type_invariant(self);
        }
        let layout = "%Y/%m/%d";
        proof {
            reveal_strlit("%Y/%m/%d");
        }
        assert(layout@ =~= slash_layout());
        chrono_format((self.year, self.month, self.day), layout)
    }

    /// The date as `DD Mon YYYY`, as chrono writes it with `%d %b %Y`.
    pub fn display_form(&self) -> (r: String)
        ensures
            r@ == formatted_date(self@, display_layout()),
            0 <= self@.0 <= 9999 ==> r@ == two_digits(self@.2 as int) + seq![' ']
                + month_abbreviation(self@.1 as int) + seq![' '] + four_digits(self@.0 as int),
    {
        proof {
            use_type_invariant(self);
        }
        let layout = "%d %b %Y";
        proof {
            reveal_strlit("%d %b %Y");
        }
        assert(layout@ =~= display_layout());
        chrono_format((self.year, self.month, self.day), layout)
    }

    /// Whether this date is earlier than `other`.
    pub fn is_before(&self, other: &Date) -> (r: bool)
        ensures
            r == date_before(self@, other@),
    {
        self.year < other.year || (self.year == other.year && (self.month < other.month || (
        self.month == other.month && self.day < other.day)))
    }
}

/// The order of dates is the calendar's: an earlier year comes first; within
/// a year, every day of an earlier month comes first, whatever the days; within
/// a month, an earlier day comes first. No date is before itself, and of two
/// different dates one is before the other.
pub proof fn law_date_order_is_calendar_order(a: (i32, u32, u32), b: (i32, u32, u32))
    ensures
        a.0 < b.0 ==> date_before(a, b),
        a.0 == b.0 && a.1 < b.1 ==> date_before(a, b),
        a.0 == b.0 && a.1 == b.1 && a.2 < b.2 ==> date_before(a, b),
        date_before(a, b) ==> a.0 < b.0 || (a.0 == b.0 && a.1 < b.1) || (a.0 == b.0 && a.1 == b.1
            && a.2 < b.2),
        !date_before(a, a),
        a != b ==> (date_before(a, b) || date_before(b, a)),
        date_before(a, b) ==> !date_before(b, a),
{
}

} // verus!
