//! Calendar dates: a day, a month and a year of the proleptic Gregorian
//! calendar, their written forms, and the clock.

use crate::decimal::{all_digits, is_digit, padded, value_of, zero_padded};
use crate::text::{free_of, join, lemma_split_join, split_on};
use chrono::Datelike;
use vstd::prelude::*;
use vstd::string::StringExecFns;

verus! {

/// The earliest year a date can have.
pub const MIN_YEAR: i32 = -262143;

/// The latest year a date can have.
pub const MAX_YEAR: i32 = 262142;

/// A date as three numbers.
pub struct Ymd {
    pub year: int,
    pub month: int,
    pub day: int,
}

/// Leap years have 366 days: every fourth year, but of the century years only
/// every fourth.
pub open spec fn is_leap_year(year: int) -> bool {
    year % 4 == 0 && (year % 100 != 0 || year % 400 == 0)
}

/// The number of days of a month.
pub open spec fn days_in_month(year: int, month: int) -> int {
    if month == 2 {
        if is_leap_year(year) {
            29
        } else {
            28
        }
    } else if month == 4 || month == 6 || month == 9 || month == 11 {
        30
    } else {
        31
    }
}

/// The three numbers name a day that exists, in a year that is supported.
pub open spec fn is_calendar_date(d: Ymd) -> bool {
    &&& MIN_YEAR <= d.year <= MAX_YEAR
    &&& 1 <= d.month <= 12
    &&& 1 <= d.day <= days_in_month(d.year, d.month)
}

/// `a` is strictly before `b`.
pub open spec fn earlier(a: Ymd, b: Ymd) -> bool {
    a.year < b.year || (a.year == b.year && (a.month < b.month || (a.month == b.month && a.day
        < b.day)))
}

/// The year as written in the stored form: at least four digits, with a minus
/// sign in front of a year before 0.
pub open spec fn year_text(year: int) -> Seq<char> {
    if year >= 0 {
        zero_padded(year as nat, 4)
    } else {
        seq!['-'] + zero_padded((-year) as nat, 4)
    }
}

/// The stored form of a date: `DD-MM-YYYY`.
pub open spec fn day_month_year(d: Ymd) -> Seq<char> {
    zero_padded(d.day as nat, 2) + seq!['-'] + zero_padded(d.month as nat, 2) + seq!['-']
        + year_text(d.year)
}

/// `text` is a day, a month and a year in digits with hyphens between them:
/// one or two digits, a hyphen, one or two digits, a hyphen, and one to four
/// digits. `01-01-2025` and `1-1-2025` are of this shape.
pub open spec fn is_day_month_year(text: Seq<char>) -> bool {
    let parts = split_on(text, '-');
    &&& parts.len() == 3
    &&& 1 <= parts[0].len() <= 2
    &&& all_digits(parts[0])
    &&& 1 <= parts[1].len() <= 2
    &&& all_digits(parts[1])
    &&& 1 <= parts[2].len() <= 4
    &&& all_digits(parts[2])
}

/// The numbers that a text of that shape holds.
pub open spec fn numbers_of(text: Seq<char>) -> Ymd {
    let parts = split_on(text, '-');
    Ymd {
        year: value_of(parts[2]) as int,
        month: value_of(parts[1]) as int,
        day: value_of(parts[0]) as int,
    }
}

/// What `chrono::NaiveDate::parse_from_str` makes of a text under the format
/// `%d-%m-%Y`: the year, month and day of the date, or its complaint.
pub uninterp spec fn chrono_day_month_year(text: Seq<char>) -> Result<(int, int, int), Seq<char>>;

/// The complaint in what the parser made of a text, if it is one.
pub open spec fn complaint_of(parsed: Result<(int, int, int), Seq<char>>) -> Seq<char> {
    match parsed {
        Ok(_) => Seq::<char>::empty(),
        Err(complaint) => complaint,
    }
}

/// What a text denotes, given what the date parser made of it. A text of
/// digits and hyphens in the shape of a day, a month and a year denotes that
/// day if the day exists, and is refused with the parser's complaint if it
/// does not. Any other text denotes what the parser made of it.
pub open spec fn plain_or(text: Seq<char>, parsed: Result<(int, int, int), Seq<char>>) -> Result<
    Ymd,
    Seq<char>,
> {
    if is_day_month_year(text) {
        if is_calendar_date(numbers_of(text)) {
            Ok(numbers_of(text))
        } else {
            Err(complaint_of(parsed))
        }
    } else {
        match parsed {
            Ok((year, month, day)) => Ok(Ymd { year, month, day }),
            Err(complaint) => Err(complaint),
        }
    }
}

/// The date that a text written as day, month and year denotes, or the
/// parser's complaint about it.
pub open spec fn read_day_month_year(text: Seq<char>) -> Result<Ymd, Seq<char>> {
    plain_or(text, chrono_day_month_year(text))
}

/// The three-letter English name of a month.
pub open spec fn month_abbreviation(month: int) -> Seq<char> {
    if month == 1 {
        seq!['J', 'a', 'n']
    } else if month == 2 {
        seq!['F', 'e', 'b']
    } else if month == 3 {
        seq!['M', 'a', 'r']
    } else if month == 4 {
        seq!['A', 'p', 'r']
    } else if month == 5 {
        seq!['M', 'a', 'y']
    } else if month == 6 {
        seq!['J', 'u', 'n']
    } else if month == 7 {
        seq!['J', 'u', 'l']
    } else if month == 8 {
        seq!['A', 'u', 'g']
    } else if month == 9 {
        seq!['S', 'e', 'p']
    } else if month == 10 {
        seq!['O', 'c', 't']
    } else if month == 11 {
        seq!['N', 'o', 'v']
    } else {
        seq!['D', 'e', 'c']
    }
}

/// The pattern of the form shown to the reader.
pub open spec fn long_pattern() -> Seq<char> {
    "%b %e %Y"@
}

/// The pattern of the form `YYYY-MM-DD`.
pub open spec fn iso_pattern() -> Seq<char> {
    "%Y-%m-%d"@
}

/// The year as it is shown: in four digits from 0 to 9999; with a sign in
/// front of any other year, `+` behind 9999 and `-` before 0, and at least
/// four digits behind the sign.
pub open spec fn year_shown(year: int) -> Seq<char> {
    if 0 <= year <= 9999 {
        zero_padded(year as nat, 4)
    } else if year > 9999 {
        seq!['+'] + zero_padded(year as nat, 4)
    } else {
        seq!['-'] + zero_padded((-year) as nat, 4)
    }
}

/// The form of a date shown to the reader, such as `Jan  1 2025`: the month's
/// abbreviation, the day in two columns, and the year.
pub open spec fn long_form(d: Ymd) -> Seq<char> {
    month_abbreviation(d.month) + seq![' '] + (if d.day < 10 {
        seq![' ']
    } else {
        Seq::<char>::empty()
    }) + crate::decimal::decimal(d.day as nat) + seq![' '] + year_shown(d.year)
}

/// The form `YYYY-MM-DD` of a date, such as `2025-01-01`: the year, the
/// month in two digits and the day in two digits.
pub open spec fn iso_form(d: Ymd) -> Seq<char> {
    year_shown(d.year) + seq!['-'] + zero_padded(d.month as nat, 2) + seq!['-'] + zero_padded(
        d.day as nat,
        2,
    )
}

/// The stored form consists of digits and hyphens only.
pub proof fn lemma_day_month_year_chars(d: Ymd)
    requires
        d.day >= 0,
        d.month >= 0,
    ensures
        forall|i: int|
            0 <= i < day_month_year(d).len() ==> is_digit(#[trigger] day_month_year(d)[i])
                || day_month_year(d)[i] == '-',
{
    let a = zero_padded(d.day as nat, 2);
    let b = zero_padded(d.month as nat, 2);
    let y = year_text(d.year);
    crate::decimal::lemma_zero_padded(d.day as nat, 2);
    crate::decimal::lemma_zero_padded(d.month as nat, 2);
    if d.year >= 0 {
        crate::decimal::lemma_zero_padded(d.year as nat, 4);
    } else {
        crate::decimal::lemma_zero_padded((-d.year) as nat, 4);
    }
    let t = day_month_year(d);
    assert forall|i: int| 0 <= i < t.len() implies is_digit(#[trigger] t[i]) || t[i] == '-' by {
        if i < a.len() {
            assert(t[i] == a[i]);
        } else if i == a.len() {
        } else if i < a.len() + 1 + b.len() {
            assert(t[i] == b[i - a.len() - 1]);
        } else if i == a.len() + 1 + b.len() {
        } else {
            let k = i - a.len() - b.len() - 2;
            assert(t[i] == y[k]);
            if d.year < 0 && k > 0 {
                assert(y[k] == zero_padded((-d.year) as nat, 4)[k - 1]);
            }
        }
    }
}

/// Reading the stored form of a date gives the date back, for the years that
/// four digits can hold.
pub proof fn lemma_read_day_month_year(d: Ymd)
    requires
        is_calendar_date(d),
        0 <= d.year <= 9999,
    ensures
        is_day_month_year(day_month_year(d)),
        numbers_of(day_month_year(d)) == d,
        read_day_month_year(day_month_year(d)) == Ok::<Ymd, Seq<char>>(d),
{
    let a = zero_padded(d.day as nat, 2);
    let b = zero_padded(d.month as nat, 2);
    let y = zero_padded(d.year as nat, 4);
    crate::decimal::lemma_zero_padded(d.day as nat, 2);
    crate::decimal::lemma_zero_padded(d.month as nat, 2);
    crate::decimal::lemma_zero_padded(d.year as nat, 4);
    crate::decimal::lemma_decimal_len(d.day as nat);
    crate::decimal::lemma_decimal_len(d.month as nat);
    crate::decimal::lemma_decimal_len(d.year as nat);
    let parts = seq![a, b, y];
    assert(free_of(parts, '-')) by {
        assert forall|i: int| 0 <= i < parts.len() implies !(#[trigger] parts[i]).contains('-') by {
            if parts[i].contains('-') {
                let k = choose|k: int| 0 <= k < parts[i].len() && parts[i][k] == '-';
                assert(is_digit(parts[i][k]));
            }
        }
    }
    assert(parts.drop_last() =~= seq![a, b]);
    assert(parts.drop_last().drop_last() =~= seq![a]);
    assert(join(seq![a], seq!['-']) == a);
    assert(join(seq![a, b], seq!['-']) == a + seq!['-'] + b);
    assert(join(parts, seq!['-']) =~= day_month_year(d));
    lemma_split_join(parts, '-');
}

/// What a parse of a date gave, with the date taken by its numbers.
pub open spec fn parsed_view(r: Result<Date, String>) -> Result<Ymd, Seq<char>> {
    match r {
        Ok(d) => Ok(d@),
        Err(complaint) => Err(complaint@),
    }
}

/// A day of the calendar. Every value is a day that exists.
#[derive(Clone, Copy, Debug, PartialEq, Eq, Structural)]
pub struct Date {
    pub(crate) year: i32,
    pub(crate) month: u32,
    pub(crate) day: u32,
}

impl View for Date {
    type V = Ymd;

    open(crate) spec fn view(&self) -> Ymd {
        Ymd { year: self.year as int, month: self.month as int, day: self.day as int }
    }
}

impl Date {
    #[verifier::type_invariant]
    pub open(crate) spec fn exists_in_calendar(&self) -> bool {
        is_calendar_date(self@)
    }

    /// The date with the given year, month and day, if there is such a day.
    pub fn from_ymd(year: i32, month: u32, day: u32) -> (r: Option<Date>)
        ensures
            r is Some <==> is_calendar_date(
                Ymd { year: year as int, month: month as int, day: day as int },
            ),
            r matches Some(d) ==> d@ == (Ymd {
                year: year as int,
                month: month as int,
                day: day as int,
            }),
    {
        if year < MIN_YEAR || year > MAX_YEAR || month < 1 || month > 12 || day < 1 {
            return None;
        }
        let leap = year % 4 == 0 && (year % 100 != 0 || year % 400 == 0);
        let last: u32 = if month == 2 {
            if leap {
                29
            } else {
                28
            }
        } else if month == 4 || month == 6 || month == 9 || month == 11 {
            30
        } else {
            31
        };
        if day > last {
            return None;
        }
        Some(Date { year, month, day })
    }

    /// The year.
    pub fn year(&self) -> (y: i32)
        ensures
            y == self@.year,
            is_calendar_date(self@),
    {
        proof {
            use_type_invariant(self);
        }
        self.year
    }

    /// The month, from 1 to 12.
    pub fn month(&self) -> (m: u32)
        ensures
            m == self@.month,
            is_calendar_date(self@),
    {
        proof {
            use_type_invariant(self);
        }
        self.month
    }

    /// The day of the month, from 1.
    pub fn day(&self) -> (d: u32)
        ensures
            d == self@.day,
            is_calendar_date(self@),
    {
        proof {
            use_type_invariant(self);
        }
        self.day
    }

    /// Whether this date is strictly before `other`.
    pub fn before(&self, other: &Date) -> (r: bool)
        ensures
            r == earlier(self@, other@),
    {
        self.year < other.year || (self.year == other.year && (self.month < other.month || (
        self.month == other.month && self.day < other.day)))
    }

    /// The stored form `DD-MM-YYYY`.
    pub fn encode(&self) -> (out: String)
        ensures
            out@ == day_month_year(self@),
    {
        proof {
            use_type_invariant(self);
        }
        let mut out = padded(self.day as usize, 2);
        out.append("-");
        out.append(padded(self.month as usize, 2).as_str());
        out.append("-");
        if self.year >= 0 {
            out.append(padded(self.year as usize, 4).as_str());
        } else {
            out.append("-");
            out.append(padded((0 - self.year) as usize, 4).as_str());
        }
        proof {
            reveal_strlit("-");
            assert("-"@ =~= seq!['-']);
            assert(out@ =~= day_month_year(self@));
        }
        out
    }

    /// The form shown to the reader, such as `Jan  1 2025`.
    pub fn display(&self) -> (out: String)
        ensures
            out@ == long_form(self@),
    {
        format_date(self, "%b %e %Y")
    }

    /// The form `YYYY-MM-DD`.
    pub fn iso(&self) -> (out: String)
        ensures
            out@ == iso_form(self@),
    {
        format_date(self, "%Y-%m-%d")
    }
}

/// Reads a date written as day, month and year.
///
/// Trusted: wraps `chrono::NaiveDate::parse_from_str` with the format
/// `%d-%m-%Y`, and takes the year, month and day out of the date it gives, or
/// the text of its error. The contract names that result, and claims three
/// things of it. A text of one or two digits, a hyphen, one or two digits, a
/// hyphen and one to four digits is read as the day with those numbers if
/// that day exists, and is refused if it does not. And every date that comes
/// back is a day of the proleptic Gregorian calendar with a year from
/// `MIN_YEAR` to `MAX_YEAR`, the range of `NaiveDate`.
#[verifier::external_body]
pub(crate) fn parse_day_month_year(s: &str) -> (r: Result<Date, String>)
    ensures
        parsed_view(r) == plain_or(s@, chrono_day_month_year(s@)),
        r matches Ok(d) ==> is_calendar_date(d@),
{
    match chrono::NaiveDate::parse_from_str(s, "%d-%m-%Y") {
        Ok(d) => Ok(Date { year: d.year(), month: d.month(), day: d.day() }),
        Err(e) => Err(e.to_string()),
    }
}

/// The date of today by the local clock.
///
/// Trusted: wraps `chrono::Local::now` and `DateTime::date_naive`, and takes
/// the year, month and day out of the result. Nothing is promised of which
/// day it is; that it is a day of the calendar is the claim.
#[verifier::external_body]
pub(crate) fn today() -> (d: Date)
    ensures
        is_calendar_date(d@),
{
    let now = chrono::Local::now().date_naive();
    Date { year: now.year(), month: now.month(), day: now.day() }
}

/// Writes a date under a pattern.
///
/// Trusted: wraps `chrono::NaiveDate::from_ymd_opt` and `NaiveDate::format`,
/// for the patterns `%b %e %Y` and `%Y-%m-%d`. The contract spells out what
/// is written. Under the first pattern: the abbreviated English month name,
/// a blank, the day padded with a blank to two columns, a blank, and the
/// year. Under the second: the year, the month in two digits and the day in
/// two digits, with hyphens between them. The year stands in four digits
/// from 0 to 9999, and with a sign and at least four digits otherwise.
#[verifier::external_body]
fn format_date(d: &Date, pattern: &str) -> (out: String)
    requires
        pattern@ == long_pattern() || pattern@ == iso_pattern(),
    ensures
        pattern@ == long_pattern() ==> out@ == long_form(d@),
        pattern@ == iso_pattern() ==> out@ == iso_form(d@),
{
    match chrono::NaiveDate::from_ymd_opt(d.year, d.month, d.day) {
        Some(n) => n.format(pattern).to_string(),
        None => String::new(),
    }
}

} // verus!
