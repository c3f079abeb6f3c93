//! Calendar dates of the proleptic Gregorian calendar.

use chrono::Datelike;
use vstd::prelude::*;

use crate::error::{invalid, Result};
use crate::text::{blank, cat, debug_text, is_blank, nat_string, nat_text, quoted, trim, trimmed};

verus! {

#[derive(Debug, Clone, Copy, PartialEq, Eq, Structural)]
pub struct Date {
    year: i32,
    month: u32,
    day: u32,
}

pub const MIN_YEAR: i32 = -262143;

pub const MAX_YEAR: i32 = 262142;

pub open spec fn leap(y: int) -> bool {
    y % 4 == 0 && (y % 100 != 0 || y % 400 == 0)
}

/// How many days the month `m` of the year `y` has.
pub open spec fn month_days(y: int, m: int) -> int {
    if m == 2 {
        if leap(y) {
            29
        } else {
            28
        }
    } else if m == 4 || m == 6 || m == 9 || m == 11 {
        30
    } else {
        31
    }
}

/// How many days of the year `y` lie before its month `m`.
pub open spec fn days_before_month(y: int, m: int) -> int
    decreases m,
{
    if m <= 1 {
        0
    } else {
        days_before_month(y, m - 1) + month_days(y, m - 1)
    }
}

/// How many days lie between the first day of the year 1 and the first day of the year `y`.
pub open spec fn days_before_year(y: int) -> int {
    let p = y - 1;
    365 * p + p / 4 - p / 100 + p / 400
}

/// Whether a year, a month and a day of the month make a date.
pub open spec fn is_date(y: int, m: int, d: int) -> bool {
    MIN_YEAR <= y <= MAX_YEAR && 1 <= m <= 12 && 1 <= d <= month_days(y, m)
}

/// The number of a day, counted so that the first day of the year 1 is day 1.
pub open spec fn number_of(y: int, m: int, d: int) -> int {
    days_before_year(y) + days_before_month(y, m) + d
}

impl Date {
    pub closed spec fn y(self) -> int {
        self.year as int
    }

    pub closed spec fn m(self) -> int {
        self.month as int
    }

    pub closed spec fn d(self) -> int {
        self.day as int
    }

    #[verifier::type_invariant]
    pub open spec fn inv(self) -> bool {
        is_date(self.y(), self.m(), self.d())
    }

    /// The number of the day, counted so that the first day of the year 1 is day 1.
    pub open spec fn number(self) -> int {
        number_of(self.y(), self.m(), self.d())
    }

    pub open spec fn before(self, other: Date) -> bool {
        self.y() < other.y() || (self.y() == other.y() && (self.m() < other.m() || (self.m() == other.m() && self.d() < other.d())))
    }

    /// The date of a year, a month and a day of the month, where there is one.
    pub fn new(year: i32, month: u32, day: u32) -> (r: Option<Date>)
        ensures
            match r {
                Some(t) => is_date(year as int, month as int, day as int) && t.y() == year && t.m() == month && t.d() == day,
                None => !is_date(year as int, month as int, day as int),
            },
    {
        if year < MIN_YEAR || year > MAX_YEAR || month < 1 || month > 12 || day < 1 || day > days_in_month(year, month) {
            None
        } else {
            Some(Date { year, month, day })
        }
    }

    pub fn year(self) -> (r: i32)
        ensures
            r == self.y(),
            MIN_YEAR <= r <= MAX_YEAR,
    {
        proof {
            use_type_invariant(&self);
        }
        self.year
    }

    pub fn month(self) -> (r: u32)
        ensures
            r == self.m(),
            1 <= r <= 12,
    {
        proof {
            use_type_invariant(&self);
        }
        self.month
    }

    pub fn day(self) -> (r: u32)
        ensures
            r == self.d(),
            1 <= r <= month_days(self.y(), self.m()),
    {
        proof {
            use_type_invariant(&self);
        }
        self.day
    }

    pub fn is_before(self, other: Date) -> (r: bool)
        ensures
            r == self.before(other),
    {
        self.year < other.year || (self.year == other.year && (self.month < other.month || (self.month == other.month
            && self.day < other.day)))
    }

    pub fn same(self, other: Date) -> (r: bool)
        ensures
            r == (self == other),
            r == (self.y() == other.y() && self.m() == other.m() && self.d() == other.d()),
    {
        self.year == other.year && self.month == other.month && self.day == other.day
    }

    /// The number of the day, counted so that the first day of the year 1 is day 1.
    pub fn day_number(self) -> (r: i64)
        ensures
            r == self.number(),
            -95747001 <= r <= 95747001,
    {
        proof {
            use_type_invariant(&self);
        }
        let p: i64 = self.year as i64 - 1;
        let base: i64 = 400000;
        let q: i64 = p + base;
        assert(q / 4 == p / 4 + 100000 && q / 100 == p / 100 + 4000 && q / 400 == p / 400 + 1000);
        let leaps: i64 = ((q as u64) / 4) as i64 - ((q as u64) / 100) as i64 + ((q as u64) / 400) as i64 - 97000;
        let before = days_before(self.year, self.month);
        proof {
            lemma_year_days(self.year as int, self.month as int);
        }
        365 * p + leaps + before as i64 + self.day as i64
    }

    /// How many days later than `from` this date is.
    pub fn days_since(self, from: Date) -> (r: i64)
        ensures
            r == self.number() - from.number(),
            -200000000 <= r <= 200000000,
    {
        self.day_number() - from.day_number()
    }

    /// The date `days` days later, where there is one.
    pub fn plus_days(self, days: i64) -> (r: Option<Date>)
        ensures
            match r {
                Some(d) => d.inv() && d.number() == self.number() + days,
                None => !numbered(self.number() + days),
            },
    {
        let n: i128 = self.day_number() as i128 + days as i128;
        if n < -2147483648 || n > 2147483647 {
            proof {
                assert forall|d: Date| #[trigger] d.inv() implies -2147483648 <= d.number() <= 2147483647 by {
                    lemma_year_days(d.y(), d.m());
                }
            }
            None
        } else {
            date_numbered(n as i32)
        }
    }
}

/// Whether some date has the day number `n`.
pub open spec fn numbered(n: int) -> bool {
    exists|d: Date| #[trigger] d.inv() && d.number() == n
}

/// `NaiveDate::from_num_days_from_ce_opt` of chrono gives the date whose day number is `n`,
/// and nothing where no date of its range has that number.
#[verifier::external_body]
fn date_numbered(n: i32) -> (r: Option<Date>)
    ensures
        match r {
            Some(d) => d.inv() && d.number() == n,
            None => !numbered(n as int),
        },
{
    chrono::NaiveDate::from_num_days_from_ce_opt(n).map(|d| Date { year: d.year(), month: d.month(), day: d.day() })
}

proof fn lemma_year_days(y: int, m: int)
    requires
        1 <= m <= 12,
    ensures
        0 <= days_before_month(y, m) <= 31 * 11,
{
    reveal_with_fuel(days_before_month, 13);
}

pub fn is_leap(y: i32) -> (r: bool)
    requires
        MIN_YEAR <= y <= MAX_YEAR,
    ensures
        r == leap(y as int),
{
    let q: u32 = (y + 262400) as u32;
    q % 4 == 0 && (q % 100 != 0 || q % 400 == 0)
}

pub fn days_in_month(y: i32, m: u32) -> (r: u32)
    requires
        MIN_YEAR <= y <= MAX_YEAR,
    ensures
        r == month_days(y as int, m as int),
{
    if m == 2 {
        if is_leap(y) {
            29
        } else {
            28
        }
    } else if m == 4 || m == 6 || m == 9 || m == 11 {
        30
    } else {
        31
    }
}

fn days_before(y: i32, m: u32) -> (r: u32)
    requires
        MIN_YEAR <= y <= MAX_YEAR,
        1 <= m <= 12,
    ensures
        r == days_before_month(y as int, m as int),
        r <= 31 * 11,
{
    let mut k: u32 = 1;
    let mut n: u32 = 0;
    while k < m
        invariant
            MIN_YEAR <= y <= MAX_YEAR,
            1 <= k <= m <= 12,
            n == days_before_month(y as int, k as int),
            n <= 31 * (k - 1),
        decreases m - k,
    {
        n = n + days_in_month(y, k);
        k = k + 1;
    }
    n
}

/// What `NaiveDate::parse_from_str` of chrono reads in a text by a format.
pub uninterp spec fn date_in(text: Seq<char>, format: Seq<char>) -> Option<Date>;

/// `NaiveDate::parse_from_str` of chrono; what it reads is a date of the calendar, and by the format
/// `%Y-%m-%d` it reads the ISO 8601 form of a date with a year of four digits as that date. What it
/// reads in other texts is left unsaid.
#[verifier::external_body]
pub(crate) fn parse_with(text: &str, format: &str) -> (r: Option<Date>)
    ensures
        r == date_in(text@, format@),
        r is Some ==> r->0.inv(),
        forall|d: Date| d.inv() && 0 <= d.y() <= 9999 && text@ == #[trigger] iso_text(d) && format@ == "%Y-%m-%d"@ ==> r == Some(d),
{
    chrono::NaiveDate::parse_from_str(text, format).ok().map(|d| Date { year: d.year(), month: d.month(), day: d.day() })
}

/// The format in which dates are written and stored.
pub open spec fn iso_format() -> Seq<char> {
    "%Y-%m-%d"@
}

pub fn parse_date(s: &str) -> (r: Result<Date>)
    ensures
        match r {
            Ok(d) => date_in(trimmed(s@), iso_format()) == Some(d) && d.inv(),
            Err(e) => date_in(trimmed(s@), iso_format()) is None && e.invalid("date must be YYYY-MM-DD, got "@ + debug_text(s@)),
        },
{
    match parse_with(trim(s).as_str(), "%Y-%m-%d") {
        Some(d) => Ok(d),
        None => Err(invalid(cat("date must be YYYY-MM-DD, got ", quoted(s).as_str()).as_str())),
    }
}

pub fn parse_opt_date(s: &str) -> (r: Result<Option<Date>>)
    ensures
        match r {
            Ok(None) => blank(s@),
            Ok(Some(d)) => !blank(s@) && date_in(trimmed(s@), iso_format()) == Some(d) && d.inv(),
            Err(e) => !blank(s@) && date_in(trimmed(s@), iso_format()) is None && e.invalid(
                "date must be YYYY-MM-DD, got "@ + debug_text(s@),
            ),
        },
{
    if is_blank(s) {
        Ok(None)
    } else {
        match parse_date(s) {
            Ok(d) => Ok(Some(d)),
            Err(e) => Err(e),
        }
    }
}

/// The day of the week, 0 for a Monday and 6 for a Sunday.
pub open spec fn weekday_of(d: Date) -> int {
    (d.number() - 1) % 7
}

pub fn weekday(d: Date) -> (r: u32)
    ensures
        r == weekday_of(d),
{
    let n: i64 = d.day_number() + 95747007;
    ((n as u64) % 7) as u32
}

/// Digits with zeros before them, at least `width` of them.
pub open spec fn wide(n: nat, width: nat) -> Seq<char> {
    let t = nat_text(n);
    if t.len() < width {
        crate::decimal::zeros((width - t.len()) as nat) + t
    } else {
        t
    }
}

/// A year in four digits; one before the year 0 or after 9999 with its sign.
pub open spec fn year_text(y: int) -> Seq<char> {
    if 0 <= y <= 9999 {
        wide(y as nat, 4)
    } else if y < 0 {
        seq!['-'] + wide((-y) as nat, 4)
    } else {
        seq!['+'] + wide(y as nat, 4)
    }
}

/// A date as year, month and day with `-` between them.
pub open spec fn iso_text(d: Date) -> Seq<char> {
    year_text(d.y()) + seq!['-'] + wide(d.m() as nat, 2) + seq!['-'] + wide(d.d() as nat, 2)
}

pub fn wide_string(n: u32, width: usize) -> (r: String)
    ensures
        r@ == wide(n as nat, width as nat),
{
    let digits = nat_string(n as u128);
    let have: usize = digits.as_str().unicode_len();
    let mut r: String = String::new();
    if have < width {
        let mut k: usize = have;
        while k < width
            invariant
                have <= k <= width,
                r@ == crate::decimal::zeros((k - have) as nat),
            decreases width - k,
        {
            r.push('0');
            k = k + 1;
            assert(r@ =~= crate::decimal::zeros((k - have) as nat));
        }
    }
    let ghost lead = r@;
    r.append(digits.as_str());
    assert(have >= width ==> lead + digits@ =~= digits@);
    r
}

/// The year of a date, with a sign outside four digits.
pub fn year_string(d: Date) -> (r: String)
    ensures
        r@ == year_text(d.y()),
{
    proof {
        use_type_invariant(&d);
    }
    let mut r: String = String::new();
    if d.year < 0 {
        r.push('-');
        let y = wide_string((-d.year) as u32, 4);
        r.append(y.as_str());
    } else if d.year > 9999 {
        r.push('+');
        let y = wide_string(d.year as u32, 4);
        r.append(y.as_str());
    } else {
        r = wide_string(d.year as u32, 4);
    }
    assert(r@ =~= year_text(d.y()));
    r
}

/// A date as year, month and day with `-` between them.
pub fn iso(d: Date) -> (r: String)
    ensures
        r@ == iso_text(d),
{
    let mut r = year_string(d);
    r.push('-');
    let m = wide_string(d.month, 2);
    r.append(m.as_str());
    r.push('-');
    let t = wide_string(d.day, 2);
    r.append(t.as_str());
    assert(r@ =~= iso_text(d));
    r
}

proof fn lemma_months_grow(y: int, m: int, k: int)
    requires
        1 <= m < k <= 13,
    ensures
        days_before_month(y, m) + month_days(y, m) <= days_before_month(y, k),
    decreases k - m,
{
    if m + 1 < k {
        lemma_months_grow(y, m, k - 1);
    }
}

proof fn lemma_year_length(y: int)
    ensures
        days_before_month(y, 13) == (if leap(y) {
            366int
        } else {
            365
        }),
        days_before_year(y + 1) == days_before_year(y) + days_before_month(y, 13),
{
    reveal_with_fuel(days_before_month, 14);
}

proof fn lemma_years_grow(y: int, z: int)
    requires
        y < z,
    ensures
        days_before_year(y) + days_before_month(y, 13) <= days_before_year(z),
    decreases z - y,
{
    lemma_year_length(y);
    if y + 1 < z {
        lemma_years_grow(y, z - 1);
        lemma_year_length(z - 1);
    }
}

proof fn lemma_before_number(a: Date, b: Date)
    requires
        a.inv(),
        b.inv(),
        a.before(b),
    ensures
        a.number() < b.number(),
{
    lemma_months_grow(a.y(), a.m(), 13);
    lemma_year_days(b.y(), b.m());
    if a.y() < b.y() {
        lemma_years_grow(a.y(), b.y());
    } else if a.m() < b.m() {
        lemma_months_grow(a.y(), a.m(), b.m());
    }
}

/// Days are numbered as they follow each other: an earlier date has a smaller number, and no two
/// dates share one.
pub proof fn law_day_order(a: Date, b: Date)
    requires
        a.inv(),
        b.inv(),
    ensures
        a.before(b) <==> a.number() < b.number(),
        a == b <==> a.number() == b.number(),
{
    if a.before(b) {
        lemma_before_number(a, b);
    } else if b.before(a) {
        lemma_before_number(b, a);
    }
}

/// The date with a day number, where there is one.
pub open spec fn dated(n: int) -> Option<Date> {
    if numbered(n) {
        Some(choose|d: Date| #[trigger] d.inv() && d.number() == n)
    } else {
        None
    }
}

proof fn lemma_dated(d: Date)
    requires
        d.inv(),
    ensures
        dated(d.number()) == Some(d),
{
    let c = choose|c: Date| #[trigger] c.inv() && c.number() == d.number();
    law_day_order(c, d);
}

/// The date `days` days later, where there is one.
pub open spec fn later(d: Date, days: int) -> Option<Date> {
    dated(d.number() + days)
}

pub fn days_later(d: Date, days: i128) -> (r: Option<Date>)
    requires
        -0x4000_0000_0000_0000_0000_0000_0000_0000 <= days <= 0x4000_0000_0000_0000_0000_0000_0000_0000,
    ensures
        r == later(d, days as int),
        r is Some ==> r->0.inv(),
{
    if days < -9223372036854775808 || days > 9223372036854775807 {
        proof {
            use_type_invariant(&d);
            lemma_year_days(d.y(), d.m());
            assert forall|c: Date| #[trigger] c.inv() implies c.number() != d.number() + days by {
                lemma_year_days(c.y(), c.m());
            }
        }
        return None;
    }
    let r = d.plus_days(days as i64);
    proof {
        if r is Some {
            lemma_dated(r->0);
        }
    }
    r
}

/// The same day of the month `months` months later, or the last one of that month where it is
/// shorter.
pub open spec fn months_later(d: Date, months: int) -> Option<Date> {
    let total = d.y() * 12 + (d.m() - 1) + months;
    let y = total / 12;
    let m = total % 12 + 1;
    if MIN_YEAR <= y <= MAX_YEAR {
        dated(
            number_of(
                y,
                m,
                if d.d() <= month_days(y, m) {
                    d.d()
                } else {
                    month_days(y, m)
                },
            ),
        )
    } else {
        None
    }
}

pub fn add_months(d: Date, months: i128) -> (r: Option<Date>)
    requires
        -0x4000_0000_0000_0000_0000_0000_0000_0000 <= months <= 0x4000_0000_0000_0000_0000_0000_0000_0000,
    ensures
        r == months_later(d, months as int),
        r is Some ==> r->0.inv(),
{
    let base: i128 = 12 * 262143;
    let total: i128 = d.year() as i128 * 12 + (d.month() as i128 - 1) + months + base;
    if total < 0 || total >= 12 * (262143 + 262143) {
        return None;
    }
    let y: i32 = (total / 12) as i32 - 262143;
    let m: u32 = (total % 12) as u32 + 1;
    let last = days_in_month(y, m);
    let day = if d.day() <= last {
        d.day()
    } else {
        last
    };
    let r = Date::new(y, m, day);
    proof {
        use_type_invariant(&d);
        lemma_dated(r->0);
    }
    r
}

/// The day in UTC of the moment in a text.
pub uninterp spec fn utc_day_of(s: Seq<char>) -> Option<Date>;

/// `DateTime::parse_from_rfc3339` of chrono, of which the date in UTC is kept; it is a date of the
/// calendar. Which that is, is left unsaid.
#[verifier::external_body]
pub(crate) fn utc_day(s: &str) -> (r: Option<Date>)
    ensures
        r == utc_day_of(s@),
        r is Some ==> r->0.inv(),
{
    let t = chrono::DateTime::parse_from_rfc3339(s).ok()?.with_timezone(&chrono::Utc).date_naive();
    Some(Date { year: t.year(), month: t.month(), day: t.day() })
}

/// The date of the date and time in a text that is written by a format.
pub uninterp spec fn moment_in(text: Seq<char>, format: Seq<char>) -> Option<Date>;

/// `NaiveDateTime::parse_from_str` of chrono, of which the date is kept; it is a date of the
/// calendar. How a format is read is not written out here.
#[verifier::external_body]
pub(crate) fn parse_moment(text: &str, format: &str) -> (r: Option<Date>)
    ensures
        r == moment_in(text@, format@),
        r is Some ==> r->0.inv(),
{
    match chrono::NaiveDateTime::parse_from_str(text, format) {
        Ok(t) => Some(Date { year: t.year(), month: t.month(), day: t.day() }),
        Err(_) => None,
    }
}

/// A date so many days later has a number that is larger by as many.
pub proof fn law_days_later(d: Date, days: int)
    ensures
        later(d, days) matches Some(e) ==> e.inv() && e.number() == d.number() + days,
        (forall|e: Date| #[trigger] e.inv() ==> e.number() != d.number() + days) ==> later(d, days) is None,
{
}

/// A date so many months later is in that month, on the same day, or on the last one where the month is shorter.
pub proof fn law_months_later(d: Date, months: int)
    requires
        d.inv(),
    ensures
        months_later(d, months) matches Some(e) ==> {
            &&& e.y() * 12 + e.m() == d.y() * 12 + d.m() + months
            &&& 1 <= e.m() <= 12
            &&& e.d() == (if d.d() <= month_days(e.y(), e.m()) {
                d.d()
            } else {
                month_days(e.y(), e.m())
            })
        },
{
    if months_later(d, months) is Some {
        let total = d.y() * 12 + (d.m() - 1) + months;
        let (y, m) = (total / 12, total % 12 + 1);
        let day = if d.d() <= month_days(y, m) {
            d.d()
        } else {
            month_days(y, m)
        };
        let e = Date { year: y as i32, month: m as u32, day: day as u32 };
        assert(e.inv());
        lemma_dated(e);
    }
}

} // verus!
