//! Calendar dates with four-digit years, their order and their two text
//! forms: `YYYY-MM-DD`, used in slugs and folders, and `DD-MM-YYYY`, used in
//! sitemaps.  The texts are made by `chrono`.

use vstd::prelude::*;
use crate::text::{digit_at, digit_char, digit_value, is_digit, lemma_digit_char, lemma_digit_value,
    to_chars, value_at};

verus! {

/// Whether `year` is a leap year of the proleptic Gregorian calendar.
pub open spec fn is_leap_year(year: int) -> bool {
    (year % 4 == 0 && year % 100 != 0) || year % 400 == 0
}

/// The number of days of the month `month` (1 to 12) of `year`.
pub open spec fn days_in_month(year: int, month: int) -> int {
    if month == 2 {
        if is_leap_year(year) {
            29
        } else {
            28
        }
    } else if month == 4 || month == 6 || month == 9 || month == 11 {
        30
    } else {
        31
    }
}

/// Whether year, month and day name a day of the calendar in the years 0 to
/// 9999, those that are written with four digits.
pub open spec fn valid_ymd(year: int, month: int, day: int) -> bool {
    &&& 0 <= year <= 9999
    &&& 1 <= month <= 12
    &&& 1 <= day <= days_in_month(year, month)
}

/// `n`, below 100, in two decimal digits.
pub open spec fn two_digits(n: int) -> Seq<char> {
    seq![digit_char(n / 10), digit_char(n % 10)]
}

/// `n`, below 10000, in four decimal digits.
pub open spec fn four_digits(n: int) -> Seq<char> {
    two_digits(n / 100) + two_digits(n % 100)
}

/// The text `YYYY-MM-DD` of a date.
pub open spec fn iso_text(year: int, month: int, day: int) -> Seq<char> {
    four_digits(year) + seq!['-'] + two_digits(month) + seq!['-'] + two_digits(day)
}

/// The text `DD-MM-YYYY` of a date.
pub open spec fn dmy_text(year: int, month: int, day: int) -> Seq<char> {
    two_digits(day) + seq!['-'] + two_digits(month) + seq!['-'] + four_digits(year)
}

/// A day of the calendar.  Every value is a real day in the years 0 to 9999.
#[derive(Clone, Copy, Debug, PartialEq, Eq, Structural)]
pub struct Date {
    year: i32,
    month: u32,
    day: u32,
}

impl Date {
    /// The year, 0 to 9999.
    pub closed spec fn spec_year(self) -> int {
        self.year as int
    }

    /// The month, 1 to 12.
    pub closed spec fn spec_month(self) -> int {
        self.month as int
    }

    /// The day of the month, from 1.
    pub closed spec fn spec_day(self) -> int {
        self.day as int
    }

    /// The invariant of the type: the three numbers name a day.
    #[verifier::type_invariant]
    pub open spec fn valid(self) -> bool {
        valid_ymd(self.spec_year(), self.spec_month(), self.spec_day())
    }

    /// Whether `self` is an earlier day than `other`.
    pub open spec fn earlier(self, other: Date) -> bool {
        ||| self.spec_year() < other.spec_year()
        ||| (self.spec_year() == other.spec_year() && self.spec_month() < other.spec_month())
        ||| (self.spec_year() == other.spec_year() && self.spec_month() == other.spec_month()
            && self.spec_day() < other.spec_day())
    }

    /// The text `YYYY-MM-DD` of the date.
    pub open spec fn iso(self) -> Seq<char> {
        iso_text(self.spec_year(), self.spec_month(), self.spec_day())
    }

    /// The text `DD-MM-YYYY` of the date.
    pub open spec fn dmy(self) -> Seq<char> {
        dmy_text(self.spec_year(), self.spec_month(), self.spec_day())
    }

    /// The date of the given year, month and day, where there is such a day.
    pub fn new(year: i32, month: u32, day: u32) -> (r: Option<Date>)
        ensures
            match r {
                Some(d) => {
                    &&& valid_ymd(year as int, month as int, day as int)
                    &&& d.spec_year() == year
                    &&& d.spec_month() == month
                    &&& d.spec_day() == day
                },
                None => !valid_ymd(year as int, month as int, day as int),
            },
    {
        if year < 0 || year > 9999 || month < 1 || month > 12 || day < 1 {
            return None;
        }
        let leap: bool = (year % 4 == 0 && year % 100 != 0) || year % 400 == 0;
        let last: u32 = if month == 2 {
            if leap {
                29
            } else {
                28
            }
        } else if month == 4 || month == 6 || month == 9 || month == 11 {
            30
        } else {
            31
        };
        if day > last {
            return None;
        }
        Some(Date { year, month, day })
    }

    /// The year.
    pub fn year(&self) -> (y: i32)
        ensures
            y == self.spec_year(),
            0 <= y <= 9999,
    {
        proof {
            use_type_invariant(self);
        }
        self.year
    }

    /// The month.
    pub fn month(&self) -> (m: u32)
        ensures
            m == self.spec_month(),
            1 <= m <= 12,
    {
        proof {
            use_type_invariant(self);
        }
        self.month
    }

    /// The day of the month.
    pub fn day(&self) -> (d: u32)
        ensures
            d == self.spec_day(),
            1 <= d <= 31,
    {
        proof {
            use_type_invariant(self);
        }
        self.day
    }

    /// Whether `self` is an earlier day than `other`.
    pub fn is_before(&self, other: &Date) -> (b: bool)
        ensures
            b == self.earlier(*other),
    {
        self.year < other.year || (self.year == other.year && (self.month < other.month || (
        self.month == other.month && self.day < other.day)))
    }

    /// The text `YYYY-MM-DD`.
    pub fn to_iso(&self) -> (s: String)
        ensures
            s@ == self.iso(),
    {
        proof {
            use_type_invariant(self);
        }
        chrono_iso(self.year, self.month, self.day)
    }

    /// The text `DD-MM-YYYY`.
    pub fn to_dmy(&self) -> (s: String)
        ensures
            s@ == self.dmy(),
    {
        proof {
            use_type_invariant(self);
        }
        chrono_dmy(self.year, self.month, self.day)
    }

    /// Reads a date written as `YYYY-MM-DD`: four digits, a hyphen, two
    /// digits, a hyphen, two digits, that name a day.  Any other text is no
    /// date.
    pub fn parse(text: &str) -> (r: Option<Date>)
        ensures
            match r {
                Some(d) => d.valid() && text@ == d.iso(),
                None => forall|d: Date| d.valid() ==> text@ != d.iso(),
            },
    {
        let v = to_chars(text);
        if v.len() != 10 {
            proof {
                assert forall|d: Date| d.valid() implies text@ != d.iso() by {
                    assert(d.iso().len() == 10);
                }
            }
            return None;
        }
        let shaped: bool = digit_at(&v, 0) && digit_at(&v, 1) && digit_at(&v, 2) && digit_at(&v, 3)
            && v[4] == '-' && digit_at(&v, 5) && digit_at(&v, 6) && v[7] == '-' && digit_at(&v, 8)
            && digit_at(&v, 9);
        if !shaped {
            proof {
                assert forall|d: Date| d.valid() implies text@ != d.iso() by {
                    lemma_iso_shape(d);
                }
            }
            return None;
        }
        let year: i32 = value_at(&v, 0) * 1000 + value_at(&v, 1) * 100 + value_at(&v, 2) * 10
            + value_at(&v, 3);
        let month: i32 = value_at(&v, 5) * 10 + value_at(&v, 6);
        let day: i32 = value_at(&v, 8) * 10 + value_at(&v, 9);
        let r = Date::new(year, month as u32, day as u32);
        proof {
            match r {
                Some(d) => {
                    lemma_iso_of_digits(v@, d);
                },
                None => {
                    assert forall|d: Date| d.valid() implies text@ != d.iso() by {
                        if text@ == d.iso() {
                            lemma_iso_shape(d);
                        }
                    }
                },
            }
        }
        r
    }
}

/// The shape of the text `YYYY-MM-DD` of a date: ten characters, digits but
/// for the two hyphens, and the digits read back as year, month and day.
pub proof fn lemma_iso_shape(d: Date)
    requires
        d.valid(),
    ensures
        d.iso().len() == 10,
        d.iso()[4] == '-',
        d.iso()[7] == '-',
        forall|i: int| 0 <= i < 10 && i != 4 && i != 7 ==> is_digit(#[trigger] d.iso()[i]),
        forall|i: int| 0 <= i < 10 ==> #[trigger] d.iso()[i] != '/',
        d.spec_year() == digit_value(d.iso()[0]) * 1000 + digit_value(d.iso()[1]) * 100
            + digit_value(d.iso()[2]) * 10 + digit_value(d.iso()[3]),
        d.spec_month() == digit_value(d.iso()[5]) * 10 + digit_value(d.iso()[6]),
        d.spec_day() == digit_value(d.iso()[8]) * 10 + digit_value(d.iso()[9]),
{
    let y = d.spec_year();
    let m = d.spec_month();
    let a = d.spec_day();
    lemma_digit_char(y / 1000);
    lemma_digit_char(y / 100 % 10);
    lemma_digit_char(y / 10 % 10);
    lemma_digit_char(y % 10);
    lemma_digit_char(m / 10);
    lemma_digit_char(m % 10);
    lemma_digit_char(a / 10);
    lemma_digit_char(a % 10);
    assert(y / 100 / 10 == y / 1000);
    assert(y % 100 / 10 == y / 10 % 10);
    assert(y % 100 % 10 == y % 10);
    let t = seq![
        digit_char(y / 1000),
        digit_char(y / 100 % 10),
        digit_char(y / 10 % 10),
        digit_char(y % 10),
        '-',
        digit_char(m / 10),
        digit_char(m % 10),
        '-',
        digit_char(a / 10),
        digit_char(a % 10),
    ];
    assert(d.iso() =~= t);
    assert forall|i: int| 0 <= i < 10 && i != 4 && i != 7 implies is_digit(#[trigger] d.iso()[i]) by {
        assert(d.iso()[i] == t[i]);
    }
    assert forall|i: int| 0 <= i < 10 implies #[trigger] d.iso()[i] != '/' by {
        assert(d.iso()[i] == t[i]);
        if i != 4 && i != 7 {
            assert(is_digit(d.iso()[i]));
        }
    }
}

/// The shape of the text `DD-MM-YYYY` of a date: ten characters, digits but
/// for the two hyphens.
pub proof fn lemma_dmy_shape(d: Date)
    requires
        d.valid(),
    ensures
        d.dmy().len() == 10,
        d.dmy()[2] == '-',
        d.dmy()[5] == '-',
        forall|i: int| 0 <= i < 10 && i != 2 && i != 5 ==> is_digit(#[trigger] d.dmy()[i]),
{
    let y = d.spec_year();
    let m = d.spec_month();
    let a = d.spec_day();
    lemma_digit_char(y / 100 / 10);
    lemma_digit_char(y / 100 % 10);
    lemma_digit_char(y % 100 / 10);
    lemma_digit_char(y % 100 % 10);
    lemma_digit_char(m / 10);
    lemma_digit_char(m % 10);
    lemma_digit_char(a / 10);
    lemma_digit_char(a % 10);
    let t = seq![
        digit_char(a / 10),
        digit_char(a % 10),
        '-',
        digit_char(m / 10),
        digit_char(m % 10),
        '-',
        digit_char(y / 100 / 10),
        digit_char(y / 100 % 10),
        digit_char(y % 100 / 10),
        digit_char(y % 100 % 10),
    ];
    assert(d.dmy() =~= t);
    assert forall|i: int| 0 <= i < 10 && i != 2 && i != 5 implies is_digit(
        #[trigger] d.dmy()[i],
    ) by {
        assert(d.dmy()[i] == t[i]);
    }
}

/// Ten characters in the shape `YYYY-MM-DD` whose digits write the numbers
/// of a date are the text of that date.
pub proof fn lemma_iso_of_digits(v: Seq<char>, d: Date)
    requires
        d.valid(),
        v.len() == 10,
        v[4] == '-',
        v[7] == '-',
        forall|i: int| 0 <= i < 10 && i != 4 && i != 7 ==> is_digit(#[trigger] v[i]),
        d.spec_year() == digit_value(v[0]) * 1000 + digit_value(v[1]) * 100 + digit_value(v[2])
            * 10 + digit_value(v[3]),
        d.spec_month() == digit_value(v[5]) * 10 + digit_value(v[6]),
        d.spec_day() == digit_value(v[8]) * 10 + digit_value(v[9]),
    ensures
        v == d.iso(),
{
    let y = d.spec_year();
    assert(is_digit(v[0]) && is_digit(v[1]) && is_digit(v[2]) && is_digit(v[3]));
    assert(is_digit(v[5]) && is_digit(v[6]) && is_digit(v[8]) && is_digit(v[9]));
    lemma_digit_value(v[0]);
    lemma_digit_value(v[1]);
    lemma_digit_value(v[2]);
    lemma_digit_value(v[3]);
    lemma_digit_value(v[5]);
    lemma_digit_value(v[6]);
    lemma_digit_value(v[8]);
    lemma_digit_value(v[9]);
    assert(y / 100 / 10 == digit_value(v[0]));
    assert(y / 100 % 10 == digit_value(v[1]));
    assert(y % 100 / 10 == digit_value(v[2]));
    assert(y % 100 % 10 == digit_value(v[3]));
    assert(four_digits(y) =~= seq![v[0], v[1], v[2], v[3]]);
    assert(two_digits(d.spec_month()) =~= seq![v[5], v[6]]);
    assert(two_digits(d.spec_day()) =~= seq![v[8], v[9]]);
    assert(v =~= d.iso());
}

/// Two dates with the same three numbers are the same date.
pub proof fn lemma_date_equal(a: Date, b: Date)
    requires
        a.spec_year() == b.spec_year(),
        a.spec_month() == b.spec_month(),
        a.spec_day() == b.spec_day(),
    ensures
        a == b,
{
}

/// Two dates with the same text `YYYY-MM-DD` are the same date.
pub proof fn lemma_iso_injective(a: Date, b: Date)
    requires
        a.valid(),
        b.valid(),
        a.iso() == b.iso(),
    ensures
        a == b,
{
    lemma_iso_shape(a);
    lemma_iso_shape(b);
    lemma_date_equal(a, b);
}

/// Of two different dates exactly one is earlier than the other, and no date
/// is earlier than itself.
pub proof fn lemma_earlier_total(a: Date, b: Date)
    ensures
        !a.earlier(a),
        a != b ==> (a.earlier(b) || b.earlier(a)),
        !(a.earlier(b) && b.earlier(a)),
{
    if !a.earlier(b) && !b.earlier(a) {
        lemma_date_equal(a, b);
    }
}

/// `earlier` is transitive.
pub proof fn lemma_earlier_transitive(a: Date, b: Date, c: Date)
    requires
        a.earlier(b),
        b.earlier(c),
    ensures
        a.earlier(c),
{
}

/// Trusted: `chrono::NaiveDate::from_ymd_opt`, which gives a date for every
/// day of the calendar, and the `Display` of the date it gives, which for a
/// year from 0 to 9999 writes the year in four digits, a hyphen, the month
/// in two digits, a hyphen and the day in two digits.
#[verifier::external_body]
fn chrono_iso(year: i32, month: u32, day: u32) -> (s: String)
    requires
        valid_ymd(year as int, month as int, day as int),
    ensures
        s@ == iso_text(year as int, month as int, day as int),
{
    chrono::NaiveDate::from_ymd_opt(year, month, day).unwrap().to_string()
}

/// Trusted: `chrono::NaiveDate::format` with the pattern `%d-%m-%Y`, which
/// for a year from 0 to 9999 writes the day in two digits, a hyphen, the
/// month in two digits, a hyphen and the year in four digits.
#[verifier::external_body]
fn chrono_dmy(year: i32, month: u32, day: u32) -> (s: String)
    requires
        valid_ymd(year as int, month as int, day as int),
    ensures
        s@ == dmy_text(year as int, month as int, day as int),
{
    chrono::NaiveDate::from_ymd_opt(year, month, day).unwrap().format("%d-%m-%Y").to_string()
}

} // verus!
