use vstd::prelude::*;
use vstd::string::StringExecFns;

verus! {

/// A calendar day of the proleptic Gregorian calendar, in the range that
/// `time::Date` covers (years -9999 to 9999).
#[derive(Clone, Copy, Debug, PartialEq, Eq, Structural)]
pub struct Date {
    year: i32,
    month: u8,
    day: u8,
}

/// The mathematical value of a [`Date`].
pub struct DateView {
    pub year: int,
    pub month: int,
    pub day: int,
}

/// Whether `year` is a leap year.
pub open spec fn is_leap_year(year: int) -> bool {
    year % 4 == 0 && (year % 100 != 0 || year % 400 == 0)
}

/// Number of days of a month (numbered from 1) of `year`.
pub open spec fn days_in_month(year: int, month: int) -> int {
    if month == 2 {
        if is_leap_year(year) {
            29
        } else {
            28
        }
    } else if month == 4 || month == 6 || month == 9 || month == 11 {
        30
    } else {
        31
    }
}

/// A day that exists, in the range of years that `time::Date` covers.
pub open spec fn is_valid_day(d: DateView) -> bool {
    &&& -9999 <= d.year <= 9999
    &&& 1 <= d.month <= 12
    &&& 1 <= d.day <= days_in_month(d.year, d.month)
}

/// The Gregorian calendar: thirty days hath September, April, June and
/// November; February has 29 days in years divisible by 4 but not by 100,
/// or divisible by 400, and 28 otherwise; all the rest have 31. A year has
/// 366 days when it is a leap year and 365 otherwise, and every day of it is
/// a valid [`Date`] within the supported years.
pub proof fn lemma_gregorian_calendar(year: int)
    ensures
        forall|m: int|
            (m == 1 || m == 3 || m == 5 || m == 7 || m == 8 || m == 10 || m == 12) ==> #[trigger] days_in_month(year, m) == 31,
        forall|m: int| (m == 4 || m == 6 || m == 9 || m == 11) ==> #[trigger] days_in_month(year, m) == 30,
        days_in_month(year, 2) == (if (year % 4 == 0 && year % 100 != 0) || year % 400 == 0 { 29int } else { 28int }),
        days_in_month(year, 1) + days_in_month(year, 2) + days_in_month(year, 3) + days_in_month(year, 4)
            + days_in_month(year, 5) + days_in_month(year, 6) + days_in_month(year, 7) + days_in_month(year, 8)
            + days_in_month(year, 9) + days_in_month(year, 10) + days_in_month(year, 11) + days_in_month(year, 12)
            == (if (year % 4 == 0 && year % 100 != 0) || year % 400 == 0 { 366int } else { 365int }),
        -9999 <= year <= 9999 ==> forall|m: int, d: int|
            1 <= m <= 12 && 1 <= d <= 28 ==> #[trigger] is_valid_day(DateView { year, month: m, day: d }),
        -9999 <= year <= 9999 ==> forall|m: int|
            (m == 1 || m == 3 || m == 5 || m == 7 || m == 8 || m == 10 || m == 12) ==> #[trigger] is_valid_day(
                DateView { year, month: m, day: 31 },
            ),
        forall|m: int| (m == 4 || m == 6 || m == 9 || m == 11) ==> !#[trigger] is_valid_day(DateView { year, month: m, day: 31 }),
{
}

impl View for Date {
    type V = DateView;

    closed spec fn view(&self) -> DateView {
        DateView { year: self.year as int, month: self.month as int, day: self.day as int }
    }
}

/// The decimal digit for `n`, for `n` from 0 to 9.
pub open spec fn digit_char(n: int) -> char {
    if n == 0 {
        '0'
    } else if n == 1 {
        '1'
    } else if n == 2 {
        '2'
    } else if n == 3 {
        '3'
    } else if n == 4 {
        '4'
    } else if n == 5 {
        '5'
    } else if n == 6 {
        '6'
    } else if n == 7 {
        '7'
    } else if n == 8 {
        '8'
    } else {
        '9'
    }
}

/// The value of a decimal digit character.
pub open spec fn digit_value(c: char) -> int {
    c as int - '0' as int
}

/// Whether `c` is one of the ASCII digits `0` to `9`.
pub open spec fn is_ascii_digit(c: char) -> bool {
    '0' as int <= c as int <= '9' as int
}

/// `n`, from 0 to 99, in two digits.
pub open spec fn two_digits(n: int) -> Seq<char> {
    seq![digit_char(n / 10), digit_char(n % 10)]
}

/// `n`, from 0 to 9999, in four digits.
pub open spec fn four_digits(n: int) -> Seq<char> {
    seq![digit_char(n / 1000), digit_char((n / 100) % 10), digit_char((n / 10) % 10), digit_char(n % 10)]
}

/// A day written as `year-month-day`, with a four-digit year (a `-` in
/// front when it is negative) and two-digit month and day: the text that
/// the day format `[year]-[month]-[day]` reads.
pub open spec fn day_text(d: DateView) -> Seq<char> {
    let year = if d.year < 0 {
        seq!['-'] + four_digits(-d.year)
    } else {
        four_digits(d.year)
    };
    year + seq!['-'] + two_digits(d.month) + seq!['-'] + two_digits(d.day)
}

/// The digit characters are the ASCII digits, each with its own value, and
/// none of them is `-`.
proof fn lemma_digit_char(n: int)
    requires
        0 <= n <= 9,
    ensures
        digit_value(digit_char(n)) == n,
        digit_char(n) != '-',
{
}

/// Four digits determine a number from 0 to 9999.
proof fn lemma_four_digits_injective(x: int, y: int)
    requires
        0 <= x <= 9999,
        0 <= y <= 9999,
        four_digits(x) == four_digits(y),
    ensures
        x == y,
{
    assert(four_digits(x)[0] == four_digits(y)[0]);
    assert(four_digits(x)[1] == four_digits(y)[1]);
    assert(four_digits(x)[2] == four_digits(y)[2]);
    assert(four_digits(x)[3] == four_digits(y)[3]);
    lemma_digit_char(x / 1000);
    lemma_digit_char(y / 1000);
    lemma_digit_char((x / 100) % 10);
    lemma_digit_char((y / 100) % 10);
    lemma_digit_char((x / 10) % 10);
    lemma_digit_char((y / 10) % 10);
    lemma_digit_char(x % 10);
    lemma_digit_char(y % 10);
    assert(x == y) by (nonlinear_arith)
        requires
            0 <= x <= 9999,
            0 <= y <= 9999,
            x / 1000 == y / 1000,
            (x / 100) % 10 == (y / 100) % 10,
            (x / 10) % 10 == (y / 10) % 10,
            x % 10 == y % 10,
    {
    }
}

/// Two digits determine a number from 0 to 99.
proof fn lemma_two_digits_injective(x: int, y: int)
    requires
        0 <= x <= 99,
        0 <= y <= 99,
        two_digits(x) == two_digits(y),
    ensures
        x == y,
{
    assert(two_digits(x)[0] == two_digits(y)[0]);
    assert(two_digits(x)[1] == two_digits(y)[1]);
    lemma_digit_char(x / 10);
    lemma_digit_char(y / 10);
    lemma_digit_char(x % 10);
    lemma_digit_char(y % 10);
}

/// Different days are written differently: the text of a day determines the
/// day.
pub proof fn lemma_day_text_injective(a: Date, b: Date)
    requires
        is_valid_day(a@),
        is_valid_day(b@),
        day_text(a@) == day_text(b@),
    ensures
        a == b,
{
    let ta = day_text(a@);
    let tb = day_text(b@);
    let ya = if a@.year < 0 { seq!['-'] + four_digits(-a@.year) } else { four_digits(a@.year) };
    let yb = if b@.year < 0 { seq!['-'] + four_digits(-b@.year) } else { four_digits(b@.year) };
    assert(ta =~= ya + seq!['-'] + two_digits(a@.month) + seq!['-'] + two_digits(a@.day));
    assert(tb =~= yb + seq!['-'] + two_digits(b@.month) + seq!['-'] + two_digits(b@.day));
    if a@.year < 0 {
        lemma_digit_char(-a@.year / 1000);
    } else {
        lemma_digit_char(a@.year / 1000);
    }
    if b@.year < 0 {
        lemma_digit_char(-b@.year / 1000);
    } else {
        lemma_digit_char(b@.year / 1000);
    }
    assert((a@.year < 0) == (b@.year < 0)) by {
        assert(ta.len() == tb.len());
    }
    assert(ya =~= ta.subrange(0, ya.len() as int));
    assert(yb =~= tb.subrange(0, yb.len() as int));
    let n = ya.len() as int;
    assert(two_digits(a@.month) =~= ta.subrange(n + 1, n + 3));
    assert(two_digits(b@.month) =~= tb.subrange(n + 1, n + 3));
    assert(two_digits(a@.day) =~= ta.subrange(n + 4, n + 6));
    assert(two_digits(b@.day) =~= tb.subrange(n + 4, n + 6));
    lemma_two_digits_injective(a@.month, b@.month);
    lemma_two_digits_injective(a@.day, b@.day);
    if a@.year < 0 {
        assert(four_digits(-a@.year) =~= ya.subrange(1, 5));
        assert(four_digits(-b@.year) =~= yb.subrange(1, 5));
        lemma_four_digits_injective(-a@.year, -b@.year);
    } else {
        lemma_four_digits_injective(a@.year, b@.year);
    }
    lemma_view_injective(a, b);
}

/// Dates with the same value are the same date.
pub proof fn lemma_view_injective(a: Date, b: Date)
    requires
        a@ == b@,
    ensures
        a == b,
{
}

/// The format in which sign-in days are written down.
pub open spec fn day_format() -> Seq<char> {
    "[year]-[month]-[day]"@
}

/// A time of day.
#[derive(Clone, Copy, Debug, PartialEq, Eq, Structural)]
pub struct TimeOfDay {
    pub hour: u8,
    pub minute: u8,
    pub second: u8,
    pub nanosecond: u32,
}

/// The format of a time of day in the configuration.
pub open spec fn clock_format() -> Seq<char> {
    "[hour]:[minute]:[second]"@
}

/// The time of day that a text reads as under the format
/// `[hour]:[minute]:[second]`: exactly two ASCII digits for each of hour,
/// minute and second, separated by colons, with an hour below 24 and a
/// minute and second below 60.
pub open spec fn clock_time(s: Seq<char>) -> Option<TimeOfDay> {
    if s.len() == 8 && is_ascii_digit(s[0]) && is_ascii_digit(s[1]) && s[2] == ':' && is_ascii_digit(s[3])
        && is_ascii_digit(s[4]) && s[5] == ':' && is_ascii_digit(s[6]) && is_ascii_digit(s[7]) {
        let h = digit_value(s[0]) * 10 + digit_value(s[1]);
        let m = digit_value(s[3]) * 10 + digit_value(s[4]);
        let sec = digit_value(s[6]) * 10 + digit_value(s[7]);
        if h < 24 && m < 60 && sec < 60 {
            Some(TimeOfDay { hour: h as u8, minute: m as u8, second: sec as u8, nanosecond: 0 })
        } else {
            None
        }
    } else {
        None
    }
}

/// The day that `time::Date::parse` reads from `input` under the format
/// description `format`, if it reads one.
pub uninterp spec fn parsed_date(input: Seq<char>, format: Seq<char>) -> Option<Date>;

/// The time of day that `time::Time::parse` reads from `input` under the
/// format description `format`, if it reads one.
pub uninterp spec fn parsed_time(input: Seq<char>, format: Seq<char>) -> Option<TimeOfDay>;

/// `time::format_description::parse_borrowed::<1>` followed by
/// `time::Date::parse`; a format that does not parse gives `None` like an
/// input that does not. In general the result is named, not described.
/// Stated are what `time::Date` guarantees of every value (a day that
/// exists, in years -9999 to 9999), and what the parser does with the day
/// format on the text of a day (four digits of year, after a `-` when
/// negative, then two of month and two of day): it reads that day back.
#[verifier::external_body]
pub(crate) fn parse_date(input: &str, format: &str) -> (r: Option<Date>)
    ensures
        r == parsed_date(input@, format@),
        r matches Some(d) ==> is_valid_day(d@),
        forall|d: Date|
            #[trigger] day_text(d@) == input@ && format@ == day_format() && is_valid_day(d@) ==> r == Some(d),
{
    let items = time::format_description::parse_borrowed::<1>(format).ok()?;
    let d = time::Date::parse(input, &items).ok()?;
    Some(Date { year: d.year(), month: u8::from(d.month()), day: d.day() })
}

/// `time::format_description::parse_borrowed::<1>` followed by
/// `time::Time::parse`; a format that does not parse gives `None` like an
/// input that does not. In general the result is named, not described.
/// Stated are what `time::Time` guarantees of every value (each component
/// within its range), what the parser reads under the clock format (see
/// [`clock_time`]), and that under the day format no time of day is read
/// (a time needs an hour, which that format does not hold).
#[verifier::external_body]
pub(crate) fn parse_time(input: &str, format: &str) -> (r: Option<TimeOfDay>)
    ensures
        r == parsed_time(input@, format@),
        r matches Some(t) ==> t.hour < 24 && t.minute < 60 && t.second < 60 && t.nanosecond < 1_000_000_000,
        format@ == clock_format() ==> r == clock_time(input@),
        format@ == day_format() ==> r is None,
{
    let items = time::format_description::parse_borrowed::<1>(format).ok()?;
    let t = time::Time::parse(input, &items).ok()?;
    Some(TimeOfDay { hour: t.hour(), minute: t.minute(), second: t.second(), nanosecond: t.nanosecond() })
}

/// The one-digit text of `n`.
fn digit_str(n: u32) -> (r: &'static str)
    requires
        n < 10,
    ensures
        r@ == seq![digit_char(n as int)],
{
    proof {
        reveal_strlit("0");
        reveal_strlit("1");
        reveal_strlit("2");
        reveal_strlit("3");
        reveal_strlit("4");
        reveal_strlit("5");
        reveal_strlit("6");
        reveal_strlit("7");
        reveal_strlit("8");
        reveal_strlit("9");
    }
    if n == 0 {
        "0"
    } else if n == 1 {
        "1"
    } else if n == 2 {
        "2"
    } else if n == 3 {
        "3"
    } else if n == 4 {
        "4"
    } else if n == 5 {
        "5"
    } else if n == 6 {
        "6"
    } else if n == 7 {
        "7"
    } else if n == 8 {
        "8"
    } else {
        "9"
    }
}

impl Date {
    /// Dates always name a day that exists.
    #[verifier::type_invariant]
    pub closed spec fn well_formed(self) -> bool {
        is_valid_day(self@)
    }

    /// The day `year-month-day`, if it exists (and its year is between -9999
    /// and 9999).
    pub fn new(year: i32, month: u8, day: u8) -> (r: Option<Date>)
        ensures
            r is Some <==> is_valid_day(DateView { year: year as int, month: month as int, day: day as int }),
            r matches Some(d) ==> d@ == (DateView { year: year as int, month: month as int, day: day as int }),
    {
        if year < -9999 || year > 9999 || month < 1 || month > 12 || day < 1 {
            return None;
        }
        let leap = year % 4 == 0 && (year % 100 != 0 || year % 400 == 0);
        let days: u8 = if month == 2 {
            if leap {
                29
            } else {
                28
            }
        } else if month == 4 || month == 6 || month == 9 || month == 11 {
            30
        } else {
            31
        };
        assert(leap == is_leap_year(year as int)) by (nonlinear_arith)
            requires
                -9999 <= year <= 9999,
                leap == (year % 4 == 0 && (year % 100 != 0 || year % 400 == 0)),
        {
        }
        if day > days {
            None
        } else {
            Some(Date { year, month, day })
        }
    }

    /// The year.
    pub fn year(&self) -> (r: i32)
        ensures
            r == self@.year,
    {
        self.year
    }

    /// The month, from 1 to 12.
    pub fn month(&self) -> (r: u8)
        ensures
            r == self@.month,
    {
        self.month
    }

    /// The day of the month, from 1.
    pub fn day(&self) -> (r: u8)
        ensures
            r == self@.day,
    {
        self.day
    }

    /// The day written as `year-month-day` (see [`day_text`]).
    pub fn day_text(&self) -> (r: String)
        ensures
            r@ == day_text(self@),
            is_valid_day(self@),
    {
        proof {
            use_type_invariant(self);
        }
        let y: u32 = if self.year < 0 {
            (0 - self.year) as u32
        } else {
            self.year as u32
        };
        let m = self.month as u32;
        let d = self.day as u32;
        let mut s = if self.year < 0 {
            proof {
                reveal_strlit("-");
            }
            String::from_str("-")
        } else {
            String::new()
        };
        let ghost prefix = s@;
        s = s.concat(digit_str(y / 1000)).concat(digit_str((y / 100) % 10)).concat(
            digit_str((y / 10) % 10),
        ).concat(digit_str(y % 10));
        assert(s@ =~= prefix + four_digits(y as int));
        proof {
            reveal_strlit("-");
        }
        s = s.concat("-").concat(digit_str(m / 10)).concat(digit_str(m % 10)).concat("-").concat(
            digit_str(d / 10),
        ).concat(digit_str(d % 10));
        assert(s@ =~= day_text(self@));
        s
    }
}

} // verus!
