use vstd::prelude::*;

verus! {

/// Whether `year` is a leap year of the proleptic Gregorian calendar.
pub open spec fn is_leap_year(year: int) -> bool {
    (year % 4 == 0 && year % 100 != 0) || year % 400 == 0
}

/// Number of days in `month` (1..=12) of `year`.
pub open spec fn days_in_month(year: int, month: int) -> int {
    if month == 2 {
        if is_leap_year(year) { 29 } else { 28 }
    } else if month == 4 || month == 6 || month == 9 || month == 11 {
        30
    } else {
        31
    }
}

/// A calendar triple names an existing day.
pub open spec fn is_valid_ymd(year: int, month: int, day: int) -> bool {
    &&& 1 <= month <= 12
    &&& 1 <= day <= days_in_month(year, month)
}

/// A calendar day (proleptic Gregorian). The derived order is chronological.
#[derive(Clone, Copy, Debug, PartialEq, Eq, Structural, Hash, PartialOrd, Ord)]
pub struct Date {
    pub year: i32,
    pub month: u32,
    pub day: u32,
}

impl Date {
    /// The date is a real calendar day.
    pub open spec fn wf(self) -> bool {
        is_valid_ymd(self.year as int, self.month as int, self.day as int)
    }

    pub open spec fn spec_year(self) -> int {
        self.year as int
    }

    pub open spec fn spec_month(self) -> int {
        self.month as int
    }

    pub open spec fn spec_day(self) -> int {
        self.day as int
    }

    /// Leap-year test on a machine integer.
    pub fn leap_year(year: i32) -> (r: bool)
        ensures
            r == is_leap_year(year as int),
    {
        (year % 4 == 0 && year % 100 != 0) || year % 400 == 0
    }

    /// Number of days of a month.
    pub fn month_length(year: i32, month: u32) -> (r: u32)
        ensures
            r == days_in_month(year as int, month as int),
    {
        if month == 2 {
            if Self::leap_year(year) { 29 } else { 28 }
        } else if month == 4 || month == 6 || month == 9 || month == 11 {
            30
        } else {
            31
        }
    }

    /// Builds a date; the triple must name an existing day.
    pub fn new(year: i32, month: u32, day: u32) -> (d: Date)
        requires
            is_valid_ymd(year as int, month as int, day as int),
        ensures
            d.spec_year() == year,
            d.spec_month() == month,
            d.spec_day() == day,
            d.wf(),
    {
        Date { year, month, day }
    }

    /// Builds a date when the triple names an existing day.
    pub fn try_new(year: i32, month: u32, day: u32) -> (d: Option<Date>)
        ensures
            d is Some <==> is_valid_ymd(year as int, month as int, day as int),
            d matches Some(x) ==> x.spec_year() == year && x.spec_month() == month
                && x.spec_day() == day,
    {
        if 1 <= month && month <= 12 && 1 <= day && day <= Self::month_length(year, month) {
            Some(Date { year, month, day })
        } else {
            None
        }
    }

    /// The placeholder date 1970-01-01.
    pub fn empty() -> (d: Date)
        ensures
            d.spec_year() == 1970,
            d.spec_month() == 1,
            d.spec_day() == 1,
            d.wf(),
    {
        Date { year: 1970, month: 1, day: 1 }
    }

    pub fn year(&self) -> (r: i32)
        ensures
            r == self.spec_year(),
    {
        self.year
    }

    pub fn month(&self) -> (r: u32)
        ensures
            r == self.spec_month(),
    {
        self.month
    }

    pub fn day(&self) -> (r: u32)
        ensures
            r == self.spec_day(),
    {
        self.day
    }
}

/// `c` is one of the characters `0` to `9`.
pub open spec fn is_digit(c: char) -> bool {
    '0' <= c && c <= '9'
}

/// Every character of `s` is a decimal digit.
pub open spec fn all_digits(s: Seq<char>) -> bool {
    forall|i: int| 0 <= i < s.len() ==> is_digit(#[trigger] s[i])
}

/// The number that the decimal digits `s` write.
pub open spec fn digits_value(s: Seq<char>) -> int
    decreases s.len(),
{
    if s.len() == 0 {
        0
    } else {
        digits_value(s.drop_last()) * 10 + (s.last() as int - '0' as int)
    }
}

/// The date that `s` writes as `YYYY-MM-DD`, if `s` is of that form and names a real day.
pub open spec fn parse_iso_date(s: Seq<char>) -> Option<Date> {
    if s.len() == 10 && all_digits(s.subrange(0, 4)) && s[4] == '-' && all_digits(s.subrange(5, 7))
        && s[7] == '-' && all_digits(s.subrange(8, 10)) {
        let y = digits_value(s.subrange(0, 4));
        let m = digits_value(s.subrange(5, 7));
        let d = digits_value(s.subrange(8, 10));
        if is_valid_ymd(y, m, d) {
            Some(Date { year: y as i32, month: m as u32, day: d as u32 })
        } else {
            None
        }
    } else {
        None
    }
}

/// The largest number written with `k` digits, for `k` up to 4.
spec fn digit_cap(k: int) -> int {
    if k <= 0 {
        0
    } else if k == 1 {
        9
    } else if k == 2 {
        99
    } else if k == 3 {
        999
    } else {
        9999
    }
}

/// The number written by the characters `from..to` of `s`, if they are all digits.
fn read_number(s: &str, from: usize, to: usize) -> (r: Option<u32>)
    requires
        from <= to <= s@.len(),
        to - from <= 4,
    ensures
        match r {
            Some(v) => all_digits(s@.subrange(from as int, to as int)) && v == digits_value(s@.subrange(from as int, to as int))
                && v <= 9999,
            None => !all_digits(s@.subrange(from as int, to as int)),
        },
{
    let mut acc: u32 = 0;
    let mut i: usize = from;
    while i < to
        invariant
            from <= i <= to <= s@.len(),
            to - from <= 4,
            all_digits(s@.subrange(from as int, i as int)),
            acc == digits_value(s@.subrange(from as int, i as int)),
            acc <= digit_cap(i - from),
        decreases to - i,
    {
        let c = s.get_char(i);
        if c < '0' || c > '9' {
            assert(s@.subrange(from as int, to as int)[i - from] == c);
            return None;
        }
        let ghost prev = s@.subrange(from as int, i as int);
        let ghost next = s@.subrange(from as int, i + 1);
        assert(next.drop_last() =~= prev);
        assert(next.last() == c);
        let dv: u32 = (c as u32) - ('0' as u32);
        acc = acc * 10 + dv;
        i = i + 1;
        assert(all_digits(next)) by {
            assert forall|j: int| 0 <= j < next.len() implies is_digit(#[trigger] next[j]) by {
                if j < prev.len() {
                    assert(next[j] == prev[j]);
                }
            }
        }
    }
    assert(acc <= 9999);
    Some(acc)
}

impl Date {
    /// Reads a date written `YYYY-MM-DD`; `None` when the text is not of that form or names
    /// no real day.
    pub fn from_iso(s: &str) -> (r: Option<Date>)
        ensures
            r == parse_iso_date(s@),
    {
        let n = s.unicode_len();
        if n != 10 {
            return None;
        }
        if s.get_char(4) != '-' || s.get_char(7) != '-' {
            return None;
        }
        let y = match read_number(s, 0, 4) {
            Some(v) => v,
            None => return None,
        };
        let m = match read_number(s, 5, 7) {
            Some(v) => v,
            None => return None,
        };
        let d = match read_number(s, 8, 10) {
            Some(v) => v,
            None => return None,
        };
        let yi: i32 = y as i32;
        Date::try_new(yi, m, d)
    }
}

/// Number of days of `year`.
pub open spec fn days_in_year(year: int) -> int {
    if is_leap_year(year) {
        366
    } else {
        365
    }
}

/// Days of `year` before the first of `month`.
pub open spec fn days_before_month(year: int, month: int) -> int
    decreases month,
{
    if month <= 1 {
        0
    } else {
        days_before_month(year, month - 1) + days_in_month(year, month - 1)
    }
}

/// Days from the first of January of `y0` to the first of January of `y1` (`y0 <= y1`).
pub open spec fn days_of_years(y0: int, y1: int) -> int
    decreases y1 - y0,
{
    if y1 <= y0 {
        0
    } else {
        days_of_years(y0, y1 - 1) + days_in_year(y1 - 1)
    }
}

/// Signed days from the first of January of `y0` to that of `y1`.
pub open spec fn year_offset(y0: int, y1: int) -> int {
    if y0 <= y1 {
        days_of_years(y0, y1)
    } else {
        -days_of_years(y1, y0)
    }
}

/// Position of a date within its year, counting the first of January as 1.
pub open spec fn day_of_year(d: Date) -> int {
    days_before_month(d.year as int, d.month as int) + d.day
}

/// Signed number of days from `a` to `b`.
pub open spec fn days_between(a: Date, b: Date) -> int {
    year_offset(a.year as int, b.year as int) + day_of_year(b) - day_of_year(a)
}

/// Days before a month of a year, as a machine integer.
fn days_before(year: i32, month: u32) -> (r: u32)
    requires
        1 <= month <= 12,
    ensures
        r == days_before_month(year as int, month as int),
        r <= 341,
{
    let mut acc: u32 = 0;
    let mut k: u32 = 1;
    while k < month
        invariant
            1 <= k <= month <= 12,
            acc == days_before_month(year as int, k as int),
            acc <= 31 * (k - 1),
        decreases month - k,
    {
        acc = acc + Date::month_length(year, k);
        k = k + 1;
    }
    acc
}

impl Date {
    /// Signed number of days from `self` to `other`.
    pub fn days_until(&self, other: &Date) -> (r: i64)
        requires
            self.wf(),
            other.wf(),
        ensures
            r == days_between(*self, *other),
    {
        let (lo, hi) = if self.year <= other.year { (self.year, other.year) } else { (other.year, self.year) };
        let mut acc: i64 = 0;
        let mut y: i32 = lo;
        while y < hi
            invariant
                lo <= y <= hi,
                acc == days_of_years(lo as int, y as int),
                0 <= acc <= 366 * (y - lo),
            decreases hi - y,
        {
            acc = acc + if Self::leap_year(y) { 366 } else { 365 };
            y = y + 1;
        }
        let span: i64 = if self.year <= other.year { acc } else { -acc };
        let a: i64 = (days_before(self.year, self.month) + self.day) as i64;
        let b: i64 = (days_before(other.year, other.month) + other.day) as i64;
        span + b - a
    }
}

/// Day counts add up along the calendar: the days from `a` to `b` and from `b` to `c` make
/// the days from `a` to `c`; in particular the days from `b` back to `a` are the opposite.
pub proof fn lemma_days_between_additive(a: Date, b: Date, c: Date)
    ensures
        days_between(a, b) + days_between(b, c) == days_between(a, c),
        days_between(a, b) == -days_between(b, a),
        days_between(a, a) == 0,
{
    lemma_year_offset_additive(a.year as int, b.year as int, c.year as int);
    lemma_year_offset_additive(a.year as int, b.year as int, a.year as int);
    lemma_year_offset_additive(a.year as int, a.year as int, a.year as int);
}

proof fn lemma_days_of_years_split(x: int, y: int, z: int)
    requires
        x <= y <= z,
    ensures
        days_of_years(x, y) + days_of_years(y, z) == days_of_years(x, z),
    decreases z - y,
{
    if y < z {
        lemma_days_of_years_split(x, y, z - 1);
    }
}

proof fn lemma_year_offset_additive(x: int, y: int, z: int)
    ensures
        year_offset(x, y) + year_offset(y, z) == year_offset(x, z),
{
    if x <= y && y <= z {
        lemma_days_of_years_split(x, y, z);
    } else if x <= z && z <= y {
        lemma_days_of_years_split(x, z, y);
    } else if y <= x && x <= z {
        lemma_days_of_years_split(y, x, z);
    } else if y <= z && z <= x {
        lemma_days_of_years_split(y, z, x);
    } else if z <= x && x <= y {
        lemma_days_of_years_split(z, x, y);
    } else {
        lemma_days_of_years_split(z, y, x);
    }
}

/// The character of decimal digit `v` (0 to 9).
pub open spec fn digit_char(v: int) -> char {
    if v == 0 {
        '0'
    } else if v == 1 {
        '1'
    } else if v == 2 {
        '2'
    } else if v == 3 {
        '3'
    } else if v == 4 {
        '4'
    } else if v == 5 {
        '5'
    } else if v == 6 {
        '6'
    } else if v == 7 {
        '7'
    } else if v == 8 {
        '8'
    } else {
        '9'
    }
}

/// The first day of month `m` of year `y`.
pub open spec fn first_of_month(y: i32, m: u32) -> Date {
    Date { year: y, month: m, day: 1 }
}

/// The months of the Gregorian calendar: thirty days have April, June, September and
/// November; February has twenty-nine in a leap year and twenty-eight otherwise; the others
/// have thirty-one. A year is leap when divisible by 4, except centuries not divisible by
/// 400. The months add up to the year, and from the first of a month to the first of the
/// next there are as many days as the month has.
#[verifier::spinoff_prover]
#[verifier::rlimit(50)]
pub proof fn lemma_gregorian_months(y: i32)
    ensures
        days_in_month(y as int, 1) == 31,
        days_in_month(y as int, 2) == (if is_leap_year(y as int) { 29int } else { 28int }),
        days_in_month(y as int, 3) == 31,
        days_in_month(y as int, 4) == 30,
        days_in_month(y as int, 5) == 31,
        days_in_month(y as int, 6) == 30,
        days_in_month(y as int, 7) == 31,
        days_in_month(y as int, 8) == 31,
        days_in_month(y as int, 9) == 30,
        days_in_month(y as int, 10) == 31,
        days_in_month(y as int, 11) == 30,
        days_in_month(y as int, 12) == 31,
        y % 4 != 0 ==> !is_leap_year(y as int),
        y % 4 == 0 && y % 100 != 0 ==> is_leap_year(y as int),
        y % 100 == 0 && y % 400 != 0 ==> !is_leap_year(y as int),
        y % 400 == 0 ==> is_leap_year(y as int),
        days_before_month(y as int, 13) == days_in_year(y as int),
        days_in_year(y as int) == (if is_leap_year(y as int) { 366int } else { 365int }),
        forall|m: u32| 1 <= m <= 11 ==> #[trigger] days_between(first_of_month(y, m), first_of_month(y, (m + 1) as u32))
            == days_in_month(y as int, m as int),
        y < i32::MAX ==> days_between(Date { year: y, month: 12, day: 1 }, Date { year: (y + 1) as i32, month: 1, day: 1 }) == 31,
{
    reveal_with_fuel(days_before_month, 13);
    if y < i32::MAX {
        assert(days_of_years(y as int, y + 1) == days_in_year(y as int)) by {
            reveal_with_fuel(days_of_years, 2);
        }
    }
}

/// The decimal digits of `n`, at least `width` of them: zeros stand in front of a shorter
/// number.
pub open spec fn decimal_text(n: nat, width: nat) -> Seq<char>
    decreases n + width,
{
    if n < 10 && width <= 1 {
        seq![digit_char(n as int)]
    } else {
        decimal_text(n / 10, if width > 0 { (width - 1) as nat } else { 0 }).push(digit_char(n as int % 10))
    }
}

/// A year as written in a date: four digits from 0 to 9999, else a sign and at least four
/// digits.
pub open spec fn year_text(y: int) -> Seq<char> {
    if 0 <= y <= 9999 {
        decimal_text(y as nat, 4)
    } else if y < 0 {
        seq!['-'] + decimal_text((-y) as nat, 4)
    } else {
        seq!['+'] + decimal_text(y as nat, 4)
    }
}

/// The date written `YYYY-MM-DD`.
pub open spec fn iso_text(d: Date) -> Seq<char> {
    let m = d.month as int;
    let dd = d.day as int;
    year_text(d.year as int) + seq![
        '-', digit_char((m / 10) % 10), digit_char(m % 10),
        '-', digit_char((dd / 10) % 10), digit_char(dd % 10),
    ]
}

/// A year from 0 to 9999 is written with its four digits.
proof fn lemma_four_digits(y: int)
    requires
        0 <= y <= 9999,
    ensures
        year_text(y) == seq![digit_char(y / 1000), digit_char((y / 100) % 10), digit_char((y / 10) % 10), digit_char(y % 10)],
{
    let n = y as nat;
    assert(decimal_text(n / 1000, 1) == seq![digit_char(y / 1000)]);
    assert(decimal_text(n / 100, 2) =~= seq![digit_char(y / 1000), digit_char((y / 100) % 10)]) by {
        assert((n / 100) / 10 == n / 1000);
    }
    assert(decimal_text(n / 10, 3) =~= seq![digit_char(y / 1000), digit_char((y / 100) % 10), digit_char((y / 10) % 10)]) by {
        assert((n / 10) / 10 == n / 100);
        assert((n / 10) % 10 == (y / 10) % 10);
    }
    assert(decimal_text(n, 4) =~= seq![digit_char(y / 1000), digit_char((y / 100) % 10), digit_char((y / 10) % 10), digit_char(y % 10)]);
}

/// The text of one decimal digit.
fn digit_str(v: u32) -> (r: &'static str)
    requires
        v < 10,
    ensures
        r@ == seq![digit_char(v as int)],
{
    match v {
        0 => {
            proof {
                reveal_strlit("0");
            }
            "0"
        },
        1 => {
            proof {
                reveal_strlit("1");
            }
            "1"
        },
        2 => {
            proof {
                reveal_strlit("2");
            }
            "2"
        },
        3 => {
            proof {
                reveal_strlit("3");
            }
            "3"
        },
        4 => {
            proof {
                reveal_strlit("4");
            }
            "4"
        },
        5 => {
            proof {
                reveal_strlit("5");
            }
            "5"
        },
        6 => {
            proof {
                reveal_strlit("6");
            }
            "6"
        },
        7 => {
            proof {
                reveal_strlit("7");
            }
            "7"
        },
        8 => {
            proof {
                reveal_strlit("8");
            }
            "8"
        },
        _ => {
            proof {
                reveal_strlit("9");
            }
            "9"
        },
    }
}

proof fn lemma_digit_char(v: int)
    requires
        0 <= v < 10,
    ensures
        is_digit(digit_char(v)),
        digit_char(v) as int - '0' as int == v,
{
}

proof fn lemma_char_digit(c: char)
    requires
        is_digit(c),
    ensures
        digit_char(c as int - '0' as int) == c,
{
    let v = c as int - '0' as int;
    lemma_digit_char(v);
    assert(digit_char(v) as int == c as int);
}

/// Two digits `a`, `b` written as a number give back their digits.
proof fn lemma_two_digits(s: Seq<char>)
    requires
        s.len() == 2,
        all_digits(s),
    ensures
        digit_char((digits_value(s) / 10) % 10) == s[0],
        digit_char(digits_value(s) % 10) == s[1],
{
    reveal_with_fuel(digits_value, 3);
    assert(s.drop_last().drop_last() =~= Seq::<char>::empty());
    assert(s.drop_last().last() == s[0]);
    assert(is_digit(s[0]) && is_digit(s[1]));
    let a = s[0] as int - '0' as int;
    let b = s[1] as int - '0' as int;
    assert(digits_value(s) == a * 10 + b);
    assert((a * 10 + b) / 10 % 10 == a && (a * 10 + b) % 10 == b) by (nonlinear_arith)
        requires 0 <= a < 10, 0 <= b < 10;
    lemma_char_digit(s[0]);
    lemma_char_digit(s[1]);
}

/// Four digits written as a number give back their digits.
proof fn lemma_four_digit_value(s: Seq<char>)
    requires
        s.len() == 4,
        all_digits(s),
    ensures
        0 <= digits_value(s) <= 9999,
        digit_char(digits_value(s) / 1000) == s[0],
        digit_char((digits_value(s) / 100) % 10) == s[1],
        digit_char((digits_value(s) / 10) % 10) == s[2],
        digit_char(digits_value(s) % 10) == s[3],
{
    reveal_with_fuel(digits_value, 5);
    let s3 = s.drop_last();
    let s2 = s3.drop_last();
    let s1 = s2.drop_last();
    assert(s1.drop_last() =~= Seq::<char>::empty());
    assert(s1.last() == s[0] && s2.last() == s[1] && s3.last() == s[2]);
    assert(is_digit(s[0]) && is_digit(s[1]) && is_digit(s[2]) && is_digit(s[3]));
    let a = s[0] as int - '0' as int;
    let b = s[1] as int - '0' as int;
    let c = s[2] as int - '0' as int;
    let e = s[3] as int - '0' as int;
    assert(digits_value(s) == ((a * 10 + b) * 10 + c) * 10 + e);
    assert({
        let y = ((a * 10 + b) * 10 + c) * 10 + e;
        &&& 0 <= y <= 9999
        &&& y / 1000 == a
        &&& (y / 100) % 10 == b
        &&& (y / 10) % 10 == c
        &&& y % 10 == e
    }) by (nonlinear_arith)
        requires 0 <= a < 10, 0 <= b < 10, 0 <= c < 10, 0 <= e < 10;
    lemma_char_digit(s[0]);
    lemma_char_digit(s[1]);
    lemma_char_digit(s[2]);
    lemma_char_digit(s[3]);
}

/// Reading is exact: a text that reads as a date is that date's text, and the date is a
/// real day with a year of four digits.
pub proof fn lemma_iso_parse_exact(s: Seq<char>)
    ensures
        parse_iso_date(s) matches Some(d) ==> d.wf() && 0 <= d.year <= 9999 && iso_text(d) == s,
{
    if parse_iso_date(s) is Some {
        let d = parse_iso_date(s)->Some_0;
        let ys = s.subrange(0, 4);
        let ms = s.subrange(5, 7);
        let ds = s.subrange(8, 10);
        lemma_four_digit_value(ys);
        lemma_two_digits(ms);
        lemma_two_digits(ds);
        lemma_four_digits(d.year as int);
        assert(iso_text(d) =~= s);
    }
}

/// Writing a date as `YYYY-MM-DD` and reading it back gives the same date.
pub proof fn lemma_iso_round_trip(d: Date)
    requires
        d.wf(),
        0 <= d.year <= 9999,
    ensures
        parse_iso_date(iso_text(d)) == Some(d),
{
    let t = iso_text(d);
    let y = d.year as int;
    lemma_four_digits(y);
    let m = d.month as int;
    let dd = d.day as int;
    lemma_digit_char(y / 1000);
    lemma_digit_char((y / 100) % 10);
    lemma_digit_char((y / 10) % 10);
    lemma_digit_char(y % 10);
    lemma_digit_char((m / 10) % 10);
    lemma_digit_char(m % 10);
    lemma_digit_char((dd / 10) % 10);
    lemma_digit_char(dd % 10);
    let ys = t.subrange(0, 4);
    let ms = t.subrange(5, 7);
    let ds = t.subrange(8, 10);
    assert(all_digits(ys));
    assert(all_digits(ms));
    assert(all_digits(ds));
    assert(ys.drop_last().drop_last().drop_last().drop_last() =~= Seq::<char>::empty());
    assert(digits_value(ys) == ((y / 1000 * 10 + (y / 100) % 10) * 10 + (y / 10) % 10) * 10 + y % 10) by {
        reveal_with_fuel(digits_value, 5);
        assert(ys.drop_last() =~= t.subrange(0, 3));
        assert(ys.drop_last().drop_last() =~= t.subrange(0, 2));
        assert(ys.drop_last().drop_last().drop_last() =~= t.subrange(0, 1));
    }
    assert(((y / 1000 * 10 + (y / 100) % 10) * 10 + (y / 10) % 10) * 10 + y % 10 == y) by (nonlinear_arith)
        requires 0 <= y <= 9999;
    assert(ms.drop_last().drop_last() =~= Seq::<char>::empty());
    assert(digits_value(ms) == ((m / 10) % 10) * 10 + m % 10) by {
        reveal_with_fuel(digits_value, 3);
        assert(ms.drop_last() =~= t.subrange(5, 6));
    }
    assert(((m / 10) % 10) * 10 + m % 10 == m);
    assert(ds.drop_last().drop_last() =~= Seq::<char>::empty());
    assert(digits_value(ds) == ((dd / 10) % 10) * 10 + dd % 10) by {
        reveal_with_fuel(digits_value, 3);
        assert(ds.drop_last() =~= t.subrange(8, 9));
    }
    assert(((dd / 10) % 10) * 10 + dd % 10 == dd);
}

/// The decimal digits of `n`, at least `width` of them.
fn decimal_string(n: u32, width: u32) -> (r: String)
    ensures
        r@ == decimal_text(n as nat, width as nat),
    decreases n + width,
{
    if n < 10 && width <= 1 {
        let mut s = String::new();
        s.append(digit_str(n));
        s
    } else {
        let w: u32 = if width > 0 { width - 1 } else { 0 };
        let mut s = decimal_string(n / 10, w);
        s.append(digit_str(n % 10));
        s
    }
}

impl Date {
    /// The date written `YYYY-MM-DD`; a year outside 0 to 9999 is written with its sign
    /// and at least four digits.
    pub fn to_iso(&self) -> (r: String)
        ensures
            r@ == iso_text(*self),
    {
        let y: i32 = self.year;
        let m: u32 = self.month;
        let d: u32 = self.day;
        let mut s = if 0 <= y && y <= 9999 {
            decimal_string(y as u32, 4)
        } else {
            let wide: i64 = y as i64;
            let magnitude: u32 = if wide < 0 { (-wide) as u32 } else { wide as u32 };
            let sign = if y < 0 { "-" } else { "+" };
            proof {
                reveal_strlit("-");
                reveal_strlit("+");
            }
            let digits = decimal_string(magnitude, 4);
            let mut t = String::new();
            t.append(sign);
            t.append(digits.as_str());
            t
        };
        assert(s@ =~= year_text(y as int));
        let d5 = digit_str((m / 10) % 10);
        let d6 = digit_str(m % 10);
        let d8 = digit_str((d / 10) % 10);
        let d9 = digit_str(d % 10);
        let dash = "-";
        proof {
            reveal_strlit("-");
        }
        let ghost ys = s@;
        s.append(dash);
        s.append(d5);
        s.append(d6);
        s.append(dash);
        s.append(d8);
        s.append(d9);
        assert(s@ =~= ys + dash@ + d5@ + d6@ + dash@ + d8@ + d9@);
        assert(s@ =~= iso_text(*self));
        s
    }
}

} // verus!
