//! Calendar dates and wall-clock timestamps, as the ledger records them.

use crate::text::{digit_char, digit_text};
use vstd::prelude::*;
use vstd::string::*;

verus! {

/// A day of the proleptic Gregorian calendar.
#[derive(Clone, Copy, Debug, PartialEq, Eq, Structural)]
pub struct Date {
    pub year: u16,
    pub month: u8,
    pub day: u8,
}

/// A local date and time of day, to the second.
#[derive(Clone, Copy, Debug, PartialEq, Eq, Structural)]
pub struct Timestamp {
    pub date: Date,
    pub hour: u8,
    pub minute: u8,
    pub second: u8,
}

/// A reading of the clock, taken once per operation by the caller.
#[derive(Clone, Copy, Debug, PartialEq, Eq, Structural)]
pub struct Moment {
    /// Local wall-clock time.
    pub at: Timestamp,
    /// Milliseconds since the Unix epoch.
    pub millis: u64,
}

/// Whether `year` has a 29th of February.
pub open spec fn is_leap(year: int) -> bool {
    year % 4 == 0 && (year % 100 != 0 || year % 400 == 0)
}

/// The number of days of a month; 0 for a month that does not exist.
pub open spec fn days_in_month(year: int, month: int) -> int {
    if month == 2 {
        if is_leap(year) {
            29
        } else {
            28
        }
    } else if month == 4 || month == 6 || month == 9 || month == 11 {
        30
    } else if 1 <= month <= 12 {
        31
    } else {
        0
    }
}

impl Date {
    /// A date that exists: years 0 to 9999.
    pub open spec fn valid(self) -> bool {
        &&& self.year <= 9999
        &&& 1 <= self.month <= 12
        &&& 1 <= self.day <= days_in_month(self.year as int, self.month as int)
    }

    /// Dates compare as the triples (year, month, day) do; the key is their
    /// rank in that order.
    pub open spec fn key(self) -> int {
        ((self.year as int) * 256 + self.month as int) * 256 + self.day as int
    }

    /// The rank of the date among all dates.
    pub fn rank(&self) -> (k: u32)
        ensures
            k == self.key(),
    {
        ((self.year as u32) * 256 + self.month as u32) * 256 + self.day as u32
    }
}

impl Timestamp {
    /// A moment that exists: a date that exists and a time of day.
    pub open spec fn valid(self) -> bool {
        &&& self.date.valid()
        &&& self.hour < 24
        &&& self.minute < 60
        &&& self.second < 60
    }

    /// Timestamps compare as (date, hour, minute, second) do; the key is
    /// their rank in that order.
    pub open spec fn key(self) -> int {
        ((self.date.key() * 256 + self.hour as int) * 256 + self.minute as int) * 256
            + self.second as int
    }

    /// The rank of the timestamp among all timestamps.
    pub fn rank(&self) -> (k: u64)
        ensures
            k == self.key(),
    {
        ((self.date.rank() as u64 * 256 + self.hour as u64) * 256 + self.minute as u64) * 256
            + self.second as u64
    }
}

/// A calendar month.
#[derive(Clone, Copy, Debug, PartialEq, Eq, Structural)]
pub struct Period {
    pub year: u16,
    pub month: u8,
}

/// Whether a year has a 29th of February.
pub fn leap(year: u16) -> (b: bool)
    ensures
        b == is_leap(year as int),
{
    year % 4 == 0 && (year % 100 != 0 || year % 400 == 0)
}

/// The number of days of a month; 0 for a month that does not exist.
pub fn month_length(year: u16, month: u8) -> (n: u8)
    ensures
        n == days_in_month(year as int, month as int),
{
    if month == 2 {
        if leap(year) {
            29
        } else {
            28
        }
    } else if month == 4 || month == 6 || month == 9 || month == 11 {
        30
    } else if 1 <= month && month <= 12 {
        31
    } else {
        0
    }
}

/// The day before `d`. The first day of year 0 is its own predecessor.
pub open spec fn prev_day_of(d: Date) -> Date {
    if d.day > 1 {
        Date { year: d.year, month: d.month, day: (d.day - 1) as u8 }
    } else if d.month > 1 {
        Date {
            year: d.year,
            month: (d.month - 1) as u8,
            day: days_in_month(d.year as int, d.month - 1) as u8,
        }
    } else if d.year > 0 {
        Date { year: (d.year - 1) as u16, month: 12, day: 31 }
    } else {
        d
    }
}

/// The day `n` days before `d`.
pub open spec fn days_before(d: Date, n: nat) -> Date
    decreases n,
{
    if n == 0 {
        d
    } else {
        prev_day_of(days_before(d, (n - 1) as nat))
    }
}

/// The day before `d`.
pub fn prev_day(d: Date) -> (r: Date)
    ensures
        r == prev_day_of(d),
        d.valid() ==> r.valid(),
{
    if d.day > 1 {
        Date { year: d.year, month: d.month, day: d.day - 1 }
    } else if d.month > 1 {
        Date { year: d.year, month: d.month - 1, day: month_length(d.year, d.month - 1) }
    } else if d.year > 0 {
        Date { year: d.year - 1, month: 12, day: 31 }
    } else {
        d
    }
}

/// The days of a year that lie before the first of a month.
pub open spec fn days_before_month(year: int, month: int) -> int
    decreases month,
{
    if month <= 1 {
        0
    } else {
        days_before_month(year, month - 1) + days_in_month(year, month - 1)
    }
}

/// The days that lie before the first of January of a year, counted from the
/// first of January of year 0.
pub open spec fn days_before_year(year: int) -> int {
    365 * year + (year + 3) / 4 - (year + 99) / 100 + (year + 399) / 400
}

/// The number of a day, counted from the day before the first of January of
/// year 0.
pub open spec fn day_number(d: Date) -> int {
    days_before_year(d.year as int) + days_before_month(d.year as int, d.month as int)
        + d.day as int
}

/// The number of a day.
pub fn day_number_of(d: Date) -> (n: i64)
    ensures
        n == day_number(d),
        0 <= n <= 40_000_000,
{
    let y = d.year as i64;
    let mut acc: i64 = 0;
    let mut m: u8 = 1;
    while m < d.month
        invariant
            1 <= m,
            m <= d.month || m == 1,
            acc == days_before_month(d.year as int, m as int),
            0 <= acc <= 31 * (m - 1),
        decreases d.month - m,
    {
        acc = acc + month_length(d.year, m) as i64;
        m += 1;
    }
    assert(acc == days_before_month(d.year as int, d.month as int)) by {
        if d.month == 0 {
            assert(days_before_month(d.year as int, 0) == 0);
            assert(days_before_month(d.year as int, 1) == 0);
        }
    }
    365 * y + (y + 3) / 4 - (y + 99) / 100 + (y + 399) / 400 + acc + d.day as i64
}

/// Months counted from January of year 0.
pub open spec fn month_index(year: int, month: int) -> int {
    year * 12 + month - 1
}

/// The calendar month that lies `n` months before the month of `today`.
/// Months before year 0 count as its January.
pub open spec fn period_before(today: Date, n: nat) -> Period {
    let back = month_index(today.year as int, today.month as int) - n;
    let idx = if back < 0 {
        0
    } else {
        back
    };
    Period { year: (idx / 12) as u16, month: (idx % 12 + 1) as u8 }
}

impl Period {
    /// Months compare as the pairs (year, month) do; the key is their rank in
    /// that order.
    pub open spec fn key(self) -> int {
        (self.year as int) * 256 + self.month as int
    }
}

/// The calendar month that lies `n` months before the month of `today`.
pub fn period_back(today: Date, n: u8) -> (p: Period)
    requires
        today.valid(),
    ensures
        p == period_before(today, n as nat),
        1 <= p.month <= 12,
{
    let back: i32 = today.year as i32 * 12 + today.month as i32 - 1 - n as i32;
    let idx: i32 = if back < 0 {
        0
    } else {
        back
    };
    Period { year: (idx / 12) as u16, month: (idx % 12 + 1) as u8 }
}

/// The value of a decimal digit; none for any other character.
pub open spec fn digit_value(c: char) -> Option<int> {
    let u = c as u32;
    if 0x30 <= u <= 0x39 {
        Some(u - 0x30)
    } else {
        None
    }
}

/// The number that the two digits at `i` and `i + 1` spell.
pub open spec fn two_digits(s: Seq<char>, i: int) -> Option<int> {
    match (digit_value(s[i]), digit_value(s[i + 1])) {
        (Some(a), Some(b)) => Some(a * 10 + b),
        _ => None,
    }
}

/// The number that the four digits from `i` on spell.
pub open spec fn four_digits(s: Seq<char>, i: int) -> Option<int> {
    match (two_digits(s, i), two_digits(s, i + 2)) {
        (Some(a), Some(b)) => Some(a * 100 + b),
        _ => None,
    }
}

/// The timestamp that a text of the form `YYYY-MM-DD HH:MM:SS` spells; none
/// for a text of any other form. The fields are taken as written, whether or
/// not such a day exists.
pub open spec fn timestamp_spelled(s: Seq<char>) -> Option<Timestamp> {
    if s.len() == 19 && s[4] == '-' && s[7] == '-' && s[10] == ' ' && s[13] == ':' && s[16]
        == ':' {
        match (
            four_digits(s, 0),
            two_digits(s, 5),
            two_digits(s, 8),
            two_digits(s, 11),
            two_digits(s, 14),
            two_digits(s, 17),
        ) {
            (Some(y), Some(mo), Some(d), Some(h), Some(mi), Some(sec)) => Some(
                Timestamp {
                    date: Date { year: y as u16, month: mo as u8, day: d as u8 },
                    hour: h as u8,
                    minute: mi as u8,
                    second: sec as u8,
                },
            ),
            _ => None,
        }
    } else {
        None
    }
}

/// Two decimal digits of a number below one hundred.
pub open spec fn two_digit_text(n: int) -> Seq<char> {
    seq![digit_char(n / 10), digit_char(n % 10)]
}

/// Four decimal digits of a number below ten thousand.
pub open spec fn four_digit_text(n: int) -> Seq<char> {
    two_digit_text(n / 100) + two_digit_text(n % 100)
}

/// A date as `YYYY-MM-DD`.
pub open spec fn date_text(d: Date) -> Seq<char> {
    four_digit_text(d.year as int) + seq!['-'] + two_digit_text(d.month as int) + seq!['-']
        + two_digit_text(d.day as int)
}

/// A month as `YYYY-MM`.
pub open spec fn period_text(p: Period) -> Seq<char> {
    four_digit_text(p.year as int) + seq!['-'] + two_digit_text(p.month as int)
}

/// A timestamp as `YYYY-MM-DD HH:MM:SS`.
pub open spec fn timestamp_text(t: Timestamp) -> Seq<char> {
    date_text(t.date) + seq![' '] + two_digit_text(t.hour as int) + seq![':'] + two_digit_text(
        t.minute as int,
    ) + seq![':'] + two_digit_text(t.second as int)
}

/// Every field of the timestamp can be written with its number of digits.
pub open spec fn writable(t: Timestamp) -> bool {
    t.date.year <= 9999 && t.date.month <= 99 && t.date.day <= 99 && t.hour <= 99 && t.minute
        <= 99 && t.second <= 99
}

fn digit_of(c: char) -> (r: Option<u8>)
    ensures
        match r {
            Some(v) => digit_value(c) == Some(v as int) && v <= 9,
            None => digit_value(c) is None,
        },
{
    let u = c as u32;
    if 0x30 <= u && u <= 0x39 {
        Some((u - 0x30) as u8)
    } else {
        None
    }
}

fn read_two(s: &str, i: usize) -> (r: Option<u8>)
    requires
        i <= 17,
        i + 1 < s@.len(),
    ensures
        match r {
            Some(v) => two_digits(s@, i as int) == Some(v as int) && v <= 99,
            None => two_digits(s@, i as int) is None,
        },
{
    let a = match digit_of(s.get_char(i)) {
        Some(v) => v,
        None => {
            return None;
        },
    };
    let b = match digit_of(s.get_char(i + 1)) {
        Some(v) => v,
        None => {
            return None;
        },
    };
    Some(a * 10 + b)
}

/// Reads a timestamp of the form `YYYY-MM-DD HH:MM:SS`.
pub fn parse_timestamp(s: &str) -> (r: Option<Timestamp>)
    ensures
        r == timestamp_spelled(s@),
{
    if s.unicode_len() != 19 {
        return None;
    }
    if s.get_char(4) != '-' || s.get_char(7) != '-' || s.get_char(10) != ' ' || s.get_char(13)
        != ':' || s.get_char(16) != ':' {
        return None;
    }
    let y1 = match read_two(s, 0) {
        Some(v) => v,
        None => {
            return None;
        },
    };
    let y2 = match read_two(s, 2) {
        Some(v) => v,
        None => {
            return None;
        },
    };
    let mo = match read_two(s, 5) {
        Some(v) => v,
        None => {
            return None;
        },
    };
    let d = match read_two(s, 8) {
        Some(v) => v,
        None => {
            return None;
        },
    };
    let h = match read_two(s, 11) {
        Some(v) => v,
        None => {
            return None;
        },
    };
    let mi = match read_two(s, 14) {
        Some(v) => v,
        None => {
            return None;
        },
    };
    let sec = match read_two(s, 17) {
        Some(v) => v,
        None => {
            return None;
        },
    };
    Some(
        Timestamp {
            date: Date { year: y1 as u16 * 100 + y2 as u16, month: mo, day: d },
            hour: h,
            minute: mi,
            second: sec,
        },
    )
}

fn push_two(out: &mut String, n: u8)
    requires
        n <= 99,
    ensures
        final(out)@ == old(out)@ + two_digit_text(n as int),
{
    out.append(digit_text(n / 10));
    out.append(digit_text(n % 10));
    assert(out@ =~= old(out)@ + two_digit_text(n as int));
}

fn push_date(out: &mut String, d: Date)
    requires
        d.year <= 9999,
        d.month <= 99,
        d.day <= 99,
    ensures
        final(out)@ == old(out)@ + date_text(d),
{
    proof {
        reveal_strlit("-");
    }
    push_two(out, (d.year / 100) as u8);
    push_two(out, (d.year % 100) as u8);
    out.append("-");
    push_two(out, d.month);
    out.append("-");
    push_two(out, d.day);
    assert(out@ =~= old(out)@ + date_text(d));
}

impl Date {
    /// The date as `YYYY-MM-DD`.
    pub fn to_text(&self) -> (r: String)
        requires
            self.year <= 9999,
            self.month <= 99,
            self.day <= 99,
        ensures
            r@ == date_text(*self),
    {
        let mut out = String::new();
        push_date(&mut out, *self);
        assert(out@ =~= date_text(*self));
        out
    }
}

impl Period {
    /// The month as `YYYY-MM`.
    pub fn to_text(&self) -> (r: String)
        requires
            self.year <= 9999,
            self.month <= 99,
        ensures
            r@ == period_text(*self),
    {
        proof {
            reveal_strlit("-");
        }
        let mut out = String::new();
        push_two(&mut out, (self.year / 100) as u8);
        push_two(&mut out, (self.year % 100) as u8);
        out.append("-");
        push_two(&mut out, self.month);
        assert(out@ =~= period_text(*self));
        out
    }
}

impl Timestamp {
    /// The timestamp as `YYYY-MM-DD HH:MM:SS`.
    pub fn to_text(&self) -> (r: String)
        requires
            writable(*self),
        ensures
            r@ == timestamp_text(*self),
    {
        proof {
            reveal_strlit(" ");
            reveal_strlit(":");
        }
        let mut out = String::new();
        push_date(&mut out, self.date);
        out.append(" ");
        push_two(&mut out, self.hour);
        out.append(":");
        push_two(&mut out, self.minute);
        out.append(":");
        push_two(&mut out, self.second);
        assert(out@ =~= timestamp_text(*self));
        out
    }
}

/// Reading what was written gives the timestamp back.
pub proof fn law_timestamp_round_trip(t: Timestamp)
    requires
        writable(t),
    ensures
        timestamp_spelled(timestamp_text(t)) == Some(t),
{
    let s = timestamp_text(t);
    assert(s.len() == 19);
    let y = t.date.year as int;
    assert(s[0] == digit_char(y / 100 / 10));
    assert(s[1] == digit_char(y / 100 % 10));
    assert(s[2] == digit_char(y % 100 / 10));
    assert(s[3] == digit_char(y % 100 % 10));
    assert(s[5] == digit_char(t.date.month as int / 10));
    assert(s[6] == digit_char(t.date.month as int % 10));
    assert(s[8] == digit_char(t.date.day as int / 10));
    assert(s[9] == digit_char(t.date.day as int % 10));
    assert(s[11] == digit_char(t.hour as int / 10));
    assert(s[12] == digit_char(t.hour as int % 10));
    assert(s[14] == digit_char(t.minute as int / 10));
    assert(s[15] == digit_char(t.minute as int % 10));
    assert(s[17] == digit_char(t.second as int / 10));
    assert(s[18] == digit_char(t.second as int % 10));
    assert forall|d: int| 0 <= d <= 9 implies digit_value(#[trigger] digit_char(d)) == Some(d) by {
    }
    assert(two_digits(s, 0) == Some(y / 100));
    assert(two_digits(s, 2) == Some(y % 100));
    assert(four_digits(s, 0) == Some(y));
}

/// The days of a year: 366 in a leap year, 365 in any other.
pub proof fn lemma_year_length(year: int)
    ensures
        days_before_month(year, 12) + 31 == if is_leap(year) {
            366int
        } else {
            365int
        },
{
    reveal_with_fuel(days_before_month, 13);
}

/// The two ways of counting days agree: the day before a day has the number
/// before its number. This holds of every day that exists but the first.
pub proof fn law_previous_day_has_previous_number(d: Date)
    requires
        d.valid(),
        !(d.year == 0 && d.month == 1 && d.day == 1),
    ensures
        prev_day_of(d).valid(),
        day_number(prev_day_of(d)) == day_number(d) - 1,
{
    let y = d.year as int;
    if d.day > 1 {
    } else if d.month > 1 {
        assert(days_before_month(y, d.month as int) == days_before_month(y, d.month - 1)
            + days_in_month(y, d.month - 1));
    } else {
        lemma_year_length(y - 1);
        assert(days_before_month(y, 1) == 0);
        assert(days_before_year(y) - days_before_year(y - 1) == if is_leap(y - 1) {
            366int
        } else {
            365int
        });
    }
}

/// The day before a day that exists comes before it.
pub proof fn lemma_previous_day_is_earlier(d: Date)
    requires
        d.valid(),
        !(d.year == 0 && d.month == 1 && d.day == 1),
    ensures
        prev_day_of(d).key() < d.key(),
{
}

/// Going back fewer days than lie behind a day leads to a day that exists,
/// with the number that many below.
pub proof fn lemma_days_before_number(today: Date, j: nat)
    requires
        today.valid(),
        j < day_number(today),
    ensures
        days_before(today, j).valid(),
        day_number(days_before(today, j)) == day_number(today) - j,
    decreases j,
{
    if j > 0 {
        lemma_days_before_number(today, (j - 1) as nat);
        let d = days_before(today, (j - 1) as nat);
        assert(day_number(d) >= 2);
        assert(days_before_month(0, 1) == 0);
        law_previous_day_has_previous_number(d);
    }
}

/// Going back further leads to an earlier day, as long as the calendar does
/// not run out.
pub proof fn lemma_days_before_descend(today: Date, a: nat, b: nat)
    requires
        today.valid(),
        a < b,
        b < day_number(today),
    ensures
        days_before(today, b).key() < days_before(today, a).key(),
    decreases b,
{
    lemma_days_before_number(today, (b - 1) as nat);
    let d = days_before(today, (b - 1) as nat);
    assert(day_number(d) >= 2);
    assert(days_before_month(0, 1) == 0);
    lemma_previous_day_is_earlier(d);
    if a < b - 1 {
        lemma_days_before_descend(today, a, (b - 1) as nat);
    }
}

/// Going back further leads to an earlier month, as long as the calendar does
/// not run out.
pub proof fn lemma_period_before_descend(today: Date, a: nat, b: nat)
    requires
        today.valid(),
        a < b,
        b <= month_index(today.year as int, today.month as int),
    ensures
        period_before(today, b).key() < period_before(today, a).key(),
{
    let top = month_index(today.year as int, today.month as int);
    let x = top - b;
    let y = top - a;
    assert(0 <= x < y <= top);
    assert(x / 12 <= y / 12);
    assert(y / 12 <= today.year);
    if x / 12 == y / 12 {
        assert(x % 12 < y % 12);
    }
}

} // verus!
