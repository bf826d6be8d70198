//! Calendar dates as proleptic Gregorian day numbers.
//!
//! A `Date` holds the number of days since 0000-12-31, so that 0001-01-01 is
//! day 1. Day arithmetic (the only thing the series engines need) is then
//! ordinary integer arithmetic. Conversion from a (year, month, day) triple is
//! delegated to chrono, against an exact specification of the calendar.

use vstd::prelude::*;
use vstd::string::StringSliceAdditionalSpecFns;

verus! {

/// The smallest year chrono's `NaiveDate` can represent.
pub const MIN_YEAR: i32 = -262143;

/// The largest year chrono's `NaiveDate` can represent.
pub const MAX_YEAR: i32 = 262142;

pub open spec fn is_leap_year(y: int) -> bool {
    (y % 4 == 0 && y % 100 != 0) || y % 400 == 0
}

pub open spec fn days_in_month(y: int, m: int) -> int {
    if m == 2 {
        if is_leap_year(y) {
            29
        } else {
            28
        }
    } else if m == 4 || m == 6 || m == 9 || m == 11 {
        30
    } else {
        31
    }
}

pub open spec fn days_before_month(y: int, m: int) -> int
    decreases m,
{
    if m <= 1 {
        0
    } else {
        days_before_month(y, m - 1) + days_in_month(y, m - 1)
    }
}

/// A (year, month, day) triple that names a real calendar date within the
/// range chrono can represent.
pub open spec fn valid_ymd(y: int, m: int, d: int) -> bool {
    &&& MIN_YEAR <= y <= MAX_YEAR
    &&& 1 <= m <= 12
    &&& 1 <= d <= days_in_month(y, m)
}

/// The proleptic Gregorian day number of a date: 0001-01-01 is day 1, with
/// leap days on the years divisible by 4, except centuries off the
/// 400-year cycle.
pub open spec fn day_number(y: int, m: int, d: int) -> int {
    365 * (y - 1) + (y - 1) / 4 - (y - 1) / 100 + (y - 1) / 400 + days_before_month(y, m) + d
}

/// A calendar date, held as its day number.
#[derive(Clone, Copy, Debug, PartialEq, Eq, Structural)]
pub struct Date {
    pub day: i64,
}

impl View for Date {
    type V = int;

    open spec fn view(&self) -> int {
        self.day as int
    }
}

/// Relies on chrono's `NaiveDate::from_ymd_opt`, which returns `Some` exactly
/// for the valid calendar dates with a year in `[MIN_YEAR, MAX_YEAR]`, and on
/// `Datelike::num_days_from_ce`, which converts the date to its day count
/// since January 1 of year 1 (that day being 1) in the proleptic Gregorian
/// calendar.
#[verifier::external_body]
fn ymd_day_number(year: i32, month: u32, day: u32) -> (r: Option<i64>)
    ensures
        r is Some <==> valid_ymd(year as int, month as int, day as int),
        r matches Some(n) ==> n == day_number(year as int, month as int, day as int),
{
    match chrono::NaiveDate::from_ymd_opt(year, month, day) {
        Some(d) => Some(chrono::Datelike::num_days_from_ce(&d) as i64),
        None => None,
    }
}

impl Date {
    /// The date named by a (year, month, day) triple, or `None` when the
    /// triple is not a real calendar date.
    pub fn from_ymd(year: i32, month: u32, day: u32) -> (r: Option<Date>)
        ensures
            r is Some <==> valid_ymd(year as int, month as int, day as int),
            r matches Some(d) ==> d@ == day_number(year as int, month as int, day as int),
    {
        match ymd_day_number(year, month, day) {
            Some(n) => Some(Date { day: n }),
            None => None,
        }
    }
}

/// The field of a date string that a parse failure points at.
#[derive(Clone, Copy, Debug, PartialEq, Eq, Structural)]
pub enum DateField {
    Year,
    Month,
    Day,
}

/// The ways a date string can fail to parse.
#[derive(Clone, Copy, Debug, PartialEq, Eq, Structural)]
pub enum ParseError {
    /// The text has no part for this field.
    MissingField { field: DateField },
    /// The part for this field is not a plain decimal number, or its value
    /// is too large for the field's type.
    InvalidNumber { field: DateField },
    /// The three numbers do not name a real calendar date.
    InvalidDate,
}

pub open spec fn is_digit(b: u8) -> bool {
    48 <= b <= 57
}

/// A non-empty run of decimal digits.
pub open spec fn is_digits(bs: Seq<u8>) -> bool {
    bs.len() > 0 && forall|i: int| 0 <= i < bs.len() ==> is_digit(#[trigger] bs[i])
}

/// The number the digits spell out.
pub open spec fn digits_value(bs: Seq<u8>) -> int
    decreases bs.len(),
{
    if bs.len() == 0 {
        0
    } else {
        digits_value(bs.drop_last()) * 10 + (bs.last() - 48)
    }
}

/// The position of the first `-` (byte 45) at or after `from`, or the length
/// when there is none.
pub open spec fn dash_end(bs: Seq<u8>, from: int) -> int
    decreases bs.len() - from,
{
    if from < 0 || from >= bs.len() {
        bs.len() as int
    } else if bs[from] == 45 {
        from
    } else {
        dash_end(bs, from + 1)
    }
}

/// What parsing a date string yields: the three numbers of a well-formed
/// `year-month-day` string naming a real calendar date, or the exact error.
/// The string is split on `-`; each of the first three parts must be a run
/// of decimal digits that fits its field's type; text after a fourth `-` is
/// ignored.
pub open spec fn date_parse_outcome(bs: Seq<u8>) -> Result<(int, int, int), ParseError> {
    let e1 = dash_end(bs, 0);
    let ypart = bs.subrange(0, e1);
    if !(is_digits(ypart) && digits_value(ypart) <= i32::MAX) {
        Err(ParseError::InvalidNumber { field: DateField::Year })
    } else if e1 >= bs.len() {
        Err(ParseError::MissingField { field: DateField::Month })
    } else {
        let e2 = dash_end(bs, e1 + 1);
        let mpart = bs.subrange(e1 + 1, e2);
        if !(is_digits(mpart) && digits_value(mpart) <= u32::MAX) {
            Err(ParseError::InvalidNumber { field: DateField::Month })
        } else if e2 >= bs.len() {
            Err(ParseError::MissingField { field: DateField::Day })
        } else {
            let e3 = dash_end(bs, e2 + 1);
            let dpart = bs.subrange(e2 + 1, e3);
            if !(is_digits(dpart) && digits_value(dpart) <= u32::MAX) {
                Err(ParseError::InvalidNumber { field: DateField::Day })
            } else if !valid_ymd(digits_value(ypart), digits_value(mpart), digits_value(dpart)) {
                Err(ParseError::InvalidDate)
            } else {
                Ok((digits_value(ypart), digits_value(mpart), digits_value(dpart)))
            }
        }
    }
}

/// A run of digits values a number no smaller than any of its prefixes.
proof fn lemma_digits_value_prefix(bs: Seq<u8>, k: int)
    requires
        0 <= k <= bs.len(),
        forall|i: int| 0 <= i < bs.len() ==> is_digit(#[trigger] bs[i]),
    ensures
        0 <= digits_value(bs.subrange(0, k)) <= digits_value(bs),
    decreases bs.len() - k,
{
    if k == bs.len() {
        assert(bs.subrange(0, k) =~= bs);
        lemma_digits_value_nonneg(bs);
    } else {
        lemma_digits_value_prefix(bs, k + 1);
        let longer = bs.subrange(0, k + 1);
        assert(longer.drop_last() =~= bs.subrange(0, k));
        lemma_digits_value_nonneg(bs.subrange(0, k));
    }
}

proof fn lemma_digits_value_nonneg(bs: Seq<u8>)
    requires
        forall|i: int| 0 <= i < bs.len() ==> is_digit(#[trigger] bs[i]),
    ensures
        digits_value(bs) >= 0,
    decreases bs.len(),
{
    if bs.len() > 0 {
        lemma_digits_value_nonneg(bs.drop_last());
    }
}

/// Looks up the next `-` separator at or after `from`.
fn find_dash(bs: &[u8], from: usize) -> (r: usize)
    requires
        from <= bs@.len(),
    ensures
        r == dash_end(bs@, from as int),
        from <= r <= bs@.len(),
{
    let mut i = from;
    while i < bs.len()
        invariant
            from <= i <= bs@.len(),
            dash_end(bs@, from as int) == dash_end(bs@, i as int),
        decreases bs@.len() - i,
    {
        if bs[i] == 45 {
            return i;
        }
        i = i + 1;
    }
    i
}

/// Reads the decimal number in `bs[lo..hi)`: `None` when the range is not a
/// non-empty run of digits or its value exceeds `max`.
fn parse_number(bs: &[u8], lo: usize, hi: usize, max: u64) -> (r: Option<u64>)
    requires
        lo <= hi <= bs@.len(),
        max <= u32::MAX,
    ensures
        r is Some <==> is_digits(bs@.subrange(lo as int, hi as int)) && digits_value(
            bs@.subrange(lo as int, hi as int),
        ) <= max,
        r matches Some(v) ==> v == digits_value(bs@.subrange(lo as int, hi as int)),
{
    let ghost whole = bs@.subrange(lo as int, hi as int);
    if lo == hi {
        return None;
    }
    let mut val: u64 = 0;
    let mut i = lo;
    while i < hi
        invariant
            lo <= i <= hi <= bs@.len(),
            max <= u32::MAX,
            whole == bs@.subrange(lo as int, hi as int),
            forall|t: int| 0 <= t < i - lo ==> is_digit(#[trigger] whole[t]),
            val == digits_value(bs@.subrange(lo as int, i as int)),
            val <= max,
        decreases hi - i,
    {
        let b = bs[i];
        assert(whole[i - lo] == bs@[i as int]);
        if b < 48 || b > 57 {
            return None;
        }
        let d = (b - 48) as u64;
        let next = val * 10 + d;
        proof {
            let sub = bs@.subrange(lo as int, i as int);
            let sub1 = bs@.subrange(lo as int, i + 1);
            assert(sub1.drop_last() =~= sub);
            assert(sub1.last() == bs@[i as int]);
        }
        if next > max {
            proof {
                if is_digits(whole) {
                    assert(whole.subrange(0, i + 1 - lo) =~= bs@.subrange(lo as int, i + 1));
                    lemma_digits_value_prefix(whole, i + 1 - lo);
                }
            }
            return None;
        }
        val = next;
        i = i + 1;
    }
    assert(whole =~= bs@.subrange(lo as int, i as int));
    Some(val)
}

/// Parses a `year-month-day` date string, as `date_parse_outcome` describes,
/// and converts it to its day number.
pub fn parse_date(date_string: &str) -> (r: Result<Date, ParseError>)
    ensures
        ({
            let outcome = date_parse_outcome(date_string.spec_bytes());
            match r {
                Ok(d) => outcome matches Ok(ymd) && d@ == day_number(ymd.0, ymd.1, ymd.2),
                Err(e) => outcome matches Err(e2) && e == e2,
            }
        }),
{
    let bs = date_string.as_bytes();
    let n = bs.len();
    let e1 = find_dash(bs, 0);
    let year = match parse_number(bs, 0, e1, i32::MAX as u64) {
        Some(v) => v,
        None => {
            return Err(ParseError::InvalidNumber { field: DateField::Year });
        },
    };
    if e1 == n {
        return Err(ParseError::MissingField { field: DateField::Month });
    }
    let e2 = find_dash(bs, e1 + 1);
    let month = match parse_number(bs, e1 + 1, e2, u32::MAX as u64) {
        Some(v) => v,
        None => {
            return Err(ParseError::InvalidNumber { field: DateField::Month });
        },
    };
    if e2 == n {
        return Err(ParseError::MissingField { field: DateField::Day });
    }
    let e3 = find_dash(bs, e2 + 1);
    let day = match parse_number(bs, e2 + 1, e3, u32::MAX as u64) {
        Some(v) => v,
        None => {
            return Err(ParseError::InvalidNumber { field: DateField::Day });
        },
    };
    match Date::from_ymd(year as i32, month as u32, day as u32) {
        Some(date) => Ok(date),
        None => Err(ParseError::InvalidDate),
    }
}

} // verus!
