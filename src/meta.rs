//! Indexed files, the metadata values attached to them, and their text form.

use vstd::prelude::*;
use vstd::string::*;

verus! {

/// Whether `y` is a leap year of the proleptic Gregorian calendar.
pub open spec fn is_leap_year(y: int) -> bool {
    y % 4 == 0 && (y % 100 != 0 || y % 400 == 0)
}

/// Number of days of month `m` (1 to 12) of year `y`.
pub open spec fn days_in_month(y: int, m: int) -> int {
    if m == 2 {
        if is_leap_year(y) {
            29
        } else {
            28
        }
    } else if m == 4 || m == 6 || m == 9 || m == 11 {
        30
    } else {
        31
    }
}

/// Earliest and latest years that a date can have.
pub const MIN_YEAR: i32 = -262143;
pub const MAX_YEAR: i32 = 262142;

/// An instant in UTC, as a calendar date and a time of day. A nanosecond
/// count of a second or more marks a leap second, after second 59.
#[derive(Debug, Clone, Copy, PartialEq, Eq, Structural)]
pub struct UtcDateTime {
    pub year: i32,
    pub month: u32,
    pub day: u32,
    pub hour: u32,
    pub minute: u32,
    pub second: u32,
    pub nanosecond: u32,
}

impl UtcDateTime {
    pub open spec fn wf(&self) -> bool {
        &&& MIN_YEAR <= self.year <= MAX_YEAR
        &&& 1 <= self.month <= 12
        &&& 1 <= self.day <= days_in_month(self.year as int, self.month as int)
        &&& self.hour < 24
        &&& self.minute < 60
        &&& self.second < 60
        &&& (self.nanosecond < 1_000_000_000 || (self.second == 59 && self.nanosecond
            < 2_000_000_000))
    }

    /// The instant with these fields, if they name one.
    pub fn new(year: i32, month: u32, day: u32, hour: u32, minute: u32, second: u32, nanosecond: u32) -> (r: Option<UtcDateTime>)
        ensures
            match r {
                Some(t) => t.wf() && t == (UtcDateTime {
                    year,
                    month,
                    day,
                    hour,
                    minute,
                    second,
                    nanosecond,
                }),
                None => !(UtcDateTime { year, month, day, hour, minute, second, nanosecond }).wf(),
            },
    {
        let t = UtcDateTime { year, month, day, hour, minute, second, nanosecond };
        if year < MIN_YEAR || year > MAX_YEAR || month < 1 || month > 12 || day < 1 || hour >= 24
            || minute >= 60 || second >= 60 {
            return None;
        }
        if !(nanosecond < 1_000_000_000 || (second == 59 && nanosecond < 2_000_000_000)) {
            return None;
        }
        if day > month_length(year, month) {
            return None;
        }
        Some(t)
    }
}

/// Computes `days_in_month`.
pub(crate) fn month_length(year: i32, month: u32) -> (r: u32)
    requires
        MIN_YEAR <= year <= MAX_YEAR,
        1 <= month <= 12,
    ensures
        r == days_in_month(year as int, month as int),
{
    // shifted by a multiple of 400 so that the remainders are taken of a
    // non-negative number
    let shifted: u64 = (year as i64 + 400_000) as u64;
    assert(shifted % 4 == (year as int) % 4 && shifted % 100 == (year as int) % 100 && shifted
        % 400 == (year as int) % 400) by (nonlinear_arith)
        requires
            shifted == year + 400_000,
    ;
    let leap = shifted % 4 == 0 && (shifted % 100 != 0 || shifted % 400 == 0);
    if month == 2 {
        if leap {
            29
        } else {
            28
        }
    } else if month == 4 || month == 6 || month == 9 || month == 11 {
        30
    } else {
        31
    }
}

/// Text of the decimal digit `d`.
pub open spec fn digit_char(d: nat) -> char {
    if d == 0 {
        '0'
    } else if d == 1 {
        '1'
    } else if d == 2 {
        '2'
    } else if d == 3 {
        '3'
    } else if d == 4 {
        '4'
    } else if d == 5 {
        '5'
    } else if d == 6 {
        '6'
    } else if d == 7 {
        '7'
    } else if d == 8 {
        '8'
    } else {
        '9'
    }
}

/// Decimal text of `n`, without leading zeros.
pub open spec fn nat_text(n: nat) -> Seq<char>
    decreases n,
{
    if n < 10 {
        seq![digit_char(n)]
    } else {
        nat_text(n / 10).push(digit_char(n % 10))
    }
}

/// Decimal text of `i`, with a leading `-` when negative.
pub open spec fn int_text(i: int) -> Seq<char> {
    if i < 0 {
        seq!['-'] + nat_text((-i) as nat)
    } else {
        nat_text(i as nat)
    }
}

fn digit_str(d: u64) -> (r: &'static str)
    requires
        d < 10,
    ensures
        r@ == seq![digit_char(d as nat)],
{
    proof {
        reveal_strlit("0");
        reveal_strlit("1");
        reveal_strlit("2");
        reveal_strlit("3");
        reveal_strlit("4");
        reveal_strlit("5");
        reveal_strlit("6");
        reveal_strlit("7");
        reveal_strlit("8");
        reveal_strlit("9");
    }
    if d == 0 {
        "0"
    } else if d == 1 {
        "1"
    } else if d == 2 {
        "2"
    } else if d == 3 {
        "3"
    } else if d == 4 {
        "4"
    } else if d == 5 {
        "5"
    } else if d == 6 {
        "6"
    } else if d == 7 {
        "7"
    } else if d == 8 {
        "8"
    } else {
        "9"
    }
}

/// Decimal text of an unsigned integer.
pub fn u64_text(v: u64) -> (r: String)
    ensures
        r@ == nat_text(v as nat),
{
    let mut n: u64 = v / 10;
    let mut out = String::from_str(digit_str(v % 10));
    while n > 0
        invariant
            n > 0 ==> nat_text(v as nat) == nat_text(n as nat) + out@,
            n == 0 ==> nat_text(v as nat) == out@,
        decreases n,
    {
        let d = digit_str(n % 10);
        proof {
            if n >= 10 {
                assert(nat_text(n as nat) == nat_text((n / 10) as nat).push(digit_char((n % 10) as nat)));
                assert(nat_text((n / 10) as nat).push(digit_char((n % 10) as nat)) + out@
                    =~= nat_text((n / 10) as nat) + (d@ + out@));
            } else {
                assert(nat_text(n as nat) == d@);
            }
        }
        out = String::from_str(d).concat(out.as_str());
        n = n / 10;
    }
    out
}

/// Decimal text of a signed integer.
pub fn i64_text(v: i64) -> (r: String)
    ensures
        r@ == int_text(v as int),
{
    if v < 0 {
        let magnitude: u64 = (-(v as i128)) as u64;
        let digits = u64_text(magnitude);
        proof {
            reveal_strlit("-");
        }
        String::from_str("-").concat(digits.as_str())
    } else {
        u64_text(v as u64)
    }
}

/// Decimal text of `n` with zeros in front up to `width` digits.
pub open spec fn padded(n: nat, width: nat) -> Seq<char> {
    let digits = nat_text(n);
    if digits.len() >= width {
        digits
    } else {
        Seq::new((width - digits.len()) as nat, |i: int| '0') + digits
    }
}

/// Text of a year: four digits within 0 to 9999, and else a sign and at
/// least four digits.
pub open spec fn year_text(y: int) -> Seq<char> {
    if 0 <= y <= 9999 {
        padded(y as nat, 4)
    } else if y < 0 {
        "-"@ + padded((-y) as nat, 4)
    } else {
        "+"@ + padded(y as nat, 4)
    }
}

/// Text of the date of `t`: year, month and day, separated by `-`.
pub open spec fn date_text(t: UtcDateTime) -> Seq<char> {
    year_text(t.year as int) + "-"@ + padded(t.month as nat, 2) + "-"@ + padded(t.day as nat, 2)
}

/// Text of a fraction of a second of `nano` nanoseconds: nothing for none,
/// and else a point and three, six or nine digits, the fewest that hold it.
pub open spec fn fraction_text(nano: nat) -> Seq<char> {
    if nano == 0 {
        Seq::empty()
    } else if nano % 1_000_000 == 0 {
        "."@ + padded(nano / 1_000_000, 3)
    } else if nano % 1_000 == 0 {
        "."@ + padded(nano / 1_000, 6)
    } else {
        "."@ + padded(nano, 9)
    }
}

/// Text of the time of day of `t`; a leap second shows as second 60.
pub open spec fn clock_text(t: UtcDateTime) -> Seq<char> {
    let leap = t.nanosecond >= 1_000_000_000;
    let second = if leap {
        t.second + 1
    } else {
        t.second as int
    };
    let nano = if leap {
        t.nanosecond - 1_000_000_000
    } else {
        t.nanosecond as int
    };
    padded(t.hour as nat, 2) + ":"@ + padded(t.minute as nat, 2) + ":"@ + padded(second as nat, 2)
        + fraction_text(nano as nat)
}

/// The text that chrono gives an instant in UTC: `2022-09-05 23:56:04 UTC`.
pub open spec fn utc_text_of(t: UtcDateTime) -> Seq<char> {
    date_text(t) + " "@ + clock_text(t) + " UTC"@
}

/// Relies on chrono's `NaiveDate::from_ymd_opt`, `NaiveDate::and_hms_nano_opt`
/// and the `Display` of `DateTime<Utc>`: the `Debug` form of the date and of
/// the time, a blank and `UTC`. Both constructors accept every well-formed
/// value.
#[verifier::external_body]
fn utc_text(t: &UtcDateTime) -> (r: String)
    requires
        t.wf(),
    ensures
        r@ == utc_text_of(*t),
{
    let date = chrono::NaiveDate::from_ymd_opt(t.year, t.month, t.day).unwrap();
    let moment = date.and_hms_nano_opt(t.hour, t.minute, t.second, t.nanosecond).unwrap();
    moment.and_utc().to_string()
}

/// A metadata value.
#[derive(Debug, Clone, PartialEq)]
pub enum MetaValue {
    String(String),
    Int(i64),
    UInt(u64),
    /// A floating-point value, held as the decimal text that Rust's
    /// formatting gives it.
    Float(String),
    Bool(bool),
    Date(UtcDateTime),
    Null,
}

/// A named metadata value.
#[derive(Debug, Clone, PartialEq)]
pub struct MetaVariable {
    pub name: String,
    pub value: MetaValue,
}

impl MetaValue {
    pub open spec fn wf(&self) -> bool {
        match self {
            MetaValue::Date(t) => t.wf(),
            _ => true,
        }
    }

    /// The name of the value's type.
    pub open spec fn kind_name(&self) -> Seq<char> {
        match self {
            MetaValue::String(_) => "String"@,
            MetaValue::Int(_) => "Int"@,
            MetaValue::UInt(_) => "UInt"@,
            MetaValue::Float(_) => "Float"@,
            MetaValue::Bool(_) => "Bool"@,
            MetaValue::Date(_) => "Date"@,
            MetaValue::Null => "Null"@,
        }
    }

    /// The value's text.
    pub open spec fn text(&self) -> Seq<char> {
        match self {
            MetaValue::String(s) => s@,
            MetaValue::Int(i) => int_text(*i as int),
            MetaValue::UInt(u) => nat_text(*u as nat),
            MetaValue::Float(t) => t@,
            MetaValue::Bool(b) => if *b {
                "true"@
            } else {
                "false"@
            },
            MetaValue::Date(t) => utc_text_of(*t),
            MetaValue::Null => "NULL"@,
        }
    }

    /// A copy of this value.
    pub fn clone_value(&self) -> (r: MetaValue)
        ensures
            r == *self,
    {
        match self {
            MetaValue::String(s) => MetaValue::String(s.clone()),
            MetaValue::Int(i) => MetaValue::Int(*i),
            MetaValue::UInt(u) => MetaValue::UInt(*u),
            MetaValue::Float(t) => MetaValue::Float(t.clone()),
            MetaValue::Bool(b) => MetaValue::Bool(*b),
            MetaValue::Date(t) => MetaValue::Date(*t),
            MetaValue::Null => MetaValue::Null,
        }
    }

    pub fn string_type(&self) -> (r: &'static str)
        ensures
            r@ == self.kind_name(),
    {
        match self {
            MetaValue::String(_) => "String",
            MetaValue::Int(_) => "Int",
            MetaValue::UInt(_) => "UInt",
            MetaValue::Float(_) => "Float",
            MetaValue::Bool(_) => "Bool",
            MetaValue::Date(_) => "Date",
            MetaValue::Null => "Null",
        }
    }

    /// The value's text: a string as it is, numbers in decimal, `true` or
    /// `false`, a date as chrono writes it, and `NULL`.
    pub fn to_text(&self) -> (r: String)
        requires
            self.wf(),
        ensures
            r@ == self.text(),
    {
        match self {
            MetaValue::String(s) => s.clone(),
            MetaValue::Int(i) => i64_text(*i),
            MetaValue::UInt(u) => u64_text(*u),
            MetaValue::Float(t) => t.clone(),
            MetaValue::Bool(b) => if *b {
                String::from_str("true")
            } else {
                String::from_str("false")
            },
            MetaValue::Date(t) => utc_text(t),
            MetaValue::Null => String::from_str("NULL"),
        }
    }
}

/// An indexed file: where it is, its digest, its timestamps and its metadata.
#[derive(Debug, Clone)]
pub struct IndexFile {
    pub filename: String,
    pub url: String,
    pub sha256: String,
    pub created_at: UtcDateTime,
    pub modified_at: UtcDateTime,
    pub meta: Vec<MetaVariable>,
}

} // verus!
