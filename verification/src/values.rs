//! Scalar values as they travel between the mapper and the database, and the
//! SQL literal text that the mutation generator embeds into batches.

use vstd::prelude::*;

verus! {

/// A time-of-day / duration scalar: signed hours, minutes, seconds.
#[derive(Debug, Clone, PartialEq, Eq, Structural)]
pub struct DBTime(pub i16, pub u8, pub u8);

/// A calendar date scalar: signed year, month, day.
#[derive(Debug, Clone, PartialEq, Eq, Structural)]
pub struct DBDate(pub i32, pub u8, pub u8);

/// A combined date-and-time scalar: signed year, month, day, hour, minute,
/// second.
#[derive(Debug, Clone, PartialEq, Eq, Structural)]
pub struct DBDateTime(pub i32, pub u8, pub u8, pub u8, pub u8, pub u8);

/// Mathematical model of a [`DbValue`].
#[verifier::ext_equal]
pub enum DbValueView {
    Null,
    Int(i64),
    UInt(u64),
    Text(Seq<char>),
    DateTime(u16, u8, u8, u8, u8, u8),
}

/// A scalar cell value: what one column of one row holds.
///
/// Date-and-time cells carry the already-clamped wire form (unsigned year);
/// [`DBDateTime::to_wire`] produces it from the signed in-memory form.
#[derive(Debug)]
pub enum DbValue {
    Null,
    Int(i64),
    UInt(u64),
    Text(String),
    DateTime(u16, u8, u8, u8, u8, u8),
}

impl DeepView for DbValue {
    type V = DbValueView;

    open spec fn deep_view(&self) -> DbValueView {
        self.view()
    }
}

impl View for DbValue {
    type V = DbValueView;

    open spec fn view(&self) -> DbValueView {
        match self {
            DbValue::Null => DbValueView::Null,
            DbValue::Int(x) => DbValueView::Int(*x),
            DbValue::UInt(x) => DbValueView::UInt(*x),
            DbValue::Text(s) => DbValueView::Text(s@),
            DbValue::DateTime(y, mo, d, h, mi, s) => DbValueView::DateTime(*y, *mo, *d, *h, *mi, *s),
        }
    }
}

impl Clone for DbValue {
    fn clone(&self) -> (r: DbValue)
        ensures
            r@ == self@,
    {
        match self {
            DbValue::Null => DbValue::Null,
            DbValue::Int(x) => DbValue::Int(*x),
            DbValue::UInt(x) => DbValue::UInt(*x),
            DbValue::Text(s) => DbValue::Text(s.clone()),
            DbValue::DateTime(y, mo, d, h, mi, s) => DbValue::DateTime(*y, *mo, *d, *h, *mi, *s),
        }
    }
}

impl PartialEq for DbValue {
    fn eq(&self, other: &DbValue) -> (r: bool) {
        let r = match self {
            DbValue::Null => matches!(other, DbValue::Null),
            DbValue::Int(a) => match other {
                DbValue::Int(b) => a == b,
                _ => false,
            },
            DbValue::UInt(a) => match other {
                DbValue::UInt(b) => a == b,
                _ => false,
            },
            DbValue::Text(a) => match other {
                DbValue::Text(b) => *a == *b,
                _ => false,
            },
            DbValue::DateTime(y1, mo1, d1, h1, mi1, s1) => match other {
                DbValue::DateTime(y2, mo2, d2, h2, mi2, s2) => (
                    y1 == y2 && mo1 == mo2 && d1 == d2 && h1 == h2 && mi1 == mi2 && s1 == s2
                ),
                _ => false,
            },
        };
        proof {
            assert(r == (self@ == other@));
        }
        r
    }
}

impl vstd::std_specs::cmp::PartialEqSpecImpl for DbValue {
    open spec fn obeys_eq_spec() -> bool {
        true
    }

    open spec fn eq_spec(&self, other: &DbValue) -> bool {
        self@ == other@
    }
}

/// The decimal digit character for `d` (`0 <= d <= 9`).
pub open spec fn spec_digit(d: int) -> char {
    if d == 0 {
        '0'
    } else if d == 1 {
        '1'
    } else if d == 2 {
        '2'
    } else if d == 3 {
        '3'
    } else if d == 4 {
        '4'
    } else if d == 5 {
        '5'
    } else if d == 6 {
        '6'
    } else if d == 7 {
        '7'
    } else if d == 8 {
        '8'
    } else {
        '9'
    }
}

/// The decimal text of a non-negative integer, without sign or padding.
pub open spec fn spec_dec(n: nat) -> Seq<char>
    decreases n,
{
    if n < 10 {
        seq![spec_digit(n as int)]
    } else {
        spec_dec(n / 10) + seq![spec_digit((n % 10) as int)]
    }
}

/// The decimal text of a signed integer: a leading `-` for negative values.
pub open spec fn spec_dec_signed(n: int) -> Seq<char> {
    if n < 0 {
        seq!['-'] + spec_dec((-n) as nat)
    } else {
        spec_dec(n as nat)
    }
}

fn digit_str(d: u64) -> (r: &'static str)
    requires
        d < 10,
    ensures
        r@ == seq![spec_digit(d as int)],
{
    let r: &'static str = match d {
        0 => "0",
        1 => "1",
        2 => "2",
        3 => "3",
        4 => "4",
        5 => "5",
        6 => "6",
        7 => "7",
        8 => "8",
        _ => "9",
    };
    proof {
        reveal_strlit("0");
        reveal_strlit("1");
        reveal_strlit("2");
        reveal_strlit("3");
        reveal_strlit("4");
        reveal_strlit("5");
        reveal_strlit("6");
        reveal_strlit("7");
        reveal_strlit("8");
        reveal_strlit("9");
        assert(r@ =~= seq![spec_digit(d as int)]);
    }
    r
}

/// Renders `n` in decimal.
pub fn u64_to_dec(n: u64) -> (r: String)
    ensures
        r@ == spec_dec(n as nat),
    decreases n,
{
    if n < 10 {
        let mut s = String::new();
        s.append(digit_str(n));
        proof {
            assert(s@ =~= spec_dec(n as nat));
        }
        s
    } else {
        let mut s = u64_to_dec(n / 10);
        s.append(digit_str(n % 10));
        proof {
            assert(s@ =~= spec_dec(n as nat));
        }
        s
    }
}

/// Renders `n` in decimal, with a leading `-` when negative.
pub fn i64_to_dec(n: i64) -> (r: String)
    ensures
        r@ == spec_dec_signed(n as int),
{
    if n >= 0 {
        u64_to_dec(n as u64)
    } else {
        let wide: i128 = n as i128;
        let magnitude: u64 = (-wide) as u64;
        let mut s = String::new();
        s.append("-");
        let digits = u64_to_dec(magnitude);
        s.append(digits.as_str());
        proof {
            reveal_strlit("-");
            assert(s@ =~= spec_dec_signed(n as int));
        }
        s
    }
}

} // verus!

verus! {

/// How one character is escaped inside a single-quoted SQL string literal,
/// with backslash escaping enabled.
pub open spec fn spec_escape_char(c: char) -> Seq<char> {
    if c == '\u{0}' {
        seq!['\\', '0']
    } else if c == '\n' {
        seq!['\\', 'n']
    } else if c == '\r' {
        seq!['\\', 'r']
    } else if c == '\\' || c == '\'' || c == '"' {
        seq!['\\', c]
    } else if c == '\u{1a}' {
        seq!['\\', 'Z']
    } else {
        seq![c]
    }
}

/// The escaped body of a SQL string literal.
pub open spec fn spec_escape(s: Seq<char>) -> Seq<char>
    decreases s.len(),
{
    if s.len() == 0 {
        Seq::empty()
    } else {
        spec_escape_char(s[0]) + spec_escape(s.drop_first())
    }
}

/// A full single-quoted SQL string literal for the text `s`.
pub open spec fn spec_text_literal(s: Seq<char>) -> Seq<char> {
    seq!['\''] + spec_escape(s) + seq!['\'']
}

/// Decimal text of `n` left-padded with zeros to two places.
pub open spec fn spec_pad2(n: nat) -> Seq<char> {
    if n < 10 {
        seq!['0'] + spec_dec(n)
    } else {
        spec_dec(n)
    }
}

/// Decimal text of `n` left-padded with zeros to four places.
pub open spec fn spec_pad4(n: nat) -> Seq<char> {
    if n < 10 {
        seq!['0', '0', '0'] + spec_dec(n)
    } else if n < 100 {
        seq!['0', '0'] + spec_dec(n)
    } else if n < 1000 {
        seq!['0'] + spec_dec(n)
    } else {
        spec_dec(n)
    }
}

/// The quoted `'YYYY-MM-DD'` or `'YYYY-MM-DD HH:MM:SS'` literal for a
/// date-and-time value; the time part is omitted when it is all zero.
pub open spec fn spec_datetime_literal(y: u16, mo: u8, d: u8, h: u8, mi: u8, s: u8) -> Seq<char> {
    let date = seq!['\''] + spec_pad4(y as nat) + seq!['-'] + spec_pad2(mo as nat) + seq!['-']
        + spec_pad2(d as nat);
    if h == 0 && mi == 0 && s == 0 {
        date + seq!['\'']
    } else {
        date + seq![' '] + spec_pad2(h as nat) + seq![':'] + spec_pad2(mi as nat) + seq![':']
            + spec_pad2(s as nat) + seq!['\'']
    }
}

/// The inline SQL literal text for a scalar value.
pub open spec fn spec_sql_literal(v: DbValueView) -> Seq<char> {
    match v {
        DbValueView::Null => "NULL"@,
        DbValueView::Int(x) => spec_dec_signed(x as int),
        DbValueView::UInt(x) => spec_dec(x as nat),
        DbValueView::Text(s) => spec_text_literal(s),
        DbValueView::DateTime(y, mo, d, h, mi, s) => spec_datetime_literal(y, mo, d, h, mi, s),
    }
}

/// Relies on `mysql_async::Value::as_sql` (defined in `mysql_common`) with
/// backslash escaping enabled: it renders `NULL` as-is, integers in plain
/// decimal, text as a single-quoted literal whose characters are escaped one
/// by one (`\0`, `\n`, `\r`, `\\`, `\'`, `\"`, `\Z`), and a date-and-time
/// value as a quoted zero-padded `YYYY-MM-DD[ HH:MM:SS]` string, the time
/// part dropped when zero.
#[verifier::external_body]
pub(crate) fn value_as_sql(v: &DbValue) -> (r: String)
    ensures
        r@ == spec_sql_literal(v@),
{
    let mv = match v {
        DbValue::Null => mysql_async::Value::NULL,
        DbValue::Int(x) => mysql_async::Value::Int(*x),
        DbValue::UInt(x) => mysql_async::Value::UInt(*x),
        DbValue::Text(s) => mysql_async::Value::Bytes(s.clone().into_bytes()),
        DbValue::DateTime(y, mo, d, h, mi, s) => mysql_async::Value::Date(*y, *mo, *d, *h, *mi, *s, 0),
    };
    mv.as_sql(false)
}

/// The primary-key number a cell holds: non-negative integers qualify,
/// anything else (including `NULL`) does not.
pub open spec fn spec_cell_pk(v: DbValueView) -> Option<u64> {
    match v {
        DbValueView::Int(x) => if x >= 0 {
            Some(x as u64)
        } else {
            None
        },
        DbValueView::UInt(x) => Some(x),
        _ => None,
    }
}

impl DbValue {
    /// Reads a cell as a primary-key number, if it is one.
    pub fn as_pk(&self) -> (r: Option<u64>)
        ensures
            r == spec_cell_pk(self@),
    {
        match self {
            DbValue::Int(x) => if *x >= 0 {
                Some(*x as u64)
            } else {
                None
            },
            DbValue::UInt(x) => Some(*x),
            _ => None,
        }
    }
}

/// The total signed hour count a wire-format time value denotes.
pub open spec fn spec_time_hours(is_negative: bool, days: u32, hours: u8) -> int {
    if is_negative {
        -(days * 24 + hours)
    } else {
        days * 24 + hours
    }
}

impl DBTime {
    /// Builds a time value from the wire fields (sign, days, hours, minutes,
    /// seconds), folding days into the hour count; fails when the hour count
    /// leaves the representable range.
    pub fn from_wire(is_negative: bool, days: u32, hours: u8, minutes: u8, seconds: u8) -> (r:
        Option<DBTime>)
        ensures
            match r {
                Some(t) => t.0 == spec_time_hours(is_negative, days, hours) && t.1 == minutes
                    && t.2 == seconds,
                None => !(i16::MIN <= spec_time_hours(is_negative, days, hours) <= i16::MAX),
            },
    {
        let total: i64 = (days as i64) * 24 + (hours as i64);
        let total: i64 = if is_negative {
            -total
        } else {
            total
        };
        if i16::MIN as i64 <= total && total <= i16::MAX as i64 {
            Some(DBTime(total as i16, minutes, seconds))
        } else {
            None
        }
    }

    /// The wire fields for this value: sign, unsigned hour count, minutes,
    /// seconds.
    pub fn to_wire(&self) -> (r: (bool, u32, u8, u8))
        ensures
            r.0 == (self.0 < 0),
            r.1 == if self.0 < 0 {
                -(self.0 as int)
            } else {
                self.0 as int
            },
            r.2 == self.1,
            r.3 == self.2,
    {
        let h: i32 = self.0 as i32;
        let mag: u32 = if h < 0 {
            (-h) as u32
        } else {
            h as u32
        };
        (self.0 < 0, mag, self.1, self.2)
    }
}

impl DBDate {
    /// Builds a date from the wire fields (year, month, day).
    pub fn from_wire(y: u16, mo: u8, d: u8) -> (r: DBDate)
        ensures
            r == (DBDate(y as i32, mo, d)),
    {
        DBDate(y as i32, mo, d)
    }

    /// The wire fields for this value; the year is clamped to the unsigned
    /// wire range (negative years become 0).
    pub fn to_wire(&self) -> (r: (u16, u8, u8))
        ensures
            r.0 == spec_clamp_year(self.0 as int),
            r.1 == self.1,
            r.2 == self.2,
    {
        (clamp_year(self.0), self.1, self.2)
    }
}

/// A signed year clamped to the unsigned 16-bit wire range.
pub open spec fn spec_clamp_year(y: int) -> u16 {
    if y < 0 {
        0u16
    } else if y > u16::MAX {
        u16::MAX
    } else {
        y as u16
    }
}

fn clamp_year(y: i32) -> (r: u16)
    ensures
        r == spec_clamp_year(y as int),
{
    if y < 0 {
        0
    } else if y > u16::MAX as i32 {
        u16::MAX
    } else {
        y as u16
    }
}

impl DBDateTime {
    /// Builds a date-and-time value from the wire fields.
    pub fn from_wire(y: u16, mo: u8, d: u8, h: u8, mi: u8, s: u8) -> (r: DBDateTime)
        ensures
            r == (DBDateTime(y as i32, mo, d, h, mi, s)),
    {
        DBDateTime(y as i32, mo, d, h, mi, s)
    }

    /// The scalar cell for this value; the year is clamped to the unsigned
    /// wire range (negative years become 0).
    pub fn to_value(&self) -> (r: DbValue)
        ensures
            r@ == DbValueView::DateTime(
                spec_clamp_year(self.0 as int),
                self.1,
                self.2,
                self.3,
                self.4,
                self.5,
            ),
    {
        DbValue::DateTime(clamp_year(self.0), self.1, self.2, self.3, self.4, self.5)
    }
}

} // verus!
