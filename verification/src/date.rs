//! Calendar dates and their ISO text form, the key of the per-day play log.

use vstd::prelude::*;
use crate::decimal::{spec_digit, digit_str};
use vstd::arithmetic::div_mod::{
    lemma_fundamental_div_mod,
    lemma_fundamental_div_mod_converse_div,
    lemma_fundamental_div_mod_converse_mod,
    lemma_mod_breakdown,
};

verus! {

/// A calendar date. Only the fields are modeled; which days exist in which
/// month is left to the source that produces the date.
#[derive(Clone, Copy, Debug, PartialEq, Eq, Structural, Hash)]
pub struct Date {
    pub year: u32,
    pub month: u32,
    pub day: u32,
}

/// Whether `c` is a decimal digit character.
pub open spec fn is_digit(c: char) -> bool {
    c == '0' || c == '1' || c == '2' || c == '3' || c == '4' || c == '5' || c == '6' || c == '7'
        || c == '8' || c == '9'
}

/// The value of a decimal digit character.
pub open spec fn digit_val(c: char) -> nat {
    if c == '0' {
        0
    } else if c == '1' {
        1
    } else if c == '2' {
        2
    } else if c == '3' {
        3
    } else if c == '4' {
        4
    } else if c == '5' {
        5
    } else if c == '6' {
        6
    } else if c == '7' {
        7
    } else if c == '8' {
        8
    } else {
        9
    }
}

/// The year encoded in the first four characters of an ISO date string.
pub open spec fn iso_year(s: Seq<char>) -> nat {
    digit_val(s[0]) * 1000 + digit_val(s[1]) * 100 + digit_val(s[2]) * 10 + digit_val(s[3])
}

/// The month encoded in an ISO date string.
pub open spec fn iso_month(s: Seq<char>) -> nat {
    digit_val(s[5]) * 10 + digit_val(s[6])
}

/// The day encoded in an ISO date string.
pub open spec fn iso_day(s: Seq<char>) -> nat {
    digit_val(s[8]) * 10 + digit_val(s[9])
}

/// Whether `s` is a well-formed `YYYY-MM-DD` string whose fields lie in the
/// ranges that [`Date::wf`] admits.
pub open spec fn is_iso_date(s: Seq<char>) -> bool {
    &&& s.len() == 10
    &&& is_digit(s[0]) && is_digit(s[1]) && is_digit(s[2]) && is_digit(s[3])
    &&& s[4] == '-'
    &&& is_digit(s[5]) && is_digit(s[6])
    &&& s[7] == '-'
    &&& is_digit(s[8]) && is_digit(s[9])
    &&& 1 <= iso_year(s) <= 9999
    &&& 1 <= iso_month(s) <= 12
    &&& 1 <= iso_day(s) <= 31
}

impl Date {
    /// A date that can be stored: four-digit year, month and day in calendar
    /// range.
    pub open spec fn wf(self) -> bool {
        &&& 1 <= self.year <= 9999
        &&& 1 <= self.month <= 12
        &&& 1 <= self.day <= 31
    }

    /// The `YYYY-MM-DD` rendering of the date, zero-padded.
    pub open spec fn spec_iso(self) -> Seq<char> {
        seq![
            spec_digit((self.year as nat / 1000) % 10),
            spec_digit((self.year as nat / 100) % 10),
            spec_digit((self.year as nat / 10) % 10),
            spec_digit(self.year as nat % 10),
            '-',
            spec_digit((self.month as nat / 10) % 10),
            spec_digit(self.month as nat % 10),
            '-',
            spec_digit((self.day as nat / 10) % 10),
            spec_digit(self.day as nat % 10),
        ]
    }

    /// Builds a date after checking the ranges that [`Date::wf`] demands;
    /// rejects exactly the field values outside them.
    pub fn new(year: u32, month: u32, day: u32) -> (r: Option<Date>)
        ensures
            r matches Some(d) ==> d == (Date { year, month, day }) && d.wf(),
            r is None <==> !(Date { year, month, day }).wf(),
    {
        if 1 <= year && year <= 9999 && 1 <= month && month <= 12 && 1 <= day && day <= 31 {
            Some(Date { year, month, day })
        } else {
            None
        }
    }

    /// Renders the date as `YYYY-MM-DD`.
    pub fn to_iso(&self) -> (r: String)
        ensures
            r@ == self.spec_iso(),
    {
        proof {
            reveal_strlit("-");
        }
        let mut s = String::new();
        s.append(digit_str(((self.year / 1000) % 10) as u64));
        s.append(digit_str(((self.year / 100) % 10) as u64));
        s.append(digit_str(((self.year / 10) % 10) as u64));
        s.append(digit_str((self.year % 10) as u64));
        s.append("-");
        s.append(digit_str(((self.month / 10) % 10) as u64));
        s.append(digit_str((self.month % 10) as u64));
        s.append("-");
        s.append(digit_str(((self.day / 10) % 10) as u64));
        s.append(digit_str((self.day % 10) as u64));
        proof {
            assert(s@ =~= self.spec_iso());
        }
        s
    }

    /// Reads a `YYYY-MM-DD` string back into a date. Succeeds exactly on the
    /// strings that [`is_iso_date`] admits, and on success returns the date
    /// the string renders.
    pub fn parse_iso(s: &str) -> (r: Option<Date>)
        ensures
            r matches Some(d) ==> d.wf() && d.spec_iso() == s@ && is_iso_date(s@),
            r is None <==> !is_iso_date(s@),
    {
        if s.unicode_len() != 10 {
            return None;
        }
        let d4 = s.get_char(4);
        let d7 = s.get_char(7);
        if d4 != '-' || d7 != '-' {
            return None;
        }
        let v0 = match digit_of(s.get_char(0)) {
            Some(v) => v,
            None => { return None; },
        };
        let v1 = match digit_of(s.get_char(1)) {
            Some(v) => v,
            None => { return None; },
        };
        let v2 = match digit_of(s.get_char(2)) {
            Some(v) => v,
            None => { return None; },
        };
        let v3 = match digit_of(s.get_char(3)) {
            Some(v) => v,
            None => { return None; },
        };
        let v5 = match digit_of(s.get_char(5)) {
            Some(v) => v,
            None => { return None; },
        };
        let v6 = match digit_of(s.get_char(6)) {
            Some(v) => v,
            None => { return None; },
        };
        let v8 = match digit_of(s.get_char(8)) {
            Some(v) => v,
            None => { return None; },
        };
        let v9 = match digit_of(s.get_char(9)) {
            Some(v) => v,
            None => { return None; },
        };
        let year: u32 = v0 * 1000 + v1 * 100 + v2 * 10 + v3;
        let month: u32 = v5 * 10 + v6;
        let day: u32 = v8 * 10 + v9;
        proof {
            assert(year as nat == iso_year(s@));
            assert(month as nat == iso_month(s@));
            assert(day as nat == iso_day(s@));
        }
        if year < 1 || month < 1 || month > 12 || day < 1 || day > 31 {
            return None;
        }
        let d = Date { year, month, day };
        proof {
            lemma_digits_of_value(year as nat, v0 as nat, v1 as nat, v2 as nat, v3 as nat);
            lemma_two_digits_of_value(month as nat, v5 as nat, v6 as nat);
            lemma_two_digits_of_value(day as nat, v8 as nat, v9 as nat);
            assert(d.spec_iso() =~= s@);
        }
        Some(d)
    }
}

/// Lexicographic order on `(year, month, day)`: the order of the calendar.
pub open spec fn spec_date_le(a: Date, b: Date) -> bool {
    if a.year != b.year {
        a.year < b.year
    } else if a.month != b.month {
        a.month < b.month
    } else {
        a.day <= b.day
    }
}

/// Compares two dates in calendar order.
pub fn date_le(a: &Date, b: &Date) -> (r: bool)
    ensures
        r == spec_date_le(*a, *b),
{
    if a.year != b.year {
        a.year < b.year
    } else if a.month != b.month {
        a.month < b.month
    } else {
        a.day <= b.day
    }
}

/// The digit value of `c`, or `None` when `c` is not a decimal digit.
fn digit_of(c: char) -> (r: Option<u32>)
    ensures
        r matches Some(v) ==> is_digit(c) && v as nat == digit_val(c) && v < 10
            && spec_digit(v as nat) == c,
        r is None <==> !is_digit(c),
{
    match c {
        '0' => Some(0),
        '1' => Some(1),
        '2' => Some(2),
        '3' => Some(3),
        '4' => Some(4),
        '5' => Some(5),
        '6' => Some(6),
        '7' => Some(7),
        '8' => Some(8),
        '9' => Some(9),
        _ => None,
    }
}

/// A four-digit value is rebuilt from its decimal digits: each digit of
/// `y == v0 v1 v2 v3` read back by division and remainder is the digit that
/// was written.
proof fn lemma_digits_of_value(y: nat, v0: nat, v1: nat, v2: nat, v3: nat)
    requires
        v0 < 10,
        v1 < 10,
        v2 < 10,
        v3 < 10,
        y == v0 * 1000 + v1 * 100 + v2 * 10 + v3,
    ensures
        (y / 1000) % 10 == v0,
        (y / 100) % 10 == v1,
        (y / 10) % 10 == v2,
        y % 10 == v3,
{
    lemma_fundamental_div_mod_converse_div(y as int, 1000, v0 as int, (v1 * 100 + v2 * 10 + v3) as int);
    lemma_fundamental_div_mod_converse_div(y as int, 100, (v0 * 10 + v1) as int, (v2 * 10 + v3) as int);
    lemma_fundamental_div_mod_converse_div(y as int, 10, (v0 * 100 + v1 * 10 + v2) as int, v3 as int);
    lemma_fundamental_div_mod_converse_mod(y as int, 10, (v0 * 100 + v1 * 10 + v2) as int, v3 as int);
    lemma_fundamental_div_mod_converse_mod((y / 1000) as int, 10, 0, v0 as int);
    lemma_fundamental_div_mod_converse_mod((y / 100) as int, 10, v0 as int, v1 as int);
    lemma_fundamental_div_mod_converse_mod((y / 10) as int, 10, (v0 * 10 + v1) as int, v2 as int);
}

/// A two-digit value is rebuilt from its decimal digits.
proof fn lemma_two_digits_of_value(m: nat, hi: nat, lo: nat)
    requires
        hi < 10,
        lo < 10,
        m == hi * 10 + lo,
    ensures
        (m / 10) % 10 == hi,
        m % 10 == lo,
{
    lemma_fundamental_div_mod_converse_div(m as int, 10, hi as int, lo as int);
    lemma_fundamental_div_mod_converse_mod(m as int, 10, hi as int, lo as int);
    lemma_fundamental_div_mod_converse_mod((m / 10) as int, 10, 0, hi as int);
}

/// Every digit character that the renderer writes is a digit, and reading the
/// rendered string back yields the date that was rendered. Together with the
/// contract of [`Date::parse_iso`] this makes the ISO text a faithful key:
/// rendering and parsing round-trip, and two well-formed dates with the same
/// rendering are the same date.
pub proof fn lemma_iso_decode(d: Date)
    requires
        d.wf(),
    ensures
        is_iso_date(d.spec_iso()),
        iso_year(d.spec_iso()) == d.year,
        iso_month(d.spec_iso()) == d.month,
        iso_day(d.spec_iso()) == d.day,
{
    let s = d.spec_iso();
    let y = d.year as nat;
    let m = d.month as nat;
    let dd = d.day as nat;
    lemma_digit_val_of_digit((y / 1000) % 10);
    lemma_digit_val_of_digit((y / 100) % 10);
    lemma_digit_val_of_digit((y / 10) % 10);
    lemma_digit_val_of_digit(y % 10);
    lemma_digit_val_of_digit((m / 10) % 10);
    lemma_digit_val_of_digit(m % 10);
    lemma_digit_val_of_digit((dd / 10) % 10);
    lemma_digit_val_of_digit(dd % 10);
    lemma_decimal_recompose_four(y);
    lemma_decimal_recompose_two(m);
    lemma_decimal_recompose_two(dd);
}

/// The ISO text is a faithful key: two well-formed dates with the same
/// rendering are the same date.
pub proof fn lemma_iso_injective(d1: Date, d2: Date)
    requires
        d1.wf(),
        d2.wf(),
        d1.spec_iso() == d2.spec_iso(),
    ensures
        d1 == d2,
{
    lemma_iso_decode(d1);
    lemma_iso_decode(d2);
}

/// Rendering then reading one digit is the identity on values below ten.
proof fn lemma_digit_val_of_digit(v: nat)
    requires
        v < 10,
    ensures
        is_digit(spec_digit(v)),
        digit_val(spec_digit(v)) == v,
{
}

/// A value below 10000 equals the weighted sum of its four decimal digits.
proof fn lemma_decimal_recompose_four(y: nat)
    requires
        y < 10000,
    ensures
        ((y / 1000) % 10) * 1000 + ((y / 100) % 10) * 100 + ((y / 10) % 10) * 10 + y % 10 == y,
{
    lemma_fundamental_div_mod(y as int, 1000);
    lemma_mod_breakdown(y as int, 100, 10);
    lemma_mod_breakdown(y as int, 10, 10);
    assert(y / 1000 < 10) by {
        lemma_fundamental_div_mod_converse_div(y as int, 1000, (y / 1000) as int, (y % 1000) as int);
    };
    lemma_fundamental_div_mod_converse_mod((y / 1000) as int, 10, 0, (y / 1000) as int);
    assert(y as int == 1000 * ((y / 1000) as int) + (y % 1000) as int);
    assert((y % 1000) as int == 100 * (((y / 100) % 10) as int) + (y % 100) as int);
    assert((y % 100) as int == 10 * (((y / 10) % 10) as int) + (y % 10) as int);
}

/// A value below 100 equals the weighted sum of its two decimal digits.
proof fn lemma_decimal_recompose_two(m: nat)
    requires
        m < 100,
    ensures
        ((m / 10) % 10) * 10 + m % 10 == m,
{
    lemma_fundamental_div_mod(m as int, 10);
    assert(m / 10 < 10);
    lemma_fundamental_div_mod_converse_mod((m / 10) as int, 10, 0, (m / 10) as int);
}

} // verus!
