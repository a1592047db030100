//! Calendar dates as they appear in record lines: `YYYY-MM-DD` tokens.
use vstd::prelude::*;
use vstd::string::*;
use crate::text::is_digit_char;
use crate::text::digit_val;
use crate::text::digit_char;
use crate::text::is_space_char;
use crate::text::char_to_digit;
use crate::text::digit_str;
use crate::toks::wf_token;

verus! {

/// A proleptic Gregorian calendar date with a four-digit year.
#[derive(Clone, Copy, Debug, PartialEq, Eq, Structural)]
pub struct Date {
    pub year: u16,
    pub month: u8,
    pub day: u8,
}

pub open spec fn is_leap_year(y: int) -> bool {
    y % 4 == 0 && (y % 100 != 0 || y % 400 == 0)
}

pub open spec fn days_in_month(y: int, m: int) -> int {
    if m == 2 {
        if is_leap_year(y) {
            29
        } else {
            28
        }
    } else if m == 4 || m == 6 || m == 9 || m == 11 {
        30
    } else {
        31
    }
}

/// A date the record grammar accepts: real month and day, four-digit year.
pub open spec fn date_valid(d: Date) -> bool {
    d.year <= 9999 && 1 <= d.month <= 12 && 1 <= d.day <= days_in_month(
        d.year as int,
        d.month as int,
    )
}

/// Four decimal digits, zero padded.
pub open spec fn pad4(n: int) -> Seq<char> {
    seq![
        digit_char(n / 1000 % 10),
        digit_char(n / 100 % 10),
        digit_char(n / 10 % 10),
        digit_char(n % 10),
    ]
}

/// Two decimal digits, zero padded.
pub open spec fn pad2(n: int) -> Seq<char> {
    seq![digit_char(n / 10 % 10), digit_char(n % 10)]
}

/// The ten-character text form of a date.
pub open spec fn render_date(d: Date) -> Seq<char> {
    pad4(d.year as int) + seq!['-'] + pad2(d.month as int) + seq!['-'] + pad2(d.day as int)
}

/// Whether a token has the shape and calendar validity of a date.
pub open spec fn is_date_token(t: Seq<char>) -> bool {
    &&& t.len() == 10
    &&& is_digit_char(t[0])
    &&& is_digit_char(t[1])
    &&& is_digit_char(t[2])
    &&& is_digit_char(t[3])
    &&& t[4] == '-'
    &&& is_digit_char(t[5])
    &&& is_digit_char(t[6])
    &&& t[7] == '-'
    &&& is_digit_char(t[8])
    &&& is_digit_char(t[9])
    &&& {
        let d = date_of_token(t);
        1 <= d.month <= 12 && 1 <= d.day <= days_in_month(d.year as int, d.month as int)
    }
}

/// The date a well-shaped token denotes.
pub open spec fn date_of_token(t: Seq<char>) -> Date {
    Date {
        year: (digit_val(t[0]) * 1000 + digit_val(t[1]) * 100 + digit_val(t[2]) * 10 + digit_val(
            t[3],
        )) as u16,
        month: (digit_val(t[5]) * 10 + digit_val(t[6])) as u8,
        day: (digit_val(t[8]) * 10 + digit_val(t[9])) as u8,
    }
}

/// Rendering a valid date yields a date token that reads back as the same
/// date.
pub proof fn lemma_render_date_inverse(d: Date)
    requires
        date_valid(d),
    ensures
        is_date_token(render_date(d)),
        date_of_token(render_date(d)) == d,
{
    let t = render_date(d);
    let y = d.year as int;
    let m = d.month as int;
    let dd = d.day as int;
    assert(digit_val(digit_char(y / 1000 % 10)) == y / 1000 % 10);
    assert(digit_val(digit_char(y / 100 % 10)) == y / 100 % 10);
    assert(digit_val(digit_char(y / 10 % 10)) == y / 10 % 10);
    assert(digit_val(digit_char(y % 10)) == y % 10);
    assert(digit_val(digit_char(m / 10 % 10)) == m / 10 % 10);
    assert(digit_val(digit_char(m % 10)) == m % 10);
    assert(digit_val(digit_char(dd / 10 % 10)) == dd / 10 % 10);
    assert(digit_val(digit_char(dd % 10)) == dd % 10);
    assert((y / 1000 % 10) * 1000 + (y / 100 % 10) * 100 + (y / 10 % 10) * 10 + y % 10 == y) by {
        assert(y / 1000 % 10 == y / 1000);
        assert(y == y / 1000 * 1000 + y % 1000) by (nonlinear_arith)
            requires y >= 0;
        assert(y % 1000 == (y % 1000) / 100 * 100 + (y % 1000) % 100) by (nonlinear_arith)
            requires y >= 0;
        assert((y % 1000) / 100 == y / 100 % 10) by (nonlinear_arith)
            requires 0 <= y <= 9999;
        assert((y % 1000) % 100 == y % 100) by (nonlinear_arith)
            requires y >= 0;
        assert(y % 100 == (y % 100) / 10 * 10 + (y % 100) % 10) by (nonlinear_arith)
            requires y >= 0;
        assert((y % 100) / 10 == y / 10 % 10) by (nonlinear_arith)
            requires 0 <= y <= 9999;
        assert((y % 100) % 10 == y % 10) by (nonlinear_arith)
            requires y >= 0;
    }
    assert((m / 10 % 10) * 10 + m % 10 == m) by {
        assert(m / 10 % 10 == m / 10);
        assert(m == m / 10 * 10 + m % 10) by (nonlinear_arith)
            requires m >= 0;
    }
    assert((dd / 10 % 10) * 10 + dd % 10 == dd) by {
        assert(dd / 10 % 10 == dd / 10);
        assert(dd == dd / 10 * 10 + dd % 10) by (nonlinear_arith)
            requires dd >= 0;
    }
    assert(date_of_token(t) == d);
}

/// The text form of a date is one token: ten characters, none of them
/// whitespace, opening with a digit.
pub proof fn lemma_render_date_token_shape(d: Date)
    ensures
        wf_token(render_date(d)),
        render_date(d).len() == 10,
        is_digit_char(render_date(d)[0]),
{
    let t = render_date(d);
    assert(forall|k: int| 0 <= k < t.len() ==> !is_space_char(#[trigger] t[k])) by {
        assert(forall|n: int| !is_space_char(#[trigger] digit_char(n)));
    }
}

/// Reads a token as a date, if it has exactly the date shape and denotes a
/// real calendar day.
pub fn parse_date(tok: &str) -> (r: Option<Date>)
    ensures
        r is Some <==> is_date_token(tok@),
        r is Some ==> r->0 == date_of_token(tok@) && date_valid(r->0),
{
    if tok.unicode_len() != 10 {
        return None;
    }
    let c0 = char_to_digit(tok.get_char(0));
    let c1 = char_to_digit(tok.get_char(1));
    let c2 = char_to_digit(tok.get_char(2));
    let c3 = char_to_digit(tok.get_char(3));
    if tok.get_char(4) != '-' {
        return None;
    }
    let c5 = char_to_digit(tok.get_char(5));
    let c6 = char_to_digit(tok.get_char(6));
    if tok.get_char(7) != '-' {
        return None;
    }
    let c8 = char_to_digit(tok.get_char(8));
    let c9 = char_to_digit(tok.get_char(9));
    match (c0, c1, c2, c3, c5, c6, c8, c9) {
        (
            Some(d0),
            Some(d1),
            Some(d2),
            Some(d3),
            Some(d5),
            Some(d6),
            Some(d8),
            Some(d9),
        ) => {
            let year: u16 = d0 as u16 * 1000 + d1 as u16 * 100 + d2 as u16 * 10 + d3 as u16;
            let month: u8 = d5 * 10 + d6;
            let day: u8 = d8 * 10 + d9;
            if month < 1 || month > 12 {
                return None;
            }
            if day < 1 || day > days_in_month_exec(year, month) {
                return None;
            }
            Some(Date { year, month, day })
        },
        _ => None,
    }
}

pub fn is_leap_year_exec(y: u16) -> (r: bool)
    ensures
        r == is_leap_year(y as int),
{
    y % 4 == 0 && (y % 100 != 0 || y % 400 == 0)
}

pub fn days_in_month_exec(y: u16, m: u8) -> (r: u8)
    ensures
        r == days_in_month(y as int, m as int),
{
    if m == 2 {
        if is_leap_year_exec(y) {
            29
        } else {
            28
        }
    } else if m == 4 || m == 6 || m == 9 || m == 11 {
        30
    } else {
        31
    }
}

/// Renders a date in its ten-character `YYYY-MM-DD` form.
pub fn format_date(d: &Date) -> (r: String)
    ensures
        r@ == render_date(*d),
{
    proof {
        reveal_strlit("-");
    }
    let y = d.year;
    let m = d.month;
    let dd = d.day;
    let mut r = String::new();
    r.append(digit_str(((y / 1000) % 10) as u8));
    r.append(digit_str(((y / 100) % 10) as u8));
    r.append(digit_str(((y / 10) % 10) as u8));
    r.append(digit_str((y % 10) as u8));
    r.append("-");
    r.append(digit_str((m / 10) % 10));
    r.append(digit_str(m % 10));
    r.append("-");
    r.append(digit_str((dd / 10) % 10));
    r.append(digit_str(dd % 10));
    proof {
        assert(r@ =~= render_date(*d));
    }
    r
}

} // verus!
