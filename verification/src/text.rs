//! Fixed one-decimal rendering of plain values for host and UI display:
//! a plain value in millionths becomes its domain-unit reading rounded to
//! one decimal place, followed by the descriptor's unit label.

use vstd::prelude::*;
use vstd::string::StringExecFns;
use crate::curve::{BOUND_LIMIT, ParameterDescriptor};

verus! {

/// The character of one decimal digit.
pub open spec fn spec_digit_char(d: int) -> char {
    if d == 0 {
        '0'
    } else if d == 1 {
        '1'
    } else if d == 2 {
        '2'
    } else if d == 3 {
        '3'
    } else if d == 4 {
        '4'
    } else if d == 5 {
        '5'
    } else if d == 6 {
        '6'
    } else if d == 7 {
        '7'
    } else if d == 8 {
        '8'
    } else {
        '9'
    }
}

/// The decimal digits of a number, most significant first.
pub open spec fn spec_digits(n: nat) -> Seq<char>
    decreases n,
{
    if n < 10 {
        seq![spec_digit_char(n as int)]
    } else {
        spec_digits(n / 10) + seq![spec_digit_char((n % 10) as int)]
    }
}

/// A plain value in millionths, rounded to tenths of a domain unit, half
/// away from zero.
pub open spec fn spec_tenths(p: int) -> int {
    if p >= 0 {
        (p + 50_000) / 100_000
    } else {
        -((-p + 50_000) / 100_000)
    }
}

/// The one-decimal reading of a plain value: sign, whole units, a point,
/// and one digit of tenths.
pub open spec fn spec_decimal_text(p: int) -> Seq<char> {
    let t = spec_tenths(p);
    if t >= 0 {
        spec_digits((t / 10) as nat) + seq!['.'] + seq![spec_digit_char(t % 10)]
    } else {
        seq!['-'] + spec_digits(((-t) / 10) as nat) + seq!['.'] + seq![
            spec_digit_char((-t) % 10),
        ]
    }
}

/// The display text of a plain value under a descriptor: its one-decimal
/// reading, a space, and the unit label.
pub open spec fn spec_display(d: ParameterDescriptor, p: int) -> Seq<char> {
    spec_decimal_text(p) + seq![' '] + d.unit_label@
}

/// The string of one decimal digit.
fn digit_str(d: u64) -> (s: &'static str)
    requires
        d < 10,
    ensures
        s@ == seq![spec_digit_char(d as int)],
{
    proof {
        reveal_strlit("0");
        reveal_strlit("1");
        reveal_strlit("2");
        reveal_strlit("3");
        reveal_strlit("4");
        reveal_strlit("5");
        reveal_strlit("6");
        reveal_strlit("7");
        reveal_strlit("8");
        reveal_strlit("9");
    }
    let s = if d == 0 {
        "0"
    } else if d == 1 {
        "1"
    } else if d == 2 {
        "2"
    } else if d == 3 {
        "3"
    } else if d == 4 {
        "4"
    } else if d == 5 {
        "5"
    } else if d == 6 {
        "6"
    } else if d == 7 {
        "7"
    } else if d == 8 {
        "8"
    } else {
        "9"
    };
    proof {
        assert(s@ =~= seq![spec_digit_char(d as int)]);
    }
    s
}

/// Renders a number's decimal digits.
fn digits_string(n: u64) -> (s: String)
    ensures
        s@ == spec_digits(n as nat),
    decreases n,
{
    if n < 10 {
        String::from_str(digit_str(n))
    } else {
        let mut s = digits_string(n / 10);
        s.append(digit_str(n % 10));
        proof {
            assert(s@ =~= spec_digits(n as nat));
        }
        s
    }
}

/// Renders a plain value rounded to one decimal place.
pub fn format_plain(p: i64) -> (s: String)
    requires
        -BOUND_LIMIT <= p <= BOUND_LIMIT,
    ensures
        s@ == spec_decimal_text(p as int),
{
    proof {
        reveal_strlit("-");
        reveal_strlit(".");
    }
    if p >= 0 {
        let t = ((p as u64) + 50_000) / 100_000;
        let mut s = digits_string(t / 10);
        s.append(".");
        s.append(digit_str(t % 10));
        proof {
            assert(s@ =~= spec_decimal_text(p as int));
        }
        s
    } else {
        let t = (((-p) as u64) + 50_000) / 100_000;
        if t == 0 {
            let mut s = digits_string(0);
            s.append(".");
            s.append(digit_str(0));
            proof {
                assert(s@ =~= spec_decimal_text(p as int));
            }
            s
        } else {
            let mut s = String::from_str("-");
            let whole = digits_string(t / 10);
            s.append(whole.as_str());
            s.append(".");
            s.append(digit_str(t % 10));
            proof {
                assert(s@ =~= spec_decimal_text(p as int));
            }
            s
        }
    }
}

/// Renders a parameter's display text: the plain value to one decimal,
/// then the unit label.
pub fn format_display(d: &ParameterDescriptor, p: i64) -> (s: String)
    requires
        d.wf(),
        -BOUND_LIMIT <= p <= BOUND_LIMIT,
    ensures
        s@ == spec_display(*d, p as int),
{
    proof {
        reveal_strlit(" ");
    }
    let mut s = format_plain(p);
    s.append(" ");
    s.append(d.unit_label.as_str());
    proof {
        assert(s@ =~= spec_display(*d, p as int));
    }
    s
}

} // verus!
