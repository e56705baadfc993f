//! Canonical decimal rendering of integers, and the display line for a
//! reduction result.

use vstd::prelude::*;
use vstd::string::*;

use crate::optional::SomethingOrNothing;

verus! {

/// The character for one decimal digit.
pub open spec fn digit_char(d: nat) -> char
    recommends
        d < 10,
{
    if d == 0 {
        '0'
    } else if d == 1 {
        '1'
    } else if d == 2 {
        '2'
    } else if d == 3 {
        '3'
    } else if d == 4 {
        '4'
    } else if d == 5 {
        '5'
    } else if d == 6 {
        '6'
    } else if d == 7 {
        '7'
    } else if d == 8 {
        '8'
    } else {
        '9'
    }
}

/// The canonical decimal rendering of a natural number, most significant
/// digit first, with no leading zeros (a lone `0` for zero).
pub open spec fn dec_rep(n: nat) -> Seq<char>
    decreases n,
{
    if n < 10 {
        seq![digit_char(n)]
    } else {
        dec_rep(n / 10) + seq![digit_char(n % 10)]
    }
}

/// The canonical decimal rendering of a (possibly negative) integer.
pub open spec fn dec_int(v: int) -> Seq<char> {
    if v < 0 {
        seq!['-'] + dec_rep((-v) as nat)
    } else {
        dec_rep(v as nat)
    }
}

/// The one-character string for one decimal digit.
fn digit_str(d: u64) -> (r: &'static str)
    requires
        d < 10,
    ensures
        r@ == seq![digit_char(d as nat)],
{
    let r: &'static str = if d == 0 {
        "0"
    } else if d == 1 {
        "1"
    } else if d == 2 {
        "2"
    } else if d == 3 {
        "3"
    } else if d == 4 {
        "4"
    } else if d == 5 {
        "5"
    } else if d == 6 {
        "6"
    } else if d == 7 {
        "7"
    } else if d == 8 {
        "8"
    } else {
        "9"
    };
    proof {
        reveal_strlit("0");
        reveal_strlit("1");
        reveal_strlit("2");
        reveal_strlit("3");
        reveal_strlit("4");
        reveal_strlit("5");
        reveal_strlit("6");
        reveal_strlit("7");
        reveal_strlit("8");
        reveal_strlit("9");
        assert(r@ =~= seq![digit_char(d as nat)]);
    }
    r
}

/// Renders a natural number in decimal.
pub fn u64_to_decimal(n: u64) -> (r: String)
    ensures
        r@ == dec_rep(n as nat),
    decreases n,
{
    if n < 10 {
        String::from_str(digit_str(n))
    } else {
        let mut s = u64_to_decimal(n / 10);
        s.append(digit_str(n % 10));
        s
    }
}

/// Renders a signed machine integer in decimal.
pub fn render_i32(n: i32) -> (r: String)
    ensures
        r@ == dec_int(n as int),
{
    if n < 0 {
        let m = (-(n as i64)) as u64;
        let mut s = String::from_str("-");
        let d = u64_to_decimal(m);
        s.append(d.as_str());
        proof {
            reveal_strlit("-");
            assert("-"@ =~= seq!['-']);
        }
        s
    } else {
        u64_to_decimal(n as u64)
    }
}

/// The one human-readable line a reduction result displays as.
pub open spec fn display_chars(v: SomethingOrNothing<i32>) -> Seq<char> {
    match v {
        SomethingOrNothing::Nothing => "The number is: <nothing>"@,
        SomethingOrNothing::Something(n) => "The number is: "@ + dec_int(n as int),
    }
}

impl SomethingOrNothing<i32> {
    /// Produces the human-readable line for this result; writing it to an
    /// output stream is a collaborator's job.
    pub fn display(self) -> (r: String)
        ensures
            r@ == display_chars(self),
    {
        match self {
            SomethingOrNothing::Nothing => String::from_str("The number is: <nothing>"),
            SomethingOrNothing::Something(n) => {
                let mut s = String::from_str("The number is: ");
                let d = render_i32(n);
                s.append(d.as_str());
                s
            },
        }
    }
}

} // verus!
