//! Numbers and durations written out for people.

use crate::stats::{trunc_div, ResponseTimes};
use vstd::prelude::*;

verus! {

/// The decimal digit for `d`, which is below ten.
pub open spec fn digit_char(d: nat) -> char {
    if d == 0 {
        '0'
    } else if d == 1 {
        '1'
    } else if d == 2 {
        '2'
    } else if d == 3 {
        '3'
    } else if d == 4 {
        '4'
    } else if d == 5 {
        '5'
    } else if d == 6 {
        '6'
    } else if d == 7 {
        '7'
    } else if d == 8 {
        '8'
    } else {
        '9'
    }
}

/// `n` in decimal, without leading zeros.
pub open spec fn decimal_text(n: nat) -> Seq<char>
    decreases n,
{
    if n < 10 {
        seq![digit_char(n)]
    } else {
        decimal_text(n / 10).push(digit_char(n % 10))
    }
}

/// `n` in decimal, with a minus sign where it is negative.
pub open spec fn signed_text(n: int) -> Seq<char> {
    if n < 0 {
        "-"@ + decimal_text((-n) as nat)
    } else {
        decimal_text(n as nat)
    }
}

/// A duration of `d` seconds in the largest unit that reads well: whole
/// days beyond 48 hours, whole hours beyond one, "1 hour" for one, and
/// whole minutes otherwise.
pub open spec fn period_text(d: int) -> Seq<char> {
    let hours = trunc_div(d, 3600);
    if hours > 48 {
        decimal_text((hours / 24) as nat) + " days"@
    } else if hours > 1 {
        decimal_text(hours as nat) + " hours"@
    } else if hours == 1 {
        decimal_text(1) + " hour"@
    } else {
        signed_text(trunc_div(d, 60)) + " minutes"@
    }
}

fn digit(d: u64) -> (r: &'static str)
    requires
        d < 10,
    ensures
        r@ == seq![digit_char(d as nat)],
{
    proof {
        reveal_strlit("0");
        reveal_strlit("1");
        reveal_strlit("2");
        reveal_strlit("3");
        reveal_strlit("4");
        reveal_strlit("5");
        reveal_strlit("6");
        reveal_strlit("7");
        reveal_strlit("8");
        reveal_strlit("9");
    }
    if d == 0 {
        "0"
    } else if d == 1 {
        "1"
    } else if d == 2 {
        "2"
    } else if d == 3 {
        "3"
    } else if d == 4 {
        "4"
    } else if d == 5 {
        "5"
    } else if d == 6 {
        "6"
    } else if d == 7 {
        "7"
    } else if d == 8 {
        "8"
    } else {
        "9"
    }
}

/// `n` in decimal.
pub fn decimal(n: u64) -> (r: String)
    ensures
        r@ == decimal_text(n as nat),
    decreases n,
{
    if n < 10 {
        String::from_str(digit(n))
    } else {
        let mut s = decimal(n / 10);
        s.append(digit(n % 10));
        s
    }
}

/// `n` in decimal, with a minus sign where it is negative.
fn signed_decimal(n: i64) -> (r: String)
    ensures
        r@ == signed_text(n as int),
{
    if n < 0 {
        let mut s = String::from_str("-");
        let m = (-(n as i128)) as u64;
        s.append(decimal(m).as_str());
        s
    } else {
        decimal(n as u64)
    }
}

impl ResponseTimes {
    /// The median time, for people.
    pub fn median_time(&self) -> (r: String)
        ensures
            r@ == period_text(self.median as int),
    {
        ResponseTimes::period(self.median)
    }

    /// The mean time, for people.
    pub fn average_time(&self) -> (r: String)
        ensures
            r@ == period_text(self.mean as int),
    {
        ResponseTimes::period(self.mean)
    }

    /// A duration of `d` seconds, for people.
    pub fn period(d: i64) -> (r: String)
        ensures
            r@ == period_text(d as int),
    {
        if d >= 0 {
            let hours = d / 3600;
            if hours > 48 {
                let mut s = decimal((hours / 24) as u64);
                s.append(" days");
                s
            } else if hours > 1 {
                let mut s = decimal(hours as u64);
                s.append(" hours");
                s
            } else if hours == 1 {
                let mut s = decimal(1);
                s.append(" hour");
                s
            } else {
                let mut s = signed_decimal(d / 60);
                s.append(" minutes");
                s
            }
        } else {
            let minutes = (-((-(d as i128)) / 60)) as i64;
            let mut s = signed_decimal(minutes);
            s.append(" minutes");
            s
        }
    }
}

} // verus!
