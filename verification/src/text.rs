//! The lines a diner prints: one when a meal begins, one when it is over.

use vstd::prelude::*;
use vstd::string::StringExecFns;
use crate::diner::Notice;

verus! {

/// The character for a decimal digit.
pub open spec fn spec_digit(digit: int) -> char {
    if digit == 0 {
        '0'
    } else if digit == 1 {
        '1'
    } else if digit == 2 {
        '2'
    } else if digit == 3 {
        '3'
    } else if digit == 4 {
        '4'
    } else if digit == 5 {
        '5'
    } else if digit == 6 {
        '6'
    } else if digit == 7 {
        '7'
    } else if digit == 8 {
        '8'
    } else {
        '9'
    }
}

/// A number written in decimal, without leading zeros.
pub open spec fn spec_decimal(number: nat) -> Seq<char>
    decreases number,
{
    if number < 10 {
        seq![spec_digit(number as int)]
    } else {
        spec_decimal(number / 10).push(spec_digit((number % 10) as int))
    }
}

/// The line that the diner at `seat` prints for `notice`.
pub open spec fn spec_line(notice: Notice, seat: nat) -> Seq<char> {
    match notice {
        Notice::Eating => "Philosopher "@ + spec_decimal(seat) + " is eating!"@,
        Notice::Stopped => "Philosopher "@ + spec_decimal(seat) + " Stopped eating!!"@,
    }
}

/// A decimal digit as text.
fn digit_text(digit: usize) -> (text: &'static str)
    requires
        digit < 10,
    ensures
        text@ == seq![spec_digit(digit as int)],
{
    proof {
        reveal_strlit("0");
        reveal_strlit("1");
        reveal_strlit("2");
        reveal_strlit("3");
        reveal_strlit("4");
        reveal_strlit("5");
        reveal_strlit("6");
        reveal_strlit("7");
        reveal_strlit("8");
        reveal_strlit("9");
    }
    let text = if digit == 0 {
        "0"
    } else if digit == 1 {
        "1"
    } else if digit == 2 {
        "2"
    } else if digit == 3 {
        "3"
    } else if digit == 4 {
        "4"
    } else if digit == 5 {
        "5"
    } else if digit == 6 {
        "6"
    } else if digit == 7 {
        "7"
    } else if digit == 8 {
        "8"
    } else {
        "9"
    };
    text
}

/// Writes `number` in decimal at the end of `text`.
fn push_decimal(text: &mut String, number: usize)
    ensures
        final(text)@ == old(text)@ + spec_decimal(number as nat),
    decreases number,
{
    if number >= 10 {
        push_decimal(text, number / 10);
    }
    text.append(digit_text(number % 10));
}

/// `number` written in decimal, without leading zeros.
pub fn decimal(number: usize) -> (text: String)
    ensures
        text@ == spec_decimal(number as nat),
{
    let mut text = String::new();
    push_decimal(&mut text, number);
    text
}

impl Notice {
    /// The line that the diner at `seat` prints for this notice.
    pub fn line(self, seat: usize) -> (line: String)
        ensures
            line@ == spec_line(self, seat as nat),
    {
        let mut line = String::from_str("Philosopher ");
        push_decimal(&mut line, seat);
        match self {
            Notice::Eating => line.append(" is eating!"),
            Notice::Stopped => line.append(" Stopped eating!!"),
        }
        line
    }
}

} // verus!
