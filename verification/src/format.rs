//! Writing a duration: hours without limit, then minutes and seconds in two
//! digits each, with a single sign in front of a negative span.

use vstd::prelude::*;
use vstd::string::StringExecFns;
use crate::duration::Duration;

verus! {

/// The character that writes a digit from 0 to 9.
pub open spec fn digit_char(digit: int) -> char {
    if digit == 0 {
        '0'
    } else if digit == 1 {
        '1'
    } else if digit == 2 {
        '2'
    } else if digit == 3 {
        '3'
    } else if digit == 4 {
        '4'
    } else if digit == 5 {
        '5'
    } else if digit == 6 {
        '6'
    } else if digit == 7 {
        '7'
    } else if digit == 8 {
        '8'
    } else {
        '9'
    }
}

/// A natural number in decimal, without leading zeros.
pub open spec fn decimal_text(n: nat) -> Seq<char>
    decreases n,
{
    if n < 10 {
        seq![digit_char(n as int)]
    } else {
        decimal_text(n / 10).push(digit_char((n % 10) as int))
    }
}

/// A number below 100 in two decimal digits.
pub open spec fn two_digits(n: nat) -> Seq<char> {
    seq![digit_char((n / 10) as int), digit_char((n % 10) as int)]
}

/// What stands between two parts of a rendering.
pub open spec fn separator(compact: bool) -> Seq<char> {
    if compact {
        seq![]
    } else {
        seq![' ']
    }
}

/// The rendering of a span of `seconds` seconds: `-` where the span is
/// negative, then the whole hours of its magnitude and `h`, the minutes left
/// over in two digits and `m`, the seconds left over in two digits and `s`.
/// The three parts are separated by one space each, or by nothing where
/// `compact` is set.
pub open spec fn rendered(seconds: int, compact: bool) -> Seq<char> {
    let magnitude: nat = if seconds < 0 {
        (-seconds) as nat
    } else {
        seconds as nat
    };
    let sign: Seq<char> = if seconds < 0 {
        seq!['-']
    } else {
        seq![]
    };
    sign + decimal_text(magnitude / 3600) + seq!['h'] + separator(compact) + two_digits(
        (magnitude % 3600) / 60,
    ) + seq!['m'] + separator(compact) + two_digits(magnitude % 60) + seq!['s']
}

/// The one-character string of a digit.
fn digit_text(digit: u64) -> (text: &'static str)
    requires
        digit < 10,
    ensures
        text@ == seq![digit_char(digit as int)],
{
    proof {
        reveal_strlit("0");
        reveal_strlit("1");
        reveal_strlit("2");
        reveal_strlit("3");
        reveal_strlit("4");
        reveal_strlit("5");
        reveal_strlit("6");
        reveal_strlit("7");
        reveal_strlit("8");
        reveal_strlit("9");
    }
    let text = if digit == 0 {
        "0"
    } else if digit == 1 {
        "1"
    } else if digit == 2 {
        "2"
    } else if digit == 3 {
        "3"
    } else if digit == 4 {
        "4"
    } else if digit == 5 {
        "5"
    } else if digit == 6 {
        "6"
    } else if digit == 7 {
        "7"
    } else if digit == 8 {
        "8"
    } else {
        "9"
    };
    assert(text@ =~= seq![digit_char(digit as int)]);
    text
}

/// Appends `n` in decimal.
fn push_decimal(text: &mut String, n: u64)
    ensures
        final(text)@ == old(text)@ + decimal_text(n as nat),
    decreases n,
{
    if n >= 10 {
        push_decimal(text, n / 10);
    }
    text.append(digit_text(n % 10));
    assert(text@ =~= old(text)@ + decimal_text(n as nat));
}

/// Appends `n` in two decimal digits.
fn push_two_digits(text: &mut String, n: u64)
    requires
        n < 100,
    ensures
        final(text)@ == old(text)@ + two_digits(n as nat),
{
    text.append(digit_text(n / 10));
    text.append(digit_text(n % 10));
    assert(text@ =~= old(text)@ + two_digits(n as nat));
}

/// A duration together with the layout to write it in: `true` for the
/// compact layout, without spaces.
pub struct DisplayableDuration(pub Duration, pub bool);

impl DisplayableDuration {
    /// The duration in writing, such as `92h 10m 15s`, `-8763h 40m 00s` or,
    /// in the compact layout, `1h30m00s`.
    pub fn to_string(&self) -> (text: String)
        ensures
            text@ == rendered(self.0@, self.1),
    {
        let seconds = self.0.num_seconds();
        let magnitude: u64 = if seconds < 0 {
            (-seconds) as u64
        } else {
            seconds as u64
        };
        proof {
            reveal_strlit("-");
            reveal_strlit("h");
            reveal_strlit("m");
            reveal_strlit("s");
            reveal_strlit(" ");
            reveal_strlit("");
        }
        let gap = if self.1 {
            ""
        } else {
            " "
        };
        assert(gap@ =~= separator(self.1));
        let mut text = String::new();
        if seconds < 0 {
            text.append("-");
        }
        push_decimal(&mut text, magnitude / 3600);
        text.append("h");
        text.append(gap);
        push_two_digits(&mut text, (magnitude % 3600) / 60);
        text.append("m");
        text.append(gap);
        push_two_digits(&mut text, magnitude % 60);
        text.append("s");
        assert(text@ =~= rendered(self.0@, self.1));
        text
    }
}

} // verus!
