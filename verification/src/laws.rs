//! What holds of reading and writing durations, for every line and every
//! duration.

use vstd::prelude::*;
use crate::duration::{
    MAX_SECONDS, MIN_SECONDS, representable, saturated_difference, saturated_sum,
};
use crate::format::{decimal_text, digit_char, rendered, separator, two_digits};
use crate::grammar::{
    combined, comment_start, decimal, digit_value, digits_end, groups_from, is_blank,
    is_digit, is_sign, is_space, is_unit, lemma_comment_start_bounds, lemma_comment_start_is,
    lemma_digits_end_bounds, lemma_parsed_seconds_range, lemma_spaces_end_bounds,
    lemma_spaces_end_is, lemma_term_at_advances, lemma_term_at_is, lemma_term_seconds,
    lemma_terms_from_advances, parsed_seconds, spaces_end, term_at, term_seconds, terms_from,
    token_seconds, with_sign, without_comment,
};

verus! {

/// A digit's character is a digit and counts for that digit.
proof fn lemma_digit_char(digit: int)
    requires
        0 <= digit <= 9,
    ensures
        is_digit(digit_char(digit)),
        digit_value(digit_char(digit)) == digit,
        !is_space(digit_char(digit)),
        !is_sign(digit_char(digit)),
        digit_char(digit) != '#',
{
}

/// A number in decimal is made of digits only, and they write that number.
pub proof fn lemma_decimal_text(n: nat)
    ensures
        decimal_text(n).len() > 0,
        forall|k: int| 0 <= k < decimal_text(n).len() ==> is_digit(#[trigger] decimal_text(n)[k]),
        decimal(decimal_text(n)) == n,
    decreases n,
{
    lemma_digit_char((n % 10) as int);
    let text = decimal_text(n);
    assert(text.last() == digit_char((n % 10) as int));
    if n < 10 {
        assert(text.drop_last() =~= Seq::<char>::empty());
        assert(decimal(text.drop_last()) == 0);
    } else {
        lemma_decimal_text(n / 10);
        assert(text.drop_last() =~= decimal_text(n / 10));
    }
}

/// Two digits are digits, and they write the number they were made from.
proof fn lemma_two_digits(n: nat)
    requires
        n < 100,
    ensures
        two_digits(n).len() == 2,
        forall|k: int| 0 <= k < 2 ==> is_digit(#[trigger] two_digits(n)[k]),
        decimal(two_digits(n)) == n,
{
    lemma_digit_char((n / 10) as int);
    lemma_digit_char((n % 10) as int);
    let text = two_digits(n);
    assert(text.drop_last() =~= seq![digit_char((n / 10) as int)]);
    assert(text.drop_last().drop_last() =~= Seq::<char>::empty());
    assert(decimal(text.drop_last()) == n / 10) by {
        assert(decimal(text.drop_last().drop_last()) == 0);
    }
}

/// Adding a positive span to the longest span leaves the longest span, and
/// taking a positive span from the longest span backwards leaves that one.
pub proof fn lemma_saturation_at_the_limits(positive: int)
    requires
        0 < positive <= MAX_SECONDS,
    ensures
        saturated_sum(MAX_SECONDS as int, positive) == MAX_SECONDS,
        saturated_difference(MIN_SECONDS as int, positive) == MIN_SECONDS,
{
}

/// A count followed at once by a unit letter is a line of its own, worth
/// what the table of units gives for that count and that letter.
pub proof fn lemma_single_term(count: nat, unit: char)
    requires
        is_unit(unit),
    ensures
        parsed_seconds(decimal_text(count).push(unit)) == token_seconds(count as int, seq![unit]),
        token_seconds(count as int, seq![unit]) is Some,
{
    lemma_term_seconds(count as int, unit);
    let digits = decimal_text(count);
    let input = digits.push(unit);
    lemma_decimal_text(count);
    assert(is_digit(input[0])) by {
        assert(input[0] == digits[0]);
    }
    assert forall|k: int| 0 <= k < input.len() implies #[trigger] input[k] != '#' by {
        if k < digits.len() {
            assert(input[k] == digits[k]);
        }
    }
    lemma_comment_start_is(input, 0, input.len() as int);
    assert(without_comment(input) =~= input);
    lemma_spaces_end_is(input, 0, 0);
    let line = with_sign(input);
    assert(line =~= seq!['+'] + input);
    lemma_spaces_end_is(line, 0, 0);
    lemma_spaces_end_is(line, 1, 1);
    assert(line.subrange(1, line.len() as int) =~= digits.push(unit) + Seq::<char>::empty());
    lemma_term_at_is(line, 1, digits, unit, Seq::<char>::empty());
}

/// A line of white space is worth nothing, and so is one that holds nothing
/// but white space before a comment.
pub proof fn lemma_blank_is_nothing(blank: Seq<char>, comment: Seq<char>)
    requires
        forall|k: int| 0 <= k < blank.len() ==> is_space(#[trigger] blank[k]),
    ensures
        parsed_seconds(blank) == Some(0int),
        parsed_seconds(blank + seq!['#'] + comment) == Some(0int),
{
    lemma_comment_start_is(blank, 0, blank.len() as int);
    assert(without_comment(blank) =~= blank);
    lemma_spaces_end_is(blank, 0, blank.len() as int);
    lemma_comment_is_ignored(blank, comment);
}

/// What follows a `#` does not count: a line with a comment is worth what the
/// line before the comment is worth.
pub proof fn lemma_comment_is_ignored(line: Seq<char>, comment: Seq<char>)
    requires
        forall|k: int| 0 <= k < line.len() ==> #[trigger] line[k] != '#',
    ensures
        parsed_seconds(line + seq!['#'] + comment) == parsed_seconds(line),
{
    let commented = line + seq!['#'] + comment;
    assert forall|k: int| 0 <= k < line.len() implies #[trigger] commented[k] != '#' by {
        assert(commented[k] == line[k]);
    }
    assert(commented[line.len() as int] == '#');
    lemma_comment_start_is(commented, 0, line.len() as int);
    lemma_comment_start_is(line, 0, line.len() as int);
    assert(without_comment(commented) =~= line);
    assert(without_comment(line) =~= line);
}

/// A line that starts with no sign is worth what it is worth with `+` in
/// front of it, unless it is blank but for a comment.
pub proof fn lemma_plus_may_be_written(line: Seq<char>)
    requires
        line.len() > 0,
        !is_sign(line[0]),
        !is_blank(without_comment(line)),
    ensures
        parsed_seconds(seq!['+'] + line) == parsed_seconds(line),
{
    let signed = seq!['+'] + line;
    let end = comment_start(line, 0);
    lemma_comment_start_bounds(line, 0);
    assert forall|k: int| 0 <= k < end + 1 implies #[trigger] signed[k] != '#' by {
        if k > 0 {
            assert(signed[k] == line[k - 1]);
        }
    }
    assert(end + 1 < signed.len() ==> signed[end + 1] == '#') by {
        if end + 1 < signed.len() {
            assert(signed[end + 1] == line[end]);
        }
    }
    lemma_comment_start_is(signed, 0, end + 1);
    let body = without_comment(line);
    assert(without_comment(signed) =~= seq!['+'] + body);
    lemma_spaces_end_is(without_comment(signed), 0, 0);
    assert(body.len() > 0);
    assert(body[0] == line[0]);
}

/// A sign and three terms in a row, in hours, minutes and seconds, with the
/// same white space after the first and after the second.
#[verifier::opaque]
spec fn three_terms(
    mark: char,
    hours: Seq<char>,
    minutes: Seq<char>,
    secs: Seq<char>,
    gap: Seq<char>,
) -> Seq<char> {
    seq![mark] + (hours.push('h') + gap) + (minutes.push('m') + gap) + secs.push('s')
}

/// The seconds in three counts of hours, minutes and seconds.
spec fn three_terms_seconds(hours: Seq<char>, minutes: Seq<char>, secs: Seq<char>) -> int {
    decimal(hours) as int * 3600 + decimal(minutes) as int * 60 + decimal(secs) as int
}

/// A line of a sign and three terms whose counts add up within the limits is
/// worth their sum, with the sign.
proof fn lemma_three_terms(
    mark: char,
    hours: Seq<char>,
    minutes: Seq<char>,
    secs: Seq<char>,
    gap: Seq<char>,
)
    requires
        is_sign(mark),
        hours.len() > 0,
        minutes.len() > 0,
        secs.len() > 0,
        forall|k: int| 0 <= k < hours.len() ==> is_digit(#[trigger] hours[k]),
        forall|k: int| 0 <= k < minutes.len() ==> is_digit(#[trigger] minutes[k]),
        forall|k: int| 0 <= k < secs.len() ==> is_digit(#[trigger] secs[k]),
        forall|k: int| 0 <= k < gap.len() ==> is_space(#[trigger] gap[k]),
        three_terms_seconds(hours, minutes, secs) <= MAX_SECONDS,
    ensures
        groups_from(three_terms(mark, hours, minutes, secs, gap), 0, 0) == Some(
            if mark == '-' {
                -three_terms_seconds(hours, minutes, secs)
            } else {
                three_terms_seconds(hours, minutes, secs)
            },
        ),
{
    reveal(three_terms);
    let line = three_terms(mark, hours, minutes, secs, gap);
    let none = Seq::<char>::empty();
    let first: int = 1;
    let second: int = first + hours.len() + 1 + gap.len();
    let third: int = second + minutes.len() + 1 + gap.len();
    let end: int = third + secs.len() + 1;
    assert(line.len() == end);
    assert(line[0] == mark);
    assert(line[first] == hours[0]);
    assert(line[second] == minutes[0]);
    assert(line[third] == secs[0]);
    lemma_spaces_end_is(line, 0, 0);
    lemma_spaces_end_is(line, 1, 1);
    assert(term_at(line, first) == Some((term_seconds(decimal(hours) as int, 'h'), second))) by {
        assert(line.subrange(first, second) =~= hours.push('h') + gap);
        lemma_term_at_is(line, first, hours, 'h', gap);
    }
    assert(term_at(line, second) == Some((term_seconds(decimal(minutes) as int, 'm'), third)))
        by {
        assert(line.subrange(second, third) =~= minutes.push('m') + gap);
        lemma_term_at_is(line, second, minutes, 'm', gap);
    }
    assert(term_at(line, third) == Some((term_seconds(decimal(secs) as int, 's'), end))) by {
        assert(line.subrange(third, end) =~= secs.push('s') + none);
        lemma_term_at_is(line, third, secs, 's', none);
    }
    let in_hours: int = decimal(hours) as int * 3600;
    let in_minutes: int = decimal(minutes) as int * 60;
    let in_seconds: int = decimal(secs) as int;
    lemma_term_seconds(decimal(hours) as int, 'h');
    lemma_term_seconds(decimal(minutes) as int, 'm');
    lemma_term_seconds(decimal(secs) as int, 's');
    let sum = in_hours + in_minutes + in_seconds;
    assert(terms_from(line, third, in_hours + in_minutes) == Some((sum, end)));
    assert(terms_from(line, second, in_hours) == Some((sum, end)));
    assert(terms_from(line, first, 0) == Some((sum, end)));
}

/// What is written of a duration is a sign and three terms, but for the `+`
/// that is left out.
proof fn lemma_rendered_is_three_terms(seconds: int, compact: bool)
    ensures
        ({
            let magnitude: nat = if seconds < 0 {
                (-seconds) as nat
            } else {
                seconds as nat
            };
            with_sign(rendered(seconds, compact)) == three_terms(
                if seconds < 0 {
                    '-'
                } else {
                    '+'
                },
                decimal_text(magnitude / 3600),
                two_digits((magnitude % 3600) / 60),
                two_digits(magnitude % 60),
                separator(compact),
            )
        }),
        rendered(seconds, compact).len() > 0,
        !is_space(rendered(seconds, compact)[0]),
        forall|k: int|
            0 <= k < rendered(seconds, compact).len() ==> #[trigger] rendered(seconds, compact)[k]
                != '#',
{
    let magnitude: nat = if seconds < 0 {
        (-seconds) as nat
    } else {
        seconds as nat
    };
    reveal(three_terms);
    let hours = decimal_text(magnitude / 3600);
    let minutes = two_digits((magnitude % 3600) / 60);
    let secs = two_digits(magnitude % 60);
    let gap = separator(compact);
    lemma_decimal_text(magnitude / 3600);
    lemma_two_digits((magnitude % 3600) / 60);
    lemma_two_digits(magnitude % 60);
    let text = rendered(seconds, compact);
    let tail = (hours.push('h') + gap) + (minutes.push('m') + gap) + secs.push('s');
    let second: int = (hours.len() + 1 + gap.len()) as int;
    let third: int = second + 3 + gap.len();
    assert(tail.len() == third + 3);
    assert(tail[0] == hours[0]);
    assert forall|k: int| 0 <= k < tail.len() implies #[trigger] tail[k] != '#' by {
        if k < hours.len() {
            assert(tail[k] == hours[k]);
        } else if second <= k < second + 2 {
            assert(tail[k] == minutes[k - second]);
        } else if third <= k < third + 2 {
            assert(tail[k] == secs[k - third]);
        }
    }
    if seconds < 0 {
        assert(text =~= seq!['-'] + tail);
        assert(text =~= three_terms('-', hours, minutes, secs, gap));
        assert forall|k: int| 0 <= k < text.len() implies #[trigger] text[k] != '#' by {
            if k > 0 {
                assert(text[k] == tail[k - 1]);
            }
        }
    } else {
        assert(text =~= tail);
        assert(seq!['+'] + text =~= three_terms('+', hours, minutes, secs, gap));
    }
}

/// Reading what was written gives the duration back, in either layout.
pub proof fn lemma_round_trip(seconds: int, compact: bool)
    requires
        representable(seconds),
    ensures
        parsed_seconds(rendered(seconds, compact)) == Some(seconds),
{
    let magnitude: nat = if seconds < 0 {
        (-seconds) as nat
    } else {
        seconds as nat
    };
    let hours = decimal_text(magnitude / 3600);
    let minutes = two_digits((magnitude % 3600) / 60);
    let secs = two_digits(magnitude % 60);
    let mark = if seconds < 0 {
        '-'
    } else {
        '+'
    };
    let text = rendered(seconds, compact);
    let line = three_terms(mark, hours, minutes, secs, separator(compact));
    assert(three_terms_seconds(hours, minutes, secs) == magnitude) by {
        lemma_decimal_text(magnitude / 3600);
        lemma_two_digits((magnitude % 3600) / 60);
        lemma_two_digits(magnitude % 60);
    }
    assert(groups_from(line, 0, 0) == Some(seconds)) by {
        lemma_decimal_text(magnitude / 3600);
        lemma_two_digits((magnitude % 3600) / 60);
        lemma_two_digits(magnitude % 60);
        lemma_three_terms(mark, hours, minutes, secs, separator(compact));
    }
    assert(with_sign(text) == line && without_comment(text) == text && !is_blank(text)) by {
        lemma_rendered_is_three_terms(seconds, compact);
        lemma_comment_start_is(text, 0, text.len() as int);
        assert(without_comment(text) =~= text);
        lemma_spaces_end_is(text, 0, 0);
    }
}

/// Writing is stable: where a line can be read, what is written of its worth
/// reads as the same worth, and so is written the same again.
pub proof fn lemma_rendering_is_stable(input: Seq<char>, compact: bool)
    requires
        parsed_seconds(input) is Some,
    ensures
        parsed_seconds(rendered(parsed_seconds(input).unwrap(), compact)) == parsed_seconds(input),
{
    lemma_parsed_seconds_range(input);
    lemma_round_trip(parsed_seconds(input).unwrap(), compact);
}

/// A character that an expression may hold: a sign, a digit, a unit letter
/// or white space.
pub open spec fn is_admitted(c: char) -> bool {
    is_sign(c) || is_digit(c) || is_unit(c) || is_space(c)
}

/// A term holds admitted characters only.
proof fn lemma_term_is_admitted(s: Seq<char>, i: int)
    requires
        term_at(s, i) is Some,
    ensures
        term_at(s, i) matches Some((_, next)) && forall|k: int|
            i <= k < next ==> is_admitted(#[trigger] s[k]),
{
    let count_end = digits_end(s, i);
    let unit = spaces_end(s, count_end);
    lemma_digits_end_bounds(s, i);
    lemma_spaces_end_bounds(s, count_end);
    lemma_spaces_end_bounds(s, unit + 1);
}

/// A run of terms holds admitted characters only.
proof fn lemma_terms_are_admitted(s: Seq<char>, i: int, subtotal: int)
    requires
        terms_from(s, i, subtotal) is Some,
    ensures
        terms_from(s, i, subtotal) matches Some((_, next)) && forall|k: int|
            i <= k < next ==> is_admitted(#[trigger] s[k]),
    decreases s.len() - i,
{
    lemma_term_is_admitted(s, i);
    lemma_term_at_advances(s, i);
    if let Some((seconds, next)) = term_at(s, i) {
        if next < s.len() && is_digit(s[next]) {
            lemma_terms_are_admitted(s, next, saturated_sum(subtotal, seconds));
        }
    }
}

/// A line of groups holds admitted characters only.
proof fn lemma_groups_are_admitted(s: Seq<char>, i: int, total: int)
    requires
        groups_from(s, i, total) is Some,
    ensures
        forall|k: int| i <= k < s.len() ==> is_admitted(#[trigger] s[k]),
    decreases s.len() - i,
{
    let sign = spaces_end(s, i);
    let first = spaces_end(s, sign + 1);
    lemma_spaces_end_bounds(s, i);
    lemma_spaces_end_bounds(s, sign + 1);
    lemma_terms_are_admitted(s, first, 0);
    lemma_terms_from_advances(s, first, 0);
    if let Some((subtotal, next)) = terms_from(s, first, 0) {
        if next != s.len() {
            lemma_groups_are_admitted(s, next, combined(total, s[sign] == '-', subtotal));
        }
    }
}

/// A line that can be read holds, before its comment, nothing but signs,
/// digits, unit letters and white space.
pub proof fn lemma_read_lines_are_admitted(input: Seq<char>)
    requires
        parsed_seconds(input) is Some,
    ensures
        forall|k: int| 0 <= k < comment_start(input, 0) ==> is_admitted(#[trigger] input[k]),
{
    let body = without_comment(input);
    lemma_comment_start_bounds(input, 0);
    assert forall|k: int| 0 <= k < body.len() implies is_admitted(#[trigger] body[k]) by {
        if is_blank(body) {
            lemma_spaces_end_bounds(body, 0);
        } else {
            let line = with_sign(body);
            lemma_groups_are_admitted(line, 0, 0);
            if line == body {
            } else {
                assert(body[k] == line[k + 1]);
            }
        }
    }
    assert forall|k: int| 0 <= k < comment_start(input, 0) implies is_admitted(
        #[trigger] input[k],
    ) by {
        assert(input[k] == body[k]);
    }
}

/// A line that can be read and is not blank ends, before its comment and
/// the white space in front of it, in a unit letter.
pub proof fn lemma_read_lines_end_in_a_unit(input: Seq<char>)
    requires
        parsed_seconds(input) is Some,
        !is_blank(without_comment(input)),
    ensures
        exists|k: int|
            0 <= k < comment_start(input, 0) && is_unit(#[trigger] input[k]) && forall|j: int|
                k < j < comment_start(input, 0) ==> is_space(#[trigger] input[j]),
{
    let body = without_comment(input);
    let line = with_sign(body);
    lemma_comment_start_bounds(input, 0);
    let shift: int = if line == body {
        0
    } else {
        1
    };
    lemma_groups_end_in_a_unit(line, 0, 0);
    let at = choose|k: int|
        0 <= k < line.len() && is_unit(#[trigger] line[k]) && forall|j: int|
            k < j < line.len() ==> is_space(#[trigger] line[j]);
    let k = at - shift;
    assert(line[at] == body[k]);
    assert(body[k] == input[k]);
    assert forall|j: int| k < j < comment_start(input, 0) implies is_space(
        #[trigger] input[j],
    ) by {
        assert(input[j] == body[j]);
        assert(body[j] == line[j + shift]);
    }
}

/// A term ends in a unit letter and the white space after it.
proof fn lemma_term_ends_in_a_unit(s: Seq<char>, i: int)
    requires
        term_at(s, i) is Some,
    ensures
        term_at(s, i) matches Some((_, next)) && exists|k: int|
            i <= k < next && is_unit(#[trigger] s[k]) && forall|j: int|
                k < j < next ==> is_space(#[trigger] s[j]),
{
    let count_end = digits_end(s, i);
    let unit = spaces_end(s, count_end);
    lemma_digits_end_bounds(s, i);
    lemma_spaces_end_bounds(s, count_end);
    lemma_spaces_end_bounds(s, unit + 1);
    assert(is_unit(s[unit]));
}

/// A run of terms ends in a unit letter and the white space after it.
proof fn lemma_terms_end_in_a_unit(s: Seq<char>, i: int, subtotal: int)
    requires
        terms_from(s, i, subtotal) is Some,
    ensures
        terms_from(s, i, subtotal) matches Some((_, next)) && exists|k: int|
            i <= k < next && is_unit(#[trigger] s[k]) && forall|j: int|
                k < j < next ==> is_space(#[trigger] s[j]),
    decreases s.len() - i,
{
    lemma_term_ends_in_a_unit(s, i);
    lemma_term_at_advances(s, i);
    if let Some((seconds, next)) = term_at(s, i) {
        if next < s.len() && is_digit(s[next]) {
            lemma_terms_end_in_a_unit(s, next, saturated_sum(subtotal, seconds));
        }
    }
}

/// A line of groups ends in a unit letter and the white space after it.
proof fn lemma_groups_end_in_a_unit(s: Seq<char>, i: int, total: int)
    requires
        groups_from(s, i, total) is Some,
    ensures
        exists|k: int|
            i <= k < s.len() && is_unit(#[trigger] s[k]) && forall|j: int|
                k < j < s.len() ==> is_space(#[trigger] s[j]),
    decreases s.len() - i,
{
    let sign = spaces_end(s, i);
    let first = spaces_end(s, sign + 1);
    lemma_spaces_end_bounds(s, i);
    lemma_spaces_end_bounds(s, sign + 1);
    lemma_terms_end_in_a_unit(s, first, 0);
    lemma_terms_from_advances(s, first, 0);
    if let Some((subtotal, next)) = terms_from(s, first, 0) {
        if next != s.len() {
            lemma_groups_end_in_a_unit(s, next, combined(total, s[sign] == '-', subtotal));
        }
    }
}

} // verus!
