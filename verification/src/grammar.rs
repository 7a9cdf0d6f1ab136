//! The grammar of duration expressions and what an expression is worth, as
//! functions on sequences of characters.
//!
//! A line is one or more groups. A group is a sign, `+` or `-`, followed by
//! one or more terms. A term is a run of decimal digits followed by one of
//! the unit letters `y`, `d`, `h`, `m`, `s`. White space may stand before and
//! after a sign and a unit letter, and between a count and its unit letter.
//!
//! [`in_grammar`] states this character by character. [`groups_from`] reads a
//! line from left to right and adds up what it is worth;
//! [`lemma_grammar_decides`] shows that it reads the lines of the grammar and
//! no others. [`parsed_seconds`] is what a line of input is worth, comment
//! and missing sign included.

use vstd::prelude::*;
use crate::duration::{clamped, representable, saturated_sum};

verus! {

/// White space: the characters with the Unicode property `White_Space`.
pub open spec fn is_space(c: char) -> bool {
    ||| '\u{9}' <= c <= '\u{D}'
    ||| c == ' '
    ||| c == '\u{85}'
    ||| c == '\u{A0}'
    ||| c == '\u{1680}'
    ||| '\u{2000}' <= c <= '\u{200A}'
    ||| c == '\u{2028}'
    ||| c == '\u{2029}'
    ||| c == '\u{202F}'
    ||| c == '\u{205F}'
    ||| c == '\u{3000}'
}

/// A decimal digit, `0` to `9`.
pub open spec fn is_digit(c: char) -> bool {
    '0' <= c <= '9'
}

/// What a decimal digit counts for.
pub open spec fn digit_value(c: char) -> nat {
    (c as int - '0' as int) as nat
}

/// A sign, `+` or `-`.
pub open spec fn is_sign(c: char) -> bool {
    c == '+' || c == '-'
}

/// A unit letter that the grammar admits.
pub open spec fn is_unit(c: char) -> bool {
    c == 'y' || c == 'd' || c == 'h' || c == 'm' || c == 's'
}

/// What `count` units are worth in seconds, by unit code, clamped to the
/// limits: a year is 365 days of 24 hours, and `min` is an older spelling of
/// `m`. Any other code names no unit.
pub open spec fn token_seconds(count: int, code: Seq<char>) -> Option<int> {
    if code == seq!['y'] {
        Some(clamped(count * 31_536_000))
    } else if code == seq!['d'] {
        Some(clamped(count * 86_400))
    } else if code == seq!['h'] {
        Some(clamped(count * 3_600))
    } else if code == seq!['m'] || code == seq!['m', 'i', 'n'] {
        Some(clamped(count * 60))
    } else if code == seq!['s'] {
        Some(clamped(count))
    } else {
        None
    }
}

/// What a term of `count` units is worth in seconds; nothing where the
/// letter names no unit.
pub open spec fn term_seconds(count: int, unit: char) -> int {
    match token_seconds(count, seq![unit]) {
        Some(seconds) => seconds,
        None => 0,
    }
}

/// What a term is worth, unit letter by unit letter.
pub proof fn lemma_term_seconds(count: int, unit: char)
    ensures
        unit == 'y' ==> token_seconds(count, seq![unit]) == Some(clamped(count * 31_536_000)),
        unit == 'd' ==> token_seconds(count, seq![unit]) == Some(clamped(count * 86_400)),
        unit == 'h' ==> token_seconds(count, seq![unit]) == Some(clamped(count * 3_600)),
        unit == 'm' ==> token_seconds(count, seq![unit]) == Some(clamped(count * 60)),
        unit == 's' ==> token_seconds(count, seq![unit]) == Some(clamped(count)),
        !is_unit(unit) ==> token_seconds(count, seq![unit]) is None,
{
    assert(seq![unit][0] == unit);
    assert(seq![unit].len() == 1);
    assert(seq!['m', 'i', 'n'].len() == 3);
    assert(seq!['y'][0] == 'y');
    assert(seq!['d'][0] == 'd');
    assert(seq!['h'][0] == 'h');
    assert(seq!['m'][0] == 'm');
    assert(seq!['s'][0] == 's');
}

/// The first position from `i` on that holds no white space.
pub open spec fn spaces_end(s: Seq<char>, i: int) -> int
    decreases s.len() - i,
{
    if 0 <= i < s.len() && is_space(s[i]) {
        spaces_end(s, i + 1)
    } else {
        i
    }
}

/// The first position from `i` on that holds no digit.
pub open spec fn digits_end(s: Seq<char>, i: int) -> int
    decreases s.len() - i,
{
    if 0 <= i < s.len() && is_digit(s[i]) {
        digits_end(s, i + 1)
    } else {
        i
    }
}

/// The number that a run of decimal digits writes.
pub open spec fn decimal(digits: Seq<char>) -> nat
    decreases digits.len(),
{
    if digits.len() == 0 {
        0
    } else {
        10 * decimal(digits.drop_last()) + digit_value(digits.last())
    }
}

/// Whether the character at `k` may stand where it stands: a digit after a
/// sign; another digit or, with white space in between or not, a unit letter
/// after a digit; a digit, a sign or the end of the line after a unit letter.
/// White space may stand anywhere but between two digits, and nothing else
/// may stand anywhere.
pub open spec fn well_placed(s: Seq<char>, k: int) -> bool {
    let c = s[k];
    let next = spaces_end(s, k + 1);
    if is_sign(c) {
        next < s.len() && is_digit(s[next])
    } else if is_digit(c) {
        (k + 1 < s.len() && is_digit(s[k + 1])) || (next < s.len() && is_unit(s[next]))
    } else if is_unit(c) {
        next == s.len() || is_digit(s[next]) || is_sign(s[next])
    } else {
        is_space(c)
    }
}

/// The grammar of a line: a sign comes first, but for white space, and every
/// character is well placed.
pub open spec fn in_grammar(s: Seq<char>) -> bool {
    &&& spaces_end(s, 0) < s.len()
    &&& is_sign(s[spaces_end(s, 0)])
    &&& forall|k: int| 0 <= k < s.len() ==> well_placed(s, k)
}

/// White space is skipped forwards, and never past the end of the line.
pub proof fn lemma_spaces_end_bounds(s: Seq<char>, i: int)
    ensures
        i <= spaces_end(s, i),
        i <= s.len() ==> spaces_end(s, i) <= s.len(),
        0 <= i && spaces_end(s, i) < s.len() ==> !is_space(s[spaces_end(s, i)]),
        forall|j: int| i <= j < spaces_end(s, i) ==> 0 <= j < s.len() && is_space(#[trigger] s[j]),
    decreases s.len() - i,
{
    if 0 <= i < s.len() && is_space(s[i]) {
        lemma_spaces_end_bounds(s, i + 1);
    }
}

/// Digits are skipped forwards, and never past the end of the line.
pub proof fn lemma_digits_end_bounds(s: Seq<char>, i: int)
    ensures
        i <= digits_end(s, i),
        i <= s.len() ==> digits_end(s, i) <= s.len(),
        0 <= i && digits_end(s, i) < s.len() ==> !is_digit(s[digits_end(s, i)]),
        forall|j: int| i <= j < digits_end(s, i) ==> 0 <= j < s.len() && is_digit(#[trigger] s[j]),
    decreases s.len() - i,
{
    if 0 <= i < s.len() && is_digit(s[i]) {
        lemma_digits_end_bounds(s, i + 1);
    }
}

/// The term that starts at `i`: what it is worth, and the position after it
/// and the white space that follows it. There is none unless a digit stands
/// at `i` and a unit letter follows the digits.
pub open spec fn term_at(s: Seq<char>, i: int) -> Option<(int, int)> {
    let count_end = digits_end(s, i);
    let unit = spaces_end(s, count_end);
    if i < count_end && unit < s.len() && is_unit(s[unit]) {
        let count = decimal(s.subrange(i, count_end));
        Some((term_seconds(count as int, s[unit]), spaces_end(s, unit + 1)))
    } else {
        None
    }
}

/// A term is at least two characters long, lies within the line, and is
/// followed by no white space.
pub proof fn lemma_term_at_advances(s: Seq<char>, i: int)
    requires
        term_at(s, i) is Some,
    ensures
        0 <= i,
        term_at(s, i) matches Some((_, next)) && i + 2 <= next <= s.len() && (next < s.len()
            ==> !is_space(s[next])),
{
    lemma_digits_end_bounds(s, i);
    lemma_spaces_end_bounds(s, digits_end(s, i));
    lemma_spaces_end_bounds(s, spaces_end(s, digits_end(s, i)) + 1);
}

/// The run of terms that starts at `i`, added up on top of `subtotal` with
/// saturation: the sum, and the position after the run.
pub open spec fn terms_from(s: Seq<char>, i: int, subtotal: int) -> Option<(int, int)>
    decreases s.len() - i,
{
    match term_at(s, i) {
        Some((seconds, next)) => {
            let sum = saturated_sum(subtotal, seconds);
            if next < s.len() && is_digit(s[next]) {
                proof {
                    lemma_term_at_advances(s, i);
                }
                terms_from(s, next, sum)
            } else {
                Some((sum, next))
            }
        },
        None => None,
    }
}

/// A run of terms is at least two characters long, lies within the line, and
/// is followed by neither white space nor a digit.
pub proof fn lemma_terms_from_advances(s: Seq<char>, i: int, subtotal: int)
    requires
        terms_from(s, i, subtotal) is Some,
    ensures
        0 <= i,
        terms_from(s, i, subtotal) matches Some((_, next)) && i + 2 <= next <= s.len() && (next
            < s.len() ==> !is_space(s[next]) && !is_digit(s[next])),
    decreases s.len() - i,
{
    lemma_term_at_advances(s, i);
    let (seconds, next) = term_at(s, i)->0;
    if next < s.len() && is_digit(s[next]) {
        lemma_terms_from_advances(s, next, saturated_sum(subtotal, seconds));
    }
}

/// A group's subtotal added to the running total, or taken from it where the
/// group is negative. Where the exact result is outside the limits, the
/// subtotal alone is what remains.
pub open spec fn combined(total: int, negative: bool, subtotal: int) -> int {
    let exact = if negative {
        total - subtotal
    } else {
        total + subtotal
    };
    if representable(exact) {
        exact
    } else {
        subtotal
    }
}

/// The groups from `i` to the end of the line, combined one after the other
/// into `total`. There is no value unless the rest of the line is made of
/// groups and nothing else.
pub open spec fn groups_from(s: Seq<char>, i: int, total: int) -> Option<int>
    decreases s.len() - i,
{
    let sign = spaces_end(s, i);
    if 0 <= i && sign < s.len() && is_sign(s[sign]) {
        match terms_from(s, spaces_end(s, sign + 1), 0) {
            Some((subtotal, next)) => {
                let sum = combined(total, s[sign] == '-', subtotal);
                if next == s.len() {
                    Some(sum)
                } else {
                    proof {
                        lemma_spaces_end_bounds(s, i);
                        lemma_spaces_end_bounds(s, sign + 1);
                        lemma_terms_from_advances(s, spaces_end(s, sign + 1), 0);
                    }
                    groups_from(s, next, sum)
                }
            },
            None => None,
        }
    } else {
        None
    }
}

/// The position of the first `#` from `i` on, or the length where there is none.
pub open spec fn comment_start(s: Seq<char>, i: int) -> int
    decreases s.len() - i,
{
    if 0 <= i < s.len() && s[i] != '#' {
        comment_start(s, i + 1)
    } else {
        i
    }
}

/// The line up to its first `#`.
pub open spec fn without_comment(s: Seq<char>) -> Seq<char> {
    s.subrange(0, comment_start(s, 0))
}

/// Nothing but white space.
pub open spec fn is_blank(s: Seq<char>) -> bool {
    spaces_end(s, 0) == s.len()
}

/// The line with `+` put in front of it, unless it starts with a sign already.
pub open spec fn with_sign(s: Seq<char>) -> Seq<char> {
    if s.len() > 0 && is_sign(s[0]) {
        s
    } else {
        seq!['+'] + s
    }
}

/// What a line is worth in seconds, or `None` where it is no expression.
///
/// What follows the first `#` is a comment and does not count. A line that is
/// blank but for a comment is worth nothing. Any other line is read with `+`
/// in front of it, unless it starts with a sign, and must then be made of
/// groups from its first character to its last.
pub open spec fn parsed_seconds(input: Seq<char>) -> Option<int> {
    let body = without_comment(input);
    if is_blank(body) {
        Some(0)
    } else {
        groups_from(with_sign(body), 0, 0)
    }
}

/// White space from `i` up to `j`, and none at `j`: `j` is where it ends.
pub proof fn lemma_spaces_end_is(s: Seq<char>, i: int, j: int)
    requires
        0 <= i <= j <= s.len(),
        forall|k: int| i <= k < j ==> is_space(#[trigger] s[k]),
        j < s.len() ==> !is_space(s[j]),
    ensures
        spaces_end(s, i) == j,
    decreases j - i,
{
    if i < j {
        lemma_spaces_end_is(s, i + 1, j);
    }
}

/// Digits from `i` up to `j`, and none at `j`: `j` is where they end.
pub proof fn lemma_digits_end_is(s: Seq<char>, i: int, j: int)
    requires
        0 <= i <= j <= s.len(),
        forall|k: int| i <= k < j ==> is_digit(#[trigger] s[k]),
        j < s.len() ==> !is_digit(s[j]),
    ensures
        digits_end(s, i) == j,
    decreases j - i,
{
    if i < j {
        lemma_digits_end_is(s, i + 1, j);
    }
}

/// No `#` from `i` up to `j`, and the end of the line or a `#` at `j`: `j` is
/// where the comment starts.
pub proof fn lemma_comment_start_is(s: Seq<char>, i: int, j: int)
    requires
        0 <= i <= j <= s.len(),
        forall|k: int| i <= k < j ==> #[trigger] s[k] != '#',
        j < s.len() ==> s[j] == '#',
    ensures
        comment_start(s, i) == j,
    decreases j - i,
{
    if i < j {
        lemma_comment_start_is(s, i + 1, j);
    }
}

/// The comment starts within the line, at a `#` or at the end, and no `#`
/// stands before it.
pub proof fn lemma_comment_start_bounds(s: Seq<char>, i: int)
    requires
        0 <= i <= s.len(),
    ensures
        i <= comment_start(s, i) <= s.len(),
        comment_start(s, i) < s.len() ==> s[comment_start(s, i)] == '#',
        forall|k: int| i <= k < comment_start(s, i) ==> #[trigger] s[k] != '#',
    decreases s.len() - i,
{
    if i < s.len() && s[i] != '#' {
        lemma_comment_start_bounds(s, i + 1);
    }
}

/// A term written as digits, a unit letter and white space, with no white
/// space after it, is read whole and is worth what its count says.
pub proof fn lemma_term_at_is(s: Seq<char>, i: int, digits: Seq<char>, unit: char, gap: Seq<char>)
    requires
        0 <= i,
        i + digits.len() + 1 + gap.len() <= s.len(),
        s.subrange(i, i + digits.len() + 1 + gap.len()) == digits.push(unit) + gap,
        digits.len() > 0,
        forall|k: int| 0 <= k < digits.len() ==> is_digit(#[trigger] digits[k]),
        is_unit(unit),
        forall|k: int| 0 <= k < gap.len() ==> is_space(#[trigger] gap[k]),
        i + digits.len() + 1 + gap.len() < s.len() ==> !is_space(
            s[i + digits.len() + 1 + gap.len()],
        ),
    ensures
        term_at(s, i) == Some(
            (term_seconds(decimal(digits) as int, unit), i + digits.len() + 1 + gap.len()),
        ),
{
    let unit_at = i + digits.len();
    let end = unit_at + 1 + gap.len();
    let part = s.subrange(i, end);
    let written = digits.push(unit) + gap;
    assert forall|k: int| i <= k < end implies s[k] == written[k - i] by {
        assert(s[k] == part[k - i]);
    }
    assert forall|k: int| i <= k < unit_at implies is_digit(#[trigger] s[k]) by {
        assert(s[k] == written[k - i]);
        assert(written[k - i] == digits[k - i]);
    }
    assert(s[unit_at] == unit) by {
        assert(s[unit_at] == written[unit_at - i]);
    }
    lemma_digits_end_is(s, i, unit_at);
    lemma_spaces_end_is(s, unit_at, unit_at);
    assert forall|k: int| unit_at + 1 <= k < end implies is_space(#[trigger] s[k]) by {
        assert(s[k] == written[k - i]);
        assert(written[k - i] == gap[k - unit_at - 1]);
    }
    lemma_spaces_end_is(s, unit_at + 1, end);
    assert(s.subrange(i, unit_at) =~= digits);
}

/// What a run of terms adds up to lies between nothing and the upper limit,
/// where it starts so.
pub proof fn lemma_terms_from_range(s: Seq<char>, i: int, subtotal: int)
    requires
        0 <= subtotal <= crate::duration::MAX_SECONDS,
    ensures
        terms_from(s, i, subtotal) matches Some((sum, _)) ==> 0 <= sum
            <= crate::duration::MAX_SECONDS,
    decreases s.len() - i,
{
    if let Some((seconds, next)) = term_at(s, i) {
        lemma_term_at_advances(s, i);
        if next < s.len() && is_digit(s[next]) {
            lemma_terms_from_range(s, next, saturated_sum(subtotal, seconds));
        }
    }
}

/// What a line of groups is worth is representable, where the total so far is.
pub proof fn lemma_groups_from_range(s: Seq<char>, i: int, total: int)
    requires
        representable(total),
    ensures
        groups_from(s, i, total) matches Some(sum) ==> representable(sum),
    decreases s.len() - i,
{
    let sign = spaces_end(s, i);
    if 0 <= i && sign < s.len() && is_sign(s[sign]) {
        let first = spaces_end(s, sign + 1);
        lemma_terms_from_range(s, first, 0);
        if let Some((subtotal, next)) = terms_from(s, first, 0) {
            if next != s.len() {
                lemma_spaces_end_bounds(s, i);
                lemma_spaces_end_bounds(s, sign + 1);
                lemma_terms_from_advances(s, first, 0);
                lemma_groups_from_range(s, next, combined(total, s[sign] == '-', subtotal));
            }
        }
    }
}

/// What a line is worth is representable.
pub proof fn lemma_parsed_seconds_range(input: Seq<char>)
    ensures
        parsed_seconds(input) matches Some(seconds) ==> representable(seconds),
{
    lemma_groups_from_range(with_sign(without_comment(input)), 0, 0);
}

/// In a term that is read, every character but the unit letter is well
/// placed, and the unit letter is followed by the end of the term.
proof fn lemma_term_is_well_placed(s: Seq<char>, i: int)
    requires
        term_at(s, i) is Some,
    ensures
        term_at(s, i) matches Some((_, next)) && exists|unit: int|
            i < unit < next && is_unit(#[trigger] s[unit]) && spaces_end(s, unit + 1) == next
                && forall|k: int| i <= k < next && k != unit ==> well_placed(s, k),
{
    let count_end = digits_end(s, i);
    let unit = spaces_end(s, count_end);
    let next = spaces_end(s, unit + 1);
    lemma_digits_end_bounds(s, i);
    lemma_spaces_end_bounds(s, count_end);
    lemma_spaces_end_bounds(s, unit + 1);
    assert forall|k: int| i <= k < next && k != unit implies well_placed(s, k) by {
        if k < count_end {
            assert(is_digit(s[k]));
            if k + 1 == count_end {
                lemma_spaces_end_is(s, k + 1, unit);
            }
        } else {
            assert(is_space(s[k]));
        }
    }
    assert(is_unit(s[unit]));
}

/// In a run of terms that is read, every character is well placed, where
/// what follows the run is a sign or the end of the line.
proof fn lemma_terms_are_well_placed(s: Seq<char>, i: int, subtotal: int)
    requires
        terms_from(s, i, subtotal) matches Some((_, next)) && (next == s.len() || is_sign(
            s[next],
        )),
    ensures
        terms_from(s, i, subtotal) matches Some((_, next)) && forall|k: int|
            i <= k < next ==> well_placed(s, k),
    decreases s.len() - i,
{
    lemma_term_is_well_placed(s, i);
    lemma_term_at_advances(s, i);
    if let Some((seconds, next)) = term_at(s, i) {
        if next < s.len() && is_digit(s[next]) {
            lemma_terms_are_well_placed(s, next, saturated_sum(subtotal, seconds));
        }
    }
}

/// In a line of groups that is read, every character is well placed.
proof fn lemma_groups_are_well_placed(s: Seq<char>, i: int, total: int)
    requires
        groups_from(s, i, total) is Some,
    ensures
        forall|k: int| i <= k < s.len() ==> well_placed(s, k),
    decreases s.len() - i,
{
    let sign = spaces_end(s, i);
    let first = spaces_end(s, sign + 1);
    lemma_spaces_end_bounds(s, i);
    lemma_spaces_end_bounds(s, sign + 1);
    lemma_terms_from_advances(s, first, 0);
    lemma_term_at_advances(s, first);
    lemma_digits_end_bounds(s, first);
    if let Some((subtotal, next)) = terms_from(s, first, 0) {
        if next != s.len() {
            let sum = combined(total, s[sign] == '-', subtotal);
            lemma_groups_are_well_placed(s, next, sum);
            lemma_spaces_end_bounds(s, next);
            lemma_spaces_end_is(s, next, next);
        }
        lemma_terms_are_well_placed(s, first, 0);
    }
}

/// Where every character is well placed, a run of terms is read from any
/// digit on, up to a sign or the end of the line.
proof fn lemma_terms_are_read(s: Seq<char>, i: int, subtotal: int)
    requires
        0 <= i < s.len(),
        is_digit(s[i]),
        forall|k: int| 0 <= k < s.len() ==> well_placed(s, k),
    ensures
        terms_from(s, i, subtotal) matches Some((_, next)) && (next == s.len() || (next < s.len()
            && is_sign(s[next]))),
    decreases s.len() - i,
{
    let count_end = digits_end(s, i);
    lemma_digits_end_bounds(s, i);
    assert(well_placed(s, count_end - 1));
    let unit = spaces_end(s, count_end);
    lemma_spaces_end_bounds(s, count_end);
    assert(well_placed(s, unit));
    let next = spaces_end(s, unit + 1);
    lemma_spaces_end_bounds(s, unit + 1);
    lemma_term_at_advances(s, i);
    if next < s.len() && is_digit(s[next]) {
        let seconds = term_seconds(decimal(s.subrange(i, count_end)) as int, s[unit]);
        lemma_terms_are_read(s, next, saturated_sum(subtotal, seconds));
    }
}

/// Where every character is well placed, a line of groups is read from any
/// sign on.
proof fn lemma_groups_are_read(s: Seq<char>, i: int, total: int)
    requires
        0 <= i < s.len(),
        is_sign(s[i]),
        forall|k: int| 0 <= k < s.len() ==> well_placed(s, k),
    ensures
        groups_from(s, i, total) is Some,
    decreases s.len() - i,
{
    lemma_spaces_end_is(s, i, i);
    assert(well_placed(s, i));
    let first = spaces_end(s, i + 1);
    lemma_spaces_end_bounds(s, i + 1);
    lemma_terms_are_read(s, first, 0);
    lemma_terms_from_advances(s, first, 0);
    if let Some((subtotal, next)) = terms_from(s, first, 0) {
        if next != s.len() {
            lemma_groups_are_read(s, next, combined(total, s[i] == '-', subtotal));
        }
    }
}

/// The lines of groups that are read are the lines in the grammar.
pub proof fn lemma_grammar_decides(line: Seq<char>, total: int)
    ensures
        groups_from(line, 0, total) is Some <==> in_grammar(line),
{
    lemma_spaces_end_bounds(line, 0);
    if groups_from(line, 0, total) is Some {
        lemma_groups_are_well_placed(line, 0, total);
    }
    if in_grammar(line) {
        let sign = spaces_end(line, 0);
        lemma_groups_are_read(line, sign, total);
        assert(spaces_end(line, sign) == sign) by {
            lemma_spaces_end_is(line, sign, sign);
        }
    }
}

/// The lines that can be read are the blank lines and the lines that, with
/// their sign, are in the grammar; a comment aside.
pub proof fn lemma_read_lines(input: Seq<char>)
    ensures
        parsed_seconds(input) is Some <==> is_blank(without_comment(input)) || in_grammar(
            with_sign(without_comment(input)),
        ),
{
    lemma_grammar_decides(with_sign(without_comment(input)), 0);
}

} // verus!
