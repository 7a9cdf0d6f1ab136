//! Reading a duration expression: the scanner that decides whether a line is
//! in the grammar and adds up what it is worth.

use vstd::prelude::*;
use crate::duration::{Duration, MAX_SECONDS, MIN_SECONDS};
use crate::grammar::{
    comment_start, decimal, digits_end, groups_from, in_grammar, is_blank, is_digit, is_space,
    is_unit, lemma_read_lines, lemma_term_at_advances, lemma_term_seconds,
    lemma_terms_from_advances, parsed_seconds, spaces_end, term_at, terms_from, token_seconds,
    with_sign, without_comment,
};

verus! {

/// Why a line could not be read.
#[derive(Debug, PartialEq, Eq)]
pub enum ParseError {
    /// The line is not in the grammar. Holds the line as it was given.
    InvalidExpression(String),
}

/// The characters of a string slice, in order.
fn chars_of(text: &str) -> (chars: Vec<char>)
    ensures
        chars@ == text@,
{
    let mut chars: Vec<char> = Vec::new();
    for c in iter: text.chars()
        invariant
            iter.seq() == text@,
            chars@ == iter.seq().take(iter.index()),
    {
        chars.push(c);
    }
    chars
}

fn space(c: char) -> (r: bool)
    ensures
        r == is_space(c),
{
    ('\u{9}' <= c && c <= '\u{D}') || c == ' ' || c == '\u{85}' || c == '\u{A0}' || c
        == '\u{1680}' || ('\u{2000}' <= c && c <= '\u{200A}') || c == '\u{2028}' || c
        == '\u{2029}' || c == '\u{202F}' || c == '\u{205F}' || c == '\u{3000}'
}

fn digit(c: char) -> (r: bool)
    ensures
        r == is_digit(c),
{
    '0' <= c && c <= '9'
}

fn unit(c: char) -> (r: bool)
    ensures
        r == is_unit(c),
{
    c == 'y' || c == 'd' || c == 'h' || c == 'm' || c == 's'
}

/// The position of the first character from `start` on that is no white space.
fn skip_spaces(line: &Vec<char>, start: usize) -> (end: usize)
    requires
        start <= line.len(),
    ensures
        end == spaces_end(line@, start as int),
        start <= end <= line.len(),
{
    let mut at: usize = start;
    while at < line.len() && space(line[at])
        invariant
            start <= at <= line.len(),
            spaces_end(line@, start as int) == spaces_end(line@, at as int),
        decreases line.len() - at,
    {
        at = at + 1;
    }
    at
}

/// The position of the first `#`, or the length of the line.
fn find_comment(line: &Vec<char>) -> (end: usize)
    ensures
        end == comment_start(line@, 0),
        end <= line.len(),
{
    let mut at: usize = 0;
    while at < line.len() && line[at] != '#'
        invariant
            at <= line.len(),
            comment_start(line@, 0) == comment_start(line@, at as int),
        decreases line.len() - at,
    {
        at = at + 1;
    }
    at
}

/// The count that starts at `start`, held at the upper limit where it is
/// larger, and the position after its last digit.
fn read_count(line: &Vec<char>, start: usize) -> (r: (i64, usize))
    requires
        start <= line.len(),
    ensures
        r.1 == digits_end(line@, start as int),
        start <= r.1 <= line.len(),
        r.0 == vstd::math::min(
            decimal(line@.subrange(start as int, r.1 as int)) as int,
            MAX_SECONDS as int,
        ),
{
    let mut at: usize = start;
    let mut count: i64 = 0;
    while at < line.len() && digit(line[at])
        invariant
            start <= at <= line.len(),
            digits_end(line@, start as int) == digits_end(line@, at as int),
            count == vstd::math::min(
                decimal(line@.subrange(start as int, at as int)) as int,
                MAX_SECONDS as int,
            ),
        decreases line.len() - at,
    {
        let value: i64 = (line[at] as u32 - '0' as u32) as i64;
        proof {
            let longer = line@.subrange(start as int, at + 1);
            assert(longer.drop_last() =~= line@.subrange(start as int, at as int));
        }
        let next: i64 = count * 10 + value;
        count = if next > MAX_SECONDS { MAX_SECONDS } else { next };
        at = at + 1;
    }
    (count, at)
}

/// The limit on the side of `count`.
fn limit_towards(count: i64) -> (r: Duration)
    ensures
        r@ == if count < 0 { MIN_SECONDS } else { MAX_SECONDS },
{
    if count < 0 {
        Duration::minimum()
    } else {
        Duration::maximum()
    }
}

/// What `count` units are worth, by unit letter.
fn unit_term(count: i64, unit: char) -> (r: Option<Duration>)
    ensures
        match token_seconds(count as int, seq![unit]) {
            Some(seconds) => r matches Some(d) && d@ == seconds,
            None => r is None,
        },
{
    proof {
        lemma_term_seconds(count as int, unit);
    }
    if unit == 'y' {
        match count.checked_mul(365) {
            Some(days) => {
                Some(Duration::days(days))
            },
            None => {
                Some(limit_towards(count))
            },
        }
    } else if unit == 'd' {
        Some(Duration::days(count))
    } else if unit == 'h' {
        Some(Duration::hours(count))
    } else if unit == 'm' {
        Some(Duration::minutes(count))
    } else if unit == 's' {
        Some(Duration::seconds(count))
    } else {
        None
    }
}

/// The term that starts at `start`, and the position after it.
fn read_term(line: &Vec<char>, start: usize) -> (r: Option<(Duration, usize)>)
    requires
        start <= line.len(),
    ensures
        match term_at(line@, start as int) {
            Some((seconds, next)) => r matches Some((d, n)) && d@ == seconds && n == next,
            None => r is None,
        },
{
    let (count, count_end) = read_count(line, start);
    if count_end == start {
        return None;
    }
    let unit_at = skip_spaces(line, count_end);
    if unit_at >= line.len() {
        return None;
    }
    let letter = line[unit_at];
    if !unit(letter) {
        return None;
    }
    let next = skip_spaces(line, unit_at + 1);
    let worth = match unit_term(count, letter) {
        Some(d) => d,
        None => Duration::zero(),
    };
    Some((worth, next))
}

/// The run of terms that starts at `start`: their saturated sum, and the
/// position after the run.
fn read_terms(line: &Vec<char>, start: usize) -> (r: Option<(Duration, usize)>)
    requires
        start <= line.len(),
    ensures
        match terms_from(line@, start as int, 0) {
            Some((seconds, next)) => r matches Some((d, n)) && d@ == seconds && n == next,
            None => r is None,
        },
{
    let mut subtotal = Duration::zero();
    let mut at: usize = start;
    loop
        invariant
            at <= line.len(),
            terms_from(line@, start as int, 0) == terms_from(line@, at as int, subtotal@),
        decreases line.len() - at,
    {
        match read_term(line, at) {
            None => {
                return None;
            },
            Some((worth, next)) => {
                proof {
                    lemma_term_at_advances(line@, at as int);
                }
                subtotal = subtotal.saturated_add(&worth);
                if next < line.len() && digit(line[next]) {
                    at = next;
                } else {
                    return Some((subtotal, next));
                }
            },
        }
    }
}

/// The value of a line that is made of groups from its first character to
/// its last.
fn read_groups(line: &Vec<char>) -> (r: Option<Duration>)
    ensures
        match groups_from(line@, 0, 0) {
            Some(seconds) => r matches Some(d) && d@ == seconds,
            None => r is None,
        },
{
    let mut total = Duration::zero();
    let mut at: usize = 0;
    loop
        invariant
            at <= line.len(),
            groups_from(line@, 0, 0) == groups_from(line@, at as int, total@),
        decreases line.len() - at,
    {
        let sign_at = skip_spaces(line, at);
        if sign_at >= line.len() {
            return None;
        }
        let sign = line[sign_at];
        if sign != '+' && sign != '-' {
            return None;
        }
        let first = skip_spaces(line, sign_at + 1);
        match read_terms(line, first) {
            None => {
                return None;
            },
            Some((subtotal, next)) => {
                proof {
                    lemma_terms_from_advances(line@, first as int, 0);
                }
                let exact = if sign == '-' {
                    total.checked_sub(&subtotal)
                } else {
                    total.checked_add(&subtotal)
                };
                total = match exact {
                    Some(sum) => sum,
                    None => subtotal,
                };
                if next == line.len() {
                    return Some(total);
                }
                at = next;
            },
        }
    }
}

impl Duration {
    /// Reads one line: a duration expression, a comment after `#`, or both.
    ///
    /// A blank line is worth nothing. A line that the grammar does not admit
    /// is an error, and the error holds the line.
    pub fn from_str(input: &str) -> (r: Result<Duration, ParseError>)
        ensures
            match parsed_seconds(input@) {
                Some(seconds) => r matches Ok(d) && d@ == seconds,
                None => r matches Err(ParseError::InvalidExpression(line)) && line@ == input@,
            },
            r is Ok <==> is_blank(without_comment(input@)) || in_grammar(
                with_sign(without_comment(input@)),
            ),
    {
        proof {
            lemma_read_lines(input@);
        }
        let mut line = chars_of(input);
        let end = find_comment(&line);
        line.truncate(end);
        if skip_spaces(&line, 0) == line.len() {
            return Ok(Duration::zero());
        }
        let first = line[0];
        if first != '+' && first != '-' {
            line.insert(0, '+');
            assert(line@ =~= with_sign(without_comment(input@)));
        }
        match read_groups(&line) {
            Some(d) => Ok(d),
            None => Err(ParseError::InvalidExpression(input.to_owned())),
        }
    }

    /// What `count` units are worth, clamped to the limits, or `None` where
    /// `unit` is no unit code. The codes are `y`, `d`, `h`, `m`, `min` and `s`.
    pub fn token_to_duration(count: i64, unit: &str) -> (r: Option<Duration>)
        ensures
            match token_seconds(count as int, unit@) {
                Some(seconds) => r matches Some(d) && d@ == seconds,
                None => r is None,
            },
    {
        let length = unit.unicode_len();
        if length == 1 {
            let letter = unit.get_char(0);
            assert(unit@ =~= seq![letter]);
            unit_term(count, letter)
        } else if length == 3 && unit.get_char(0) == 'm' && unit.get_char(1) == 'i'
            && unit.get_char(2) == 'n' {
            assert(unit@ =~= seq!['m', 'i', 'n']);
            Some(Duration::minutes(count))
        } else {
            None
        }
    }
}

} // verus!
