use duration_calculator::duration::{Duration, MAX_SECONDS};
use duration_calculator::ParseError;

fn held(span: chrono::Duration) -> Duration {
    Duration::seconds(span.num_seconds())
}

fn rejected(input: &str) -> bool {
    Duration::from_str(input) == Err(ParseError::InvalidExpression(input.to_string()))
}

#[test]
fn test_token_to_duration() {
    let cases = vec![
        (5, "y", chrono::Duration::days(365 * 5)),
        (2, "d", chrono::Duration::days(2)),
        (3, "h", chrono::Duration::hours(3)),
        (30, "m", chrono::Duration::minutes(30)),
        (10, "s", chrono::Duration::seconds(10)),
        (0, "y", chrono::Duration::zero()),
    ];

    for (count, unit, expected) in cases {
        let result = Duration::token_to_duration(count, unit);
        assert_eq!(result, Some(held(expected)));
    }
}

#[test]
fn test_from_str() {
    let cases = vec![
        ("", chrono::Duration::zero()),
        (
            "3d 20h 10m 15s",
            chrono::Duration::days(3)
                + chrono::Duration::hours(20)
                + chrono::Duration::minutes(10)
                + chrono::Duration::seconds(15),
        ),
        ("+2d 5h", chrono::Duration::days(2) + chrono::Duration::hours(5)),
        (
            "-1y 3h + 40m",
            chrono::Duration::days(-365) - chrono::Duration::hours(3)
                + chrono::Duration::minutes(40),
        ),
        ("+3h-2m", chrono::Duration::hours(3) - chrono::Duration::minutes(2)),
        ("2d 5h # Comment", chrono::Duration::days(2) + chrono::Duration::hours(5)),
        ("-2d 5h # Comment", -chrono::Duration::days(2) - chrono::Duration::hours(5)),
    ];

    for (input, expected) in cases {
        let result = Duration::from_str(input).unwrap();
        assert_eq!(result, held(expected));
    }
}

#[test]
fn token_to_duration_knows_the_older_spelling_of_minutes() {
    assert_eq!(Duration::token_to_duration(7, "min"), Some(Duration::seconds(420)));
    assert_eq!(Duration::token_to_duration(7, "min"), Duration::token_to_duration(7, "m"));
}

#[test]
fn token_to_duration_knows_no_other_code() {
    for unit in ["", "x", "Y", "M", "w", "mi", "mins", "sec", "ms", "hh", " h", "h ", "мин"] {
        assert_eq!(Duration::token_to_duration(5, unit), None);
    }
}

#[test]
fn token_to_duration_clamps_to_the_limits() {
    assert_eq!(Duration::token_to_duration(i64::MAX, "y"), Some(Duration::maximum()));
    assert_eq!(Duration::token_to_duration(i64::MIN, "y"), Some(Duration::minimum()));
    assert_eq!(Duration::token_to_duration(MAX_SECONDS, "s"), Some(Duration::maximum()));
    assert_eq!(Duration::token_to_duration(MAX_SECONDS, "m"), Some(Duration::maximum()));
    assert_eq!(Duration::token_to_duration(-MAX_SECONDS, "h"), Some(Duration::minimum()));
    assert_eq!(
        Duration::token_to_duration(292_471_208, "y"),
        Some(Duration::seconds(9_223_372_015_488_000))
    );
    assert_eq!(Duration::token_to_duration(292_471_209, "y"), Some(Duration::maximum()));
    assert_eq!(Duration::token_to_duration(-3, "d"), Some(Duration::seconds(-259_200)));
}

#[test]
fn a_single_term_is_worth_its_count_times_its_unit() {
    assert_eq!(Duration::from_str("0s"), Ok(Duration::zero()));
    assert_eq!(Duration::from_str("7s"), Ok(Duration::seconds(7)));
    assert_eq!(Duration::from_str("7m"), Ok(Duration::seconds(420)));
    assert_eq!(Duration::from_str("7h"), Ok(Duration::seconds(25_200)));
    assert_eq!(Duration::from_str("7d"), Ok(Duration::seconds(604_800)));
    assert_eq!(Duration::from_str("7y"), Ok(Duration::seconds(220_752_000)));
    assert_eq!(Duration::from_str("007y"), Ok(Duration::seconds(220_752_000)));
    for count in [0i64, 1, 9, 10, 99, 12_345, 1_000_000_007] {
        for unit in ["y", "d", "h", "m", "s"] {
            let text = format!("{}{}", count, unit);
            assert_eq!(Duration::from_str(&text).ok(), Duration::token_to_duration(count, unit));
        }
    }
}

#[test]
fn blank_lines_and_comments_are_worth_nothing() {
    assert_eq!(Duration::from_str(""), Ok(Duration::zero()));
    assert_eq!(Duration::from_str("   "), Ok(Duration::zero()));
    assert_eq!(Duration::from_str("# only a comment"), Ok(Duration::zero()));
    assert_eq!(Duration::from_str("  \t # a comment after white space"), Ok(Duration::zero()));
    assert_eq!(Duration::from_str("#"), Ok(Duration::zero()));
    assert_eq!(Duration::from_str("\u{a0}\u{2003}\n"), Ok(Duration::zero()));
}

#[test]
fn a_line_without_a_sign_is_read_as_positive() {
    assert_eq!(Duration::from_str("2d 5h"), Duration::from_str("+2d 5h"));
    assert_eq!(Duration::from_str("2d 5h"), Ok(Duration::seconds(190_800)));
    assert_eq!(Duration::from_str("  2d 5h"), Ok(Duration::seconds(190_800)));
    assert_eq!(Duration::from_str("2d-5h"), Ok(Duration::seconds(154_800)));
}

#[test]
fn a_negative_group_is_taken_from_the_total() {
    assert_eq!(Duration::from_str("-1y 3h 40m"), Ok(Duration::seconds(-31_549_200)));
    assert_eq!(Duration::from_str("-1y 3h 40m"), Ok(held(
        -(chrono::Duration::days(365) + chrono::Duration::hours(3) + chrono::Duration::minutes(40))
    )));
    assert_eq!(Duration::from_str("- 5m"), Ok(Duration::seconds(-300)));
    assert_eq!(Duration::from_str("1h - 5m 30s + 1s"), Ok(Duration::seconds(3_271)));
}

#[test]
fn a_comment_does_not_count() {
    assert_eq!(Duration::from_str("2d 5h # Comment"), Duration::from_str("2d 5h"));
    assert_eq!(Duration::from_str("-2d 5h # Comment"), Duration::from_str("-2d 5h"));
    assert_eq!(Duration::from_str("-2d 5h # Comment"), Ok(Duration::seconds(-190_800)));
    assert_eq!(Duration::from_str("2d#5h"), Ok(Duration::seconds(172_800)));
    assert_eq!(Duration::from_str("2d # one # two"), Ok(Duration::seconds(172_800)));
    assert_eq!(Duration::from_str("1m # 5x is no term"), Ok(Duration::seconds(60)));
}

#[test]
fn white_space_may_stand_around_signs_counts_and_units() {
    assert_eq!(Duration::from_str("+ 2 d 5 h "), Ok(Duration::seconds(190_800)));
    assert_eq!(Duration::from_str(" 2 d 5 h "), Ok(Duration::seconds(190_800)));
    assert_eq!(Duration::from_str("+2d5h"), Ok(Duration::seconds(190_800)));
    assert_eq!(Duration::from_str("+\t2\td\n5\u{a0}h\r\n"), Ok(Duration::seconds(190_800)));
    assert_eq!(Duration::from_str("+2\u{3000}d\u{2009}5h\u{85}"), Ok(Duration::seconds(190_800)));
    assert_eq!(Duration::from_str("+1s+1s +1s + 1s"), Ok(Duration::seconds(4)));
}

#[test]
fn malformed_lines_are_rejected() {
    assert!(rejected("abc"));
    assert!(rejected("5"));
    assert!(rejected("5x"));
    assert_eq!(
        Duration::from_str("5x"),
        Err(ParseError::InvalidExpression(String::from("5x")))
    );
}

#[test]
fn lines_outside_the_grammar_are_rejected() {
    for input in [
        "+", "-", "+ ", "d", "+d", "5 5s", "5s 5", "5s x", "x 5s", "5min", "5S", "5D", "5.5h",
        "1h,2m", "++1h", "+-1h", "1h+", "1h -", "--1h", " +1h", "  -1h", "+ # 1h",
        "1_000s", "0x10s", "1e3s", "５s", "٥s", "5ｓ", "1h\u{200b}2m",
    ] {
        assert!(rejected(input), "{:?}", input);
    }
}

#[test]
fn the_error_holds_the_line_as_it_was_given() {
    let line = "  12 parsecs # far";
    match Duration::from_str(line) {
        Err(ParseError::InvalidExpression(held)) => assert_eq!(held, line),
        other => panic!("{:?}", other),
    }
}

#[test]
fn a_count_beyond_the_limit_is_worth_the_limit() {
    let max = Duration::maximum();
    assert_eq!(Duration::from_str("9223372036854775s"), Ok(max));
    assert_eq!(Duration::from_str("9223372036854776s"), Ok(max));
    assert_eq!(Duration::from_str("9223372036854774s"), Ok(Duration::seconds(MAX_SECONDS - 1)));
    assert_eq!(Duration::from_str("9223372036854775807s"), Ok(max));
    assert_eq!(Duration::from_str("9223372036854775808s"), Ok(max));
    assert_eq!(Duration::from_str("99999999999999999999999999999999999999999y"), Ok(max));
    assert_eq!(
        Duration::from_str("-99999999999999999999999999999999999999999y"),
        Ok(Duration::minimum())
    );
    assert_eq!(
        Duration::from_str("153722867280912m"),
        Ok(Duration::seconds(9_223_372_036_854_720))
    );
    assert_eq!(Duration::from_str("153722867280913m"), Ok(max));
}

#[test]
fn terms_of_a_group_saturate_at_the_limit() {
    let max = Duration::maximum();
    assert_eq!(Duration::from_str("9223372036854775s 1s"), Ok(max));
    assert_eq!(Duration::from_str("9223372036854770s 3s 3s"), Ok(max));
    assert_eq!(Duration::from_str("9223372036854770s 3s 2s"), Ok(max));
    assert_eq!(
        Duration::from_str("9223372036854770s 3s 1s"),
        Ok(Duration::seconds(MAX_SECONDS - 1))
    );
    assert_eq!(Duration::from_str("-9223372036854775s 1s"), Ok(Duration::minimum()));
}

#[test]
fn a_group_that_overflows_the_total_replaces_it() {
    assert_eq!(Duration::from_str("9223372036854775s + 1s"), Ok(Duration::seconds(1)));
    assert_eq!(Duration::from_str("9223372036854775s + 2h 1s"), Ok(Duration::seconds(7_201)));
    assert_eq!(Duration::from_str("-9223372036854775s - 1s"), Ok(Duration::seconds(1)));
    assert_eq!(Duration::from_str("-9223372036854775s - 1s - 1s"), Ok(Duration::zero()));
    assert_eq!(
        Duration::from_str("9223372036854775s + 0s"),
        Ok(Duration::maximum())
    );
    assert_eq!(
        Duration::from_str("9223372036854775s - 9223372036854775s - 9223372036854775s"),
        Ok(Duration::minimum())
    );
}
