use dice::{parse, DiceError, RollSpec};

fn spec(count: i32, sides: i32, modifier: i32, has_modifier: bool) -> Result<RollSpec, DiceError> {
    Ok(RollSpec { count, sides, modifier, has_modifier })
}

fn invalid(text: &str) -> Result<RollSpec, DiceError> {
    Err(DiceError::InvalidNotation(text.to_string()))
}

#[test]
fn parse_reads_count_and_sides() {
    assert_eq!(parse("3d6"), spec(3, 6, 0, false));
    assert_eq!(parse("1d20"), spec(1, 20, 0, false));
    assert_eq!(parse("12d100"), spec(12, 100, 0, false));
    assert_eq!(parse("1d1"), spec(1, 1, 0, false));
}

#[test]
fn parse_reads_a_modifier() {
    assert_eq!(parse("1d20+5"), spec(1, 20, 5, true));
    assert_eq!(parse("2d8-1"), spec(2, 8, -1, true));
    assert_eq!(parse("1d6+5"), spec(1, 6, 5, true));
    assert_eq!(parse("1d6-1"), spec(1, 6, -1, true));
    assert_eq!(parse("4d4+100"), spec(4, 4, 100, true));
}

#[test]
fn parse_keeps_a_modifier_of_zero() {
    assert_eq!(parse("3d6+0"), spec(3, 6, 0, true));
    assert_eq!(parse("3d6-0"), spec(3, 6, 0, true));
}

#[test]
fn parse_takes_either_case_of_the_marker() {
    assert_eq!(parse("1D6"), spec(1, 6, 0, false));
    assert_eq!(parse("2D8-1"), spec(2, 8, -1, true));
    assert_eq!(parse("D20"), spec(1, 20, 0, false));
}

#[test]
fn parse_defaults_the_count_to_one() {
    assert_eq!(parse("d6"), spec(1, 6, 0, false));
    assert_eq!(parse("d20+5"), spec(1, 20, 5, true));
}

#[test]
fn parse_takes_leading_zeros() {
    assert_eq!(parse("03d006"), spec(3, 6, 0, false));
    assert_eq!(parse("1d6+007"), spec(1, 6, 7, true));
    assert_eq!(parse("0000000000001d00000000000006"), spec(1, 6, 0, false));
}

#[test]
fn parse_takes_numbers_up_to_the_largest_integer() {
    assert_eq!(parse("2147483647d1"), spec(2147483647, 1, 0, false));
    assert_eq!(parse("1d2147483647"), spec(1, 2147483647, 0, false));
    assert_eq!(parse("1d6+2147483647"), spec(1, 6, 2147483647, true));
    assert_eq!(parse("1d6-2147483647"), spec(1, 6, -2147483647, true));
    assert_eq!(
        parse("2147483647d2147483647-2147483647"),
        spec(2147483647, 2147483647, -2147483647, true)
    );
}

#[test]
fn parse_turns_away_numbers_beyond_the_largest_integer() {
    for text in [
        "2147483648d1",
        "1d2147483648",
        "1d6+2147483648",
        "1d6-2147483648",
        "99999999999999999999d6",
        "1d99999999999999999999",
        "1d6+99999999999999999999",
        "4294967297d6",
        "1d18446744073709551617",
    ] {
        assert_eq!(parse(text), invalid(text));
    }
}

#[test]
fn parse_turns_away_a_count_of_zero() {
    assert_eq!(parse("0d6"), invalid("0d6"));
    assert_eq!(parse("00d6"), invalid("00d6"));
    assert_eq!(parse("0d6+1"), invalid("0d6+1"));
}

#[test]
fn parse_turns_away_sides_of_zero() {
    assert_eq!(parse("3d0"), invalid("3d0"));
    assert_eq!(parse("d0"), invalid("d0"));
    assert_eq!(parse("3d000-1"), invalid("3d000-1"));
}

#[test]
fn parse_turns_away_a_missing_marker() {
    for text in ["invalid", "6", "36", "3x6", "3-6", "+5", "3+5", "abc"] {
        assert_eq!(parse(text), invalid(text));
    }
}

#[test]
fn parse_turns_away_missing_sides() {
    for text in ["d", "D", "3d", "3d+5", "3d-1", "dd6", "3dd6", "3dx"] {
        assert_eq!(parse(text), invalid(text));
    }
}

#[test]
fn parse_turns_away_the_empty_text() {
    assert_eq!(parse(""), invalid(""));
}

#[test]
fn parse_turns_away_what_follows_the_notation() {
    for text in ["3d6x", "3d6+5x", "3d6+5+1", "3d6+5-1", "3d6d", "3d6D4", "3d6+5 ", "3d6\n", "3d6+5d2"] {
        assert_eq!(parse(text), invalid(text));
    }
}

#[test]
fn parse_turns_away_a_modifier_without_digits() {
    for text in ["3d6+", "3d6-", "3d6+-1", "3d6--1", "3d6++1", "3d6+ 1", "3d6*2", "3d6/2"] {
        assert_eq!(parse(text), invalid(text));
    }
}

#[test]
fn parse_turns_away_white_space() {
    for text in [" 3d6", "3d6 ", "3 d6", "3d 6", "3d6 +5", "3d6+ 5", "\t3d6", " "] {
        assert_eq!(parse(text), invalid(text));
    }
}

#[test]
fn parse_turns_away_a_sign_before_the_count() {
    for text in ["+3d6", "-3d6", "+d6", "-d6"] {
        assert_eq!(parse(text), invalid(text));
    }
}

#[test]
fn parse_turns_away_characters_beyond_ascii() {
    for text in ["３d６", "3d6\u{0}", "\u{0}3d6", "3\u{0}d6", "3ｄ6", "٣d٦", "3d6＋1", "é", "3d6é"] {
        assert_eq!(parse(text), invalid(text));
    }
}

#[test]
fn parse_gives_the_same_answer_each_time() {
    for text in ["3d6", "1d20+5", "d6", "0d6", "invalid", "", "2D8-1"] {
        assert_eq!(parse(text), parse(text));
    }
}

#[test]
fn parsed_requests_are_well_formed() {
    for text in ["3d6", "d20", "1d20+5", "2d8-1", "100d100-100", "1d1+0"] {
        let spec = parse(text).unwrap();
        assert!(spec.count >= 1);
        assert!(spec.sides >= 1);
        assert!(spec.has_modifier || spec.modifier == 0);
    }
}
