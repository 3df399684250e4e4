use dice::DiceError;

#[test]
fn message_of_invalid_sides() {
    assert_eq!(DiceError::InvalidSides(0).message(), "Invalid number of sides: 0");
    assert_eq!(DiceError::InvalidSides(-5).message(), "Invalid number of sides: -5");
    assert_eq!(DiceError::InvalidSides(7).message(), "Invalid number of sides: 7");
    assert_eq!(
        DiceError::InvalidSides(i32::MIN).message(),
        "Invalid number of sides: -2147483648"
    );
}

#[test]
fn message_of_invalid_count() {
    assert_eq!(DiceError::InvalidCount(0).message(), "Invalid count: 0");
    assert_eq!(DiceError::InvalidCount(-12).message(), "Invalid count: -12");
    assert_eq!(DiceError::InvalidCount(10).message(), "Invalid count: 10");
    assert_eq!(DiceError::InvalidCount(1090).message(), "Invalid count: 1090");
    assert_eq!(DiceError::InvalidCount(i32::MAX).message(), "Invalid count: 2147483647");
}

#[test]
fn message_of_invalid_notation() {
    assert_eq!(
        DiceError::InvalidNotation("3x6".to_string()).message(),
        "Invalid dice notation: 3x6"
    );
    assert_eq!(DiceError::InvalidNotation(String::new()).message(), "Invalid dice notation: ");
    assert_eq!(
        DiceError::InvalidNotation("３d６ é".to_string()).message(),
        "Invalid dice notation: ３d６ é"
    );
}

#[test]
fn message_of_null_pointer() {
    assert_eq!(DiceError::NullPointer.message(), "Null pointer error");
}

#[test]
fn messages_agree_with_the_formatter_of_integers() {
    for n in [0, 1, -1, 9, 10, -10, 99, 100, 12345, -98765, 1000000007, i32::MAX, i32::MIN] {
        assert_eq!(DiceError::InvalidCount(n).message(), format!("Invalid count: {}", n));
    }
}

#[test]
fn errors_compare_by_kind_and_content() {
    assert_eq!(DiceError::InvalidSides(3), DiceError::InvalidSides(3));
    assert_ne!(DiceError::InvalidSides(3), DiceError::InvalidSides(4));
    assert_ne!(DiceError::InvalidSides(3), DiceError::InvalidCount(3));
    assert_ne!(DiceError::NullPointer, DiceError::InvalidNotation(String::new()));
    let error = DiceError::InvalidNotation("d".to_string());
    assert_eq!(error.clone(), error);
}
