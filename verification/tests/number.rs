use poe_screenshot::number::{parse_usize, NumberError};
use std::num::IntErrorKind;

/// What std makes of the same text.
fn by_std(text: &str) -> Result<usize, NumberError> {
    match text.parse::<usize>() {
        Ok(number) => Ok(number),
        Err(error) => match error.kind() {
            IntErrorKind::Empty => Err(NumberError::Empty),
            IntErrorKind::InvalidDigit => Err(NumberError::InvalidDigit),
            IntErrorKind::PosOverflow => Err(NumberError::PosOverflow),
            other => panic!("unexpected kind {:?}", other),
        },
    }
}

#[test]
fn parses_plain_digits() {
    assert_eq!(parse_usize(b"0"), Ok(0));
    assert_eq!(parse_usize(b"7"), Ok(7));
    assert_eq!(parse_usize(b"12"), Ok(12));
    assert_eq!(parse_usize(b"4096"), Ok(4096));
}

#[test]
fn accepts_a_leading_plus() {
    assert_eq!(parse_usize(b"+0"), Ok(0));
    assert_eq!(parse_usize(b"+15"), Ok(15));
}

#[test]
fn keeps_leading_zeros_harmless() {
    assert_eq!(parse_usize(b"007"), Ok(7));
    assert_eq!(parse_usize(b"0000000000000000000000000000000000000001"), Ok(1));
}

#[test]
fn empty_text_is_empty() {
    assert_eq!(parse_usize(b""), Err(NumberError::Empty));
}

#[test]
fn a_lone_sign_is_an_invalid_digit() {
    assert_eq!(parse_usize(b"+"), Err(NumberError::InvalidDigit));
    assert_eq!(parse_usize(b"-"), Err(NumberError::InvalidDigit));
}

#[test]
fn stray_bytes_are_invalid_digits() {
    assert_eq!(parse_usize(b"-1"), Err(NumberError::InvalidDigit));
    assert_eq!(parse_usize(b" 1"), Err(NumberError::InvalidDigit));
    assert_eq!(parse_usize(b"1 "), Err(NumberError::InvalidDigit));
    assert_eq!(parse_usize(b"1_000"), Err(NumberError::InvalidDigit));
    assert_eq!(parse_usize(b"++1"), Err(NumberError::InvalidDigit));
    assert_eq!(parse_usize(b"12a"), Err(NumberError::InvalidDigit));
    assert_eq!(parse_usize(b"0x10"), Err(NumberError::InvalidDigit));
    assert_eq!(parse_usize(&[0x31, 0xc3, 0xa9]), Err(NumberError::InvalidDigit));
}

#[test]
fn the_largest_number_fits() {
    let largest = usize::MAX.to_string();
    assert_eq!(parse_usize(largest.as_bytes()), Ok(usize::MAX));
    let signed = format!("+{}", usize::MAX);
    assert_eq!(parse_usize(signed.as_bytes()), Ok(usize::MAX));
}

#[test]
fn one_above_the_largest_overflows() {
    let above = (usize::MAX as u128 + 1).to_string();
    assert_eq!(parse_usize(above.as_bytes()), Err(NumberError::PosOverflow));
    assert_eq!(
        parse_usize(b"99999999999999999999999999999999999999999999"),
        Err(NumberError::PosOverflow)
    );
}

#[test]
fn the_leftmost_fault_decides() {
    assert_eq!(
        parse_usize(b"99999999999999999999999999999999999999999999x"),
        Err(NumberError::PosOverflow)
    );
    let stray_behind_largest = format!("{}x", usize::MAX);
    assert_eq!(
        parse_usize(stray_behind_largest.as_bytes()),
        Err(NumberError::InvalidDigit)
    );
    let digit_behind_largest = format!("{}0", usize::MAX);
    assert_eq!(
        parse_usize(digit_behind_largest.as_bytes()),
        Err(NumberError::PosOverflow)
    );
    assert_eq!(parse_usize(b"x99999999999999999999999999"), Err(NumberError::InvalidDigit));
}

#[test]
fn agrees_with_std_on_many_texts() {
    let largest = usize::MAX.to_string();
    let above = (usize::MAX as u128 + 1).to_string();
    let mut texts: Vec<String> = vec![
        "", "+", "-", "0", "+0", "-0", "1", "9", "10", "099", "+099", "+-1", "-+1", "++", "1+",
        "1-", "12 ", " 12", "1 2", "a", "1a", "a1", "٣", "1٣", "１", "0.5", "1e3", "18446744073709551615",
        "18446744073709551616", "18446744073709551615a", "184467440737095516150",
        "4294967295", "4294967296", "42949672950", "000000000000000000000000000018446744073709551615",
        "99999999999999999999999999999999", "99999999999999999999999999999999-",
    ]
    .into_iter()
    .map(String::from)
    .collect();
    texts.push(largest.clone());
    texts.push(above.clone());
    texts.push(format!("{}z", largest));
    texts.push(format!("{}z", above));
    texts.push(format!("+{}", largest));
    let mut n: usize = 0;
    while n < 3000 {
        texts.push(n.to_string());
        texts.push(format!("+{}", n));
        texts.push(format!("{}#", n));
        n += 7;
    }
    for text in &texts {
        assert_eq!(parse_usize(text.as_bytes()), by_std(text), "on {:?}", text);
    }
}

#[test]
fn describes_each_error() {
    assert_eq!(NumberError::Empty.describe(), "cannot parse integer from empty string");
    assert_eq!(NumberError::InvalidDigit.describe(), "invalid digit found in string");
    assert_eq!(NumberError::PosOverflow.describe(), "number too large to fit in target type");
}

#[test]
fn describes_as_std_does() {
    assert_eq!(
        NumberError::Empty.describe(),
        "".parse::<usize>().unwrap_err().to_string()
    );
    assert_eq!(
        NumberError::InvalidDigit.describe(),
        "x".parse::<usize>().unwrap_err().to_string()
    );
    assert_eq!(
        NumberError::PosOverflow.describe(),
        "99999999999999999999999999".parse::<usize>().unwrap_err().to_string()
    );
}
