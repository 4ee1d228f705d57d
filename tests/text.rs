use help_nav::text::{decimal_string, parse_index, IndexError};

#[test]
fn decimal_strings() {
    assert_eq!(decimal_string(0), "0");
    assert_eq!(decimal_string(7), "7");
    assert_eq!(decimal_string(10), "10");
    assert_eq!(decimal_string(1234567890), "1234567890");
    assert_eq!(decimal_string(usize::MAX), usize::MAX.to_string());
}

#[test]
fn parse_indices() {
    assert_eq!(parse_index("0", 1), Ok(0));
    assert_eq!(parse_index("12", 13), Ok(12));
    assert_eq!(parse_index("+3", 5), Ok(3));
    assert_eq!(parse_index("-0", 1), Ok(0));
    assert_eq!(parse_index("007", 8), Ok(7));
    assert_eq!(parse_index("13", 13), Err(IndexError::OutOfRange));
    assert_eq!(parse_index("-1", 13), Err(IndexError::OutOfRange));
    assert_eq!(parse_index("0", 0), Err(IndexError::OutOfRange));
    assert_eq!(parse_index("", 3), Err(IndexError::NotANumber));
    assert_eq!(parse_index("-", 3), Err(IndexError::NotANumber));
    assert_eq!(parse_index("1a", 3), Err(IndexError::NotANumber));
    assert_eq!(parse_index("1 ", 3), Err(IndexError::NotANumber));
}
