use literal_calculator::parser::{parse, ParseError};

#[test]
fn parses_plain_expression() {
    assert_eq!(parse("6+5"), Ok((6, 5)));
}

#[test]
fn parses_with_whitespace() {
    assert_eq!(parse("  6 + 5 "), Ok((6, 5)));
    assert_eq!(parse("\t10+\n10\r"), Ok((10, 10)));
}

#[test]
fn parses_zeros() {
    assert_eq!(parse("0+0"), Ok((0, 0)));
    assert_eq!(parse("000+007"), Ok((0, 7)));
}

#[test]
fn parses_largest_accepted_operand() {
    // Nineteen significant digits is the longest operand accepted.
    assert_eq!(parse("9999999999999999999+0"), Ok((9_999_999_999_999_999_999, 0)));
}

#[test]
fn parses_leading_zeros() {
    assert_eq!(parse("00000000000000000001+1"), Ok((1, 1)));
    assert_eq!(parse("007+08"), Ok((7, 8)));
}

#[test]
fn parses_long_runs_of_zeros() {
    assert_eq!(parse("0000000000000000000000000+0"), Ok((0, 0)));
    assert_eq!(parse("0009999999999999999999+0"), Ok((9_999_999_999_999_999_999, 0)));
}

#[test]
fn rejects_twenty_digit_operand() {
    assert_eq!(parse("99999999999999999999+0"), Err(ParseError::NumberError));
}

#[test]
fn rejects_twenty_significant_digits_behind_zeros() {
    assert_eq!(parse("010000000000000000000+0"), Err(ParseError::NumberError));
}

#[test]
fn rejects_missing_plus() {
    assert_eq!(parse("3"), Err(ParseError::FormatError));
    assert_eq!(parse(""), Err(ParseError::FormatError));
    assert_eq!(parse("35"), Err(ParseError::FormatError));
}

#[test]
fn rejects_too_many_segments() {
    assert_eq!(parse("3+3+3"), Err(ParseError::FormatError));
    assert_eq!(parse("1+2+"), Err(ParseError::FormatError));
}

#[test]
fn rejects_non_numeric_segment() {
    assert_eq!(parse("abc+3"), Err(ParseError::NumberError));
    assert_eq!(parse("3+x"), Err(ParseError::NumberError));
}

#[test]
fn rejects_negative_segment() {
    assert_eq!(parse("-1+2"), Err(ParseError::NumberError));
}

#[test]
fn rejects_empty_segment() {
    assert_eq!(parse("+"), Err(ParseError::NumberError));
    assert_eq!(parse("3+"), Err(ParseError::NumberError));
    assert_eq!(parse("+3"), Err(ParseError::NumberError));
    assert_eq!(parse(" + "), Err(ParseError::NumberError));
}

#[test]
fn rejects_inner_whitespace_in_segment() {
    assert_eq!(parse("1 2+3"), Err(ParseError::NumberError));
}

#[test]
fn trims_unicode_whitespace() {
    // The same characters str::trim removes: no-break space, em space,
    // ideographic space, hair space, vertical tab, form feed.
    assert_eq!(parse("\u{00A0}6\u{2003}+\u{3000}5\u{200A}"), Ok((6, 5)));
    assert_eq!(parse("\u{000B}1+2\u{000C}"), Ok((1, 2)));
    assert_eq!(parse(" 6 + 5 ".trim()), Ok((6, 5)));
}
