//! Behaviour of the primitive parsers: literal byte, literal string and pure
//! value, invoked against whole input buffers.

use chiaro::parser::Parser;
use chiaro::parser::ParseError;
use chiaro::parser::char;
use chiaro::parser::ok;
use chiaro::parser::ret;
use chiaro::parser::string;

#[test]
fn char_consumes_one_matching_byte() {
    assert_eq!(char(b'a').parse("abc"), Ok(((), 1)));
}

#[test]
fn char_reports_the_byte_found() {
    assert_eq!(
        char(b'a').parse("xyz"),
        Err(ParseError::UnexpectedByte { expected: b'a', found: b'x' })
    );
}

#[test]
fn char_reports_exhausted_input() {
    assert_eq!(
        char(b'a').parse(""),
        Err(ParseError::UnexpectedEndOfInput { expected: b'a' })
    );
}

#[test]
fn string_consumes_its_literal_prefix() {
    assert_eq!(string("HTTP/").parse("HTTP/1.1"), Ok(((), 5)));
}

#[test]
fn string_accepts_exactly_its_literal() {
    assert_eq!(string("abc").parse("abc"), Ok(((), 3)));
}

#[test]
fn string_reports_the_point_of_divergence() {
    assert_eq!(
        string("HTTP/").parse("HTXP/1"),
        Err(ParseError::LiteralMismatch { expected: b'T', found: b'X', at: 2 })
    );
}

#[test]
fn string_reports_insufficient_input() {
    assert_eq!(
        string("HTTP/").parse("HT"),
        Err(ParseError::LiteralOutOfInput { needed: 5, available: 2 })
    );
}

#[test]
fn ret_succeeds_without_consuming() {
    assert_eq!(ret(7u32).parse("abc"), Ok((7u32, 0)));
}

#[test]
fn ret_succeeds_on_empty_input() {
    assert_eq!(ret(true).parse(""), Ok((true, 0)));
}

#[test]
fn ok_wraps_output_and_remainder() {
    assert_eq!(ok(5u8, 2), Ok((5u8, 2)));
}

#[test]
fn parse_b_reads_from_the_given_position() {
    assert_eq!(char(b'b').parse_b(b"abc", 1), Ok(((), 2)));
}
