//! Behaviour of the combinators: repetition, optional backtracking, greedy
//! prefixes, sequencing, binding, mapping and pairing.

use chiaro::combinators::ByteRange;
use chiaro::combinators::NotByte;
use chiaro::combinators::collect_many;
use chiaro::combinators::collect_many1;
use chiaro::combinators::count;
use chiaro::combinators::many;
use chiaro::combinators::many1;
use chiaro::combinators::option;
use chiaro::combinators::take_while;
use chiaro::parser::Always;
use chiaro::parser::Applicative;
use chiaro::parser::JoinSpans;
use chiaro::parser::LiftValue;
use chiaro::parser::PairUp;
use chiaro::parser::ParseError;
use chiaro::parser::Parser;
use chiaro::parser::Span;
use chiaro::parser::SpanLength;
use chiaro::parser::bind;
use chiaro::parser::char;

fn digit() -> ByteRange {
    ByteRange { lo: b'0', hi: b'9' }
}

#[test]
fn many_collects_the_consumed_region() {
    assert_eq!(
        many(char(b' ')).parse("   abc"),
        Ok((Span { start: 0, end: 3 }, 3))
    );
}

#[test]
fn many_matches_zero_times_without_failing() {
    assert_eq!(many(char(b' ')).parse("abc"), Ok((Span { start: 0, end: 0 }, 0)));
}

#[test]
fn many1_fails_exactly_as_its_child() {
    assert_eq!(
        many1(char(b' ')).parse("abc").unwrap_err(),
        char(b' ').parse("abc").unwrap_err()
    );
    assert_eq!(
        many1(char(b' ')).parse("abc"),
        Err(ParseError::UnexpectedByte { expected: b' ', found: b'a' })
    );
}

#[test]
fn many1_succeeds_on_one_or_more_matches() {
    assert_eq!(many1(char(b' ')).parse("  x"), Ok((Span { start: 0, end: 2 }, 2)));
}

#[test]
fn collect_many_gathers_each_output() {
    assert_eq!(collect_many(char(b'a')).parse("aab"), Ok((vec![(), ()], 2)));
}

#[test]
fn collect_many_matches_zero_times_without_failing() {
    assert_eq!(collect_many(char(b'a')).parse("b"), Ok((vec![], 0)));
}

#[test]
fn collect_many1_fails_exactly_as_its_child() {
    assert_eq!(
        collect_many1(char(b'a')).parse("b").unwrap_err(),
        char(b'a').parse("b").unwrap_err()
    );
}

#[test]
fn count_zero_succeeds_with_empty_output() {
    assert_eq!(count(0, char(b'a')).parse("bbb"), Ok((Span { start: 0, end: 0 }, 0)));
}

#[test]
fn count_runs_its_parser_in_sequence() {
    assert_eq!(count(3, char(b'a')).parse("aaaa"), Ok((Span { start: 0, end: 3 }, 3)));
}

#[test]
fn count_propagates_the_first_failure() {
    assert_eq!(
        count(3, char(b'a')).parse("aab"),
        Err(ParseError::UnexpectedByte { expected: b'a', found: b'b' })
    );
}

#[test]
fn count_negative_behaves_as_zero() {
    assert_eq!(count(-2, char(b'a')).parse("xyz"), Ok((Span { start: 0, end: 0 }, 0)));
}

#[test]
fn take_while_consumes_the_maximal_prefix() {
    assert_eq!(take_while(digit()).parse("123abc"), Ok((Span { start: 0, end: 3 }, 3)));
}

#[test]
fn take_while_rejects_a_zero_length_match() {
    assert_eq!(take_while(digit()).parse("abc"), Err(ParseError::PredicateNeverMatched));
}

#[test]
fn take_while_rejects_empty_input() {
    assert_eq!(take_while(digit()).parse(""), Err(ParseError::PredicateNeverMatched));
}

#[test]
fn take_while_can_reach_the_end_of_input() {
    assert_eq!(take_while(digit()).parse("42"), Ok((Span { start: 0, end: 2 }, 2)));
}

#[test]
fn not_byte_scans_to_the_delimiter() {
    assert_eq!(
        take_while(NotByte(b' ')).parse("GET /"),
        Ok((Span { start: 0, end: 3 }, 3))
    );
}

#[test]
fn option_is_absent_on_failure_with_nothing_consumed() {
    assert_eq!(option(char(b'x')).parse("abc"), Ok((None, 0)));
}

#[test]
fn option_wraps_success() {
    assert_eq!(option(char(b'a')).parse("abc"), Ok((Some(()), 1)));
}

#[test]
fn failed_option_leaves_the_chain_at_the_original_position() {
    assert_eq!(chiaro::parser::seq(option(char(b'x')), char(b'a')).parse("abc"), Ok(((), 1)));
}

#[test]
fn seq_keeps_the_second_output() {
    assert_eq!(chiaro::parser::seq(char(b'a'), char(b'b')).parse("abc"), Ok(((), 2)));
}

#[test]
fn seq_fails_with_the_first_failure() {
    assert_eq!(
        chiaro::parser::seq(char(b'a'), char(b'b')).parse("xb"),
        Err(ParseError::UnexpectedByte { expected: b'a', found: b'x' })
    );
    assert_eq!(
        chiaro::parser::seq(char(b'a'), char(b'b')).parse("ax"),
        Err(ParseError::UnexpectedByte { expected: b'b', found: b'x' })
    );
}

#[test]
fn bind_continues_with_the_built_parser() {
    assert_eq!(bind(char(b'a'), Always(char(b'b'))).parse("ab"), Ok(((), 2)));
}

#[test]
fn bind_lifts_a_captured_value_back_out() {
    assert_eq!(
        bind(take_while(digit()), LiftValue).parse("12x"),
        Ok((Span { start: 0, end: 2 }, 2))
    );
}

#[test]
fn bind_skips_the_builder_on_failure() {
    assert_eq!(
        bind(char(b'a'), Always(char(b'b'))).parse("xb"),
        Err(ParseError::UnexpectedByte { expected: b'a', found: b'x' })
    );
}

#[test]
fn map_transforms_the_output() {
    assert_eq!(chiaro::parser::map(take_while(digit()), SpanLength).parse("123ab"), Ok((3usize, 3)));
}

#[test]
fn pairing_combines_both_outputs() {
    let letters = ByteRange { lo: b'a', hi: b'z' };
    assert_eq!(
        (take_while(digit()), take_while(letters)).map(JoinSpans).parse("12ab,"),
        Ok((Span { start: 0, end: 4 }, 4))
    );
    assert_eq!(
        (char(b'a'), take_while(digit())).map(PairUp).parse("a12x"),
        Ok((((), Span { start: 1, end: 3 }), 3))
    );
}

#[test]
fn pairing_fails_with_whichever_side_fails_first() {
    assert_eq!(
        (char(b'a'), char(b'b')).map(PairUp).parse("xb"),
        Err(ParseError::UnexpectedByte { expected: b'a', found: b'x' })
    );
    assert_eq!(
        (char(b'a'), char(b'b')).map(PairUp).parse("ax"),
        Err(ParseError::UnexpectedByte { expected: b'b', found: b'x' })
    );
}

#[test]
fn parsers_are_reusable_and_referentially_transparent() {
    let p = many1(char(b' '));
    let first = p.parse("abc");
    let second = p.parse("abc");
    assert_eq!(first, second);
}

#[test]
fn a_parser_can_be_shared_by_reference() {
    let version = chiaro::parser::string("HTTP/");
    assert_eq!(chiaro::parser::seq(char(b' '), &version).parse(" HTTP/x"), Ok(((), 6)));
    assert_eq!((&version).parse("HTTP/"), Ok(((), 5)));
}
