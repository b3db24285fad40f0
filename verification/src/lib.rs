//! A parser-combinator engine over an immutable byte buffer.
//!
//! A grammar is built bottom-up by composing primitive parsers with
//! combinators into a tree of parser values; invoking the tree against an
//! input buffer evaluates it depth-first, left-to-right, threading the
//! remaining input forward and short-circuiting on the first failure.
//!
//! Parsing is zero-copy: the input is never duplicated, and every successful
//! parse yields positions (and spans) into the original buffer. Each parser's
//! behaviour is a mathematical function of the parser value, the buffer and
//! the starting position, so re-running a parser on the same input always
//! yields the same result.

pub mod combinators;
pub mod laws;
pub mod parser;
