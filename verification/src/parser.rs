//! The parsing interface and the primitive parsers.
//!
//! A parser is a reusable value describing how to extract a typed output from
//! the front of a view of the input buffer. A view is a byte slice together
//! with a read position; consumption only ever advances the position, so a
//! failed or abandoned attempt leaves no observable effect on the input.

use vstd::prelude::*;
use vstd::slice::slice_to_vec;
use vstd::string::StringSliceAdditionalSpecFns;

verus! {

/// Why a parse attempt failed. A closed set of kinds, each carrying the
/// context needed to report the failure; malformed input is always one of
/// these, never a crash.
#[derive(Clone, Copy, Debug, PartialEq, Eq, Structural)]
pub enum ParseError {
    /// A single expected byte was not the byte found.
    UnexpectedByte { expected: u8, found: u8 },
    /// A single byte was expected but the input was exhausted.
    UnexpectedEndOfInput { expected: u8 },
    /// A literal diverged from the input at offset `at` within the literal.
    LiteralMismatch { expected: u8, found: u8, at: usize },
    /// A literal needed more input than the view holds.
    LiteralOutOfInput { needed: usize, available: usize },
    /// A greedy predicate scan matched zero bytes.
    PredicateNeverMatched,
}

/// What a parse attempt returns: on success the output together with the
/// position where the remainder of the input begins, on failure a
/// [`ParseError`].
pub type ParserResult<T> = Result<(T, usize), ParseError>;

/// A window `start..end` into the input buffer: the zero-copy output form of
/// the repetition combinators. The bytes themselves stay in the caller's
/// buffer.
#[derive(Clone, Copy, Debug, PartialEq, Eq, Structural)]
pub struct Span {
    pub start: usize,
    pub end: usize,
}

impl DeepView for Span {
    type V = Span;

    open spec fn deep_view(&self) -> Span {
        *self
    }
}

/// The bytes of the input `s` that a span designates.
pub open spec fn span_bytes(s: Seq<u8>, sp: Span) -> Seq<u8> {
    s.subrange(sp.start as int, sp.end as int)
}

/// The single contract all primitives and combinators implement, and the only
/// extension point of the engine.
///
/// `result_of` is a specification-level function of the parser value, the
/// buffer and the position: that a parser equals its `result_of` on every
/// invocation is exactly referential transparency, which the repetition
/// combinators rely on for error recovery. `lemma_result_bounds` obliges
/// every implementation to keep the remainder a suffix of its input: the
/// position only ever moves forward, and never past the end of the buffer.
pub trait Parser: Sized {
    /// The type of output a successful attempt yields.
    type O: DeepView;

    /// The one result this parser can have on buffer `s` at position `pos`:
    /// the output's view and the remainder's position, or the failure.
    spec fn result_of(&self, s: Seq<u8>, pos: int) -> Result<
        (<Self::O as DeepView>::V, int),
        ParseError,
    >;

    /// Every successful parse leaves the remainder a suffix of its input.
    proof fn lemma_result_bounds(&self, s: Seq<u8>, pos: int)
        requires
            0 <= pos <= s.len(),
        ensures
            match self.result_of(s, pos) {
                Ok((v, rest)) => pos <= rest <= s.len(),
                Err(_) => true,
            },
    ;

    /// Attempt this parser on the bytes of `s`, reading from `pos`. The
    /// result is exactly `result_of`: the buffer is never mutated and the
    /// attempt has no other effect.
    fn parse_b(&self, s: &[u8], pos: usize) -> (r: ParserResult<Self::O>)
        requires
            pos <= s@.len(),
        ensures
            match r {
                Ok((v, rest)) => pos <= rest <= s@.len() && self.result_of(s@, pos as int)
                    == Ok::<(<Self::O as DeepView>::V, int), ParseError>((v.deep_view(), rest as int)),
                Err(e) => self.result_of(s@, pos as int) == Err::<
                    (<Self::O as DeepView>::V, int),
                    ParseError,
                >(e),
            },
    ;

    /// Attempt this parser against a whole input buffer, given as text.
    fn parse(&self, s: &str) -> (r: ParserResult<Self::O>)
        ensures
            match r {
                Ok((v, rest)) => rest <= s.spec_bytes().len() && self.result_of(s.spec_bytes(), 0)
                    == Ok::<(<Self::O as DeepView>::V, int), ParseError>(
                    (v.deep_view(), rest as int),
                ),
                Err(e) => self.result_of(s.spec_bytes(), 0) == Err::<
                    (<Self::O as DeepView>::V, int),
                    ParseError,
                >(e),
            },
    {
        self.parse_b(s.as_bytes(), 0)
    }
}

/// A borrowed parser parses as the parser itself: a parser value can be
/// shared between grammar rules without being moved.
impl<P: Parser> Parser for &P {
    type O = P::O;

    open spec fn result_of(&self, s: Seq<u8>, pos: int) -> Result<
        (<P::O as DeepView>::V, int),
        ParseError,
    > {
        (*self).result_of(s, pos)
    }

    proof fn lemma_result_bounds(&self, s: Seq<u8>, pos: int) {
        (*self).lemma_result_bounds(s, pos);
    }

    fn parse_b(&self, s: &[u8], pos: usize) -> ParserResult<P::O> {
        (*self).parse_b(s, pos)
    }
}

/// Chain monadically: `p`'s output selects, through `f`, the parser that
/// continues on the remainder.
pub fn bind<P: Parser, F: ParserBuilder<P::O>>(p: P, f: F) -> (r: Bind<P, F>)
    ensures
        r == (Bind(p, f)),
{
    Bind(p, f)
}

/// Transform `p`'s output with a pure function.
pub fn map<P: Parser, F: Transform<P::O>>(p: P, f: F) -> (r: Mapped<P, F>)
    ensures
        r == (Mapped(p, f)),
{
    Mapped(p, f)
}

/// Sequence: run `p` for its effect, then `q`, keeping `q`'s output.
pub fn seq<P: Parser, Q: Parser>(p: P, q: Q) -> (r: Sequence<P, Q>)
    ensures
        r == (Sequence(p, q)),
{
    Sequence(p, q)
}

/// Wrap an output and a remainder position as a successful result.
pub fn ok<T>(t: T, rest: usize) -> (r: ParserResult<T>)
    ensures
        r == Ok::<(T, usize), ParseError>((t, rest)),
{
    Ok((t, rest))
}

/// The pure-value parser: always succeeds with its value, consuming nothing.
#[derive(Clone, Copy)]
pub struct Return<T>(pub T);

impl<T: Copy + DeepView> Parser for Return<T> {
    type O = T;

    open spec fn result_of(&self, s: Seq<u8>, pos: int) -> Result<(T::V, int), ParseError> {
        Ok((self.0.deep_view(), pos))
    }

    proof fn lemma_result_bounds(&self, s: Seq<u8>, pos: int) {
    }

    fn parse_b(&self, s: &[u8], pos: usize) -> ParserResult<T> {
        Ok((self.0, pos))
    }
}

/// Lift a value into the parser world without consuming input.
pub fn ret<T: Copy + DeepView>(t: T) -> (r: Return<T>)
    ensures
        r == (Return(t)),
{
    Return(t)
}

/// The literal-byte parser: consumes exactly one byte equal to its byte.
#[derive(Clone, Copy)]
pub struct Char(pub u8);

impl Parser for Char {
    type O = ();

    open spec fn result_of(&self, s: Seq<u8>, pos: int) -> Result<((), int), ParseError> {
        if pos >= s.len() {
            Err(ParseError::UnexpectedEndOfInput { expected: self.0 })
        } else if s[pos] == self.0 {
            Ok(((), pos + 1))
        } else {
            Err(ParseError::UnexpectedByte { expected: self.0, found: s[pos] })
        }
    }

    proof fn lemma_result_bounds(&self, s: Seq<u8>, pos: int) {
    }

    fn parse_b(&self, s: &[u8], pos: usize) -> ParserResult<()> {
        if pos >= s.len() {
            Err(ParseError::UnexpectedEndOfInput { expected: self.0 })
        } else {
            let c = s[pos];
            if c == self.0 {
                Ok(((), pos + 1))
            } else {
                Err(ParseError::UnexpectedByte { expected: self.0, found: c })
            }
        }
    }
}

/// A parser that consumes one byte, `c` itself.
pub fn char(c: u8) -> (r: Char)
    ensures
        r == (Char(c)),
{
    Char(c)
}

/// Where a literal stands against the input: scanning `lit` against `s` from
/// `pos + i`, the first divergence is the failure, and full agreement
/// consumes the whole literal. Meaningful when the input holds at least
/// `lit.len()` bytes past `pos`.
pub open spec fn literal_scan(lit: Seq<u8>, s: Seq<u8>, pos: int, i: int) -> Result<
    ((), int),
    ParseError,
>
    decreases lit.len() - i,
{
    if i < 0 || i >= lit.len() {
        Ok(((), pos + lit.len()))
    } else if s[pos + i] != lit[i] {
        Err(ParseError::LiteralMismatch { expected: lit[i], found: s[pos + i], at: i as usize })
    } else {
        literal_scan(lit, s, pos, i + 1)
    }
}

/// The literal-string parser: consumes its literal byte for byte, and fails
/// at the first divergence or on insufficient input.
#[derive(Clone)]
pub struct Chars(pub Vec<u8>);

impl Parser for Chars {
    type O = ();

    open spec fn result_of(&self, s: Seq<u8>, pos: int) -> Result<((), int), ParseError> {
        if pos + self.0@.len() > s.len() {
            Err(ParseError::LiteralOutOfInput {
                needed: self.0@.len() as usize,
                available: (s.len() - pos) as usize,
            })
        } else {
            literal_scan(self.0@, s, pos, 0)
        }
    }

    proof fn lemma_result_bounds(&self, s: Seq<u8>, pos: int) {
        if pos + self.0@.len() <= s.len() {
            lemma_literal_scan_bounds(self.0@, s, pos, 0);
        }
    }

    fn parse_b(&self, s: &[u8], pos: usize) -> ParserResult<()> {
        let n = self.0.len();
        if s.len() - pos < n {
            return Err(ParseError::LiteralOutOfInput { needed: n, available: s.len() - pos });
        }
        let mut i: usize = 0;
        while i < n
            invariant
                i <= n,
                n == self.0@.len(),
                pos + n <= s@.len(),
                s@.len() <= usize::MAX,
                literal_scan(self.0@, s@, pos as int, 0) == literal_scan(
                    self.0@,
                    s@,
                    pos as int,
                    i as int,
                ),
            decreases n - i,
        {
            let expected = self.0[i];
            let found = s[pos + i];
            if found != expected {
                return Err(ParseError::LiteralMismatch { expected, found, at: i });
            }
            i = i + 1;
        }
        Ok(((), pos + n))
    }
}

/// Consumption by `literal_scan` stays within the input.
proof fn lemma_literal_scan_bounds(lit: Seq<u8>, s: Seq<u8>, pos: int, i: int)
    requires
        0 <= pos,
        pos + lit.len() <= s.len(),
        0 <= i,
    ensures
        match literal_scan(lit, s, pos, i) {
            Ok((v, rest)) => pos <= rest <= s.len(),
            Err(_) => true,
        },
    decreases lit.len() - i,
{
    if i < lit.len() && s[pos + i] == lit[i] {
        lemma_literal_scan_bounds(lit, s, pos, i + 1);
    }
}

/// A parser that consumes exactly the bytes of `s`, in order.
pub fn string(s: &str) -> (r: Chars)
    ensures
        r.0@ == s.spec_bytes(),
{
    Chars(slice_to_vec(s.as_bytes()))
}

/// A pure, total predicate on bytes, for the greedy prefix combinator. The
/// executable test must agree with its specification on every byte: purity is
/// an explicit part of the interface, since backtracking and error recovery
/// rely on re-running predicates without observable effects.
pub trait BytePredicate: Sized {
    /// What the predicate holds of a byte.
    spec fn spec_test(&self, c: u8) -> bool;

    /// Decide the predicate on one byte.
    fn test(&self, c: u8) -> (r: bool)
        ensures
            r == self.spec_test(c),
    ;
}

/// A pure, total function from one parser output to another, for `map`. The
/// executable transformation must agree with its specification on every
/// input.
pub trait Transform<In: DeepView>: Sized {
    /// The transformed output type.
    type Out: DeepView;

    /// What the transform yields, on views of the values.
    spec fn spec_apply(&self, x: In::V) -> <Self::Out as DeepView>::V;

    /// Apply the transform to one output.
    fn apply(&self, x: In) -> (r: Self::Out)
        ensures
            r.deep_view() == self.spec_apply(x.deep_view()),
    ;
}

/// A pure, total binary function combining two parser outputs, for the
/// pairing combinator.
pub trait Combine2<A: DeepView, B: DeepView>: Sized {
    /// The combined output type.
    type Out: DeepView;

    /// What the combination yields, on views of the values.
    spec fn spec_combine(&self, a: A::V, b: B::V) -> <Self::Out as DeepView>::V;

    /// Combine the two outputs.
    fn combine(&self, a: A, b: B) -> (r: Self::Out)
        ensures
            r.deep_view() == self.spec_combine(a.deep_view(), b.deep_view()),
    ;
}

/// A pure function from a parser output to the next parser, for `bind`: the
/// mechanism for data-dependent grammars. `spec_result` fixes, for each bound
/// value, what the built parser yields on every buffer and position, so a
/// bound chain is as referentially transparent as its links.
pub trait ParserBuilder<In: DeepView>: Sized {
    /// The type of parser built from a bound value.
    type P: Parser;

    /// What the built parser yields on buffer `s` at position `pos`, given
    /// the view `x` of the bound value.
    spec fn spec_result(&self, x: In::V, s: Seq<u8>, pos: int) -> Result<
        (<<Self::P as Parser>::O as DeepView>::V, int),
        ParseError,
    >;

    /// Built parsers keep the remainder a suffix of their input too.
    proof fn lemma_spec_result_bounds(&self, x: In::V, s: Seq<u8>, pos: int)
        requires
            0 <= pos <= s.len(),
        ensures
            match self.spec_result(x, s, pos) {
                Ok((v, rest)) => pos <= rest <= s.len(),
                Err(_) => true,
            },
    ;

    /// Build the next parser from a bound value.
    fn build(&self, x: In) -> (r: Self::P)
        ensures
            forall|s: Seq<u8>, pos: int| #[trigger]
                r.result_of(s, pos) == self.spec_result(x.deep_view(), s, pos),
    ;
}

/// Run the first parser, discard its output, then run the second on the
/// remainder; the second's output and remainder are the result. The first
/// failure aborts the chain.
#[derive(Clone, Copy)]
pub struct Sequence<P, Q>(pub P, pub Q);

impl<P: Parser, Q: Parser> Parser for Sequence<P, Q> {
    type O = Q::O;

    open spec fn result_of(&self, s: Seq<u8>, pos: int) -> Result<
        (<Q::O as DeepView>::V, int),
        ParseError,
    > {
        match self.0.result_of(s, pos) {
            Ok((v, rest)) => self.1.result_of(s, rest),
            Err(e) => Err(e),
        }
    }

    proof fn lemma_result_bounds(&self, s: Seq<u8>, pos: int) {
        self.0.lemma_result_bounds(s, pos);
        match self.0.result_of(s, pos) {
            Ok((v, rest)) => self.1.lemma_result_bounds(s, rest),
            Err(_) => {},
        }
    }

    fn parse_b(&self, s: &[u8], pos: usize) -> ParserResult<Q::O> {
        match self.0.parse_b(s, pos) {
            Ok((_, rest)) => self.1.parse_b(s, rest),
            Err(e) => Err(e),
        }
    }
}

/// Run the first parser, build the next parser from its output, and run that
/// on the remainder. On the first parser's failure the builder is never
/// consulted.
#[derive(Clone, Copy)]
pub struct Bind<P, F>(pub P, pub F);

impl<P: Parser, F: ParserBuilder<P::O>> Parser for Bind<P, F> {
    type O = <F::P as Parser>::O;

    open spec fn result_of(&self, s: Seq<u8>, pos: int) -> Result<
        (<<F::P as Parser>::O as DeepView>::V, int),
        ParseError,
    > {
        match self.0.result_of(s, pos) {
            Ok((v, rest)) => self.1.spec_result(v, s, rest),
            Err(e) => Err(e),
        }
    }

    proof fn lemma_result_bounds(&self, s: Seq<u8>, pos: int) {
        self.0.lemma_result_bounds(s, pos);
        match self.0.result_of(s, pos) {
            Ok((v, rest)) => self.1.lemma_spec_result_bounds(v, s, rest),
            Err(_) => {},
        }
    }

    fn parse_b(&self, s: &[u8], pos: usize) -> ParserResult<<F::P as Parser>::O> {
        match self.0.parse_b(s, pos) {
            Ok((v, rest)) => {
                let q = self.1.build(v);
                q.parse_b(s, rest)
            },
            Err(e) => Err(e),
        }
    }
}

/// Run the parser, then transform its output; remainder and failures pass
/// through unchanged.
#[derive(Clone, Copy)]
pub struct Mapped<P, F>(pub P, pub F);

impl<P: Parser, F: Transform<P::O>> Parser for Mapped<P, F> {
    type O = F::Out;

    open spec fn result_of(&self, s: Seq<u8>, pos: int) -> Result<
        (<F::Out as DeepView>::V, int),
        ParseError,
    > {
        match self.0.result_of(s, pos) {
            Ok((v, rest)) => Ok((self.1.spec_apply(v), rest)),
            Err(e) => Err(e),
        }
    }

    proof fn lemma_result_bounds(&self, s: Seq<u8>, pos: int) {
        self.0.lemma_result_bounds(s, pos);
    }

    fn parse_b(&self, s: &[u8], pos: usize) -> ParserResult<F::Out> {
        match self.0.parse_b(s, pos) {
            Ok((v, rest)) => Ok((self.1.apply(v), rest)),
            Err(e) => Err(e),
        }
    }
}

/// Run two parsers in order and combine both outputs with a binary function.
/// Whichever of the two fails first aborts the pair; no partial combination
/// occurs.
#[derive(Clone, Copy)]
pub struct Map2<P, Q, F>(pub P, pub Q, pub F);

impl<P: Parser, Q: Parser, F: Combine2<P::O, Q::O>> Parser for Map2<P, Q, F> {
    type O = F::Out;

    open spec fn result_of(&self, s: Seq<u8>, pos: int) -> Result<
        (<F::Out as DeepView>::V, int),
        ParseError,
    > {
        match self.0.result_of(s, pos) {
            Ok((a, rest1)) => match self.1.result_of(s, rest1) {
                Ok((b, rest2)) => Ok((self.2.spec_combine(a, b), rest2)),
                Err(e) => Err(e),
            },
            Err(e) => Err(e),
        }
    }

    proof fn lemma_result_bounds(&self, s: Seq<u8>, pos: int) {
        self.0.lemma_result_bounds(s, pos);
        match self.0.result_of(s, pos) {
            Ok((a, rest1)) => self.1.lemma_result_bounds(s, rest1),
            Err(_) => {},
        }
    }

    fn parse_b(&self, s: &[u8], pos: usize) -> ParserResult<F::Out> {
        match self.0.parse_b(s, pos) {
            Ok((a, rest1)) => match self.1.parse_b(s, rest1) {
                Ok((b, rest2)) => Ok((self.2.combine(a, b), rest2)),
                Err(e) => Err(e),
            },
            Err(e) => Err(e),
        }
    }
}

/// Pair-combination sugar: a tuple of two parsers combines into a [`Map2`].
pub trait Applicative<F>: Sized {
    /// The combined parser type.
    type M;

    /// The combined parser value.
    spec fn combined(self, f: F) -> Self::M;

    /// Combine the parsers of this pair with the binary function `f`.
    fn map(self, f: F) -> (r: Self::M)
        ensures
            r == self.combined(f),
    ;
}

impl<P: Parser, Q: Parser, F: Combine2<P::O, Q::O>> Applicative<F> for (P, Q) {
    type M = Map2<P, Q, F>;

    open spec fn combined(self, f: F) -> Map2<P, Q, F> {
        Map2(self.0, self.1, f)
    }

    fn map(self, f: F) -> (r: Map2<P, Q, F>) {
        Map2(self.0, self.1, f)
    }
}

/// Builder that ignores the bound value and continues with a fixed parser:
/// `bind` with it behaves as [`Sequence`].
#[derive(Clone, Copy)]
pub struct Always<Q>(pub Q);

impl<In: DeepView, Q: Parser + Copy> ParserBuilder<In> for Always<Q> {
    type P = Q;

    open spec fn spec_result(&self, x: In::V, s: Seq<u8>, pos: int) -> Result<
        (<Q::O as DeepView>::V, int),
        ParseError,
    > {
        self.0.result_of(s, pos)
    }

    proof fn lemma_spec_result_bounds(&self, x: In::V, s: Seq<u8>, pos: int) {
        self.0.lemma_result_bounds(s, pos);
    }

    fn build(&self, x: In) -> (r: Q) {
        self.0
    }
}

/// Builder that lifts the bound value back into a pure parser: `bind` with it
/// re-emits the value and consumes nothing more.
#[derive(Clone, Copy)]
pub struct LiftValue;

impl<T: Copy + DeepView> ParserBuilder<T> for LiftValue {
    type P = Return<T>;

    open spec fn spec_result(&self, x: T::V, s: Seq<u8>, pos: int) -> Result<
        (T::V, int),
        ParseError,
    > {
        Ok((x, pos))
    }

    proof fn lemma_spec_result_bounds(&self, x: T::V, s: Seq<u8>, pos: int) {
    }

    fn build(&self, x: T) -> (r: Return<T>) {
        Return(x)
    }
}

/// Combiner that pairs the two outputs.
#[derive(Clone, Copy)]
pub struct PairUp;

impl<A: DeepView, B: DeepView> Combine2<A, B> for PairUp {
    type Out = (A, B);

    open spec fn spec_combine(&self, a: A::V, b: B::V) -> (A::V, B::V) {
        (a, b)
    }

    fn combine(&self, a: A, b: B) -> (r: (A, B)) {
        (a, b)
    }
}

/// Combiner that joins two spans from consecutive parses into the span of the
/// whole consumed region.
#[derive(Clone, Copy)]
pub struct JoinSpans;

impl Combine2<Span, Span> for JoinSpans {
    type Out = Span;

    open spec fn spec_combine(&self, a: Span, b: Span) -> Span {
        Span { start: a.start, end: b.end }
    }

    fn combine(&self, a: Span, b: Span) -> (r: Span) {
        Span { start: a.start, end: b.end }
    }
}

/// Transform that measures a span: the number of bytes it designates.
#[derive(Clone, Copy)]
pub struct SpanLength;

impl Transform<Span> for SpanLength {
    type Out = usize;

    open spec fn spec_apply(&self, x: Span) -> usize {
        if x.start <= x.end {
            (x.end - x.start) as usize
        } else {
            0
        }
    }

    fn apply(&self, x: Span) -> (r: usize) {
        if x.start <= x.end {
            x.end - x.start
        } else {
            0
        }
    }
}

} // verus!
