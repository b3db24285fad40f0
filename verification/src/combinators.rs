//! The repetition combinators: bounded repetition, zero-or-more and
//! one-or-more loops, the greedy predicate prefix, and optional backtracking.
//!
//! All of them report the consumed region as a [`Span`] into the original
//! buffer (or, for the collecting forms, the list of iteration outputs):
//! nothing is copied. Their error-recovery behaviour — `many1` failing with
//! exactly the failure its child produces on the untouched input, `option`
//! handing back the original position — is sound because every parser equals
//! its `result_of` on each invocation.

use crate::parser::BytePredicate;
use crate::parser::ParseError;
use crate::parser::Parser;
use crate::parser::ParserResult;
use crate::parser::Span;
use vstd::prelude::*;

verus! {

/// The position after running `p` exactly `n` times in sequence from `pos`,
/// or the failure of the first iteration that fails. Zero (or fewer)
/// repetitions consume nothing and cannot fail.
pub open spec fn count_end<P: Parser>(p: P, n: int, s: Seq<u8>, pos: int) -> Result<
    int,
    ParseError,
>
    decreases n,
{
    if n <= 0 {
        Ok(pos)
    } else {
        match p.result_of(s, pos) {
            Ok((v, rest)) => count_end(p, n - 1, s, rest),
            Err(e) => Err(e),
        }
    }
}

/// `count_end` keeps the final position a suffix position of its input.
pub proof fn lemma_count_end_bounds<P: Parser>(p: P, n: int, s: Seq<u8>, pos: int)
    requires
        0 <= pos <= s.len(),
    ensures
        match count_end(p, n, s, pos) {
            Ok(end) => pos <= end <= s.len(),
            Err(_) => true,
        },
    decreases n,
{
    if n > 0 {
        p.lemma_result_bounds(s, pos);
        match p.result_of(s, pos) {
            Ok((v, rest)) => lemma_count_end_bounds(p, n - 1, s, rest),
            Err(_) => {},
        }
    }
}

/// Run a parser exactly `n` times in sequence, each iteration against the
/// prior one's remainder; the output is the span of the whole consumed
/// region. The first failing iteration's failure propagates immediately; `n`
/// of zero (or less) succeeds trivially, consuming nothing.
#[derive(Clone, Copy)]
pub struct Count<P>(pub i32, pub P);

impl<P: Parser> Parser for Count<P> {
    type O = Span;

    open spec fn result_of(&self, s: Seq<u8>, pos: int) -> Result<(Span, int), ParseError> {
        match count_end(self.1, self.0 as int, s, pos) {
            Ok(end) => Ok((Span { start: pos as usize, end: end as usize }, end)),
            Err(e) => Err(e),
        }
    }

    proof fn lemma_result_bounds(&self, s: Seq<u8>, pos: int) {
        lemma_count_end_bounds(self.1, self.0 as int, s, pos);
    }

    fn parse_b(&self, s: &[u8], pos: usize) -> ParserResult<Span> {
        let n = self.0;
        let mut k: i32 = 0;
        let mut cur: usize = pos;
        while k < n
            invariant
                n == self.0,
                pos <= cur <= s@.len(),
                0 <= k,
                n > 0 ==> k <= n,
                n <= 0 ==> k == 0,
                count_end(self.1, n as int, s@, pos as int) == count_end(
                    self.1,
                    n as int - k as int,
                    s@,
                    cur as int,
                ),
            decreases n - k,
        {
            match self.1.parse_b(s, cur) {
                Ok((_, next)) => {
                    cur = next;
                    k = k + 1;
                },
                Err(e) => {
                    proof {
                        assert(count_end(self.1, n as int - k as int, s@, cur as int) == Err::<
                            int,
                            ParseError,
                        >(e));
                        assert(count_end(self.1, self.0 as int, s@, pos as int) == Err::<
                            int,
                            ParseError,
                        >(e));
                        assert(self.result_of(s@, pos as int) == (match count_end(
                            self.1,
                            self.0 as int,
                            s@,
                            pos as int,
                        ) {
                            Ok(end) => Ok::<(Span, int), ParseError>(
                                (Span { start: pos as usize, end: end as usize }, end),
                            ),
                            Err(e2) => Err::<(Span, int), ParseError>(e2),
                        }));
                        assert(self.result_of(s@, pos as int) == Err::<(Span, int), ParseError>(e));
                    }
                    return Err(e);
                },
            }
        }
        proof {
            assert(count_end(self.1, n as int - k as int, s@, cur as int) == Ok::<
                int,
                ParseError,
            >(cur as int));
            assert(count_end(self.1, self.0 as int, s@, pos as int) == Ok::<int, ParseError>(
                cur as int,
            ));
            assert(self.result_of(s@, pos as int) == Ok::<(Span, int), ParseError>(
                (Span { start: pos, end: cur }, cur as int),
            ));
            assert((Span { start: pos, end: cur }).deep_view() == Span { start: pos, end: cur });
        }
        Ok((Span { start: pos, end: cur }, cur))
    }
}

/// A parser running `p` exactly `i` times in sequence.
pub fn count<P: Parser>(i: i32, p: P) -> (r: Count<P>)
    ensures
        r == (Count(i, p)),
{
    Count(i, p)
}

/// The position where repetition of `p` from `pos` stops: the first position
/// where `p` fails or no longer makes progress.
pub open spec fn many_end<P: Parser>(p: P, s: Seq<u8>, pos: int) -> int
    decreases s.len() - pos,
{
    if 0 <= pos <= s.len() {
        match p.result_of(s, pos) {
            Ok((v, rest)) => if pos < rest <= s.len() {
                many_end(p, s, rest)
            } else {
                pos
            },
            Err(_) => pos,
        }
    } else {
        pos
    }
}

/// Where repetition stops lies between the start and the end of the input.
pub proof fn lemma_many_end_bounds<P: Parser>(p: P, s: Seq<u8>, pos: int)
    requires
        0 <= pos <= s.len(),
    ensures
        pos <= many_end(p, s, pos) <= s.len(),
    decreases s.len() - pos,
{
    match p.result_of(s, pos) {
        Ok((v, rest)) => {
            if pos < rest <= s.len() {
                lemma_many_end_bounds(p, s, rest);
            }
        },
        Err(_) => {},
    }
}

/// Repeat a parser against the current remainder until it fails (or stops
/// consuming), returning the span of the whole consumed region. The flag says
/// whether zero matched repetitions are a success: with it (`many`) an empty
/// span is returned; without it (`many1`) the combinator fails with exactly
/// the failure the child parser produces on the untouched original input.
#[derive(Clone, Copy)]
pub struct ManySlice<P>(pub P, pub bool);

impl<P: Parser> Parser for ManySlice<P> {
    type O = Span;

    open spec fn result_of(&self, s: Seq<u8>, pos: int) -> Result<(Span, int), ParseError> {
        match self.0.result_of(s, pos) {
            Err(e) => if self.1 {
                Ok((Span { start: pos as usize, end: pos as usize }, pos))
            } else {
                Err(e)
            },
            Ok(_) => {
                let end = many_end(self.0, s, pos);
                Ok((Span { start: pos as usize, end: end as usize }, end))
            },
        }
    }

    proof fn lemma_result_bounds(&self, s: Seq<u8>, pos: int) {
        lemma_many_end_bounds(self.0, s, pos);
    }

    fn parse_b(&self, s: &[u8], pos: usize) -> ParserResult<Span> {
        let mut cur: usize = pos;
        loop
            invariant
                pos <= cur <= s@.len(),
                many_end(self.0, s@, pos as int) == many_end(self.0, s@, cur as int),
                cur != pos ==> self.0.result_of(s@, pos as int) is Ok,
            ensures
                pos <= cur <= s@.len(),
                cur as int == many_end(self.0, s@, pos as int),
                cur != pos ==> self.0.result_of(s@, pos as int) is Ok,
                cur == pos ==> (self.0.result_of(s@, pos as int) matches Err(e) ==> self.1),
            decreases s@.len() - cur,
        {
            match self.0.parse_b(s, cur) {
                Ok((_, next)) => {
                    if next == cur {
                        break ;
                    }
                    cur = next;
                },
                Err(e) => {
                    if cur == pos && !self.1 {
                        proof {
                            assert(self.result_of(s@, pos as int) == Err::<
                                (Span, int),
                                ParseError,
                            >(e));
                        }
                        return Err(e);
                    }
                    break ;
                },
            }
        }
        proof {
            assert(self.result_of(s@, pos as int) == (match self.0.result_of(s@, pos as int) {
                Err(e) => if self.1 {
                    Ok::<(Span, int), ParseError>(
                        (Span { start: pos as usize, end: pos as usize }, pos as int),
                    )
                } else {
                    Err::<(Span, int), ParseError>(e)
                },
                Ok(_) => {
                    let stop = many_end(self.0, s@, pos as int);
                    Ok::<(Span, int), ParseError>(
                        (Span { start: pos as usize, end: stop as usize }, stop),
                    )
                },
            }));
            assert(self.result_of(s@, pos as int) == Ok::<(Span, int), ParseError>(
                (Span { start: pos, end: cur }, cur as int),
            ));
            assert((Span { start: pos, end: cur }).deep_view() == Span { start: pos, end: cur });
        }
        Ok((Span { start: pos, end: cur }, cur))
    }
}

/// Repeat `p` zero or more times, yielding the consumed span (possibly
/// empty).
pub fn many<P: Parser>(p: P) -> (r: ManySlice<P>)
    ensures
        r == (ManySlice(p, true)),
{
    ManySlice(p, true)
}

/// Repeat `p` one or more times, yielding the consumed span; zero matches
/// fail with `p`'s own failure.
pub fn many1<P: Parser>(p: P) -> (r: ManySlice<P>)
    ensures
        r == (ManySlice(p, false)),
{
    ManySlice(p, false)
}

/// The outputs of the repetitions of `p` from `pos`, in order, up to where
/// repetition stops.
pub open spec fn many_items<P: Parser>(p: P, s: Seq<u8>, pos: int) -> Seq<
    <P::O as DeepView>::V,
>
    decreases s.len() - pos,
{
    if 0 <= pos <= s.len() {
        match p.result_of(s, pos) {
            Ok((v, rest)) => if pos < rest <= s.len() {
                seq![v] + many_items(p, s, rest)
            } else {
                Seq::empty()
            },
            Err(_) => Seq::empty(),
        }
    } else {
        Seq::empty()
    }
}

/// Pushing onto a vector appends the element's view to the vector's deep
/// view.
proof fn lemma_deep_view_push<T: DeepView>(pre: Seq<T>, post: Seq<T>, x: T)
    requires
        post == pre.push(x),
    ensures
        Seq::new(post.len(), |i: int| post[i].deep_view()) == Seq::new(
            pre.len(),
            |i: int| pre[i].deep_view(),
        ).push(x.deep_view()),
{
    assert(Seq::new(post.len(), |i: int| post[i].deep_view()) =~= Seq::new(
        pre.len(),
        |i: int| pre[i].deep_view(),
    ).push(x.deep_view()));
}

/// Like [`ManySlice`], but collecting each iteration's output into a vector
/// instead of returning the consumed span.
#[derive(Clone, Copy)]
pub struct ManyVec<P>(pub P, pub bool);

impl<P: Parser> Parser for ManyVec<P> {
    type O = Vec<P::O>;

    open spec fn result_of(&self, s: Seq<u8>, pos: int) -> Result<
        (Seq<<P::O as DeepView>::V>, int),
        ParseError,
    > {
        match self.0.result_of(s, pos) {
            Err(e) => if self.1 {
                Ok((Seq::empty(), pos))
            } else {
                Err(e)
            },
            Ok(_) => Ok((many_items(self.0, s, pos), many_end(self.0, s, pos))),
        }
    }

    proof fn lemma_result_bounds(&self, s: Seq<u8>, pos: int) {
        lemma_many_end_bounds(self.0, s, pos);
    }

    fn parse_b(&self, s: &[u8], pos: usize) -> ParserResult<Vec<P::O>> {
        let mut cur: usize = pos;
        let mut results: Vec<P::O> = Vec::new();
        proof {
            assert(results.deep_view() =~= Seq::<<P::O as DeepView>::V>::empty());
        }
        loop
            invariant
                pos <= cur <= s@.len(),
                many_end(self.0, s@, pos as int) == many_end(self.0, s@, cur as int),
                many_items(self.0, s@, pos as int) == results.deep_view() + many_items(
                    self.0,
                    s@,
                    cur as int,
                ),
                cur != pos ==> self.0.result_of(s@, pos as int) is Ok,
            ensures
                pos <= cur <= s@.len(),
                cur as int == many_end(self.0, s@, pos as int),
                results.deep_view() == many_items(self.0, s@, pos as int),
                cur != pos ==> self.0.result_of(s@, pos as int) is Ok,
                cur == pos ==> (self.0.result_of(s@, pos as int) matches Err(e) ==> self.1),
            decreases s@.len() - cur,
        {
            let ghost pre = results@;
            let ghost items_before = many_items(self.0, s@, cur as int);
            match self.0.parse_b(s, cur) {
                Ok((v, next)) => {
                    if next == cur {
                        break ;
                    }
                    proof {
                        lemma_deep_view_push(pre, pre.push(v), v);
                        assert(items_before == seq![v.deep_view()] + many_items(
                            self.0,
                            s@,
                            next as int,
                        ));
                        assert(results.deep_view() + items_before == (results.deep_view() + seq![
                            v.deep_view(),
                        ]) + many_items(self.0, s@, next as int)) by {
                            assert(results.deep_view() + (seq![v.deep_view()] + many_items(
                                self.0,
                                s@,
                                next as int,
                            )) =~= (results.deep_view() + seq![v.deep_view()]) + many_items(
                                self.0,
                                s@,
                                next as int,
                            ));
                        }
                        assert(results.deep_view() + seq![v.deep_view()] =~= results.deep_view().push(
                            v.deep_view(),
                        ));
                    }
                    results.push(v);
                    cur = next;
                },
                Err(e) => {
                    if cur == pos && !self.1 {
                        return Err(e);
                    }
                    break ;
                },
            }
        }
        proof {
            assert(many_items(self.0, s@, cur as int) =~= Seq::<<P::O as DeepView>::V>::empty());
            assert(results.deep_view() + Seq::<<P::O as DeepView>::V>::empty() =~= results.deep_view());
        }
        Ok((results, cur))
    }
}

/// Collect zero or more repetitions of `p` into the ordered list of their
/// outputs.
pub fn collect_many<P: Parser>(p: P) -> (r: ManyVec<P>)
    ensures
        r == (ManyVec(p, true)),
{
    ManyVec(p, true)
}

/// Collect one or more repetitions of `p`; zero matches fail with `p`'s own
/// failure.
pub fn collect_many1<P: Parser>(p: P) -> (r: ManyVec<P>)
    ensures
        r == (ManyVec(p, false)),
{
    ManyVec(p, false)
}

/// The position where the greedy scan for `f` from `pos` stops: the first
/// position whose byte fails the predicate, or the end of the input.
pub open spec fn take_while_end<F: BytePredicate>(f: F, s: Seq<u8>, pos: int) -> int
    decreases s.len() - pos,
{
    if 0 <= pos < s.len() && f.spec_test(s[pos]) {
        take_while_end(f, s, pos + 1)
    } else {
        pos
    }
}

/// The greedy scan stops between the start and the end of the input.
pub proof fn lemma_take_while_end_bounds<F: BytePredicate>(f: F, s: Seq<u8>, pos: int)
    requires
        0 <= pos <= s.len(),
    ensures
        pos <= take_while_end(f, s, pos) <= s.len(),
    decreases s.len() - pos,
{
    if pos < s.len() && f.spec_test(s[pos]) {
        lemma_take_while_end_bounds(f, s, pos + 1);
    }
}

/// Scan the view from the start, consuming the maximal prefix of bytes
/// satisfying the predicate; the output is the span of that prefix. A
/// zero-length match is always an error for this combinator — it never
/// represents "optional".
#[derive(Clone, Copy)]
pub struct TakeWhile<F>(pub F);

impl<F: BytePredicate> Parser for TakeWhile<F> {
    type O = Span;

    open spec fn result_of(&self, s: Seq<u8>, pos: int) -> Result<(Span, int), ParseError> {
        let end = take_while_end(self.0, s, pos);
        if end == pos {
            Err(ParseError::PredicateNeverMatched)
        } else {
            Ok((Span { start: pos as usize, end: end as usize }, end))
        }
    }

    proof fn lemma_result_bounds(&self, s: Seq<u8>, pos: int) {
        lemma_take_while_end_bounds(self.0, s, pos);
    }

    fn parse_b(&self, s: &[u8], pos: usize) -> ParserResult<Span> {
        let mut end: usize = pos;
        loop
            invariant
                pos <= end <= s@.len(),
                take_while_end(self.0, s@, pos as int) == take_while_end(self.0, s@, end as int),
            ensures
                pos <= end <= s@.len(),
                end as int == take_while_end(self.0, s@, pos as int),
            decreases s@.len() - end,
        {
            if end >= s.len() {
                break ;
            }
            let c = s[end];
            if !self.0.test(c) {
                break ;
            }
            end = end + 1;
        }
        proof {
            assert(self.result_of(s@, pos as int) == ({
                let stop = take_while_end(self.0, s@, pos as int);
                if stop == pos as int {
                    Err::<(Span, int), ParseError>(ParseError::PredicateNeverMatched)
                } else {
                    Ok::<(Span, int), ParseError>(
                        (Span { start: pos as usize, end: stop as usize }, stop),
                    )
                }
            }));
        }
        if end == pos {
            Err(ParseError::PredicateNeverMatched)
        } else {
            proof {
                assert((Span { start: pos, end }).deep_view() == Span { start: pos, end });
            }
            Ok((Span { start: pos, end }, end))
        }
    }
}

/// A parser for the maximal non-empty prefix whose bytes satisfy `p`.
pub fn take_while<P: BytePredicate>(p: P) -> (r: TakeWhile<P>)
    ensures
        r == (TakeWhile(p)),
{
    TakeWhile(p)
}

/// Zero-or-one: wrap a parser so that its success is kept and its failure
/// backtracks. On the child's failure the remainder is the original,
/// untouched view with zero bytes consumed. Never fails.
#[derive(Clone, Copy)]
pub struct Optional<P>(pub P);

impl<P: Parser> Parser for Optional<P> {
    type O = Option<P::O>;

    open spec fn result_of(&self, s: Seq<u8>, pos: int) -> Result<
        (Option<<P::O as DeepView>::V>, int),
        ParseError,
    > {
        match self.0.result_of(s, pos) {
            Ok((v, rest)) => Ok((Some(v), rest)),
            Err(_) => Ok((None, pos)),
        }
    }

    proof fn lemma_result_bounds(&self, s: Seq<u8>, pos: int) {
        self.0.lemma_result_bounds(s, pos);
    }

    fn parse_b(&self, s: &[u8], pos: usize) -> ParserResult<Option<P::O>> {
        match self.0.parse_b(s, pos) {
            Ok((v, rest)) => {
                proof {
                    assert((Some(v)).deep_view() == Some(v.deep_view()));
                }
                Ok((Some(v), rest))
            },
            Err(_) => Ok((None, pos)),
        }
    }
}

/// A parser that attempts `p` and succeeds either way: with its output, or
/// with nothing and the input unconsumed.
pub fn option<P: Parser>(p: P) -> (r: Optional<P>)
    ensures
        r == (Optional(p)),
{
    Optional(p)
}

/// A predicate holding of the bytes from `lo` through `hi` inclusive: the
/// simplest building block for character classes such as the decimal digits.
#[derive(Clone, Copy)]
pub struct ByteRange {
    pub lo: u8,
    pub hi: u8,
}

impl BytePredicate for ByteRange {
    open spec fn spec_test(&self, c: u8) -> bool {
        self.lo <= c <= self.hi
    }

    fn test(&self, c: u8) -> (r: bool) {
        self.lo <= c && c <= self.hi
    }
}

/// A predicate holding of every byte but one: scanning up to a delimiter.
#[derive(Clone, Copy)]
pub struct NotByte(pub u8);

impl BytePredicate for NotByte {
    open spec fn spec_test(&self, c: u8) -> bool {
        c != self.0
    }

    fn test(&self, c: u8) -> (r: bool) {
        c != self.0
    }
}

} // verus!
