//! The laws the repetition and backtracking combinators obey, stated over
//! every parser, predicate, buffer and position, and proved from the
//! combinators' specifications alone.

use crate::combinators::Count;
use crate::combinators::ManySlice;
use crate::combinators::ManyVec;
use crate::combinators::Optional;
use crate::combinators::TakeWhile;
use crate::combinators::count_end;
use crate::combinators::take_while_end;
use crate::parser::BytePredicate;
use crate::parser::ParseError;
use crate::parser::Parser;
use crate::parser::Span;
use crate::parser::span_bytes;
use vstd::prelude::*;

verus! {

/// The greedy scan stays in bounds, every byte it passes satisfies the
/// predicate, and it stops only at the end of the input or at a byte that
/// fails the predicate.
proof fn lemma_take_while_end_props<F: BytePredicate>(f: F, s: Seq<u8>, pos: int)
    requires
        0 <= pos <= s.len(),
    ensures
        pos <= take_while_end(f, s, pos) <= s.len(),
        forall|i: int| pos <= i < take_while_end(f, s, pos) ==> #[trigger] f.spec_test(s[i]),
        take_while_end(f, s, pos) == s.len() || !f.spec_test(s[take_while_end(f, s, pos)]),
    decreases s.len() - pos,
{
    if pos < s.len() && f.spec_test(s[pos]) {
        lemma_take_while_end_props(f, s, pos + 1);
    }
}

/// `take_while` fails exactly when the view is empty or its first byte fails
/// the predicate; otherwise its output is the maximal prefix satisfying the
/// predicate and the remainder is the rest, so that output and remainder
/// together are the input.
pub proof fn lemma_take_while_characterizes<F: BytePredicate>(
    tw: &TakeWhile<F>,
    s: Seq<u8>,
    pos: int,
)
    requires
        0 <= pos <= s.len(),
        s.len() <= usize::MAX,
    ensures
        match tw.result_of(s, pos) {
            Err(e) => (pos == s.len() || !tw.0.spec_test(s[pos])) && e
                == ParseError::PredicateNeverMatched,
            Ok((sp, rest)) => {
                &&& pos < s.len() && tw.0.spec_test(s[pos])
                &&& sp.start == pos && sp.end == rest
                &&& pos < rest <= s.len()
                &&& (forall|i: int| pos <= i < rest ==> #[trigger] tw.0.spec_test(s[i]))
                &&& (rest == s.len() || !tw.0.spec_test(s[rest]))
                &&& span_bytes(s, sp) + s.subrange(rest, s.len() as int) == s.subrange(
                    pos,
                    s.len() as int,
                )
            },
        },
{
    lemma_take_while_end_props(tw.0, s, pos);
    let stop = take_while_end(tw.0, s, pos);
    if stop == pos {
        if pos < s.len() && tw.0.spec_test(s[pos]) {
            lemma_take_while_end_props(tw.0, s, pos + 1);
            assert(false);
        }
    } else {
        assert(tw.0.spec_test(s[pos]));
        assert(span_bytes(s, Span { start: pos as usize, end: stop as usize }) + s.subrange(
            stop,
            s.len() as int,
        ) =~= s.subrange(pos, s.len() as int));
    }
}

/// `many` never fails; where its child cannot match at the start, the output
/// is the empty span and the remainder is exactly the original input.
pub proof fn lemma_many_never_fails<P: Parser>(m: &ManySlice<P>, s: Seq<u8>, pos: int)
    requires
        m.1,
        0 <= pos <= s.len(),
    ensures
        m.result_of(s, pos) is Ok,
        m.0.result_of(s, pos) is Err ==> m.result_of(s, pos) == Ok::<(Span, int), ParseError>(
            (Span { start: pos as usize, end: pos as usize }, pos),
        ),
{
}

/// `collect_many` never fails; where its child cannot match at the start, the
/// output is the empty list and the remainder is exactly the original input.
pub proof fn lemma_collect_many_never_fails<P: Parser>(m: &ManyVec<P>, s: Seq<u8>, pos: int)
    requires
        m.1,
        0 <= pos <= s.len(),
    ensures
        m.result_of(s, pos) is Ok,
        m.0.result_of(s, pos) is Err ==> m.result_of(s, pos) == Ok::<
            (Seq<<P::O as DeepView>::V>, int),
            ParseError,
        >((Seq::empty(), pos)),
{
}

/// Where its child cannot match at the start, `many1` fails with exactly the
/// failure the child produces on the original input — not a failure of its
/// own making; where the child matches, `many1` succeeds.
pub proof fn lemma_many1_fails_as_child<P: Parser>(m: &ManySlice<P>, s: Seq<u8>, pos: int)
    requires
        !m.1,
        0 <= pos <= s.len(),
    ensures
        match m.0.result_of(s, pos) {
            Err(e) => m.result_of(s, pos) == Err::<(Span, int), ParseError>(e),
            Ok(_) => m.result_of(s, pos) is Ok,
        },
{
}

/// Where its child cannot match at the start, `collect_many1` fails with
/// exactly the failure the child produces on the original input.
pub proof fn lemma_collect_many1_fails_as_child<P: Parser>(m: &ManyVec<P>, s: Seq<u8>, pos: int)
    requires
        !m.1,
        0 <= pos <= s.len(),
    ensures
        match m.0.result_of(s, pos) {
            Err(e) => m.result_of(s, pos) == Err::<(Seq<<P::O as DeepView>::V>, int), ParseError>(
                e,
            ),
            Ok(_) => m.result_of(s, pos) is Ok,
        },
{
}

/// `option` never fails: on the child's success it wraps the output and
/// takes the child's remainder; on the child's failure it yields nothing and
/// the remainder is the original input with zero bytes consumed.
pub proof fn lemma_optional_never_fails<P: Parser>(o: &Optional<P>, s: Seq<u8>, pos: int)
    ensures
        o.result_of(s, pos) is Ok,
        match o.0.result_of(s, pos) {
            Err(_) => o.result_of(s, pos) == Ok::<
                (Option<<P::O as DeepView>::V>, int),
                ParseError,
            >((None, pos)),
            Ok((v, rest)) => o.result_of(s, pos) == Ok::<
                (Option<<P::O as DeepView>::V>, int),
                ParseError,
            >((Some(v), rest)),
        },
{
}

/// `count` of zero repetitions succeeds with an empty output and an unchanged
/// remainder, for every child parser and every input.
pub proof fn lemma_count_zero<P: Parser>(c: &Count<P>, s: Seq<u8>, pos: int)
    requires
        c.0 <= 0,
        0 <= pos <= s.len(),
    ensures
        c.result_of(s, pos) == Ok::<(Span, int), ParseError>(
            (Span { start: pos as usize, end: pos as usize }, pos),
        ),
{
}

/// `count` of one or more repetitions fails with its child's failure at the
/// first iteration that fails: a failing first iteration propagates verbatim,
/// and a succeeding first iteration reduces the count by one on the
/// remainder.
pub proof fn lemma_count_fails_at_first_failure<P: Parser>(c: &Count<P>, s: Seq<u8>, pos: int)
    requires
        c.0 > 0,
    ensures
        match c.1.result_of(s, pos) {
            Err(e) => c.result_of(s, pos) == Err::<(Span, int), ParseError>(e),
            Ok((v, rest)) => count_end(c.1, c.0 as int, s, pos) == count_end(
                c.1,
                c.0 as int - 1,
                s,
                rest,
            ),
        },
{
}

} // verus!
