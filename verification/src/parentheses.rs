//! Every phrase that the grammar accepts has its parentheses closed.
//!
//! An opening parenthesis that is not closed never yields a tree: within the
//! tokens of any phrase that a rule accepts, opening and closing parentheses
//! are equal in number.

use vstd::prelude::*;
use crate::parser::{
    atom, beyond, conjunction, conjunction_chain, equality, equality_chain, expression,
    expression_chain, lemma_rules_advance, unary, whole_expression, Parsed, Term,
};
use crate::tokenizer::Lexeme;

verus! {

/// What a lexeme adds to the number of parentheses that are open.
pub open spec fn opens(lexeme: Lexeme) -> int {
    match lexeme {
        Lexeme::LParen => 1,
        Lexeme::RParen => -1,
        _ => 0,
    }
}

/// The number of opening parentheses less the number of closing ones among
/// the lexemes of `ts` from position `from` up to, and without, position
/// `to`.
pub open spec fn unclosed(ts: Seq<Lexeme>, from: int, to: int) -> int
    decreases to - from,
{
    if to <= from {
        0
    } else {
        unclosed(ts, from, to - 1) + opens(ts[to - 1])
    }
}

/// The parentheses left open by two ranges that follow each other add up.
pub proof fn lemma_unclosed_adds_up(ts: Seq<Lexeme>, from: int, mid: int, to: int)
    requires
        from <= mid <= to,
    ensures
        unclosed(ts, from, to) == unclosed(ts, from, mid) + unclosed(ts, mid, to),
    decreases to - mid,
{
    if mid < to {
        lemma_unclosed_adds_up(ts, from, mid, to - 1);
    }
}

/// One lexeme leaves open what it opens.
proof fn lemma_unclosed_one(ts: Seq<Lexeme>, pos: int)
    ensures
        unclosed(ts, pos, pos + 1) == opens(ts[pos]),
{
    assert(unclosed(ts, pos, pos) == 0);
}

/// Whether an outcome that starts at `pos` is a failure or leaves no
/// parenthesis open.
pub open spec fn closes_all(ts: Seq<Lexeme>, pos: int, outcome: Parsed) -> bool {
    outcome matches Ok((_, end)) ==> pos <= end <= ts.len() && unclosed(ts, pos, end) == 0
}

/// Every phrase that a rule accepts has as many closing parentheses as
/// opening ones.
pub proof fn lemma_phrases_close_their_parentheses(ts: Seq<Lexeme>, pos: int)
    requires
        0 <= pos,
    ensures
        closes_all(ts, pos, atom(ts, pos)),
        closes_all(ts, pos, unary(ts, pos)),
        closes_all(ts, pos, equality(ts, pos)),
        closes_all(ts, pos, conjunction(ts, pos)),
        closes_all(ts, pos, expression(ts, pos)),
    decreases ts.len() - pos,
{
    lemma_rules_advance(ts, pos);
    if pos < ts.len() {
        lemma_unclosed_one(ts, pos);
        lemma_phrases_close_their_parentheses(ts, pos + 1);
        lemma_rules_advance(ts, pos + 1);
        if ts[pos] == Lexeme::LParen {
            if let Ok((_, end)) = expression(ts, pos + 1) {
                if end < ts.len() && ts[end] == Lexeme::RParen {
                    lemma_unclosed_one(ts, end);
                    lemma_unclosed_adds_up(ts, pos, pos + 1, end);
                    lemma_unclosed_adds_up(ts, pos, end, end + 1);
                }
            }
        }
        assert(closes_all(ts, pos, atom(ts, pos)));
        if ts[pos] == Lexeme::Not {
            if let Ok((_, end)) = atom(ts, pos + 1) {
                lemma_unclosed_adds_up(ts, pos, pos + 1, end);
            }
        }
        assert(closes_all(ts, pos, unary(ts, pos)));
        if let Ok((first, end)) = beyond(ts, pos, unary(ts, pos)) {
            lemma_repetitions_close_their_parentheses(ts, first, end);
            if let Ok((_, last)) = equality_chain(ts, first, end) {
                lemma_unclosed_adds_up(ts, pos, end, last);
            }
        }
        assert(closes_all(ts, pos, equality(ts, pos)));
        if let Ok((first, end)) = beyond(ts, pos, equality(ts, pos)) {
            lemma_repetitions_close_their_parentheses(ts, first, end);
            if let Ok((_, last)) = conjunction_chain(ts, first, end) {
                lemma_unclosed_adds_up(ts, pos, end, last);
            }
        }
        assert(closes_all(ts, pos, conjunction(ts, pos)));
        if let Ok((first, end)) = beyond(ts, pos, conjunction(ts, pos)) {
            lemma_repetitions_close_their_parentheses(ts, first, end);
            if let Ok((_, last)) = expression_chain(ts, first, end) {
                lemma_unclosed_adds_up(ts, pos, end, last);
            }
        }
    }
}

/// Every repetition that a rule accepts has as many closing parentheses as
/// opening ones.
pub proof fn lemma_repetitions_close_their_parentheses(ts: Seq<Lexeme>, left: Term, pos: int)
    requires
        0 <= pos <= ts.len(),
    ensures
        closes_all(ts, pos, equality_chain(ts, left, pos)),
        closes_all(ts, pos, conjunction_chain(ts, left, pos)),
        closes_all(ts, pos, expression_chain(ts, left, pos)),
    decreases ts.len() - pos,
{
    assert(unclosed(ts, pos, pos) == 0);
    if pos < ts.len() {
        lemma_unclosed_one(ts, pos);
        lemma_phrases_close_their_parentheses(ts, pos + 1);
        if ts[pos] == Lexeme::Equal || ts[pos] == Lexeme::NotEqual {
            if let Ok((right, end)) = beyond(ts, pos, unary(ts, pos + 1)) {
                let joined = if ts[pos] == Lexeme::Equal {
                    Term::Equal(Box::new(left), Box::new(right))
                } else {
                    Term::NotEqual(Box::new(left), Box::new(right))
                };
                lemma_repetitions_close_their_parentheses(ts, joined, end);
                lemma_unclosed_adds_up(ts, pos, pos + 1, end);
                if let Ok((_, last)) = equality_chain(ts, joined, end) {
                    lemma_unclosed_adds_up(ts, pos, end, last);
                }
            }
        }
        if ts[pos] == Lexeme::And {
            if let Ok((right, end)) = beyond(ts, pos, equality(ts, pos + 1)) {
                let joined = Term::And(Box::new(left), Box::new(right));
                lemma_repetitions_close_their_parentheses(ts, joined, end);
                lemma_unclosed_adds_up(ts, pos, pos + 1, end);
                if let Ok((_, last)) = conjunction_chain(ts, joined, end) {
                    lemma_unclosed_adds_up(ts, pos, end, last);
                }
            }
        }
        if ts[pos] == Lexeme::Or {
            if let Ok((right, end)) = beyond(ts, pos, conjunction(ts, pos + 1)) {
                let joined = Term::Or(Box::new(left), Box::new(right));
                lemma_repetitions_close_their_parentheses(ts, joined, end);
                lemma_unclosed_adds_up(ts, pos, pos + 1, end);
                if let Ok((_, last)) = expression_chain(ts, joined, end) {
                    lemma_unclosed_adds_up(ts, pos, end, last);
                }
            }
        }
    }
}

/// A token sequence in which opening and closing parentheses differ in number
/// is no expression.
pub proof fn lemma_unclosed_parenthesis_is_rejected(ts: Seq<Lexeme>)
    requires
        unclosed(ts, 0, ts.len() as int) != 0,
    ensures
        whole_expression(ts) is Err,
{
    lemma_phrases_close_their_parentheses(ts, 0);
}

} // verus!
