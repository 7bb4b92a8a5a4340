//! The written form of a term, and the proof that the parser reads it back.
//!
//! A term is written with the fewest parentheses that the grammar allows: an
//! operand is put in parentheses exactly where it binds more loosely than
//! the place in which it stands. That every term written in this way parses
//! back to itself shows that the grammar's rules give each operator the
//! precedence and the grouping that the written form assumes.

use vstd::prelude::*;
use crate::parser::{
    atom, beyond, closed_at, conjunction, conjunction_chain, continues, equality, equality_chain,
    expression, expression_chain, level_and, level_atom, level_equality, level_or, level_unary,
    unary, whole_expression, ParseError, Parsed, Term,
};
use crate::spelling::{lemma_stands_apart, quotable, spellable, stands_at};
use crate::tokenizer::Lexeme;

verus! {

/// The level at which the outermost operator of a term binds.
pub open spec fn strength(term: Term) -> int {
    match term {
        Term::Or(_, _) => level_or(),
        Term::And(_, _) => level_and(),
        Term::Equal(_, _) => level_equality(),
        Term::NotEqual(_, _) => level_equality(),
        Term::Not(_) => level_unary(),
        Term::Bool(_) => level_atom(),
        Term::Str(_) => level_atom(),
    }
}

/// The lexemes of `term` where a phrase of the level `level` is expected.
///
/// The left operand of a binary operator stands at the operator's own level,
/// the right operand one level tighter, and the operand of `!` at the level
/// of atoms. A term that binds more loosely than `level` is put in
/// parentheses.
pub open spec fn written(term: Term, level: int) -> Seq<Lexeme>
    decreases term,
{
    let bare = match term {
        Term::Bool(b) => seq![
            if b {
                Lexeme::True
            } else {
                Lexeme::False
            },
        ],
        Term::Str(s) => seq![Lexeme::StringLiteral(s)],
        Term::Not(operand) => seq![Lexeme::Not] + written(*operand, level_atom()),
        Term::Equal(l, r) => written(*l, level_equality()) + seq![Lexeme::Equal] + written(
            *r,
            level_unary(),
        ),
        Term::NotEqual(l, r) => written(*l, level_equality()) + seq![Lexeme::NotEqual] + written(
            *r,
            level_unary(),
        ),
        Term::And(l, r) => written(*l, level_and()) + seq![Lexeme::And] + written(
            *r,
            level_equality(),
        ),
        Term::Or(l, r) => written(*l, level_or()) + seq![Lexeme::Or] + written(*r, level_and()),
    };
    if strength(term) < level {
        seq![Lexeme::LParen] + bare + seq![Lexeme::RParen]
    } else {
        bare
    }
}

/// The grammar rule for the phrases of a level.
#[verifier::opaque]
pub open spec fn rule(level: int, ts: Seq<Lexeme>, pos: int) -> Parsed {
    if level == level_or() {
        expression(ts, pos)
    } else if level == level_and() {
        conjunction(ts, pos)
    } else if level == level_equality() {
        equality(ts, pos)
    } else if level == level_unary() {
        unary(ts, pos)
    } else {
        atom(ts, pos)
    }
}

/// The repetition of a level's rule after the operand `left`, which ends at
/// `pos`; the levels of `!` and of atoms have none.
#[verifier::opaque]
pub open spec fn repetition(level: int, ts: Seq<Lexeme>, left: Term, pos: int) -> Parsed {
    if level == level_or() {
        expression_chain(ts, left, pos)
    } else if level == level_and() {
        conjunction_chain(ts, left, pos)
    } else if level == level_equality() {
        equality_chain(ts, left, pos)
    } else {
        Ok((left, pos))
    }
}

/// A written term has at least one lexeme; it is written alike for a level
/// and for the next tighter one, unless it binds at that very level; for the
/// atoms it stands in parentheses, unless it is a literal.
proof fn lemma_written_shape(term: Term, level: int)
    ensures
        written(term, level).len() >= 1,
        strength(term) != level ==> written(term, level) == written(term, level + 1),
        level >= level_atom() && strength(term) < level_atom() ==> written(term, level)
            == seq![Lexeme::LParen] + written(term, level_or()) + seq![Lexeme::RParen],
        level >= level_atom() ==> written(term, level)[0] != Lexeme::Not,
{
}

/// One more than the number of rules that pass `term` on before it is read,
/// when it is written for the level `level`: each rule passes a phrase on to
/// the next tighter level, and the atoms pass it to the loosest level within
/// parentheses.
pub open spec fn distance(term: Term, level: int) -> int {
    if level <= strength(term) {
        strength(term) - level + 1
    } else {
        strength(term) - level + 6
    }
}

/// The term that a binary operator makes of two operands.
pub open spec fn joined(op: Lexeme, l: Term, r: Term) -> Term {
    match op {
        Lexeme::Or => Term::Or(Box::new(l), Box::new(r)),
        Lexeme::And => Term::And(Box::new(l), Box::new(r)),
        Lexeme::Equal => Term::Equal(Box::new(l), Box::new(r)),
        _ => Term::NotEqual(Box::new(l), Box::new(r)),
    }
}

/// A rule that finds a phrase of the next tighter level goes on with its own
/// repetition after that phrase.
proof fn lemma_rule_passes_on(ts: Seq<Lexeme>, pos: int, first: Term, end: int, level: int)
    requires
        level_or() <= level < level_atom(),
        0 <= pos < end <= ts.len(),
        rule(level + 1, ts, pos) == Ok::<(Term, int), ParseError>((first, end)),
        level == level_unary() ==> ts[pos] != Lexeme::Not,
    ensures
        rule(level, ts, pos) == repetition(level, ts, first, end),
{
    reveal(rule);
    reveal(repetition);
}

/// A repetition that meets no operator of its level ends where it stands.
proof fn lemma_repetition_ends(ts: Seq<Lexeme>, left: Term, pos: int, level: int)
    requires
        closed_at(ts, pos, level),
    ensures
        repetition(level, ts, left, pos) == Ok::<(Term, int), ParseError>((left, pos)),
{
    reveal(rule);
    reveal(repetition);
}

/// A repetition that meets an operator of its level and then an operand of
/// the next tighter level joins the two operands and goes on after them.
proof fn lemma_repetition_goes_on(
    ts: Seq<Lexeme>,
    left: Term,
    pos: int,
    right: Term,
    end: int,
    level: int,
)
    requires
        level_or() <= level <= level_equality(),
        0 <= pos < end <= ts.len(),
        continues(ts[pos], level) && !continues(ts[pos], level + 1),
        rule(level + 1, ts, pos + 1) == Ok::<(Term, int), ParseError>((right, end)),
    ensures
        repetition(level, ts, left, pos) == repetition(
            level,
            ts,
            joined(ts[pos], left, right),
            end,
        ),
{
    reveal(rule);
    reveal(repetition);
}

/// A literal is an atom.
proof fn lemma_literal_is_an_atom(ts: Seq<Lexeme>, pos: int)
    requires
        0 <= pos < ts.len(),
    ensures
        ts[pos] == Lexeme::True ==> rule(level_atom(), ts, pos) == Ok::<(Term, int), ParseError>(
            (Term::Bool(true), pos + 1),
        ),
        ts[pos] == Lexeme::False ==> rule(level_atom(), ts, pos) == Ok::<(Term, int), ParseError>(
            (Term::Bool(false), pos + 1),
        ),
        ts[pos] matches Lexeme::StringLiteral(s) ==> rule(level_atom(), ts, pos) == Ok::<
            (Term, int),
            ParseError,
        >((Term::Str(s), pos + 1)),
{
    reveal(rule);
}

/// An expression between parentheses is an atom.
proof fn lemma_parentheses_make_an_atom(ts: Seq<Lexeme>, pos: int, inner: Term, end: int)
    requires
        0 <= pos < end < ts.len(),
        ts[pos] == Lexeme::LParen,
        rule(level_or(), ts, pos + 1) == Ok::<(Term, int), ParseError>((inner, end)),
        ts[end] == Lexeme::RParen,
    ensures
        rule(level_atom(), ts, pos) == Ok::<(Term, int), ParseError>((inner, end + 1)),
{
    reveal(rule);
}

/// `!` and an atom after it are a unary phrase.
proof fn lemma_not_makes_a_unary(ts: Seq<Lexeme>, pos: int, operand: Term, end: int)
    requires
        0 <= pos < ts.len(),
        ts[pos] == Lexeme::Not,
        rule(level_atom(), ts, pos + 1) == Ok::<(Term, int), ParseError>((operand, end)),
    ensures
        rule(level_unary(), ts, pos) == Ok::<(Term, int), ParseError>(
            (Term::Not(Box::new(operand)), end),
        ),
{
    reveal(rule);
}

/// Where a term is written for a level, that level's rule reads the term and
/// then goes on with its repetition, provided that no operator of a tighter
/// level follows the term.
pub proof fn lemma_rule_reads_written(ts: Seq<Lexeme>, pos: int, term: Term, level: int)
    requires
        level_or() <= level <= level_atom(),
        stands_at(ts, pos, written(term, level)),
        closed_at(ts, pos + written(term, level).len(), level + 1),
    ensures
        rule(level, ts, pos) == repetition(level, ts, term, pos + written(term, level).len()),
    decreases term, distance(term, level),
{
    let w = written(term, level);
    let end = pos + w.len();
    lemma_written_shape(term, level);
    assert(ts[pos] == w[0]);
    if level >= level_unary() {
        lemma_repetition_ends(ts, term, end, level);
    }
    if strength(term) != level {
        if level == level_atom() {
            let inner = written(term, level_or());
            assert(w == (seq![Lexeme::LParen] + inner) + seq![Lexeme::RParen]);
            lemma_stands_apart(ts, pos, seq![Lexeme::LParen] + inner, seq![Lexeme::RParen]);
            lemma_stands_apart(ts, pos, seq![Lexeme::LParen], inner);
            assert(ts[end - 1] == seq![Lexeme::RParen][0]);
            lemma_rule_reads_written(ts, pos + 1, term, level_or());
            lemma_repetition_ends(ts, term, end - 1, level_or());
            lemma_written_shape(term, level_or());
            lemma_parentheses_make_an_atom(ts, pos, term, end - 1);
        } else {
            lemma_rule_reads_written(ts, pos, term, level + 1);
            lemma_repetition_ends(ts, term, end, level + 1);
            lemma_written_shape(term, level + 1);
            lemma_rule_passes_on(ts, pos, term, end, level);
        }
    } else {
        match term {
            Term::Bool(_) => {
                lemma_literal_is_an_atom(ts, pos);
            },
            Term::Str(_) => {
                lemma_literal_is_an_atom(ts, pos);
            },
            Term::Not(operand) => {
                let rest = written(*operand, level_atom());
                lemma_stands_apart(ts, pos, seq![Lexeme::Not], rest);
                lemma_rule_reads_written(ts, pos + 1, *operand, level_atom());
                lemma_repetition_ends(ts, *operand, end, level_atom());
                lemma_not_makes_a_unary(ts, pos, *operand, end);
            },
            Term::Equal(l, r) => {
                lemma_operands_are_read(ts, pos, term, *l, Lexeme::Equal, *r, level);
            },
            Term::NotEqual(l, r) => {
                lemma_operands_are_read(ts, pos, term, *l, Lexeme::NotEqual, *r, level);
            },
            Term::And(l, r) => {
                lemma_operands_are_read(ts, pos, term, *l, Lexeme::And, *r, level);
            },
            Term::Or(l, r) => {
                lemma_operands_are_read(ts, pos, term, *l, Lexeme::Or, *r, level);
            },
        }
    }
}

/// The step of [`lemma_rule_reads_written`] for a binary operator of the
/// level `level`: the level's rule reads the left operand, and its repetition
/// the operator and the right operand.
proof fn lemma_operands_are_read(
    ts: Seq<Lexeme>,
    pos: int,
    term: Term,
    l: Term,
    op: Lexeme,
    r: Term,
    level: int,
)
    requires
        match term {
            Term::Or(a, b) => op == Lexeme::Or && *a == l && *b == r,
            Term::And(a, b) => op == Lexeme::And && *a == l && *b == r,
            Term::Equal(a, b) => op == Lexeme::Equal && *a == l && *b == r,
            Term::NotEqual(a, b) => op == Lexeme::NotEqual && *a == l && *b == r,
            _ => false,
        },
        level_or() <= level <= level_equality(),
        continues(op, level) && !continues(op, level + 1),
        stands_at(ts, pos, written(l, level) + seq![op] + written(r, level + 1)),
        closed_at(
            ts,
            pos + (written(l, level) + seq![op] + written(r, level + 1)).len(),
            level + 1,
        ),
    ensures
        rule(level, ts, pos) == repetition(
            level,
            ts,
            term,
            pos + (written(l, level) + seq![op] + written(r, level + 1)).len(),
        ),
    decreases term, 0int,
{
    let wl = written(l, level);
    let wr = written(r, level + 1);
    let mid = pos + wl.len();
    let end = mid + 1 + wr.len();
    lemma_stands_apart(ts, pos, wl + seq![op], wr);
    lemma_stands_apart(ts, pos, wl, seq![op]);
    assert(ts[mid] == seq![op][0]);
    lemma_written_shape(r, level + 1);
    lemma_rule_reads_written(ts, pos, l, level);
    lemma_rule_reads_written(ts, mid + 1, r, level + 1);
    lemma_repetition_ends(ts, r, end, level + 1);
    lemma_repetition_goes_on(ts, l, mid, r, end, level);
}

/// A term that is written as an expression parses back to itself, and
/// nothing is left over.
pub proof fn lemma_written_term_parses_back(term: Term)
    ensures
        whole_expression(written(term, level_or())) == Ok::<Term, ParseError>(term),
{
    let ts = written(term, level_or());
    lemma_rule_reads_written(ts, 0, term, level_or());
    lemma_repetition_ends(ts, term, ts.len() as int, level_or());
    reveal(rule);
}

/// Whether every string literal of a term has a quotable content, so that
/// the term can be written down.
pub open spec fn writable(term: Term) -> bool
    decreases term,
{
    match term {
        Term::Bool(_) => true,
        Term::Str(s) => quotable(s),
        Term::Not(operand) => writable(*operand),
        Term::And(l, r) => writable(*l) && writable(*r),
        Term::Or(l, r) => writable(*l) && writable(*r),
        Term::Equal(l, r) => writable(*l) && writable(*r),
        Term::NotEqual(l, r) => writable(*l) && writable(*r),
    }
}

/// Whether every lexeme of `ts` can be spelled.
pub open spec fn all_spellable(ts: Seq<Lexeme>) -> bool {
    forall|i: int| 0 <= i < ts.len() ==> spellable(#[trigger] ts[i])
}

/// Lexemes that can be spelled stay so when they are put one after another.
proof fn lemma_spellable_together(a: Seq<Lexeme>, b: Seq<Lexeme>)
    requires
        all_spellable(a),
        all_spellable(b),
    ensures
        all_spellable(a + b),
{
    let w = a + b;
    assert forall|i: int| 0 <= i < w.len() implies spellable(#[trigger] w[i]) by {
        if i < a.len() {
            assert(w[i] == a[i]);
        } else {
            assert(w[i] == b[i - a.len()]);
        }
    }
}

/// Every lexeme of a writable term, written for any level, can be spelled.
pub proof fn lemma_written_is_spellable(term: Term, level: int)
    requires
        writable(term),
    ensures
        all_spellable(written(term, level)),
    decreases term,
{
    let bare = written(term, strength(term));
    match term {
        Term::Bool(_) => {},
        Term::Str(_) => {},
        Term::Not(operand) => {
            lemma_written_is_spellable(*operand, level_atom());
            lemma_spellable_together(seq![Lexeme::Not], written(*operand, level_atom()));
        },
        Term::And(l, r) => {
            lemma_written_is_spellable(*l, level_and());
            lemma_written_is_spellable(*r, level_equality());
            lemma_spellable_together(written(*l, level_and()), seq![Lexeme::And]);
            lemma_spellable_together(
                written(*l, level_and()) + seq![Lexeme::And],
                written(*r, level_equality()),
            );
        },
        Term::Or(l, r) => {
            lemma_written_is_spellable(*l, level_or());
            lemma_written_is_spellable(*r, level_and());
            lemma_spellable_together(written(*l, level_or()), seq![Lexeme::Or]);
            lemma_spellable_together(
                written(*l, level_or()) + seq![Lexeme::Or],
                written(*r, level_and()),
            );
        },
        Term::Equal(l, r) => {
            lemma_written_is_spellable(*l, level_equality());
            lemma_written_is_spellable(*r, level_unary());
            lemma_spellable_together(written(*l, level_equality()), seq![Lexeme::Equal]);
            lemma_spellable_together(
                written(*l, level_equality()) + seq![Lexeme::Equal],
                written(*r, level_unary()),
            );
        },
        Term::NotEqual(l, r) => {
            lemma_written_is_spellable(*l, level_equality());
            lemma_written_is_spellable(*r, level_unary());
            lemma_spellable_together(written(*l, level_equality()), seq![Lexeme::NotEqual]);
            lemma_spellable_together(
                written(*l, level_equality()) + seq![Lexeme::NotEqual],
                written(*r, level_unary()),
            );
        },
    }
    assert(all_spellable(bare));
    if strength(term) < level {
        lemma_spellable_together(seq![Lexeme::LParen], bare);
        lemma_spellable_together(seq![Lexeme::LParen] + bare, seq![Lexeme::RParen]);
    }
}

/// Whether an outcome is a failure or a writable term.
pub open spec fn is_writable(outcome: Parsed) -> bool {
    outcome matches Ok((term, _)) ==> writable(term)
}

/// Every term that a rule reads from lexemes that can be spelled is
/// writable.
pub proof fn lemma_read_terms_are_writable(ts: Seq<Lexeme>, pos: int)
    requires
        all_spellable(ts),
        0 <= pos,
    ensures
        is_writable(atom(ts, pos)),
        is_writable(unary(ts, pos)),
        is_writable(equality(ts, pos)),
        is_writable(conjunction(ts, pos)),
        is_writable(expression(ts, pos)),
    decreases ts.len() - pos,
{
    if pos < ts.len() {
        assert(spellable(ts[pos]));
        lemma_read_terms_are_writable(ts, pos + 1);
        assert(is_writable(atom(ts, pos)));
        assert(is_writable(unary(ts, pos)));
        if let Ok((first, end)) = beyond(ts, pos, unary(ts, pos)) {
            lemma_repetitions_stay_writable(ts, first, end);
        }
        if let Ok((first, end)) = beyond(ts, pos, equality(ts, pos)) {
            lemma_repetitions_stay_writable(ts, first, end);
        }
        if let Ok((first, end)) = beyond(ts, pos, conjunction(ts, pos)) {
            lemma_repetitions_stay_writable(ts, first, end);
        }
    }
}

/// A repetition after a writable operand, in lexemes that can be spelled,
/// gives a writable term.
pub proof fn lemma_repetitions_stay_writable(ts: Seq<Lexeme>, left: Term, pos: int)
    requires
        all_spellable(ts),
        writable(left),
        0 <= pos <= ts.len(),
    ensures
        is_writable(equality_chain(ts, left, pos)),
        is_writable(conjunction_chain(ts, left, pos)),
        is_writable(expression_chain(ts, left, pos)),
    decreases ts.len() - pos,
{
    if pos < ts.len() {
        lemma_read_terms_are_writable(ts, pos + 1);
        if ts[pos] == Lexeme::Equal || ts[pos] == Lexeme::NotEqual {
            if let Ok((right, end)) = beyond(ts, pos, unary(ts, pos + 1)) {
                lemma_repetitions_stay_writable(ts, joined(ts[pos], left, right), end);
            }
        }
        if ts[pos] == Lexeme::And {
            if let Ok((right, end)) = beyond(ts, pos, equality(ts, pos + 1)) {
                lemma_repetitions_stay_writable(ts, joined(ts[pos], left, right), end);
            }
        }
        if ts[pos] == Lexeme::Or {
            if let Ok((right, end)) = beyond(ts, pos, conjunction(ts, pos + 1)) {
                lemma_repetitions_stay_writable(ts, joined(ts[pos], left, right), end);
            }
        }
    }
}

} // verus!
