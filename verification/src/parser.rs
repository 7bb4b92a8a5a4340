//! Syntactic analysis: from tokens to an expression tree.
//!
//! The grammar has one rule for each level of precedence, from the loosest to
//! the tightest binding:
//!
//! ```text
//! expression  :=  conjunction ( "||" conjunction )*
//! conjunction :=  equality ( "&&" equality )*
//! equality    :=  unary ( ( "==" | "!=" ) unary )*
//! unary       :=  "!" atom | atom
//! atom        :=  "true" | "false" | string | "(" expression ")"
//! ```
//!
//! Each rule is a spec function on a sequence of lexemes and a position in it;
//! the repetitions group to the left and take as many operands as there are.
//! The methods of [`Parser`] are proved to compute these functions.

use vstd::prelude::*;
use vstd::string::StringExecFns;
use crate::tokenizer::{lexemes, Lexeme, Token};

verus! {

/// An expression tree.
#[derive(Debug, PartialEq)]
pub enum Expr {
    BooleanLiteral(bool),
    StringLiteral(String),
    Not(Box<Expr>),
    And(Box<Expr>, Box<Expr>),
    Or(Box<Expr>, Box<Expr>),
    Equal(Box<Expr>, Box<Expr>),
    NotEqual(Box<Expr>, Box<Expr>),
}

/// The mathematical value of an [`Expr`]: a string literal is its sequence of
/// characters.
pub enum Term {
    Bool(bool),
    Str(Seq<char>),
    Not(Box<Term>),
    And(Box<Term>, Box<Term>),
    Or(Box<Term>, Box<Term>),
    Equal(Box<Term>, Box<Term>),
    NotEqual(Box<Term>, Box<Term>),
}

/// The term that an expression tree stands for.
pub open spec fn term_of(expr: Expr) -> Term
    decreases expr,
{
    match expr {
        Expr::BooleanLiteral(b) => Term::Bool(b),
        Expr::StringLiteral(s) => Term::Str(s@),
        Expr::Not(e) => Term::Not(Box::new(term_of(*e))),
        Expr::And(l, r) => Term::And(Box::new(term_of(*l)), Box::new(term_of(*r))),
        Expr::Or(l, r) => Term::Or(Box::new(term_of(*l)), Box::new(term_of(*r))),
        Expr::Equal(l, r) => Term::Equal(Box::new(term_of(*l)), Box::new(term_of(*r))),
        Expr::NotEqual(l, r) => Term::NotEqual(Box::new(term_of(*l)), Box::new(term_of(*r))),
    }
}

impl View for Expr {
    type V = Term;

    open spec fn view(&self) -> Term {
        term_of(*self)
    }
}

/// Why a token sequence is not an expression.
#[derive(Debug, PartialEq, Eq, Clone, Copy)]
pub enum ParseError {
    /// A literal or an opening parenthesis was expected, and something else
    /// or the end of the tokens was found.
    ExpectedExpression,
    /// An opening parenthesis and the expression after it are not followed by
    /// a closing parenthesis.
    MissingClosingParen,
    /// Tokens are left after a complete expression.
    TrailingTokens,
}

impl ParseError {
    /// The text of [`ParseError::message`].
    pub open spec fn text(self) -> Seq<char> {
        match self {
            ParseError::ExpectedExpression => "expected expression"@,
            ParseError::MissingClosingParen => "missing closing parenthesis"@,
            ParseError::TrailingTokens => "unexpected tokens after the expression"@,
        }
    }

    /// A description of the error for a human reader.
    pub fn message(&self) -> (message: String)
        ensures
            message@ == self.text(),
    {
        match self {
            ParseError::ExpectedExpression => String::from_str("expected expression"),
            ParseError::MissingClosingParen => String::from_str("missing closing parenthesis"),
            ParseError::TrailingTokens => String::from_str(
                "unexpected tokens after the expression",
            ),
        }
    }
}

/// The outcome of a grammar rule: the tree and the position after the last
/// token that belongs to it, or the reason why there is none.
pub type Parsed = Result<(Term, int), ParseError>;

/// The outcome of a rule that was applied to `ts` at or after `pos`, provided
/// that it ends after `pos` and within `ts`.
///
/// Every rule consumes at least one token and none beyond the last
/// ([`lemma_rules_advance`]), so the proviso always holds; stating it where a
/// repetition reads its next operand is what makes the repetitions
/// well-founded.
pub open spec fn beyond(ts: Seq<Lexeme>, pos: int, outcome: Parsed) -> Parsed {
    match outcome {
        Ok((_, end)) if !(pos < end <= ts.len()) => Err(ParseError::ExpectedExpression),
        _ => outcome,
    }
}

/// The level of `||`, the loosest binding: where an `expression` stands.
pub open spec fn level_or() -> int {
    0
}

/// The level of `&&`: where a `conjunction` stands.
pub open spec fn level_and() -> int {
    1
}

/// The level of `==` and `!=`: where an `equality` stands.
pub open spec fn level_equality() -> int {
    2
}

/// The level of `!`: where a `unary` stands.
pub open spec fn level_unary() -> int {
    3
}

/// The level of literals and parentheses, the tightest binding: where an
/// `atom` stands.
pub open spec fn level_atom() -> int {
    4
}

/// Whether a phrase of the level `level` goes on when `lexeme` follows it:
/// a binary operator continues the phrases of its own level and of the
/// looser ones.
pub open spec fn continues(lexeme: Lexeme, level: int) -> bool {
    match lexeme {
        Lexeme::Or => level <= level_or(),
        Lexeme::And => level <= level_and(),
        Lexeme::Equal => level <= level_equality(),
        Lexeme::NotEqual => level <= level_equality(),
        _ => false,
    }
}

/// Whether a phrase of the level `level` that ends at `pos` ends there for
/// good: no lexeme follows, or one that does not continue it.
pub open spec fn closed_at(ts: Seq<Lexeme>, pos: int, level: int) -> bool {
    0 <= pos < ts.len() ==> !continues(ts[pos], level)
}

/// `atom := "true" | "false" | string | "(" expression ")"`
pub open spec fn atom(ts: Seq<Lexeme>, pos: int) -> Parsed
    decreases ts.len() - pos, 0int,
{
    if pos < 0 || pos >= ts.len() {
        Err(ParseError::ExpectedExpression)
    } else {
        match ts[pos] {
            Lexeme::True => Ok((Term::Bool(true), pos + 1)),
            Lexeme::False => Ok((Term::Bool(false), pos + 1)),
            Lexeme::StringLiteral(s) => Ok((Term::Str(s), pos + 1)),
            Lexeme::LParen => match expression(ts, pos + 1) {
                Ok((inner, end)) => if end < ts.len() && ts[end] == Lexeme::RParen {
                    Ok((inner, end + 1))
                } else {
                    Err(ParseError::MissingClosingParen)
                },
                Err(e) => Err(e),
            },
            _ => Err(ParseError::ExpectedExpression),
        }
    }
}

/// `unary := "!" atom | atom`
pub open spec fn unary(ts: Seq<Lexeme>, pos: int) -> Parsed
    decreases ts.len() - pos, 1int,
{
    if 0 <= pos < ts.len() && ts[pos] == Lexeme::Not {
        match atom(ts, pos + 1) {
            Ok((operand, end)) => Ok((Term::Not(Box::new(operand)), end)),
            Err(e) => Err(e),
        }
    } else {
        atom(ts, pos)
    }
}

/// `( ( "==" | "!=" ) unary )*` after the operand `left`, which ends at `pos`.
pub open spec fn equality_chain(ts: Seq<Lexeme>, left: Term, pos: int) -> Parsed
    decreases ts.len() - pos, 2int,
{
    if 0 <= pos < ts.len() && (ts[pos] == Lexeme::Equal || ts[pos] == Lexeme::NotEqual) {
        match beyond(ts, pos, unary(ts, pos + 1)) {
            Ok((right, end)) => {
                let joined = if ts[pos] == Lexeme::Equal {
                    Term::Equal(Box::new(left), Box::new(right))
                } else {
                    Term::NotEqual(Box::new(left), Box::new(right))
                };
                equality_chain(ts, joined, end)
            },
            Err(e) => Err(e),
        }
    } else {
        Ok((left, pos))
    }
}

/// `equality := unary ( ( "==" | "!=" ) unary )*`
pub open spec fn equality(ts: Seq<Lexeme>, pos: int) -> Parsed
    decreases ts.len() - pos, 3int,
{
    match beyond(ts, pos, unary(ts, pos)) {
        Ok((first, end)) => equality_chain(ts, first, end),
        Err(e) => Err(e),
    }
}

/// `( "&&" equality )*` after the operand `left`, which ends at `pos`.
pub open spec fn conjunction_chain(ts: Seq<Lexeme>, left: Term, pos: int) -> Parsed
    decreases ts.len() - pos, 4int,
{
    if 0 <= pos < ts.len() && ts[pos] == Lexeme::And {
        match beyond(ts, pos, equality(ts, pos + 1)) {
            Ok((right, end)) => conjunction_chain(
                ts,
                Term::And(Box::new(left), Box::new(right)),
                end,
            ),
            Err(e) => Err(e),
        }
    } else {
        Ok((left, pos))
    }
}

/// `conjunction := equality ( "&&" equality )*`
pub open spec fn conjunction(ts: Seq<Lexeme>, pos: int) -> Parsed
    decreases ts.len() - pos, 5int,
{
    match beyond(ts, pos, equality(ts, pos)) {
        Ok((first, end)) => conjunction_chain(ts, first, end),
        Err(e) => Err(e),
    }
}

/// `( "||" conjunction )*` after the operand `left`, which ends at `pos`.
pub open spec fn expression_chain(ts: Seq<Lexeme>, left: Term, pos: int) -> Parsed
    decreases ts.len() - pos, 6int,
{
    if 0 <= pos < ts.len() && ts[pos] == Lexeme::Or {
        match beyond(ts, pos, conjunction(ts, pos + 1)) {
            Ok((right, end)) => expression_chain(
                ts,
                Term::Or(Box::new(left), Box::new(right)),
                end,
            ),
            Err(e) => Err(e),
        }
    } else {
        Ok((left, pos))
    }
}

/// `expression := conjunction ( "||" conjunction )*`
pub open spec fn expression(ts: Seq<Lexeme>, pos: int) -> Parsed
    decreases ts.len() - pos, 7int,
{
    match beyond(ts, pos, conjunction(ts, pos)) {
        Ok((first, end)) => expression_chain(ts, first, end),
        Err(e) => Err(e),
    }
}

/// The tree of the expression that starts at `pos` and ends with the last
/// token of `ts`.
pub open spec fn expression_to_end(ts: Seq<Lexeme>, pos: int) -> Result<Term, ParseError> {
    match expression(ts, pos) {
        Ok((term, end)) => if end == ts.len() {
            Ok(term)
        } else {
            Err(ParseError::TrailingTokens)
        },
        Err(e) => Err(e),
    }
}

/// The tree of a token sequence that is one expression from its first token
/// to its last.
pub open spec fn whole_expression(ts: Seq<Lexeme>) -> Result<Term, ParseError> {
    expression_to_end(ts, 0)
}

/// Every rule consumes at least one token, and none beyond the last.
pub proof fn lemma_rules_advance(ts: Seq<Lexeme>, pos: int)
    requires
        0 <= pos,
    ensures
        atom(ts, pos) matches Ok((_, end)) ==> pos < end <= ts.len(),
        unary(ts, pos) matches Ok((_, end)) ==> pos < end <= ts.len(),
        equality(ts, pos) matches Ok((_, end)) ==> pos < end <= ts.len(),
        conjunction(ts, pos) matches Ok((_, end)) ==> pos < end <= ts.len(),
        expression(ts, pos) matches Ok((_, end)) ==> pos < end <= ts.len(),
    decreases ts.len() - pos,
{
    if pos < ts.len() {
        lemma_rules_advance(ts, pos + 1);
    }
    if let Ok((first, end)) = beyond(ts, pos, unary(ts, pos)) {
        lemma_chains_advance(ts, first, end);
    }
    if let Ok((first, end)) = beyond(ts, pos, equality(ts, pos)) {
        lemma_chains_advance(ts, first, end);
    }
    if let Ok((first, end)) = beyond(ts, pos, conjunction(ts, pos)) {
        lemma_chains_advance(ts, first, end);
    }
}

/// The proviso of [`beyond`] changes no outcome of a rule: the grammar is the
/// one that its rules spell out, with nothing taken away.
pub proof fn lemma_proviso_always_holds(ts: Seq<Lexeme>, pos: int, at: int)
    requires
        0 <= pos <= at,
    ensures
        beyond(ts, pos, unary(ts, at)) == unary(ts, at),
        beyond(ts, pos, equality(ts, at)) == equality(ts, at),
        beyond(ts, pos, conjunction(ts, at)) == conjunction(ts, at),
{
    lemma_rules_advance(ts, at);
}

/// A repetition ends at or after the operand before it, and within the
/// tokens.
pub proof fn lemma_chains_advance(ts: Seq<Lexeme>, left: Term, pos: int)
    requires
        0 <= pos <= ts.len(),
    ensures
        equality_chain(ts, left, pos) matches Ok((_, end)) ==> pos <= end <= ts.len(),
        conjunction_chain(ts, left, pos) matches Ok((_, end)) ==> pos <= end <= ts.len(),
        expression_chain(ts, left, pos) matches Ok((_, end)) ==> pos <= end <= ts.len(),
    decreases ts.len() - pos,
{
    if pos < ts.len() {
        if ts[pos] == Lexeme::Equal || ts[pos] == Lexeme::NotEqual {
            if let Ok((right, end)) = beyond(ts, pos, unary(ts, pos + 1)) {
                let joined = if ts[pos] == Lexeme::Equal {
                    Term::Equal(Box::new(left), Box::new(right))
                } else {
                    Term::NotEqual(Box::new(left), Box::new(right))
                };
                lemma_chains_advance(ts, joined, end);
            }
        }
        if ts[pos] == Lexeme::And {
            if let Ok((right, end)) = beyond(ts, pos, equality(ts, pos + 1)) {
                lemma_chains_advance(ts, Term::And(Box::new(left), Box::new(right)), end);
            }
        }
        if ts[pos] == Lexeme::Or {
            if let Ok((right, end)) = beyond(ts, pos, conjunction(ts, pos + 1)) {
                lemma_chains_advance(ts, Term::Or(Box::new(left), Box::new(right)), end);
            }
        }
    }
}

/// A repetition goes on as long as an operator of its level follows: where
/// it ends, the phrase before it being closed for the tighter levels, it is
/// closed for its own level too.
pub proof fn lemma_repetitions_are_longest(ts: Seq<Lexeme>, left: Term, pos: int)
    requires
        0 <= pos <= ts.len(),
    ensures
        equality_chain(ts, left, pos) matches Ok((_, end)) ==> closed_at(
            ts,
            end,
            level_equality(),
        ),
        closed_at(ts, pos, level_equality()) ==> (conjunction_chain(ts, left, pos) matches Ok(
            (_, end),
        ) ==> closed_at(ts, end, level_and())),
        closed_at(ts, pos, level_and()) ==> (expression_chain(ts, left, pos) matches Ok(
            (_, end),
        ) ==> closed_at(ts, end, level_or())),
    decreases ts.len() - pos,
{
    if pos < ts.len() {
        if ts[pos] == Lexeme::Equal || ts[pos] == Lexeme::NotEqual {
            if let Ok((right, end)) = beyond(ts, pos, unary(ts, pos + 1)) {
                let joined = if ts[pos] == Lexeme::Equal {
                    Term::Equal(Box::new(left), Box::new(right))
                } else {
                    Term::NotEqual(Box::new(left), Box::new(right))
                };
                lemma_repetitions_are_longest(ts, joined, end);
            }
        }
        if ts[pos] == Lexeme::And {
            if let Ok((right, end)) = beyond(ts, pos, equality(ts, pos + 1)) {
                lemma_phrases_are_longest(ts, pos + 1);
                lemma_repetitions_are_longest(ts, Term::And(Box::new(left), Box::new(right)), end);
            }
        }
        if ts[pos] == Lexeme::Or {
            if let Ok((right, end)) = beyond(ts, pos, conjunction(ts, pos + 1)) {
                lemma_phrases_are_longest(ts, pos + 1);
                lemma_repetitions_are_longest(ts, Term::Or(Box::new(left), Box::new(right)), end);
            }
        }
    }
}

/// Every rule takes the longest phrase that there is: no operator that
/// would continue the phrase follows it.
pub proof fn lemma_phrases_are_longest(ts: Seq<Lexeme>, pos: int)
    requires
        0 <= pos,
    ensures
        equality(ts, pos) matches Ok((_, end)) ==> closed_at(ts, end, level_equality()),
        conjunction(ts, pos) matches Ok((_, end)) ==> closed_at(ts, end, level_and()),
        expression(ts, pos) matches Ok((_, end)) ==> closed_at(ts, end, level_or()),
    decreases ts.len() - pos,
{
    if let Ok((first, end)) = beyond(ts, pos, unary(ts, pos)) {
        lemma_repetitions_are_longest(ts, first, end);
    }
    if let Ok((first, end)) = beyond(ts, pos, equality(ts, pos)) {
        lemma_repetitions_are_longest(ts, first, end);
    }
    if let Ok((first, end)) = beyond(ts, pos, conjunction(ts, pos)) {
        lemma_repetitions_are_longest(ts, first, end);
    }
}

/// A recursive-descent parser: a token sequence and a cursor that only moves
/// forward.
pub struct Parser<'a> {
    tokens: &'a [Token],
    current: usize,
}

/// What a method that computes the rule outcome `expected` returns and leaves
/// behind: the tokens are the same; on success the tree is the rule's and the
/// cursor stands after its last token; on failure the error is the rule's and
/// the cursor has not moved back.
pub open spec fn follows(
    before: Parser,
    after: Parser,
    result: Result<Expr, ParseError>,
    expected: Parsed,
) -> bool {
    &&& after.source() == before.source()
    &&& match expected {
        Ok((term, end)) => result matches Ok(expr) && expr@ == term && after.position() == end,
        Err(e) => result matches Err(err) && err == e && before.position() <= after.position(),
    }
}

impl<'a> Parser<'a> {
    #[verifier::type_invariant]
    spec fn cursor_within_tokens(self) -> bool {
        self.current <= self.tokens@.len()
    }

    /// The lexemes of the tokens that the parser reads.
    pub closed spec fn source(self) -> Seq<Lexeme> {
        lexemes(self.tokens@)
    }

    /// The position of the cursor: the number of tokens consumed so far.
    pub closed spec fn position(self) -> int {
        self.current as int
    }

    /// A parser at the start of `tokens`.
    pub fn new(tokens: &'a [Token]) -> (parser: Self)
        ensures
            parser.source() == lexemes(tokens@),
            parser.position() == 0,
    {
        Parser { tokens, current: 0 }
    }

    /// Parses the longest expression that starts at the cursor.
    pub fn parse(&mut self) -> (result: Result<Expr, ParseError>)
        ensures
            follows(
                *old(self),
                *final(self),
                result,
                expression(old(self).source(), old(self).position()),
            ),
        decreases old(self).source().len() - old(self).position(), 8int,
    {
        self.parse_or()
    }

    /// Parses the expression that starts at the cursor and ends with the last
    /// token; tokens left after an expression are an error.
    pub fn parse_to_end(&mut self) -> (result: Result<Expr, ParseError>)
        ensures
            final(self).source() == old(self).source(),
            old(self).position() <= final(self).position(),
            match expression_to_end(old(self).source(), old(self).position()) {
                Ok(term) => result matches Ok(expr) && expr@ == term && final(self).position()
                    == final(self).source().len(),
                Err(e) => result matches Err(err) && err == e,
            },
    {
        proof {
            use_type_invariant(&*self);
            lemma_rules_advance(self.source(), self.position());
        }
        let expr = match self.parse() {
            Ok(expr) => expr,
            Err(e) => {
                return Err(e);
            },
        };
        proof {
            use_type_invariant(&*self);
        }
        if self.peek().is_some() {
            return Err(ParseError::TrailingTokens);
        }
        Ok(expr)
    }

    /// Moves the cursor past the token at which it stands, and returns that
    /// token; at the end there is none, and the cursor stays.
    fn advance(&mut self) -> (token: Option<&'a Token>)
        ensures
            final(self).source() == old(self).source(),
            token is Some <==> old(self).position() < old(self).source().len(),
            token matches Some(t) ==> t@ == old(self).source()[old(self).position()],
            final(self).position() == old(self).position() + if token is Some {
                1int
            } else {
                0int
            },
    {
        if self.current < self.tokens.len() {
            self.current += 1;
            Some(&self.tokens[self.current - 1])
        } else {
            None
        }
    }

    /// The token at which the cursor stands, if any.
    fn peek(&self) -> (token: Option<&'a Token>)
        ensures
            match token {
                Some(t) => self.position() < self.source().len() && t@ == self.source()[self.position()],
                None => self.position() >= self.source().len(),
            },
    {
        proof {
            use_type_invariant(self);
        }
        if self.current < self.tokens.len() {
            Some(&self.tokens[self.current])
        } else {
            None
        }
    }

    fn parse_or(&mut self) -> (result: Result<Expr, ParseError>)
        ensures
            follows(
                *old(self),
                *final(self),
                result,
                expression(old(self).source(), old(self).position()),
            ),
        decreases old(self).source().len() - old(self).position(), 7int,
    {
        let ghost ts = self.source();
        let ghost start = self.position();
        proof {
            use_type_invariant(&*self);
            lemma_rules_advance(ts, start);
        }
        let mut left = match self.parse_and() {
            Ok(first) => first,
            Err(e) => {
                return Err(e);
            },
        };
        loop
            invariant
                ts == old(self).source(),
                start == old(self).position(),
                self.source() == ts,
                start < self.position() <= ts.len(),
                expression(ts, start) == expression_chain(ts, left@, self.position()),
            decreases ts.len() - self.position(),
        {
            match self.peek() {
                Some(Token::Or) => {
                    proof {
                        lemma_rules_advance(ts, self.position() + 1);
                    }
                    self.advance();
                    let right = match self.parse_and() {
                        Ok(operand) => operand,
                        Err(e) => {
                            return Err(e);
                        },
                    };
                    left = Expr::Or(Box::new(left), Box::new(right));
                },
                _ => {
                    return Ok(left);
                },
            }
        }
    }

    fn parse_and(&mut self) -> (result: Result<Expr, ParseError>)
        ensures
            follows(
                *old(self),
                *final(self),
                result,
                conjunction(old(self).source(), old(self).position()),
            ),
        decreases old(self).source().len() - old(self).position(), 5int,
    {
        let ghost ts = self.source();
        let ghost start = self.position();
        proof {
            use_type_invariant(&*self);
            lemma_rules_advance(ts, start);
        }
        let mut left = match self.parse_equal() {
            Ok(first) => first,
            Err(e) => {
                return Err(e);
            },
        };
        loop
            invariant
                ts == old(self).source(),
                start == old(self).position(),
                self.source() == ts,
                start < self.position() <= ts.len(),
                conjunction(ts, start) == conjunction_chain(ts, left@, self.position()),
            decreases ts.len() - self.position(),
        {
            match self.peek() {
                Some(Token::And) => {
                    proof {
                        lemma_rules_advance(ts, self.position() + 1);
                    }
                    self.advance();
                    let right = match self.parse_equal() {
                        Ok(operand) => operand,
                        Err(e) => {
                            return Err(e);
                        },
                    };
                    left = Expr::And(Box::new(left), Box::new(right));
                },
                _ => {
                    return Ok(left);
                },
            }
        }
    }

    fn parse_equal(&mut self) -> (result: Result<Expr, ParseError>)
        ensures
            follows(
                *old(self),
                *final(self),
                result,
                equality(old(self).source(), old(self).position()),
            ),
        decreases old(self).source().len() - old(self).position(), 3int,
    {
        let ghost ts = self.source();
        let ghost start = self.position();
        proof {
            use_type_invariant(&*self);
            lemma_rules_advance(ts, start);
        }
        let mut left = match self.parse_not() {
            Ok(first) => first,
            Err(e) => {
                return Err(e);
            },
        };
        loop
            invariant
                ts == old(self).source(),
                start == old(self).position(),
                self.source() == ts,
                start < self.position() <= ts.len(),
                equality(ts, start) == equality_chain(ts, left@, self.position()),
            decreases ts.len() - self.position(),
        {
            match self.peek() {
                Some(Token::Equal) => {
                    proof {
                        lemma_rules_advance(ts, self.position() + 1);
                    }
                    self.advance();
                    let right = match self.parse_not() {
                        Ok(operand) => operand,
                        Err(e) => {
                            return Err(e);
                        },
                    };
                    left = Expr::Equal(Box::new(left), Box::new(right));
                },
                Some(Token::NotEqual) => {
                    proof {
                        lemma_rules_advance(ts, self.position() + 1);
                    }
                    self.advance();
                    let right = match self.parse_not() {
                        Ok(operand) => operand,
                        Err(e) => {
                            return Err(e);
                        },
                    };
                    left = Expr::NotEqual(Box::new(left), Box::new(right));
                },
                _ => {
                    return Ok(left);
                },
            }
        }
    }

    fn parse_not(&mut self) -> (result: Result<Expr, ParseError>)
        ensures
            follows(
                *old(self),
                *final(self),
                result,
                unary(old(self).source(), old(self).position()),
            ),
        decreases old(self).source().len() - old(self).position(), 1int,
    {
        proof {
            use_type_invariant(&*self);
        }
        if let Some(Token::Not) = self.peek() {
            self.advance();
            return match self.parse_atom() {
                Ok(operand) => Ok(Expr::Not(Box::new(operand))),
                Err(e) => Err(e),
            };
        }
        self.parse_atom()
    }

    fn parse_atom(&mut self) -> (result: Result<Expr, ParseError>)
        ensures
            follows(
                *old(self),
                *final(self),
                result,
                atom(old(self).source(), old(self).position()),
            ),
        decreases old(self).source().len() - old(self).position(), 0int,
    {
        proof {
            use_type_invariant(&*self);
        }
        match self.peek() {
            Some(Token::True) => {
                self.advance();
                Ok(Expr::BooleanLiteral(true))
            },
            Some(Token::False) => {
                self.advance();
                Ok(Expr::BooleanLiteral(false))
            },
            Some(Token::StringLiteral(s)) => {
                let literal = Expr::StringLiteral(s.clone());
                self.advance();
                Ok(literal)
            },
            Some(Token::LParen) => {
                proof {
                    lemma_rules_advance(self.source(), self.position() + 1);
                }
                self.advance();
                let inner = match self.parse() {
                    Ok(inner) => inner,
                    Err(e) => {
                        return Err(e);
                    },
                };
                if let Some(Token::RParen) = self.peek() {
                    self.advance();
                    Ok(inner)
                } else {
                    Err(ParseError::MissingClosingParen)
                }
            },
            _ => Err(ParseError::ExpectedExpression),
        }
    }
}

} // verus!
