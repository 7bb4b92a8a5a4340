//! A small expression language over booleans and quoted strings.
//!
//! Source text is split into tokens, the tokens are parsed into an expression
//! tree, and the tree is evaluated to a boolean or a string:
//!
//! ```text
//! true && false || !true          false
//! !(true && false)                true
//! "hola" == "hola"                true
//! ```
//!
//! Each stage has a mathematical model, a spec function, and an executable
//! function that is proved to compute it: [`tokenizer::lex`] and
//! [`tokenizer::tokenize`], [`parser::expression`] and [`parser::Parser`],
//! [`evaluator::eval`] and [`evaluator::evaluate`]. [`meaning`] composes the
//! three models, and [`interpret`] and [`execute`] compute it.
//!
//! The other modules hold what is proved of the models: [`blanks`] that
//! blanks only separate lexemes, [`parentheses`] that every accepted phrase
//! closes its parentheses, [`spelling`] and [`notation`] that every term has
//! a written form which the lexer and the parser read back.

use vstd::prelude::*;
use vstd::string::StringExecFns;

pub mod tokenizer;
pub mod parser;
pub mod evaluator;
pub mod notation;
pub mod spelling;
pub mod blanks;
pub mod parentheses;

use crate::evaluator::{eval, evaluate, EvalResult, TypeError, Value};
use crate::notation::{
    lemma_read_terms_are_writable, lemma_written_is_spellable, lemma_written_term_parses_back,
    writable, written,
};
use crate::parser::{level_or, whole_expression, ParseError, Parser, Term};
use crate::spelling::{lemma_lexemes_are_read_back, lemma_read_lexemes_are_spellable, spelled};
use crate::tokenizer::{lex, tokenize, LexError};

verus! {

/// Why a source text has no value: the stage that failed, and its error.
#[derive(Debug, PartialEq, Eq, Clone, Copy)]
pub enum Failure {
    /// The text is not a sequence of tokens.
    Lexical(LexError),
    /// The tokens are not an expression.
    Syntax(ParseError),
    /// The expression applies an operator to values that it does not take.
    Type(TypeError),
}

impl Failure {
    /// The text of [`Failure::message`]: it names the stage that failed and
    /// then gives that stage's own description.
    pub open spec fn text(self) -> Seq<char> {
        match self {
            Failure::Lexical(e) => "evaluation failed: lexical error: "@ + e.text(),
            Failure::Syntax(e) => "evaluation failed: parse error: "@ + e.text(),
            Failure::Type(e) => "evaluation failed: type error: "@ + e.text(),
        }
    }

    /// A description of the failure for a human reader.
    pub fn message(&self) -> (message: String)
        ensures
            message@ == self.text(),
    {
        match self {
            Failure::Lexical(e) => {
                let reason = e.message();
                String::from_str("evaluation failed: lexical error: ").concat(reason.as_str())
            },
            Failure::Syntax(e) => {
                let reason = e.message();
                String::from_str("evaluation failed: parse error: ").concat(reason.as_str())
            },
            Failure::Type(e) => {
                let reason = e.message();
                String::from_str("evaluation failed: type error: ").concat(reason.as_str())
            },
        }
    }
}

/// The value of a source text: the text is split into lexemes, the lexemes
/// must be one expression from the first to the last, and the expression is
/// evaluated. The first stage that fails decides the failure.
pub open spec fn meaning(source: Seq<char>) -> Result<Value, Failure> {
    match lex(source) {
        Err(e) => Err(Failure::Lexical(e)),
        Ok(ts) => match whole_expression(ts) {
            Err(e) => Err(Failure::Syntax(e)),
            Ok(term) => match eval(term) {
                Err(e) => Err(Failure::Type(e)),
                Ok(value) => Ok(value),
            },
        },
    }
}

/// A source text for a term: the term written with the fewest parentheses,
/// and its lexemes spelled one after another.
pub open spec fn source_of(term: Term) -> Seq<char> {
    spelled(written(term, level_or()))
}

/// Every term whose string literals can be quoted has a source text, and the
/// meaning of that text is the value of the term: lexing and parsing take
/// the text back to the term, and no stage but the evaluation can fail.
pub proof fn lemma_source_means_its_term(term: Term)
    requires
        writable(term),
    ensures
        meaning(source_of(term)) == match eval(term) {
            Ok(value) => Ok::<Value, Failure>(value),
            Err(e) => Err(Failure::Type(e)),
        },
{
    let ts = written(term, level_or());
    lemma_written_is_spellable(term, level_or());
    lemma_lexemes_are_read_back(ts);
    lemma_written_term_parses_back(term);
}

/// A text that has a term can be written anew from that term without a
/// change of meaning: the source text of the term that was read means what
/// the text itself means.
pub proof fn lemma_rewriting_keeps_the_meaning(source: Seq<char>)
    requires
        lex(source) is Ok,
        whole_expression(lex(source)->Ok_0) is Ok,
    ensures
        meaning(source_of(whole_expression(lex(source)->Ok_0)->Ok_0)) == meaning(source),
{
    let ts = lex(source)->Ok_0;
    lemma_read_lexemes_are_spellable(source, 0);
    lemma_read_terms_are_writable(ts, 0);
    lemma_source_means_its_term(whole_expression(ts)->Ok_0);
}

/// Evaluates a source text to a typed result.
pub fn interpret(source: &str) -> (result: Result<EvalResult, Failure>)
    ensures
        match meaning(source@) {
            Ok(value) => result matches Ok(r) && r@ == value,
            Err(failure) => result matches Err(f) && f == failure,
        },
{
    let tokens = match tokenize(source) {
        Ok(tokens) => tokens,
        Err(e) => {
            return Err(Failure::Lexical(e));
        },
    };
    let mut parser = Parser::new(tokens.as_slice());
    let expr = match parser.parse_to_end() {
        Ok(expr) => expr,
        Err(e) => {
            return Err(Failure::Syntax(e));
        },
    };
    match evaluate(expr) {
        Ok(value) => Ok(value),
        Err(e) => Err(Failure::Type(e)),
    }
}

/// Evaluates a source text and renders the outcome as text: on success
/// `true`, `false` or the content of the resulting string, on failure the
/// message of the [`Failure`].
pub fn execute(expresion: String) -> (result: Result<String, String>)
    ensures
        match meaning(expresion@) {
            Ok(value) => result matches Ok(text) && text@ == value.text(),
            Err(failure) => result matches Err(message) && message@ == failure.text(),
        },
{
    match interpret(expresion.as_str()) {
        Ok(value) => Ok(value.into_text()),
        Err(failure) => Err(failure.message()),
    }
}

} // verus!
