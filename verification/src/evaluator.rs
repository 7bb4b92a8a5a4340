//! Evaluation: from an expression tree to a value.
//!
//! A value is a boolean or a string, and no operator converts one into the
//! other. The meaning of a tree is the spec function [`eval`];
//! [`evaluate`] is proved to compute it.

use vstd::prelude::*;
use vstd::string::StringExecFns;
use vstd::std_specs::cmp::PartialEqSpecImpl;
use crate::parser::{Expr, Term};
use crate::tokenizer::{keyword_false, keyword_true};

verus! {

/// The result of evaluating an expression.
#[derive(Debug)]
pub enum EvalResult {
    Bool(bool),
    String(String),
}

/// The mathematical value of an [`EvalResult`].
pub enum Value {
    Bool(bool),
    Str(Seq<char>),
}

impl View for EvalResult {
    type V = Value;

    open spec fn view(&self) -> Value {
        match self {
            EvalResult::Bool(b) => Value::Bool(*b),
            EvalResult::String(s) => Value::Str(s@),
        }
    }
}

impl PartialEq for EvalResult {
    fn eq(&self, other: &Self) -> (equal: bool) {
        match (self, other) {
            (EvalResult::Bool(l), EvalResult::Bool(r)) => *l == *r,
            (EvalResult::String(l), EvalResult::String(r)) => *l == *r,
            _ => false,
        }
    }
}

impl PartialEqSpecImpl for EvalResult {
    open spec fn obeys_eq_spec() -> bool {
        true
    }

    open spec fn eq_spec(&self, other: &Self) -> bool {
        self@ == other@
    }
}

/// Why an expression has no value.
#[derive(Debug, PartialEq, Eq, Clone, Copy)]
pub enum TypeError {
    /// `!` applied to a string.
    NegatedString,
    /// `&&` or `||` applied to an operand that is not a boolean.
    NonBooleanOperand,
    /// `==` or `!=` applied to a boolean and a string.
    MixedComparison,
}

impl TypeError {
    /// The text of [`TypeError::message`].
    pub open spec fn text(self) -> Seq<char> {
        match self {
            TypeError::NegatedString => "cannot negate a string"@,
            TypeError::NonBooleanOperand => "both operands must be boolean for AND/OR"@,
            TypeError::MixedComparison => "cannot compare boolean and string"@,
        }
    }

    /// A description of the error for a human reader.
    pub fn message(&self) -> (message: String)
        ensures
            message@ == self.text(),
    {
        match self {
            TypeError::NegatedString => String::from_str("cannot negate a string"),
            TypeError::NonBooleanOperand => String::from_str(
                "both operands must be boolean for AND/OR",
            ),
            TypeError::MixedComparison => String::from_str("cannot compare boolean and string"),
        }
    }
}

impl Value {
    /// The text of a value: `true` or `false` for a boolean, the content for
    /// a string.
    pub open spec fn text(self) -> Seq<char> {
        match self {
            Value::Bool(b) => if b {
                keyword_true()
            } else {
                keyword_false()
            },
            Value::Str(s) => s,
        }
    }
}

impl EvalResult {
    /// The text of the result: `true` or `false` for a boolean, the content
    /// for a string.
    pub fn into_text(self) -> (text: String)
        ensures
            text@ == self@.text(),
    {
        match self {
            EvalResult::Bool(b) => {
                proof {
                    reveal_strlit("true");
                    reveal_strlit("false");
                    assert("true"@ =~= keyword_true());
                    assert("false"@ =~= keyword_false());
                }
                if b {
                    String::from_str("true")
                } else {
                    String::from_str("false")
                }
            },
            EvalResult::String(s) => s,
        }
    }
}

/// The outcome of an evaluation.
pub type Evaluated = Result<Value, TypeError>;

/// `!v`
pub open spec fn negation(v: Value) -> Evaluated {
    match v {
        Value::Bool(b) => Ok(Value::Bool(!b)),
        Value::Str(_) => Err(TypeError::NegatedString),
    }
}

/// `l && r`
pub open spec fn conjunction_of(l: Value, r: Value) -> Evaluated {
    match (l, r) {
        (Value::Bool(a), Value::Bool(b)) => Ok(Value::Bool(a && b)),
        _ => Err(TypeError::NonBooleanOperand),
    }
}

/// `l || r`
pub open spec fn disjunction_of(l: Value, r: Value) -> Evaluated {
    match (l, r) {
        (Value::Bool(a), Value::Bool(b)) => Ok(Value::Bool(a || b)),
        _ => Err(TypeError::NonBooleanOperand),
    }
}

/// `l == r`, for two values of one kind.
pub open spec fn equality_of(l: Value, r: Value) -> Evaluated {
    match (l, r) {
        (Value::Bool(a), Value::Bool(b)) => Ok(Value::Bool(a == b)),
        (Value::Str(a), Value::Str(b)) => Ok(Value::Bool(a == b)),
        _ => Err(TypeError::MixedComparison),
    }
}

/// `l != r`, for two values of one kind.
pub open spec fn inequality_of(l: Value, r: Value) -> Evaluated {
    match (l, r) {
        (Value::Bool(a), Value::Bool(b)) => Ok(Value::Bool(a != b)),
        (Value::Str(a), Value::Str(b)) => Ok(Value::Bool(a != b)),
        _ => Err(TypeError::MixedComparison),
    }
}

/// Applies `op` to the outcomes of two operands. Both operands are
/// evaluated whatever the first one gives: a failure of the left operand
/// comes first, then a failure of the right one, and only then the operator
/// itself is applied.
pub open spec fn binary(
    l: Evaluated,
    r: Evaluated,
    op: spec_fn(Value, Value) -> Evaluated,
) -> Evaluated {
    match (l, r) {
        (Err(e), _) => Err(e),
        (Ok(_), Err(e)) => Err(e),
        (Ok(a), Ok(b)) => op(a, b),
    }
}

/// The value of a term, or the first type error met when its operands are
/// evaluated from left to right.
pub open spec fn eval(term: Term) -> Evaluated
    decreases term,
{
    match term {
        Term::Bool(b) => Ok(Value::Bool(b)),
        Term::Str(s) => Ok(Value::Str(s)),
        Term::Not(operand) => match eval(*operand) {
            Ok(v) => negation(v),
            Err(e) => Err(e),
        },
        Term::And(l, r) => binary(eval(*l), eval(*r), |a, b| conjunction_of(a, b)),
        Term::Or(l, r) => binary(eval(*l), eval(*r), |a, b| disjunction_of(a, b)),
        Term::Equal(l, r) => binary(eval(*l), eval(*r), |a, b| equality_of(a, b)),
        Term::NotEqual(l, r) => binary(eval(*l), eval(*r), |a, b| inequality_of(a, b)),
    }
}

/// Both operands of `&&` and of `||` are evaluated, whatever the left one
/// gives: a failure of the right operand is the failure of the whole unless
/// the left operand fails first, and a right operand that is a string is
/// rejected even where the left operand alone would decide the result.
pub proof fn lemma_both_operands_are_evaluated(l: Term, r: Term)
    ensures
        eval(r) is Err ==> eval(Term::And(Box::new(l), Box::new(r))) is Err,
        eval(r) is Err ==> eval(Term::Or(Box::new(l), Box::new(r))) is Err,
        eval(l) is Ok && eval(r) is Err ==> eval(Term::And(Box::new(l), Box::new(r))) == eval(r),
        eval(l) is Ok && eval(r) is Err ==> eval(Term::Or(Box::new(l), Box::new(r))) == eval(r),
        eval(l) is Ok && (eval(r) matches Ok(Value::Str(_))) ==> eval(
            Term::And(Box::new(l), Box::new(r)),
        ) == Err::<Value, TypeError>(TypeError::NonBooleanOperand),
        eval(l) is Ok && (eval(r) matches Ok(Value::Str(_))) ==> eval(
            Term::Or(Box::new(l), Box::new(r)),
        ) == Err::<Value, TypeError>(TypeError::NonBooleanOperand),
{
}

/// A binary operator fails with the failure of its left operand if there is
/// one, else with that of its right operand if there is one.
pub proof fn lemma_operand_failures_come_first(l: Term, r: Term)
    requires
        eval(l) is Err || eval(r) is Err,
    ensures
        ({
            let first = if eval(l) is Err {
                eval(l)
            } else {
                eval(r)
            };
            &&& eval(Term::And(Box::new(l), Box::new(r))) == first
            &&& eval(Term::Or(Box::new(l), Box::new(r))) == first
            &&& eval(Term::Equal(Box::new(l), Box::new(r))) == first
            &&& eval(Term::NotEqual(Box::new(l), Box::new(r))) == first
        }),
{
}

/// No operator converts between booleans and strings: comparing a boolean
/// with a string is an error, whatever the two values are.
pub proof fn lemma_mixed_comparison_is_rejected(l: Term, r: Term)
    requires
        eval(l) is Ok,
        eval(r) is Ok,
        (eval(l)->Ok_0 is Bool) != (eval(r)->Ok_0 is Bool),
    ensures
        eval(Term::Equal(Box::new(l), Box::new(r))) == Err::<Value, TypeError>(
            TypeError::MixedComparison,
        ),
        eval(Term::NotEqual(Box::new(l), Box::new(r))) == Err::<Value, TypeError>(
            TypeError::MixedComparison,
        ),
{
}

/// The kind of a value comes from the literals alone: every operator gives a
/// boolean, so only a string literal evaluates to a string, and to its own
/// content.
pub proof fn lemma_only_literals_are_strings(term: Term)
    ensures
        eval(term) matches Ok(Value::Str(s)) ==> term == Term::Str(s),
{
}

/// `!=` is the negation of `==` wherever either has a value.
pub proof fn lemma_not_equal_negates_equal(l: Term, r: Term)
    ensures
        eval(Term::NotEqual(Box::new(l), Box::new(r))) == match eval(
            Term::Equal(Box::new(l), Box::new(r)),
        ) {
            Ok(v) => negation(v),
            Err(e) => Err(e),
        },
{
}

/// Whether `result` is the outcome `expected`.
pub open spec fn is_outcome(result: Result<EvalResult, TypeError>, expected: Evaluated) -> bool {
    match expected {
        Ok(v) => result matches Ok(r) && r@ == v,
        Err(e) => result matches Err(err) && err == e,
    }
}

/// Evaluates an expression tree.
pub fn evaluate(expr: Expr) -> (result: Result<EvalResult, TypeError>)
    ensures
        is_outcome(result, eval(expr@)),
    decreases expr,
{
    match expr {
        Expr::BooleanLiteral(value) => Ok(EvalResult::Bool(value)),
        Expr::StringLiteral(s) => Ok(EvalResult::String(s)),
        Expr::Not(operand) => {
            match evaluate(*operand) {
                Ok(EvalResult::Bool(value)) => Ok(EvalResult::Bool(!value)),
                Ok(EvalResult::String(_)) => Err(TypeError::NegatedString),
                Err(e) => Err(e),
            }
        },
        Expr::And(left, right) => {
            let left = evaluate(*left);
            let right = evaluate(*right);
            match (left, right) {
                (Err(e), _) => Err(e),
                (Ok(_), Err(e)) => Err(e),
                (Ok(EvalResult::Bool(l)), Ok(EvalResult::Bool(r))) => Ok(EvalResult::Bool(l && r)),
                _ => Err(TypeError::NonBooleanOperand),
            }
        },
        Expr::Or(left, right) => {
            let left = evaluate(*left);
            let right = evaluate(*right);
            match (left, right) {
                (Err(e), _) => Err(e),
                (Ok(_), Err(e)) => Err(e),
                (Ok(EvalResult::Bool(l)), Ok(EvalResult::Bool(r))) => Ok(EvalResult::Bool(l || r)),
                _ => Err(TypeError::NonBooleanOperand),
            }
        },
        Expr::Equal(left, right) => {
            let left = evaluate(*left);
            let right = evaluate(*right);
            match (left, right) {
                (Err(e), _) => Err(e),
                (Ok(_), Err(e)) => Err(e),
                (Ok(EvalResult::Bool(l)), Ok(EvalResult::Bool(r))) => Ok(EvalResult::Bool(l == r)),
                (Ok(EvalResult::String(l)), Ok(EvalResult::String(r))) => Ok(
                    EvalResult::Bool(l == r),
                ),
                _ => Err(TypeError::MixedComparison),
            }
        },
        Expr::NotEqual(left, right) => {
            let left = evaluate(*left);
            let right = evaluate(*right);
            match (left, right) {
                (Err(e), _) => Err(e),
                (Ok(_), Err(e)) => Err(e),
                (Ok(EvalResult::Bool(l)), Ok(EvalResult::Bool(r))) => Ok(EvalResult::Bool(l != r)),
                (Ok(EvalResult::String(l)), Ok(EvalResult::String(r))) => Ok(
                    EvalResult::Bool(l != r),
                ),
                _ => Err(TypeError::MixedComparison),
            }
        },
    }
}

} // verus!
