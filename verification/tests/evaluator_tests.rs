use rustexpresive::evaluator::{evaluate, EvalResult, TypeError};
use rustexpresive::parser::{Expr, Parser};
use rustexpresive::tokenizer::tokenize;

fn boolean(b: bool) -> Box<Expr> {
    Box::new(Expr::BooleanLiteral(b))
}

fn string(s: &str) -> Box<Expr> {
    Box::new(Expr::StringLiteral(s.to_string()))
}

#[test]
fn test_evaluate_logics() {
    let tokens = tokenize("true && false || !true").unwrap();
    let mut parser = Parser::new(&tokens);
    let expr = parser.parse().unwrap();

    let result = evaluate(expr).unwrap();
    assert_eq!(result, EvalResult::Bool(false));
}

#[test]
fn test_evaluate_logics_parentheses() {
    let tokens = tokenize("!(true && false)").unwrap();
    let mut parser = Parser::new(&tokens);
    let expr = parser.parse().unwrap();

    let result = evaluate(expr).unwrap();
    assert_eq!(result, EvalResult::Bool(true));
}

#[test]
fn test_evaluate_logics_complex() {
    let tokens = tokenize("!(true!=false)&&(!(true))").unwrap();
    let mut parser = Parser::new(&tokens);
    let expr = parser.parse().unwrap();

    let result = evaluate(expr).unwrap();
    assert_eq!(result, EvalResult::Bool(false));
}

#[test]
fn test_evaluate_string_comparison_equal() {
    let tokens = tokenize("\"hola\" == \"hola\"").unwrap();
    let mut parser = Parser::new(&tokens);
    let expr = parser.parse().unwrap();

    let result = evaluate(expr).unwrap();
    assert_eq!(result, EvalResult::Bool(true));
}

#[test]
fn test_evaluate_string_comparison_not_equal() {
    let tokens = tokenize("\"hola\" != \"mundo\"").unwrap();
    let mut parser = Parser::new(&tokens);
    let expr = parser.parse().unwrap();

    let result = evaluate(expr).unwrap();
    assert_eq!(result, EvalResult::Bool(true));
}

#[test]
fn test_evaluate_string_and_boolean_comparison() {
    let tokens = tokenize("\"hola\" == true").unwrap();
    let mut parser = Parser::new(&tokens);
    let expr = parser.parse().unwrap();

    let result = evaluate(expr);
    assert!(result.is_err());
    assert_eq!(result, Err(TypeError::MixedComparison));
}

#[test]
fn test_evaluate_boolean_and_string() {
    let tokens = tokenize("true == \"true\"").unwrap();
    let mut parser = Parser::new(&tokens);
    let expr = parser.parse().unwrap();

    let result = evaluate(expr);
    assert!(result.is_err());
    assert_eq!(result, Err(TypeError::MixedComparison));
}

#[test]
fn test_evaluate_invalid_parentheses() {
    let tokens = tokenize("(true && false").unwrap();
    let mut parser = Parser::new(&tokens);
    assert!(parser.parse().is_err());
}

#[test]
fn literals_evaluate_to_themselves() {
    assert_eq!(
        evaluate(Expr::BooleanLiteral(true)),
        Ok(EvalResult::Bool(true))
    );
    assert_eq!(
        evaluate(Expr::BooleanLiteral(false)),
        Ok(EvalResult::Bool(false))
    );
    assert_eq!(
        evaluate(Expr::StringLiteral("abc".to_string())),
        Ok(EvalResult::String("abc".to_string()))
    );
}

#[test]
fn negation_table() {
    assert_eq!(
        evaluate(Expr::Not(boolean(true))),
        Ok(EvalResult::Bool(false))
    );
    assert_eq!(
        evaluate(Expr::Not(boolean(false))),
        Ok(EvalResult::Bool(true))
    );
    assert_eq!(
        evaluate(Expr::Not(string("x"))),
        Err(TypeError::NegatedString)
    );
}

#[test]
fn conjunction_and_disjunction_tables() {
    for a in [false, true] {
        for b in [false, true] {
            assert_eq!(
                evaluate(Expr::And(boolean(a), boolean(b))),
                Ok(EvalResult::Bool(a && b))
            );
            assert_eq!(
                evaluate(Expr::Or(boolean(a), boolean(b))),
                Ok(EvalResult::Bool(a || b))
            );
        }
    }
}

#[test]
fn comparison_tables() {
    for a in [false, true] {
        for b in [false, true] {
            assert_eq!(
                evaluate(Expr::Equal(boolean(a), boolean(b))),
                Ok(EvalResult::Bool(a == b))
            );
            assert_eq!(
                evaluate(Expr::NotEqual(boolean(a), boolean(b))),
                Ok(EvalResult::Bool(a != b))
            );
        }
    }
    assert_eq!(
        evaluate(Expr::Equal(string("a"), string("a"))),
        Ok(EvalResult::Bool(true))
    );
    assert_eq!(
        evaluate(Expr::Equal(string("a"), string("b"))),
        Ok(EvalResult::Bool(false))
    );
    assert_eq!(
        evaluate(Expr::NotEqual(string("a"), string("a"))),
        Ok(EvalResult::Bool(false))
    );
    assert_eq!(
        evaluate(Expr::NotEqual(string("a"), string("b"))),
        Ok(EvalResult::Bool(true))
    );
    assert_eq!(
        evaluate(Expr::Equal(string(""), string(""))),
        Ok(EvalResult::Bool(true))
    );
}

#[test]
fn strings_are_not_booleans() {
    assert_eq!(
        evaluate(Expr::And(boolean(true), string("true"))),
        Err(TypeError::NonBooleanOperand)
    );
    assert_eq!(
        evaluate(Expr::And(string("true"), boolean(true))),
        Err(TypeError::NonBooleanOperand)
    );
    assert_eq!(
        evaluate(Expr::Or(string("a"), string("b"))),
        Err(TypeError::NonBooleanOperand)
    );
    assert_eq!(
        evaluate(Expr::Equal(boolean(true), string("true"))),
        Err(TypeError::MixedComparison)
    );
    assert_eq!(
        evaluate(Expr::NotEqual(string("false"), boolean(false))),
        Err(TypeError::MixedComparison)
    );
}

#[test]
fn right_operand_is_evaluated_whatever_the_left_gives() {
    assert_eq!(
        evaluate(Expr::And(boolean(false), string("x"))),
        Err(TypeError::NonBooleanOperand)
    );
    assert_eq!(
        evaluate(Expr::Or(boolean(true), string("x"))),
        Err(TypeError::NonBooleanOperand)
    );
    assert_eq!(
        evaluate(Expr::And(
            boolean(false),
            Box::new(Expr::Not(string("x")))
        )),
        Err(TypeError::NegatedString)
    );
    assert_eq!(
        evaluate(Expr::Or(
            boolean(true),
            Box::new(Expr::Equal(boolean(true), string("x")))
        )),
        Err(TypeError::MixedComparison)
    );
}

#[test]
fn left_failure_comes_before_right_failure() {
    assert_eq!(
        evaluate(Expr::And(
            Box::new(Expr::Not(string("x"))),
            Box::new(Expr::Equal(boolean(true), string("x")))
        )),
        Err(TypeError::NegatedString)
    );
    assert_eq!(
        evaluate(Expr::Equal(
            Box::new(Expr::And(boolean(true), string("x"))),
            Box::new(Expr::Not(string("x")))
        )),
        Err(TypeError::NonBooleanOperand)
    );
    assert_eq!(
        evaluate(Expr::Or(
            string("x"),
            Box::new(Expr::Not(string("y")))
        )),
        Err(TypeError::NegatedString)
    );
}

#[test]
fn eval_results_compare_by_kind_and_content() {
    assert_eq!(EvalResult::Bool(true), EvalResult::Bool(true));
    assert_ne!(EvalResult::Bool(true), EvalResult::Bool(false));
    assert_eq!(
        EvalResult::String("a".to_string()),
        EvalResult::String("a".to_string())
    );
    assert_ne!(
        EvalResult::String("a".to_string()),
        EvalResult::String("b".to_string())
    );
    assert_ne!(EvalResult::String("true".to_string()), EvalResult::Bool(true));
    assert_ne!(EvalResult::Bool(false), EvalResult::String("false".to_string()));
}

#[test]
fn eval_results_as_text() {
    assert_eq!(EvalResult::Bool(true).into_text(), "true");
    assert_eq!(EvalResult::Bool(false).into_text(), "false");
    assert_eq!(EvalResult::String("a \"b\"".to_string()).into_text(), "a \"b\"");
}

#[test]
fn type_error_messages() {
    assert_eq!(
        TypeError::NegatedString.message(),
        "cannot negate a string"
    );
    assert_eq!(
        TypeError::NonBooleanOperand.message(),
        "both operands must be boolean for AND/OR"
    );
    assert_eq!(
        TypeError::MixedComparison.message(),
        "cannot compare boolean and string"
    );
}
