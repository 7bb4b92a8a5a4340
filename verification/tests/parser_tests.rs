use rustexpresive::parser::{Expr, ParseError, Parser};
use rustexpresive::tokenizer::{tokenize, Token};

fn parse_text(text: &str) -> Result<Expr, ParseError> {
    let tokens = tokenize(text).unwrap();
    let mut parser = Parser::new(&tokens);
    parser.parse()
}

fn parse_whole(text: &str) -> Result<Expr, ParseError> {
    let tokens = tokenize(text).unwrap();
    let mut parser = Parser::new(&tokens);
    parser.parse_to_end()
}

fn boolean(b: bool) -> Box<Expr> {
    Box::new(Expr::BooleanLiteral(b))
}

fn string(s: &str) -> Box<Expr> {
    Box::new(Expr::StringLiteral(s.to_string()))
}

#[test]
fn test_parser_logics() {
    let tokens = tokenize("true && false || !true").unwrap();
    let mut parser = Parser::new(&tokens);
    let expr = parser.parse().unwrap();

    let expected = Expr::Or(
        Box::new(Expr::And(
            Box::new(Expr::BooleanLiteral(true)),
            Box::new(Expr::BooleanLiteral(false)),
        )),
        Box::new(Expr::Not(Box::new(Expr::BooleanLiteral(true)))),
    );

    assert_eq!(expr, expected);
}

#[test]
fn test_parser_parentheses() {
    let tokens = tokenize("!(true && false)").unwrap();
    let mut parser = Parser::new(&tokens);
    let expr = parser.parse().unwrap();

    let expected = Expr::Not(Box::new(Expr::And(
        Box::new(Expr::BooleanLiteral(true)),
        Box::new(Expr::BooleanLiteral(false)),
    )));
    assert_eq!(expr, expected);
}

#[test]
fn test_parser_invalid_parentheses() {
    let tokens = tokenize("(true && false").unwrap();
    let mut parser = Parser::new(&tokens);
    assert_eq!(parser.parse(), Err(ParseError::MissingClosingParen));
}

#[test]
fn test_parser_string_comparison() {
    let tokens = tokenize(r#""hello" == "world""#).unwrap();
    let mut parser = Parser::new(&tokens);
    let expr = parser.parse().unwrap();

    let expected = Expr::Equal(
        Box::new(Expr::StringLiteral("hello".to_string())),
        Box::new(Expr::StringLiteral("world".to_string())),
    );
    assert_eq!(expr, expected);
}

#[test]
fn test_parser_string_not_equal() {
    let tokens = tokenize(r#""hello" != "world""#).unwrap();
    let mut parser = Parser::new(&tokens);
    let expr = parser.parse().unwrap();

    let expected = Expr::NotEqual(
        Box::new(Expr::StringLiteral("hello".to_string())),
        Box::new(Expr::StringLiteral("world".to_string())),
    );
    assert_eq!(expr, expected);
}

#[test]
fn literals_are_atoms() {
    assert_eq!(parse_whole("true"), Ok(Expr::BooleanLiteral(true)));
    assert_eq!(parse_whole("false"), Ok(Expr::BooleanLiteral(false)));
    assert_eq!(
        parse_whole("\"text\""),
        Ok(Expr::StringLiteral("text".to_string()))
    );
}

#[test]
fn and_binds_tighter_than_or() {
    assert_eq!(
        parse_whole("true || false && false"),
        Ok(Expr::Or(
            boolean(true),
            Box::new(Expr::And(boolean(false), boolean(false)))
        ))
    );
}

#[test]
fn equality_binds_tighter_than_and() {
    assert_eq!(
        parse_whole("true && \"a\" != \"b\""),
        Ok(Expr::And(
            boolean(true),
            Box::new(Expr::NotEqual(string("a"), string("b")))
        ))
    );
}

#[test]
fn chains_group_to_the_left() {
    assert_eq!(
        parse_whole("true || false || true"),
        Ok(Expr::Or(
            Box::new(Expr::Or(boolean(true), boolean(false))),
            boolean(true)
        ))
    );
    assert_eq!(
        parse_whole("true && false && true"),
        Ok(Expr::And(
            Box::new(Expr::And(boolean(true), boolean(false))),
            boolean(true)
        ))
    );
    assert_eq!(
        parse_whole("true == true != false"),
        Ok(Expr::NotEqual(
            Box::new(Expr::Equal(boolean(true), boolean(true))),
            boolean(false)
        ))
    );
    assert_eq!(
        parse_whole("true != true == false"),
        Ok(Expr::Equal(
            Box::new(Expr::NotEqual(boolean(true), boolean(true))),
            boolean(false)
        ))
    );
}

#[test]
fn not_takes_one_atom() {
    assert_eq!(
        parse_whole("!true == false"),
        Ok(Expr::Equal(
            Box::new(Expr::Not(boolean(true))),
            boolean(false)
        ))
    );
    assert_eq!(
        parse_whole("!(true == false)"),
        Ok(Expr::Not(Box::new(Expr::Equal(
            boolean(true),
            boolean(false)
        ))))
    );
    assert_eq!(parse_whole("!!true"), Err(ParseError::ExpectedExpression));
    assert_eq!(
        parse_whole("!(!true)"),
        Ok(Expr::Not(Box::new(Expr::Not(boolean(true)))))
    );
}

#[test]
fn parentheses_leave_no_node() {
    assert_eq!(parse_whole("((true))"), Ok(Expr::BooleanLiteral(true)));
    assert_eq!(
        parse_whole("(true || false) && false"),
        Ok(Expr::And(
            Box::new(Expr::Or(boolean(true), boolean(false))),
            boolean(false)
        ))
    );
}

#[test]
fn missing_closing_parenthesis() {
    assert_eq!(parse_whole("(true"), Err(ParseError::MissingClosingParen));
    assert_eq!(
        parse_whole("((true)"),
        Err(ParseError::MissingClosingParen)
    );
    assert_eq!(
        parse_whole("(true && false"),
        Err(ParseError::MissingClosingParen)
    );
    assert_eq!(
        parse_whole("(true false)"),
        Err(ParseError::MissingClosingParen)
    );
    assert_eq!(
        parse_whole("true && (false || (true)"),
        Err(ParseError::MissingClosingParen)
    );
}

#[test]
fn expected_expression() {
    assert_eq!(parse_whole(""), Err(ParseError::ExpectedExpression));
    assert_eq!(parse_whole(")"), Err(ParseError::ExpectedExpression));
    assert_eq!(parse_whole("&& true"), Err(ParseError::ExpectedExpression));
    assert_eq!(parse_whole("true &&"), Err(ParseError::ExpectedExpression));
    assert_eq!(parse_whole("true ||"), Err(ParseError::ExpectedExpression));
    assert_eq!(parse_whole("true =="), Err(ParseError::ExpectedExpression));
    assert_eq!(parse_whole("!"), Err(ParseError::ExpectedExpression));
    assert_eq!(parse_whole("()"), Err(ParseError::ExpectedExpression));
    assert_eq!(parse_whole("("), Err(ParseError::ExpectedExpression));
    assert_eq!(
        parse_whole("false && \"x\"=="),
        Err(ParseError::ExpectedExpression)
    );
}

#[test]
fn trailing_tokens() {
    assert_eq!(parse_whole("true true"), Err(ParseError::TrailingTokens));
    assert_eq!(parse_whole("true)"), Err(ParseError::TrailingTokens));
    assert_eq!(parse_whole("(true))"), Err(ParseError::TrailingTokens));
    assert_eq!(parse_whole("true !false"), Err(ParseError::TrailingTokens));
    assert_eq!(
        parse_whole("true \"x\""),
        Err(ParseError::TrailingTokens)
    );
}

#[test]
fn parse_takes_the_longest_expression_and_stops() {
    assert_eq!(parse_text("true true"), Ok(Expr::BooleanLiteral(true)));
    assert_eq!(
        parse_text("true && false) || true"),
        Ok(Expr::And(boolean(true), boolean(false)))
    );
}

#[test]
fn parse_continues_where_it_stopped() {
    let tokens = vec![Token::True, Token::False, Token::Not, Token::True];
    let mut parser = Parser::new(&tokens);
    assert_eq!(parser.parse(), Ok(Expr::BooleanLiteral(true)));
    assert_eq!(parser.parse(), Ok(Expr::BooleanLiteral(false)));
    assert_eq!(parser.parse_to_end(), Ok(Expr::Not(boolean(true))));
    assert_eq!(parser.parse(), Err(ParseError::ExpectedExpression));
}

#[test]
fn parse_error_messages() {
    assert_eq!(
        ParseError::ExpectedExpression.message(),
        "expected expression"
    );
    assert_eq!(
        ParseError::MissingClosingParen.message(),
        "missing closing parenthesis"
    );
    assert_eq!(
        ParseError::TrailingTokens.message(),
        "unexpected tokens after the expression"
    );
}

#[test]
fn terms_written_with_the_fewest_parentheses_parse_back() {
    assert_eq!(
        parse_whole("true && \"a\" == \"b\" || !(false || true)"),
        Ok(Expr::Or(
            Box::new(Expr::And(
                boolean(true),
                Box::new(Expr::Equal(string("a"), string("b")))
            )),
            Box::new(Expr::Not(Box::new(Expr::Or(
                boolean(false),
                boolean(true)
            ))))
        ))
    );
    assert_eq!(
        parse_whole("true == (false == false)"),
        Ok(Expr::Equal(
            boolean(true),
            Box::new(Expr::Equal(boolean(false), boolean(false)))
        ))
    );
    assert_eq!(
        parse_whole("true && (false && true)"),
        Ok(Expr::And(
            boolean(true),
            Box::new(Expr::And(boolean(false), boolean(true)))
        ))
    );
    assert_eq!(
        parse_whole("true || (false || true)"),
        Ok(Expr::Or(
            boolean(true),
            Box::new(Expr::Or(boolean(false), boolean(true)))
        ))
    );
    assert_eq!(
        parse_whole("(true || false) == (true && false)"),
        Ok(Expr::Equal(
            Box::new(Expr::Or(boolean(true), boolean(false))),
            Box::new(Expr::And(boolean(true), boolean(false)))
        ))
    );
    assert_eq!(
        parse_whole("!(true == false) != !true"),
        Ok(Expr::NotEqual(
            Box::new(Expr::Not(Box::new(Expr::Equal(
                boolean(true),
                boolean(false)
            )))),
            Box::new(Expr::Not(boolean(true)))
        ))
    );
}

#[test]
fn parentheses_that_differ_in_number_are_rejected() {
    assert!(parse_whole("((true)").is_err());
    assert!(parse_whole("(true))").is_err());
    assert!(parse_whole(")true(").is_err());
    assert!(parse_whole("(true && (false || true)").is_err());
    assert!(parse_whole("true && (false || true))").is_err());
}
