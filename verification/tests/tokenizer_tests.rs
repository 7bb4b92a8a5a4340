use rustexpresive::tokenizer::{tokenize, LexError, Token};

#[test]
fn test_tokenize_true() {
    assert_eq!(tokenize("true").unwrap(), vec![Token::True]);
}

#[test]
fn test_tokenize_false() {
    assert_eq!(tokenize("false").unwrap(), vec![Token::False]);
}

#[test]
fn test_tokenize_not_true() {
    assert_eq!(tokenize("!true").unwrap(), vec![Token::Not, Token::True]);
}

#[test]
fn test_tokenize_true_equal_false() {
    assert_eq!(
        tokenize("true == false").unwrap(),
        vec![Token::True, Token::Equal, Token::False]
    );
}

#[test]
fn test_tokenize_not_paren_true_not_equal_false() {
    assert_eq!(
        tokenize("!(true != false)").unwrap(),
        vec![
            Token::Not,
            Token::LParen,
            Token::True,
            Token::NotEqual,
            Token::False,
            Token::RParen
        ]
    );
}

#[test]
fn test_tokenize_not_paren_false_and_true() {
    assert_eq!(
        tokenize("!(false && true)").unwrap(),
        vec![
            Token::Not,
            Token::LParen,
            Token::False,
            Token::And,
            Token::True,
            Token::RParen
        ]
    );
}

#[test]
fn test_tokenize_true_or_false() {
    assert_eq!(
        tokenize("true || false").unwrap(),
        vec![Token::True, Token::Or, Token::False]
    );
}

#[test]
fn test_tokenize_complex_expression() {
    let result = tokenize("!(true!=false)&&(!(true))").unwrap();
    println!("{:?}", result);
    assert_eq!(
        result,
        vec![
            Token::Not,
            Token::LParen,
            Token::True,
            Token::NotEqual,
            Token::False,
            Token::RParen,
            Token::And,
            Token::LParen,
            Token::Not,
            Token::LParen,
            Token::True,
            Token::RParen,
            Token::RParen
        ]
    );
}

#[test]
fn test_tokenize_string_with_comparison() {
    assert_eq!(
        tokenize(r#" "Hola amigo"=="esto es una prueba" "#).unwrap(),
        vec![
            Token::StringLiteral(("Hola amigo").to_string()),
            Token::Equal,
            Token::StringLiteral(("esto es una prueba").to_string())
        ]
    );
}

#[test]
fn test_tokenize_string_with_escape() {
    assert_eq!(
        tokenize(r#" "Hola \"amigo\"" != "esto es una \"prueba\"" "#).unwrap(),
        vec![
            Token::StringLiteral(("Hola \"amigo\"").to_string()),
            Token::NotEqual,
            Token::StringLiteral(("esto es una \"prueba\"").to_string())
        ]
    );
}

#[test]
fn test_tokenize_unmatched_quotes() {
    let result = tokenize(r#""Hola mundo"#);
    assert!(result.is_err());
    assert_eq!(result, Err(LexError::UnterminatedString));
}

#[test]
fn test_tokenize_numbers() {
    assert_eq!(tokenize("123"), Err(LexError::UnexpectedCharacter('1')));
    assert_eq!(tokenize("-123"), Err(LexError::UnexpectedCharacter('-')));
    assert_eq!(tokenize("123.45"), Err(LexError::UnexpectedCharacter('1')));
    assert_eq!(tokenize("0.1"), Err(LexError::UnexpectedCharacter('0')));
    assert_eq!(tokenize(".5"), Err(LexError::UnexpectedCharacter('.')));
}

#[test]
fn test_tokenize_operations() {
    assert_eq!(tokenize("-1 + 2"), Err(LexError::UnexpectedCharacter('-')));
    assert_eq!(tokenize("3 - 4"), Err(LexError::UnexpectedCharacter('3')));
    assert_eq!(tokenize("5 * 6"), Err(LexError::UnexpectedCharacter('5')));
    assert_eq!(tokenize("7 / 8"), Err(LexError::UnexpectedCharacter('7')));
}

#[test]
fn test_tokenize_number_complex_expression() {
    let result = tokenize("1 + 2 * 3 - 4 / 5");
    assert_eq!(result, Err(LexError::UnexpectedCharacter('1')));
}

#[test]
fn empty_text_has_no_tokens() {
    assert_eq!(tokenize("").unwrap(), vec![]);
    assert_eq!(tokenize("    ").unwrap(), vec![]);
}

#[test]
fn blanks_only_separate() {
    assert_eq!(tokenize("  ( true )  ").unwrap(), tokenize("(true)").unwrap());
    assert_eq!(
        tokenize("true&&false").unwrap(),
        vec![Token::True, Token::And, Token::False]
    );
}

#[test]
fn blanks_inside_a_string_are_content() {
    assert_eq!(
        tokenize("\"  a  b \"").unwrap(),
        vec![Token::StringLiteral("  a  b ".to_string())]
    );
}

#[test]
fn bang_before_equals_is_not_equal() {
    assert_eq!(tokenize("!=").unwrap(), vec![Token::NotEqual]);
    assert_eq!(tokenize("! =="), Ok(vec![Token::Not, Token::Equal]));
    assert_eq!(tokenize("!!").unwrap(), vec![Token::Not, Token::Not]);
    assert_eq!(
        tokenize("!==").unwrap_err(),
        LexError::IncompleteOperator('=')
    );
}

#[test]
fn lone_operators_are_rejected() {
    assert_eq!(tokenize("true = false"), Err(LexError::IncompleteOperator('=')));
    assert_eq!(tokenize("true & false"), Err(LexError::IncompleteOperator('&')));
    assert_eq!(tokenize("true | false"), Err(LexError::IncompleteOperator('|')));
    assert_eq!(tokenize("="), Err(LexError::IncompleteOperator('=')));
    assert_eq!(tokenize("&"), Err(LexError::IncompleteOperator('&')));
    assert_eq!(tokenize("|"), Err(LexError::IncompleteOperator('|')));
    assert_eq!(tokenize("& &"), Err(LexError::IncompleteOperator('&')));
}

#[test]
fn misspelled_keywords_are_rejected() {
    assert_eq!(tokenize("tru"), Err(LexError::MisspelledKeyword));
    assert_eq!(tokenize("t"), Err(LexError::MisspelledKeyword));
    assert_eq!(tokenize("trye"), Err(LexError::MisspelledKeyword));
    assert_eq!(tokenize("fals"), Err(LexError::MisspelledKeyword));
    assert_eq!(tokenize("f"), Err(LexError::MisspelledKeyword));
    assert_eq!(tokenize("falze"), Err(LexError::MisspelledKeyword));
    assert_eq!(tokenize("tRUE"), Err(LexError::MisspelledKeyword));
}

#[test]
fn keywords_are_case_sensitive() {
    assert_eq!(tokenize("True"), Err(LexError::UnexpectedCharacter('T')));
    assert_eq!(tokenize("FALSE"), Err(LexError::UnexpectedCharacter('F')));
}

#[test]
fn adjacent_keywords_are_two_tokens() {
    assert_eq!(
        tokenize("truefalse").unwrap(),
        vec![Token::True, Token::False]
    );
    assert_eq!(tokenize("truex"), Err(LexError::UnexpectedCharacter('x')));
}

#[test]
fn unexpected_characters_are_rejected() {
    assert_eq!(tokenize("true ? false"), Err(LexError::UnexpectedCharacter('?')));
    assert_eq!(tokenize("\ttrue"), Err(LexError::UnexpectedCharacter('\t')));
    assert_eq!(tokenize("true\n"), Err(LexError::UnexpectedCharacter('\n')));
    assert_eq!(tokenize("ñ"), Err(LexError::UnexpectedCharacter('ñ')));
}

#[test]
fn arithmetic_symbols_are_rejected() {
    assert_eq!(tokenize("true + false"), Err(LexError::UnexpectedCharacter('+')));
    assert_eq!(tokenize("true - false"), Err(LexError::UnexpectedCharacter('-')));
    assert_eq!(tokenize("true * false"), Err(LexError::UnexpectedCharacter('*')));
    assert_eq!(tokenize("true / false"), Err(LexError::UnexpectedCharacter('/')));
}

#[test]
fn first_error_from_the_left_wins() {
    assert_eq!(tokenize("= \"open"), Err(LexError::IncompleteOperator('=')));
    assert_eq!(tokenize("\"open ="), Err(LexError::UnterminatedString));
    assert_eq!(tokenize("tru ?"), Err(LexError::MisspelledKeyword));
    assert_eq!(tokenize("? tru"), Err(LexError::UnexpectedCharacter('?')));
}

#[test]
fn escaped_quote_is_stored_without_its_backslash() {
    assert_eq!(
        tokenize(r#""a \"b\" c""#).unwrap(),
        vec![Token::StringLiteral("a \"b\" c".to_string())]
    );
}

#[test]
fn backslash_before_another_character_is_kept() {
    assert_eq!(
        tokenize(r#""a\xb""#).unwrap(),
        vec![Token::StringLiteral("a\\xb".to_string())]
    );
    assert_eq!(
        tokenize(r#""a\\b""#).unwrap(),
        vec![Token::StringLiteral("a\\\\b".to_string())]
    );
    assert_eq!(
        tokenize(r#""\n""#).unwrap(),
        vec![Token::StringLiteral("\\n".to_string())]
    );
}

#[test]
fn unterminated_strings_are_rejected() {
    assert_eq!(tokenize("\""), Err(LexError::UnterminatedString));
    assert_eq!(tokenize("\"abc"), Err(LexError::UnterminatedString));
    assert_eq!(tokenize("\"abc\\\""), Err(LexError::UnterminatedString));
    assert_eq!(tokenize("\"abc\\"), Err(LexError::UnterminatedString));
    assert_eq!(tokenize("true == \"x"), Err(LexError::UnterminatedString));
}

#[test]
fn empty_string_literal() {
    assert_eq!(
        tokenize("\"\"").unwrap(),
        vec![Token::StringLiteral(String::new())]
    );
    assert_eq!(
        tokenize("\"\"\"\"").unwrap(),
        vec![
            Token::StringLiteral(String::new()),
            Token::StringLiteral(String::new())
        ]
    );
}

#[test]
fn strings_may_hold_any_character() {
    assert_eq!(
        tokenize("\"(true && ñandú) = 1\"").unwrap(),
        vec![Token::StringLiteral("(true && ñandú) = 1".to_string())]
    );
}

#[test]
fn lex_error_messages() {
    assert_eq!(
        LexError::UnexpectedCharacter('?').message(),
        "unexpected character '?'"
    );
    assert_eq!(
        LexError::IncompleteOperator('&').message(),
        "incomplete operator: expected a second '&'"
    );
    assert_eq!(
        LexError::MisspelledKeyword.message(),
        "misspelled keyword: expected true or false"
    );
    assert_eq!(
        LexError::UnterminatedString.message(),
        "unterminated string literal"
    );
}

#[test]
fn texts_joined_by_a_blank_give_their_tokens_in_turn() {
    let first = "!(true&&\"a  b\")";
    let second = "||false!=\"\\\"\"";
    let mut expected = tokenize(first).unwrap();
    expected.extend(tokenize(second).unwrap());
    assert_eq!(expected.len(), 10);
    let joined = format!("{} {}", first, second);
    assert_eq!(tokenize(&joined).unwrap(), expected);
    let apart = format!("  {}    {} ", first, second);
    assert_eq!(tokenize(&apart).unwrap(), expected);
}

#[test]
fn a_blank_after_a_failure_changes_nothing() {
    assert_eq!(tokenize("\"open "), Err(LexError::UnterminatedString));
    assert_eq!(tokenize("tru "), Err(LexError::MisspelledKeyword));
    assert_eq!(tokenize("= "), Err(LexError::IncompleteOperator('=')));
    assert_eq!(tokenize("! ").unwrap(), vec![Token::Not]);
}

#[test]
fn lexemes_spelled_with_a_blank_after_each_are_read_back() {
    let text = "( ! true != \"say \\\"hi\\\" \\x\" ) && || == false ";
    assert_eq!(
        tokenize(text).unwrap(),
        vec![
            Token::LParen,
            Token::Not,
            Token::True,
            Token::NotEqual,
            Token::StringLiteral("say \"hi\" \\x".to_string()),
            Token::RParen,
            Token::And,
            Token::Or,
            Token::Equal,
            Token::False
        ]
    );
}
