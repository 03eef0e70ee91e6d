use gfd::number::Num;
use gfd::tokenizer::{tokenize, KeywordKind, Token};
use gfd::ExpressionError;

fn int_token(i: i64) -> Token {
    Token::Number(Num::from_int(i))
}

#[test]
fn basic_expression() {
    let tokens = tokenize("1 + 2 * x").unwrap();
    assert_eq!(
        tokens,
        vec![
            int_token(1),
            Token::Operator('+'),
            int_token(2),
            Token::Operator('*'),
            Token::Identifier("x".into()),
        ]
    );
}

#[test]
fn field_ref() {
    let tokens = tokenize("$rho * $U").unwrap();
    assert_eq!(
        tokens,
        vec![
            Token::FieldRef("rho".into()),
            Token::Operator('*'),
            Token::FieldRef("U".into()),
        ]
    );
}

#[test]
fn scientific_notation() {
    let tokens = tokenize("3.14e-2 + 1E+3").unwrap();
    assert_eq!(
        tokens,
        vec![
            Token::Number(Num::decimal(314, -4)),
            Token::Operator('+'),
            Token::Number(Num::decimal(1, 3)),
        ]
    );
}

#[test]
fn tokenizer_function_call() {
    let tokens = tokenize("sin(x) + cos(y)").unwrap();
    assert_eq!(
        tokens,
        vec![
            Token::Identifier("sin".into()),
            Token::LeftParen,
            Token::Identifier("x".into()),
            Token::RightParen,
            Token::Operator('+'),
            Token::Identifier("cos".into()),
            Token::LeftParen,
            Token::Identifier("y".into()),
            Token::RightParen,
        ]
    );
}

#[test]
fn keywords() {
    let tokens = tokenize("if(x, 1, 0)").unwrap();
    assert_eq!(tokens[0], Token::Keyword(KeywordKind::If));
}

#[test]
fn err_bare_dollar() {
    assert!(tokenize("$ + 1").is_err());
}

#[test]
fn bare_dollar_error_position() {
    match tokenize("x + $").unwrap_err() {
        ExpressionError::TokenizeError { position, .. } => assert_eq!(position, 5),
        other => panic!("unexpected error: {other:?}"),
    }
}

#[test]
fn unexpected_character_is_reported() {
    assert!(matches!(
        tokenize("1 # 2"),
        Err(ExpressionError::TokenizeError { position: 2, .. })
    ));
}

#[test]
fn punctuation_and_keywords() {
    let tokens = tokenize("const a = 1; switch").unwrap();
    assert_eq!(
        tokens,
        vec![
            Token::Keyword(KeywordKind::Const),
            Token::Identifier("a".into()),
            Token::Equals,
            int_token(1),
            Token::Semicolon,
            Token::Keyword(KeywordKind::Switch),
        ]
    );
}

#[test]
fn identifier_with_unicode_letters() {
    let tokens = tokenize("xé_2 + 1").unwrap();
    assert_eq!(tokens[0], Token::Identifier("xé_2".into()));
    assert_eq!(tokens.len(), 3);
}

#[test]
fn decimal_literals_are_exact() {
    let tokens = tokenize("0.1 2.50 1e2").unwrap();
    assert_eq!(
        tokens,
        vec![
            Token::Number(Num::decimal(1, -1)),
            Token::Number(Num::decimal(25, -1)),
            int_token(100),
        ]
    );
}

#[test]
fn empty_input_has_no_tokens() {
    assert_eq!(tokenize("   ").unwrap(), vec![]);
}
