use lox::errors::err::{error, Failure, RuntimeErr};
use lox::parsing::expressions::{Binary, Expr, Fragment, Grouping, Literal, Unary, Value};
use lox::parsing::keywords::keywords_map;
use lox::parsing::tokens::{Token, TokenType};
use lox::parsing::visitor::Printer;
use lox::text::decimal_text;

fn join(fragments: Vec<Fragment>) -> String {
    fragments
        .into_iter()
        .map(|f| match f {
            Fragment::Text(s) => s,
            Fragment::Number(bits) => format!("{}", f64::from_bits(bits)),
        })
        .collect()
}

fn number(text: &str) -> Expr {
    let bits = text.parse::<f64>().unwrap().to_bits();
    Expr::Literal(Literal::new(
        Token::new_int(TokenType::NUMBER, text.to_string(), 1, bits),
        Value::Int(bits),
    ))
}

#[test]
fn token_text_is_kind_lexeme_line() {
    let token = Token::new(TokenType::LEFT_PAREN, "(".to_string(), 12);
    assert_eq!(token.to_text(), "LEFT_PAREN ( 12");
    let token = Token::new_str(TokenType::STRING, "\"a b\"".to_string(), 4000000000, "a b".to_string());
    assert_eq!(token.to_text(), "STRING \"a b\" 4000000000");
    let token = Token::new(TokenType::EOF, String::new(), 1);
    assert_eq!(token.to_text(), "EOF  1");
    let token = Token::new(TokenType::DEF, "fun".to_string(), 10);
    assert_eq!(token.to_text(), "DEF fun 10");
}

#[test]
fn token_text_names_the_kind_as_debug_does() {
    let kinds = vec![
        TokenType::LEFT_PAREN,
        TokenType::RIGHT_BRACE,
        TokenType::BANG_EQUAL,
        TokenType::GREATER_EQUAL,
        TokenType::IDENTIFIER,
        TokenType::NUMBER,
        TokenType::WHILE,
        TokenType::EOF,
    ];
    for kind in kinds {
        assert_eq!(kind.name(), format!("{:?}", kind));
    }
}

#[test]
fn decimal_text_of_line_numbers() {
    assert_eq!(decimal_text(0), "0");
    assert_eq!(decimal_text(7), "7");
    assert_eq!(decimal_text(10), "10");
    assert_eq!(decimal_text(1905), "1905");
    assert_eq!(decimal_text(u32::MAX), "4294967295");
}

#[test]
fn report_names_line_and_message() {
    assert_eq!(
        error(3, &"Unexpected character.".to_string()),
        "[Line 3] ERROR: Unexpected character."
    );
}

#[test]
fn constructors_keep_their_arguments() {
    let token = Token::new_int(TokenType::NUMBER, "2.5".to_string(), 3, 2.5f64.to_bits());
    assert_eq!(token.variant, TokenType::NUMBER);
    assert_eq!(token.lexeme, "2.5");
    assert_eq!(token.number, Some(2.5f64.to_bits()));
    assert_eq!(token.string, None);
    assert_eq!(token.line, 3);
    let copy = token.duplicate();
    assert_eq!(copy.lexeme, "2.5");
    assert_eq!(copy.number, token.number);
    let failure = RuntimeErr::default();
    assert_eq!(failure.message, "ERR");
    assert_eq!(failure.token.variant, TokenType::BANG);
    assert_eq!(failure.token.lexeme, "!");
    assert_eq!(failure.token.line, 1);
    let failure = RuntimeErr::new(Failure::UndefinedVariable, "m".to_string(), token);
    assert_eq!(failure.kind, Failure::UndefinedVariable);
    assert_eq!(failure.token.lexeme, "2.5");
    let nil = Literal::default();
    assert!(matches!(nil.val, Value::Nil));
    assert_eq!(nil.token.variant, TokenType::NIL);
    assert_eq!(nil.token.lexeme, "NIL");
}

#[test]
fn keywords_are_the_sixteen() {
    let keywords = keywords_map();
    assert_eq!(keywords.len(), 16);
    let expected = vec![
        ("and", TokenType::AND),
        ("class", TokenType::CLASS),
        ("else", TokenType::ELSE),
        ("false", TokenType::FALSE),
        ("for", TokenType::FOR),
        ("fun", TokenType::DEF),
        ("if", TokenType::IF),
        ("nil", TokenType::NIL),
        ("or", TokenType::OR),
        ("print", TokenType::PRINT),
        ("return", TokenType::RETURN),
        ("super", TokenType::SUPER),
        ("this", TokenType::THIS),
        ("true", TokenType::TRUE),
        ("var", TokenType::VAR),
        ("while", TokenType::WHILE),
    ];
    for (word, kind) in expected {
        assert_eq!(keywords.get(word), Some(&kind));
    }
    assert_eq!(keywords.get("fn"), None);
}

#[test]
fn values_are_written_out() {
    assert_eq!(join(vec![Value::S("a b".to_string()).text()]), "a b");
    assert_eq!(join(vec![Value::Int(1.0f64.to_bits()).text()]), "1");
    assert_eq!(join(vec![Value::Int(2.5f64.to_bits()).text()]), "2.5");
    assert_eq!(join(vec![Value::Bool(true).text()]), "true");
    assert_eq!(join(vec![Value::Bool(false).text()]), "false");
    assert_eq!(join(vec![Value::Nil.text()]), "None");
}

#[test]
fn expressions_are_written_operator_first() {
    let star = Token::new(TokenType::STAR, "*".to_string(), 1);
    let minus = Token::new(TokenType::MINUS, "-".to_string(), 1);
    let e = Expr::Binary(Binary::new(
        Box::new(Expr::Unary(Unary::new(minus, Box::new(number("123"))))),
        star,
        Box::new(Expr::Grouping(Grouping::new(Box::new(number("45.67"))))),
    ));
    assert_eq!(join(Printer::new().print(&e)), "* ( (- 123) (45.67) )");
    let copy = e.duplicate();
    assert_eq!(join(Printer::new().print(&copy)), "* ( (- 123) (45.67) )");
}

#[test]
fn values_are_equal_as_eq_says() {
    assert!(Value::Nil == Value::Nil);
    assert!(Value::Int(1.0f64.to_bits()) != Value::S("1".to_string()));
    assert!(Value::Bool(true) != Value::Int(1.0f64.to_bits()));
    assert!(Value::S("a".to_string()) == Value::S("a".to_string()));
    assert!(Value::Int(0.0f64.to_bits()) == Value::Int((-0.0f64).to_bits()));
    assert!(Value::Int(f64::NAN.to_bits()) != Value::Int(f64::NAN.to_bits()));
    assert!(Value::Nil != Value::Bool(false));
}
