use lox::parsing::scanner::{ScanFailureKind, Scanner};
use lox::parsing::tokens::{Token, TokenType};

fn scan(source: &str) -> Vec<Token> {
    let mut scanner = Scanner::new(source.to_string());
    match scanner.scan_tokens() {
        Ok(tokens) => tokens,
        Err(failure) => panic!("scan failed on line {}", failure.line),
    }
}

fn kinds(tokens: &Vec<Token>) -> Vec<TokenType> {
    tokens.iter().map(|t| t.variant).collect()
}

#[test]
fn string_literal_yields_string_then_eof() {
    let tokens = scan("\"abc\"");
    assert_eq!(tokens.len(), 2);
    assert_eq!(tokens[0].variant, TokenType::STRING);
    assert_eq!(tokens[0].string, Some("abc".to_string()));
    assert_eq!(tokens[0].lexeme, "\"abc\"");
    assert_eq!(tokens[1].variant, TokenType::EOF);
    assert_eq!(tokens[1].lexeme, "");
}

#[test]
fn sum_yields_number_plus_number_eof() {
    let tokens = scan("1 + 2");
    assert_eq!(
        kinds(&tokens),
        vec![TokenType::NUMBER, TokenType::PLUS, TokenType::NUMBER, TokenType::EOF]
    );
    assert_eq!(tokens[0].lexeme, "1");
    assert_eq!(tokens[2].lexeme, "2");
}

#[test]
fn unterminated_string_is_a_failure() {
    let mut scanner = Scanner::new("\"abc\ndef".to_string());
    let failure = scanner.scan_tokens().unwrap_err();
    assert_eq!(failure.kind, ScanFailureKind::UnterminatedString);
    assert_eq!(failure.line, 2);
    assert_eq!(failure.message(), "Unterminated string.");
}
