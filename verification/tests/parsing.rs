use lox::parsing::expressions::{Expr, Fragment, Value};
use lox::parsing::parser::{Expectation, Parser, SyntaxFailure};
use lox::parsing::scanner::{attach_numbers, numbers_of, ScanFailureKind, Scanner};
use lox::parsing::statements::Stmt;
use lox::parsing::tokens::{Token, TokenType};
use lox::parsing::visitor::Printer;

fn tokens(source: &str) -> Vec<Token> {
    let mut scanner = Scanner::new(source.to_string());
    let tokens = scanner.scan_tokens().unwrap();
    let numbers: Vec<u64> = numbers_of(&tokens)
        .iter()
        .map(|l| l.parse::<f64>().unwrap().to_bits())
        .collect();
    attach_numbers(&tokens, &numbers)
}

fn parse(source: &str) -> (Vec<Stmt>, Vec<SyntaxFailure>) {
    let mut parser = Parser::new(tokens(source));
    let statements = parser.parse();
    (statements, parser.into_failures())
}

fn written(e: &Expr) -> String {
    Printer::new()
        .print(e)
        .into_iter()
        .map(|f| match f {
            Fragment::Text(s) => s,
            Fragment::Number(bits) => format!("{}", f64::from_bits(bits)),
        })
        .collect()
}

fn shape(statement: &Stmt) -> String {
    match statement {
        Stmt::Dec(d) => format!("var {} = {}", d.name.lexeme, written(&d.expr)),
        Stmt::Print(p) => format!("print {}", written(&p.expr)),
        Stmt::ExprStmt(s) => written(&s.expr),
    }
}

fn shapes(source: &str) -> Vec<String> {
    let (statements, failures) = parse(source);
    assert_eq!(failures, vec![]);
    statements.iter().map(shape).collect()
}

fn kinds(source: &str) -> Vec<TokenType> {
    let mut scanner = Scanner::new(source.to_string());
    scanner.scan_tokens().unwrap().iter().map(|t| t.variant).collect()
}

#[test]
fn numbers_carry_their_values_once_attached() {
    let tokens = tokens("1 + 2");
    assert_eq!(tokens.len(), 4);
    assert_eq!(tokens[0].number, Some(1.0f64.to_bits()));
    assert_eq!(tokens[1].number, None);
    assert_eq!(tokens[2].number, Some(2.0f64.to_bits()));
    assert_eq!(tokens[3].variant, TokenType::EOF);
}

#[test]
fn attaching_fewer_numbers_leaves_the_rest() {
    let mut scanner = Scanner::new("1 2 3".to_string());
    let scanned = scanner.scan_tokens().unwrap();
    assert_eq!(numbers_of(&scanned), vec!["1", "2", "3"]);
    let valued = attach_numbers(&scanned, &vec![10, 20]);
    assert_eq!(valued[0].number, Some(10));
    assert_eq!(valued[1].number, Some(20));
    assert_eq!(valued[2].number, None);
    assert_eq!(valued[2].lexeme, "3");
}

#[test]
fn every_kind_of_token_is_scanned() {
    assert_eq!(
        kinds("(){},.-+;*/ ! != = == < <= > >="),
        vec![
            TokenType::LEFT_PAREN,
            TokenType::RIGHT_PAREN,
            TokenType::LEFT_BRACE,
            TokenType::RIGHT_BRACE,
            TokenType::COMMA,
            TokenType::DOT,
            TokenType::MINUS,
            TokenType::PLUS,
            TokenType::SEMICOLON,
            TokenType::STAR,
            TokenType::SLASH,
            TokenType::BANG,
            TokenType::BANG_EQUAL,
            TokenType::EQUAL,
            TokenType::EQUAL_EQUAL,
            TokenType::LESS,
            TokenType::LESS_EQUAL,
            TokenType::GREATER,
            TokenType::GREATER_EQUAL,
            TokenType::EOF,
        ]
    );
    assert_eq!(
        kinds("and class else false for fun if nil or print return super this true var while x _y z9 classy"),
        vec![
            TokenType::AND,
            TokenType::CLASS,
            TokenType::ELSE,
            TokenType::FALSE,
            TokenType::FOR,
            TokenType::DEF,
            TokenType::IF,
            TokenType::NIL,
            TokenType::OR,
            TokenType::PRINT,
            TokenType::RETURN,
            TokenType::SUPER,
            TokenType::THIS,
            TokenType::TRUE,
            TokenType::VAR,
            TokenType::WHILE,
            TokenType::IDENTIFIER,
            TokenType::IDENTIFIER,
            TokenType::IDENTIFIER,
            TokenType::IDENTIFIER,
            TokenType::EOF,
        ]
    );
}

#[test]
fn number_literals_end_where_the_grammar_says() {
    let mut scanner = Scanner::new("12.5 7. .5 1.2.3".to_string());
    let tokens = scanner.scan_tokens().unwrap();
    let lexemes: Vec<&str> = tokens.iter().map(|t| t.lexeme.as_str()).collect();
    assert_eq!(lexemes, vec!["12.5", "7", ".", ".", "5", "1.2", ".", "3", ""]);
}

#[test]
fn lines_are_counted() {
    let mut scanner = Scanner::new("a // one\nb\n\"x\ny\" c\r\n\td".to_string());
    let tokens = scanner.scan_tokens().unwrap();
    let lines: Vec<u32> = tokens.iter().map(|t| t.line).collect();
    assert_eq!(lines, vec![1, 2, 4, 4, 5, 5]);
    assert_eq!(tokens[2].string, Some("x\ny".to_string()));
}

#[test]
fn comment_at_the_end_needs_no_line_end() {
    assert_eq!(kinds("1 // 2"), vec![TokenType::NUMBER, TokenType::EOF]);
    assert_eq!(kinds("/ //"), vec![TokenType::SLASH, TokenType::EOF]);
}

#[test]
fn text_outside_ascii_is_kept_in_strings_and_refused_elsewhere() {
    let mut scanner = Scanner::new("\"grüß Gott ✓\"".to_string());
    let tokens = scanner.scan_tokens().unwrap();
    assert_eq!(tokens[0].string, Some("grüß Gott ✓".to_string()));
    assert_eq!(tokens[0].lexeme, "\"grüß Gott ✓\"");
    let mut scanner = Scanner::new("// ü\nü".to_string());
    let failure = scanner.scan_tokens().unwrap_err();
    assert_eq!(failure.kind, ScanFailureKind::UnexpectedCharacter);
    assert_eq!(failure.line, 2);
}

#[test]
fn scanner_starts_over_each_time() {
    let mut scanner = Scanner::new("1 + 2".to_string());
    let first = scanner.scan_tokens().unwrap();
    let second = scanner.scan_tokens().unwrap();
    assert_eq!(first.len(), 4);
    assert_eq!(second.len(), 4);
}

#[test]
fn operators_associate_to_the_left() {
    assert_eq!(shapes("1 - 2 - 3;"), vec!["- ( - ( 1 2 ) 3 )"]);
    assert_eq!(shapes("1 / 2 * 3;"), vec!["* ( / ( 1 2 ) 3 )"]);
    assert_eq!(shapes("1 == 2 != 3;"), vec!["!= ( == ( 1 2 ) 3 )"]);
    assert_eq!(shapes("1 < 2 >= 3;"), vec![">= ( < ( 1 2 ) 3 )"]);
}

#[test]
fn tighter_operators_bind_first() {
    assert_eq!(shapes("1 + 2 * 3;"), vec!["+ ( 1 * ( 2 3 ) )"]);
    assert_eq!(shapes("1 * 2 + 3;"), vec!["+ ( * ( 1 2 ) 3 )"]);
    assert_eq!(shapes("1 + 2 < 3 == true;"), vec!["== ( < ( + ( 1 2 ) 3 ) true )"]);
    assert_eq!(shapes("!-1 * (2 + nil);"), vec!["* ( (! (- 1)) (+ ( 2 None )) )"]);
    assert_eq!(shapes("--1;"), vec!["(- (- 1))"]);
}

#[test]
fn the_three_statements() {
    assert_eq!(
        shapes("var a = \"s\"; print false; 1;"),
        vec!["var a = s", "print false", "1"]
    );
}

#[test]
fn each_expectation_is_reported() {
    let cases = vec![
        ("print ;", Expectation::Expression),
        ("(1;", Expectation::RightParen),
        ("var 1 = 2;", Expectation::VarName),
        ("var a 2;", Expectation::Equal),
        ("var a = 2", Expectation::SemicolonAfterDeclaration),
        ("print 2", Expectation::SemicolonAfterValue),
        ("2", Expectation::SemicolonAfterExpression),
        ("1 +", Expectation::Expression),
        ("x;", Expectation::Expression),
    ];
    for (source, kind) in cases {
        let (statements, failures) = parse(source);
        assert!(statements.is_empty(), "{}", source);
        assert_eq!(failures, vec![SyntaxFailure { line: 1, kind }], "{}", source);
    }
}

#[test]
fn a_number_without_its_value_is_reported() {
    let mut scanner = Scanner::new("print 1;".to_string());
    let mut parser = Parser::new(scanner.scan_tokens().unwrap());
    assert!(parser.parse().is_empty());
    assert_eq!(
        parser.failures(),
        &vec![SyntaxFailure { line: 1, kind: Expectation::LiteralValue }]
    );
}

#[test]
fn messages_of_the_expectations() {
    let message = |kind| SyntaxFailure { line: 1, kind }.message();
    assert_eq!(message(Expectation::RightParen), "Expect ')' after expression.");
    assert_eq!(message(Expectation::VarName), "expect var name");
    assert_eq!(
        message(Expectation::SemicolonAfterDeclaration),
        "expecting ';' after variable declaration"
    );
    assert_eq!(message(Expectation::SemicolonAfterValue), "expecting ';' after expr.");
    assert_eq!(message(Expectation::SemicolonAfterExpression), "expecting ';' after expr");
}

#[test]
fn parsing_goes_on_after_the_next_semicolon() {
    let (statements, failures) = parse("print 1 2 3; print 4;\nprint (5; print 6;");
    assert_eq!(
        statements.iter().map(shape).collect::<Vec<_>>(),
        vec!["print 4", "print 6"]
    );
    assert_eq!(
        failures,
        vec![
            SyntaxFailure { line: 1, kind: Expectation::SemicolonAfterValue },
            SyntaxFailure { line: 2, kind: Expectation::RightParen },
        ]
    );
}

#[test]
fn parsing_goes_on_at_a_word_that_starts_a_statement() {
    let (statements, failures) = parse("1 + + 2 print 3; (4 5 var a = 5;");
    assert_eq!(
        statements.iter().map(shape).collect::<Vec<_>>(),
        vec!["print 3", "var a = 5"]
    );
    assert_eq!(failures.len(), 2);
}

#[test]
fn the_token_at_which_the_parser_gave_up_is_skipped() {
    let (statements, failures) = parse("(4 var a = 5; print 6;");
    assert_eq!(statements.iter().map(shape).collect::<Vec<_>>(), vec!["print 6"]);
    assert_eq!(
        failures,
        vec![SyntaxFailure { line: 1, kind: Expectation::RightParen }]
    );
}

#[test]
fn tokens_without_an_end_are_parsed_to_their_end() {
    let mut all = tokens("print 1; print 2;");
    all.pop();
    let mut parser = Parser::new(all);
    assert_eq!(parser.parse().len(), 2);
    assert!(parser.failures().is_empty());
    let mut parser = Parser::new(Vec::new());
    assert!(parser.parse().is_empty());
    assert!(parser.failures().is_empty());
}

#[test]
fn literals_keep_their_tokens() {
    let (statements, _) = parse("print \"a\";");
    match &statements[0] {
        Stmt::Print(p) => match &*p.expr {
            Expr::Literal(l) => {
                assert!(matches!(&l.val, Value::S(s) if s == "a"));
                assert_eq!(l.token.lexeme, "\"a\"");
                assert_eq!(l.token.variant, TokenType::STRING);
            }
            _ => panic!("expected a literal"),
        },
        _ => panic!("expected a print statement"),
    }
}
