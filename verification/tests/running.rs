use lox::errors::err::Failure;
use lox::parsing::expressions::{Binary, Expr, Literal, Unary, Value};
use lox::parsing::parser::Parser;
use lox::parsing::scanner::{attach_numbers, Scanner};
use lox::parsing::statements::{Dec, ExprStmt, Print, Stmt};
use lox::parsing::tokens::{Token, TokenType};
use lox::parsing::visitor::{Interpreter as Evaluator, Operation, Outcome, Request};
use lox::runtime::environment::Environment;
use lox::runtime::interpreter::{Interpreter, Status, Step};
use std::rc::Rc;

fn number(value: f64) -> Expr {
    Expr::Literal(Literal::new(
        Token::new_int(TokenType::NUMBER, format!("{}", value), 1, value.to_bits()),
        Value::Int(value.to_bits()),
    ))
}

fn text(value: &str) -> Expr {
    Expr::Literal(Literal::new(
        Token::new_str(TokenType::STRING, format!("\"{}\"", value), 1, value.to_string()),
        Value::S(value.to_string()),
    ))
}

fn binary(left: Expr, kind: TokenType, lexeme: &str, right: Expr) -> Expr {
    Expr::Binary(Binary::new(
        Box::new(left),
        Token::new(kind, lexeme.to_string(), 1),
        Box::new(right),
    ))
}

fn name(lexeme: &str) -> Token {
    Token::new(TokenType::IDENTIFIER, lexeme.to_string(), 3)
}

#[test]
fn evaluation_asks_for_one_operation_at_a_time() {
    // (1 + 2) * (3 - 4)
    let e = binary(
        binary(number(1.0), TokenType::PLUS, "+", number(2.0)),
        TokenType::STAR,
        "*",
        binary(number(3.0), TokenType::MINUS, "-", number(4.0)),
    );
    let evaluator = Evaluator::new();
    let bits = |x: f64| x.to_bits();
    match evaluator.evaluate(&e, &vec![]) {
        Outcome::Pending(r) => assert_eq!(
            r,
            Request { operation: Operation::Add, left: bits(1.0), right: bits(2.0) }
        ),
        _ => panic!("expected a request"),
    }
    match evaluator.evaluate(&e, &vec![bits(3.0)]) {
        Outcome::Pending(r) => assert_eq!(
            r,
            Request { operation: Operation::Subtract, left: bits(3.0), right: bits(4.0) }
        ),
        _ => panic!("expected a request"),
    }
    match evaluator.evaluate(&e, &vec![bits(3.0), bits(-1.0)]) {
        Outcome::Pending(r) => assert_eq!(
            r,
            Request { operation: Operation::Multiply, left: bits(3.0), right: bits(-1.0) }
        ),
        _ => panic!("expected a request"),
    }
    match evaluator.evaluate(&e, &vec![bits(3.0), bits(-1.0), bits(-3.0)]) {
        Outcome::Done(l) => {
            assert!(matches!(l.val, Value::Int(b) if b == bits(-3.0)));
            assert_eq!(l.token.lexeme, "*");
        }
        _ => panic!("expected a value"),
    }
    let (_, used) = evaluator.evaluate_from(&e, &vec![bits(3.0), bits(-1.0), bits(-3.0), 7], 0);
    assert_eq!(used, 3);
}

#[test]
fn parsed_sum_evaluates_to_three() {
    let mut scanner = Scanner::new("1 + 2;".to_string());
    let scanned = scanner.scan_tokens().unwrap();
    let tokens = attach_numbers(&scanned, &vec![1.0f64.to_bits(), 2.0f64.to_bits()]);
    let mut parser = Parser::new(tokens);
    let statements = parser.parse();
    assert_eq!(statements.len(), 1);
    let e = match &statements[0] {
        Stmt::ExprStmt(s) => &s.expr,
        _ => panic!("expected an expression statement"),
    };
    let evaluator = Evaluator::new();
    let request = match evaluator.evaluate(e, &vec![]) {
        Outcome::Pending(request) => request,
        _ => panic!("expected a request"),
    };
    let sum = f64::from_bits(request.left) + f64::from_bits(request.right);
    match evaluator.evaluate(e, &vec![sum.to_bits()]) {
        Outcome::Done(l) => assert!(matches!(l.val, Value::Int(b) if f64::from_bits(b) == 3.0)),
        _ => panic!("expected a value"),
    }
}

#[test]
fn division_is_asked_for_as_division() {
    let e = binary(number(1.0), TokenType::SLASH, "/", number(0.0));
    match Evaluator::new().evaluate(&e, &vec![]) {
        Outcome::Pending(r) => assert_eq!(r.operation, Operation::Divide),
        _ => panic!("expected a request"),
    }
}

#[test]
fn left_operand_fails_first() {
    let bad_left = binary(text("a"), TokenType::MINUS, "-", number(1.0));
    let bad_right = Expr::Unary(Unary::new(
        Token::new(TokenType::PLUS, "+".to_string(), 2),
        Box::new(number(1.0)),
    ));
    let e = binary(bad_left, TokenType::STAR, "*", bad_right);
    match Evaluator::new().evaluate(&e, &vec![]) {
        Outcome::Failed(failure) => {
            assert_eq!(failure.kind, Failure::TypeMismatch);
            assert_eq!(failure.token.lexeme, "-");
            assert_eq!(failure.message, "invalid arguments to operation");
        }
        _ => panic!("expected a failure"),
    }
}

#[test]
fn truthiness_of_values() {
    let evaluator = Evaluator::new();
    assert!(!evaluator.is_truthy(&Value::Nil));
    assert!(!evaluator.is_truthy(&Value::Bool(false)));
    assert!(evaluator.is_truthy(&Value::Bool(true)));
    assert!(evaluator.is_truthy(&Value::Int(0)));
    assert!(evaluator.is_truthy(&Value::S(String::new())));
    assert!(Interpreter::new().is_truthy(&Value::Int(0)));
}

#[test]
fn undefined_variable_is_a_failure() {
    let environment = Environment::new();
    let failure = environment.get(&name("x")).unwrap_err();
    assert_eq!(failure.kind, Failure::UndefinedVariable);
    assert_eq!(failure.token.lexeme, "x");
    assert_eq!(failure.token.line, 3);
    assert_eq!(failure.message, "Undefined variable");
    let failure = Interpreter::new().lookup(&name("x")).unwrap_err();
    assert_eq!(failure.kind, Failure::UndefinedVariable);
}

#[test]
fn inner_scope_shadows_outer() {
    let mut outer = Environment::new();
    outer.define("a".to_string(), Value::Bool(true));
    outer.define("b".to_string(), Value::S("outer".to_string()));
    let outer = Rc::new(outer);
    let mut inner = Environment::inside(outer.clone());
    inner.define("b".to_string(), Value::S("inner".to_string()));
    let mut other = Environment::inside(outer);
    other.define("b".to_string(), Value::Nil);
    assert!(matches!(inner.get(&name("a")), Ok(Value::Bool(true))));
    assert!(matches!(inner.get(&name("b")), Ok(Value::S(s)) if s == "inner"));
    assert!(matches!(other.get(&name("b")), Ok(Value::Nil)));
    assert!(inner.get(&name("c")).is_err());
    inner.define("b".to_string(), Value::Bool(false));
    assert!(matches!(inner.get(&name("b")), Ok(Value::Bool(false))));
}

#[test]
fn declaration_binds_in_the_scope_of_the_interpreter() {
    let mut interpreter = Interpreter::new();
    let statements = vec![
        Stmt::Dec(Dec::new(name("a"), Box::new(text("x")))),
        Stmt::ExprStmt(ExprStmt::new(Box::new(number(1.0)))),
        Stmt::Print(Print::new(Box::new(text("y")))),
    ];
    let run = interpreter.interpret(&statements, &vec![]);
    assert!(matches!(run.status, Status::Finished));
    assert_eq!(run.output.len(), 1);
    assert!(matches!(&run.output[0], Value::S(s) if s == "y"));
    assert!(matches!(interpreter.lookup(&name("a")), Ok(Value::S(s)) if s == "x"));
}

#[test]
fn statements_are_executed_one_by_one() {
    let mut interpreter = Interpreter::new();
    let print = Stmt::Print(Print::new(Box::new(binary(
        number(1.0),
        TokenType::PLUS,
        "+",
        number(2.0),
    ))));
    let (step, used) = interpreter.execute(&print, &vec![], 0);
    assert!(matches!(step, Step::Pending(_)));
    assert_eq!(used, 0);
    let (step, used) = interpreter.execute(&print, &vec![9, 3.0f64.to_bits()], 1);
    assert!(matches!(step, Step::Printed(Value::Int(b)) if b == 3.0f64.to_bits()));
    assert_eq!(used, 2);
    let (outcome, used) = interpreter.evaluate(&number(1.0), &vec![], 0);
    assert!(matches!(outcome, Outcome::Done(_)));
    assert_eq!(used, 0);
}

#[test]
fn respelled_lexemes_scan_to_the_same_tokens() {
    let source = "var a = (1.50+x) // note\n\"two\nlines\" != !b<=3/4 ; print_ *{ } , . - > >= == < =";
    let mut scanner = Scanner::new(source.to_string());
    let tokens = scanner.scan_tokens().unwrap();
    let mut respelled = String::new();
    for token in &tokens {
        respelled.push_str(&token.lexeme);
        respelled.push(' ');
    }
    let mut scanner = Scanner::new(respelled);
    let again = scanner.scan_tokens().unwrap();
    assert_eq!(tokens.len(), again.len());
    for (a, b) in tokens.iter().zip(again.iter()) {
        assert_eq!(a.variant, b.variant);
        assert_eq!(a.lexeme, b.lexeme);
        assert_eq!(a.string, b.string);
    }
}
