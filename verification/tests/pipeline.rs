use lox::errors::err::Failure;
use lox::parsing::expressions::Value;
use lox::parsing::parser::{Expectation, SyntaxFailure};
use lox::parsing::scanner::ScanFailureKind;
use lox::parsing::visitor::{Operation, Request};
use lox::runtime::interpreter::Status;
use lox::{Lox, Report};

fn decode(lexeme: &str) -> u64 {
    lexeme.parse::<f64>().unwrap().to_bits()
}

fn perform(request: Request) -> u64 {
    let a = f64::from_bits(request.left);
    let b = f64::from_bits(request.right);
    let r = match request.operation {
        Operation::Add => a + b,
        Operation::Subtract => a - b,
        Operation::Multiply => a * b,
        Operation::Divide => a / b,
    };
    r.to_bits()
}

fn render(value: &Value) -> String {
    match value.text() {
        lox::parsing::expressions::Fragment::Text(s) => s,
        lox::parsing::expressions::Fragment::Number(bits) => format!("{}", f64::from_bits(bits)),
    }
}

#[derive(Debug)]
struct Ended {
    failures: Vec<SyntaxFailure>,
    printed: Vec<String>,
    status: Status,
}

fn run(source: &str) -> Result<Ended, lox::parsing::scanner::ScanFailure> {
    let mut lox = Lox::new();
    let input = source.to_string();
    let mut numbers: Vec<u64> = Vec::new();
    let mut answers: Vec<u64> = Vec::new();
    loop {
        match lox.run(&input, &numbers, &answers) {
            Report::Lexical(failure) => return Err(failure),
            Report::Undecoded(lexemes) => {
                numbers = lexemes.iter().map(|l| decode(l)).collect();
            }
            Report::Ran(failures, run) => match run.status {
                Status::Pending(request) => answers.push(perform(request)),
                status => {
                    return Ok(Ended {
                        failures,
                        printed: run.output.iter().map(render).collect(),
                        status,
                    })
                }
            },
        }
    }
}

fn printed(source: &str) -> Vec<String> {
    let ended = run(source).unwrap();
    assert!(matches!(ended.status, Status::Finished));
    assert!(ended.failures.is_empty());
    ended.printed
}

#[test]
fn one_plus_two_is_three() {
    assert_eq!(printed("print 1 + 2;"), vec!["3"]);
}

#[test]
fn strings_are_joined() {
    assert_eq!(printed("print \"1\" + \"2\";"), vec!["12"]);
}

#[test]
fn number_plus_string_is_a_type_mismatch() {
    let ended = run("print 1 + \"2\";").unwrap();
    assert!(ended.printed.is_empty());
    match ended.status {
        Status::Failed(failure) => {
            assert_eq!(failure.kind, Failure::TypeMismatch);
            assert_eq!(failure.token.lexeme, "+");
            assert_eq!(failure.token.line, 1);
        }
        _ => panic!("expected a failure"),
    }
}

#[test]
fn equality_does_not_coerce() {
    assert_eq!(
        printed("print nil == nil; print 1 == \"1\"; print true == 1; print 1 == 1; print \"a\" != \"a\";"),
        vec!["true", "false", "false", "true", "false"]
    );
}

#[test]
fn truthiness_of_the_four_kinds() {
    assert_eq!(
        printed("print !nil; print !0; print !\"\"; print !false; print !true;"),
        vec!["true", "false", "false", "true", "false"]
    );
}

#[test]
fn division_by_zero_is_infinity() {
    assert_eq!(printed("print 1 / 0;"), vec!["inf"]);
    assert_eq!(printed("print -1 / 0;"), vec!["-inf"]);
    assert_eq!(printed("print 0 / 0 == 0 / 0;"), vec!["false"]);
}

#[test]
fn malformed_declaration_is_reported_and_skipped() {
    let ended = run("var x = 1 + ;").unwrap();
    assert_eq!(
        ended.failures,
        vec![SyntaxFailure { line: 1, kind: Expectation::Expression }]
    );
    assert!(ended.printed.is_empty());
    assert!(matches!(ended.status, Status::Finished));
}

#[test]
fn statement_after_a_malformed_one_still_runs() {
    let ended = run("var x = 1 + ;\nprint 1;").unwrap();
    assert_eq!(ended.failures.len(), 1);
    assert_eq!(ended.printed, vec!["1"]);
    assert!(matches!(ended.status, Status::Finished));
}

#[test]
fn print_of_a_name_prints_nothing() {
    let ended = run("print x;").unwrap();
    assert!(ended.printed.is_empty());
    assert_eq!(
        ended.failures,
        vec![SyntaxFailure { line: 1, kind: Expectation::Expression }]
    );
}

#[test]
fn runtime_failure_stops_the_run() {
    let ended = run("print 1; print -\"a\"; print 2;").unwrap();
    assert_eq!(ended.printed, vec!["1"]);
    match ended.status {
        Status::Failed(failure) => {
            assert_eq!(failure.kind, Failure::TypeMismatch);
            assert_eq!(failure.token.lexeme, "-");
        }
        _ => panic!("expected a failure"),
    }
}

#[test]
fn lexical_failure_runs_nothing() {
    let failure = run("print 1; @").unwrap_err();
    assert_eq!(failure.kind, ScanFailureKind::UnexpectedCharacter);
    assert_eq!(failure.line, 1);
    assert_eq!(failure.message(), "Unexpected character.");
}

#[test]
fn precedence_and_grouping() {
    assert_eq!(printed("print 1 + 2 * 3;"), vec!["7"]);
    assert_eq!(printed("print (1 + 2) * 3;"), vec!["9"]);
    assert_eq!(printed("print 10 - 4 - 3;"), vec!["3"]);
    assert_eq!(printed("print 8 / 4 / 2;"), vec!["1"]);
    assert_eq!(printed("print --1;"), vec!["1"]);
    assert_eq!(printed("print !!nil;"), vec!["false"]);
    assert_eq!(printed("print 1 < 2 == 2 >= 2;"), vec!["true"]);
    assert_eq!(printed("print 1.5 + 0.25;"), vec!["1.75"]);
}

#[test]
fn comparisons_order_numbers() {
    assert_eq!(
        printed("print 1 < 2; print 2 <= 2; print 3 > 4; print 4 >= 5; print -1 < 0; print 0 > -0;"),
        vec!["true", "true", "false", "false", "true", "false"]
    );
}

#[test]
fn comparison_of_strings_is_a_type_mismatch() {
    let ended = run("print \"a\" < \"b\";").unwrap();
    assert!(matches!(ended.status, Status::Failed(_)));
}

#[test]
fn declaration_and_expression_statement_print_nothing() {
    assert_eq!(printed("var x = 1 + 2; 3 * 4; print nil;"), vec!["None"]);
}

#[test]
fn empty_program_is_valid() {
    assert_eq!(printed(""), Vec::<String>::new());
    assert_eq!(printed("// nothing here\n"), Vec::<String>::new());
}

#[test]
fn failures_are_remembered() {
    let mut lox = Lox::new();
    assert!(!lox.has_error);
    let numbers = vec![];
    let answers = vec![];
    lox.run(&"print nil;".to_string(), &numbers, &answers);
    assert!(!lox.has_error);
    lox.run(&"print ;".to_string(), &numbers, &answers);
    assert!(lox.has_error);
}

#[test]
fn undecoded_numbers_are_asked_for() {
    let mut lox = Lox::new();
    match lox.run(&"print 1 + 2.50;".to_string(), &vec![], &vec![]) {
        Report::Undecoded(lexemes) => assert_eq!(lexemes, vec!["1", "2.50"]),
        _ => panic!("expected the number literals"),
    }
    let numbers = vec![1.0f64.to_bits(), 2.5f64.to_bits()];
    match lox.run(&"print 1 + 2.50;".to_string(), &numbers, &vec![]) {
        Report::Ran(_, run) => match run.status {
            Status::Pending(request) => {
                assert_eq!(
                    request,
                    Request {
                        operation: Operation::Add,
                        left: 1.0f64.to_bits(),
                        right: 2.5f64.to_bits()
                    }
                );
            }
            _ => panic!("expected a request"),
        },
        _ => panic!("expected a run"),
    }
}
