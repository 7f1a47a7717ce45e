use monkey::eval::{Eval, EvalError};
use monkey::lexer::Lexer;
use monkey::object::Object;
use monkey::parser::Parser;

fn run(input: &str) -> Result<Object, EvalError> {
    let lexer = Lexer::new(input);
    let mut parser = Parser::new(lexer);
    let mut eval = Eval::new();
    eval.eval(parser.parse_program())
}

fn check(cases: Vec<(&str, Result<Object, ()>)>) {
    for (input, output) in cases {
        let result = run(input);
        match result {
            Ok(result) => {
                assert_eq!(output.unwrap(), result);
            }
            _ => {
                assert!(output.is_err());
            }
        }
    }
}

#[test]
fn eval_integer_expr() {
    let cases = vec![
        ("5", Ok(Object::Int(5))),
        ("10", Ok(Object::Int(10))),
        ("-5", Ok(Object::Int(-5))),
        ("-10", Ok(Object::Int(-10))),
        ("+10", Ok(Object::Int(10))),
        ("5 + 5 + 5 + 5 - 10", Ok(Object::Int(10))),
        ("2 * 2 * 2 * 2 * 2", Ok(Object::Int(32))),
        ("-50 + 100 + -50", Ok(Object::Int(0))),
        ("5 * 2 + 10", Ok(Object::Int(20))),
        ("5 + 2 * 10", Ok(Object::Int(25))),
        ("20 + 2 * -10", Ok(Object::Int(0))),
        ("50 / 2 * 2 + 10", Ok(Object::Int(60))),
        ("2 * (5 + 10)", Ok(Object::Int(30))),
        ("3 * 3 * 3 + 10", Ok(Object::Int(37))),
        ("3 * (3 * 3) + 10", Ok(Object::Int(37))),
        ("(5 + 10 * 2 + 15 / 3) * 2 + -10", Ok(Object::Int(50))),
        ("5++++5", Ok(Object::Int(10))),
        ("5 + - !5", Err(())),
    ];

    check(cases);
}

#[test]
fn eval_bool_expr() {
    let cases = vec![
        ("true", Ok(Object::Bool(true))),
        ("false", Ok(Object::Bool(false))),
        ("1 < 2", Ok(Object::Bool(true))),
        ("1 > 2", Ok(Object::Bool(false))),
        ("1 < 1", Ok(Object::Bool(false))),
        ("1 > 1", Ok(Object::Bool(false))),
        ("1 == 1", Ok(Object::Bool(true))),
        ("1 != 1", Ok(Object::Bool(false))),
        ("1 == 2", Ok(Object::Bool(false))),
        ("1 != 2", Ok(Object::Bool(true))),
        ("true == true", Ok(Object::Bool(true))),
        ("false == false", Ok(Object::Bool(true))),
        ("true == false", Ok(Object::Bool(false))),
        ("true != false", Ok(Object::Bool(true))),
        ("false != true", Ok(Object::Bool(true))),
        ("(1 < 2) == true", Ok(Object::Bool(true))),
        ("(1 < 2) == false", Ok(Object::Bool(false))),
        ("(1 > 2) == true", Ok(Object::Bool(false))),
        ("(1 > 2) == false", Ok(Object::Bool(true))),
    ];

    check(cases);
}

#[test]
fn eval_bang_operator() {
    let cases = vec![
        ("!true", Ok(Object::Bool(false))),
        ("!false", Ok(Object::Bool(true))),
        ("!5", Err(())),
        ("!!true", Ok(Object::Bool(true))),
        ("!!false", Ok(Object::Bool(false))),
        ("!!5", Err(())),
    ];

    check(cases);
}

#[test]
fn eval_if_else() {
    let cases = vec![
        ("if (true) { 10 }", Ok(Object::Int(10))),
        ("if (false) { 10 }", Ok(Object::Null)),
        ("if (1) { 10 }", Ok(Object::Int(10))),
        ("if (1 < 2) { 10 }", Ok(Object::Int(10))),
        ("if (1 > 2) { 10 }", Ok(Object::Null)),
        ("if (1 > 2) { 10 } else { 20 }", Ok(Object::Int(20))),
        ("if (1 < 2) { 10 } else { 20 }", Ok(Object::Int(10))),
    ];

    check(cases);
}

#[test]
fn eval_return_statements() {
    let cases = vec![
        ("return 10;", Ok(Object::Int(10))),
        ("return 10; 9;", Ok(Object::Int(10))),
        ("return 2 * 5; 9;", Ok(Object::Int(10))),
        ("9; return 2 * 5; 9;", Ok(Object::Int(10))),
        (
            "if (10 > 1) {
                    if (10 > 1) {
                        return 10;
                    }
                    return 1;
                }",
            Ok(Object::Int(10)),
        ),
    ];

    check(cases);
}

#[test]
fn eval_division_by_zero() {
    let result = run("5 / 0");
    assert_eq!(result, Err(EvalError::DivisionByZero));
    assert_eq!(result.unwrap_err().message(), "Division by zero!");
}

#[test]
fn eval_integer_overflow() {
    assert_eq!(run("9223372036854775807 + 1"), Err(EvalError::IntegerOverflow));
    assert_eq!(run("-9223372036854775807 - 2"), Err(EvalError::IntegerOverflow));
    assert_eq!(run("4611686018427387904 * 2"), Err(EvalError::IntegerOverflow));
}

#[test]
fn eval_truncating_division() {
    let cases = vec![
        ("7 / 2", Ok(Object::Int(3))),
        ("-7 / 2", Ok(Object::Int(-3))),
        ("7 / -2", Ok(Object::Int(-3))),
        ("-7 / -2", Ok(Object::Int(3))),
    ];
    check(cases);
}

#[test]
fn eval_empty_program() {
    assert_eq!(run(""), Ok(Object::Null));
}
