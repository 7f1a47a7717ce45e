use monkey::ast::{Expression, Identifier, Infix, Literal, Statement};
use monkey::eval::{Eval, EvalError};
use monkey::lexer::{LexError, Lexer};
use monkey::object::Object;
use monkey::parser::{ParseError, Parser};

fn run(input: &str) -> Result<Object, EvalError> {
    let lexer = Lexer::new(input);
    let mut parser = Parser::new(lexer);
    let mut eval = Eval::new();
    eval.eval(parser.parse_program())
}

fn check(cases: Vec<(&str, Result<Object, &str>)>) {
    for (input, output) in cases {
        let result = run(input);
        match result {
            Ok(result) => {
                assert_eq!(output.unwrap(), result);
            }
            Err(error) => {
                println!("{:?}", error);
                assert!(output.is_err());
                assert_eq!(output.err().unwrap(), error.message());
            }
        }
    }
}

#[test]
fn mod_integer_expr() {
    let cases = vec![
        ("5", Ok(Object::Int(5))),
        ("10", Ok(Object::Int(10))),
        ("-5", Ok(Object::Int(-5))),
        ("-10", Ok(Object::Int(-10))),
        ("+10", Ok(Object::Int(10))),
        ("5 + 5 + 5 + 5 - 10", Ok(Object::Int(10))),
        ("2 * 2 * 2 * 2 * 2", Ok(Object::Int(32))),
        ("-50 + 100 + -50", Ok(Object::Int(0))),
        ("5 * 2 + 10", Ok(Object::Int(20))),
        ("5 + 2 * 10", Ok(Object::Int(25))),
        ("20 + 2 * -10", Ok(Object::Int(0))),
        ("50 / 2 * 2 + 10", Ok(Object::Int(60))),
        ("2 * (5 + 10)", Ok(Object::Int(30))),
        ("3 * 3 * 3 + 10", Ok(Object::Int(37))),
        ("3 * (3 * 3) + 10", Ok(Object::Int(37))),
        ("(5 + 10 * 2 + 15 / 3) * 2 + -10", Ok(Object::Int(50))),
        ("5++++5", Ok(Object::Int(10))),
    ];

    check(cases);
}

#[test]
fn string_literal() {
    let cases = vec![(r#""Hello World!""#, Ok(Object::Str("Hello World!".into())))];

    check(cases);
}

#[test]
fn string_concat() {
    let cases = vec![(
        r#"
            "Hello" + " "+ "World!"
            "#,
        Ok(Object::Str("Hello World!".into())),
    )];

    check(cases);
}

#[test]
fn mod_bool_expr() {
    let cases = vec![
        ("true", Ok(Object::Bool(true))),
        ("false", Ok(Object::Bool(false))),
        ("1 < 2", Ok(Object::Bool(true))),
        ("1 > 2", Ok(Object::Bool(false))),
        ("1 < 1", Ok(Object::Bool(false))),
        ("1 > 1", Ok(Object::Bool(false))),
        ("1 == 1", Ok(Object::Bool(true))),
        ("1 != 1", Ok(Object::Bool(false))),
        ("1 == 2", Ok(Object::Bool(false))),
        ("1 != 2", Ok(Object::Bool(true))),
        ("true == true", Ok(Object::Bool(true))),
        ("false == false", Ok(Object::Bool(true))),
        ("true == false", Ok(Object::Bool(false))),
        ("true != false", Ok(Object::Bool(true))),
        ("false != true", Ok(Object::Bool(true))),
        ("(1 < 2) == true", Ok(Object::Bool(true))),
        ("(1 < 2) == false", Ok(Object::Bool(false))),
        ("(1 > 2) == true", Ok(Object::Bool(false))),
        ("(1 > 2) == false", Ok(Object::Bool(true))),
    ];

    check(cases);
}

#[test]
fn mod_bang_operator() {
    let cases = vec![
        ("!true", Ok(Object::Bool(false))),
        ("!false", Ok(Object::Bool(true))),
        ("!!true", Ok(Object::Bool(true))),
        ("!!false", Ok(Object::Bool(false))),
    ];

    check(cases);
}

#[test]
fn mod_if_else() {
    let cases = vec![
        ("if (true) { 10 }", Ok(Object::Int(10))),
        ("if (false) { 10 }", Ok(Object::Null)),
        ("if (1) { 10 }", Ok(Object::Int(10))),
        ("if (1 < 2) { 10 }", Ok(Object::Int(10))),
        ("if (1 > 2) { 10 }", Ok(Object::Null)),
        ("if (1 > 2) { 10 } else { 20 }", Ok(Object::Int(20))),
        ("if (1 < 2) { 10 } else { 20 }", Ok(Object::Int(10))),
    ];

    check(cases);
}

#[test]
fn mod_return_statements() {
    let cases = vec![
        ("return 10;", Ok(Object::Int(10))),
        ("return 10; 9;", Ok(Object::Int(10))),
        ("return 2 * 5; 9;", Ok(Object::Int(10))),
        ("9; return 2 * 5; 9;", Ok(Object::Int(10))),
        (
            "if (10 > 1) {
                    if (10 > 1) {
                        return 10;
                    }
                    return 1;
                }",
            Ok(Object::Int(10)),
        ),
    ];

    check(cases);
}

#[test]
fn error_handling() {
    let cases = vec![
        (
            "5 + true;",
            Err("Infix operator + not found for the operands: int & bool!"),
        ),
        (
            "5 + true; 5;",
            Err("Infix operator + not found for the operands: int & bool!"),
        ),
        ("-true", Err("Operator prefix - is not defined for bool!")),
        ("5 + - !5", Err("Operator prefix ! is not defined for int!")),
        (
            "true + false;",
            Err("Infix operator + not found for the operands: bool & bool!"),
        ),
        (
            "5; true + false; 5",
            Err("Infix operator + not found for the operands: bool & bool!"),
        ),
        (
            "if (10 > 1) { true + false; }",
            Err("Infix operator + not found for the operands: bool & bool!"),
        ),
        (
            "
                if (10 > 1) {
                    if (10 > 1) {
                        return true + false;
                    }
                    return 1;
                }
                ",
            Err("Infix operator + not found for the operands: bool & bool!"),
        ),
        ("foobar", Err("Identifier foobar not found!")),
        (
            r#"
            "Hello" - "world"
            "#,
            Err("Infix operator - not found for the operands: string & string!"),
        ),
    ];

    check(cases);
}

#[test]
fn mod_let_statements() {
    let cases = vec![
        ("let a = 5; a;", Ok(Object::Int(5))),
        ("let a = 5 * 5; a;", Ok(Object::Int(25))),
        ("let a = 5; let b = a; b;", Ok(Object::Int(5))),
        (
            "let a = 5; let b = a; let c = a + b + 5; c;",
            Ok(Object::Int(15)),
        ),
    ];

    check(cases);
}

#[test]
fn function() {
    let cases = vec![(
        "fn(x) { x + 2; }; ",
        Ok(Object::Function(
            vec![Identifier("x".into())],
            vec![Statement::Expression(Expression::Infix(
                Infix::Plus,
                Box::new(Expression::Identifier(Identifier("x".into()))),
                Box::new(Expression::Literal(Literal::Int(2))),
            ))],
            0,
        )),
    )];

    check(cases);
}

#[test]
fn function_application() {
    let cases = vec![
        (
            "let identity = fn(x) { x; }; identity(5);",
            Ok(Object::Int(5)),
        ),
        (
            "let identity = fn(x) { return x; }; identity(5);",
            Ok(Object::Int(5)),
        ),
        (
            "let double = fn(x) { x * 2; }; double(5);",
            Ok(Object::Int(10)),
        ),
        (
            "let add = fn(x, y) { x + y; }; add(5, 5);",
            Ok(Object::Int(10)),
        ),
        ("let id = fn(x) { x; }; id(id(5));", Ok(Object::Int(5))),
        (
            "let add = fn(x, y) { x + y; }; add(5 + 5, add(5, 5));",
            Ok(Object::Int(20)),
        ),
        ("fn(x) { x; }(5)", Ok(Object::Int(5))),
    ];

    check(cases);
}

#[test]
fn closures() {
    let cases = vec![(
        "
                let newAdder = fn(x) {
                    fn(y) { x + y };
                };
                let addTwo = newAdder(2);
                addTwo(2);",
        Ok(Object::Int(4)),
    )];

    check(cases);
}

#[test]
fn nested_return_never_surfaces_the_sentinel() {
    let result = run("return if (true) { return 5; };");
    assert_eq!(result, Ok(Object::Int(5)));

    let result = run("let f = fn() { return if (true) { return 7; }; 1; }; f();");
    assert_eq!(result, Ok(Object::Int(7)));

    let result = run("if (10 > 1) { if (10 > 1) { return 10; } return 1; }");
    assert_eq!(result, Ok(Object::Int(10)));
}

#[test]
fn arity_mismatch() {
    let result = run("let add = fn(x, y) { x + y; }; add(1);");
    assert_eq!(
        result,
        Err(EvalError::ArityMismatch { expected: 2, given: 1 })
    );
    assert_eq!(
        result.unwrap_err().message(),
        "Wrong number of arguments. Expected: 2. Given: 1"
    );
}

#[test]
fn calling_a_non_function() {
    let result = run("5(1);");
    assert_eq!(result, Err(EvalError::NotAFunction("5".to_owned())));
    assert_eq!(result.unwrap_err().message(), "5 is not a valid function!");
}

#[test]
fn closures_capture_definition_scope() {
    let result = run(
        "let x = 100;
         let f = fn() { x };
         let g = fn(x) { f() };
         g(5);",
    );
    assert_eq!(result, Ok(Object::Int(100)));
}

#[test]
fn idempotent_across_instances() {
    let sources = vec![
        "let a = 5; let b = a * 2; if (b > a) { b } else { a }",
        "5 + true;",
        "let f = fn(x) { x + 1; }; f(41);",
    ];
    for src in sources {
        let first = run(src);
        let second = run(src);
        assert_eq!(first, second);
    }
}

#[test]
fn bindings_persist_across_inputs() {
    let mut eval = Eval::new();

    let lexer = Lexer::new("let a = 40;");
    let mut parser = Parser::new(lexer);
    let first = eval.eval(parser.parse_program());
    assert_eq!(first, Ok(Object::Empty));

    let lexer = Lexer::new("a + 2");
    let mut parser = Parser::new(lexer);
    let second = eval.eval(parser.parse_program());
    assert_eq!(second, Ok(Object::Int(42)));
}

#[test]
fn binding_survives_lex_failure_later_in_chunk() {
    let mut eval = Eval::new();

    let lexer = Lexer::new("let a = 5; let b = \"abc");
    let mut parser = Parser::new(lexer);
    let first = eval.eval(parser.parse_program());
    assert_eq!(
        first,
        Err(EvalError::Parse(ParseError::Lex(
            LexError::UnterminatedString
        )))
    );
    assert_eq!(
        first.unwrap_err().message(),
        "String is not properly closed!"
    );

    let lexer = Lexer::new("a");
    let mut parser = Parser::new(lexer);
    let second = eval.eval(parser.parse_program());
    assert_eq!(second, Ok(Object::Int(5)));
}

#[test]
fn rendering_of_values() {
    assert_eq!(run("1 + 2").unwrap().render(), "3");
    assert_eq!(run("-42").unwrap().render(), "-42");
    assert_eq!(run("true").unwrap().render(), "true");
    assert_eq!(run("if (false) { 1 }").unwrap().render(), "NULL");
    assert_eq!(run("let a = 1;").unwrap().render(), "");
    assert_eq!(run("fn(a, b) { a + b; }").unwrap().render(), "fn(a,b)");
    assert_eq!(run(r#""hi" + " there""#).unwrap().render(), "hi there");
}

#[test]
fn string_with_multibyte_text() {
    let result = run("\"gr\u{00fc}n \u{2713}\"");
    assert_eq!(result, Ok(Object::Str("gr\u{00fc}n \u{2713}".into())));
}

#[test]
fn get_type_names() {
    assert_eq!(run("5").unwrap().get_type(), "int");
    assert_eq!(run("true").unwrap().get_type(), "bool");
    assert_eq!(run(r#""s""#).unwrap().get_type(), "string");
    assert_eq!(run("if (false) { 1 }").unwrap().get_type(), "null");
    assert_eq!(run("fn(){}").unwrap().get_type(), "function");
}

#[test]
fn zero_is_truthy() {
    assert_eq!(run("if (0) { 1 } else { 2 }"), Ok(Object::Int(1)));
}
