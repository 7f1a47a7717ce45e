use monkey::ast::{Expression, Identifier, Infix, Literal, Statement};
use monkey::lexer::{LexError, Lexer};
use monkey::parser::{ParseError, Parser};

#[test]
fn parser_let_statements() {
    let input = "
        let x = 5;
        let y = true;
        let foobar = y;
        ";

    let lexer = Lexer::new(input);
    let mut parser = Parser::new(lexer);

    let program = parser.parse_program();

    assert_eq!(program.len(), 3);

    for p in &program {
        println!("{:?}", p);
    }

    assert!(program.iter().all(|x| x.is_ok()));
}

#[test]
fn parser_return_statements() {
    let input = "
        return 5;
        return 10;
        return foobar;
        ";

    let lexer = Lexer::new(input);
    let mut parser = Parser::new(lexer);

    let program = parser.parse_program();

    assert_eq!(program.len(), 3);

    for p in &program {
        println!("{:?}", p);
    }

    assert!(program.iter().all(|x| x.is_ok()));
}

#[test]
fn identifier_expression() {
    let input = "foobar;
        foo";

    let lexer = Lexer::new(input);
    let mut parser = Parser::new(lexer);

    let program = parser.parse_program();

    assert_eq!(program.len(), 2);
    println!("{:?}", program);
    assert!(program.iter().all(|x| x.is_ok()));
}

#[test]
fn integer_expression() {
    let input = "555;";

    let lexer = Lexer::new(input);
    let mut parser = Parser::new(lexer);

    let program = parser.parse_program();

    assert_eq!(program.len(), 1);
    println!("{:?}", program);
    assert!(program.iter().all(|x| x.is_ok()));
}

#[test]
fn prefix_expression() {
    let input = "-5;";

    let lexer = Lexer::new(input);
    let mut parser = Parser::new(lexer);

    let program = parser.parse_program();

    assert_eq!(program.len(), 1);
    println!("{:?}", program);
    assert!(program.iter().all(|x| x.is_ok()));
}

#[test]
fn infix_expression() {
    let input = r#"10 - 5 * 5;
        -1 + 2;
        alice / bob;
        "#;

    let lexer = Lexer::new(input);
    let mut parser = Parser::new(lexer);

    let program = parser.parse_program();

    println!("{:?}", program);
    assert_eq!(program.len(), 3);
    assert!(program.iter().all(|x| x.is_ok()));
}

#[test]
fn boolean_expression() {
    let input = "true == !false;
        !true == 3 < 2 == false;
        ";

    let lexer = Lexer::new(input);
    let mut parser = Parser::new(lexer);

    let program = parser.parse_program();

    assert_eq!(program.len(), 2);
    println!("{:?}", program);
    assert!(program.iter().all(|x| x.is_ok()));
}

#[test]
fn operator_precedence() {
    let input = "(1 + 2) * 5";

    let lexer = Lexer::new(input);
    let mut parser = Parser::new(lexer);

    let program = parser.parse_program();

    assert_eq!(program.len(), 1);
    println!("{:?}", program);
    assert!(program.iter().all(|x| x.is_ok()));
}

#[test]
fn simple_ast() {
    let input = "
        let my_var = another_var;
        ";

    let lexer = Lexer::new(input);
    let mut parser = Parser::new(lexer);

    let program = parser.parse_program();

    assert_eq!(program.len(), 1);
    println!("{:?}", program);
    assert!(program.iter().all(|x| x.is_ok()));
}

#[test]
fn if_expression() {
    let input = "if (x < y) { x } else { return y; }";

    let lexer = Lexer::new(input);
    let mut parser = Parser::new(lexer);

    let program = parser.parse_program();

    assert_eq!(program.len(), 1);
    println!("{:?}", program);
    assert!(program.iter().all(|x| x.is_ok()));
}

#[test]
fn call_expression() {
    let input = "add(1, 2 * 3,((alice)), 4 + 5);";

    let lexer = Lexer::new(input);
    let mut parser = Parser::new(lexer);

    let program = parser.parse_program();

    println!("{:?}", program);
    assert_eq!(program.len(), 1);
    assert!(program.iter().all(|x| x.is_ok()));
}

#[test]
fn function_expression() {
    let input = "fn (x, y) { x + y };
        let foo = fn() {return 69;};
        fn(a){}
        ";

    let lexer = Lexer::new(input);
    let mut parser = Parser::new(lexer);

    let program = parser.parse_program();

    println!("{:?}", program);
    assert_eq!(program.len(), 3);
    assert!(program.iter().all(|x| x.is_ok()));
}

#[test]
fn parser_exact_tree() {
    let lexer = Lexer::new("1 + 2 * 3;");
    let mut parser = Parser::new(lexer);
    let program = parser.parse_program();
    assert_eq!(program.len(), 1);
    let expected = Statement::Expression(Expression::Infix(
        Infix::Plus,
        Box::new(Expression::Literal(Literal::Int(1))),
        Box::new(Expression::Infix(
            Infix::Product,
            Box::new(Expression::Literal(Literal::Int(2))),
            Box::new(Expression::Literal(Literal::Int(3))),
        )),
    ));
    assert_eq!(program[0].as_ref().unwrap(), &expected);
}

#[test]
fn parser_left_associative_tree() {
    let lexer = Lexer::new("10 - 4 - 3;");
    let mut parser = Parser::new(lexer);
    let program = parser.parse_program();
    assert_eq!(program.len(), 1);
    let expected = Statement::Expression(Expression::Infix(
        Infix::Minus,
        Box::new(Expression::Infix(
            Infix::Minus,
            Box::new(Expression::Literal(Literal::Int(10))),
            Box::new(Expression::Literal(Literal::Int(4))),
        )),
        Box::new(Expression::Literal(Literal::Int(3))),
    ));
    assert_eq!(program[0].as_ref().unwrap(), &expected);
}

#[test]
fn parser_keeps_statements_before_lex_failure() {
    let lexer = Lexer::new("let a = 5; let b = \"abc");
    let mut parser = Parser::new(lexer);
    let program = parser.parse_program();
    assert_eq!(program.len(), 2);
    assert_eq!(
        program[0],
        Ok(Statement::Let(
            Identifier("a".to_string()),
            Expression::Literal(Literal::Int(5)),
        ))
    );
    assert_eq!(
        program[1],
        Err(ParseError::Lex(LexError::UnterminatedString))
    );
}

#[test]
fn parser_lex_failure_at_statement_boundary() {
    let lexer = Lexer::new("5; @");
    let mut parser = Parser::new(lexer);
    let program = parser.parse_program();
    assert_eq!(program.len(), 2);
    assert_eq!(
        program[0],
        Ok(Statement::Expression(Expression::Literal(Literal::Int(5))))
    );
    assert_eq!(
        program[1],
        Err(ParseError::Lex(LexError::IllegalCharacter(b'@')))
    );
}

#[test]
fn parser_lex_failure_alone() {
    let lexer = Lexer::new("\"abc");
    let mut parser = Parser::new(lexer);
    let program = parser.parse_program();
    assert_eq!(
        program,
        vec![Err(ParseError::Lex(LexError::UnterminatedString))]
    );
}

#[test]
fn parser_records_statement_errors() {
    let lexer = Lexer::new("let 5; 7;");
    let mut parser = Parser::new(lexer);
    let program = parser.parse_program();
    assert!(program.iter().any(|x| x.is_err()));
    assert!(program.iter().any(|x| x.is_ok()));
}
