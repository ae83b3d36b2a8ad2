use php_front::ast::{self, Node, Statement::Return, Statement::Var};
use php_front::lexer::Lexer;
use php_front::parser::Parser;

#[test]
fn var_statement() {
    let input = ("$x = 5;", "x", "5");

    let lexer = Lexer::new(String::from(input.0));
    let mut parser = Parser::new(lexer);
    let program = parser.parse_program();
    check_parser_errors(parser);

    if program.statements.len() != 1 {
        panic!(
            "program.statements does not contain 1 statements. got={}",
            program.statements.len()
        )
    }

    let statement = &program.statements[0];
    test_var_statement(statement, input.1, input.2);
}

#[test]
fn return_statement() {
    let input = ("return 5;", "5");

    let lexer = Lexer::new(String::from(input.0));
    let mut parser = Parser::new(lexer);
    let program = parser.parse_program();
    check_parser_errors(parser);

    if program.statements.len() != 1 {
        panic!(
            "program.statements does not contain 1 statements. got={}",
            program.statements.len()
        )
    }

    let statement = &program.statements[0];
    match statement {
        Return(return_statement) => {
            if return_statement.return_value != input.1 {
                panic!(
                    "return_statement.return_value not '{}'. got={}",
                    input.1, return_statement.return_value
                )
            }
        }
        _ => panic!("expected ast::Statement::Return()"),
    }
}

fn test_var_statement(var_statement: &ast::Statement, name: &str, value: &str) {
    match var_statement {
        Var(var_statement) => {
            if var_statement.name != name {
                panic!(
                    "var_statement.name not '{}'. got={}",
                    name, var_statement.name
                )
            }
            if var_statement.value != value {
                panic!("statement.value not {}, got {}", value, var_statement.value);
            }
        }
        _ => panic!("expected ast::Statement::Var()"),
    }
}

fn check_parser_errors(parser: Parser) {
    let errors = parser.errors;

    if errors.len() == 0 {
        return;
    }

    println!("Parser has {} errors", errors.len());
    for msg in errors {
        println!("parse error: {}", msg);
    }
    panic!();
}

#[test]
fn missing_assign_reports_error() {
    let lexer = Lexer::new(String::from("$x 5;"));
    let mut parser = Parser::new(lexer);
    let program = parser.parse_program();

    assert_eq!(program.statements.len(), 0);
    assert!(!parser.errors.is_empty());
    assert_eq!(
        parser.errors[0],
        "expected next token to be Assign, got Int(5) instead"
    );
}

#[test]
fn illegal_token_reason_is_recorded() {
    let lexer = Lexer::new(String::from("$1x"));
    let mut parser = Parser::new(lexer);
    let program = parser.parse_program();

    assert_eq!(program.statements.len(), 0);
    assert!(!parser.errors.is_empty());
    assert_eq!(parser.errors[0], "First symbol of var can't be digit");
}

#[test]
fn unexpected_statement_token_is_skipped() {
    let lexer = Lexer::new(String::from("5; $x = 7;"));
    let mut parser = Parser::new(lexer);
    let program = parser.parse_program();

    assert_eq!(parser.errors[0], "unexpected token Int(5)");
    assert_eq!(program.statements.len(), 1);
    match &program.statements[0] {
        Var(var_statement) => {
            assert_eq!(var_statement.name, "x");
            assert_eq!(var_statement.value, "7");
        }
        _ => panic!("expected ast::Statement::Var()"),
    }
}

#[test]
fn expression_error_for_bad_value() {
    let lexer = Lexer::new(String::from("$x = $y;"));
    let mut parser = Parser::new(lexer);
    let program = parser.parse_program();

    assert_eq!(program.statements.len(), 0);
    assert!(!parser.errors.is_empty());
    assert_eq!(
        parser.errors[0],
        "cannot parse expression starting with Var(y)"
    );
}

#[test]
fn identifier_as_value_expression() {
    let lexer = Lexer::new(String::from("$x = foo;"));
    let mut parser = Parser::new(lexer);
    let program = parser.parse_program();
    check_parser_errors(parser);

    assert_eq!(program.statements.len(), 1);
    test_var_statement(&program.statements[0], "x", "foo");
}

#[test]
fn parse_then_render_round_trip() {
    let lexer = Lexer::new(String::from("$x = 5;"));
    let mut parser = Parser::new(lexer);
    let program = parser.parse_program();
    check_parser_errors(parser);

    assert_eq!(program.string(), "$x = 5;");
}

#[test]
fn multiple_statements_in_source_order() {
    let lexer = Lexer::new(String::from("$x = 5; return 7;"));
    let mut parser = Parser::new(lexer);
    let program = parser.parse_program();
    check_parser_errors(parser);

    assert_eq!(program.statements.len(), 2);
    assert_eq!(program.string(), "$x = 5;return 7;");
}
