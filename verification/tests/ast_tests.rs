use php_front::ast::{Node, Program, ReturnStatement, Statement, VarStatement};

#[test]
fn string() {
    let program = Program {
        statements: vec![
            Statement::Var(VarStatement {
                name: "x".to_string(),
                value: "5".to_string(),
            }),
            Statement::Var(VarStatement {
                name: "y".to_string(),
                value: "7".to_string(),
            }),
        ],
    };

    if program.string() != "$x = 5;$y = 7;".to_owned() {
        panic!(
            "program.string() wrong. expexted={}, got={}",
            "$x = 5;$y = 7;",
            program.string()
        );
    }
}

#[test]
fn render_var_statement_exact() {
    let statement = Statement::Var(VarStatement {
        name: "x".to_string(),
        value: "5".to_string(),
    });
    assert_eq!(statement.string(), "$x = 5;");
}

#[test]
fn render_return_statement_exact() {
    let statement = Statement::Return(ReturnStatement {
        return_value: "5".to_string(),
    });
    assert_eq!(statement.string(), "return 5;");
}

#[test]
fn render_program_keeps_source_order() {
    let program = Program {
        statements: vec![
            Statement::Var(VarStatement {
                name: "x".to_string(),
                value: "5".to_string(),
            }),
            Statement::Return(ReturnStatement {
                return_value: "7".to_string(),
            }),
        ],
    };
    assert_eq!(program.string(), "$x = 5;return 7;");
}

#[test]
fn render_empty_program() {
    let program = Program { statements: vec![] };
    assert_eq!(program.string(), "");
}
