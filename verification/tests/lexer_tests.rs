use php_front::lexer::{Lexer, Token, Value};

#[test]
fn get_next_token() -> Result<(), String> {
    let input = "<?php
        $five = 5;
        $ten = 10;

        $add = function($x, $y) {
            return $x + $y;
        };

        $result = add($five, $ten);";

    let tokens = vec![
        Token::StartTag,
        Token::Var(Value::Is(String::from("five"))),
        Token::Assign,
        Token::Int(Value::Is(String::from("5"))),
        Token::Semicolon,
        Token::Var(Value::Is(String::from("ten"))),
        Token::Assign,
        Token::Int(Value::Is(String::from("10"))),
        Token::Semicolon,
        Token::Var(Value::Is(String::from("add"))),
        Token::Assign,
        Token::Function,
        Token::Lparen,
        Token::Var(Value::Is(String::from("x"))),
        Token::Comma,
        Token::Var(Value::Is(String::from("y"))),
        Token::Rparen,
        Token::Lbrace,
        Token::Return,
        Token::Var(Value::Is(String::from("x"))),
        Token::Plus,
        Token::Var(Value::Is(String::from("y"))),
        Token::Semicolon,
        Token::Rbrace,
        Token::Semicolon,
        Token::Var(Value::Is(String::from("result"))),
        Token::Assign,
        Token::Ident(Value::Is(String::from("add"))),
        Token::Lparen,
        Token::Var(Value::Is(String::from("five"))),
        Token::Comma,
        Token::Var(Value::Is(String::from("ten"))),
        Token::Rparen,
        Token::Semicolon,
        Token::Eof,
    ];

    let mut lexer = Lexer::new(input.into());
    for expected_token in tokens {
        let next_token = lexer.next_token()?;
        println!("expected: {:?}, received {:?}", expected_token, next_token);
        assert_eq!(expected_token, next_token);
    }

    return Ok(());
}

#[test]
fn false_var_name() -> Result<(), String> {
    let input = "$1five";

    let tokens = vec![Token::Illegal(String::from(
        "First symbol of var can't be digit",
    ))];

    let mut lexer = Lexer::new(input.into());
    for expected_token in tokens {
        let next_token = lexer.next_token()?;
        println!("expected: {:?}, received {:?}", expected_token, next_token);
        assert_eq!(expected_token, next_token);
    }

    return Ok(());
}

#[test]
fn eof_reached_within_input_length_and_stays() -> Result<(), String> {
    let input = "$x = 5;";
    let mut lexer = Lexer::new(String::from(input));
    let mut steps: usize = 0;
    loop {
        let token = lexer.next_token()?;
        if token == Token::Eof {
            break;
        }
        steps += 1;
        assert!(steps <= input.len());
    }
    for _ in 0..5 {
        assert_eq!(lexer.next_token()?, Token::Eof);
    }
    Ok(())
}

#[test]
fn empty_input_is_eof() -> Result<(), String> {
    let mut lexer = Lexer::new(String::new());
    assert_eq!(lexer.next_token()?, Token::Eof);
    assert_eq!(lexer.next_token()?, Token::Eof);
    Ok(())
}

#[test]
fn bad_start_tag_is_illegal() -> Result<(), String> {
    let mut lexer = Lexer::new(String::from("<?xyz"));
    assert_eq!(
        lexer.next_token()?,
        Token::Illegal(String::from("False symbols after <?"))
    );
    assert_eq!(lexer.next_token()?, Token::Eof);
    Ok(())
}

#[test]
fn lone_less_than_is_lt() -> Result<(), String> {
    let mut lexer = Lexer::new(String::from("a < b"));
    assert_eq!(lexer.next_token()?, Token::Ident(Value::Is(String::from("a"))));
    assert_eq!(lexer.next_token()?, Token::LT);
    assert_eq!(lexer.next_token()?, Token::Ident(Value::Is(String::from("b"))));
    assert_eq!(lexer.next_token()?, Token::Eof);
    Ok(())
}

#[test]
fn unclassified_character_is_illegal() -> Result<(), String> {
    let mut lexer = Lexer::new(String::from("#"));
    assert_eq!(
        lexer.next_token()?,
        Token::Illegal(String::from("Unexpected character"))
    );
    assert_eq!(lexer.next_token()?, Token::Eof);
    Ok(())
}

#[test]
fn keywords_and_identifiers() -> Result<(), String> {
    let mut lexer = Lexer::new(String::from("true false if else function return truex"));
    assert_eq!(lexer.next_token()?, Token::True);
    assert_eq!(lexer.next_token()?, Token::False);
    assert_eq!(lexer.next_token()?, Token::If);
    assert_eq!(lexer.next_token()?, Token::Else);
    assert_eq!(lexer.next_token()?, Token::Function);
    assert_eq!(lexer.next_token()?, Token::Return);
    assert_eq!(
        lexer.next_token()?,
        Token::Ident(Value::Is(String::from("truex")))
    );
    assert_eq!(lexer.next_token()?, Token::Eof);
    Ok(())
}

#[test]
fn display_forms() {
    assert_eq!(Token::Var(Value::Is(String::from("x"))).display_text(), "Var(x)");
    assert_eq!(Token::Int(Value::Is(String::from("5"))).display_text(), "Int(5)");
    assert_eq!(Token::Ident(Value::Is(String::from("add"))).display_text(), "Ident(add)");
    assert_eq!(Token::Assign.display_text(), "Assign");
    assert_eq!(Token::Eof.display_text(), "Eof");
    assert_eq!(Token::StartTag.display_text(), "StartTag");
    assert_eq!(
        Token::Illegal(String::from("Unexpected character")).display_text(),
        "Illegal(Unexpected character)"
    );
}
