use monkey_lang_rs::ast::Statement;
use monkey_lang_rs::lexer;
use monkey_lang_rs::parser::Parser;

#[test]
fn test_let_statement() {
    let input = "
        let x = 5;
        let y=10;
        let foobar = 6969;";
    let l = lexer::Lexer::new(input);
    let mut p = Parser::new(l);
    let program = p.parse_program().unwrap();
    for s in program.statements.iter() {
        println!("{:?}", &s)
    }
    assert!(program.statements.len() == 3)
}

#[test]
fn test_let_errors() {
    let input = "
        let x 5;
   let = 10;
   let 838383;";
    let l = lexer::Lexer::new(input);
    let mut p = Parser::new(l);
    let program = p.parse_program();
    match program {
        Ok(_) => panic!("Catching errors failed!"),
        Err(x) => {
            for s in x {
                println!("{:?}", s)
            }
        }
    }
}

#[test]
fn test_return_statements() {
    let input = "
        return 5;
        return 10;
        return 696969;";
    let l = lexer::Lexer::new(input);
    let mut p = Parser::new(l);
    let program = p.parse_program().unwrap();
    for s in program.statements.iter() {
        println!("{:?}", &s)
    }
    assert!(program.statements.len() == 3)
}

#[test]
fn test_iden_expr() {
    let input = "foobar;";
    let l = lexer::Lexer::new(input);
    let mut p = Parser::new(l);
    let program = p.parse_program().unwrap();
    for s in program.statements.iter() {
        println!("{:?}", &s)
    }
    assert!(
        matches!(program.statements[0], Statement::ExpressionStatement(..)),
        "Not an expression statement!"
    )
}

#[test]
fn test_int_expr() {
    let input = "5;";
    let l = lexer::Lexer::new(input);
    let mut p = Parser::new(l);
    let program = p.parse_program().unwrap();
    for s in program.statements.iter() {
        println!("{:?}", &s)
    }
    assert!(
        matches!(program.statements[0], Statement::ExpressionStatement(..)),
        "Not an expression statement!"
    )
}

#[test]
fn test_parsing_prefix_expression() {
    let input = "!5; -5;";
    let l = lexer::Lexer::new(input);
    let mut p = Parser::new(l);
    let program = p.parse_program().unwrap();
    for s in program.statements.iter() {
        println!("{:?}", &s)
    }
    assert!(
        matches!(program.statements[0], Statement::ExpressionStatement(..)),
        "Not an expression statement!"
    )
}

#[test]
fn test_parsing_infix_expressions() {
    let input = "a + b + c";
    let l = lexer::Lexer::new(input);
    let mut p = Parser::new(l);
    let program = p.parse_program().unwrap();
    for s in program.statements.iter() {
        println!("{:?}", &s)
    }
    assert!(
        matches!(program.statements[0], Statement::ExpressionStatement(..)),
        "Not an expression statement!"
    )
}

#[test]
fn test_bool_expr() {
    let input = "false;";
    let l = lexer::Lexer::new(input);
    let mut p = Parser::new(l);
    let program = p.parse_program().unwrap();
    for s in program.statements.iter() {
        println!("{:?}", &s)
    }
    assert!(
        matches!(program.statements[0], Statement::ExpressionStatement(..)),
        "Not an expression statement!"
    )
}

#[test]
fn test_operator_precedence() {
    let tests = vec![
        ("1 + (2 + 3) + 4", "((1+ (2+3)) + 4 )"),
        ("(5 + 5) * 2", "((5 + 5) * 2)"),
        ("2 / (5 + 5)", "(2 / (5 + 5))"),
        ("-(5 + 5)", "(-(5 + 5))"),
        ("!(true == true)", "(!(true == true))"),
    ];
    for test in tests {
        let l1 = lexer::Lexer::new(test.0);
        let l2 = lexer::Lexer::new(test.1);
        let mut p1 = Parser::new(l1);
        let mut p2 = Parser::new(l2);
        let program1 = p1.parse_program().unwrap();
        let program2 = p2.parse_program().unwrap();
        for i in 0..program1.statements.len() {
            assert!(program1.statements[i] == program2.statements[i])
        }
    }
}

#[test]
fn test_if_expression() {
    let input = "if (x < y) { x }";
    let l = lexer::Lexer::new(input);
    let mut p = Parser::new(l);
    let program = p.parse_program().unwrap();
    for s in program.statements.iter() {
        println!("{:?}", &s)
    }
    assert!(
        matches!(program.statements[0], Statement::ExpressionStatement(..)),
        "Not an expression statement!"
    )
}

#[test]
fn test_if_else_expression() {
    let input = "if (x < y) { x } else { y }";
    let l = lexer::Lexer::new(input);
    let mut p = Parser::new(l);
    let program = p.parse_program().unwrap();
    for s in program.statements.iter() {
        println!("{:?}", &s)
    }
    assert!(
        matches!(program.statements[0], Statement::ExpressionStatement(..)),
        "Not an expression statement!"
    )
}

#[test]
fn test_function_literal_parsing() {
    let input = "fn(x, y) { x + y; }";
    let l = lexer::Lexer::new(input);
    let mut p = Parser::new(l);
    let program = p.parse_program().unwrap();
    for s in program.statements.iter() {
        println!("{:?}", &s)
    }
    assert!(
        matches!(program.statements[0], Statement::ExpressionStatement(..)),
        "Not an expression statement!"
    )
}

#[test]
fn test_call_expression_parsing() {
    let input = "add(1, 2 * 3, 4 + 5);";
    let l = lexer::Lexer::new(input);
    let mut p = Parser::new(l);
    let program = p.parse_program().unwrap();
    for s in program.statements.iter() {
        println!("{:?}", &s)
    }
    assert!(
        matches!(program.statements[0], Statement::ExpressionStatement(..)),
        "Not an expression statement!"
    )
}

#[test]
fn test_error_accumulation_order() {
    let input = "
        let x 5;
   let = 10;
   let 838383;";
    let l = lexer::Lexer::new(input);
    let mut p = Parser::new(l);
    let errs = p.parse_program().unwrap_err();
    assert_eq!(errs.len(), 3);
    assert!(errs[0].starts_with("Expected Assign"));
    assert!(errs[1].starts_with("Expected Ident(IDEN)"));
    assert!(errs[2].starts_with("Expected Ident(IDEN)"));
}

#[test]
fn test_scan_overflow_reported_as_parse_error() {
    let input = "let x = 99999999999;";
    let l = lexer::Lexer::new(input);
    let mut p = Parser::new(l);
    let errs = p.parse_program().unwrap_err();
    assert!(errs.len() >= 1);
}

#[test]
fn test_empty_program_parses() {
    let l = lexer::Lexer::new("");
    let mut p = Parser::new(l);
    let program = p.parse_program().unwrap();
    assert_eq!(program.statements.len(), 0);
}

#[test]
fn test_missing_rparen_in_grouped_is_recorded() {
    let l = lexer::Lexer::new("(5");
    let mut p = Parser::new(l);
    let errs = p.parse_program().unwrap_err();
    assert_eq!(errs.len(), 1);
    assert!(errs[0].starts_with("Expected RParen"));
}
