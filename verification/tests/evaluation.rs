use monkey_lang_rs::env::Env;
use monkey_lang_rs::evaluator::{self, Evaluator};
use monkey_lang_rs::lexer;
use monkey_lang_rs::object::{EvalError, Object};
use monkey_lang_rs::parser::Parser;
use monkey_lang_rs::{eval_monkey_program, unwrap_object, MonkeyError};
use std::str::FromStr;

const FUEL: u64 = 1000;

#[test]
fn test_function_applications() {
    let tests = vec![
        ("let identity = fn(x) { x; }; identity(5);", Object::Integer(5)),
        ("let identity = fn(x) { return x; }; identity(5);", Object::Integer(5)),
        ("let double = fn(x) { x * 2; }; double(5);", Object::Integer(10)),
        ("let add = fn(x, y) { x + y; }; add(5, 5);", Object::Integer(10)),
        ("let add = fn(x, y) { x + y; }; add(5 + 5, add(5, 5));", Object::Integer(20)),
        ("fn(x) { x; }(5)", Object::Integer(5)),
    ];
    for test in tests.iter() {
        let l1 = lexer::Lexer::new(test.0);
        let mut p1 = Parser::new(l1);
        let program1 = p1.parse_program().unwrap();
        let mut evaluator = evaluator::Evaluator::new();
        assert_eq!(evaluator.eval_statements(&program1.statements, FUEL).unwrap(), test.1)
    }
}

#[test]
fn test_function_object() {
    let input = "fn(x) { x + 2; };";
    let l1 = lexer::Lexer::new(input);
    let mut p1 = Parser::new(l1);
    let program1 = p1.parse_program().unwrap();
    let mut evaluator = evaluator::Evaluator::new();
    evaluator.eval_statements(&program1.statements, FUEL).unwrap();
}

#[test]
fn test_return_value() {
    let tests = vec![
        ("return 10;", Object::Integer(10)),
        ("return 10; 9;", Object::Integer(10)),
        ("return 2 * 5; 9;", Object::Integer(10)),
        ("9; return 2 * 5; 9;", Object::Integer(10)),
        (
            "if (10 > 1) {
     if (10 > 1) {
       return 10;
} return 1; }",
            Object::Integer(10),
        ),
    ];
    for test in tests.iter() {
        let l1 = lexer::Lexer::new(test.0);
        let mut p1 = Parser::new(l1);
        let program1 = p1.parse_program().unwrap();
        let mut evaluator = evaluator::Evaluator::new();
        assert_eq!(evaluator.eval_statements(&program1.statements, FUEL).unwrap(), test.1);
    }
}

#[test]
fn test_if_else_expr() {
    let tests = vec![
        ("if (true) { 10 }", Object::Integer(10)),
        ("if (false) { 10 }", Object::Null),
        ("if (1) { 10 }", Object::Integer(10)),
        ("if (1 < 2) { 10 }", Object::Integer(10)),
        ("if (1 > 2) { 10 }", Object::Null),
        ("if (1 > 2) { 10 } else { 20 }", Object::Integer(20)),
        ("if (1 < 2) { 10 } else { 20 }", Object::Integer(10)),
    ];
    for test in tests.iter() {
        let l1 = lexer::Lexer::new(test.0);
        let mut p1 = Parser::new(l1);
        let program1 = p1.parse_program().unwrap();
        let mut evaluator = evaluator::Evaluator::new();
        assert_eq!(evaluator.eval_statements(&program1.statements, FUEL).unwrap(), test.1)
    }
}

#[test]
fn test_bang_operator() {
    let tests = vec![("true", "!false"), ("false", "!true")];
    for test in tests {
        let l1 = lexer::Lexer::new(test.0);
        let l2 = lexer::Lexer::new(test.1);
        let mut p1 = Parser::new(l1);
        let mut p2 = Parser::new(l2);
        let program1 = p1.parse_program().unwrap();
        let program2 = p2.parse_program().unwrap();
        let mut evaluator1 = evaluator::Evaluator::new();
        let mut evaluator2 = evaluator::Evaluator::new();
        assert_eq!(
            evaluator1.eval_statements(&program1.statements, FUEL).unwrap(),
            evaluator2.eval_statements(&program2.statements, FUEL).unwrap()
        )
    }
}

#[test]
fn test_negation_operator() {
    let tests = vec![("-5", Object::Integer(-5)), ("-90", Object::Integer(-90))];
    for test in tests.iter() {
        let l1 = lexer::Lexer::new(test.0);
        let mut p1 = Parser::new(l1);
        let program1 = p1.parse_program().unwrap();
        let mut evaluator = evaluator::Evaluator::new();
        for _i in 0..program1.statements.len() {
            assert_eq!(evaluator.eval_statements(&program1.statements, FUEL).unwrap(), test.1)
        }
    }
}

#[test]
fn test_infix_expr() {
    let tests = vec![
        ("6-5", Object::Integer(1)),
        ("100-(45+45)", Object::Integer(10)),
        ("50 / 2 * 2 + 10", Object::Integer(60)),
        ("2 * (5 + 10)", Object::Integer(30)),
    ];
    for test in tests.iter() {
        let l1 = lexer::Lexer::new(test.0);
        let mut p1 = Parser::new(l1);
        let program1 = p1.parse_program().unwrap();
        let mut evaluator = evaluator::Evaluator::new();
        assert_eq!(evaluator.eval_statements(&program1.statements, FUEL).unwrap(), test.1)
    }
}

#[test]
fn test_infix_bool_expr() {
    let tests = vec![
        ("true", Object::Boolean(true)),
        ("false", Object::Boolean(false)),
        ("1 < 2", Object::Boolean(true)),
        ("1 > 2", Object::Boolean(false)),
        ("1 < 1", Object::Boolean(false)),
        ("1 > 1", Object::Boolean(false)),
        ("1 == 1", Object::Boolean(true)),
        ("1 != 1", Object::Boolean(false)),
        ("1 == 2", Object::Boolean(false)),
        ("1 != 2", Object::Boolean(true)),
        ("true == true", Object::Boolean(true)),
        ("false == false", Object::Boolean(true)),
        ("true == false", Object::Boolean(false)),
        ("true != false", Object::Boolean(true)),
        ("false != true", Object::Boolean(true)),
        ("(1 < 2) == true", Object::Boolean(true)),
        ("(1 < 2) == false", Object::Boolean(false)),
        ("(1 > 2) == true", Object::Boolean(false)),
        ("(1 > 2) == false", Object::Boolean(true)),
    ];
    for test in tests.iter() {
        let l1 = lexer::Lexer::new(test.0);
        let mut p1 = Parser::new(l1);
        let program1 = p1.parse_program().unwrap();
        let mut evaluator = evaluator::Evaluator::new();
        assert_eq!(evaluator.eval_statements(&program1.statements, FUEL).unwrap(), test.1)
    }
}

#[test]
fn test_fibonacci() {
    let input = "let fibonacci = fn(x) {
                          if (x == 0) {
                            0
                          } else {
                            if (x == 1) {
                              return 1;
                            } else {
                              fibonacci(x - 1) + fibonacci(x - 2);
                            }
                          }
                        };
                        fibonacci(20)";
    let ans = i32::from_str(&eval_monkey_program(input.to_string(), 10000).unwrap()).unwrap();
    assert_eq!(ans, 6765);
}

#[test]
fn test_closures_resolve_through_captured_frame() {
    let input = "let make = fn(a) { fn(b) { a + b; }; }; let addfive = make(5); addfive(3);";
    assert_eq!(eval_monkey_program(input.to_string(), FUEL).unwrap(), "8");
}

#[test]
fn test_capture_is_by_reference_not_snapshot() {
    let input = "let a = 1; let f = fn(b) { a + b; }; let a = 2; f(10);";
    assert_eq!(eval_monkey_program(input.to_string(), FUEL).unwrap(), "12");
}

#[test]
fn test_division_by_zero_is_fatal() {
    let l = lexer::Lexer::new("5 / 0;");
    let mut p = Parser::new(l);
    let program = p.parse_program().unwrap();
    let mut evaluator = Evaluator::new();
    assert_eq!(
        evaluator.eval_statements(&program.statements, FUEL),
        Err(EvalError::DivisionByZero)
    );
}

#[test]
fn test_arithmetic_overflow_is_fatal() {
    let l = lexer::Lexer::new("2147483647 + 1;");
    let mut p = Parser::new(l);
    let program = p.parse_program().unwrap();
    let mut evaluator = Evaluator::new();
    assert_eq!(
        evaluator.eval_statements(&program.statements, FUEL),
        Err(EvalError::IntegerOverflow)
    );
}

#[test]
fn test_depth_limit_on_unbounded_recursion() {
    let input = "let f = fn() { f(); }; f();";
    match eval_monkey_program(input.to_string(), 50) {
        Err(MonkeyError::Eval(EvalError::DepthLimitExceeded)) => (),
        other => panic!("unexpected outcome: {:?}", other),
    }
}

#[test]
fn test_unbound_identifier_degrades_to_null() {
    let l = lexer::Lexer::new("nosuchname;");
    let mut p = Parser::new(l);
    let program = p.parse_program().unwrap();
    let mut evaluator = Evaluator::new();
    assert_eq!(evaluator.eval_statements(&program.statements, FUEL).unwrap(), Object::Null);
}

#[test]
fn test_calling_non_function_degrades_to_null() {
    let l = lexer::Lexer::new("let x = 5; x(1);");
    let mut p = Parser::new(l);
    let program = p.parse_program().unwrap();
    let mut evaluator = Evaluator::new();
    assert_eq!(evaluator.eval_statements(&program.statements, FUEL).unwrap(), Object::Null);
}

#[test]
fn test_bang_on_integer_degrades_to_null() {
    let l = lexer::Lexer::new("!5;");
    let mut p = Parser::new(l);
    let program = p.parse_program().unwrap();
    let mut evaluator = Evaluator::new();
    assert_eq!(evaluator.eval_statements(&program.statements, FUEL).unwrap(), Object::Null);
}

#[test]
fn test_mixed_operand_types_degrade_to_null() {
    let l = lexer::Lexer::new("true + 5; true * false;");
    let mut p = Parser::new(l);
    let program = p.parse_program().unwrap();
    let mut evaluator = Evaluator::new();
    assert_eq!(evaluator.eval_statements(&program.statements, FUEL).unwrap(), Object::Null);
}

#[test]
fn test_session_keeps_bindings_across_calls() {
    let mut evaluator = Evaluator::new();
    let l1 = lexer::Lexer::new("let x = 41;");
    let mut p1 = Parser::new(l1);
    let program1 = p1.parse_program().unwrap();
    evaluator.eval_statements(&program1.statements, FUEL).unwrap();
    let l2 = lexer::Lexer::new("x + 1;");
    let mut p2 = Parser::new(l2);
    let program2 = p2.parse_program().unwrap();
    assert_eq!(
        evaluator.eval_statements(&program2.statements, FUEL).unwrap(),
        Object::Integer(42)
    );
}

#[test]
fn test_rendering_of_values() {
    assert_eq!(eval_monkey_program("2 * (5 + 10)".to_string(), FUEL).unwrap(), "30");
    assert_eq!(eval_monkey_program("5 - 9".to_string(), FUEL).unwrap(), "-4");
    assert_eq!(eval_monkey_program("1 < 2".to_string(), FUEL).unwrap(), "true");
    assert_eq!(eval_monkey_program("true == false".to_string(), FUEL).unwrap(), "false");
    assert_eq!(eval_monkey_program("if (false) { 10 }".to_string(), FUEL).unwrap(), "null");
    assert_eq!(eval_monkey_program("0 - 2147483647".to_string(), FUEL).unwrap(), "-2147483647");
    assert_eq!(unwrap_object(&Object::Integer(1234567890)), "1234567890");
    assert_eq!(unwrap_object(&Object::String("hello".to_string())), "hello");
}

#[test]
fn test_parse_errors_reported_by_program_entry() {
    match eval_monkey_program("let x 5;".to_string(), FUEL) {
        Err(MonkeyError::Parse(errs)) => assert!(errs.len() >= 1),
        other => panic!("unexpected outcome: {:?}", other),
    }
}

#[test]
fn test_truthiness_of_zero() {
    assert_eq!(eval_monkey_program("if (0) { 10 } else { 20 }".to_string(), FUEL).unwrap(), "10");
}

#[test]
fn test_extra_arguments_are_discarded() {
    let input = "let f = fn(x) { x; }; f(1, 2, 3);";
    assert_eq!(eval_monkey_program(input.to_string(), FUEL).unwrap(), "1");
}

#[test]
fn test_missing_arguments_resolve_to_null() {
    let input = "let f = fn(x, y) { y; }; f(1);";
    assert_eq!(eval_monkey_program(input.to_string(), FUEL).unwrap(), "null");
}

#[test]
fn test_let_evaluates_to_bound_value() {
    let l = lexer::Lexer::new("let x = 7;");
    let mut p = Parser::new(l);
    let program = p.parse_program().unwrap();
    let mut evaluator = Evaluator::new();
    assert_eq!(evaluator.eval_statements(&program.statements, FUEL).unwrap(), Object::Integer(7));
}

#[test]
fn test_env_set_and_get() {
    let mut env = Env::new();
    env.set(0, &"a".to_string(), Object::Integer(1));
    env.set(0, &"a".to_string(), Object::Integer(2));
    assert_eq!(env.get(0, &"a".to_string()), Object::Integer(2));
    assert_eq!(env.get(0, &"b".to_string()), Object::Null);
    let child = env.new_closure(0);
    env.set(child, &"b".to_string(), Object::Integer(3));
    assert_eq!(env.get(child, &"a".to_string()), Object::Integer(2));
    assert_eq!(env.get(child, &"b".to_string()), Object::Integer(3));
    assert_eq!(env.get(0, &"b".to_string()), Object::Null);
}

#[test]
fn test_return_marker_never_nests() {
    let l = lexer::Lexer::new("return if (true) { return 2; };");
    let mut p = Parser::new(l);
    let program = p.parse_program().unwrap();
    let mut evaluator = Evaluator::new();
    assert_eq!(evaluator.eval_statements(&program.statements, FUEL).unwrap(), Object::Integer(2));
}
