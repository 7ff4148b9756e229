use roadrunner::ast::{BlockStatement, ExpressionType, Node, StatementType};
use roadrunner::environment::Environment;
use roadrunner::evaluator::Evaluator;
use roadrunner::lexer::Lexer;
use roadrunner::object::Object;
use roadrunner::parser::Parser;

fn run_in(input: &str, env: &mut Environment) -> Object {
    let mut parser = Parser::new(Lexer::new(input));
    let program = parser.parse_program();
    Evaluator::new().eval(&Node::Program(program), env)
}

fn run(input: &str) -> Object {
    let mut env = Environment::new();
    run_in(input, &mut env)
}

fn error(msg: &str) -> Object {
    Object::Error(msg.to_string())
}

#[test]
fn test_eval() {
    let evaluator = Evaluator::new();
    let cases = [
        (ExpressionType::IntegerLiteral(5), Object::Integer(5)),
        (ExpressionType::IntegerLiteral(10), Object::Integer(10)),
        (ExpressionType::BooleanLiteral(true), Object::Boolean(true)),
        (ExpressionType::BooleanLiteral(false), Object::Boolean(false)),
    ];
    for (input, expected) in cases {
        let mut env = Environment::new();
        assert_eq!(evaluator.eval(&Node::Expression(input), &mut env), expected);
    }
}

#[test]
fn test_bang_operator() {
    let cases = [
        ("!true", false),
        ("!false", true),
        ("!5", false),
        ("!!true", true),
        ("!!false", false),
        ("!!5", true),
    ];
    for (input, expected) in cases {
        assert_eq!(run(input), Object::Boolean(expected), "input: {}", input);
    }
}

#[test]
fn test_minus_prefix_operator() {
    for (input, expected) in [("5", 5), ("10", 10), ("-5", -5), ("-10", -10)] {
        assert_eq!(run(input), Object::Integer(expected));
    }
}

#[test]
fn test_integer_expressions() {
    let cases = [
        ("5", 5),
        ("10", 10),
        ("-5", -5),
        ("-10", -10),
        ("5 + 5 + 5 + 5 - 10", 10),
        ("2 * 2 * 2 * 2 * 2", 32),
        ("-50 + 100 + -50", 0),
        ("5 * 2 + 10", 20),
        ("5 + 2 * 10", 25),
        ("20 + 2 * -10", 0),
        ("50 / 2 * 2 + 10", 60),
        ("2 * (5 + 10)", 30),
        ("3 * 3 * 3 + 10", 37),
        ("3 * (3 * 3) + 10", 37),
        ("(5 + 10 * 2 + 15 / 3) * 2 + -10", 50),
    ];
    for (input, expected) in cases {
        assert_eq!(run(input), Object::Integer(expected), "input: {}", input);
    }
}

#[test]
fn test_boolean_expressions() {
    let cases = [
        ("true", true),
        ("false", false),
        ("1 < 2", true),
        ("1 > 2", false),
        ("1 < 1", false),
        ("1 > 1", false),
        ("1 == 1", true),
        ("1 != 1", false),
        ("1 == 2", false),
        ("1 != 2", true),
    ];
    for (input, expected) in cases {
        assert_eq!(run(input), Object::Boolean(expected), "input: {}", input);
    }
}

#[test]
fn test_boolean_infix_expressions() {
    let cases = [
        ("true == true", true),
        ("false == false", true),
        ("true == false", false),
        ("true != false", true),
        ("false != true", true),
        ("(1 < 2) == true", true),
        ("(1 < 2) == false", false),
        ("(1 > 2) == true", false),
        ("(1 > 2) == false", true),
    ];
    for (input, expected) in cases {
        assert_eq!(run(input), Object::Boolean(expected), "input: {}", input);
    }
}

#[test]
fn test_if_expressions() {
    let cases = [
        ("if (true) { 10 }", Object::Integer(10)),
        ("if (false) { 10 }", Object::Null),
        ("if (1) { 10 }", Object::Integer(10)),
        ("if (0) { 10 }", Object::Integer(10)),
        ("if (1 < 2) { 10 }", Object::Integer(10)),
        ("if (1 > 2) { 10 }", Object::Null),
        ("if (1 > 2) { 10 } else { 20 }", Object::Integer(20)),
        ("if (1 < 2) { 10 } else { 20 }", Object::Integer(10)),
    ];
    for (input, expected) in cases {
        assert_eq!(run(input), expected, "input: {}", input);
    }
}

#[test]
fn test_return_statements() {
    let cases = [
        ("return 10;", 10),
        ("return 10; 9;", 10),
        ("return 2 * 5; 9;", 10),
        ("9; return 2 * 5; 9;", 10),
        ("if (10 > 1) { if (10 > 1) { return 10; } return 1; }", 10),
    ];
    for (input, expected) in cases {
        assert_eq!(run(input), Object::Integer(expected), "input: {}", input);
    }
}

#[test]
fn test_error_handling() {
    let cases = [
        ("5 + true;", "type mismatch: INTEGER + BOOLEAN"),
        ("5 + true; 5;", "type mismatch: INTEGER + BOOLEAN"),
        ("-true", "unknown operator: -BOOLEAN"),
        ("true + false;", "unknown operator: BOOLEAN + BOOLEAN"),
        ("5; true + false; 5", "unknown operator: BOOLEAN + BOOLEAN"),
        ("if (10 > 1) { true + false; }", "unknown operator: BOOLEAN + BOOLEAN"),
        (
            "if (10 > 1) { if (10 > 1) { return true + false; } return 1; }",
            "unknown operator: BOOLEAN + BOOLEAN",
        ),
        ("foobar", "identifier not found: foobar"),
    ];
    for (input, expected) in cases {
        assert_eq!(run(input), error(expected), "input: {}", input);
    }
}

#[test]
fn test_let_statement_evaluation() {
    let cases = [
        ("let a = 5; a;", 5),
        ("let a = 5 * 5; a;", 25),
        ("let a = 5; let b = a; b;", 5),
        ("let a = 5; let b = a; let c = a + b + 5; c;", 15),
    ];
    for (input, expected) in cases {
        assert_eq!(run(input), Object::Integer(expected), "input: {}", input);
    }
}

#[test]
fn test_function_application() {
    let cases = [
        ("let identity = fn(x) { x; }; identity(5);", 5),
        ("let identity = fn(x) { return x; }; identity(5);", 5),
        ("let double = fn(x) { x * 2; }; double(5);", 10),
        ("let add = fn(x, y) { x + y; }; add(5, 5);", 10),
        ("let add = fn(x, y) { x + y; }; add(5 + 5, add(5, 5));", 20),
        ("fn(x) { x; }(5)", 5),
    ];
    for (input, expected) in cases {
        assert_eq!(run(input), Object::Integer(expected), "input: {}", input);
    }
}

#[test]
fn test_closures() {
    assert_eq!(
        run("let newAdder = fn(x) { fn(y) { x + y }; }; let addTwo = newAdder(2); addTwo(2);"),
        Object::Integer(4)
    );
    assert_eq!(
        run("let counter = fn(x) {   if (x > 10) {     return true;   } else {     let foobar = 9999;     counter(x + 1);   } }; counter(0);"),
        Object::Boolean(true)
    );
}

#[test]
fn test_deep_recursion() {
    for n in [50, 100] {
        let input = format!(
            "let countdown = fn(n) {{ if (n == 0) {{ return 0; }} else {{ countdown(n - 1); }} }}; countdown({});",
            n
        );
        assert_eq!(run(&input), Object::Integer(0));
    }
}

#[test]
fn precedence_scenario() {
    assert_eq!(run("5 + 5 * 2"), Object::Integer(15));
}

#[test]
fn alternative_branch_scenario() {
    assert_eq!(run("if (1 > 2) { 10 } else { 20 }"), Object::Integer(20));
}

#[test]
fn early_return_through_nested_blocks_scenario() {
    assert_eq!(run("if (10 > 1) { if (10 > 1) { return 10; } return 1; }"), Object::Integer(10));
}

#[test]
fn call_evaluation_order_scenario() {
    assert_eq!(run("let add = fn(x, y) { x + y }; add(5 + 5, add(5, 5))"), Object::Integer(20));
}

#[test]
fn error_short_circuits_program_scenario() {
    assert_eq!(run("5 + true; 5;"), error("type mismatch: INTEGER + BOOLEAN"));
}

#[test]
fn recursion_through_captured_scope_scenario() {
    assert_eq!(
        run("let counter = fn(x) { if (x > 10) { return true; } else { counter(x + 1); } }; counter(0)"),
        Object::Boolean(true)
    );
}

#[test]
fn closure_captures_defining_scope() {
    assert_eq!(
        run("let makeAdder = fn(x) { fn(y) { x + y } }; let add2 = makeAdder(2); add2(3)"),
        Object::Integer(5)
    );
}

#[test]
fn evaluation_is_repeatable_in_equal_environments() {
    let input = "let f = fn(a) { a * 3 }; f(7) - 1";
    assert_eq!(run(input), run(input));
    assert_eq!(run(input), Object::Integer(20));
}

#[test]
fn return_value_is_unwrapped_at_top_level() {
    let r = run("return 7;");
    assert_eq!(r, Object::Integer(7));
    assert!(!matches!(r, Object::ReturnValue(_)));
    assert_eq!(run("if (true) { return 3; }; 9"), Object::Integer(3));
}

#[test]
fn runtime_error_messages() {
    assert_eq!(run("let x = 5; x(1)"), error("not a function: INTEGER"));
    assert_eq!(run("true(1)"), error("not a function: BOOLEAN"));
    assert_eq!(run("5 / 0"), error("division by zero"));
    assert_eq!(run("fn(x) { x } == fn(x) { x }"), error("unknown operator: FUNCTION_OBJ == FUNCTION_OBJ"));
    assert_eq!(run("-fn(x) { x }"), error("unknown operator: -FUNCTION_OBJ"));
    assert_eq!(run("true > false"), error("unknown operator: BOOLEAN > BOOLEAN"));
    assert_eq!(run("1 == true"), error("type mismatch: INTEGER == BOOLEAN"));
    assert_eq!(run("add(1, foo, 2)"), error("identifier not found: add"));
    assert_eq!(run("let f = fn(x) { x }; f(1, foo)"), error("identifier not found: foo"));
}

#[test]
fn malformed_nodes_give_errors() {
    let evaluator = Evaluator::new();
    let mut env = Environment::new();
    let bad_let = StatementType::Let {
        name: Some(Box::new(ExpressionType::IntegerLiteral(1))),
        value: Some(Box::new(ExpressionType::IntegerLiteral(2))),
    };
    assert_eq!(
        evaluator.eval(&Node::Statement(bad_let), &mut env),
        error("let statement name must be an identifier")
    );
    let bad_fn = ExpressionType::Call {
        function: Some(Box::new(ExpressionType::Function {
            parameters: vec![ExpressionType::IntegerLiteral(1)],
            body: Some(BlockStatement { statements: vec![] }),
        })),
        arguments: vec![ExpressionType::IntegerLiteral(3)],
    };
    assert_eq!(
        evaluator.eval(&Node::Expression(bad_fn), &mut env),
        error("function parameter must be an identifier")
    );
}

#[test]
fn integer_arithmetic_wraps_and_truncates() {
    assert_eq!(run("9223372036854775807 + 1"), Object::Integer(i64::MIN));
    assert_eq!(run("-7 / 2"), Object::Integer(-3));
    assert_eq!(run("7 / -2"), Object::Integer(-3));
    assert_eq!(run("0 - 9223372036854775807 - 1"), Object::Integer(i64::MIN));
}

#[test]
fn empty_program_is_null() {
    assert_eq!(run(""), Object::Null);
}

#[test]
fn environment_persists_between_programs() {
    let mut env = Environment::new();
    assert_eq!(run_in("let x = 40;", &mut env), Object::Integer(40));
    assert_eq!(run_in("x + 2", &mut env), Object::Integer(42));
}

#[test]
fn very_deep_recursion_stops_with_an_error() {
    let input = "let f = fn(n) { f(n + 1) }; f(0)";
    assert_eq!(run(input), error("evaluation nested too deeply"));
}

#[test]
fn inspect_and_type_names() {
    assert_eq!(Object::Integer(-3).inspect(), "-3");
    assert_eq!(Object::Boolean(true).inspect(), "true");
    assert_eq!(Object::Null.inspect(), "null");
    assert_eq!(Object::ReturnValue(Box::new(Object::Integer(4))).inspect(), "4");
    assert_eq!(error("boom").inspect(), "boom");
    assert_eq!(run("fn(x, y) { x + y }").inspect(), "fn(x, y) {\n (x + y) \n}");
    assert_eq!(Object::Integer(1).type_label(), "INTEGER");
    assert_eq!(Object::Null.type_label(), "NULL");
    assert_eq!(Object::ReturnValue(Box::new(Object::Null)).type_label(), "RETURN_VALUE");
    assert_eq!(error("e").type_label(), "ERROR");
    assert!(error("e").is_error());
    assert!(!Object::Null.is_error());
}

#[test]
fn environment_lookup_walks_outward() {
    let mut env = Environment::new();
    env.set(0, "a", Object::Integer(1));
    let inner = env.new_enclosed(0);
    assert_eq!(inner, 1);
    env.set(inner, "b", Object::Integer(2));
    assert_eq!(env.get(inner, "a"), Some(Object::Integer(1)));
    assert_eq!(env.get(inner, "b"), Some(Object::Integer(2)));
    assert_eq!(env.get(0, "b"), None);
    env.set(inner, "a", Object::Integer(3));
    assert_eq!(env.get(inner, "a"), Some(Object::Integer(3)));
    assert_eq!(env.get(0, "a"), Some(Object::Integer(1)));
}

#[test]
fn nested_return_inside_return_stays_wrapped_once() {
    assert_eq!(
        run("return if (true) { return 5; };"),
        Object::ReturnValue(Box::new(Object::Integer(5)))
    );
}

#[test]
fn function_value_refers_to_its_scope() {
    let mut env = Environment::new();
    let f = run_in("fn(x) { x }", &mut env);
    match f {
        Object::Function { parameters, env: scope, .. } => {
            assert_eq!(parameters, vec![ExpressionType::Identifier("x".to_string())]);
            assert_eq!(scope, 0);
        }
        other => panic!("not a function: {:?}", other),
    }
}

#[test]
fn return_without_value_ends_the_program_with_null() {
    assert_eq!(run("return; 5"), Object::Null);
    assert_eq!(
        run("let f = fn() { return; }; f()"),
        Object::Null
    );
}

#[test]
fn recursion_five_hundred_deep_runs() {
    let input = "let countdown = fn(n) { if (n == 0) { return 0; } else { countdown(n - 1); } }; countdown(500);";
    assert_eq!(run(input), Object::Integer(0));
}
