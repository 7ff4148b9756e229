use roadrunner::ast::{ExpressionType, Node, Program, StatementType};
use roadrunner::grammar::Precedence;
use roadrunner::lexer::Lexer;
use roadrunner::parser::Parser;

fn parse(input: &str) -> (Program, Vec<String>) {
    let lexer = Lexer::new(input);
    let mut parser = Parser::new(lexer);
    let program = parser.parse_program();
    let errors = parser.errors.iter().map(|e| e.message.clone()).collect();
    (program, errors)
}

fn printed(input: &str) -> String {
    let (program, errors) = parse(input);
    assert!(errors.is_empty(), "errors: {:?}", errors);
    Node::Program(program).string()
}

fn lit(v: i64) -> Option<Box<ExpressionType>> {
    Some(Box::new(ExpressionType::IntegerLiteral(v)))
}

fn name(s: &str) -> Option<Box<ExpressionType>> {
    Some(Box::new(ExpressionType::Identifier(s.to_string())))
}

#[test]
fn test_let_statements() {
    let input = "
        let x = 5;
        let y = 10;
        let foobar = 838383;
        let foobar = 1 + 2;
        ";
    let (program, errors) = parse(input);
    assert_eq!(errors.len(), 0);
    let statements = program.statements;
    assert_eq!(statements.len(), 4);
    assert_eq!(statements[0], StatementType::Let { name: name("x"), value: lit(5) });
    assert_eq!(statements[1], StatementType::Let { name: name("y"), value: lit(10) });
    assert_eq!(statements[2], StatementType::Let { name: name("foobar"), value: lit(838383) });
    assert_eq!(
        statements[3],
        StatementType::Let {
            name: name("foobar"),
            value: Some(Box::new(ExpressionType::Infix {
                left: lit(1),
                operator: "+".to_string(),
                right: lit(2),
            })),
        }
    );
}

#[test]
fn test_broken_let_statements() {
    let input = "
        let x 5;
        let = 10;
        let 838383;
        ";
    let (program, errors) = parse(input);
    assert_eq!(program.statements.len(), 3);
    assert_eq!(errors[0], "Expected '=' after variable name");
    assert_eq!(errors[1], "Expected identifier after 'let'");
    assert_eq!(errors[2], "Expected identifier after 'let'");
}

#[test]
fn test_return_statements_parsing() {
    let (program, errors) = parse("return 5; return 10; return 838383;");
    assert!(errors.is_empty());
    assert_eq!(
        program.statements,
        vec![
            StatementType::Return { return_value: lit(5) },
            StatementType::Return { return_value: lit(10) },
            StatementType::Return { return_value: lit(838383) },
        ]
    );
}

#[test]
fn test_identifier_expression() {
    let (program, errors) = parse("foobar;");
    assert!(errors.is_empty());
    assert_eq!(program.statements, vec![StatementType::Expr { expression: name("foobar") }]);
}

#[test]
fn test_integer_literal_expression() {
    let (program, errors) = parse("5;");
    assert!(errors.is_empty());
    assert_eq!(program.statements, vec![StatementType::Expr { expression: lit(5) }]);
}

#[test]
fn test_boolean_literal_expression() {
    let (program, _) = parse("true;");
    assert_eq!(
        program.statements,
        vec![StatementType::Expr {
            expression: Some(Box::new(ExpressionType::BooleanLiteral(true)))
        }]
    );
}

#[test]
fn test_parsing_prefix_expression() {
    for (input, op, value) in [("!5;", "!", 5), ("-15;", "-", 15)] {
        let (program, errors) = parse(input);
        assert!(errors.is_empty());
        assert_eq!(
            program.statements,
            vec![StatementType::Expr {
                expression: Some(Box::new(ExpressionType::Prefix {
                    operator: op.to_string(),
                    right: lit(value),
                }))
            }]
        );
    }
}

#[test]
fn test_infix_expression() {
    for op in ["+", "-", "*", "/", ">", "<", "==", "!="] {
        let input = format!("5 {} 5;", op);
        let (program, errors) = parse(&input);
        assert!(errors.is_empty());
        assert_eq!(
            program.statements,
            vec![StatementType::Expr {
                expression: Some(Box::new(ExpressionType::Infix {
                    left: lit(5),
                    operator: op.to_string(),
                    right: lit(5),
                }))
            }]
        );
    }
}

#[test]
fn test_operator_precedence_parsing() {
    let cases = [
        ("true", "true"),
        ("false", "false"),
        ("3 > 5 == false", "((3 > 5) == false)"),
        ("3 < 5 == true", "((3 < 5) == true)"),
        ("-a * b", "((-a) * b)"),
        ("!-a", "(!(-a))"),
        ("a + b + c", "((a + b) + c)"),
        ("a + b - c", "((a + b) - c)"),
        ("a * b * c", "((a * b) * c)"),
        ("a * b / c", "((a * b) / c)"),
        ("a + b / c", "(a + (b / c))"),
        ("a + b * c + d / e - f", "(((a + (b * c)) + (d / e)) - f)"),
        ("3 + 4; -5 * 5", "(3 + 4)((-5) * 5)"),
        ("5 > 4 == 3 < 4", "((5 > 4) == (3 < 4))"),
        ("5 < 4 != 3 > 4", "((5 < 4) != (3 > 4))"),
        ("3 + 4 * 5 == 3 * 1 + 4 * 5", "((3 + (4 * 5)) == ((3 * 1) + (4 * 5)))"),
        ("1 + (2 + 3) + 4", "((1 + (2 + 3)) + 4)"),
        ("(5 + 5) * 2", "((5 + 5) * 2)"),
        ("2 / (5 + 5)", "(2 / (5 + 5))"),
        ("-(5 + 5)", "(-(5 + 5))"),
        ("!(true == true)", "(!(true == true))"),
        ("a + add(b * c) + d", "((a + add((b * c))) + d)"),
        ("add(a, b, 1, 2 * 3, 4 + 5, add(6, 7 * 8))", "add(a, b, 1, (2 * 3), (4 + 5), add(6, (7 * 8)))"),
        ("add(a + b + c * d / f + g)", "add((((a + b) + ((c * d) / f)) + g))"),
    ];
    for (input, expected) in cases {
        assert_eq!(printed(input), expected, "input: {}", input);
    }
}

#[test]
fn test_if_expression() {
    let (program, errors) = parse("if (x < y) { x }");
    assert!(errors.is_empty());
    assert_eq!(Node::Program(program).string(), "if (x < y) x else ");
}

#[test]
fn test_if_else_expression() {
    let (program, errors) = parse("if (x < y) { x } else { y }");
    assert!(errors.is_empty());
    assert_eq!(Node::Program(program).string(), "if (x < y) x else y");
}

#[test]
fn test_function_literal_parsing() {
    let (program, errors) = parse("fn(x, y) { x + y; }");
    assert!(errors.is_empty());
    assert_eq!(Node::Program(program).string(), "fn(x, y) {(x + y)}");
    assert_eq!(printed("fn() { 5 }"), "fn() {5}");
}

#[test]
fn test_call_expression_parsing() {
    assert_eq!(printed("add(1, 2 * 3, 4 + 5);"), "add(1, (2 * 3), (4 + 5))");
    assert_eq!(printed("add();"), "add()");
    assert_eq!(printed("f(1) + 2"), "(f(1) + 2)");
}

#[test]
fn missing_operands_are_reported() {
    let (_, errors) = parse("-;");
    assert_eq!(errors, vec!["Expected expression after prefix operator".to_string()]);
    let (_, errors) = parse("5 + ;");
    assert_eq!(errors, vec!["Expected expression after infix operator".to_string()]);
}

#[test]
fn let_without_semicolon_ends_at_input_end() {
    let (program, errors) = parse("let x = 5");
    assert!(errors.is_empty());
    assert_eq!(program.statements, vec![StatementType::Let { name: name("x"), value: lit(5) }]);
}

#[test]
fn block_without_closing_brace_ends_at_input_end() {
    assert_eq!(printed("if (x) { y"), "if x y else ");
}

#[test]
fn statement_printing() {
    assert_eq!(printed("let myVar = anotherVar;"), "let myVar = anotherVar");
    assert_eq!(printed("return x;"), "return x");
}

#[test]
fn precedence_levels_rise_from_lowest_to_call() {
    let order = [
        Precedence::Lowest,
        Precedence::Equals,
        Precedence::LessGreater,
        Precedence::Sum,
        Precedence::Product,
        Precedence::Prefix,
        Precedence::Call,
    ];
    for (i, p) in order.iter().enumerate() {
        assert_eq!(p.level() as usize, i);
    }
}
