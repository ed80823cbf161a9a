use lib::expr::BinaryOp;
use lib::expr::Expr;
use lib::expr::UnaryOp;
use lib::lexer::Lexer;
use lib::parser::ParseError;
use lib::parser::Parser;
use lib::precedence::Precedence as Prec;
use lib::stmt::Stmt;
use lib::lexer_token::TokenType;

fn parse_program_helper(source: &str) -> Vec<Stmt> {
    let mut lexer = Lexer::new(source.to_string());
    let tokens = lexer.scan_tokens();

    let mut parser = Parser::new(tokens);
    parser.parse_prog()
}

fn parse(source: &str) -> Expr {
    let mut lexer = Lexer::new(source.to_string());
    let tokens = lexer.scan_tokens();

    let mut parser = Parser::new(tokens);
    parser.parse_prec(Prec::Lowest)
}

fn try_parse(source: &str) -> Result<Vec<Stmt>, ParseError> {
    let mut lexer = Lexer::new(source.to_string());
    let tokens = lexer.scan_tokens();
    let mut parser = Parser::new(tokens);
    parser.try_parse_prog()
}

fn num(text: &str) -> Box<Expr> {
    Box::new(Expr::Number(text.to_string()))
}

fn ident(name: &str) -> Box<Expr> {
    Box::new(Expr::Identifier(name.to_string()))
}

#[test]
fn parses_print_call_statement() {
    let stmts = parse_program_helper("print(1 + 2 * 3);");
    assert_eq!(
        stmts,
        vec![Stmt::Expression(Expr::Call {
            callee: ident("print"),
            arguments: vec![Expr::Binary {
                left: num("1"),
                operator: BinaryOp::Add,
                right: Box::new(Expr::Binary {
                    left: num("2"),
                    operator: BinaryOp::Multiply,
                    right: num("3"),
                }),
            }],
        })]
    );
}

#[test]
fn parses_precedence() {
    let expr = parse("1 + 2 * 3");
    assert_eq!(
        expr,
        Expr::Binary {
            left: num("1"),
            operator: BinaryOp::Add,
            right: Box::new(Expr::Binary {
                left: num("2"),
                operator: BinaryOp::Multiply,
                right: num("3"),
            }),
        }
    );
}

#[test]
fn parses_negation() {
    let expr = parse("-123");
    assert_eq!(
        expr,
        Expr::Unary { operator: UnaryOp::Negate, right: num("123") }
    );
}

#[test]
fn parses_double_negation() {
    let expr = parse("--123");
    assert_eq!(
        expr,
        Expr::Unary {
            operator: UnaryOp::Negate,
            right: Box::new(Expr::Unary { operator: UnaryOp::Negate, right: num("123") }),
        }
    );
}

#[test]
fn grouping_overrides_precedence() {
    let expr = parse("(1 + 2) * 3");
    assert_eq!(
        expr,
        Expr::Binary {
            left: Box::new(Expr::Grouping(Box::new(Expr::Binary {
                left: num("1"),
                operator: BinaryOp::Add,
                right: num("2"),
            }))),
            operator: BinaryOp::Multiply,
            right: num("3"),
        }
    );
}

#[test]
fn parses_unary_with_binary() {
    let expr = parse("-1 + 2");
    assert_eq!(
        expr,
        Expr::Binary {
            left: Box::new(Expr::Unary { operator: UnaryOp::Negate, right: num("1") }),
            operator: BinaryOp::Add,
            right: num("2"),
        }
    );
}

#[test]
fn parses_identifier_expression() {
    let expr = parse("foo + 123 * bar");
    assert_eq!(
        expr,
        Expr::Binary {
            left: ident("foo"),
            operator: BinaryOp::Add,
            right: Box::new(Expr::Binary {
                left: num("123"),
                operator: BinaryOp::Multiply,
                right: ident("bar"),
            }),
        }
    );
}

#[test]
fn parses_simple_assignment() {
    let expr = parse("x = 5");
    assert_eq!(
        expr,
        Expr::Assignment { name: "x".to_string(), value: num("5") }
    );
}

#[test]
fn parses_right_associative_assignment() {
    let expr = parse("x = y = 3");
    assert_eq!(
        expr,
        Expr::Assignment {
            name: "x".to_string(),
            value: Box::new(Expr::Assignment { name: "y".to_string(), value: num("3") }),
        }
    );
}

#[test]
fn parses_let_with_value() {
    let stmts = parse_program_helper("let x = 5;");
    assert_eq!(
        stmts,
        vec![Stmt::Let { name: "x".to_string(), value: Some(Expr::Number("5".to_string())) }]
    );
}

#[test]
fn parses_let_with_semicolon() {
    let stmts = parse_program_helper("let x = 5;");
    assert_eq!(
        stmts,
        vec![Stmt::Let { name: "x".to_string(), value: Some(Expr::Number("5".to_string())) }]
    );
}

#[test]
fn parses_function() {
    let stmts = parse_program_helper("fun add(a, b) { return a + b; }");
    assert_eq!(
        stmts,
        vec![Stmt::Fun {
            name: "add".to_string(),
            parameters: vec!["a".to_string(), "b".to_string()],
            body: vec![Stmt::Return(Some(Expr::Binary {
                left: ident("a"),
                operator: BinaryOp::Add,
                right: ident("b"),
            }))],
        }]
    );
}

#[test]
fn parses_return() {
    let stmts = parse_program_helper("return 1 + 2;");
    assert_eq!(
        stmts,
        vec![Stmt::Return(Some(Expr::Binary {
            left: num("1"),
            operator: BinaryOp::Add,
            right: num("2"),
        }))]
    );
}

#[test]
fn and_binds_tighter_than_or() {
    let expr = parse("a or b and c");
    assert_eq!(
        expr,
        Expr::Binary {
            left: ident("a"),
            operator: BinaryOp::Or,
            right: Box::new(Expr::Binary {
                left: ident("b"),
                operator: BinaryOp::And,
                right: ident("c"),
            }),
        }
    );
}

#[test]
fn binary_operators_associate_left() {
    let expr = parse("1 - 2 - 3");
    assert_eq!(
        expr,
        Expr::Binary {
            left: Box::new(Expr::Binary { left: num("1"), operator: BinaryOp::Subtract, right: num("2") }),
            operator: BinaryOp::Subtract,
            right: num("3"),
        }
    );
}

#[test]
fn parses_comparisons_and_calls_with_arguments() {
    let expr = parse("f(1, x) >= 2");
    assert_eq!(
        expr,
        Expr::Binary {
            left: Box::new(Expr::Call { callee: ident("f"), arguments: vec![Expr::Number("1".to_string()), Expr::Identifier("x".to_string())] }),
            operator: BinaryOp::GreaterEqual,
            right: num("2"),
        }
    );
}

#[test]
fn parses_assignment_as_call_argument() {
    let expr = parse("print(x = 5, y)");
    assert_eq!(
        expr,
        Expr::Call {
            callee: ident("print"),
            arguments: vec![
                Expr::Assignment { name: "x".to_string(), value: num("5") },
                Expr::Identifier("y".to_string()),
            ],
        }
    );
}

#[test]
fn parses_if_else_and_while() {
    let stmts = parse_program_helper("if (x) { y; } else { z; } while (a) { b = nil; }");
    assert_eq!(
        stmts,
        vec![
            Stmt::If {
                condition: Expr::Identifier("x".to_string()),
                then_branch: vec![Stmt::Expression(Expr::Identifier("y".to_string()))],
                else_branch: Some(vec![Stmt::Expression(Expr::Identifier("z".to_string()))]),
            },
            Stmt::While {
                condition: Expr::Identifier("a".to_string()),
                body: vec![Stmt::Expression(Expr::Assignment { name: "b".to_string(), value: Box::new(Expr::Nil) })],
            },
        ]
    );
}

#[test]
fn parses_let_without_value_and_bare_return() {
    let stmts = parse_program_helper("let x; return;");
    assert_eq!(
        stmts,
        vec![Stmt::Let { name: "x".to_string(), value: None }, Stmt::Return(None)]
    );
}

#[test]
fn reports_missing_semicolon() {
    assert_eq!(
        try_parse("let x = 5"),
        Err(ParseError::Expected { expected: TokenType::Semicolon, line: 1 })
    );
}

#[test]
fn reports_invalid_assignment_target() {
    assert_eq!(try_parse("1 = 2;"), Err(ParseError::InvalidAssignmentTarget { line: 1 }));
}

#[test]
fn reports_missing_expression() {
    assert_eq!(try_parse("let x = ;"), Err(ParseError::ExpectedExpression { line: 1 }));
}

#[test]
fn reports_missing_name() {
    assert_eq!(try_parse("fun (a) {}"), Err(ParseError::ExpectedIdentifier { line: 1 }));
    assert_eq!(try_parse("let 5 = 1;"), Err(ParseError::ExpectedIdentifier { line: 1 }));
}

#[test]
fn reports_unclosed_call() {
    assert_eq!(
        try_parse("f(1 2);"),
        Err(ParseError::Expected { expected: TokenType::RightParen, line: 1 })
    );
}
