use guppty::ast::{BinaryOp, Expr, ExprKind, Program, StmtKind};
use guppty::lexer;
use guppty::error::Span;
use guppty::parser::parse;
use guppty::token::{Token, TokenKind};

fn parse_source(source: &str) -> Program {
    parse(lexer::lex(source).unwrap()).unwrap()
}

#[test]
fn parses_variable_declaration() {
    let program = parse_source("x = 5");

    assert_eq!(program.len(), 1);

    match &program[0].kind {
        StmtKind::VariableDeclaration { name, value } => {
            assert_eq!(name, "x");
            assert!(matches!(value.kind, ExprKind::NumberLiteral(5)));
        }
        other => panic!("expected variable declaration, got {:?}", other),
    }
}

#[test]
fn parses_out_function_call() {
    let program = parse_source(r#"out("hello")"#);

    assert_eq!(program.len(), 1);

    match &program[0].kind {
        StmtKind::ExpressionStatement(expr) => match &expr.kind {
            ExprKind::FunctionCall { name, args } => {
                assert_eq!(name, "out");
                assert_eq!(args.len(), 1);
                assert!(matches!(&args[0].kind, ExprKind::StringLiteral(s) if s == "hello"));
            }
            other => panic!("expected out() call, got {:?}", other),
        },
        other => panic!("expected expression statement, got {:?}", other),
    }
}

#[test]
fn parses_operator_precedence() {
    let program = parse_source("out(2 + 3 * 4)");

    match &program[0].kind {
        StmtKind::ExpressionStatement(expr) => match &expr.kind {
            ExprKind::FunctionCall { args, .. } => match &args[0].kind {
                ExprKind::BinaryOp { left, op, right } => {
                    assert_eq!(*op, BinaryOp::Add);
                    assert!(matches!(left.kind, ExprKind::NumberLiteral(2)));
                    match &right.kind {
                        ExprKind::BinaryOp {
                            op: BinaryOp::Mul, ..
                        } => {}
                        other => panic!("expected multiply on the right, got {:?}", other),
                    }
                }
                other => panic!("expected binary op, got {:?}", other),
            },
            other => panic!("expected function call, got {:?}", other),
        },
        other => panic!("expected expression statement, got {:?}", other),
    }
}

#[test]
fn parses_for_loop() {
    let source = "for i in range(1 through 3)\n    out(i)";
    let program = parse_source(source);

    match &program[0].kind {
        StmtKind::ForLoop {
            variable,
            iterable,
            body,
        } => {
            assert_eq!(variable, "i");
            assert!(matches!(
                &iterable.kind,
                ExprKind::Range { start, end }
                if matches!(start.kind, ExprKind::NumberLiteral(1))
                    && matches!(end.kind, ExprKind::NumberLiteral(3))
            ));
            assert_eq!(body.len(), 1);
        }
        other => panic!("expected for loop, got {:?}", other),
    }
}

#[test]
fn parses_function_definition() {
    let source = "greet()\n    out(\"hi\")";
    let program = parse_source(source);

    match &program[0].kind {
        StmtKind::FunctionDef { name, params, body } => {
            assert_eq!(name, "greet");
            assert!(params.is_empty());
            assert_eq!(body.len(), 1);
        }
        other => panic!("expected function def, got {:?}", other),
    }
}

#[test]
fn parses_literals() {
    let program = parse_source("a = true\nb = false\nc = 'x'\nd = \"hi\"\ne = []");

    assert_eq!(program.len(), 5);

    assert!(matches!(
        &program[0].kind,
        StmtKind::VariableDeclaration {
            value: Expr {
                kind: ExprKind::BoolLiteral(true),
                ..
            },
            ..
        }
    ));
    assert!(matches!(
        &program[1].kind,
        StmtKind::VariableDeclaration {
            value: Expr {
                kind: ExprKind::BoolLiteral(false),
                ..
            },
            ..
        }
    ));
    assert!(matches!(
        &program[2].kind,
        StmtKind::VariableDeclaration {
            value: Expr {
                kind: ExprKind::CharLiteral('x'),
                ..
            },
            ..
        }
    ));
    assert!(matches!(
        &program[3].kind,
        StmtKind::VariableDeclaration {
            value: Expr { kind: ExprKind::StringLiteral(s), .. },
            ..
        } if s == "hi"
    ));
    assert!(matches!(
        &program[4].kind,
        StmtKind::VariableDeclaration {
            value: Expr { kind: ExprKind::ArrayLiteral(items), .. },
            ..
        } if items.is_empty()
    ));
}

#[test]
fn parse_errors_have_locations_and_plain_words() {
    let tokens = lexer::lex("out(1 + )").unwrap();
    let error = parse(tokens).unwrap_err();

    assert_eq!(error.span.line, 1);
    assert_eq!(error.span.column, 9);
    assert!(error.message.contains("expected an expression"));
}

fn raw_token(kind: TokenKind) -> Token {
    Token { kind, span: Span { line: 1, column: 0, length: 0 } }
}

#[test]
fn parses_tokens_whose_spans_start_at_column_zero() {
    let tokens = vec![
        raw_token(TokenKind::Identifier("a".to_string())),
        raw_token(TokenKind::Plus),
        raw_token(TokenKind::Identifier("b".to_string())),
        raw_token(TokenKind::Plus),
        raw_token(TokenKind::Identifier("c".to_string())),
        raw_token(TokenKind::EOF),
    ];
    let program = parse(tokens).unwrap();
    assert_eq!(program.len(), 1);
    let span = program[0].span;
    assert_eq!((span.line, span.column, span.length), (1, 1, 2));
    match &program[0].kind {
        StmtKind::ExpressionStatement(expr) => match &expr.kind {
            ExprKind::BinaryOp { left, op, .. } => {
                assert_eq!(*op, BinaryOp::Add);
                assert_eq!((left.span.column, left.span.length), (1, 1));
            }
            other => panic!("expected binary op, got {:?}", other),
        },
        other => panic!("expected expression statement, got {:?}", other),
    }
}
