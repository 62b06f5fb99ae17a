use scriptvm::ast::{BinOp, Expr, Stmt};
use scriptvm::lexer::tokenize;
use scriptvm::parser::{parse, ParseError};

fn program(source: &str) -> Vec<Stmt> {
    parse(&tokenize(source).unwrap()).unwrap()
}

fn returned(source: &str) -> Expr {
    let mut p = program(source);
    assert_eq!(p.len(), 1);
    match p.pop().unwrap() {
        Stmt::Return(Some(e)) => e,
        other => panic!("{:?}", other),
    }
}

#[test]
fn parse_precedence_tree() {
    match returned("return 2 + 3 * 4;") {
        Expr::BinaryOp(BinOp::Add, l, r) => {
            assert!(matches!(*l, Expr::Number(2)));
            assert!(matches!(*r, Expr::BinaryOp(BinOp::Mul, _, _)));
        }
        other => panic!("{:?}", other),
    }
}

#[test]
fn parse_parentheses_tree() {
    match returned("return (2 + 3) * 4;") {
        Expr::BinaryOp(BinOp::Mul, l, r) => {
            assert!(matches!(*l, Expr::BinaryOp(BinOp::Add, _, _)));
            assert!(matches!(*r, Expr::Number(4)));
        }
        other => panic!("{:?}", other),
    }
}

#[test]
fn parse_subtraction_groups_left() {
    match returned("return 10 - 3 - 2;") {
        Expr::BinaryOp(BinOp::Sub, l, r) => {
            assert!(matches!(*l, Expr::BinaryOp(BinOp::Sub, _, _)));
            assert!(matches!(*r, Expr::Number(2)));
        }
        other => panic!("{:?}", other),
    }
}

#[test]
fn parse_assignment_groups_right() {
    match returned("return a = b = 1;") {
        Expr::Assign(a, v) => {
            assert_eq!(a, "a");
            assert!(matches!(*v, Expr::Assign(_, _)));
        }
        other => panic!("{:?}", other),
    }
}

#[test]
fn parse_bare_return_then_name() {
    let p = program("return b");
    assert_eq!(p.len(), 1);
    assert!(matches!(&p[0], Stmt::Return(Some(Expr::Identifier(n))) if n == "b"));
    let p = program("if (true) { return } return 1");
    assert_eq!(p.len(), 2);
    assert!(matches!(&p[0], Stmt::If(_, t, None) if matches!(t[..], [Stmt::Return(None)])));
}

#[test]
fn parse_error_names_offending_token() {
    assert_eq!(parse(&tokenize("let 5 = 1;").unwrap()).unwrap_err(), ParseError::UnexpectedToken(1));
    assert_eq!(parse(&tokenize("f(1, 2").unwrap()).unwrap_err(), ParseError::UnexpectedEnd);
}
