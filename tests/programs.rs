use scriptvm::compiler::{compile, CompileError};
use scriptvm::lexer::LexError;
use scriptvm::parser::ParseError;
use scriptvm::vm::{binary_op, execute, RuntimeError, Value};
use scriptvm::ast::BinOp;
use scriptvm::{run_source, RunError};

fn number(source: &str) -> i64 {
    match run_source(source) {
        Ok(Value::Number(n)) => n,
        other => panic!("{:?}", other),
    }
}

fn runtime_error(source: &str) -> RuntimeError {
    match run_source(source) {
        Err(RunError::Runtime(e)) => e,
        other => panic!("{:?}", other),
    }
}

fn refusal(source: &str) -> CompileError {
    match run_source(source) {
        Err(RunError::Compile(e)) => e,
        other => panic!("{:?}", other),
    }
}

#[test]
fn let_then_return() {
    assert_eq!(number("let a = 1; return a;"), 1);
}

#[test]
fn precedence() {
    assert_eq!(number("return 2 + 3 * 4;"), 14);
    assert_eq!(number("return (2 + 3) * 4;"), 20);
}

#[test]
fn left_associative() {
    assert_eq!(number("return 10 - 3 - 2;"), 5);
    assert_eq!(number("return 100 / 10 / 5;"), 2);
}

#[test]
fn branching() {
    assert_eq!(number("let a = 1; if (a == 1) { return 10; } else { return 20; }"), 10);
    assert_eq!(number("let a = 2; if (a == 1) { return 10; } else { return 20; }"), 20);
}

#[test]
fn else_if_chain() {
    let src = "let a = 3; if (a == 1) { return 1; } else if (a == 3) { return 3; } else { return 0; }";
    assert_eq!(number(src), 3);
}

#[test]
fn if_without_else_falls_through() {
    assert_eq!(number("let a = 2; if (a == 1) { return 10; } return 5;"), 5);
}

#[test]
fn function_call() {
    assert_eq!(number("function add(a, b) { return a + b; } return add(1, 2);"), 3);
}

#[test]
fn recursive_factorial() {
    let src = "function fact(n) { if (n == 0) { return 1; } else { return n * fact(n - 1); } } return fact(5);";
    assert_eq!(number(src), 120);
}

#[test]
fn nested_function_recursion() {
    let src = "function outer(n) { function down(k) { if (k == 0) { return 0; } return 1 + down(k - 1); } return down(n); } return outer(4);";
    assert_eq!(number(src), 4);
}

#[test]
fn arity_enforced() {
    assert_eq!(
        runtime_error("function add(a, b) { return a + b; } return add(1);"),
        RuntimeError::ArityError { expected: 2, got: 1 }
    );
}

#[test]
fn type_enforced() {
    assert_eq!(runtime_error("return 1 + \"x\";"), RuntimeError::TypeError);
    assert_eq!(runtime_error("return true == true;"), RuntimeError::TypeError);
}

#[test]
fn condition_must_be_bool() {
    assert_eq!(runtime_error("if (1) { return 1; } return 2;"), RuntimeError::TypeError);
}

#[test]
fn calling_a_number_is_a_type_error() {
    assert_eq!(runtime_error("let f = 1; return f();"), RuntimeError::TypeError);
}

#[test]
fn function_assigns_global() {
    assert_eq!(number("let a = 1; function f() { a = 2; return a; } f(); return a;"), 2);
}

#[test]
fn local_let_does_not_touch_global() {
    assert_eq!(number("let a = 1; function f() { let a = 2; return a; } f(); return a;"), 1);
}

#[test]
fn unbounded_recursion_overflows() {
    assert_eq!(runtime_error("function f() { return f(); } return f();"), RuntimeError::StackOverflow);
}

#[test]
fn unresolved_name() {
    assert_eq!(refusal("return b;"), CompileError::UnresolvedName("b".to_string()));
}

#[test]
fn forward_reference_is_unresolved() {
    let src = "function a() { return b(); } function b() { return 1; } return a();";
    assert_eq!(refusal(src), CompileError::UnresolvedName("b".to_string()));
}

#[test]
fn outer_function_locals_are_not_visible() {
    let src = "function f(x) { function g() { return x; } return g(); } return f(1);";
    assert_eq!(refusal(src), CompileError::UnresolvedName("x".to_string()));
}

#[test]
fn duplicate_let() {
    assert_eq!(
        refusal("let a = 1; let a = 2;"),
        CompileError::DuplicateDeclaration("a".to_string())
    );
    assert_eq!(
        refusal("function f(a, a) { return a; }"),
        CompileError::DuplicateDeclaration("a".to_string())
    );
}

#[test]
fn parse_errors() {
    assert_eq!(refusal("let = 1;"), CompileError::Parse(ParseError::UnexpectedToken(1)));
    assert_eq!(refusal("return (1 + 2"), CompileError::Parse(ParseError::UnexpectedEnd));
    assert_eq!(refusal("1 = 2;"), CompileError::Parse(ParseError::UnexpectedToken(1)));
    assert_eq!(
        refusal("function f(1) { }"),
        CompileError::Parse(ParseError::UnexpectedToken(3))
    );
}

#[test]
fn lex_errors_stop_compilation() {
    assert_eq!(refusal("let a = 1.5;"), CompileError::Lex(LexError::BadNumber(8)));
}

#[test]
fn division_by_zero() {
    assert_eq!(runtime_error("return 1 / 0;"), RuntimeError::DivisionByZero);
}

#[test]
fn overflow_is_an_error() {
    assert_eq!(runtime_error("return 9223372036854775807 + 1;"), RuntimeError::Overflow);
}

#[test]
fn assignment_is_an_expression() {
    assert_eq!(number("let a = 1; let b = (a = 5) + 1; return b + a;"), 11);
}

#[test]
fn no_return_gives_unit() {
    assert_eq!(run_source("let a = 1;"), Ok(Value::Unit));
    assert_eq!(run_source("function f() { } return f();"), Ok(Value::Unit));
}

#[test]
fn values_of_other_kinds() {
    assert_eq!(run_source("return true;"), Ok(Value::Bool(true)));
    assert_eq!(run_source("return \"hi\";"), Ok(Value::Str("hi".to_string())));
    assert_eq!(run_source("return 3 == 3;"), Ok(Value::Bool(true)));
}

#[test]
fn runs_are_independent() {
    let program = compile("let a = 1; function f() { a = a + 1; return a; } return f();").unwrap();
    assert_eq!(execute(&program), Ok(Value::Number(2)));
    assert_eq!(execute(&program), Ok(Value::Number(2)));
}

#[test]
fn binary_op_results() {
    assert_eq!(binary_op(BinOp::Div, Value::Number(-7), Value::Number(2)), Ok(Value::Number(-3)));
    assert_eq!(binary_op(BinOp::Sub, Value::Number(3), Value::Number(5)), Ok(Value::Number(-2)));
    assert_eq!(
        binary_op(BinOp::Div, Value::Number(i64::MIN), Value::Number(-1)),
        Err(RuntimeError::Overflow)
    );
    assert_eq!(binary_op(BinOp::Eq, Value::Number(1), Value::Number(2)), Ok(Value::Bool(false)));
    assert_eq!(
        binary_op(BinOp::Add, Value::Bool(true), Value::Number(2)),
        Err(RuntimeError::TypeError)
    );
}

#[test]
fn constant_pool_is_deduplicated() {
    let program = compile("let a = 7; let b = 7; let c = \"s\"; let d = \"s\";").unwrap();
    assert_eq!(program.constants.len(), 2);
}

#[test]
fn global_assignment_function_has_no_slots() {
    let program = compile("let a = 1; function f() { a = 2; return a; } f(); return a;").unwrap();
    assert_eq!(program.functions.len(), 1);
    assert_eq!(program.functions[0].arity, 0);
    assert_eq!(program.functions[0].n_slots, 0);
    assert_eq!(program.n_globals, 2);
}

#[test]
fn parameters_take_the_first_slots() {
    let program = compile("function g(x, y) { let z = x; return z + y; } return g(1, 2);").unwrap();
    assert_eq!(program.functions[0].arity, 2);
    assert_eq!(program.functions[0].n_slots, 3);
}
