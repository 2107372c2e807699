use rox::interpreter::{Interpreter, RuntimeError};
use rox::parser::Parser;
use rox::scanner::scan;
use rox::token::TokenType;

fn run_with(src: &str, mut it: Interpreter) -> (Vec<String>, Result<(), RuntimeError>) {
    let tokens = scan(src).expect("scans");
    let stmts = Parser::new(tokens).parse().expect("parses");
    let r = it.interpret(stmts);
    (it.output().clone(), r)
}

fn run(src: &str) -> (Vec<String>, Result<(), RuntimeError>) {
    run_with(src, Interpreter::new())
}

fn lines(v: &[&str]) -> Vec<String> {
    v.iter().map(|s| s.to_string()).collect()
}

#[test]
fn shadowing_in_block() {
    let (out, r) = run("var x = 1; { var x = 2; print x; } print x;");
    assert!(r.is_ok());
    assert_eq!(out, lines(&["2", "1"]));
}

#[test]
fn while_counts_to_three() {
    let (out, r) = run("var i = 0; while (i < 3) { print i; i = i + 1; }");
    assert!(r.is_ok());
    assert_eq!(out, lines(&["0", "1", "2"]));
}

#[test]
fn while_with_less_equal() {
    let (out, r) = run("var i = 0; while (i <= 2) { print i; i = i + 1; }");
    assert!(r.is_ok());
    assert_eq!(out, lines(&["0", "1", "2"]));
}

#[test]
fn and_short_circuits_division() {
    let (out, r) = run("print false and (1/0);");
    assert!(r.is_ok());
    assert_eq!(out, lines(&["false"]));
}

#[test]
fn or_short_circuits() {
    let (out, r) = run("print true or (1/0);");
    assert!(r.is_ok());
    assert_eq!(out, lines(&["true"]));
}

#[test]
fn logical_operators_return_operands() {
    let (out, r) = run("print nil or \"x\"; print 0 and 5; print 1 and 5;");
    assert!(r.is_ok());
    assert_eq!(out, lines(&["x", "5", "1"]));
}

#[test]
fn assignment_to_undefined_fails() {
    let (out, r) = run("y = 1;");
    assert!(out.is_empty());
    match r {
        Err(RuntimeError::UndefinedAssign(name, line)) => {
            assert_eq!(name, "y");
            assert_eq!(line, 1);
        }
        other => panic!("unexpected {:?}", other),
    }
}

#[test]
fn declaration_never_fails() {
    let (out, r) = run("var a; var a = 2; print a; var b; print b;");
    assert!(r.is_ok());
    assert_eq!(out, lines(&["2", "nil"]));
}

#[test]
fn assignment_reaches_outer_scope() {
    let (out, r) = run("var a = 1; { a = 5; { a = a + 1; } } print a;");
    assert!(r.is_ok());
    assert_eq!(out, lines(&["6"]));
}

#[test]
fn block_scope_is_left() {
    let (out, r) = run("{ var inner = 3; print inner; } print inner;");
    assert_eq!(out, lines(&["3"]));
    match r {
        Err(RuntimeError::VarNotFound(name, _)) => assert_eq!(name, "inner"),
        other => panic!("unexpected {:?}", other),
    }
}

#[test]
fn bang_table() {
    let (out, r) = run("print !0; print !1; print !true; print !false; print !\"\"; print !\"a\"; print !nil;");
    assert!(r.is_ok());
    assert_eq!(out, lines(&["true", "false", "false", "true", "false", "true", "false"]));
}

#[test]
fn truthiness_in_conditions() {
    let (out, r) = run(
        "if (0) print \"zero\"; else print \"no\"; if (1) print \"one\"; else print \"no\"; \
         if (\"\") print \"empty\"; else print \"no\"; if (nil) print \"nil\"; else print \"no\";",
    );
    assert!(r.is_ok());
    assert_eq!(out, lines(&["zero", "no", "no", "no"]));
}

#[test]
fn divide_by_zero_fails() {
    let (out, r) = run("print 1; print 5 / 0; print 2;");
    assert_eq!(out, lines(&["1"]));
    assert!(matches!(r, Err(RuntimeError::DivideByZero(1))));
}

#[test]
fn zero_divisor_from_variable_fails() {
    let (_, r) = run("var z = 2 - 2;\nprint 3 / z;");
    assert!(matches!(r, Err(RuntimeError::DivideByZero(2))));
}

#[test]
fn arithmetic_values() {
    let (out, r) = run("print 1 + 2 * 3; print (1 + 2) * 3; print 7 / 2; print 1 / 3; print -4 - 1; print 2 / 3; print 10 - 2.5;");
    assert!(r.is_ok());
    assert_eq!(
        out,
        lines(&["7", "9", "3.5", "0.3333333333333333", "-5", "0.6666666666666666", "7.5"])
    );
}

#[test]
fn arithmetic_matches_floating_point_on_exact_values() {
    let cases: [(&str, f64); 4] = [("1.5 + 2.25", 1.5 + 2.25), ("3 * 4", 12.0), ("9 / 4", 9.0 / 4.0), ("0.5 - 2", 0.5 - 2.0)];
    for (src, expected) in cases.iter() {
        let (out, r) = run(&format!("print {};", src));
        assert!(r.is_ok());
        assert_eq!(out, vec![format!("{}", expected)]);
    }
}

#[test]
fn comparisons() {
    let (out, r) = run("print 1 < 2; print 2 <= 2; print 3 > 4; print 4 >= 4; print 0.5 == 1 / 2;");
    assert!(r.is_ok());
    assert_eq!(out, lines(&["true", "true", "false", "true", "true"]));
}

#[test]
fn arithmetic_on_non_numbers_fails() {
    let (_, r) = run("print \"a\" + 1;");
    assert!(matches!(r, Err(RuntimeError::NotANumber(TokenType::PLUS, 1))));
    let (_, r) = run("print -\"a\";");
    assert!(matches!(r, Err(RuntimeError::NotANumber(TokenType::MINUS, 1))));
}

#[test]
fn comparing_non_numbers_fails() {
    let (_, r) = run("print true == true;");
    assert!(matches!(r, Err(RuntimeError::NotComparable(1))));
}

#[test]
fn not_equal_is_unsupported() {
    let (_, r) = run("print 1 != 2;");
    assert!(matches!(r, Err(RuntimeError::UnsupportedOperator(TokenType::BANG_EQUAL, 1))));
}

#[test]
fn reading_undefined_variable_fails() {
    let (_, r) = run("print nope;");
    assert!(matches!(r, Err(RuntimeError::VarNotFound(_, 1))));
}

#[test]
fn overflow_is_an_error() {
    let (_, r) = run("print 9223372036854775807 + 1;");
    assert!(matches!(r, Err(RuntimeError::Overflow(1))));
}

#[test]
fn loop_limit_stops_endless_loop() {
    let (out, r) = run_with("var n = 0; while (true) { n = n + 1; print n; }", Interpreter::with_loop_limit(3));
    assert_eq!(out, lines(&["1", "2", "3"]));
    assert!(matches!(r, Err(RuntimeError::LoopLimit)));
}

#[test]
fn if_else_binds_to_nearest_if() {
    let (out, r) = run("if (true) if (false) print 1; else print 2;");
    assert!(r.is_ok());
    assert_eq!(out, lines(&["2"]));
}

#[test]
fn strings_print_raw() {
    let (out, r) = run("var s = \"hi there\"; print s; print nil; print true;");
    assert!(r.is_ok());
    assert_eq!(out, lines(&["hi there", "nil", "true"]));
}

#[test]
fn assignment_yields_nil() {
    let (out, r) = run("var a = 1; print a = 2; print a;");
    assert!(r.is_ok());
    assert_eq!(out, lines(&["nil", "2"]));
}

#[test]
fn repeated_decimal_steps_stay_exact() {
    let (out, r) = run("var x = 0; var i = 0; while (i < 100) { x = x + 0.1; i = i + 1; } print x; print x / 3;");
    assert!(r.is_ok());
    assert_eq!(out, lines(&["10", "3.3333333333333333"]));
}
