use rox::driver::{run, LoxError};
use rox::environment::RuntimeError;
use rox::environment::Environment;
use rox::number::Num;
use rox::token::{Primitive, Token, TokenType};

fn output(src: &str) -> Vec<String> {
    let (out, r) = run(src);
    assert_eq!(r, Ok(()), "program failed: {}", src);
    out
}

#[test]
fn short_circuit_evaluation() {
    assert_eq!(output("print nil or 5;"), vec!["5"]);
    assert_eq!(output("print false and (1/0);"), vec!["false"]);
    assert_eq!(output("print 1 or undefined_name;"), vec!["1"]);
}

#[test]
fn scope_shadowing() {
    assert_eq!(output("var x = 1; { var x = 2; print x; } print x;"), vec!["2", "1"]);
}

#[test]
fn assignment_reaches_outer_scope() {
    assert_eq!(output("var x = 1; { x = 2; } print x;"), vec!["2"]);
}

#[test]
fn end_to_end() {
    assert_eq!(output("var a = 1; var b = 2; print a + b;"), vec!["3"]);
    assert_eq!(output("print \"5\" - 2;"), vec!["3"]);
    assert_eq!(output("if (1 < 2) print \"yes\"; else print \"no\";"), vec!["yes"]);
}

#[test]
fn undefined_variable() {
    let (out, r) = run("print undeclared;");
    assert!(out.is_empty());
    match r {
        Err(LoxError::Runtime(RuntimeError::UndefinedVariable { name })) => {
            assert_eq!(name.lexme, Some("undeclared".to_string()))
        },
        other => panic!("expected an undefined variable, got {:?}", other),
    }
}

#[test]
fn assignment_never_defines() {
    let (_, r) = run("y = 1;");
    assert!(matches!(r, Err(LoxError::Runtime(RuntimeError::UndefinedVariable { .. }))));
}

#[test]
fn output_before_an_error_is_kept() {
    let (out, r) = run("print 1; print nope;");
    assert_eq!(out, vec!["1"]);
    assert!(r.is_err());
}

#[test]
fn arithmetic() {
    assert_eq!(output("print 7 / 2;"), vec!["3.5"]);
    assert_eq!(output("print 0.1 + 0.2;"), vec!["0.3"]);
    assert_eq!(output("print 1 / 3;"), vec!["0.3333333333333333"]);
    assert_eq!(output("print -(3 * 4) + 2;"), vec!["-10"]);
    assert_eq!(output("print \"1.5\" + \"2\";"), vec!["3.5"]);
    assert_eq!(output("print 2 >= 2; print 3 > 4; print 1 <= 0.5;"), vec!["true", "false", "false"]);
}

#[test]
fn division_by_zero() {
    assert_eq!(output("print 1 / 0;"), vec!["inf"]);
    assert_eq!(output("print -1 / 0;"), vec!["-inf"]);
    assert_eq!(output("print 0 / 0;"), vec!["NaN"]);
    assert_eq!(output("print 0 / 0 == 0 / 0;"), vec!["false"]);
}

#[test]
fn equality_and_truthiness() {
    assert_eq!(output("print \"a\" == \"a\";"), vec!["true"]);
    assert_eq!(output("print nil == false;"), vec!["false"]);
    assert_eq!(output("print \"1\" == 1;"), vec!["false"]);
    assert_eq!(output("print !nil; print !0; print nil;"), vec!["true", "false", "null"]);
}

#[test]
fn number_compared_with_string_is_an_error() {
    let (_, r) = run("print 1 == \"1\";");
    match r {
        Err(LoxError::Runtime(RuntimeError::OperandMismatch { operator })) => {
            assert_eq!(operator.token_type, TokenType::EqualEqual)
        },
        other => panic!("expected an operand mismatch, got {:?}", other),
    }
}

#[test]
fn string_that_is_not_a_number() {
    let (_, r) = run("print \"abc\" - 1;");
    assert!(matches!(r, Err(LoxError::Runtime(RuntimeError::NotANumber { .. }))));
}

#[test]
fn multiplication_needs_numbers() {
    let (_, r) = run("print \"2\" * 2;");
    assert!(matches!(r, Err(LoxError::Runtime(RuntimeError::OperandMismatch { .. }))));
}

#[test]
fn loops() {
    assert_eq!(output("for (var i = 0; i < 3; i = i + 1) print i;"), vec!["0", "1", "2"]);
    assert_eq!(output("var n = 3; while (n > 0) { print n; n = n - 1; }"), vec!["3", "2", "1"]);
}

#[test]
fn while_condition_must_be_boolean() {
    let (_, r) = run("while (1) print 1;");
    assert_eq!(r, Err(LoxError::Runtime(RuntimeError::ConditionNotBoolean)));
}

#[test]
fn if_uses_truthiness() {
    assert_eq!(output("if (0) print \"t\"; else print \"f\";"), vec!["t"]);
    assert_eq!(output("if (nil) print \"t\";"), Vec::<String>::new());
}

#[test]
fn scan_errors_stop_the_run() {
    let (out, r) = run("print 1; $");
    assert!(out.is_empty());
    assert!(matches!(r, Err(LoxError::Scan(_))));
}

#[test]
fn environment_scopes() {
    let name = Token { token_type: TokenType::Identifier, lexme: Some("v".to_string()), literal: None, line: 1 };
    let mut env = Environment::new();
    assert!(env.get(&name).is_err());
    env.define("v".to_string(), Primitive::Boolean(true));
    env.push_new_stack();
    env.define("v".to_string(), Primitive::Nil);
    assert_eq!(env.get(&name), Ok(Primitive::Nil));
    assert_eq!(env.assign(&name, Primitive::String("s".to_string())), Ok(()));
    assert_eq!(env.get(&name), Ok(Primitive::String("s".to_string())));
    env.pop_stack();
    assert_eq!(env.get(&name), Ok(Primitive::Boolean(true)));
    env.pop_stack();
    assert_eq!(env.get(&name), Ok(Primitive::Boolean(true)));
}

#[test]
fn stringify_values() {
    assert_eq!(rox::interpreter::stringify(&Primitive::Nil), "null");
    assert_eq!(rox::interpreter::stringify(&Primitive::Boolean(false)), "false");
    assert_eq!(rox::interpreter::stringify(&Primitive::Number(Num::Ratio { num: 5, den: 4 })), "1.25");
    assert_eq!(rox::interpreter::stringify(&Primitive::String("hi".to_string())), "hi");
}
