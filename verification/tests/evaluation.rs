use mini_lisp::{lexer, parser, Environment, EvalError, LispValue};
use std::rc::Rc;

fn run_with_fuel(src: &str, fuel: u64) -> Result<LispValue, EvalError> {
    let tokens = lexer(&src.to_string());
    let exprs = parser(&tokens).expect("the program should parse");
    assert_eq!(exprs.len(), 1);
    let env = Rc::new(Environment::Empty);
    exprs[0].evaluation(&env, fuel)
}

fn run(src: &str) -> Result<LispValue, EvalError> {
    run_with_fuel(src, 10_000)
}

#[test]
fn let_binds_a_value() {
    assert_eq!(run("(let (a 1) (+ a 2))"), Ok(LispValue::Int(3)));
}

#[test]
fn closures_compose() {
    assert_eq!(
        run("(let (f (lambda (a) (+ a 1))) (let (g (lambda (a) (* a 2))) (g (f 2))))"),
        Ok(LispValue::Int(6))
    );
}

#[test]
fn if_takes_exactly_one_branch() {
    assert_eq!(run("(if #t 1 2)"), Ok(LispValue::Int(1)));
    assert_eq!(run("(if #f 1 2)"), Ok(LispValue::Int(2)));
}

#[test]
fn if_condition_must_be_boolean() {
    assert_eq!(
        run("(if (+ 1 2) 1 2)"),
        Err(EvalError::TypeError(LispValue::Int(3)))
    );
}

#[test]
fn untaken_branch_is_never_evaluated() {
    // The untaken branch divides by zero; short-circuiting skips it.
    assert_eq!(run("(if #t 1 (/ 1 0))"), Ok(LispValue::Int(1)));
}

#[test]
fn equality_on_integers() {
    assert_eq!(run("(= 3 3)"), Ok(LispValue::Bool(true)));
    assert_eq!(run("(= 3 4)"), Ok(LispValue::Bool(false)));
}

#[test]
fn mixed_numeric_kinds_never_compare() {
    assert_eq!(
        run("(= 3.0 3)"),
        Err(EvalError::TypeError(LispValue::Int(3)))
    );
    assert_eq!(
        run("(+ 1 2.0)"),
        Err(EvalError::TypeError(LispValue::Float((2.0f64).to_bits())))
    );
}

#[test]
fn unbound_variable_is_reported_by_name() {
    assert_eq!(
        run("(+ x 1)"),
        Err(EvalError::UnboundVariable("x".to_string()))
    );
}

#[test]
fn inner_binding_shadows_outer() {
    assert_eq!(run("(let (a 1) (let (a 2) a))"), Ok(LispValue::Int(2)));
}

#[test]
fn outer_binding_survives_inner_let() {
    // The inner `let` rebinds `a` only for its own body.
    assert_eq!(
        run("(let (a 1) (+ (let (a 2) a) a))"),
        Ok(LispValue::Int(3))
    );
}

#[test]
fn closure_captures_definition_environment() {
    // The later rebinding of `a` is invisible to the closure.
    assert_eq!(
        run("(let (a 1) (let (f (lambda (x) a)) (let (a 2) (f 0))))"),
        Ok(LispValue::Int(1))
    );
}

#[test]
fn call_argument_is_evaluated_in_the_callers_environment() {
    assert_eq!(
        run("(let (a 5) (let (f (lambda (x) x)) (f a)))"),
        Ok(LispValue::Int(5))
    );
}

#[test]
fn calling_a_non_closure_is_a_type_error() {
    assert_eq!(
        run("(let (f 1) (f 2))"),
        Err(EvalError::TypeError(LispValue::Int(1)))
    );
}

#[test]
fn integer_arithmetic() {
    assert_eq!(run("(- 3 5)"), Ok(LispValue::Int(-2)));
    assert_eq!(run("(* 6 7)"), Ok(LispValue::Int(42)));
    assert_eq!(run("(/ 7 2)"), Ok(LispValue::Int(3)));
    assert_eq!(run("(/ -7 2)"), Ok(LispValue::Int(-3)));
}

#[test]
fn integer_arithmetic_wraps_around() {
    assert_eq!(
        run("(+ 9223372036854775807 1)"),
        Ok(LispValue::Int(i64::MIN))
    );
    assert_eq!(
        run("(/ -9223372036854775808 -1)"),
        Ok(LispValue::Int(i64::MIN))
    );
}

#[test]
fn integer_division_by_zero_fails_closed() {
    assert_eq!(run("(/ 1 0)"), Err(EvalError::DivisionByZero));
}

#[test]
fn float_arithmetic_follows_ieee_754() {
    assert_eq!(
        run("(+ 1.5 2.25)"),
        Ok(LispValue::Float((3.75f64).to_bits()))
    );
    assert_eq!(
        run("(- 1.0 0.5)"),
        Ok(LispValue::Float((0.5f64).to_bits()))
    );
    assert_eq!(
        run("(* 2.0 3.5)"),
        Ok(LispValue::Float((7.0f64).to_bits()))
    );
    assert_eq!(
        run("(/ 1.0 4.0)"),
        Ok(LispValue::Float((0.25f64).to_bits()))
    );
    assert_eq!(
        run("(+ 0.1 0.2)"),
        Ok(LispValue::Float((0.1f64 + 0.2f64).to_bits()))
    );
}

#[test]
fn float_division_by_zero_yields_infinity() {
    assert_eq!(
        run("(/ 1.0 0.0)"),
        Ok(LispValue::Float(f64::INFINITY.to_bits()))
    );
    assert_eq!(
        run("(/ -1.0 0.0)"),
        Ok(LispValue::Float(f64::NEG_INFINITY.to_bits()))
    );
}

#[test]
fn float_equality_is_ieee_equality() {
    assert_eq!(run("(= 0.5 0.5)"), Ok(LispValue::Bool(true)));
    assert_eq!(run("(= -0.0 0.0)"), Ok(LispValue::Bool(true)));
    assert_eq!(run("(= nan nan)"), Ok(LispValue::Bool(false)));
}

#[test]
fn boolean_operands_never_compute() {
    assert_eq!(
        run("(+ #t 1)"),
        Err(EvalError::TypeError(LispValue::Bool(true)))
    );
}

#[test]
fn self_application_runs_out_of_budget() {
    assert_eq!(
        run_with_fuel("((lambda (x) (x x)) (lambda (x) (x x)))", 100),
        Err(EvalError::DepthExceeded)
    );
}

#[test]
fn literals_evaluate_to_themselves() {
    assert_eq!(run("41"), Ok(LispValue::Int(41)));
    assert_eq!(run("2.5"), Ok(LispValue::Float((2.5f64).to_bits())));
    assert_eq!(run("#t"), Ok(LispValue::Bool(true)));
    assert_eq!(run("#f"), Ok(LispValue::Bool(false)));
}
