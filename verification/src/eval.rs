//! The evaluator: a tree walk from one expression and one environment
//! snapshot to one runtime value, or to an evaluation error.
//!
//! Environments are immutable parent-linked chains: every new binding makes
//! a new snapshot that shares its tail with the old one, which is never
//! touched — so shadowing is exact and closures keep the snapshot captured
//! at their creation. The walk carries an explicit recursion budget, spent
//! one unit per function application; when it runs out the walk stops with
//! an error instead of overrunning the host stack.
//!
//! Integer arithmetic wraps around two's complement, and integer division
//! truncates toward zero; integer division by zero fails closed with an
//! error. Float arithmetic follows IEEE-754 binary64 through the trusted
//! wrappers of `float_bits`, so float division by zero yields an infinity or
//! not-a-number pattern, never an error.

use crate::float_bits::{
    float_add_bits, float_div_bits, float_eq_bits, float_mul_bits, float_sub_bits,
};
use crate::parser::{BinaryOperator, Expression, SpecExpr};
use std::rc::Rc;
use vstd::prelude::*;

verus! {

/// One environment snapshot: a parent-linked chain of bindings, newest
/// first. A lookup takes the newest binding of a name, so a new binding
/// shadows an older one without erasing it.
#[derive(Debug, PartialEq)]
pub enum Environment {
    Empty,
    Entry { name: String, value: LispValue, rest: Rc<Environment> },
}

/// One runtime value. Floats are IEEE-754 binary64 bit patterns. A closure
/// pairs its parameter and body with the environment snapshot captured when
/// the lambda was evaluated.
#[derive(Debug, PartialEq)]
pub enum LispValue {
    Int(i64),
    Float(u64),
    Bool(bool),
    Closure { param: String, body: Rc<Expression>, env: Rc<Environment> },
}

/// One evaluation failure. `TypeError` carries the value that broke the
/// rule: the mismatched operand, the non-boolean condition, or the
/// non-closure callee.
#[derive(Debug, PartialEq)]
pub enum EvalError {
    UnboundVariable(String),
    TypeError(LispValue),
    DivisionByZero,
    DepthExceeded,
}

/// The mathematical model of a runtime value: an environment is a map from
/// names to values.
pub enum SpecVal {
    Int(i64),
    Float(u64),
    Bool(bool),
    Closure { param: Seq<char>, body: SpecExpr, env: Map<Seq<char>, SpecVal> },
}

/// The mathematical model of an evaluation failure.
pub enum SpecEvalError {
    UnboundVariable(Seq<char>),
    TypeError(SpecVal),
    DivisionByZero,
    DepthExceeded,
}

/// The model of a runtime value.
pub open spec fn val_view(v: LispValue) -> SpecVal
    decreases v,
{
    match v {
        LispValue::Int(n) => SpecVal::Int(n),
        LispValue::Float(b) => SpecVal::Float(b),
        LispValue::Bool(b) => SpecVal::Bool(b),
        LispValue::Closure { param, body, env } => SpecVal::Closure {
            param: param@,
            body: body.deep_view(),
            env: env_view(*env),
        },
    }
}

/// The model of an environment snapshot: the map of its bindings, where the
/// newest binding of each name wins.
pub open spec fn env_view(e: Environment) -> Map<Seq<char>, SpecVal>
    decreases e,
{
    match e {
        Environment::Empty => Map::empty(),
        Environment::Entry { name, value, rest } => env_view(*rest).insert(name@, val_view(value)),
    }
}

impl DeepView for LispValue {
    type V = SpecVal;

    open spec fn deep_view(&self) -> SpecVal {
        val_view(*self)
    }
}

impl DeepView for Environment {
    type V = Map<Seq<char>, SpecVal>;

    open spec fn deep_view(&self) -> Map<Seq<char>, SpecVal> {
        env_view(*self)
    }
}

/// The model of an evaluation failure.
pub open spec fn err_view(e: EvalError) -> SpecEvalError {
    match e {
        EvalError::UnboundVariable(s) => SpecEvalError::UnboundVariable(s@),
        EvalError::TypeError(v) => SpecEvalError::TypeError(val_view(v)),
        EvalError::DivisionByZero => SpecEvalError::DivisionByZero,
        EvalError::DepthExceeded => SpecEvalError::DepthExceeded,
    }
}

impl DeepView for EvalError {
    type V = SpecEvalError;

    open spec fn deep_view(&self) -> SpecEvalError {
        err_view(*self)
    }
}

/// The model of an evaluation result.
pub open spec fn eval_result_view(r: Result<LispValue, EvalError>) -> Result<
    SpecVal,
    SpecEvalError,
> {
    match r {
        Ok(v) => Ok(val_view(v)),
        Err(e) => Err(err_view(e)),
    }
}

/// Relies on `Rc::clone` through `Clone::clone`: the clone is the same
/// shared expression node.
#[verifier::external_body]
fn rc_clone_expr(rc: &Rc<Expression>) -> (res: Rc<Expression>)
    ensures
        res == *rc,
{
    rc.clone()
}

/// Relies on `Rc::clone` through `Clone::clone`: the clone is the same
/// shared environment snapshot.
#[verifier::external_body]
fn rc_clone_env(rc: &Rc<Environment>) -> (res: Rc<Environment>)
    ensures
        res == *rc,
{
    rc.clone()
}

impl Clone for LispValue {
    /// A clone is the same value; a closure clone shares the body and the
    /// captured snapshot.
    fn clone(&self) -> (res: Self)
        ensures
            res == *self,
    {
        match self {
            LispValue::Int(n) => LispValue::Int(*n),
            LispValue::Float(b) => LispValue::Float(*b),
            LispValue::Bool(b) => LispValue::Bool(*b),
            LispValue::Closure { param, body, env } => LispValue::Closure {
                param: param.clone(),
                body: rc_clone_expr(body),
                env: rc_clone_env(env),
            },
        }
    }
}

/// Truncated 64-bit signed division, wrapped around two's complement, for a
/// nonzero divisor.
pub open spec fn trunc_div_i64(a: i64, b: i64) -> i64 {
    let q = abs_i64(a) / abs_i64(b);
    if (a < 0) != (b < 0) {
        vstd::wrapping::i64_specs::signed_crop(-q)
    } else {
        vstd::wrapping::i64_specs::signed_crop(q)
    }
}

/// The absolute value of a 64-bit signed integer, as an unbounded integer.
pub open spec fn abs_i64(a: i64) -> int {
    if a < 0 {
        -(a as int)
    } else {
        a as int
    }
}

/// What one binary operator yields on two evaluated operands: both must be
/// of the same numeric kind, and the offending operand is reported
/// otherwise.
pub open spec fn binop_sem(op: BinaryOperator, v1: SpecVal, v2: SpecVal) -> Result<
    SpecVal,
    SpecEvalError,
> {
    match v1 {
        SpecVal::Int(a) => match v2 {
            SpecVal::Int(b) => match op {
                BinaryOperator::Equal => Ok(SpecVal::Bool(a == b)),
                BinaryOperator::Add => Ok(SpecVal::Int(vstd::wrapping::i64_specs::wrapping_add(a, b))),
                BinaryOperator::Sub => Ok(SpecVal::Int(vstd::wrapping::i64_specs::wrapping_sub(a, b))),
                BinaryOperator::Mul => Ok(SpecVal::Int(vstd::wrapping::i64_specs::wrapping_mul(a, b))),
                BinaryOperator::Div => if b == 0 {
                    Err(SpecEvalError::DivisionByZero)
                } else {
                    Ok(SpecVal::Int(trunc_div_i64(a, b)))
                },
            },
            _ => Err(SpecEvalError::TypeError(v2)),
        },
        SpecVal::Float(a) => match v2 {
            SpecVal::Float(b) => match op {
                BinaryOperator::Equal => Ok(SpecVal::Bool(float_eq_bits(a, b))),
                BinaryOperator::Add => Ok(SpecVal::Float(float_add_bits(a, b))),
                BinaryOperator::Sub => Ok(SpecVal::Float(float_sub_bits(a, b))),
                BinaryOperator::Mul => Ok(SpecVal::Float(float_mul_bits(a, b))),
                BinaryOperator::Div => Ok(SpecVal::Float(float_div_bits(a, b))),
            },
            _ => Err(SpecEvalError::TypeError(v2)),
        },
        _ => Err(SpecEvalError::TypeError(v1)),
    }
}

/// The evaluation relation: what one expression yields in one environment
/// with a given recursion budget. The budget is spent one unit per function
/// application; every other rule recurses only into subtrees.
pub open spec fn eval_sem(e: SpecExpr, env: Map<Seq<char>, SpecVal>, fuel: nat) -> Result<
    SpecVal,
    SpecEvalError,
>
    decreases fuel, e,
{
    match e {
        SpecExpr::IntLiteral(n) => Ok(SpecVal::Int(n)),
        SpecExpr::FloatLiteral(b) => Ok(SpecVal::Float(b)),
        SpecExpr::BoolLiteral(b) => Ok(SpecVal::Bool(b)),
        SpecExpr::Variable(x) => if env.contains_key(x) {
            Ok(env[x])
        } else {
            Err(SpecEvalError::UnboundVariable(x))
        },
        SpecExpr::BinaryOp { op, left, right } => match eval_sem(*left, env, fuel) {
            Err(er) => Err(er),
            Ok(v1) => match eval_sem(*right, env, fuel) {
                Err(er) => Err(er),
                Ok(v2) => binop_sem(op, v1, v2),
            },
        },
        SpecExpr::If { cond, then_expr, else_expr } => match eval_sem(*cond, env, fuel) {
            Err(er) => Err(er),
            Ok(SpecVal::Bool(true)) => eval_sem(*then_expr, env, fuel),
            Ok(SpecVal::Bool(false)) => eval_sem(*else_expr, env, fuel),
            Ok(v) => Err(SpecEvalError::TypeError(v)),
        },
        SpecExpr::Lambda { param, body } => Ok(
            SpecVal::Closure { param, body: *body, env },
        ),
        SpecExpr::Call { callee, arg } => match eval_sem(*callee, env, fuel) {
            Err(er) => Err(er),
            Ok(SpecVal::Closure { param, body, env: cenv }) => match eval_sem(*arg, env, fuel) {
                Err(er) => Err(er),
                Ok(av) => if fuel == 0 {
                    Err(SpecEvalError::DepthExceeded)
                } else {
                    eval_sem(body, cenv.insert(param, av), (fuel - 1) as nat)
                },
            },
            Ok(v) => Err(SpecEvalError::TypeError(v)),
        },
        SpecExpr::Let { name, bound_expr, body } => match eval_sem(*bound_expr, env, fuel) {
            Err(er) => Err(er),
            Ok(v) => eval_sem(*body, env.insert(name, v), fuel),
        },
    }
}

/// Finds the newest binding of `name` in a snapshot chain.
fn lookup(env: &Environment, name: &String) -> (r: Option<LispValue>)
    ensures
        (match r {
            Some(v) => env.deep_view().contains_key(name@) && val_view(v)
                == env.deep_view()[name@],
            None => !env.deep_view().contains_key(name@),
        }),
    decreases env,
{
    match env {
        Environment::Empty => None,
        Environment::Entry { name: n, value, rest } => {
            if *n == *name {
                Some(value.clone())
            } else {
                lookup(rest, name)
            }
        },
    }
}

/// Extends a snapshot with one binding, sharing the old snapshot as its
/// tail.
fn extend(env: &Rc<Environment>, name: String, value: LispValue) -> (r: Rc<Environment>)
    ensures
        r.deep_view() == env.deep_view().insert(name@, val_view(value)),
{
    Rc::new(Environment::Entry { name, value, rest: rc_clone_env(env) })
}

impl Expression {
    /// Evaluates one expression in one environment snapshot with a given
    /// recursion budget, to exactly what the evaluation relation `eval_sem`
    /// yields.
    pub fn evaluation(&self, environment: &Rc<Environment>, fuel: u64) -> (r: Result<
        LispValue,
        EvalError,
    >)
        ensures
            eval_result_view(r) == eval_sem(self.deep_view(), environment.deep_view(), fuel as nat),
        decreases fuel, self,
    {
        match self {
            Expression::IntLiteral(n) => Ok(LispValue::Int(*n)),
            Expression::FloatLiteral(b) => Ok(LispValue::Float(*b)),
            Expression::BoolLiteral(b) => Ok(LispValue::Bool(*b)),
            Expression::Variable(x) => match lookup(environment, x) {
                Some(v) => Ok(v),
                None => Err(EvalError::UnboundVariable(x.clone())),
            },
            Expression::BinaryOp { op, left, right } => {
                let v1 = match left.evaluation(environment, fuel) {
                    Err(er) => {
                        return Err(er);
                    },
                    Ok(v) => v,
                };
                let v2 = match right.evaluation(environment, fuel) {
                    Err(er) => {
                        return Err(er);
                    },
                    Ok(v) => v,
                };
                number_operation(*op, v1, v2)
            },
            Expression::If { cond, then_expr, else_expr } => {
                match cond.evaluation(environment, fuel) {
                    Err(er) => Err(er),
                    Ok(LispValue::Bool(true)) => then_expr.evaluation(environment, fuel),
                    Ok(LispValue::Bool(false)) => else_expr.evaluation(environment, fuel),
                    Ok(v) => Err(EvalError::TypeError(v)),
                }
            },
            Expression::Lambda { param, body } => Ok(
                LispValue::Closure {
                    param: param.clone(),
                    body: rc_clone_expr(body),
                    env: rc_clone_env(environment),
                },
            ),
            Expression::Call { callee, arg } => {
                match callee.evaluation(environment, fuel) {
                    Err(er) => Err(er),
                    Ok(LispValue::Closure { param, body, env: cenv }) => {
                        match arg.evaluation(environment, fuel) {
                            Err(er) => Err(er),
                            Ok(av) => {
                                if fuel == 0 {
                                    Err(EvalError::DepthExceeded)
                                } else {
                                    let new_env = extend(&cenv, param, av);
                                    body.evaluation(&new_env, fuel - 1)
                                }
                            },
                        }
                    },
                    Ok(v) => Err(EvalError::TypeError(v)),
                }
            },
            Expression::Let { name, bound_expr, body } => {
                match bound_expr.evaluation(environment, fuel) {
                    Err(er) => Err(er),
                    Ok(v) => {
                        let new_env = extend(environment, name.clone(), v);
                        body.evaluation(&new_env, fuel)
                    },
                }
            },
        }
    }
}

/// Applies one binary operator to two evaluated operands, to exactly what
/// `binop_sem` yields: both operands must be of the same numeric kind.
pub fn number_operation(op: BinaryOperator, v1: LispValue, v2: LispValue) -> (r: Result<
    LispValue,
    EvalError,
>)
    ensures
        eval_result_view(r) == binop_sem(op, val_view(v1), val_view(v2)),
{
    match v1 {
        LispValue::Int(a) => match v2 {
            LispValue::Int(b) => match op {
                BinaryOperator::Equal => Ok(LispValue::Bool(a == b)),
                BinaryOperator::Add => Ok(LispValue::Int(a.wrapping_add(b))),
                BinaryOperator::Sub => Ok(LispValue::Int(a.wrapping_sub(b))),
                BinaryOperator::Mul => Ok(LispValue::Int(a.wrapping_mul(b))),
                BinaryOperator::Div => {
                    if b == 0 {
                        Err(EvalError::DivisionByZero)
                    } else {
                        Ok(LispValue::Int(div_trunc(a, b)))
                    }
                },
            },
            _ => Err(EvalError::TypeError(v2)),
        },
        LispValue::Float(a) => match v2 {
            LispValue::Float(b) => match op {
                BinaryOperator::Equal => Ok(LispValue::Bool(crate::float_bits::eq_bits(a, b))),
                BinaryOperator::Add => Ok(LispValue::Float(crate::float_bits::add_bits(a, b))),
                BinaryOperator::Sub => Ok(LispValue::Float(crate::float_bits::sub_bits(a, b))),
                BinaryOperator::Mul => Ok(LispValue::Float(crate::float_bits::mul_bits(a, b))),
                BinaryOperator::Div => Ok(LispValue::Float(crate::float_bits::div_bits(a, b))),
            },
            _ => Err(EvalError::TypeError(v2)),
        },
        _ => Err(EvalError::TypeError(v1)),
    }
}

/// Truncated signed division for a nonzero divisor, wrapped around two's
/// complement: the one overflowing case divides the smallest integer by
/// minus one and yields the smallest integer again.
fn div_trunc(a: i64, b: i64) -> (r: i64)
    requires
        b != 0,
    ensures
        r == trunc_div_i64(a, b),
{
    let mag_a: u64 = if a >= 0 {
        a as u64
    } else {
        (-(a as i128)) as u64
    };
    let mag_b: u64 = if b >= 0 {
        b as u64
    } else {
        (-(b as i128)) as u64
    };
    let q = mag_a / mag_b;
    proof {
        assert(mag_a == abs_i64(a));
        assert(mag_b == abs_i64(b));
        assert(q == abs_i64(a) / abs_i64(b));
    }
    let neg = (a < 0) != (b < 0);
    if neg {
        if q == 0x8000_0000_0000_0000 {
            i64::MIN
        } else {
            -(q as i64)
        }
    } else {
        if q == 0x8000_0000_0000_0000 {
            i64::MIN
        } else {
            q as i64
        }
    }
}


/// Shadowing is exact: rebinding a name makes the newest binding the only
/// visible one, and evaluation cannot tell the twice-extended snapshot from
/// the snapshot holding only the newest binding — the outer binding is never
/// visible under the inner one, whatever the expression.
pub proof fn lemma_shadowing(
    e: SpecExpr,
    env: Map<Seq<char>, SpecVal>,
    x: Seq<char>,
    v1: SpecVal,
    v2: SpecVal,
    fuel: nat,
)
    ensures
        eval_sem(e, env.insert(x, v1).insert(x, v2), fuel) == eval_sem(e, env.insert(x, v2), fuel),
{
    assert(env.insert(x, v1).insert(x, v2) =~= env.insert(x, v2));
}

/// A lambda captures the environment in effect at its evaluation, as an
/// immutable snapshot inside the closure; its body is not evaluated at this
/// point.
pub proof fn lemma_lambda_captures(
    param: Seq<char>,
    body: SpecExpr,
    env: Map<Seq<char>, SpecVal>,
    fuel: nat,
)
    ensures
        eval_sem(SpecExpr::Lambda { param, body: Box::new(body) }, env, fuel) == Ok::<
            SpecVal,
            SpecEvalError,
        >(SpecVal::Closure { param, body, env }),
{
}

/// A call evaluates the closure's body in the captured snapshot extended
/// with the parameter, so the caller's environment enters only through the
/// argument value.
pub proof fn lemma_call_evaluates_body_in_captured_env(
    callee: SpecExpr,
    arg: SpecExpr,
    env: Map<Seq<char>, SpecVal>,
    p: Seq<char>,
    b: SpecExpr,
    cenv: Map<Seq<char>, SpecVal>,
    av: SpecVal,
    fuel: nat,
)
    requires
        eval_sem(callee, env, fuel) == Ok::<SpecVal, SpecEvalError>(
            SpecVal::Closure { param: p, body: b, env: cenv },
        ),
        eval_sem(arg, env, fuel) == Ok::<SpecVal, SpecEvalError>(av),
        fuel > 0,
    ensures
        eval_sem(SpecExpr::Call { callee: Box::new(callee), arg: Box::new(arg) }, env, fuel)
            == eval_sem(b, cenv.insert(p, av), (fuel - 1) as nat),
{
}

/// Closure capture is by value at definition time: two call sites whose
/// callee and argument evaluate alike see the same result, whatever later
/// bindings distinguish their environments.
pub proof fn lemma_capture_by_value(
    callee: SpecExpr,
    arg: SpecExpr,
    env1: Map<Seq<char>, SpecVal>,
    env2: Map<Seq<char>, SpecVal>,
    fuel: nat,
)
    requires
        eval_sem(callee, env1, fuel) == eval_sem(callee, env2, fuel),
        eval_sem(arg, env1, fuel) == eval_sem(arg, env2, fuel),
    ensures
        eval_sem(SpecExpr::Call { callee: Box::new(callee), arg: Box::new(arg) }, env1, fuel)
            == eval_sem(SpecExpr::Call { callee: Box::new(callee), arg: Box::new(arg) }, env2, fuel),
{
}


} // verus!
