//! The parser: turns the token sequence into a sequence of expression trees
//! by recursive descent, strictly left to right and without backtracking.
//!
//! Dispatch happens on the token after `(`: a reserved keyword routes to its
//! special form, another `(` or an identifier routes to a single-argument
//! application. Every form must be closed by `)`; the first violation aborts
//! parsing of the whole remaining input with an error naming the expected
//! and the found token.

use crate::lexer::{SpecToken, Token};
use std::rc::Rc;
use vstd::prelude::*;

verus! {

/// The operator of a binary form.
#[derive(Clone, Copy, Debug, PartialEq)]
pub enum BinaryOperator {
    Equal,
    Add,
    Sub,
    Mul,
    Div,
}

/// One expression tree. Subtrees are shared immutable nodes, so a closure
/// can keep its body alive without copying it.
#[derive(Debug, PartialEq)]
pub enum Expression {
    Let { name: String, bound_expr: Rc<Expression>, body: Rc<Expression> },
    Lambda { param: String, body: Rc<Expression> },
    If { cond: Rc<Expression>, then_expr: Rc<Expression>, else_expr: Rc<Expression> },
    Variable(String),
    IntLiteral(i64),
    FloatLiteral(u64),
    BoolLiteral(bool),
    BinaryOp { op: BinaryOperator, left: Rc<Expression>, right: Rc<Expression> },
    Call { callee: Rc<Expression>, arg: Rc<Expression> },
}

/// The mathematical model of an expression tree.
pub enum SpecExpr {
    Let { name: Seq<char>, bound_expr: Box<SpecExpr>, body: Box<SpecExpr> },
    Lambda { param: Seq<char>, body: Box<SpecExpr> },
    If { cond: Box<SpecExpr>, then_expr: Box<SpecExpr>, else_expr: Box<SpecExpr> },
    Variable(Seq<char>),
    IntLiteral(i64),
    FloatLiteral(u64),
    BoolLiteral(bool),
    BinaryOp { op: BinaryOperator, left: Box<SpecExpr>, right: Box<SpecExpr> },
    Call { callee: Box<SpecExpr>, arg: Box<SpecExpr> },
}

/// The model of an expression tree.
pub open spec fn expr_view(e: Expression) -> SpecExpr
    decreases e,
{
    match e {
        Expression::Let { name, bound_expr, body } => SpecExpr::Let {
            name: name@,
            bound_expr: Box::new(expr_view(*bound_expr)),
            body: Box::new(expr_view(*body)),
        },
        Expression::Lambda { param, body } => SpecExpr::Lambda {
            param: param@,
            body: Box::new(expr_view(*body)),
        },
        Expression::If { cond, then_expr, else_expr } => SpecExpr::If {
            cond: Box::new(expr_view(*cond)),
            then_expr: Box::new(expr_view(*then_expr)),
            else_expr: Box::new(expr_view(*else_expr)),
        },
        Expression::Variable(s) => SpecExpr::Variable(s@),
        Expression::IntLiteral(n) => SpecExpr::IntLiteral(n),
        Expression::FloatLiteral(b) => SpecExpr::FloatLiteral(b),
        Expression::BoolLiteral(b) => SpecExpr::BoolLiteral(b),
        Expression::BinaryOp { op, left, right } => SpecExpr::BinaryOp {
            op,
            left: Box::new(expr_view(*left)),
            right: Box::new(expr_view(*right)),
        },
        Expression::Call { callee, arg } => SpecExpr::Call {
            callee: Box::new(expr_view(*callee)),
            arg: Box::new(expr_view(*arg)),
        },
    }
}

impl DeepView for Expression {
    type V = SpecExpr;

    open spec fn deep_view(&self) -> SpecExpr {
        expr_view(*self)
    }
}

/// A structural parse failure. `UnexpectedEnd` carries the token that was
/// owed when the input ran out, if one specific token was owed.
#[derive(Debug, PartialEq)]
pub enum ParseError {
    UnexpectedToken { expected: Token, found: Token, position: usize },
    UnexpectedEnd { expected: Option<Token>, position: usize },
    BadBinder { position: usize },
    BadFormHead { found: Token, position: usize },
    BadExpressionStart { found: Token, position: usize },
}

/// The mathematical model of a parse failure.
pub enum SpecParseError {
    UnexpectedToken { expected: SpecToken, found: SpecToken, position: int },
    UnexpectedEnd { expected: Option<SpecToken>, position: int },
    BadBinder { position: int },
    BadFormHead { found: SpecToken, position: int },
    BadExpressionStart { found: SpecToken, position: int },
}

impl DeepView for ParseError {
    type V = SpecParseError;

    open spec fn deep_view(&self) -> SpecParseError {
        match self {
            ParseError::UnexpectedToken { expected, found, position } => (
            SpecParseError::UnexpectedToken {
                expected: expected.deep_view(),
                found: found.deep_view(),
                position: *position as int,
            }),
            ParseError::UnexpectedEnd { expected, position } => (SpecParseError::UnexpectedEnd {
                expected: match expected {
                    Some(t) => Some(t.deep_view()),
                    None => None,
                },
                position: *position as int,
            }),
            ParseError::BadBinder { position } => (SpecParseError::BadBinder {
                position: *position as int,
            }),
            ParseError::BadFormHead { found, position } => (SpecParseError::BadFormHead {
                found: found.deep_view(),
                position: *position as int,
            }),
            ParseError::BadExpressionStart { found, position } => (
            SpecParseError::BadExpressionStart {
                found: found.deep_view(),
                position: *position as int,
            }),
        }
    }
}

/// How many tokens stand at or after position `pos`.
pub open spec fn rem(len: int, pos: int) -> nat {
    if pos < len {
        (len - pos) as nat
    } else {
        0
    }
}

/// Clamps a position that must lie strictly after `lo`.
pub open spec fn bump(p: int, lo: int) -> int {
    if p > lo {
        p
    } else {
        lo + 1
    }
}

/// The common closing step of every parenthesized form: the parsed inner
/// expression must be followed by `)`.
pub open spec fn close_spec(ts: Seq<SpecToken>, r: Result<(SpecExpr, int), SpecParseError>) -> Result<
    (SpecExpr, int),
    SpecParseError,
> {
    match r {
        Err(e) => Err(e),
        Ok((e, q)) => if q >= ts.len() {
            Err(SpecParseError::UnexpectedEnd { expected: Some(SpecToken::RightBrace), position: q })
        } else if !(ts[q] is RightBrace) {
            Err(SpecParseError::UnexpectedToken {
                expected: SpecToken::RightBrace,
                found: ts[q],
                position: q,
            })
        } else {
            Ok((e, q + 1))
        },
    }
}

/// A `let` form after its keyword: `( name bound )` and then the body.
pub open spec fn parse_let_spec(ts: Seq<SpecToken>, p: int) -> Result<
    (SpecExpr, int),
    SpecParseError,
>
    decreases rem(ts.len() as int, p), 2int,
{
    if p >= ts.len() {
        Err(SpecParseError::UnexpectedEnd { expected: Some(SpecToken::LeftBrace), position: p })
    } else if !(ts[p] is LeftBrace) {
        Err(SpecParseError::UnexpectedToken {
            expected: SpecToken::LeftBrace,
            found: ts[p],
            position: p,
        })
    } else {
        match parse_one_spec(ts, p + 1) {
            Err(e) => Err(e),
            Ok((name_e, q1r)) => {
                let q1 = bump(q1r, p + 1);
                match name_e {
                    SpecExpr::Variable(x) => match parse_one_spec(ts, q1) {
                        Err(e) => Err(e),
                        Ok((bound, q2r)) => {
                            let q2 = bump(q2r, q1);
                            if q2 >= ts.len() {
                                Err(SpecParseError::UnexpectedEnd {
                                    expected: Some(SpecToken::RightBrace),
                                    position: q2,
                                })
                            } else if !(ts[q2] is RightBrace) {
                                Err(SpecParseError::UnexpectedToken {
                                    expected: SpecToken::RightBrace,
                                    found: ts[q2],
                                    position: q2,
                                })
                            } else {
                                match parse_one_spec(ts, q2 + 1) {
                                    Err(e) => Err(e),
                                    Ok((body, q3r)) => {
                                        let q3 = bump(q3r, q2 + 1);
                                        Ok(
                                            (
                                                SpecExpr::Let {
                                                    name: x,
                                                    bound_expr: Box::new(bound),
                                                    body: Box::new(body),
                                                },
                                                q3,
                                            ),
                                        )
                                    },
                                }
                            }
                        },
                    },
                    _ => Err(SpecParseError::BadBinder { position: p + 1 }),
                }
            },
        }
    }
}

/// A `lambda` form after its keyword: `( param )` and then the body.
pub open spec fn parse_lambda_spec(ts: Seq<SpecToken>, p: int) -> Result<
    (SpecExpr, int),
    SpecParseError,
>
    decreases rem(ts.len() as int, p), 2int,
{
    if p >= ts.len() {
        Err(SpecParseError::UnexpectedEnd { expected: Some(SpecToken::LeftBrace), position: p })
    } else if !(ts[p] is LeftBrace) {
        Err(SpecParseError::UnexpectedToken {
            expected: SpecToken::LeftBrace,
            found: ts[p],
            position: p,
        })
    } else {
        match parse_one_spec(ts, p + 1) {
            Err(e) => Err(e),
            Ok((name_e, q1r)) => {
                let q1 = bump(q1r, p + 1);
                match name_e {
                    SpecExpr::Variable(x) => if q1 >= ts.len() {
                        Err(SpecParseError::UnexpectedEnd {
                            expected: Some(SpecToken::RightBrace),
                            position: q1,
                        })
                    } else if !(ts[q1] is RightBrace) {
                        Err(SpecParseError::UnexpectedToken {
                            expected: SpecToken::RightBrace,
                            found: ts[q1],
                            position: q1,
                        })
                    } else {
                        match parse_one_spec(ts, q1 + 1) {
                            Err(e) => Err(e),
                            Ok((body, q2r)) => {
                                let q2 = bump(q2r, q1 + 1);
                                Ok((SpecExpr::Lambda { param: x, body: Box::new(body) }, q2))
                            },
                        }
                    },
                    _ => Err(SpecParseError::BadBinder { position: p + 1 }),
                }
            },
        }
    }
}

/// An `if` form after its keyword: condition, then-branch, else-branch.
pub open spec fn parse_if_spec(ts: Seq<SpecToken>, p: int) -> Result<
    (SpecExpr, int),
    SpecParseError,
>
    decreases rem(ts.len() as int, p), 2int,
{
    match parse_one_spec(ts, p) {
        Err(e) => Err(e),
        Ok((cond, q1r)) => {
            let q1 = bump(q1r, p);
            match parse_one_spec(ts, q1) {
                Err(e) => Err(e),
                Ok((then_e, q2r)) => {
                    let q2 = bump(q2r, q1);
                    match parse_one_spec(ts, q2) {
                        Err(e) => Err(e),
                        Ok((else_e, q3r)) => {
                            let q3 = bump(q3r, q2);
                            Ok(
                                (
                                    SpecExpr::If {
                                        cond: Box::new(cond),
                                        then_expr: Box::new(then_e),
                                        else_expr: Box::new(else_e),
                                    },
                                    q3,
                                ),
                            )
                        },
                    }
                },
            }
        },
    }
}

/// A binary operator form after its operator token: both operands required.
pub open spec fn parse_binop_spec(ts: Seq<SpecToken>, op: BinaryOperator, p: int) -> Result<
    (SpecExpr, int),
    SpecParseError,
>
    decreases rem(ts.len() as int, p), 2int,
{
    match parse_one_spec(ts, p) {
        Err(e) => Err(e),
        Ok((left, q1r)) => {
            let q1 = bump(q1r, p);
            match parse_one_spec(ts, q1) {
                Err(e) => Err(e),
                Ok((right, q2r)) => {
                    let q2 = bump(q2r, q1);
                    Ok((SpecExpr::BinaryOp { op, left: Box::new(left), right: Box::new(right) }, q2))
                },
            }
        },
    }
}

/// An application form: the callee expression, then its single argument.
pub open spec fn parse_call_spec(ts: Seq<SpecToken>, p: int) -> Result<
    (SpecExpr, int),
    SpecParseError,
>
    decreases rem(ts.len() as int, p), 2int,
{
    match parse_one_spec(ts, p) {
        Err(e) => Err(e),
        Ok((callee, q1r)) => {
            let q1 = bump(q1r, p);
            match parse_one_spec(ts, q1) {
                Err(e) => Err(e),
                Ok((arg, q2r)) => {
                    let q2 = bump(q2r, q1);
                    Ok((SpecExpr::Call { callee: Box::new(callee), arg: Box::new(arg) }, q2))
                },
            }
        },
    }
}

/// A parenthesized form: dispatch on the token after `(`, then the closing
/// `)`.
pub open spec fn parse_form_spec(ts: Seq<SpecToken>, pos: int) -> Result<
    (SpecExpr, int),
    SpecParseError,
>
    decreases rem(ts.len() as int, pos), 0int,
{
    let p1 = pos + 1;
    if p1 >= ts.len() {
        Err(SpecParseError::UnexpectedEnd { expected: None, position: p1 })
    } else {
        close_spec(
            ts,
            match ts[p1] {
                SpecToken::Let => parse_let_spec(ts, p1 + 1),
                SpecToken::Lambda => parse_lambda_spec(ts, p1 + 1),
                SpecToken::If => parse_if_spec(ts, p1 + 1),
                SpecToken::Equal => parse_binop_spec(ts, BinaryOperator::Equal, p1 + 1),
                SpecToken::Add => parse_binop_spec(ts, BinaryOperator::Add, p1 + 1),
                SpecToken::Sub => parse_binop_spec(ts, BinaryOperator::Sub, p1 + 1),
                SpecToken::Mul => parse_binop_spec(ts, BinaryOperator::Mul, p1 + 1),
                SpecToken::Div => parse_binop_spec(ts, BinaryOperator::Div, p1 + 1),
                SpecToken::LeftBrace => parse_call_spec(ts, p1),
                SpecToken::Variable(s) => match parse_one_spec(ts, p1 + 1) {
                    Err(e) => Err(e),
                    Ok((arg, q1r)) => {
                        let q1 = bump(q1r, p1 + 1);
                        Ok(
                            (
                                SpecExpr::Call {
                                    callee: Box::new(SpecExpr::Variable(s)),
                                    arg: Box::new(arg),
                                },
                                q1,
                            ),
                        )
                    },
                },
                _ => Err(SpecParseError::BadFormHead { found: ts[p1], position: p1 }),
            },
        )
    }
}

/// One expression starting at `pos`: an atom, or a parenthesized form.
pub open spec fn parse_one_spec(ts: Seq<SpecToken>, pos: int) -> Result<
    (SpecExpr, int),
    SpecParseError,
>
    decreases rem(ts.len() as int, pos), 1int,
{
    if pos < 0 || pos >= ts.len() {
        Err(SpecParseError::UnexpectedEnd { expected: None, position: pos })
    } else {
        match ts[pos] {
            SpecToken::True => Ok((SpecExpr::BoolLiteral(true), pos + 1)),
            SpecToken::False => Ok((SpecExpr::BoolLiteral(false), pos + 1)),
            SpecToken::Int(n) => Ok((SpecExpr::IntLiteral(n), pos + 1)),
            SpecToken::Float(b) => Ok((SpecExpr::FloatLiteral(b), pos + 1)),
            SpecToken::Variable(s) => Ok((SpecExpr::Variable(s), pos + 1)),
            SpecToken::LeftBrace => parse_form_spec(ts, pos),
            _ => Err(SpecParseError::BadExpressionStart { found: ts[pos], position: pos }),
        }
    }
}

/// The whole input: top-level expressions parsed one after the other until
/// the tokens are exhausted.
pub open spec fn parse_all_spec(ts: Seq<SpecToken>, pos: int) -> Result<
    Seq<SpecExpr>,
    SpecParseError,
>
    decreases rem(ts.len() as int, pos), 3int,
{
    if pos < 0 || pos >= ts.len() {
        Ok(Seq::empty())
    } else {
        match parse_one_spec(ts, pos) {
            Err(e) => Err(e),
            Ok((e, qr)) => {
                let q = bump(qr, pos);
                match parse_all_spec(ts, q) {
                    Err(e2) => Err(e2),
                    Ok(rest) => Ok(seq![e].add(rest)),
                }
            },
        }
    }
}

/// The model of the parser over a whole token sequence.
pub open spec fn parser_spec(ts: Seq<SpecToken>) -> Result<Seq<SpecExpr>, SpecParseError> {
    parse_all_spec(ts, 0)
}


/// The model of an executable parse result.
pub open spec fn parse_result_view(r: Result<(Expression, usize), ParseError>) -> Result<
    (SpecExpr, int),
    SpecParseError,
> {
    match r {
        Ok((e, q)) => Ok((e.deep_view(), q as int)),
        Err(pe) => Err(pe.deep_view()),
    }
}

/// One `let` form after its keyword.
fn parse_let(tokens: &Vec<Token>, p: usize) -> (r: Result<(Expression, usize), ParseError>)
    ensures
        parse_result_view(r) == parse_let_spec(tokens.deep_view(), p as int),
        r matches Ok(x) ==> p < x.1 <= tokens.len(),
    decreases rem(tokens@.len() as int, p as int), 2int,
{
    let ghost ts = tokens.deep_view();
    let n = tokens.len();
    if p >= n {
        return Err(ParseError::UnexpectedEnd { expected: Some(Token::LeftBrace), position: p });
    }
    let is_lb = match &tokens[p] {
        Token::LeftBrace => true,
        _ => false,
    };
    if !is_lb {
        return Err(
            ParseError::UnexpectedToken {
                expected: Token::LeftBrace,
                found: tokens[p].clone(),
                position: p,
            },
        );
    }
    match parse_one_expression(tokens, p + 1) {
        Err(e) => Err(e),
        Ok((name_e, q1)) => {
            proof {
                assert(bump(q1 as int, p + 1) == q1 as int);
            }
            match name_e {
                Expression::Variable(x) => {
                    match parse_one_expression(tokens, q1) {
                        Err(e) => Err(e),
                        Ok((bound, q2)) => {
                            proof {
                                assert(bump(q2 as int, q1 as int) == q2 as int);
                            }
                            if q2 >= n {
                                return Err(
                                    ParseError::UnexpectedEnd {
                                        expected: Some(Token::RightBrace),
                                        position: q2,
                                    },
                                );
                            }
                            let is_rb = match &tokens[q2] {
                                Token::RightBrace => true,
                                _ => false,
                            };
                            if !is_rb {
                                return Err(
                                    ParseError::UnexpectedToken {
                                        expected: Token::RightBrace,
                                        found: tokens[q2].clone(),
                                        position: q2,
                                    },
                                );
                            }
                            match parse_one_expression(tokens, q2 + 1) {
                                Err(e) => Err(e),
                                Ok((body, q3)) => {
                                    proof {
                                        assert(bump(q3 as int, q2 + 1) == q3 as int);
                                    }
                                    Ok(
                                        (
                                            Expression::Let {
                                                name: x,
                                                bound_expr: Rc::new(bound),
                                                body: Rc::new(body),
                                            },
                                            q3,
                                        ),
                                    )
                                },
                            }
                        },
                    }
                },
                _ => Err(ParseError::BadBinder { position: p + 1 }),
            }
        },
    }
}

/// One `lambda` form after its keyword.
fn parse_lambda(tokens: &Vec<Token>, p: usize) -> (r: Result<(Expression, usize), ParseError>)
    ensures
        parse_result_view(r) == parse_lambda_spec(tokens.deep_view(), p as int),
        r matches Ok(x) ==> p < x.1 <= tokens.len(),
    decreases rem(tokens@.len() as int, p as int), 2int,
{
    let n = tokens.len();
    if p >= n {
        return Err(ParseError::UnexpectedEnd { expected: Some(Token::LeftBrace), position: p });
    }
    let is_lb = match &tokens[p] {
        Token::LeftBrace => true,
        _ => false,
    };
    if !is_lb {
        return Err(
            ParseError::UnexpectedToken {
                expected: Token::LeftBrace,
                found: tokens[p].clone(),
                position: p,
            },
        );
    }
    match parse_one_expression(tokens, p + 1) {
        Err(e) => Err(e),
        Ok((name_e, q1)) => {
            proof {
                assert(bump(q1 as int, p + 1) == q1 as int);
            }
            match name_e {
                Expression::Variable(x) => {
                    if q1 >= n {
                        return Err(
                            ParseError::UnexpectedEnd {
                                expected: Some(Token::RightBrace),
                                position: q1,
                            },
                        );
                    }
                    let is_rb = match &tokens[q1] {
                        Token::RightBrace => true,
                        _ => false,
                    };
                    if !is_rb {
                        return Err(
                            ParseError::UnexpectedToken {
                                expected: Token::RightBrace,
                                found: tokens[q1].clone(),
                                position: q1,
                            },
                        );
                    }
                    match parse_one_expression(tokens, q1 + 1) {
                        Err(e) => Err(e),
                        Ok((body, q2)) => {
                            proof {
                                assert(bump(q2 as int, q1 + 1) == q2 as int);
                            }
                            Ok((Expression::Lambda { param: x, body: Rc::new(body) }, q2))
                        },
                    }
                },
                _ => Err(ParseError::BadBinder { position: p + 1 }),
            }
        },
    }
}

/// One `if` form after its keyword.
fn parse_if(tokens: &Vec<Token>, p: usize) -> (r: Result<(Expression, usize), ParseError>)
    ensures
        parse_result_view(r) == parse_if_spec(tokens.deep_view(), p as int),
        r matches Ok(x) ==> p < x.1 <= tokens.len(),
    decreases rem(tokens@.len() as int, p as int), 2int,
{
    match parse_one_expression(tokens, p) {
        Err(e) => Err(e),
        Ok((cond, q1)) => {
            proof {
                assert(bump(q1 as int, p as int) == q1 as int);
            }
            match parse_one_expression(tokens, q1) {
                Err(e) => Err(e),
                Ok((then_e, q2)) => {
                    proof {
                        assert(bump(q2 as int, q1 as int) == q2 as int);
                    }
                    match parse_one_expression(tokens, q2) {
                        Err(e) => Err(e),
                        Ok((else_e, q3)) => {
                            proof {
                                assert(bump(q3 as int, q2 as int) == q3 as int);
                            }
                            Ok(
                                (
                                    Expression::If {
                                        cond: Rc::new(cond),
                                        then_expr: Rc::new(then_e),
                                        else_expr: Rc::new(else_e),
                                    },
                                    q3,
                                ),
                            )
                        },
                    }
                },
            }
        },
    }
}

/// One binary operator form after its operator token.
fn parse_binop(tokens: &Vec<Token>, op: BinaryOperator, p: usize) -> (r: Result<
    (Expression, usize),
    ParseError,
>)
    ensures
        parse_result_view(r) == parse_binop_spec(tokens.deep_view(), op, p as int),
        r matches Ok(x) ==> p < x.1 <= tokens.len(),
    decreases rem(tokens@.len() as int, p as int), 2int,
{
    match parse_one_expression(tokens, p) {
        Err(e) => Err(e),
        Ok((left, q1)) => {
            proof {
                assert(bump(q1 as int, p as int) == q1 as int);
            }
            match parse_one_expression(tokens, q1) {
                Err(e) => Err(e),
                Ok((right, q2)) => {
                    proof {
                        assert(bump(q2 as int, q1 as int) == q2 as int);
                    }
                    Ok(
                        (
                            Expression::BinaryOp {
                                op,
                                left: Rc::new(left),
                                right: Rc::new(right),
                            },
                            q2,
                        ),
                    )
                },
            }
        },
    }
}

/// One application form whose callee is itself a parenthesized form.
fn parse_call(tokens: &Vec<Token>, p: usize) -> (r: Result<(Expression, usize), ParseError>)
    ensures
        parse_result_view(r) == parse_call_spec(tokens.deep_view(), p as int),
        r matches Ok(x) ==> p < x.1 <= tokens.len(),
    decreases rem(tokens@.len() as int, p as int), 2int,
{
    match parse_one_expression(tokens, p) {
        Err(e) => Err(e),
        Ok((callee, q1)) => {
            proof {
                assert(bump(q1 as int, p as int) == q1 as int);
            }
            match parse_one_expression(tokens, q1) {
                Err(e) => Err(e),
                Ok((arg, q2)) => {
                    proof {
                        assert(bump(q2 as int, q1 as int) == q2 as int);
                    }
                    Ok((Expression::Call { callee: Rc::new(callee), arg: Rc::new(arg) }, q2))
                },
            }
        },
    }
}

/// One parenthesized form, from its opening `(` through its closing `)`.
#[verifier::rlimit(50)]
fn parse_form(tokens: &Vec<Token>, pos: usize) -> (r: Result<(Expression, usize), ParseError>)
    requires
        pos < tokens@.len(),
    ensures
        parse_result_view(r) == parse_form_spec(tokens.deep_view(), pos as int),
        r matches Ok(x) ==> pos < x.1 <= tokens.len(),
    decreases rem(tokens@.len() as int, pos as int), 0int,
{
    let n = tokens.len();
    let p1 = pos + 1;
    if p1 >= n {
        return Err(ParseError::UnexpectedEnd { expected: None, position: p1 });
    }
    let inner: Result<(Expression, usize), ParseError> = match &tokens[p1] {
        Token::Let => {
            let rr = parse_let(tokens, p1 + 1);
            proof {
                assert(parse_form_spec(tokens.deep_view(), pos as int) == close_spec(
                    tokens.deep_view(),
                    parse_result_view(rr),
                ));
            }
            rr
        },
        Token::Lambda => {
            let rr = parse_lambda(tokens, p1 + 1);
            proof {
                assert(parse_form_spec(tokens.deep_view(), pos as int) == close_spec(
                    tokens.deep_view(),
                    parse_result_view(rr),
                ));
            }
            rr
        },
        Token::If => {
            let rr = parse_if(tokens, p1 + 1);
            proof {
                assert(parse_form_spec(tokens.deep_view(), pos as int) == close_spec(
                    tokens.deep_view(),
                    parse_result_view(rr),
                ));
            }
            rr
        },
        Token::Equal => {
            let rr = parse_binop(tokens, BinaryOperator::Equal, p1 + 1);
            proof {
                assert(parse_form_spec(tokens.deep_view(), pos as int) == close_spec(
                    tokens.deep_view(),
                    parse_result_view(rr),
                ));
            }
            rr
        },
        Token::Add => {
            let rr = parse_binop(tokens, BinaryOperator::Add, p1 + 1);
            proof {
                assert(parse_form_spec(tokens.deep_view(), pos as int) == close_spec(
                    tokens.deep_view(),
                    parse_result_view(rr),
                ));
            }
            rr
        },
        Token::Sub => {
            let rr = parse_binop(tokens, BinaryOperator::Sub, p1 + 1);
            proof {
                assert(parse_form_spec(tokens.deep_view(), pos as int) == close_spec(
                    tokens.deep_view(),
                    parse_result_view(rr),
                ));
            }
            rr
        },
        Token::Mul => {
            let rr = parse_binop(tokens, BinaryOperator::Mul, p1 + 1);
            proof {
                assert(parse_form_spec(tokens.deep_view(), pos as int) == close_spec(
                    tokens.deep_view(),
                    parse_result_view(rr),
                ));
            }
            rr
        },
        Token::Div => {
            let rr = parse_binop(tokens, BinaryOperator::Div, p1 + 1);
            proof {
                assert(parse_form_spec(tokens.deep_view(), pos as int) == close_spec(
                    tokens.deep_view(),
                    parse_result_view(rr),
                ));
            }
            rr
        },
        Token::LeftBrace => {
            let rr = parse_call(tokens, p1);
            proof {
                assert(parse_form_spec(tokens.deep_view(), pos as int) == close_spec(
                    tokens.deep_view(),
                    parse_result_view(rr),
                ));
            }
            rr
        },
        Token::Variable(s) => {
            match parse_one_expression(tokens, p1 + 1) {
                Err(e) => Err(e),
                Ok((arg, q1)) => {
                    proof {
                        assert(bump(q1 as int, p1 + 1) == q1 as int);
                    }
                    let sc = s.clone();
                    let ghost sv = sc@;
                    let callee_e = Expression::Variable(sc);
                    proof {
                        assert(tokens.deep_view()[p1 as int] == SpecToken::Variable(sv));
                        assert(callee_e.deep_view() == SpecExpr::Variable(sv));
                    }
                    let rc_callee = Rc::new(callee_e);
                    let rc_arg = Rc::new(arg);
                    let ghost argv = rc_arg.deep_view();
                    let rr: Result<(Expression, usize), ParseError> = Ok(
                        (Expression::Call { callee: rc_callee, arg: rc_arg }, q1),
                    );
                    proof {
                        assert(parse_result_view(rr) == Ok::<(SpecExpr, int), SpecParseError>(
                            (
                                SpecExpr::Call {
                                    callee: Box::new(SpecExpr::Variable(sv)),
                                    arg: Box::new(argv),
                                },
                                q1 as int,
                            ),
                        ));
                        assert(parse_form_spec(tokens.deep_view(), pos as int) == close_spec(
                            tokens.deep_view(),
                            parse_result_view(rr),
                        ));
                    }
                    rr
                },
            }
        },
        other => {
            let rr: Result<(Expression, usize), ParseError> = Err(
                ParseError::BadFormHead { found: other.clone(), position: p1 },
            );
            proof {
                assert(parse_form_spec(tokens.deep_view(), pos as int) == close_spec(
                    tokens.deep_view(),
                    parse_result_view(rr),
                ));
            }
            rr
        },
    };
    match inner {
        Err(e) => Err(e),
        Ok((e, q)) => {
            if q >= n {
                return Err(
                    ParseError::UnexpectedEnd { expected: Some(Token::RightBrace), position: q },
                );
            }
            let is_rb = match &tokens[q] {
                Token::RightBrace => true,
                _ => false,
            };
            if !is_rb {
                return Err(
                    ParseError::UnexpectedToken {
                        expected: Token::RightBrace,
                        found: tokens[q].clone(),
                        position: q,
                    },
                );
            }
            Ok((e, q + 1))
        },
    }
}

/// Parses one expression from the cursor: structure and position follow the
/// grammar model `parse_one_spec`, and success always advances the cursor.
pub fn parse_one_expression(tokens: &Vec<Token>, position: usize) -> (r: Result<
    (Expression, usize),
    ParseError,
>)
    ensures
        parse_result_view(r) == parse_one_spec(tokens.deep_view(), position as int),
        r matches Ok(x) ==> position < x.1 <= tokens.len(),
    decreases rem(tokens@.len() as int, position as int), 1int,
{
    let n = tokens.len();
    if position >= n {
        return Err(ParseError::UnexpectedEnd { expected: None, position });
    }
    match &tokens[position] {
        Token::True => Ok((Expression::BoolLiteral(true), position + 1)),
        Token::False => Ok((Expression::BoolLiteral(false), position + 1)),
        Token::Int(v) => Ok((Expression::IntLiteral(*v), position + 1)),
        Token::Float(b) => Ok((Expression::FloatLiteral(*b), position + 1)),
        Token::Variable(s) => Ok((Expression::Variable(s.clone()), position + 1)),
        Token::LeftBrace => parse_form(tokens, position),
        other => Err(ParseError::BadExpressionStart { found: other.clone(), position }),
    }
}

/// Parses the whole token sequence into its top-level expressions, one after
/// the other; the first violation aborts the remaining input.
#[verifier::loop_isolation(false)]
pub fn parser(tokens: &Vec<Token>) -> (r: Result<Vec<Expression>, ParseError>)
    ensures
        (match r {
            Ok(es) => parser_spec(tokens.deep_view()) == Ok::<Seq<SpecExpr>, SpecParseError>(
                es.deep_view(),
            ),
            Err(e) => parser_spec(tokens.deep_view()) == Err::<Seq<SpecExpr>, SpecParseError>(
                e.deep_view(),
            ),
        }),
{
    let ghost ts = tokens.deep_view();
    let n = tokens.len();
    let mut buf: Vec<Expression> = Vec::new();
    let mut cur: usize = 0;
    proof {
        assert(buf.deep_view() + parse_all_spec(ts, 0) ->Ok_0 =~= parse_all_spec(ts, 0)->Ok_0);
    }
    while cur < n
        invariant
            cur <= n,
            parse_all_spec(ts, 0) == (match parse_all_spec(ts, cur as int) {
                Ok(rest) => Ok::<Seq<SpecExpr>, SpecParseError>(buf.deep_view() + rest),
                Err(e) => Err::<Seq<SpecExpr>, SpecParseError>(e),
            }),
        decreases n - cur,
    {
        let ghost prev_buf = buf.deep_view();
        match parse_one_expression(tokens, cur) {
            Err(e) => {
                return Err(e);
            },
            Ok((e, q)) => {
                proof {
                    assert(bump(q as int, cur as int) == q as int);
                }
                buf.push(e);
                proof {
                    assert(buf.deep_view() =~= prev_buf + seq![e.deep_view()]);
                    if parse_all_spec(ts, q as int) is Ok {
                        assert(prev_buf + (seq![e.deep_view()] + parse_all_spec(
                            ts,
                            q as int,
                        )->Ok_0) =~= buf.deep_view() + parse_all_spec(ts, q as int)->Ok_0);
                    }
                }
                cur = q;
            },
        }
    }
    proof {
        assert(parse_all_spec(ts, cur as int) == Ok::<Seq<SpecExpr>, SpecParseError>(
            Seq::<SpecExpr>::empty(),
        ));
        assert(buf.deep_view() + Seq::<SpecExpr>::empty() =~= buf.deep_view());
    }
    Ok(buf)
}

} // verus!
