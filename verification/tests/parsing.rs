use mini_lisp::{lexer, parser, BinaryOperator, Expression, ParseError, Token};
use std::rc::Rc;

fn parse(src: &str) -> Result<Vec<Expression>, ParseError> {
    parser(&lexer(&src.to_string()))
}

#[test]
fn parses_binary_operation() {
    let exprs = parse("(+ 1 2)").unwrap();
    assert_eq!(
        exprs,
        vec![Expression::BinaryOp {
            op: BinaryOperator::Add,
            left: Rc::new(Expression::IntLiteral(1)),
            right: Rc::new(Expression::IntLiteral(2)),
        }]
    );
}

#[test]
fn parses_let_lambda_and_call() {
    let exprs = parse("(let (f (lambda (a) (+ a 1))) (f 2))").unwrap();
    assert_eq!(
        exprs,
        vec![Expression::Let {
            name: "f".to_string(),
            bound_expr: Rc::new(Expression::Lambda {
                param: "a".to_string(),
                body: Rc::new(Expression::BinaryOp {
                    op: BinaryOperator::Add,
                    left: Rc::new(Expression::Variable("a".to_string())),
                    right: Rc::new(Expression::IntLiteral(1)),
                }),
            }),
            body: Rc::new(Expression::Call {
                callee: Rc::new(Expression::Variable("f".to_string())),
                arg: Rc::new(Expression::IntLiteral(2)),
            }),
        }]
    );
}

#[test]
fn parses_if_form() {
    let exprs = parse("(if #t 1 2)").unwrap();
    assert_eq!(
        exprs,
        vec![Expression::If {
            cond: Rc::new(Expression::BoolLiteral(true)),
            then_expr: Rc::new(Expression::IntLiteral(1)),
            else_expr: Rc::new(Expression::IntLiteral(2)),
        }]
    );
}

#[test]
fn parses_several_top_level_expressions() {
    let exprs = parse("1 2.5 x").unwrap();
    assert_eq!(
        exprs,
        vec![
            Expression::IntLiteral(1),
            Expression::FloatLiteral((2.5f64).to_bits()),
            Expression::Variable("x".to_string()),
        ]
    );
}

#[test]
fn parses_parenthesized_callee() {
    let exprs = parse("((lambda (a) a) 1)").unwrap();
    assert_eq!(
        exprs,
        vec![Expression::Call {
            callee: Rc::new(Expression::Lambda {
                param: "a".to_string(),
                body: Rc::new(Expression::Variable("a".to_string())),
            }),
            arg: Rc::new(Expression::IntLiteral(1)),
        }]
    );
}

#[test]
fn missing_final_paren_cites_the_missing_closing_token() {
    let err = parse("(let (a 1) (+ a 2)").unwrap_err();
    assert_eq!(
        err,
        ParseError::UnexpectedEnd {
            expected: Some(Token::RightBrace),
            position: 11,
        }
    );
}

#[test]
fn binder_must_be_a_bare_identifier() {
    assert_eq!(
        parse("(let (1 2) 3)").unwrap_err(),
        ParseError::BadBinder { position: 3 }
    );
    assert_eq!(
        parse("(lambda ((f x)) 1)").unwrap_err(),
        ParseError::BadBinder { position: 3 }
    );
}

#[test]
fn literal_cannot_head_a_form() {
    assert_eq!(
        parse("(1 2)").unwrap_err(),
        ParseError::BadFormHead {
            found: Token::Int(1),
            position: 1,
        }
    );
}

#[test]
fn expression_cannot_start_with_closing_paren() {
    assert_eq!(
        parse(") 1").unwrap_err(),
        ParseError::BadExpressionStart {
            found: Token::RightBrace,
            position: 0,
        }
    );
}

#[test]
fn form_must_end_with_closing_paren() {
    assert_eq!(
        parse("(+ 1 2 3)").unwrap_err(),
        ParseError::UnexpectedToken {
            expected: Token::RightBrace,
            found: Token::Int(3),
            position: 4,
        }
    );
}

#[test]
fn lone_open_paren_is_premature_end() {
    assert_eq!(
        parse("(").unwrap_err(),
        ParseError::UnexpectedEnd {
            expected: None,
            position: 1,
        }
    );
}

#[test]
fn binder_pair_must_open_with_paren() {
    assert_eq!(
        parse("(let a 1)").unwrap_err(),
        ParseError::UnexpectedToken {
            expected: Token::LeftBrace,
            found: Token::Variable("a".to_string()),
            position: 2,
        }
    );
}
