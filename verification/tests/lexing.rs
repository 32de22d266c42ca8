use mini_lisp::{lexer, split_program, Token};

fn lex(src: &str) -> Vec<Token> {
    lexer(&src.to_string())
}

#[test]
fn splits_parens_and_words() {
    let words = split_program(&"(let (a 1) (+ a 2))".to_string());
    assert_eq!(
        words,
        vec!["(", "let", "(", "a", "1", ")", "(", "+", "a", "2", ")", ")"]
    );
}

#[test]
fn splits_trailing_word_and_tight_parens() {
    assert_eq!(split_program(&"ab".to_string()), vec!["ab"]);
    assert_eq!(split_program(&"a(b".to_string()), vec!["a", "(", "b"]);
    assert_eq!(split_program(&"  \t\n ".to_string()), Vec::<String>::new());
}

#[test]
fn lexes_keywords_operators_and_booleans() {
    assert_eq!(
        lex("( ) let lambda if = + - * / #t #f"),
        vec![
            Token::LeftBrace,
            Token::RightBrace,
            Token::Let,
            Token::Lambda,
            Token::If,
            Token::Equal,
            Token::Add,
            Token::Sub,
            Token::Mul,
            Token::Div,
            Token::True,
            Token::False,
        ]
    );
}

#[test]
fn lexes_integers() {
    assert_eq!(
        lex("0 42 +7 -13 9223372036854775807 -9223372036854775808"),
        vec![
            Token::Int(0),
            Token::Int(42),
            Token::Int(7),
            Token::Int(-13),
            Token::Int(i64::MAX),
            Token::Int(i64::MIN),
        ]
    );
}

#[test]
fn lexes_floats_as_bit_patterns() {
    assert_eq!(
        lex("2.5 -0.5 1e3 5. .5 3.25e-2"),
        vec![
            Token::Float((2.5f64).to_bits()),
            Token::Float((-0.5f64).to_bits()),
            Token::Float((1e3f64).to_bits()),
            Token::Float((5.0f64).to_bits()),
            Token::Float((0.5f64).to_bits()),
            Token::Float((3.25e-2f64).to_bits()),
        ]
    );
}

#[test]
fn integer_overflowing_literal_becomes_float() {
    assert_eq!(
        lex("9223372036854775808"),
        vec![Token::Float((9223372036854775808.0f64).to_bits())]
    );
}

#[test]
fn lexes_infinity_and_nan_spellings() {
    assert_eq!(
        lex("inf -inf INF Infinity -infinity"),
        vec![
            Token::Float(f64::INFINITY.to_bits()),
            Token::Float(f64::NEG_INFINITY.to_bits()),
            Token::Float(f64::INFINITY.to_bits()),
            Token::Float(f64::INFINITY.to_bits()),
            Token::Float(f64::NEG_INFINITY.to_bits()),
        ]
    );
    let nan_tokens = lex("nan -NaN");
    assert_eq!(nan_tokens[0], Token::Float(0x7FF8_0000_0000_0000));
    assert_eq!(nan_tokens[1], Token::Float(0xFFF8_0000_0000_0000));
    if let Token::Float(b) = nan_tokens[0] {
        assert!(f64::from_bits(b).is_nan());
    } else {
        panic!("expected a float token");
    }
}

#[test]
fn lexing_is_total_on_arbitrary_words() {
    // No input is rejected: unclassifiable words become identifiers.
    assert_eq!(
        lex("@@ 1.2.3 1e x25 #true - able"),
        vec![
            Token::Variable("@@".to_string()),
            Token::Variable("1.2.3".to_string()),
            Token::Variable("1e".to_string()),
            Token::Variable("x25".to_string()),
            Token::Variable("#true".to_string()),
            Token::Sub,
            Token::Variable("able".to_string()),
        ]
    );
    assert_eq!(lex(""), Vec::<Token>::new());
    assert_eq!(
        lex("((("),
        vec![Token::LeftBrace, Token::LeftBrace, Token::LeftBrace]
    );
}

#[test]
fn reserved_words_never_become_identifiers() {
    // A word spelled like a keyword is always the keyword token.
    assert_eq!(lex("let"), vec![Token::Let]);
    assert_eq!(lex("lambda"), vec![Token::Lambda]);
    assert_eq!(lex("letx"), vec![Token::Variable("letx".to_string())]);
}
