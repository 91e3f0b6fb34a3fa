use calculator::error::CalcError;
use calculator::expression::error::ParseError;
use calculator::expression::token::error::TokenError;
use calculator::expression::token::Token;
use calculator::expression::{build_expression_tree, parse_expr, Expression};

//// build_expression_tree ////

#[test]
fn build_expression_tree_add() {
    let mut tokens = vec![Token::Number(1), Token::Number(2), Token::Plus];

    let result = build_expression_tree(&mut tokens);

    let expr = result.expect("Test returns Err().");
    assert_eq!(
        expr,
        Expression::new_box_add(Expression::new_box_number(1), Expression::new_box_number(2))
    );
}

#[test]
fn build_expression_tree_add_mult_pow() {
    let mut tokens = vec![
        Token::Number(1),
        Token::Number(2),
        Token::Plus,
        Token::Number(3),
        Token::Asterisk,
        Token::Number(4),
        Token::Hat,
    ];

    let result = build_expression_tree(&mut tokens);

    let expr = result.expect("Test returns Err().");
    assert_eq!(
        expr,
        Expression::new_box_pow(
            Expression::new_box_mult(
                Expression::new_box_add(Expression::new_box_number(1), Expression::new_box_number(2)),
                Expression::new_box_number(3),
            ),
            Expression::new_box_number(4),
        )
    );
}

#[test]
fn build_expression_tree_sub_div_mod() {
    let mut tokens = vec![
        Token::Number(1),
        Token::Number(2),
        Token::Hyphen,
        Token::Number(3),
        Token::Slash,
        Token::Number(4),
        Token::Percent,
    ];

    let result = build_expression_tree(&mut tokens);

    let expr = result.expect("Test returns Err().");
    assert_eq!(
        expr,
        Expression::new_box_mod(
            Expression::new_box_div(
                Expression::new_box_sub(Expression::new_box_number(1), Expression::new_box_number(2)),
                Expression::new_box_number(3),
            ),
            Expression::new_box_number(4),
        )
    );
}

#[test]
fn build_expression_tree_fail_no_number() {
    let mut tokens = vec![Token::Number(1), Token::Plus];

    let result = build_expression_tree(&mut tokens);

    let expr = result.expect_err("Test should returns Err().");
    match expr {
        ParseError::NoToken(_) => return,
        e => panic!("Unexcepted error: {:?}", e),
    }
}

//// more of the tree builder ////

#[test]
fn build_expression_tree_takes_tokens_from_the_end() {
    let mut tokens = vec![
        Token::Number(9),
        Token::Plus,
        Token::Number(1),
        Token::Number(2),
        Token::Hyphen,
    ];

    let expr = build_expression_tree(&mut tokens).expect("Test returns Err().");

    assert_eq!(
        expr,
        Expression::new_box_sub(Expression::new_box_number(1), Expression::new_box_number(2))
    );
    assert_eq!(tokens, vec![Token::Number(9), Token::Plus]);
}

#[test]
fn build_expression_tree_right_operand_is_read_first() {
    let mut tokens = vec![
        Token::Number(1),
        Token::Number(2),
        Token::Number(3),
        Token::Asterisk,
        Token::Plus,
    ];

    let expr = build_expression_tree(&mut tokens).expect("Test returns Err().");

    assert_eq!(
        expr,
        Expression::new_box_add(
            Expression::new_box_number(1),
            Expression::new_box_mult(Expression::new_box_number(2), Expression::new_box_number(3)),
        )
    );
    assert!(tokens.is_empty());
}

#[test]
fn build_expression_tree_empty_input_is_no_token() {
    let mut tokens: Vec<Token> = vec![];
    let err = build_expression_tree(&mut tokens).expect_err("no tokens");
    match &err {
        ParseError::NoToken(_) => (),
        e => panic!("Unexpected error: {:?}", e),
    }
    assert_eq!(err.get_message(), "式の途中でトークンが無くなりました。");
}

#[test]
fn build_expression_tree_failure_leaves_no_token() {
    let mut tokens = vec![Token::Number(1), Token::Asterisk, Token::Slash];
    let err = build_expression_tree(&mut tokens).expect_err("too few operands");
    match err {
        ParseError::NoToken(_) => (),
        e => panic!("Unexpected error: {:?}", e),
    }
    assert!(tokens.is_empty());
}

#[test]
fn build_expression_tree_parenthesis_is_mismatch_paren() {
    let mut tokens = vec![Token::Number(1), Token::OpenParen];
    let err = build_expression_tree(&mut tokens).expect_err("a parenthesis");
    match err {
        ParseError::MismatchParen(_) => (),
        e => panic!("Unexpected error: {:?}", e),
    }
    assert_eq!(tokens, vec![Token::Number(1)]);

    let mut tokens = vec![
        Token::Number(1),
        Token::CloseParen,
        Token::Number(2),
        Token::Plus,
    ];
    let err = build_expression_tree(&mut tokens).expect_err("a parenthesis");
    match err {
        ParseError::MismatchParen(_) => (),
        e => panic!("Unexpected error: {:?}", e),
    }
    assert_eq!(tokens, vec![Token::Number(1)]);
}

#[test]
fn expression_box_constructors() {
    assert_eq!(*Expression::new_box_number(5), Expression::Number(5));
    let one = || Expression::new_box_number(1);
    let two = || Expression::new_box_number(2);
    assert_eq!(*Expression::new_box_add(one(), two()), Expression::Add(one(), two()));
    assert_eq!(*Expression::new_box_sub(one(), two()), Expression::Sub(one(), two()));
    assert_eq!(*Expression::new_box_mult(one(), two()), Expression::Mult(one(), two()));
    assert_eq!(*Expression::new_box_div(one(), two()), Expression::Div(one(), two()));
    assert_eq!(*Expression::new_box_mod(one(), two()), Expression::Mod(one(), two()));
    assert_eq!(*Expression::new_box_pow(one(), two()), Expression::Pow(one(), two()));
    assert_ne!(*Expression::new_box_add(one(), two()), Expression::Add(two(), one()));
}

//// parse_expr ////

#[test]
fn parse_expr_precedence() {
    let expr = parse_expr("1 + 2 * 3").expect("Test returns Err().");
    assert_eq!(
        expr,
        Expression::Add(
            Expression::new_box_number(1),
            Expression::new_box_mult(Expression::new_box_number(2), Expression::new_box_number(3)),
        )
    );
}

#[test]
fn parse_expr_parens_override_precedence() {
    let expr = parse_expr("(1 + 2) * 3").expect("Test returns Err().");
    assert_eq!(
        expr,
        Expression::Mult(
            Expression::new_box_add(Expression::new_box_number(1), Expression::new_box_number(2)),
            Expression::new_box_number(3),
        )
    );
}

#[test]
fn parse_expr_single_number() {
    assert_eq!(parse_expr(" 42 ").expect("Test returns Err()."), Expression::Number(42));
    assert_eq!(parse_expr("(-42)").expect("Test returns Err()."), Expression::Number(-42));
}

#[test]
fn parse_expr_invalid_char_is_token_error() {
    match parse_expr("1 + a") {
        Err(CalcError::Token(TokenError::InvalidChar(_))) => (),
        other => panic!("Unexpected result: {:?}", other),
    }
}

#[test]
fn parse_expr_out_of_range_is_token_error() {
    match parse_expr("99999999999999999999") {
        Err(CalcError::Token(TokenError::OutOfRange(_))) => (),
        other => panic!("Unexpected result: {:?}", other),
    }
}

#[test]
fn parse_expr_mismatched_paren() {
    match parse_expr("(1 + 2") {
        Err(CalcError::Parse(ParseError::MismatchParen(_))) => (),
        other => panic!("Unexpected result: {:?}", other),
    }
    match parse_expr("1 + 2)") {
        Err(CalcError::Parse(ParseError::MismatchParen(_))) => (),
        other => panic!("Unexpected result: {:?}", other),
    }
}

#[test]
fn parse_expr_missing_operand_is_no_token() {
    match parse_expr("1 +") {
        Err(CalcError::Parse(ParseError::NoToken(_))) => (),
        other => panic!("Unexpected result: {:?}", other),
    }
    match parse_expr("") {
        Err(CalcError::Parse(ParseError::NoToken(_))) => (),
        other => panic!("Unexpected result: {:?}", other),
    }
}

#[test]
fn parse_expr_extra_tokens_is_too_much_token() {
    match parse_expr("1 2") {
        Err(CalcError::Parse(ParseError::TooMuchToken(e))) => {
            assert_eq!(e, "トークンが多すぎます。")
        }
        other => panic!("Unexpected result: {:?}", other),
    }
    match parse_expr("1 2 + 3") {
        Err(CalcError::Parse(ParseError::TooMuchToken(_))) => (),
        other => panic!("Unexpected result: {:?}", other),
    }
}

#[test]
fn parse_error_constructors_keep_the_message() {
    let err = ParseError::mismatch_paren("a");
    match &err {
        ParseError::MismatchParen(_) => (),
        e => panic!("Unexpected error: {:?}", e),
    }
    assert_eq!(err.get_message(), "a");
    let err = ParseError::no_token("b");
    match &err {
        ParseError::NoToken(_) => (),
        e => panic!("Unexpected error: {:?}", e),
    }
    assert_eq!(err.get_message(), "b");
    let err = ParseError::too_much_token("c");
    match &err {
        ParseError::TooMuchToken(_) => (),
        e => panic!("Unexpected error: {:?}", e),
    }
    assert_eq!(err.get_message(), "c");
}

#[test]
fn calc_error_from_stage_errors() {
    match CalcError::from(TokenError::new_invalid_char(0, "?")) {
        CalcError::Token(TokenError::InvalidChar(_)) => (),
        e => panic!("Unexpected error: {:?}", e),
    }
    match CalcError::from(ParseError::no_token("x")) {
        CalcError::Parse(ParseError::NoToken(_)) => (),
        e => panic!("Unexpected error: {:?}", e),
    }
}
