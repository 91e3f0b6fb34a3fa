use calculator::expression::error::ParseError;
use calculator::expression::shunting_yard::shunting_yard;
use calculator::expression::token::Token;

//// shunting_yard ////

#[test]
fn shunting_yard_one_number() {
    let result = shunting_yard(vec![Token::Number(1)]);

    let tokens = result.expect("Test returns Err().");
    assert_eq!(tokens, vec![Token::Number(1)]);
}

#[test]
fn shunting_yard_add() {
    let result = shunting_yard(vec![Token::Number(1), Token::Plus, Token::Number(2)]);

    let tokens = result.expect("Test returns Err().");
    assert_eq!(
        tokens,
        vec![Token::Number(1), Token::Number(2), Token::Plus]
    );
}

#[test]
fn shunting_yard_add_mul_pow() {
    let result = shunting_yard(vec![
        Token::Number(1),
        Token::Plus,
        Token::Number(2),
        Token::Asterisk,
        Token::Number(3),
        Token::Hat,
        Token::Number(4),
    ]);

    let tokens = result.expect("Test returns Err().");
    assert_eq!(
        tokens,
        vec![
            Token::Number(1),
            Token::Number(2),
            Token::Number(3),
            Token::Number(4),
            Token::Hat,
            Token::Asterisk,
            Token::Plus,
        ]
    );
}

#[test]
fn shunting_yard_sub_div_mod() {
    let result = shunting_yard(vec![
        Token::Number(1),
        Token::Hyphen,
        Token::Number(2),
        Token::Slash,
        Token::Number(3),
        Token::Percent,
        Token::Number(4),
    ]);

    let tokens = result.expect("Test returns Err().");
    assert_eq!(
        tokens,
        vec![
            Token::Number(1),
            Token::Number(2),
            Token::Number(3),
            Token::Slash,
            Token::Number(4),
            Token::Percent,
            Token::Hyphen,
        ]
    );
}

#[test]
fn shunting_yard_paren() {
    let result = shunting_yard(vec![
        Token::Number(1),
        Token::Asterisk,
        Token::OpenParen,
        Token::Number(2),
        Token::Plus,
        Token::Number(3),
        Token::CloseParen,
    ]);

    let tokens = result.expect("Test returns Err().");
    assert_eq!(
        tokens,
        vec![
            Token::Number(1),
            Token::Number(2),
            Token::Number(3),
            Token::Plus,
            Token::Asterisk,
        ]
    );
}

//// more of the reorderer ////

fn is_mismatch(result: Result<Vec<Token>, ParseError>) -> bool {
    match result {
        Err(ParseError::MismatchParen(_)) => true,
        _ => false,
    }
}

#[test]
fn shunting_yard_empty_input() {
    let tokens = shunting_yard(vec![]).expect("Test returns Err().");
    assert_eq!(tokens, vec![]);
}

#[test]
fn shunting_yard_equal_priority_groups_left() {
    let tokens = shunting_yard(vec![
        Token::Number(1),
        Token::Hyphen,
        Token::Number(2),
        Token::Plus,
        Token::Number(3),
    ])
    .expect("Test returns Err().");
    assert_eq!(
        tokens,
        vec![
            Token::Number(1),
            Token::Number(2),
            Token::Hyphen,
            Token::Number(3),
            Token::Plus,
        ]
    );
}

#[test]
fn shunting_yard_hat_groups_left() {
    let tokens = shunting_yard(vec![
        Token::Number(2),
        Token::Hat,
        Token::Number(3),
        Token::Hat,
        Token::Number(2),
    ])
    .expect("Test returns Err().");
    assert_eq!(
        tokens,
        vec![
            Token::Number(2),
            Token::Number(3),
            Token::Hat,
            Token::Number(2),
            Token::Hat,
        ]
    );
}

#[test]
fn shunting_yard_percent_binds_looser_than_asterisk() {
    let tokens = shunting_yard(vec![
        Token::Number(7),
        Token::Percent,
        Token::Number(3),
        Token::Asterisk,
        Token::Number(4),
    ])
    .expect("Test returns Err().");
    assert_eq!(
        tokens,
        vec![
            Token::Number(7),
            Token::Number(3),
            Token::Number(4),
            Token::Asterisk,
            Token::Percent,
        ]
    );
}

#[test]
fn shunting_yard_nested_parens() {
    let tokens = shunting_yard(vec![
        Token::OpenParen,
        Token::OpenParen,
        Token::Number(1),
        Token::Plus,
        Token::Number(2),
        Token::CloseParen,
        Token::Asterisk,
        Token::Number(3),
        Token::CloseParen,
        Token::Hyphen,
        Token::Number(4),
    ])
    .expect("Test returns Err().");
    assert_eq!(
        tokens,
        vec![
            Token::Number(1),
            Token::Number(2),
            Token::Plus,
            Token::Number(3),
            Token::Asterisk,
            Token::Number(4),
            Token::Hyphen,
        ]
    );
}

#[test]
fn shunting_yard_balanced_input_leaves_no_paren() {
    let tokens = shunting_yard(vec![
        Token::OpenParen,
        Token::Number(1),
        Token::CloseParen,
        Token::Plus,
        Token::OpenParen,
        Token::OpenParen,
        Token::Number(2),
        Token::CloseParen,
        Token::CloseParen,
        Token::OpenParen,
        Token::CloseParen,
    ])
    .expect("Test returns Err().");
    assert!(tokens
        .iter()
        .all(|t| *t != Token::OpenParen && *t != Token::CloseParen));
    assert_eq!(tokens, vec![Token::Number(1), Token::Number(2), Token::Plus]);
}

#[test]
fn shunting_yard_unopened_paren_fails() {
    assert!(is_mismatch(shunting_yard(vec![Token::CloseParen])));
    assert!(is_mismatch(shunting_yard(vec![
        Token::Number(1),
        Token::Plus,
        Token::Number(2),
        Token::CloseParen,
    ])));
    assert!(is_mismatch(shunting_yard(vec![
        Token::CloseParen,
        Token::OpenParen,
    ])));
}

#[test]
fn shunting_yard_unclosed_paren_fails() {
    assert!(is_mismatch(shunting_yard(vec![Token::OpenParen])));
    assert!(is_mismatch(shunting_yard(vec![
        Token::OpenParen,
        Token::Number(1),
        Token::Plus,
        Token::Number(2),
    ])));
    assert!(is_mismatch(shunting_yard(vec![
        Token::OpenParen,
        Token::OpenParen,
        Token::Number(1),
        Token::CloseParen,
    ])));
}

#[test]
fn shunting_yard_mismatch_message() {
    let err = shunting_yard(vec![Token::OpenParen]).expect_err("an open parenthesis");
    assert_eq!(err.get_message(), "括弧の対応が取れていません。");
}
