use calculator::error::CalcError;
use calculator::execute::error::ExecuteError;
use calculator::execute::{execute, power};
use calculator::expression::error::ParseError;
use calculator::expression::token::error::TokenError;
use calculator::expression::Expression;
use calculator::calculate;

fn num(n: i64) -> Box<Expression> {
    Expression::new_box_number(n)
}

fn value(expr: Expression) -> i64 {
    execute(expr).expect("a value")
}

fn is_zero_div(r: Result<i64, ExecuteError>) -> bool {
    match r {
        Err(ExecuteError::ZeroDiv(_)) => true,
        _ => false,
    }
}

fn is_out_of_def(r: Result<i64, ExecuteError>) -> bool {
    match r {
        Err(ExecuteError::OutOfDef(_)) => true,
        _ => false,
    }
}

fn is_overflow(r: Result<i64, ExecuteError>) -> bool {
    match r {
        Err(ExecuteError::Overflow(_)) => true,
        _ => false,
    }
}

//// execute ////

#[test]
fn execute_number() {
    assert_eq!(value(Expression::Number(7)), 7);
    assert_eq!(value(Expression::Number(i64::MIN)), i64::MIN);
}

#[test]
fn execute_add_sub_mult() {
    assert_eq!(value(Expression::Add(num(1), num(2))), 3);
    assert_eq!(value(Expression::Sub(num(1), num(2))), -1);
    assert_eq!(value(Expression::Mult(num(-6), num(7))), -42);
}

#[test]
fn execute_div_rounds_toward_zero() {
    assert_eq!(value(Expression::Div(num(7), num(2))), 3);
    assert_eq!(value(Expression::Div(num(-7), num(2))), -3);
    assert_eq!(value(Expression::Div(num(7), num(-2))), -3);
    assert_eq!(value(Expression::Div(num(-7), num(-2))), 3);
    assert_eq!(value(Expression::Div(num(0), num(-2))), 0);
}

#[test]
fn execute_mod_has_sign_of_dividend() {
    assert_eq!(value(Expression::Mod(num(7), num(2))), 1);
    assert_eq!(value(Expression::Mod(num(-7), num(2))), -1);
    assert_eq!(value(Expression::Mod(num(7), num(-2))), 1);
    assert_eq!(value(Expression::Mod(num(-7), num(-2))), -1);
    assert_eq!(value(Expression::Mod(num(6), num(3))), 0);
    assert_eq!(value(Expression::Mod(num(i64::MIN), num(-1))), 0);
    assert_eq!(value(Expression::Mod(num(5), num(-1))), 0);
}

#[test]
fn execute_pow() {
    assert_eq!(value(Expression::Pow(num(2), num(10))), 1024);
    assert_eq!(value(Expression::Pow(num(-3), num(3))), -27);
    assert_eq!(value(Expression::Pow(num(5), num(0))), 1);
    assert_eq!(value(Expression::Pow(num(0), num(0))), 1);
    assert_eq!(value(Expression::Pow(num(0), num(5))), 0);
    assert_eq!(value(Expression::Pow(num(2), num(62))), 4611686018427387904);
    assert_eq!(value(Expression::Pow(num(-2), num(63))), i64::MIN);
}

#[test]
fn execute_pow_with_huge_exponent() {
    assert_eq!(value(Expression::Pow(num(1), num(i64::MAX))), 1);
    assert_eq!(value(Expression::Pow(num(0), num(i64::MAX))), 0);
    assert_eq!(value(Expression::Pow(num(-1), num(i64::MAX))), -1);
    assert_eq!(value(Expression::Pow(num(-1), num(i64::MAX - 1))), 1);
    assert_eq!(value(Expression::Pow(num(1), num(4294967296))), 1);
    assert!(is_overflow(execute(Expression::Pow(num(2), num(4294967296)))));
    assert!(is_overflow(execute(Expression::Pow(num(2), num(i64::MAX)))));
}

#[test]
fn execute_zero_div() {
    assert!(is_zero_div(execute(Expression::Div(num(1), num(0)))));
    assert!(is_zero_div(execute(Expression::Mod(num(1), num(0)))));
    let err = execute(Expression::Div(num(1), num(0))).expect_err("a zero divisor");
    assert_eq!(err.get_message(), "ゼロ除算エラー");
}

#[test]
fn execute_negative_exponent_is_out_of_def() {
    assert!(is_out_of_def(execute(Expression::Pow(num(2), num(-1)))));
    let err = execute(Expression::Pow(num(2), num(-1))).expect_err("a negative exponent");
    assert_eq!(err.get_message(), "指数が負です");
}

#[test]
fn execute_overflow() {
    assert!(is_overflow(execute(Expression::Add(num(i64::MAX), num(1)))));
    assert!(is_overflow(execute(Expression::Sub(num(i64::MIN), num(1)))));
    assert!(is_overflow(execute(Expression::Mult(num(i64::MAX), num(2)))));
    assert!(is_overflow(execute(Expression::Div(num(i64::MIN), num(-1)))));
    assert!(is_overflow(execute(Expression::Pow(num(2), num(63)))));
    assert!(is_overflow(execute(Expression::Pow(num(-2), num(64)))));
    assert!(is_overflow(execute(Expression::Pow(num(10), num(19)))));
    let err = execute(Expression::Add(num(i64::MAX), num(1))).expect_err("an overflow");
    assert_eq!(err.get_message(), "演算結果が64ビット整数に収まりません");
}

#[test]
fn execute_at_the_edge_of_the_range() {
    assert_eq!(value(Expression::Add(num(i64::MAX - 1), num(1))), i64::MAX);
    assert_eq!(value(Expression::Sub(num(i64::MIN + 1), num(1))), i64::MIN);
    assert_eq!(value(Expression::Mult(num(i64::MIN), num(1))), i64::MIN);
    assert_eq!(value(Expression::Div(num(i64::MIN), num(1))), i64::MIN);
    assert_eq!(value(Expression::Pow(num(3), num(39))), 4052555153018976267);
}

#[test]
fn execute_divisor_is_evaluated_before_dividend() {
    let overflowing = || Box::new(Expression::Add(num(i64::MAX), num(1)));
    assert!(is_zero_div(execute(Expression::Div(overflowing(), num(0)))));
    assert!(is_zero_div(execute(Expression::Mod(overflowing(), num(0)))));
    assert!(is_out_of_def(execute(Expression::Pow(overflowing(), num(-1)))));
    assert!(is_overflow(execute(Expression::Div(num(1), overflowing()))));
    assert!(is_overflow(execute(Expression::Div(overflowing(), num(1)))));
}

#[test]
fn execute_left_operand_of_a_sum_is_evaluated_first() {
    let zero_div = || Box::new(Expression::Div(num(1), num(0)));
    let out_of_def = || Box::new(Expression::Pow(num(1), num(-1)));
    assert!(is_zero_div(execute(Expression::Add(zero_div(), out_of_def()))));
    assert!(is_out_of_def(execute(Expression::Add(out_of_def(), zero_div()))));
    assert!(is_zero_div(execute(Expression::Sub(zero_div(), out_of_def()))));
    assert!(is_out_of_def(execute(Expression::Mult(out_of_def(), zero_div()))));
}

#[test]
fn power_by_repeated_multiplication() {
    assert_eq!(power(2, 0), Some(1));
    assert_eq!(power(2, 1), Some(2));
    assert_eq!(power(7, 3), Some(343));
    assert_eq!(power(-7, 3), Some(-343));
    assert_eq!(power(-2, 63), Some(i64::MIN));
    assert_eq!(power(2, 63), None);
    assert_eq!(power(-1, u64::MAX), Some(-1));
    assert_eq!(power(i64::MIN, 1), Some(i64::MIN));
    assert_eq!(power(i64::MIN, 2), None);
}

#[test]
fn execute_error_constructor_keeps_the_message() {
    let err = ExecuteError::out_of_def("outside");
    match &err {
        ExecuteError::OutOfDef(_) => (),
        e => panic!("Unexpected error: {:?}", e),
    }
    assert_eq!(err.get_message(), "outside");
}

//// the whole calculation ////

#[test]
fn calculate_one_plus_two() {
    assert_eq!(calculate("1+2").expect("a value"), 3);
}

#[test]
fn calculate_respects_precedence() {
    assert_eq!(calculate("1 + 2 * 3").expect("a value"), 7);
    assert_eq!(calculate("2 * 3 ^ 2").expect("a value"), 18);
    assert_eq!(calculate("2 ^ 3 * 4").expect("a value"), 32);
    assert_eq!(calculate("7 % 3 * 4").expect("a value"), 7);
    assert_eq!(calculate("10 - 4 - 3").expect("a value"), 3);
    assert_eq!(calculate("2 ^ 3 ^ 2").expect("a value"), 64);
    assert_eq!(calculate("100 / 10 / 5").expect("a value"), 2);
}

#[test]
fn calculate_parens_override_precedence() {
    assert_eq!(calculate("(1 + 2) * 3").expect("a value"), 9);
    assert_eq!(calculate("2 ^ (3 ^ 2)").expect("a value"), 512);
    assert_eq!(calculate("((7))").expect("a value"), 7);
}

#[test]
fn calculate_with_negative_literals() {
    assert_eq!(calculate("(-3) * (-4)").expect("a value"), 12);
    assert_eq!(calculate("5-(-5)").expect("a value"), 10);
    assert_eq!(calculate("(-9223372036854775808)").expect("a value"), i64::MIN);
    assert_eq!(calculate("9223372036854775807").expect("a value"), i64::MAX);
}

#[test]
fn calculate_zero_div() {
    match calculate("1 / 0") {
        Err(CalcError::Execute(ExecuteError::ZeroDiv(_))) => (),
        other => panic!("Unexpected result: {:?}", other),
    }
    match calculate("1 % 0") {
        Err(CalcError::Execute(ExecuteError::ZeroDiv(_))) => (),
        other => panic!("Unexpected result: {:?}", other),
    }
}

#[test]
fn calculate_negative_exponent_is_out_of_def() {
    match calculate("2 ^ (-1)") {
        Err(CalcError::Execute(ExecuteError::OutOfDef(_))) => (),
        other => panic!("Unexpected result: {:?}", other),
    }
}

#[test]
fn calculate_hyphen_before_a_number_is_an_operator() {
    match calculate("2 ^ -1") {
        Err(CalcError::Parse(ParseError::NoToken(_))) => (),
        other => panic!("Unexpected result: {:?}", other),
    }
}

#[test]
fn calculate_missing_operand_is_no_token() {
    match calculate("1 +") {
        Err(CalcError::Parse(ParseError::NoToken(_))) => (),
        other => panic!("Unexpected result: {:?}", other),
    }
}

#[test]
fn calculate_extra_tokens_is_too_much_token() {
    match calculate("1 2 + 3") {
        Err(CalcError::Parse(ParseError::TooMuchToken(_))) => (),
        other => panic!("Unexpected result: {:?}", other),
    }
}

#[test]
fn calculate_overflow() {
    match calculate("9223372036854775807 + 1") {
        Err(CalcError::Execute(ExecuteError::Overflow(_))) => (),
        other => panic!("Unexpected result: {:?}", other),
    }
}

#[test]
fn calculate_reports_the_first_stage_that_fails() {
    match calculate("(1 / 0 ?") {
        Err(CalcError::Token(TokenError::InvalidChar(_))) => (),
        other => panic!("Unexpected result: {:?}", other),
    }
    match calculate("(1 / 0") {
        Err(CalcError::Parse(ParseError::MismatchParen(_))) => (),
        other => panic!("Unexpected result: {:?}", other),
    }
}

#[test]
fn calculate_twice_gives_the_same_outcome() {
    let texts = vec!["1+2", "1 / 0", "1 +", "(", "?", "2 ^ 70", "3 * (4 + 5) % 7"];
    for text in texts {
        let first = calculate(text);
        let second = calculate(text);
        assert_eq!(format!("{:?}", first), format!("{:?}", second));
    }
}
