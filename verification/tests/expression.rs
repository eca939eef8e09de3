use corewars::parser::error::ErrorKind;
use corewars::parser::grammar::parse_expression;
use corewars::parser::phase::evaluation::expression::{
    evaluate, evaluate_product, evaluate_sum, evaluate_unary, evaluate_value, Binding, Meaning,
};

fn evaluates_expressions(input: &str) -> i32 {
    let pair = parse_expression(input).expect("Failed to parse as Expression");

    evaluate(&pair, input.as_bytes(), &[], 0).expect("Failed to evaluate")
}

fn fails_with(input: &str) -> (ErrorKind, usize) {
    let pair = parse_expression(input).expect("Failed to parse as Expression");
    let error = evaluate(&pair, input.as_bytes(), &[], 0).expect_err("Should not evaluate");
    (error.kind, error.column)
}

#[test]
fn evaluates_expressions_number() {
    assert_eq!(evaluates_expressions("10"), 10);
}

#[test]
fn evaluates_expressions_negative_number() {
    assert_eq!(evaluates_expressions("-47"), -47);
}

#[test]
fn evaluates_expressions_boolean_not_true() {
    assert_eq!(evaluates_expressions("! 10"), 0);
}

#[test]
fn evaluates_expressions_boolean_not_false() {
    assert_eq!(evaluates_expressions("! 0"), 1);
}

#[test]
fn evaluates_expressions_product() {
    assert_eq!(evaluates_expressions("2 * 3"), 6);
}

#[test]
fn evaluates_expressions_multiple_quotient() {
    assert_eq!(evaluates_expressions("24 / 4 / 2"), 3);
}

#[test]
fn evaluates_expressions_multiple_modulo() {
    assert_eq!(evaluates_expressions("24 % 15 % 6"), 3);
}

#[test]
fn evaluates_expressions_sum() {
    assert_eq!(evaluates_expressions("1 + 1"), 2);
}

#[test]
fn evaluates_expressions_sum_and_product() {
    assert_eq!(evaluates_expressions("1 + 2 * 3"), 7);
}

#[test]
fn evaluates_expressions_parenthesized_number() {
    assert_eq!(evaluates_expressions("(2)"), 2);
}

#[test]
fn evaluates_expressions_parenthesized_product() {
    assert_eq!(evaluates_expressions("(2 * 3)"), 6);
}

#[test]
fn evaluates_expressions_unary_parenthesized_product() {
    assert_eq!(evaluates_expressions("-(2 * 3)"), -6);
}

#[test]
fn evaluates_expressions_parenthesized_sum() {
    assert_eq!(evaluates_expressions("(2 + 3)"), 5);
}

#[test]
fn evaluates_expressions_less_than() {
    assert_eq!(evaluates_expressions("1 < 2"), 1);
}

#[test]
fn evaluates_expressions_less_than_or_equal() {
    assert_eq!(evaluates_expressions("1 <= 2"), 1);
}

#[test]
fn evaluates_expressions_greater_than() {
    assert_eq!(evaluates_expressions("1 > 2"), 0);
}

#[test]
fn evaluates_expressions_greater_than_or_equal() {
    assert_eq!(evaluates_expressions("1 >= 2"), 0);
}

#[test]
fn evaluates_expressions_equals() {
    assert_eq!(evaluates_expressions("1 == 2"), 0);
}

#[test]
fn evaluates_expressions_not_equals() {
    assert_eq!(evaluates_expressions("1 != 2"), 1);
}

#[test]
fn evaluates_expressions_boolean_and() {
    assert_eq!(evaluates_expressions("0 && 1"), 0);
}

#[test]
fn evaluates_expressions_boolean_or() {
    assert_eq!(evaluates_expressions("0 || 1"), 1);
}

#[test]
fn division_truncates_toward_zero() {
    assert_eq!(evaluates_expressions("7 / 2"), 3);
    assert_eq!(evaluates_expressions("-7 / 2"), -3);
    assert_eq!(evaluates_expressions("7 / -2"), -3);
    assert_eq!(evaluates_expressions("-7 / -2"), 3);
    assert_eq!(evaluates_expressions("7 % 3"), 1);
    assert_eq!(evaluates_expressions("-7 % 3"), -1);
    assert_eq!(evaluates_expressions("7 % -3"), 1);
    assert_eq!(evaluates_expressions("-7 % -3"), -1);
}

#[test]
fn arithmetic_wraps_around() {
    assert_eq!(evaluates_expressions("2147483647 + 1"), i32::MIN);
    assert_eq!(evaluates_expressions("-2147483647 - 2"), i32::MAX);
    assert_eq!(evaluates_expressions("65536 * 65536"), 0);
    assert_eq!(evaluates_expressions("65536 * 32768"), i32::MIN);
    assert_eq!(evaluates_expressions("(-2147483647 - 1) / -1"), i32::MIN);
    assert_eq!(evaluates_expressions("(-2147483647 - 1) % -1"), 0);
    assert_eq!(evaluates_expressions("-(-2147483647 - 1)"), i32::MIN);
}

#[test]
fn comparisons_and_booleans_give_one_or_zero() {
    assert_eq!(evaluates_expressions("5 && 7"), 1);
    assert_eq!(evaluates_expressions("5 || 0"), 1);
    assert_eq!(evaluates_expressions("0 || 0"), 0);
    assert_eq!(evaluates_expressions("2 >= 2"), 1);
    assert_eq!(evaluates_expressions("2 <= 2"), 1);
    assert_eq!(evaluates_expressions("3 == 3"), 1);
    assert_eq!(evaluates_expressions("3 != 3"), 0);
    assert_eq!(evaluates_expressions("1 < 2 == 1"), 1);
    assert_eq!(evaluates_expressions("1 + 1 < 3 && 2 * 2 > 3"), 1);
}

#[test]
fn booleans_leave_the_right_side_alone_where_the_left_decides() {
    assert_eq!(evaluates_expressions("0 && 1 / 0"), 0);
    assert_eq!(evaluates_expressions("3 || 1 / 0"), 1);
    assert_eq!(evaluates_expressions("0 && nowhere"), 0);
    assert_eq!(fails_with("1 && 1 / 0"), (ErrorKind::DivisionByZero, 7));
    assert_eq!(fails_with("0 || 1 % 0"), (ErrorKind::DivisionByZero, 7));
}

#[test]
fn signs_are_applied_first_to_last() {
    assert_eq!(evaluates_expressions("+5"), 5);
    assert_eq!(evaluates_expressions("--5"), 5);
    assert_eq!(evaluates_expressions("!!5"), 1);
    // for the first sign, the minus, 0 stays 0; the second makes 1 of it
    assert_eq!(evaluates_expressions("-!0"), 1);
    assert_eq!(evaluates_expressions("!-0"), -1);
    assert_eq!(evaluates_expressions("- + ! 7"), 0);
}

#[test]
fn evaluation_errors_name_the_place() {
    assert_eq!(fails_with("1 / 0"), (ErrorKind::DivisionByZero, 2));
    assert_eq!(fails_with("1 + 5 % (2 - 2)"), (ErrorKind::DivisionByZero, 6));
    assert_eq!(fails_with("2 * unknown"), (ErrorKind::UnknownLabel, 4));
    assert_eq!(fails_with("2147483648"), (ErrorKind::NumberTooLarge, 0));
    assert_eq!(fails_with("1 + 99999999999"), (ErrorKind::NumberTooLarge, 4));
    assert_eq!(evaluates_expressions("2147483647"), i32::MAX);
    assert_eq!(evaluates_expressions("0000000000000000012"), 12);
}

fn names() -> Vec<Binding> {
    vec![
        Binding {
            name: b"x".to_vec(),
            meaning: Meaning::Constant(3),
        },
        Binding {
            name: b"here".to_vec(),
            meaning: Meaning::CurrentLine,
        },
        Binding {
            name: b"target".to_vec(),
            meaning: Meaning::Address(10),
        },
        Binding {
            name: b"x".to_vec(),
            meaning: Meaning::Constant(4),
        },
    ]
}

fn with_names(input: &str, line: i32) -> i32 {
    let pair = parse_expression(input).expect("Failed to parse as Expression");
    evaluate(&pair, input.as_bytes(), &names(), line).expect("Failed to evaluate")
}

#[test]
fn names_stand_for_their_meaning() {
    // the last binding of a name decides
    assert_eq!(with_names("x", 0), 4);
    assert_eq!(with_names("2*(x + 1)", 0), 10);
    assert_eq!(with_names("x >= 2 || x < 0", 0), 1);
    assert_eq!(with_names("here", 7), 7);
    // an address is the distance from the line
    assert_eq!(with_names("target", 0), 10);
    assert_eq!(with_names("target", 7), 3);
    assert_eq!(with_names("target", 12), -2);
    assert_eq!(with_names("target + here", 12), 10);
    // names are told apart by case
    let pair = parse_expression("X").unwrap();
    let error = evaluate(&pair, b"X", &names(), 0).unwrap_err();
    assert_eq!(error.kind, ErrorKind::UnknownLabel);
}

#[test]
fn each_level_has_its_own_function() {
    let input = "2 * 3 + 4 < 11";
    let expression = parse_expression(input).unwrap();
    let value = &expression.inner[0];
    let sum = &value.inner[0];
    let product = &sum.inner[0];
    let unary = &product.inner[0];
    let s = input.as_bytes();
    assert_eq!(evaluate_value(value, s, &[], 0).unwrap(), 1);
    assert_eq!(evaluate_sum(sum, s, &[], 0).unwrap(), 10);
    assert_eq!(evaluate_product(product, s, &[], 0).unwrap(), 6);
    assert_eq!(evaluate_unary(unary, s, &[], 0).unwrap(), 2);
    // a tree of another level is refused
    assert_eq!(
        evaluate_sum(product, s, &[], 0).unwrap_err().kind,
        ErrorKind::Malformed
    );
    assert_eq!(
        evaluate(value, s, &[], 0).unwrap_err().kind,
        ErrorKind::Malformed
    );
}
