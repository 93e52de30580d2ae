use minigames::calc::{BinOp, Calculator, Key};

fn press(c: &mut Calculator, keys: &[Key]) {
    for k in keys {
        c.handle_key(*k);
    }
}

#[test]
fn one_plus_two_equals_three() {
    let mut c = Calculator::new();
    press(
        &mut c,
        &[Key::Digit(1), Key::Operator(BinOp::Add), Key::Digit(2), Key::Equals],
    );
    assert_eq!(c.display_string(), "3");
}

#[test]
fn divide_by_zero_chains_to_zero_and_stores_operator() {
    let mut c = Calculator::new();
    press(
        &mut c,
        &[
            Key::Digit(5),
            Key::Operator(BinOp::Divide),
            Key::Digit(0),
            Key::Operator(BinOp::Add),
        ],
    );
    assert_eq!(c.display_string(), "0");
    assert!(c.operation == Some(BinOp::Add));
    assert!(c.waiting_for_operand);
    press(&mut c, &[Key::Digit(1), Key::Equals]);
    assert_eq!(c.display_string(), "1");
}

#[test]
fn divide_by_zero_on_equals_shows_error() {
    let mut c = Calculator::new();
    press(
        &mut c,
        &[Key::Digit(5), Key::Operator(BinOp::Divide), Key::Digit(0), Key::Equals],
    );
    assert_eq!(c.display_string(), "Error");
    assert!(c.operation == Some(BinOp::Divide));
    assert!(!c.waiting_for_operand);
}

#[test]
fn second_decimal_point_is_ignored() {
    let mut c = Calculator::new();
    press(&mut c, &[Key::Digit(1), Key::Dot, Key::Digit(2), Key::Dot]);
    assert_eq!(c.display_string(), "1.2");
}

#[test]
fn clear_resets_everything() {
    let mut c = Calculator::new();
    press(
        &mut c,
        &[Key::Digit(7), Key::Operator(BinOp::Multiply), Key::Digit(8), Key::Clear],
    );
    assert_eq!(c.display_string(), "0");
    assert!(c.operation.is_none());
    assert!(c.waiting_for_operand);
    assert_eq!(c.previous_value.num, 0);
    assert_eq!(c.previous_value.den, 1);
}

#[test]
fn digits_append_and_leading_zero_is_replaced() {
    let mut c = Calculator::new();
    press(&mut c, &[Key::Digit(0), Key::Digit(0)]);
    assert_eq!(c.display_string(), "0");
    press(&mut c, &[Key::Digit(4), Key::Digit(2)]);
    assert_eq!(c.display_string(), "42");
}

#[test]
fn dot_while_waiting_starts_zero_point() {
    let mut c = Calculator::new();
    press(&mut c, &[Key::Dot, Key::Digit(5)]);
    assert_eq!(c.display_string(), "0.5");
}

#[test]
fn decimal_addition_is_exact() {
    let mut c = Calculator::new();
    press(
        &mut c,
        &[
            Key::Digit(0),
            Key::Dot,
            Key::Digit(1),
            Key::Operator(BinOp::Add),
            Key::Digit(0),
            Key::Dot,
            Key::Digit(2),
            Key::Equals,
        ],
    );
    assert_eq!(c.display_string(), "0.3");
}

#[test]
fn subtraction_below_zero() {
    let mut c = Calculator::new();
    press(
        &mut c,
        &[Key::Digit(1), Key::Operator(BinOp::Subtract), Key::Digit(2), Key::Equals],
    );
    assert_eq!(c.display_string(), "-1");
}

#[test]
fn multiplication_with_fraction() {
    let mut c = Calculator::new();
    press(
        &mut c,
        &[
            Key::Digit(1),
            Key::Dot,
            Key::Digit(5),
            Key::Operator(BinOp::Multiply),
            Key::Digit(2),
            Key::Equals,
        ],
    );
    assert_eq!(c.display_string(), "3");
}

#[test]
fn division_with_fractional_result() {
    let mut c = Calculator::new();
    press(
        &mut c,
        &[Key::Digit(5), Key::Operator(BinOp::Divide), Key::Digit(2), Key::Equals],
    );
    assert_eq!(c.display_string(), "2.5");
}

#[test]
fn division_truncates_to_fifteen_digits() {
    let mut c = Calculator::new();
    press(
        &mut c,
        &[Key::Digit(1), Key::Operator(BinOp::Divide), Key::Digit(3), Key::Equals],
    );
    assert_eq!(c.display_string(), "0.333333333333333");
}

#[test]
fn chained_operators_accumulate_one_deep() {
    let mut c = Calculator::new();
    press(
        &mut c,
        &[
            Key::Digit(1),
            Key::Operator(BinOp::Add),
            Key::Digit(2),
            Key::Operator(BinOp::Multiply),
        ],
    );
    // The pending addition is evaluated when the next operator arrives.
    assert_eq!(c.display_string(), "3");
    press(&mut c, &[Key::Digit(4), Key::Equals]);
    assert_eq!(c.display_string(), "12");
}

#[test]
fn negate_flips_sign() {
    let mut c = Calculator::new();
    press(&mut c, &[Key::Digit(5), Key::Negate]);
    assert_eq!(c.display_string(), "-5");
    press(&mut c, &[Key::Negate]);
    assert_eq!(c.display_string(), "5");
}

#[test]
fn negate_leaves_error_display_alone() {
    let mut c = Calculator::new();
    press(
        &mut c,
        &[Key::Digit(5), Key::Operator(BinOp::Divide), Key::Digit(0), Key::Equals],
    );
    press(&mut c, &[Key::Negate]);
    assert_eq!(c.display_string(), "Error");
}

#[test]
fn percent_divides_by_one_hundred() {
    let mut c = Calculator::new();
    press(&mut c, &[Key::Digit(5), Key::Digit(0), Key::Percent]);
    assert_eq!(c.display_string(), "0.5");
}

#[test]
fn equals_right_after_operator_reuses_display() {
    let mut c = Calculator::new();
    press(&mut c, &[Key::Digit(1), Key::Operator(BinOp::Add), Key::Equals]);
    assert_eq!(c.display_string(), "2");
}

#[test]
fn digit_after_error_appends() {
    // After a bare division by zero the display is not reset, so the next
    // digit appends to the error text, as the display editor always does.
    let mut c = Calculator::new();
    press(
        &mut c,
        &[Key::Digit(5), Key::Operator(BinOp::Divide), Key::Digit(0), Key::Equals],
    );
    press(&mut c, &[Key::Digit(1)]);
    assert_eq!(c.display_string(), "Error1");
}

#[test]
fn trailing_decimal_point_reads_as_integer() {
    let mut c = Calculator::new();
    press(
        &mut c,
        &[Key::Digit(1), Key::Dot, Key::Operator(BinOp::Add), Key::Digit(1), Key::Equals],
    );
    assert_eq!(c.display_string(), "2");
}

#[test]
fn fraction_display_drops_trailing_zeros() {
    let mut c = Calculator::new();
    press(
        &mut c,
        &[
            Key::Digit(1),
            Key::Dot,
            Key::Digit(2),
            Key::Digit(5),
            Key::Operator(BinOp::Add),
            Key::Digit(1),
            Key::Dot,
            Key::Digit(2),
            Key::Digit(5),
            Key::Equals,
        ],
    );
    assert_eq!(c.display_string(), "2.5");
}
