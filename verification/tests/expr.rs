use scalex::expr::{parse_op, ScaleOp};

fn test_expr(i: i32, xform: &str, expected: Option<i32>) {
    let actual = parse_op(xform).map(|scale| scale.apply(i));
    assert_eq!(actual, expected);
}

#[test]
fn test_parse_op() {
    test_expr(10, "+100%", Some(20));
    test_expr(10, "-100%", Some(0));
    test_expr(40, "50%", Some(60));

    test_expr(10, "hello", None);
    test_expr(10, "3", Some(13));
    test_expr(10, "+5", Some(15));
    test_expr(10, "-6", Some(4));
}

#[test]
fn percent_is_exact_floor() {
    // floor(x * (100 - 50) / 100) on a negative count rounds toward
    // negative infinity, matching the documented multiply-then-floor order.
    test_expr(-3, "-50%", Some(-2));
    test_expr(3, "-50%", Some(1));
    test_expr(42, "-100%", Some(0));
    test_expr(1, "+33%", Some(1));
    test_expr(100, "+33%", Some(133));
}

#[test]
fn percent_accepts_decimal_magnitudes() {
    test_expr(80, "12.5%", Some(90));
    test_expr(1000, "+0.5%", Some(1005));
    test_expr(1000, "-0.5%", Some(995));
    // A trailing decimal point means a zero fractional part, and a leading
    // one a zero integer part.
    test_expr(40, "5.%", Some(42));
    test_expr(1000, ".5%", Some(1005));
}

#[test]
fn non_matches_are_silent() {
    test_expr(10, "", None);
    test_expr(10, "+", None);
    test_expr(10, "-", None);
    test_expr(10, "%", None);
    test_expr(10, "+%", None);
    test_expr(10, ".%", None);
    test_expr(10, "5.5", None);
    test_expr(10, "--3", None);
    test_expr(10, "1e3", None);
    test_expr(10, "2147483648", None);
}

#[test]
fn additive_saturates_at_i32_bounds() {
    test_expr(2147483647, "+2147483647", Some(2147483647));
    test_expr(-2147483648, "-2147483647", Some(-2147483648));
    test_expr(2147483647, "-1", Some(2147483646));
}

#[test]
fn evaluation_is_pure() {
    let op = parse_op("+50%").unwrap();
    assert_eq!(op.apply(10), op.apply(10));
    assert_eq!(op.apply(10), 15);
    let op2 = parse_op("+50%").unwrap();
    assert_eq!(op, op2);
}

#[test]
fn absolute_ignores_current_count() {
    let op = ScaleOp::Absolute(7);
    assert_eq!(op.apply(3), 7);
    assert_eq!(op.apply(0), 7);
    assert_eq!(op.apply(-100), 7);
    assert_eq!(op.apply(2147483647), 7);
}

#[test]
fn relative_and_percent_shapes() {
    assert_eq!(parse_op("-2"), Some(ScaleOp::Relative(-2)));
    assert_eq!(parse_op("+2"), Some(ScaleOp::Relative(2)));
    assert_eq!(parse_op("2"), Some(ScaleOp::Relative(2)));
    assert_eq!(parse_op("+50%"), Some(ScaleOp::Percent { num: 150, den: 100 }));
    assert_eq!(parse_op("-50%"), Some(ScaleOp::Percent { num: 50, den: 100 }));
    assert_eq!(parse_op("12.5%"), Some(ScaleOp::Percent { num: 1125, den: 1000 }));
}
