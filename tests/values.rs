use mvt_wrangler::coords::format_tile_coord;
use mvt_wrangler::executor::ExpressionExecutor;
use mvt_wrangler::mvt::{FloatValue, TagValue};
use mvt_wrangler::operator::Operator;
use mvt_wrangler::value::ExpressionValue;
use std::cmp::Ordering;

#[test]
fn test_validate_operators() {
    assert!(Operator::from_str("==").is_ok());
    assert!(Operator::from_str("in").is_ok());
    assert!(Operator::from_str("starts-with").is_ok());
    assert!(Operator::from_str("type").is_ok());
    assert!(Operator::from_str("invalid-op").is_err());
}

#[test]
fn test_expression_value_conversions() {
    let val = ExpressionValue::String("test".to_string());
    assert_eq!(val.to_string(), "test");
    assert!(val.to_bool());

    let val = ExpressionValue::Number(0);
    assert!(!val.to_bool());

    let val = ExpressionValue::Boolean(true);
    assert!(val.to_bool());
}

#[test]
fn operator_spellings() {
    assert_eq!(Operator::from_str("not"), Ok(Operator::Not));
    assert_eq!(Operator::from_str("!"), Ok(Operator::Not));
    assert_eq!(Operator::from_str("none"), Ok(Operator::NoneOf));
    assert!(Operator::from_str("$type").is_err());
    assert!(Operator::from_str("ANY").is_err());
}

#[test]
fn truthiness_of_each_kind() {
    assert!(!ExpressionValue::String(String::new()).to_bool());
    assert!(ExpressionValue::Number(-3).to_bool());
    assert!(!ExpressionValue::Float("0".to_string()).to_bool());
    assert!(!ExpressionValue::Float("0.0".to_string()).to_bool());
    assert!(ExpressionValue::Float("0.5".to_string()).to_bool());
    assert!(!ExpressionValue::Null.to_bool());
    assert!(!ExpressionValue::Array(vec![]).to_bool());
    assert!(ExpressionValue::Array(vec![ExpressionValue::Null]).to_bool());
}

#[test]
fn rendering_of_each_kind() {
    assert_eq!(ExpressionValue::Number(-42).to_string(), "-42");
    assert_eq!(ExpressionValue::Number(i64::MIN).to_string(), i64::MIN.to_string());
    assert_eq!(ExpressionValue::Boolean(false).to_string(), "false");
    assert_eq!(ExpressionValue::Null.to_string(), "null");
    let arr = ExpressionValue::Array(vec![
        ExpressionValue::Number(1),
        ExpressionValue::String("a".to_string()),
        ExpressionValue::Array(vec![]),
    ]);
    assert_eq!(arr.to_string(), "[1, a, []]");
}

#[test]
fn value_equality_is_by_kind_and_payload() {
    let a = ExpressionValue::Number(1);
    let b = ExpressionValue::Float("1".to_string());
    assert_ne!(a, b);
    assert_eq!(a, a.copy());
    let arr = ExpressionValue::Array(vec![ExpressionValue::Null, ExpressionValue::Boolean(true)]);
    assert_eq!(arr, arr.copy());
    assert_ne!(arr, ExpressionValue::Array(vec![ExpressionValue::Null]));
}

#[test]
fn comparison_rules() {
    let cmp = |a: &ExpressionValue, b: &ExpressionValue| ExpressionExecutor::compare_values(a, b);
    let f = |s: &str| ExpressionValue::Float(s.to_string());
    assert_eq!(cmp(&ExpressionValue::Null, &ExpressionValue::Number(-5)), Ordering::Less);
    assert_eq!(cmp(&ExpressionValue::Number(2), &ExpressionValue::Null), Ordering::Greater);
    assert_eq!(cmp(&f("3.41"), &f("5.0")), Ordering::Less);
    assert_eq!(cmp(&f("-2.5"), &f("-10")), Ordering::Greater);
    assert_eq!(cmp(&f("1.5e2"), &ExpressionValue::Number(150)), Ordering::Equal);
    assert_eq!(cmp(&ExpressionValue::Number(3), &f("2.999")), Ordering::Greater);
    assert_eq!(cmp(&f("0.0"), &f("-0")), Ordering::Equal);
    assert_eq!(cmp(&f("not a number"), &ExpressionValue::Number(0)), Ordering::Equal);
    assert_eq!(cmp(&ExpressionValue::Boolean(false), &ExpressionValue::Boolean(true)), Ordering::Less);
    assert_eq!(
        cmp(&ExpressionValue::String("b".to_string()), &ExpressionValue::String("ab".to_string())),
        Ordering::Greater
    );
    assert_eq!(cmp(&ExpressionValue::Number(10), &ExpressionValue::String("9".to_string())), Ordering::Less);
}

#[test]
fn tag_values_convert() {
    let blank = TagValue {
        string_value: None,
        float_value: None,
        double_value: None,
        int_value: None,
        uint_value: None,
        sint_value: None,
        bool_value: None,
    };
    assert_eq!(ExpressionValue::from_mvt_value(&blank), ExpressionValue::Null);
    let big = TagValue { uint_value: Some(u64::MAX), ..blank.clone() };
    assert_eq!(ExpressionValue::from_mvt_value(&big), ExpressionValue::Number(-1));
    let f = TagValue {
        float_value: Some(FloatValue { bits: 2.5f32.to_bits() as u64, text: 2.5f32.to_string() }),
        ..blank.clone()
    };
    assert_eq!(ExpressionValue::from_mvt_value(&f), ExpressionValue::Float("2.5".to_string()));
    let both = TagValue { string_value: Some("s".to_string()), int_value: Some(1), ..blank.clone() };
    assert_eq!(ExpressionValue::from_mvt_value(&both), ExpressionValue::String("s".to_string()));
}

#[test]
fn tile_coordinate_text() {
    assert_eq!(format_tile_coord(10, 500, 400), "10/500/400");
    assert_eq!(format_tile_coord(0, 0, 0), "0/0/0");
}
