use mvt_wrangler::compiler::{CompiledExpression, ExpressionCompiler};
use mvt_wrangler::error::CompileError;
use mvt_wrangler::executor::{EvaluationContext, ExpressionExecutor};
use mvt_wrangler::json::{JsonNumber, JsonValue};
use mvt_wrangler::mvt::{FloatValue, TagValue};
use mvt_wrangler::value::ExpressionValue;

fn convert(v: &serde_json::Value) -> JsonValue {
    match v {
        serde_json::Value::Null => JsonValue::Null,
        serde_json::Value::Bool(b) => JsonValue::Bool(*b),
        serde_json::Value::Number(n) => JsonValue::Number(JsonNumber {
            as_i64: n.as_i64(),
            as_u64: n.as_u64(),
            text: n.to_string(),
        }),
        serde_json::Value::String(s) => JsonValue::String(s.clone()),
        serde_json::Value::Array(a) => JsonValue::Array(a.iter().map(convert).collect()),
        serde_json::Value::Object(_) => JsonValue::Object(v.to_string()),
    }
}

fn json(text: &str) -> JsonValue {
    convert(&serde_json::from_str(text).unwrap())
}

fn blank() -> TagValue {
    TagValue {
        string_value: None,
        float_value: None,
        double_value: None,
        int_value: None,
        uint_value: None,
        sint_value: None,
        bool_value: None,
    }
}

fn create_test_context() -> EvaluationContext {
    let name = TagValue { string_value: Some("Central Park".to_string()), ..blank() };
    let kind = TagValue { string_value: Some("park".to_string()), ..blank() };
    let area = TagValue {
        double_value: Some(FloatValue { bits: 3.41f64.to_bits(), text: 3.41f64.to_string() }),
        ..blank()
    };
    let public = TagValue { bool_value: Some(true), ..blank() };
    let capacity = TagValue { sint_value: Some(1000), ..blank() };
    let properties = vec![
        ("name".to_string(), name),
        ("kind".to_string(), kind),
        ("area".to_string(), area),
        ("public".to_string(), public),
        ("capacity".to_string(), capacity),
    ];
    EvaluationContext::new("test", properties)
        .with_geometry_type("Polygon")
        .with_current_key("name:en")
}

fn holds(expr: &str, context: &EvaluationContext) -> bool {
    let compiled = ExpressionCompiler::compile(&json(expr)).unwrap();
    ExpressionExecutor::evaluate_bool(&compiled, context).unwrap()
}

#[test]
fn test_simple_equality_filter() {
    let context = create_test_context();
    assert!(holds(r#"["==", ["tag", "kind"], "park"]"#, &context));
}

#[test]
fn test_inequality_filter() {
    let context = create_test_context();
    assert!(holds(r#"["!=", ["tag", "kind"], "school"]"#, &context));
}

#[test]
fn test_numeric_comparison() {
    let context = create_test_context();
    assert!(holds(r#"[">", ["tag", "capacity"], 500]"#, &context));
    assert!(holds(r#"["<", ["tag", "area"], 5.0]"#, &context));
}

#[test]
fn test_logical_operations() {
    let context = create_test_context();
    assert!(holds(
        r#"["any", ["==", ["tag", "kind"], "school"], ["==", ["tag", "kind"], "park"]]"#,
        &context
    ));
    assert!(holds(
        r#"["all", ["==", ["tag", "kind"], "park"], [">", ["tag", "capacity"], 100]]"#,
        &context
    ));
    assert!(holds(r#"["!", ["==", ["tag", "kind"], "school"]]"#, &context));
}

#[test]
fn test_membership_operations() {
    let context = create_test_context();
    assert!(holds(
        r#"["in", ["tag", "kind"], ["literal", ["park", "school", "hospital"]]]"#,
        &context
    ));
    assert!(holds(
        r#"["!", ["in", ["tag", "kind"], ["literal", ["school", "hospital"]]]]"#,
        &context
    ));
    assert!(holds(
        r#"["in", null, ["literal", [null, "school", "hospital"]]]"#,
        &context
    ));
}

#[test]
fn test_string_operations() {
    let context = create_test_context();
    assert!(holds(r#"["starts-with", ["tag", "name"], "Central"]"#, &context));
    assert!(holds(r#"["ends-with", ["tag", "name"], "Park"]"#, &context));
    assert!(holds(r#"["regex-match", ["tag", "name"], "^Central.*Park$"]"#, &context));
}

#[test]
fn test_context_operations() {
    let context = create_test_context();
    assert!(holds(r#"["starts-with", ["key"], "name:"]"#, &context));
    assert!(holds(r#"["==", ["type"], "Polygon"]"#, &context));
}

#[test]
fn test_boolean_type_conversion() {
    let context = create_test_context();
    assert!(holds(r#"["boolean", ["tag", "public"]]"#, &context));
}

#[test]
fn test_missing_tag_handling() {
    let context = create_test_context();
    assert!(!holds(r#"["==", ["tag", "nonexistent"], "value"]"#, &context));
}

#[test]
fn test_complex_filter_example() {
    let context = create_test_context();
    assert!(holds(
        r#"["all",
            ["==", ["tag", "kind"], "park"],
            ["boolean", ["tag", "public"]],
            ["any", [">", ["tag", "capacity"], 500], [">", ["tag", "area"], 2.0]]]"#,
        &context
    ));
}

#[test]
fn test_regex_capture() {
    let context = create_test_context();
    let compiled = ExpressionCompiler::compile(&json(r#"["regex-capture", ["tag", "name"], "^(\\w+)", 1]"#)).unwrap();
    let result = ExpressionExecutor::evaluate(&compiled, &context).unwrap();
    assert_eq!(result, ExpressionValue::String("Central".to_string()));
}

#[test]
fn test_complex_regex_capture_filter() {
    let mut context = create_test_context();
    let expr = json(
        r#"["all",
            ["starts-with", ["key"], "name"],
            ["not", ["in", ["regex-capture", ["key"], "^name:?(.*)$", 1], ["literal", ["", "ja"]]]]]"#,
    );
    let compiled = ExpressionCompiler::compile(&expr).unwrap();
    assert!(ExpressionExecutor::evaluate_bool(&compiled, &context).unwrap());

    context = context.with_current_key("name:ja");
    assert!(!ExpressionExecutor::evaluate_bool(&compiled, &context).unwrap());

    context = context.with_current_key("name");
    assert!(!ExpressionExecutor::evaluate_bool(&compiled, &context).unwrap());
}

#[test]
fn test_compile_simple_equality() {
    let compiled = ExpressionCompiler::compile(&json(r#"["==", ["tag", "kind"], "park"]"#)).unwrap();
    match compiled {
        CompiledExpression::Equal(_, _) => {}
        _ => panic!("Expected Equal expression"),
    }
}

#[test]
fn test_compile_logical_any() {
    let compiled = ExpressionCompiler::compile(&json(
        r#"["any", ["==", ["tag", "kind"], "park"], ["==", ["tag", "kind"], "school"]]"#,
    ))
    .unwrap();
    match compiled {
        CompiledExpression::Any(exprs) => assert_eq!(exprs.len(), 2),
        _ => panic!("Expected Any expression"),
    }
}

#[test]
fn test_compile_membership_in() {
    let compiled = ExpressionCompiler::compile(&json(
        r#"["in", ["tag", "kind"], ["literal", ["park", "school", "hospital"]]]"#,
    ))
    .unwrap();
    match compiled {
        CompiledExpression::In(_, values) => {
            assert_eq!(values.len(), 3);
            assert!(values.contains(&ExpressionValue::String("park".to_string())));
        }
        _ => panic!("Expected In expression"),
    }
}

#[test]
fn test_compile_regex_match() {
    let compiled = ExpressionCompiler::compile(&json(r#"["regex-match", ["key"], "^name:.*"]"#)).unwrap();
    match compiled {
        CompiledExpression::RegexMatch(_, _) => {}
        _ => panic!("Expected RegexMatch expression"),
    }
}

#[test]
fn test_invalid_regex_pattern() {
    let result = ExpressionCompiler::compile(&json(r#"["regex-match", ["key"], "["]"#));
    assert!(result.is_err());
}

#[test]
fn empty_expression_is_rejected() {
    assert_eq!(ExpressionCompiler::compile(&json("[]")).err(), Some(CompileError::EmptyExpression));
}

#[test]
fn each_compile_error_has_an_input() {
    let cases = [
        (r#"[1, 2]"#, CompileError::OperatorNotString),
        (r#"["bogus"]"#, CompileError::UnknownOperator),
        (r#"["==", 1]"#, CompileError::ArgumentCount { expected: 2, got: 1 }),
        (r#"["regex-capture", ["key"], "a"]"#, CompileError::TooFewArguments { min: 3, got: 2 }),
        (r#"["starts-with", ["key"], 1]"#, CompileError::ExpectedString),
        (r#"["regex-capture", ["key"], "a", -1]"#, CompileError::ExpectedGroupIndex),
        (r#"["in", ["key"], "a"]"#, CompileError::ExpectedArray),
        (r#"["regex-match", ["key"], "("]"#, CompileError::InvalidRegex),
        (r#"{"a": 1}"#, CompileError::ObjectExpression),
        (r#"["key", 1]"#, CompileError::ArgumentCount { expected: 0, got: 1 }),
    ];
    for (text, expected) in cases {
        assert_eq!(ExpressionCompiler::compile(&json(text)).err(), Some(expected), "{}", text);
    }
}

#[test]
fn empty_any_all_none() {
    let context = create_test_context();
    assert!(!holds(r#"["any"]"#, &context));
    assert!(holds(r#"["all"]"#, &context));
    assert!(holds(r#"["none"]"#, &context));
    assert!(!holds(r#"["none", true]"#, &context));
}

#[test]
fn regex_capture_beyond_groups_is_null() {
    let context = create_test_context();
    let compiled = ExpressionCompiler::compile(&json(r#"["regex-capture", ["tag", "name"], "^(\\w+)", 5]"#)).unwrap();
    assert_eq!(ExpressionExecutor::evaluate(&compiled, &context).unwrap(), ExpressionValue::Null);
}

#[test]
fn boolean_twice_is_boolean_once() {
    let context = create_test_context();
    for inner in [r#"["tag", "name"]"#, r#"["tag", "missing"]"#, "0", r#""""#, r#"["literal", []]"#] {
        let once = format!(r#"["boolean", {}]"#, inner);
        let twice = format!(r#"["boolean", ["boolean", {}]]"#, inner);
        let a = ExpressionExecutor::evaluate(&ExpressionCompiler::compile(&json(&once)).unwrap(), &context).unwrap();
        let b = ExpressionExecutor::evaluate(&ExpressionCompiler::compile(&json(&twice)).unwrap(), &context).unwrap();
        assert_eq!(a, b);
    }
}

#[test]
fn in_set_is_deduplicated_and_matches_by_kind() {
    let compiled =
        ExpressionCompiler::compile(&json(r#"["in", ["key"], ["literal", ["a", "a", 1, 1.5, "1"]]]"#)).unwrap();
    match &compiled {
        CompiledExpression::In(_, values) => assert_eq!(values.len(), 4),
        _ => panic!("Expected In expression"),
    }
    let context = create_test_context().with_current_key("1");
    assert!(ExpressionExecutor::evaluate_bool(&compiled, &context).unwrap());
    let context = create_test_context().with_current_key("b");
    assert!(!ExpressionExecutor::evaluate_bool(&compiled, &context).unwrap());
}

#[test]
fn numbers_compare_across_kinds() {
    let context = create_test_context();
    assert!(holds(r#"["==", 5, 5.0]"#, &context));
    assert!(holds(r#"["<", -0.5, 0]"#, &context));
    assert!(holds(r#"[">", 1e3, 999]"#, &context));
    assert!(holds(r#"["<", null, false]"#, &context));
    assert!(holds(r#"["==", true, "true"]"#, &context));
    assert!(holds(r#"["<", "abc", "abd"]"#, &context));
}
