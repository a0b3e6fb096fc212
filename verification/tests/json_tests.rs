use prompt_pipeline::json::to_json_compact;
use prompt_pipeline::json::to_json_pretty;
use prompt_pipeline::value::Value;

fn sample_doc() -> Value {
    Value::Obj(vec![
        ("name".to_string(), Value::Str("John Doe".to_string())),
        ("age".to_string(), Value::Int(43)),
        (
            "phones".to_string(),
            Value::Arr(vec![
                Value::Str("+44 1234567".to_string()),
                Value::Str("+44 2345678".to_string()),
            ]),
        ),
    ])
}

#[test]
fn compact_rendering_is_exact() {
    assert_eq!(
        to_json_compact(&sample_doc()),
        r#"{"name":"John Doe","age":43,"phones":["+44 1234567","+44 2345678"]}"#
    );
}

#[test]
fn pretty_rendering_is_exact() {
    let expected = "{\n  \"name\": \"John Doe\",\n  \"age\": 43,\n  \"phones\": [\n    \"+44 1234567\",\n    \"+44 2345678\"\n  ]\n}";
    assert_eq!(to_json_pretty(&sample_doc()), expected);
}

#[test]
fn pretty_rendering_matches_the_reference_parser() {
    let ours = to_json_pretty(&sample_doc());
    let reparsed: serde_json::Value = serde_json::from_str(&ours).unwrap();
    let direct: serde_json::Value =
        serde_json::from_str(r#"{"name":"John Doe","age":43,"phones":["+44 1234567","+44 2345678"]}"#)
            .unwrap();
    assert_eq!(reparsed, direct);
}

#[test]
fn strings_are_escaped() {
    let v = Value::Str("a\"b\\c\nd\te\r\u{8}\u{c}\u{1f}".to_string());
    assert_eq!(
        to_json_compact(&v),
        "\"a\\\"b\\\\c\\nd\\te\\r\\b\\f\\u001f\""
    );
    let reparsed: serde_json::Value = serde_json::from_str(&to_json_compact(&v)).unwrap();
    assert_eq!(
        reparsed,
        serde_json::Value::String("a\"b\\c\nd\te\r\u{8}\u{c}\u{1f}".to_string())
    );
}

#[test]
fn integers_cover_the_extremes() {
    assert_eq!(to_json_compact(&Value::Int(0)), "0");
    assert_eq!(to_json_compact(&Value::Int(-7)), "-7");
    assert_eq!(
        to_json_compact(&Value::Int(i64::MIN)),
        "-9223372036854775808"
    );
    assert_eq!(to_json_compact(&Value::Int(i64::MAX)), "9223372036854775807");
}

#[test]
fn numeric_literals_pass_through() {
    let v = Value::Num("0.7".to_string());
    assert_eq!(to_json_compact(&v), "0.7");
}

#[test]
fn empty_collections_and_atoms() {
    assert_eq!(to_json_compact(&Value::Arr(vec![])), "[]");
    assert_eq!(to_json_compact(&Value::Obj(vec![])), "{}");
    assert_eq!(to_json_pretty(&Value::Arr(vec![])), "[]");
    assert_eq!(to_json_compact(&Value::Null), "null");
    assert_eq!(to_json_compact(&Value::Bool(true)), "true");
    assert_eq!(to_json_compact(&Value::Bool(false)), "false");
}

#[test]
fn pretty_matches_the_reference_pretty_printer() {
    // the reference printer sorts keys, so compare on a document whose
    // fields are already in sorted order
    let doc = Value::Obj(vec![
        ("age".to_string(), Value::Int(43)),
        ("name".to_string(), Value::Str("John Doe".to_string())),
        (
            "phones".to_string(),
            Value::Arr(vec![Value::Str("+44 1234567".to_string())]),
        ),
    ]);
    let ours = to_json_pretty(&doc);
    let reference = serde_json::to_string_pretty(
        &serde_json::from_str::<serde_json::Value>(&to_json_compact(&doc)).unwrap(),
    )
    .unwrap();
    assert_eq!(ours, reference);
}
