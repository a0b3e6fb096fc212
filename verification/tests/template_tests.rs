use prompt_pipeline::errors::Error;
use prompt_pipeline::template::materialize;
use prompt_pipeline::template::materialize_all;
use prompt_pipeline::template::with_slug_fields;
use prompt_pipeline::value::Record;
use prompt_pipeline::value::Value;

fn record_of(pairs: Vec<(&str, Value)>) -> Record {
    Record {
        fields: pairs.into_iter().map(|(k, v)| (k.to_string(), v)).collect(),
    }
}

#[test]
fn substitutes_a_string_field() {
    let r = record_of(vec![("topic", Value::Str("Go Routines".to_string()))]);
    assert_eq!(
        materialize("Write about {{topic}}", &r).unwrap(),
        "Write about Go Routines"
    );
}

#[test]
fn placeholder_names_may_be_padded_with_whitespace() {
    let r = record_of(vec![("topic", Value::Str("X".to_string()))]);
    assert_eq!(materialize("A {{  topic \t}} B", &r).unwrap(), "A X B");
}

#[test]
fn missing_field_is_named() {
    let r = record_of(vec![("topic", Value::Str("X".to_string()))]);
    let err = materialize("Write about {{subject}}", &r).unwrap_err();
    assert_eq!(err, Error::MissingField("subject".to_string()));
}

#[test]
fn unclosed_placeholder_is_refused() {
    let r = record_of(vec![]);
    let err = materialize("Write {{topic", &r).unwrap_err();
    assert_eq!(err, Error::UnclosedPlaceholder);
}

#[test]
fn non_string_fields_render_as_compact_json() {
    let r = record_of(vec![
        ("n", Value::Int(42)),
        ("flag", Value::Bool(true)),
        ("list", Value::Arr(vec![Value::Int(1), Value::Int(2)])),
    ]);
    assert_eq!(
        materialize("{{n}}/{{flag}}/{{list}}", &r).unwrap(),
        "42/true/[1,2]"
    );
}

#[test]
fn text_without_placeholders_passes_through() {
    let r = record_of(vec![]);
    assert_eq!(
        materialize("no braces { here } at all }}", &r).unwrap(),
        "no braces { here } at all }}"
    );
}

#[test]
fn materialize_all_aligns_prompts_with_records() {
    let records = vec![
        record_of(vec![("topic", Value::Str("a".to_string()))]),
        record_of(vec![("topic", Value::Str("b".to_string()))]),
    ];
    let prompts = materialize_all("on {{topic}}", &records).unwrap();
    assert_eq!(prompts, vec!["on a".to_string(), "on b".to_string()]);
}

#[test]
fn materialize_all_stops_at_the_first_failing_record() {
    let records = vec![
        record_of(vec![("topic", Value::Str("a".to_string()))]),
        record_of(vec![("other", Value::Str("b".to_string()))]),
    ];
    let err = materialize_all("on {{topic}}", &records).unwrap_err();
    assert_eq!(err, Error::MissingField("topic".to_string()));
}

#[test]
fn slug_fields_are_injected_under_suffixed_names() {
    let r = record_of(vec![
        ("category", Value::Str("C++ & Systems!".to_string())),
        ("title", Value::Str("Hello, World!  2024".to_string())),
    ]);
    let r2 = with_slug_fields(&r, "category", "title").unwrap();
    assert_eq!(
        r2.get("category_slug"),
        Some(&Value::Str("C_Systems".to_string()))
    );
    assert_eq!(
        r2.get("title_slug"),
        Some(&Value::Str("Hello_World".to_string()))
    );
    // the original fields stay
    assert_eq!(
        r2.get("category"),
        Some(&Value::Str("C++ & Systems!".to_string()))
    );
}

#[test]
fn slug_fields_require_the_named_fields() {
    let r = record_of(vec![("category", Value::Str("c".to_string()))]);
    assert_eq!(
        with_slug_fields(&r, "category", "title").unwrap_err(),
        Error::MissingField("title".to_string())
    );
    assert_eq!(
        with_slug_fields(&r, "nope", "title").unwrap_err(),
        Error::MissingField("nope".to_string())
    );
    let r2 = record_of(vec![("category", Value::Int(3))]);
    assert_eq!(
        with_slug_fields(&r2, "category", "title").unwrap_err(),
        Error::FieldNotText("category".to_string())
    );
}
