use prompt_pipeline::output::build_output_document;
use prompt_pipeline::output::output_filename;
use prompt_pipeline::output::output_relative_path;
use prompt_pipeline::value::Record;
use prompt_pipeline::value::Value;

#[test]
fn the_output_file_sits_beside_the_input() {
    assert_eq!(output_filename("data/topics.json"), "data/topics.content.json");
}

#[test]
fn an_input_without_extension_gets_the_suffix_appended() {
    assert_eq!(output_filename("topics"), "topics.content.json");
    assert_eq!(output_filename("a.dir/topics"), "a.dir/topics.content.json");
}

#[test]
fn a_leading_dot_is_no_extension() {
    assert_eq!(output_filename(".topics"), ".topics.content.json");
    assert_eq!(output_filename("d/.topics"), "d/.topics.content.json");
    assert_eq!(output_filename("d/.topics.json"), "d/.topics.content.json");
}

#[test]
fn a_rerun_output_name_is_stable() {
    assert_eq!(
        output_filename("data/topics.content.json"),
        "data/topics.content.content.json"
    );
}

#[test]
fn relative_paths_join_sanitized_directories() {
    assert_eq!(
        output_relative_path("C++ & Systems!", "Hello, World!  2024", "index.md"),
        "C_Systems/Hello_World/index.md"
    );
}

#[test]
fn the_aggregate_document_wraps_the_records() {
    let records = vec![
        Record {
            fields: vec![("topic".to_string(), Value::Str("a".to_string()))],
        },
        Record {
            fields: vec![("topic".to_string(), Value::Str("b".to_string()))],
        },
    ];
    let doc = build_output_document(records);
    let json = prompt_pipeline::json::to_json_pretty(&doc);
    let parsed: serde_json::Value = serde_json::from_str(&json).unwrap();
    let contexts = parsed.get("contexts").unwrap().as_array().unwrap();
    assert_eq!(contexts.len(), 2);
    assert_eq!(
        contexts[0].get("topic"),
        Some(&serde_json::Value::String("a".to_string()))
    );
    assert_eq!(
        contexts[1].get("topic"),
        Some(&serde_json::Value::String("b".to_string()))
    );
}

#[test]
fn trimming_strips_all_surrounding_whitespace() {
    assert_eq!(prompt_pipeline::text::trim_str("  \t\n  "), "");
    assert_eq!(prompt_pipeline::text::trim_str("a b"), "a b");
    assert_eq!(prompt_pipeline::text::trim_str("\u{a0}x\u{a0}"), "x");
}

#[test]
fn nested_documents_render_and_reparse() {
    let doc = Value::Obj(vec![(
        "outer".to_string(),
        Value::Arr(vec![
            Value::Obj(vec![("k".to_string(), Value::Null)]),
            Value::Arr(vec![Value::Obj(vec![])]),
        ]),
    )]);
    let json = prompt_pipeline::json::to_json_pretty(&doc);
    let parsed: serde_json::Value = serde_json::from_str(&json).unwrap();
    assert!(parsed.get("outer").unwrap().as_array().unwrap()[0]
        .get("k")
        .unwrap()
        .is_null());
}
