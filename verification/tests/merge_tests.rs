use prompt_pipeline::errors::Error;
use prompt_pipeline::merge::merge_completions;
use prompt_pipeline::value::Record;
use prompt_pipeline::value::Value;

fn record(pairs: &[(&str, &str)]) -> Record {
    Record {
        fields: pairs
            .iter()
            .map(|(k, v)| (k.to_string(), Value::Str(v.to_string())))
            .collect(),
    }
}

#[test]
fn merge_keeps_length_and_order() {
    let mut records = vec![
        record(&[("topic", "alpha")]),
        record(&[("topic", "beta")]),
        record(&[("topic", "gamma")]),
    ];
    let completions = vec!["one".to_string(), "two".to_string(), "three".to_string()];
    merge_completions(&mut records, "body", &completions).unwrap();
    assert_eq!(records.len(), 3);
    let topics: Vec<&Value> = records.iter().map(|r| r.get("topic").unwrap()).collect();
    assert_eq!(
        topics,
        vec![
            &Value::Str("alpha".into()),
            &Value::Str("beta".into()),
            &Value::Str("gamma".into())
        ]
    );
    for (r, c) in records.iter().zip(completions.iter()) {
        assert_eq!(r.get("body"), Some(&Value::Str(c.clone())));
    }
}

#[test]
fn merge_overwrites_an_existing_field_in_place() {
    let mut records = vec![record(&[("body", "old"), ("topic", "t")])];
    merge_completions(&mut records, "body", &vec!["new".to_string()]).unwrap();
    assert_eq!(records[0].fields.len(), 2);
    assert_eq!(records[0].fields[0].0, "body");
    assert_eq!(records[0].get("body"), Some(&Value::Str("new".into())));
    assert_eq!(records[0].get("topic"), Some(&Value::Str("t".into())));
}

#[test]
fn merge_refuses_a_misaligned_completion_list() {
    let mut records = vec![record(&[("a", "1")]), record(&[("a", "2")])];
    let err = merge_completions(&mut records, "body", &vec!["only one".to_string()]).unwrap_err();
    assert_eq!(err, Error::Alignment { expected: 2, got: 1 });
    assert!(records.iter().all(|r| r.get("body").is_none()));
}

#[test]
fn merged_record_round_trips_through_json() {
    // merging under a key, serializing, and reparsing reads the completion
    // back under that key, for every record
    let mut records = vec![
        record(&[("topic", "alpha")]),
        record(&[("topic", "beta\n\"quoted\"")]),
    ];
    let completions = vec!["text one".to_string(), "text\ttwo".to_string()];
    merge_completions(&mut records, "body", &completions).unwrap();
    for (r, c) in records.iter().zip(completions.iter()) {
        let json = prompt_pipeline::json::to_json_pretty(&Value::Obj(prompt_pipeline::value::copy_fields(&r.fields)));
        let parsed: serde_json::Value = serde_json::from_str(&json).unwrap();
        assert_eq!(
            parsed.get("body"),
            Some(&serde_json::Value::String(c.clone()))
        );
    }
}
