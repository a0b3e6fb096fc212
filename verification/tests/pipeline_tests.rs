use prompt_pipeline::batch::BatchRun;
use prompt_pipeline::merge::merge_completions;
use prompt_pipeline::output::build_output_document;
use prompt_pipeline::store::WrappedContext;
use prompt_pipeline::template::materialize_all;
use prompt_pipeline::value::Value;

/// Turn parsed reference JSON into the library's value model, so a test can
/// start from a JSON document exactly as the binary would.
fn to_value(v: &serde_json::Value) -> Value {
    match v {
        serde_json::Value::Null => Value::Null,
        serde_json::Value::Bool(b) => Value::Bool(*b),
        serde_json::Value::Number(n) => match n.as_i64() {
            Some(i) => Value::Int(i),
            None => Value::Num(n.to_string()),
        },
        serde_json::Value::String(s) => Value::Str(s.clone()),
        serde_json::Value::Array(items) => Value::Arr(items.iter().map(to_value).collect()),
        serde_json::Value::Object(entries) => Value::Obj(
            entries
                .iter()
                .map(|(k, v)| (k.clone(), to_value(v)))
                .collect(),
        ),
    }
}

#[test]
fn one_record_one_template_with_a_stubbed_provider() {
    let input = r#"{"contexts":[{"topic":"Go Routines"}],
                    "prompt_templates":{"body":{"prompt":"Write about {{topic}}","tokens":50}}}"#;
    let doc = to_value(&serde_json::from_str(input).unwrap());
    let store = WrappedContext::new(doc).unwrap();
    let mut records = store.records().unwrap();
    let templates = store.prompt_templates().unwrap();
    assert_eq!(templates.len(), 1);

    for (name, def) in &templates {
        let prompts = materialize_all(&def.prompt, &records).unwrap();
        assert_eq!(prompts, vec!["Write about Go Routines".to_string()]);

        // the provider is stubbed: any prompt gets the same text back
        let mut run = BatchRun::new(prompts);
        while let Some(chunk) = run.next_chunk() {
            let texts: Vec<String> = chunk.iter().map(|_| "<generated text>".to_string()).collect();
            run.push_chunk(texts).unwrap();
        }
        let completions = run.into_results().unwrap();
        merge_completions(&mut records, name, &completions).unwrap();
    }

    // one output record per input record, in order, with the completion
    // merged in
    assert_eq!(records.len(), 1);
    let out = prompt_pipeline::json::to_json_pretty(&build_output_document(records));
    let parsed: serde_json::Value = serde_json::from_str(&out).unwrap();
    let contexts = parsed.get("contexts").unwrap().as_array().unwrap();
    assert_eq!(contexts.len(), 1);
    let expected: serde_json::Value =
        serde_json::from_str(r#"{"topic":"Go Routines","body":"<generated text>"}"#).unwrap();
    assert_eq!(contexts[0], expected);
}

#[test]
fn output_record_count_and_order_match_the_input() {
    let input = r#"{"contexts":[{"id":1},{"id":2},{"id":3}],
                    "prompt_templates":{"a":{"prompt":"p{{id}}","tokens":5},
                                        "b":{"prompt":"q{{id}}","tokens":5}}}"#;
    let doc = to_value(&serde_json::from_str(input).unwrap());
    let store = WrappedContext::new(doc).unwrap();
    let mut records = store.records().unwrap();
    let templates = store.prompt_templates().unwrap();
    assert_eq!(templates.len(), 2);

    for (name, def) in &templates {
        let prompts = materialize_all(&def.prompt, &records).unwrap();
        let mut run = BatchRun::new(prompts);
        while let Some(chunk) = run.next_chunk() {
            run.push_chunk(chunk.iter().map(|p| format!("answer to {}", p)).collect())
                .unwrap();
        }
        merge_completions(&mut records, name, &run.into_results().unwrap()).unwrap();
    }

    assert_eq!(records.len(), 3);
    for (i, rec) in records.iter().enumerate() {
        assert_eq!(rec.get("id"), Some(&Value::Int(i as i64 + 1)));
        assert_eq!(
            rec.get("a"),
            Some(&Value::Str(format!("answer to p{}", i + 1)))
        );
        assert_eq!(
            rec.get("b"),
            Some(&Value::Str(format!("answer to q{}", i + 1)))
        );
    }
}
