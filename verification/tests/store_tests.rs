use prompt_pipeline::errors::Error;
use prompt_pipeline::store::supported_type;
use prompt_pipeline::store::SupportedType;
use prompt_pipeline::store::WrappedContext;
use prompt_pipeline::value::Value;

fn obj(pairs: Vec<(&str, Value)>) -> Value {
    Value::Obj(pairs.into_iter().map(|(k, v)| (k.to_string(), v)).collect())
}

#[test]
fn json_is_the_supported_extension() {
    assert_eq!(supported_type("json"), Some(SupportedType::Json));
    assert_eq!(supported_type("yaml"), None);
    assert_eq!(supported_type(""), None);
    assert_eq!(supported_type("JSON"), None);
}

#[test]
fn the_document_must_be_an_object() {
    assert_eq!(
        WrappedContext::new(Value::Arr(vec![])).unwrap_err(),
        Error::DocumentNotObject
    );
    assert!(WrappedContext::new(obj(vec![])).is_ok());
}

#[test]
fn contexts_are_required() {
    let w = WrappedContext::new(obj(vec![])).unwrap();
    assert_eq!(w.records().unwrap_err(), Error::MissingContexts);
}

#[test]
fn contexts_must_be_a_list_of_objects() {
    let w = WrappedContext::new(obj(vec![("contexts", Value::Int(1))])).unwrap();
    assert_eq!(w.records().unwrap_err(), Error::ContextsNotList);

    let w = WrappedContext::new(obj(vec![(
        "contexts",
        Value::Arr(vec![obj(vec![]), Value::Int(7), obj(vec![])]),
    )]))
    .unwrap();
    assert_eq!(w.records().unwrap_err(), Error::RecordNotObject(1));
}

#[test]
fn records_come_out_in_order() {
    let w = WrappedContext::new(obj(vec![(
        "contexts",
        Value::Arr(vec![
            obj(vec![("topic", Value::Str("a".to_string()))]),
            obj(vec![("topic", Value::Str("b".to_string()))]),
        ]),
    )]))
    .unwrap();
    let recs = w.records().unwrap();
    assert_eq!(recs.len(), 2);
    assert_eq!(recs[0].get("topic"), Some(&Value::Str("a".to_string())));
    assert_eq!(recs[1].get("topic"), Some(&Value::Str("b".to_string())));
}

#[test]
fn absent_prompt_templates_mean_nothing_to_expand() {
    let w = WrappedContext::new(obj(vec![("contexts", Value::Arr(vec![]))])).unwrap();
    assert_eq!(w.prompt_templates().unwrap(), vec![]);
}

#[test]
fn prompt_templates_are_validated_by_name() {
    let def = |pairs: Vec<(&str, Value)>| obj(pairs);

    let w = WrappedContext::new(obj(vec![("prompt_templates", Value::Int(1))])).unwrap();
    assert_eq!(w.prompt_templates().unwrap_err(), Error::TemplatesNotObject);

    let w = WrappedContext::new(obj(vec![(
        "prompt_templates",
        obj(vec![("body", Value::Int(1))]),
    )]))
    .unwrap();
    assert_eq!(
        w.prompt_templates().unwrap_err(),
        Error::TemplateNotObject("body".to_string())
    );

    let w = WrappedContext::new(obj(vec![(
        "prompt_templates",
        obj(vec![("body", def(vec![("tokens", Value::Int(50))]))]),
    )]))
    .unwrap();
    assert_eq!(
        w.prompt_templates().unwrap_err(),
        Error::TemplateMissingPrompt("body".to_string())
    );

    let w = WrappedContext::new(obj(vec![(
        "prompt_templates",
        obj(vec![(
            "body",
            def(vec![("prompt", Value::Str("p".to_string()))]),
        )]),
    )]))
    .unwrap();
    assert_eq!(
        w.prompt_templates().unwrap_err(),
        Error::TemplateMissingTokens("body".to_string())
    );

    let w = WrappedContext::new(obj(vec![(
        "prompt_templates",
        obj(vec![(
            "body",
            def(vec![
                ("prompt", Value::Str("p".to_string())),
                ("tokens", Value::Int(-1)),
            ]),
        )]),
    )]))
    .unwrap();
    assert_eq!(
        w.prompt_templates().unwrap_err(),
        Error::TemplateMissingTokens("body".to_string())
    );

    let w = WrappedContext::new(obj(vec![(
        "prompt_templates",
        obj(vec![(
            "body",
            def(vec![
                ("prompt", Value::Str("p".to_string())),
                ("tokens", Value::Int(50)),
                ("model", Value::Int(3)),
            ]),
        )]),
    )]))
    .unwrap();
    assert_eq!(
        w.prompt_templates().unwrap_err(),
        Error::TemplateBadModel("body".to_string())
    );

    let w = WrappedContext::new(obj(vec![(
        "prompt_templates",
        obj(vec![(
            "body",
            def(vec![
                ("prompt", Value::Str("p".to_string())),
                ("tokens", Value::Int(50)),
                ("temperature", Value::Str("hot".to_string())),
            ]),
        )]),
    )]))
    .unwrap();
    assert_eq!(
        w.prompt_templates().unwrap_err(),
        Error::TemplateBadTemperature("body".to_string())
    );
}

#[test]
fn a_full_template_definition_is_read_whole() {
    let w = WrappedContext::new(obj(vec![(
        "prompt_templates",
        obj(vec![(
            "body",
            obj(vec![
                ("prompt", Value::Str("Write about {{topic}}".to_string())),
                ("tokens", Value::Int(50)),
                ("model", Value::Str("some-model".to_string())),
                ("temperature", Value::Num("0.7".to_string())),
            ]),
        )]),
    )]))
    .unwrap();
    let ts = w.prompt_templates().unwrap();
    assert_eq!(ts.len(), 1);
    assert_eq!(ts[0].0, "body");
    assert_eq!(ts[0].1.prompt, "Write about {{topic}}");
    assert_eq!(ts[0].1.tokens, 50);
    assert_eq!(ts[0].1.model, Some("some-model".to_string()));
    assert_eq!(ts[0].1.temperature, Some(Value::Num("0.7".to_string())));
}

#[test]
fn append_overwrites_existing_fields() {
    let mut w = WrappedContext::new(obj(vec![("a", Value::Int(1))])).unwrap();
    w.append(&vec![
        ("a".to_string(), Value::Int(2)),
        ("b".to_string(), Value::Str("x".to_string())),
    ]);
    assert_eq!(w.context().get("a"), Some(&Value::Int(2)));
    assert_eq!(w.context().get("b"), Some(&Value::Str("x".to_string())));
}

#[test]
fn completion_call_args_read_prompt_and_tokens() {
    let args = prompt_pipeline::value::Record {
        fields: vec![
            ("prompt".to_string(), Value::Str("write".to_string())),
            ("tokens".to_string(), Value::Int(100)),
        ],
    };
    assert_eq!(
        prompt_pipeline::store::completion_call_args(&args).unwrap(),
        ("write".to_string(), 100)
    );

    let missing = prompt_pipeline::value::Record { fields: vec![] };
    assert_eq!(
        prompt_pipeline::store::completion_call_args(&missing).unwrap_err(),
        Error::MissingField("prompt".to_string())
    );

    let bad_tokens = prompt_pipeline::value::Record {
        fields: vec![
            ("prompt".to_string(), Value::Str("write".to_string())),
            ("tokens".to_string(), Value::Str("many".to_string())),
        ],
    };
    assert_eq!(
        prompt_pipeline::store::completion_call_args(&bad_tokens).unwrap_err(),
        Error::MissingField("tokens".to_string())
    );
}
