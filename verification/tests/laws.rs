use jsonschema::json::{Decimal, Number, ObjectMap, Value};
use jsonschema::paths::lookup;
use jsonschema::types::Draft;
use jsonschema::validator::{options, validator_for};

fn convert(value: &serde_json::Value) -> Value {
    match value {
        serde_json::Value::Null => Value::Null,
        serde_json::Value::Bool(b) => Value::Bool(*b),
        serde_json::Value::Number(n) => {
            if let Some(u) = n.as_u64() {
                Value::Number(Number::PosInt(u))
            } else if let Some(i) = n.as_i64() {
                Value::Number(Number::NegInt(i))
            } else {
                let f = n.as_f64().unwrap_or(0.0);
                Value::Number(Number::Float(Decimal {
                    text: n.to_string(),
                    integral: f.fract() == 0.0,
                }))
            }
        }
        serde_json::Value::String(s) => Value::String(s.clone()),
        serde_json::Value::Array(items) => Value::Array(items.iter().map(convert).collect()),
        serde_json::Value::Object(map) => {
            let mut out = ObjectMap::new();
            for (k, v) in map {
                out.insert(k.clone(), convert(v));
            }
            Value::Object(out)
        }
    }
}

fn json(text: &str) -> Value {
    convert(&serde_json::from_str::<serde_json::Value>(text).unwrap())
}

fn back(value: &Value) -> serde_json::Value {
    serde_json::from_str(&jsonschema::render::render(value)).unwrap()
}

const SCHEMAS: [&str; 8] = [
    r#"{"type":"object","required":["a","b"],"properties":{"a":{"type":"integer"},"b":{"items":{"type":"string"}}}}"#,
    r#"{"properties":{"a":{"required":["x"]}},"additionalProperties":{"type":"boolean"}}"#,
    r##"{"$defs":{"n":{"type":"string","minLength":3}},"properties":{"name":{"$ref":"#/$defs/n"}},"items":{"$ref":"#/$defs/n"}}"##,
    r#"{"allOf":[{"properties":{"a":true}}],"unevaluatedProperties":false}"#,
    r#"{"oneOf":[{"type":"number"},{"type":"integer"}],"anyOf":[{"const":5},{"minLength":1}]}"#,
    r#"{"prefixItems":[{"type":"integer"}],"items":{"required":["k"]}}"#,
    r#"{"items":[{"type":"null"},false]}"#,
    r#"{"enum":[5,"ab",[],{"a":1}],"anyOf":[{"properties":{"a":true},"required":["z"]},{"properties":{"kind":true}}],"unevaluatedProperties":{"type":"integer"}}"#,
];

const INSTANCES: [&str; 10] = [
    "null",
    "5",
    "1.5",
    r#""ab""#,
    r#""abcd""#,
    "[]",
    r#"[1, "a", {"k": 1}, {}]"#,
    "{}",
    r#"{"a": 1, "b": ["x", 2], "name": "ab", "c": true}"#,
    r#"{"a": {"y": 1}, "b": 2, "kind": "k", "name": "long enough"}"#,
];

#[test]
fn the_four_ways_of_asking_agree() {
    for draft in [Draft::Draft4, Draft::Draft7, Draft::Draft201909, Draft::Draft202012] {
        for schema in SCHEMAS {
            let validator = options().with_draft(draft).build(&json(schema)).unwrap();
            for instance in INSTANCES {
                let instance = json(instance);
                let valid = validator.is_valid(&instance);
                assert_eq!(validator.validate(&instance).is_ok(), valid, "{schema} {instance:?}");
                assert_eq!(validator.iter_errors(&instance).is_empty(), valid, "{schema} {instance:?}");
                assert_eq!(validator.evaluate(&instance).flag().valid, valid, "{schema} {instance:?}");
            }
        }
    }
}

#[test]
fn the_first_error_is_the_first_of_all_errors() {
    for schema in SCHEMAS {
        let validator = validator_for(&json(schema)).unwrap();
        for instance in INSTANCES {
            let instance = json(instance);
            let all = validator.iter_errors(&instance);
            match validator.validate(&instance) {
                Ok(()) => assert!(all.is_empty()),
                Err(first) => {
                    assert_eq!(format!("{:?}", first), format!("{:?}", all[0]));
                }
            }
        }
    }
}

#[test]
fn asking_twice_gives_the_same_answer() {
    for schema in SCHEMAS {
        let validator = validator_for(&json(schema)).unwrap();
        let again = validator_for(&json(schema)).unwrap();
        for instance in INSTANCES {
            let instance = json(instance);
            let first = validator.iter_errors(&instance);
            let second = validator.iter_errors(&instance);
            let third = again.iter_errors(&instance);
            assert_eq!(format!("{:?}", first), format!("{:?}", second));
            assert_eq!(format!("{:?}", first), format!("{:?}", third));
            assert_eq!(
                back(&validator.evaluate(&instance).hierarchical()),
                back(&again.evaluate(&instance).hierarchical())
            );
        }
    }
}

#[test]
fn the_path_of_an_error_leads_to_its_value() {
    let mut seen = 0;
    for schema in SCHEMAS {
        let validator = validator_for(&json(schema)).unwrap();
        for instance in INSTANCES {
            let instance = json(instance);
            for error in validator.iter_errors(&instance) {
                let found = lookup(&instance, &error.instance_path).expect("the path leads somewhere");
                assert_eq!(back(found), back(&error.instance));
                let pointer = error.instance_path.pointer();
                let by_pointer = back(&instance).pointer(&pointer).cloned();
                assert_eq!(by_pointer, Some(back(&error.instance)));
                seen += 1;
            }
        }
    }
    assert!(seen > 20);
}

#[test]
fn without_a_reference_the_two_schema_paths_are_one() {
    for schema in SCHEMAS {
        let validator = validator_for(&json(schema)).unwrap();
        for instance in INSTANCES {
            for error in validator.iter_errors(&json(instance)) {
                let through_reference = error.evaluation_path.pointer().contains("$ref");
                if !through_reference {
                    assert_eq!(error.evaluation_path.pointer(), error.schema_path.pointer());
                } else {
                    assert!(error.schema_path.pointer().starts_with("/$defs/n"));
                }
            }
        }
    }
}

#[test]
fn the_outputs_have_the_members_that_every_output_has() {
    fn check_unit(unit: &serde_json::Value) {
        let unit = unit.as_object().expect("a unit is an object");
        assert!(unit["valid"].is_boolean());
        assert!(unit["evaluationPath"].is_string());
        assert!(unit["schemaLocation"].is_string());
        assert!(unit["instanceLocation"].is_string());
        if let Some(details) = unit.get("details") {
            for detail in details.as_array().expect("details are a list") {
                check_unit(detail);
            }
        }
    }
    for schema in SCHEMAS {
        let validator = validator_for(&json(schema)).unwrap();
        for instance in INSTANCES {
            let instance = json(instance);
            let evaluation = validator.evaluate(&instance);
            check_unit(&back(&evaluation.hierarchical()));
            let list = back(&evaluation.list());
            assert_eq!(list["valid"], serde_json::Value::Bool(validator.is_valid(&instance)));
            for detail in list["details"].as_array().unwrap() {
                check_unit(detail);
                assert!(detail.get("details").is_none());
            }
        }
    }
}

#[test]
fn what_is_assessed_is_what_the_keywords_cover() {
    let schema = json(
        r##"{
            "$defs": {"r": {"properties": {"q": true}}},
            "$ref": "#/$defs/r",
            "properties": {"p": {"type": "integer"}},
            "allOf": [{"properties": {"a": true}}],
            "anyOf": [{"properties": {"b": {"type": "string"}}}, {"properties": {"c": true}, "required": ["c"]}],
            "oneOf": [{"properties": {"d": true}, "required": ["d"]}, {"properties": {"e": true}, "required": ["e"]}],
            "unevaluatedProperties": false
        }"##,
    );
    let validator = options().with_draft(Draft::Draft202012).build(&schema).unwrap();
    let unexpected = |instance: &str| -> Vec<String> {
        match validator.validate(&json(instance)) {
            Ok(()) => Vec::new(),
            Err(error) => match error.kind {
                jsonschema::error::ValidationErrorKind::UnevaluatedProperties { unexpected } => unexpected,
                other => panic!("unexpected kind {:?}", other),
            },
        }
    };
    // `properties`, the referenced schema, `allOf`, the branch of `anyOf` that holds.
    assert_eq!(unexpected(r#"{"p": 1, "q": 0, "a": 0, "b": "s", "d": 0}"#), Vec::<String>::new());
    // A branch of `anyOf` that does not hold assesses nothing: the second
    // branch fails for want of `c`, and the first does not name `c`.
    assert_eq!(unexpected(r#"{"b": "s", "d": 0}"#), Vec::<String>::new());
    // Both branches hold: both count.
    assert_eq!(unexpected(r#"{"b": "s", "c": 1, "d": 0}"#), Vec::<String>::new());
    // Only the second branch holds (`b` is no string): `c` counts and `b` does not.
    assert_eq!(unexpected(r#"{"b": 1, "c": 1, "d": 0}"#), vec!["b".to_string()]);
    // Only the one branch of `oneOf` that holds counts.
    assert_eq!(unexpected(r#"{"e": 0, "d-not": 0}"#), vec!["d-not".to_string()]);
    // What no keyword covers is named, in the order of the members.
    assert_eq!(
        unexpected(r#"{"d": 0, "zz": 0, "y": 1}"#),
        vec!["y".to_string(), "zz".to_string()]
    );
}

#[test]
fn a_schema_that_is_built_passes_the_check_of_its_rules() {
    let schemas = [
        r#"true"#,
        r#"{"type":"integer"}"#,
        r#"{"type":[]}"#,
        r#"{"type":"text"}"#,
        r#"{"required":["a","a"]}"#,
        r#"{"minLength":-1}"#,
        r#"{"properties":{"a":{"items":{"type":["string","null"]}}}}"#,
        r#"{"properties":{"a":{"items":{"type":["string","nothing"]}}}}"#,
        r#"{"allOf":[{"properties":{"a":true}}],"unevaluatedProperties":false}"#,
        r#"{"patternProperties":{"(":true},"unevaluatedProperties":false}"#,
        r#"3"#,
    ];
    for text in schemas {
        let schema = json(text);
        let built = validator_for(&schema);
        let checked = jsonschema::meta::validate(&schema);
        assert_eq!(built.is_ok(), checked.is_ok(), "{text}");
        assert_eq!(jsonschema::meta::is_valid(&schema), checked.is_ok(), "{text}");
        if let (Err(a), Err(b)) = (built, checked) {
            assert_eq!(a.message(), b.message(), "{text}");
            assert_eq!(a.schema_path.pointer(), b.schema_path.pointer(), "{text}");
        }
    }
    let behind = json(r##"{"$defs":{"a":{"type":"text"}},"$ref":"#/$defs/a"}"##);
    assert!(jsonschema::meta::is_valid(&behind));
    assert!(validator_for(&behind).is_err());
}

#[test]
fn references_are_followed_one_after_the_other() {
    let schema = json(
        r##"{"$defs":{"a":{"$ref":"#/$defs/b"},"b":{"properties":{"n":{"$ref":"#/$defs/c"}}},"c":{"type":"integer"}},"$ref":"#/$defs/a"}"##,
    );
    let validator = validator_for(&schema).expect("schema compiles");
    assert!(validator.is_valid(&json(r#"{"n":1}"#)));
    assert!(validator.is_valid(&json(r#"7"#)));
    let errors = validator.iter_errors(&json(r#"{"n":"one"}"#));
    assert_eq!(errors.len(), 1);
    assert_eq!(errors[0].schema_path.pointer(), "/$defs/c/type");
    assert_eq!(errors[0].evaluation_path.pointer(), "/$ref/$ref/properties/n/$ref/type");
    assert_eq!(errors[0].instance_path.pointer(), "/n");
}
