use jsonschema::error::{ValidationError, ValidationErrorKind};
use jsonschema::json::{Decimal, Number, ObjectMap, Value};
use jsonschema::types::Draft;
use jsonschema::validator::{options, validator_for, Validator};

fn convert(value: &serde_json::Value) -> Value {
    match value {
        serde_json::Value::Null => Value::Null,
        serde_json::Value::Bool(b) => Value::Bool(*b),
        serde_json::Value::Number(n) => {
            if let Some(u) = n.as_u64() {
                Value::Number(Number::PosInt(u))
            } else if let Some(i) = n.as_i64() {
                Value::Number(Number::NegInt(i))
            } else {
                let f = n.as_f64().unwrap_or(0.0);
                Value::Number(Number::Float(Decimal {
                    text: n.to_string(),
                    integral: f.fract() == 0.0,
                }))
            }
        }
        serde_json::Value::String(s) => Value::String(s.clone()),
        serde_json::Value::Array(items) => Value::Array(items.iter().map(convert).collect()),
        serde_json::Value::Object(map) => {
            let mut out = ObjectMap::new();
            for (k, v) in map {
                out.insert(k.clone(), convert(v));
            }
            Value::Object(out)
        }
    }
}

fn json(text: &str) -> Value {
    convert(&serde_json::from_str::<serde_json::Value>(text).unwrap())
}

fn build(draft: Draft, schema: &Value) -> Validator {
    options().with_draft(draft).build(schema).expect("schema compiles")
}

fn is_valid_with_draft(draft: Draft, schema: &Value, instance: &Value) {
    let validator = build(draft, schema);
    assert!(validator.is_valid(instance), "{:?} should be valid (is_valid)", instance);
    assert!(validator.validate(instance).is_ok(), "{:?} should be valid (validate)", instance);
    assert!(validator.iter_errors(instance).is_empty(), "{:?} should be valid (iter_errors)", instance);
    assert!(validator.evaluate(instance).flag().valid, "{:?} should be valid (evaluate)", instance);
}

fn is_not_valid_with_draft(draft: Draft, schema: &Value, instance: &Value) {
    let validator = build(draft, schema);
    assert!(!validator.is_valid(instance), "{:?} should not be valid (is_valid)", instance);
    assert!(validator.validate(instance).is_err(), "{:?} should not be valid (validate)", instance);
    assert!(!validator.iter_errors(instance).is_empty(), "{:?} should not be valid (iter_errors)", instance);
    assert!(!validator.evaluate(instance).flag().valid, "{:?} should not be valid (evaluate)", instance);
}

fn assert_schema_location(schema: &Value, instance: &Value, expected: &str) {
    let validator = validator_for(schema).unwrap();
    let error = validator.validate(instance).expect_err("Should be an error");
    assert_eq!(error.schema_path.pointer(), expected);
    let errors = validator.iter_errors(instance);
    assert_eq!(errors[0].schema_path.pointer(), expected);
}

fn first_error(validator: &Validator, instance: &Value) -> ValidationError {
    validator.validate(instance).expect_err("Should be an error")
}

#[test]
fn required_2_iter_errors() {
    let schema = json(r#"{"required": ["a", "b"]}"#);
    let validator = validator_for(&schema).unwrap();

    // Missing both
    let instance = json("{}");
    let errors: Vec<_> = validator.iter_errors(&instance);
    assert_eq!(errors.len(), 2);

    // Missing one
    let instance = json(r#"{"a": 1}"#);
    let errors: Vec<_> = validator.iter_errors(&instance);
    assert_eq!(errors.len(), 1);

    // All present
    let instance = json(r#"{"a": 1, "b": 2}"#);
    let errors: Vec<_> = validator.iter_errors(&instance);
    assert!(errors.is_empty());
}

#[test]
fn required_3_iter_errors() {
    let schema = json(r#"{"required": ["a", "b", "c"]}"#);
    let validator = validator_for(&schema).unwrap();

    // Missing all
    let instance = json("{}");
    let errors: Vec<_> = validator.iter_errors(&instance);
    assert_eq!(errors.len(), 3);

    // Missing two
    let instance = json(r#"{"a": 1}"#);
    let errors: Vec<_> = validator.iter_errors(&instance);
    assert_eq!(errors.len(), 2);

    // Missing one
    let instance = json(r#"{"a": 1, "b": 2}"#);
    let errors: Vec<_> = validator.iter_errors(&instance);
    assert_eq!(errors.len(), 1);

    // All present
    let instance = json(r#"{"a": 1, "b": 2, "c": 3}"#);
    let errors: Vec<_> = validator.iter_errors(&instance);
    assert!(errors.is_empty());
}

#[test]
fn location() {
    assert_schema_location(
        &json(r#"{"properties": {"foo": {"properties": {"bar": {"required": ["spam"]}}}}}"#),
        &json(r#"{"foo": {"bar": {}}}"#),
        "/properties/foo/properties/bar/required",
    );
}

fn fused_schema() -> Value {
    // No additionalProperties: false, so the two keywords are checked together
    json(
        r#"{
            "properties": {
                "a": {"type": "integer"},
                "b": {"type": "string"}
            },
            "required": ["a", "b"]
        }"#,
    )
}

#[test]
fn fused_properties_required2_validate_missing_first() {
    let validator = validator_for(&fused_schema()).unwrap();
    let instance = json(r#"{"b": "x"}"#);
    let result = validator.validate(&instance);
    assert!(result.is_err());
    let err = result.unwrap_err();
    assert!(err.message().contains("required"));
}

#[test]
fn fused_properties_required2_validate_missing_second() {
    let validator = validator_for(&fused_schema()).unwrap();
    let instance = json(r#"{"a": 1}"#);
    let result = validator.validate(&instance);
    assert!(result.is_err());
    let err = result.unwrap_err();
    assert!(err.message().contains("required"));
}

#[test]
fn fused_properties_required2_iter_errors_missing_both() {
    let validator = validator_for(&fused_schema()).unwrap();
    let instance = json("{}");
    let errors: Vec<_> = validator.iter_errors(&instance);
    assert_eq!(errors.len(), 2);
}

#[test]
fn fused_properties_required2_iter_errors_missing_first() {
    let validator = validator_for(&fused_schema()).unwrap();
    let instance = json(r#"{"b": "x"}"#);
    let errors: Vec<_> = validator.iter_errors(&instance);
    assert_eq!(errors.len(), 1);
}

#[test]
fn fused_properties_required2_iter_errors_missing_second() {
    let validator = validator_for(&fused_schema()).unwrap();
    let instance = json(r#"{"a": 1}"#);
    let errors: Vec<_> = validator.iter_errors(&instance);
    assert_eq!(errors.len(), 1);
}

#[test]
fn fused_properties_required2_iter_errors_valid() {
    let validator = validator_for(&fused_schema()).unwrap();
    let instance = json(r#"{"a": 1, "b": "x"}"#);
    let errors: Vec<_> = validator.iter_errors(&instance);
    assert!(errors.is_empty());
}

#[test]
fn one_of() {
    is_valid_with_draft(
        Draft::Draft202012,
        &json(
            r#"{
                "oneOf": [
                    { "properties": { "foo": { "const": "bar" } } },
                    { "properties": { "foo": { "const": "quux" } } }
                ],
                "unevaluatedProperties": false
            }"#,
        ),
        &json(r#"{ "foo": "quux" }"#),
    );
}

#[test]
fn any_of() {
    is_valid_with_draft(
        Draft::Draft202012,
        &json(
            r#"{
                "anyOf": [
                    { "properties": { "foo": { "minLength": 10 } } },
                    { "properties": { "foo": { "type": "string" } } }
                ],
                "unevaluatedProperties": false
            }"#,
        ),
        &json(r#"{ "foo": "rut roh" }"#),
    );
}

#[test]
fn all_of() {
    is_not_valid_with_draft(
        Draft::Draft202012,
        &json(
            r#"{
                "allOf": [
                    { "properties": { "foo": { "type": "string" } } },
                    { "properties": { "foo": { "minLength": 10 } } }
                ],
                "unevaluatedProperties": false
            }"#,
        ),
        &json(r#"{ "foo": "rut roh" }"#),
    );
}

#[test]
fn all_of_with_additional_props_subschema() {
    let schema = json(
        r#"{
            "allOf": [
                {
                    "type": "object",
                    "required": [
                        "foo"
                    ],
                    "properties": {
                        "foo": { "type": "string" }
                    }
                },
                {
                    "type": "object",
                    "additionalProperties": { "type": "string" }
                }
            ],
            "unevaluatedProperties": false
        }"#,
    );

    is_valid_with_draft(
        Draft::Draft202012,
        &schema,
        &json(r#"{ "foo": "wee", "another": "thing" }"#),
    );

    is_not_valid_with_draft(
        Draft::Draft202012,
        &schema,
        &json(r#"{ "foo": "wee", "another": false }"#),
    );
}

#[test]
fn test_unevaluated_properties_with_allof_oneof() {
    let schema = json(
        r#"{
            "$schema": "https://json-schema.org/draft/2020-12/schema",
            "allOf": [{}],
            "oneOf": [
                {
                    "properties": {
                        "blah": true
                    }
                }
            ],
            "unevaluatedProperties": false
        }"#,
    );

    let valid = json(r#"{ "blah": 1 }"#);

    let validator = validator_for(&schema).expect("Schema should compile");

    assert!(validator.validate(&valid).is_ok(), "Validation should pass");
    assert!(validator.is_valid(&valid), "Instance should be valid");

    let invalid = json(r#"{ "blah": 1, "extra": "property" }"#);

    assert!(
        !validator.is_valid(&invalid),
        "Instance with extra property should be invalid"
    );
    assert!(
        validator.validate(&invalid).is_err(),
        "Validation should fail for instance with extra property"
    );
}

#[test]
fn test_unevaluated_properties_with_recursion() {
    let schema = json(
        r##"{
          "$schema": "https://json-schema.org/draft/2020-12/schema",
          "allOf": [
            {
              "$ref": "#/$defs/1_1"
            }
          ],
          "unevaluatedProperties": false,
          "$defs": {
            "1_1": {
              "type": "object",
              "properties": {
                "b": {
                  "allOf": [
                    {
                      "$ref": "#/$defs/1_2"
                    }
                  ],
                  "unevaluatedProperties": false
                }
              },
              "required": [
                "b"
              ]
            },
            "1_2": {
              "type": "object",
              "properties": {
                "f": {
                  "allOf": [
                    {
                      "$ref": "#/$defs/1_1"
                    }
                  ],
                  "unevaluatedProperties": false
                }
              },
              "required": [
                "f"
              ]
            }
          }
        }"##,
    );

    let validator = validator_for(&schema).expect("Schema should compile");

    let instance = json(r#"{"b": {"f": null}}"#);
    assert!(!validator.is_valid(&instance));
    assert!(validator.validate(&instance).is_err());
}

#[test]
fn an_integer_is_of_type_integer_and_a_string_is_not() {
    let validator = validator_for(&json(r#"{"type":"integer"}"#)).unwrap();
    assert!(validator.is_valid(&json("42")));
    let errors = validator.iter_errors(&json(r#""42""#));
    assert_eq!(errors.len(), 1);
    assert!(matches!(errors[0].kind, ValidationErrorKind::Type { .. }));
    assert_eq!(errors[0].instance_path.pointer(), "");
    assert_eq!(errors[0].schema_path.pointer(), "/type");
    assert_eq!(errors[0].message(), r#""42" is not of type "integer""#);
}

#[test]
fn a_missing_member_is_named_by_the_error() {
    let validator = validator_for(&json(r#"{"required":["a","b"]}"#)).unwrap();
    let errors = validator.iter_errors(&json(r#"{"a":1}"#));
    assert_eq!(errors.len(), 1);
    match &errors[0].kind {
        ValidationErrorKind::Required { property } => {
            assert!(matches!(property, Value::String(name) if name == "b"))
        }
        other => panic!("unexpected kind {:?}", other),
    }
    assert_eq!(errors[0].message(), r#""b" is a required property"#);
    let errors = validator.iter_errors(&json("{}"));
    let names: Vec<String> = errors
        .iter()
        .map(|e| match &e.kind {
            ValidationErrorKind::Required { property: Value::String(name) } => name.clone(),
            other => panic!("unexpected kind {:?}", other),
        })
        .collect();
    assert_eq!(names, vec!["a".to_string(), "b".to_string()]);
}

#[test]
fn an_error_behind_a_reference_keeps_both_paths() {
    let schema = json(
        r##"{"$defs":{"n":{"type":"string","minLength":3}},"properties":{"name":{"$ref":"#/$defs/n"}}}"##,
    );
    let validator = validator_for(&schema).unwrap();
    let error = first_error(&validator, &json(r#"{"name":"ab"}"#));
    assert!(matches!(error.kind, ValidationErrorKind::MinLength { limit: 3 }));
    assert_eq!(error.schema_path.pointer(), "/$defs/n/minLength");
    assert_eq!(error.evaluation_path.pointer(), "/properties/name/$ref/minLength");
    assert_eq!(error.instance_path.pointer(), "/name");
    assert_eq!(error.message(), r#""ab" is shorter than 3 character(s)"#);
}

#[test]
fn a_member_that_nothing_assesses_is_reported() {
    let schema = json(r#"{"allOf":[{"properties":{"a":true}}],"unevaluatedProperties":false}"#);
    let validator = build(Draft::Draft202012, &schema);
    let errors = validator.iter_errors(&json(r#"{"a":1,"b":2}"#));
    assert_eq!(errors.len(), 1);
    match &errors[0].kind {
        ValidationErrorKind::UnevaluatedProperties { unexpected } => {
            assert_eq!(unexpected, &vec!["b".to_string()])
        }
        other => panic!("unexpected kind {:?}", other),
    }
    assert_eq!(
        errors[0].message(),
        "Unevaluated properties are not allowed ('b' was unexpected)"
    );
}

#[test]
fn two_branches_of_one_of_that_hold_are_one_too_many() {
    let schema = json(r#"{"oneOf":[{"type":"number"},{"type":"integer"}]}"#);
    let validator = validator_for(&schema).unwrap();
    let error = first_error(&validator, &json("5"));
    assert!(matches!(error.kind, ValidationErrorKind::OneOfMultipleValid { .. }));
    let error = first_error(&validator, &json(r#""five""#));
    match &error.kind {
        ValidationErrorKind::OneOfNotValid { context } => {
            assert_eq!(context.len(), 2);
            assert_eq!(context[0].len(), 1);
            assert_eq!(context[0][0].schema_path.pointer(), "/oneOf/0/type");
        }
        other => panic!("unexpected kind {:?}", other),
    }
}

#[test]
fn the_oldest_draft_reads_integers_strictly() {
    let schema = json(r#"{"type":"integer"}"#);
    let instance = json("1.0");
    for draft in [Draft::Draft6, Draft::Draft7, Draft::Draft201909, Draft::Draft202012] {
        is_valid_with_draft(draft, &schema, &instance);
    }
    is_not_valid_with_draft(Draft::Draft4, &schema, &instance);
    let items = json(r#"{"items":{"type":"integer"}}"#);
    is_valid_with_draft(Draft::Draft7, &items, &json("[1, 2.0]"));
    is_not_valid_with_draft(Draft::Draft4, &items, &json("[1, 2.0]"));
    is_not_valid_with_draft(Draft::Draft7, &items, &json("[1, 2.5]"));
}

#[test]
fn empty_instances_pass_empty_demands() {
    let schema = json(r#"{"required":[],"items":{}}"#);
    is_valid_with_draft(Draft::Draft202012, &schema, &json("{}"));
    is_valid_with_draft(Draft::Draft202012, &schema, &json("[]"));
}

#[test]
fn a_schema_that_refers_to_itself_admits_everything() {
    let schema = json(r##"{"$ref":"#"}"##);
    for draft in [Draft::Draft4, Draft::Draft7, Draft::Draft202012] {
        is_valid_with_draft(draft, &schema, &json("1"));
        is_valid_with_draft(draft, &schema, &json(r#"{"a":[null]}"#));
    }
}

#[test]
fn a_cycle_of_references_ends_with_an_error() {
    let schema = json(r##"{"$defs":{"a":{"$ref":"#/$defs/b"},"b":{"$ref":"#/$defs/a"}},"$ref":"#/$defs/a"}"##);
    let validator = validator_for(&schema).unwrap();
    let error = first_error(&validator, &json("1"));
    assert!(matches!(error.kind, ValidationErrorKind::Referencing { .. }));
    assert!(!validator.is_valid(&json("1")));
}

#[test]
fn an_empty_list_of_types_is_refused() {
    let error = validator_for(&json(r#"{"type":[]}"#)).expect_err("must not build");
    assert!(matches!(error.kind, ValidationErrorKind::MinItems { limit: 1 }));
    assert_eq!(error.schema_path.pointer(), "/type");
}

#[test]
fn schemas_that_break_a_rule_are_refused() {
    let error = validator_for(&json(r#"{"required":["a","a"]}"#)).expect_err("must not build");
    assert!(matches!(error.kind, ValidationErrorKind::UniqueItems));
    let error = validator_for(&json(r#"{"required":["a",1]}"#)).expect_err("must not build");
    assert!(matches!(error.kind, ValidationErrorKind::Type { .. }));
    assert_eq!(error.schema_path.pointer(), "/required");
    let error = validator_for(&json(r#"{"required":{}}"#)).expect_err("must not build");
    assert_eq!(error.message(), r#"{} is not of type "array""#);
    let error = validator_for(&json(r#"{"type":"text"}"#)).expect_err("must not build");
    assert!(matches!(error.kind, ValidationErrorKind::Enum { .. }));
    let error = validator_for(&json(r#"{"properties":[]}"#)).expect_err("must not build");
    assert_eq!(error.schema_path.pointer(), "/properties");
    let error = validator_for(&json(r#"{"prefixItems":{}}"#)).expect_err("must not build");
    assert_eq!(error.schema_path.pointer(), "/prefixItems");
    let error = validator_for(&json(r##"{"$ref":"#/nowhere"}"##)).expect_err("must not build");
    assert!(matches!(error.kind, ValidationErrorKind::Referencing { .. }));
    let error = validator_for(&json(r#"{"patternProperties":{"(":true},"unevaluatedProperties":false}"#))
        .expect_err("must not build");
    assert!(matches!(error.kind, ValidationErrorKind::Custom { .. }));
    let error = validator_for(&json(r#"{"enum":3}"#)).expect_err("must not build");
    assert_eq!(error.schema_path.pointer(), "/enum");
    let error = validator_for(&json("3")).expect_err("must not build");
    assert!(matches!(error.kind, ValidationErrorKind::Type { .. }));
}

#[test]
fn many_properties_are_found_by_their_names() {
    let mut properties = serde_json::Map::new();
    for i in 0..45 {
        properties.insert(format!("p{i}"), serde_json::from_str(r#"{"type":"integer"}"#).unwrap());
    }
    let mut schema = serde_json::Map::new();
    schema.insert("properties".to_string(), serde_json::Value::Object(properties));
    let schema = convert(&serde_json::Value::Object(schema));
    let validator = validator_for(&schema).unwrap();
    assert!(validator.is_valid(&json(r#"{"p3": 1, "p44": 2, "other": "x"}"#)));
    let errors = validator.iter_errors(&json(r#"{"p3": "no", "p7": 1, "p44": null}"#));
    assert_eq!(errors.len(), 2);
    assert_eq!(errors[0].instance_path.pointer(), "/p3");
    assert_eq!(errors[0].schema_path.pointer(), "/properties/p3/type");
    assert_eq!(errors[1].instance_path.pointer(), "/p44");
}

#[test]
fn members_beyond_the_properties_are_refused_where_none_is_admitted() {
    let schema = json(r#"{"properties":{"a":{"type":"integer"}},"additionalProperties":false,"required":["a"]}"#);
    let validator = validator_for(&schema).unwrap();
    assert!(validator.is_valid(&json(r#"{"a":1}"#)));
    let errors = validator.iter_errors(&json(r#"{"b":1,"c":2}"#));
    assert_eq!(errors.len(), 2);
    assert!(matches!(errors[0].kind, ValidationErrorKind::Required { .. }));
    assert_eq!(errors[0].schema_path.pointer(), "/required");
    match &errors[1].kind {
        ValidationErrorKind::AdditionalProperties { unexpected } => {
            assert_eq!(unexpected, &vec!["b".to_string(), "c".to_string()])
        }
        other => panic!("unexpected kind {:?}", other),
    }
    assert_eq!(
        errors[1].message(),
        "Additional properties are not allowed ('b', 'c' were unexpected)"
    );
}

#[test]
fn a_keyword_that_is_not_enforced_is_refused() {
    for name in [
        "pattern", "minimum", "maximum", "multipleOf", "exclusiveMinimum",
        "patternProperties", "unevaluatedItems", "$dynamicRef",
    ] {
        let schema = json(&format!(r#"{{"type":"object","{name}":{{}}}}"#));
        let error = options().with_draft(Draft::Draft202012).build(&schema).expect_err("must not build");
        match error.kind {
            ValidationErrorKind::Custom { keyword, .. } => assert_eq!(keyword, name),
            other => panic!("unexpected kind {:?}", other),
        }
        assert_eq!(error.schema_path.pointer(), format!("/{name}"));
        assert!(!jsonschema::meta::is_valid(&schema));
    }
    // A keyword that the draft does not know is passed over.
    let early = json(r#"{"unevaluatedItems":false,"$dynamicRef":"x"}"#);
    assert!(options().with_draft(Draft::Draft4).build(&early).is_ok());
    // A name that nothing knows, and a format, are passed over.
    assert!(validator_for(&json(r#"{"title":"t","format":"email","x-thing":1}"#)).is_ok());
    // In the drafts in which a format is checked, a schema with one is refused.
    assert!(options().with_draft(Draft::Draft7).build(&json(r#"{"format":"email"}"#)).is_err());
    // Below a keyword too.
    assert!(validator_for(&json(r#"{"properties":{"a":{"minimum":1}}}"#)).is_err());
}

#[test]
fn a_branch_of_any_of_that_fails_assesses_nothing() {
    let schema = json(
        r#"{"anyOf":[{"properties":{"a":true},"required":["z"]},{}],"unevaluatedProperties":false}"#,
    );
    let validator = build(Draft::Draft202012, &schema);
    let error = validator.validate(&json(r#"{"a":1}"#)).expect_err("must fail");
    match error.kind {
        ValidationErrorKind::UnevaluatedProperties { unexpected } => {
            assert_eq!(unexpected, vec!["a".to_string()])
        }
        other => panic!("unexpected kind {:?}", other),
    }
    assert!(validator.is_valid(&json(r#"{"a":1,"z":2}"#)) == false);
    let held = json(r#"{"anyOf":[{"properties":{"a":true},"required":["z"]},{"properties":{"z":true}}],"unevaluatedProperties":false}"#);
    assert!(build(Draft::Draft202012, &held).is_valid(&json(r#"{"a":1,"z":2}"#)));
}

#[test]
fn a_value_must_be_one_of_the_listed_values() {
    let small = json(r#"{"enum":[1,"a",null,[1,2],{"k":true}]}"#);
    let validator = validator_for(&small).expect("schema compiles");
    for good in ["1", r#""a""#, "null", "[1,2]", r#"{"k":true}"#] {
        assert!(validator.is_valid(&json(good)), "{good}");
    }
    for bad in ["2", r#""b""#, "false", "[2,1]", r#"{"k":false}"#, "[]"] {
        assert!(!validator.is_valid(&json(bad)), "{bad}");
    }
    let errors = validator.iter_errors(&json("2"));
    assert_eq!(errors.len(), 1);
    assert!(matches!(errors[0].kind, ValidationErrorKind::Enum { .. }));
    assert_eq!(errors[0].schema_path.pointer(), "/enum");
    assert_eq!(errors[0].message(), r#"2 is not one of [1,"a",null,[1,2],{"k":true}]"#);
    assert!(!validator_for(&json(r#"{"enum":[1]}"#)).unwrap().is_valid(&json("2")));
    assert!(!validator_for(&json(r#"{"enum":[]}"#)).unwrap().is_valid(&json("null")));
}

#[test]
fn a_long_list_of_values_gives_the_verdicts_of_a_short_one() {
    let mut items: Vec<String> = Vec::new();
    for i in 0..60 {
        items.push(format!(r#""s{i}""#));
        items.push(format!("{i}"));
    }
    items.push("[1]".to_string());
    let long = json(&format!(r#"{{"enum":[{}]}}"#, items.join(",")));
    let short = json(r#"{"enum":["s7",7,[1]]}"#);
    let long_validator = validator_for(&long).expect("schema compiles");
    let short_validator = validator_for(&short).expect("schema compiles");
    for instance in [r#""s7""#, "7", "[1]"] {
        assert!(long_validator.is_valid(&json(instance)), "{instance}");
        assert!(short_validator.is_valid(&json(instance)), "{instance}");
    }
    for instance in [r#""s60""#, r#""7""#, "60", "[2]", "null", r#"{"s7":1}"#, r#""""#] {
        assert!(!long_validator.is_valid(&json(instance)), "{instance}");
        assert!(!short_validator.is_valid(&json(instance)), "{instance}");
        assert_eq!(long_validator.iter_errors(&json(instance)).len(), 1);
    }
    assert!(long_validator.is_valid(&json(r#""s59""#)));
    assert!(long_validator.is_valid(&json("59")));
}

#[test]
fn items_after_a_prefix_have_their_own_schema() {
    let schema = json(r#"{"prefixItems":[{"type":"integer"},{"type":"string"}],"items":{"type":"boolean"}}"#);
    let validator = build(Draft::Draft202012, &schema);
    assert!(validator.is_valid(&json(r#"[1, "a", true, false]"#)));
    let errors = validator.iter_errors(&json(r#"["x", "a", 1]"#));
    assert_eq!(errors.len(), 2);
    assert_eq!(errors[0].instance_path.pointer(), "/2");
    assert_eq!(errors[0].schema_path.pointer(), "/items/type");
    assert_eq!(errors[1].instance_path.pointer(), "/0");
    assert_eq!(errors[1].schema_path.pointer(), "/prefixItems/0/type");
}

#[test]
fn the_items_of_an_array_are_checked_one_by_one() {
    let cases = [
        (r#"{"items": {"type": "string"}}"#, r#"["a", 1, "c"]"#, "/1", r#"1 is not of type "string""#),
        (r#"{"items": {"type": "number"}}"#, r#"["x"]"#, "/0", r#""x" is not of type "number""#),
        (r#"{"items": {"type": "integer"}}"#, r#"[1, 1.5]"#, "/1", r#"1.5 is not of type "integer""#),
        (r#"{"items": {"type": "boolean"}}"#, r#"[true, null]"#, "/1", r#"null is not of type "boolean""#),
    ];
    for (schema, instance, path, message) in cases {
        let validator = validator_for(&json(schema)).unwrap();
        let errors = validator.iter_errors(&json(instance));
        assert_eq!(errors.len(), 1);
        assert_eq!(errors[0].instance_path.pointer(), path);
        assert_eq!(errors[0].schema_path.pointer(), "/items/type");
        assert_eq!(errors[0].message(), message);
        assert_eq!(first_error(&validator, &json(instance)).message(), message);
    }
    let validator = validator_for(&json(r#"{"items": [{"type": "string"}, false]}"#)).unwrap();
    assert!(validator.is_valid(&json(r#"["a"]"#)));
    let errors = validator.iter_errors(&json(r#"[1, 2, 3]"#));
    assert_eq!(errors.len(), 2);
    assert!(matches!(errors[1].kind, ValidationErrorKind::FalseSchema));
    assert_eq!(errors[1].schema_path.pointer(), "/items/1");
}

#[test]
fn no_branch_of_any_of_gives_one_error_with_the_branches() {
    let validator = validator_for(&json(r#"{"anyOf":[{"type":"string"},{"required":["a"]}]}"#)).unwrap();
    assert!(validator.is_valid(&json(r#""x""#)));
    assert!(validator.is_valid(&json(r#"{"a":1}"#)));
    let errors = validator.iter_errors(&json("{}"));
    assert_eq!(errors.len(), 1);
    match &errors[0].kind {
        ValidationErrorKind::AnyOf { context } => {
            assert_eq!(context.len(), 2);
            assert_eq!(context[1][0].message(), r#""a" is a required property"#);
        }
        other => panic!("unexpected kind {:?}", other),
    }
    assert_eq!(
        errors[0].message(),
        "{} is not valid under any of the schemas listed in the 'anyOf' keyword"
    );
}

#[test]
fn a_constant_admits_its_value_alone() {
    let validator = validator_for(&json(r#"{"const":{"a":[1,"x"],"b":null}}"#)).unwrap();
    assert!(validator.is_valid(&json(r#"{"b":null,"a":[1,"x"]}"#)));
    let error = first_error(&validator, &json(r#"{"a":[1,"y"],"b":null}"#));
    assert!(matches!(error.kind, ValidationErrorKind::Constant { .. }));
    assert_eq!(error.message(), r#"{"a":[1,"x"],"b":null} was expected"#);
}

#[test]
fn a_count_must_keep_its_limit() {
    let schema = json(
        r#"{"maxLength":3,"minItems":1,"maxItems":2,"minProperties":1,"maxProperties":2}"#,
    );
    let validator = validator_for(&schema).expect("schema compiles");
    for good in [r#""abc""#, r#""""#, "[1]", "[1,2]", r#"{"a":1}"#, r#"{"a":1,"b":2}"#, "5", "null"] {
        assert!(validator.is_valid(&json(good)), "{good}");
    }
    let cases = [
        (r#""abcd""#, "maxLength", r#""abcd" is longer than 3 character(s)"#),
        ("[]", "minItems", "[] has less than 1 item(s)"),
        ("[1,2,3]", "maxItems", "[1,2,3] has more than 2 item(s)"),
        ("{}", "minProperties", "{} has less than 1 propert(y/ies)"),
        (r#"{"a":1,"b":2,"c":3}"#, "maxProperties", r#"{"a":1,"b":2,"c":3} has more than 2 propert(y/ies)"#),
    ];
    for (instance, keyword, message) in cases {
        let errors = validator.iter_errors(&json(instance));
        assert_eq!(errors.len(), 1, "{instance}");
        assert_eq!(errors[0].schema_path.pointer(), format!("/{keyword}"));
        assert_eq!(errors[0].message(), message);
        assert!(!validator.is_valid(&json(instance)));
    }
    // A string is counted by its characters, not by its bytes.
    assert!(validator.is_valid(&json(r#""äöü""#)));
    let error = validator_for(&json(r#"{"maxItems":-1}"#)).expect_err("must not build");
    assert_eq!(error.schema_path.pointer(), "/maxItems");
    assert!(validator_for(&json(r#"{"minProperties":"1"}"#)).is_err());
}

#[test]
fn a_value_must_not_satisfy_the_schema_of_not() {
    let schema = json(r#"{"not":{"type":"string","minLength":2}}"#);
    let validator = validator_for(&schema).expect("schema compiles");
    assert!(validator.is_valid(&json("1")));
    assert!(validator.is_valid(&json(r#""a""#)));
    assert!(!validator.is_valid(&json(r#""ab""#)));
    let errors = validator.iter_errors(&json(r#""ab""#));
    assert_eq!(errors.len(), 1);
    assert!(matches!(errors[0].kind, ValidationErrorKind::Not { .. }));
    assert_eq!(errors[0].schema_path.pointer(), "/not");
    assert_eq!(errors[0].message(), r#"{"minLength":2,"type":"string"} is not allowed for "ab""#);
    assert!(!validator_for(&json(r#"{"not":true}"#)).unwrap().is_valid(&json("null")));
    assert!(validator_for(&json(r#"{"not":false}"#)).unwrap().is_valid(&json("null")));
    let error = validator_for(&json(r#"{"not":{"type":"text"}}"#)).expect_err("must not build");
    assert_eq!(error.schema_path.pointer(), "/not/type");
    let through = json(r##"{"$defs":{"s":{"type":"string"}},"not":{"$ref":"#/$defs/s"}}"##);
    let validator = validator_for(&through).expect("schema compiles");
    assert!(validator.is_valid(&json("1")));
    assert!(!validator.is_valid(&json(r#""x""#)));
}

#[test]
fn the_condition_chooses_the_schema_that_must_hold() {
    let schema = json(
        r#"{"if":{"required":["kind"]},"then":{"required":["name"]},"else":{"maxProperties":1}}"#,
    );
    let validator = build(Draft::Draft202012, &schema);
    assert!(validator.is_valid(&json(r#"{"kind":1,"name":2,"x":3}"#)));
    assert!(validator.is_valid(&json(r#"{"x":3}"#)));
    assert!(validator.is_valid(&json("5")));
    let errors = validator.iter_errors(&json(r#"{"kind":1}"#));
    assert_eq!(errors.len(), 1);
    assert_eq!(errors[0].schema_path.pointer(), "/then/required");
    let errors = validator.iter_errors(&json(r#"{"a":1,"b":2}"#));
    assert_eq!(errors.len(), 1);
    assert_eq!(errors[0].schema_path.pointer(), "/else/maxProperties");
    // Without `then`, a value that satisfies the condition passes.
    let only_else = build(Draft::Draft7, &json(r#"{"if":{"type":"string"},"else":{"type":"integer"}}"#));
    assert!(only_else.is_valid(&json(r#""s""#)));
    assert!(only_else.is_valid(&json("1")));
    assert!(!only_else.is_valid(&json("null")));
    // The oldest drafts do not know the keyword.
    assert!(build(Draft::Draft4, &json(r#"{"if":{"type":"string"},"else":{"type":"integer"}}"#))
        .is_valid(&json("null")));
    let error = validator_for(&json(r#"{"if":true,"then":{"type":"text"}}"#)).expect_err("must not build");
    assert_eq!(error.schema_path.pointer(), "/then/type");
}

#[test]
fn a_member_brings_the_schema_that_depends_on_it() {
    let schema = json(r#"{"dependentSchemas":{"card":{"required":["address"]},"x":false}}"#);
    let validator = build(Draft::Draft202012, &schema);
    assert!(validator.is_valid(&json(r#"{"name":1}"#)));
    assert!(validator.is_valid(&json(r#"{"card":1,"address":2}"#)));
    assert!(validator.is_valid(&json(r#"["card"]"#)));
    let errors = validator.iter_errors(&json(r#"{"card":1,"x":2}"#));
    assert_eq!(errors.len(), 2);
    assert_eq!(errors[0].schema_path.pointer(), "/dependentSchemas/card/required");
    assert_eq!(errors[1].schema_path.pointer(), "/dependentSchemas/x");
    assert!(validator_for(&json(r#"{"dependentSchemas":[]}"#)).is_err());
}

#[test]
fn the_condition_and_the_dependent_schemas_count_as_assessments() {
    let schema = json(
        r#"{
            "if": {"required": ["kind"]},
            "then": {"properties": {"kind": true, "then": true}},
            "else": {"properties": {"else": true}},
            "dependentSchemas": {"p": {"properties": {"p": true, "q": true}}},
            "unevaluatedProperties": false
        }"#,
    );
    let validator = build(Draft::Draft202012, &schema);
    assert!(validator.is_valid(&json(r#"{"kind":1,"then":0}"#)));
    assert!(!validator.is_valid(&json(r#"{"kind":1,"else":0}"#)));
    assert!(validator.is_valid(&json(r#"{"else":0}"#)));
    assert!(!validator.is_valid(&json(r#"{"then":0}"#)));
    assert!(validator.is_valid(&json(r#"{"p":1,"q":0}"#)));
    assert!(!validator.is_valid(&json(r#"{"q":0}"#)));
}

#[test]
fn no_item_may_occur_twice() {
    let validator = validator_for(&json(r#"{"uniqueItems":true}"#)).expect("schema compiles");
    for good in ["[]", "[1]", "[1,2,3]", r#"[1,"1",[1],{"a":1}]"#, r#"[{"a":1,"b":2},{"a":2,"b":1}]"#, "5"] {
        assert!(validator.is_valid(&json(good)), "{good}");
    }
    for bad in ["[1,1]", r#"["a","b","a"]"#, r#"[{"a":1,"b":2},{"b":2,"a":1}]"#, "[[1],[1]]", "[null,null]"] {
        assert!(!validator.is_valid(&json(bad)), "{bad}");
        let errors = validator.iter_errors(&json(bad));
        assert_eq!(errors.len(), 1);
        assert!(matches!(errors[0].kind, ValidationErrorKind::UniqueItems));
        assert_eq!(errors[0].schema_path.pointer(), "/uniqueItems");
    }
    assert!(validator_for(&json(r#"{"uniqueItems":false}"#)).unwrap().is_valid(&json("[1,1]")));
    assert!(validator_for(&json(r#"{"uniqueItems":1}"#)).is_err());
}

#[test]
fn an_array_must_contain_items_that_satisfy_the_schema() {
    let plain = build(Draft::Draft7, &json(r#"{"contains":{"type":"integer"},"minContains":3}"#));
    assert!(plain.is_valid(&json(r#"["a",1]"#)));
    assert!(plain.is_valid(&json("5")));
    let errors = plain.iter_errors(&json(r#"["a","b"]"#));
    assert_eq!(errors.len(), 1);
    assert!(matches!(errors[0].kind, ValidationErrorKind::Contains));
    assert_eq!(errors[0].schema_path.pointer(), "/contains");
    assert!(!plain.is_valid(&json("[]")));

    let counted = build(
        Draft::Draft202012,
        &json(r#"{"contains":{"type":"integer"},"minContains":2,"maxContains":3}"#),
    );
    assert!(counted.is_valid(&json(r#"[1,"a",2]"#)));
    assert!(counted.is_valid(&json("[1,2,3]")));
    let errors = counted.iter_errors(&json(r#"[1,"a"]"#));
    assert_eq!(errors.len(), 1);
    assert!(matches!(errors[0].kind, ValidationErrorKind::MinContains { limit: 2 }));
    assert_eq!(errors[0].schema_path.pointer(), "/minContains");
    let errors = counted.iter_errors(&json("[1,2,3,4]"));
    assert_eq!(errors.len(), 1);
    assert!(matches!(errors[0].kind, ValidationErrorKind::MaxContains { limit: 3 }));
    assert_eq!(errors[0].schema_path.pointer(), "/maxContains");

    let none = build(Draft::Draft202012, &json(r#"{"contains":{"type":"integer"},"minContains":0}"#));
    assert!(none.is_valid(&json("[]")));
    assert!(none.is_valid(&json(r#"["a"]"#)));
    assert!(options()
        .with_draft(Draft::Draft202012)
        .build(&json(r#"{"contains":true,"minContains":"1"}"#))
        .is_err());
    assert!(options().with_draft(Draft::Draft7).build(&json(r#"{"contains":true,"minContains":"1"}"#)).is_ok());
}

#[test]
fn the_name_of_each_member_must_satisfy_the_schema() {
    let validator = build(Draft::Draft7, &json(r#"{"propertyNames":{"maxLength":3,"enum":["a","abc","abcd"]}}"#));
    assert!(validator.is_valid(&json(r#"{"a":1,"abc":2}"#)));
    assert!(validator.is_valid(&json("{}")));
    assert!(validator.is_valid(&json(r#"["abcd"]"#)));
    let errors = validator.iter_errors(&json(r#"{"a":1,"abcd":2,"zz":3}"#));
    assert_eq!(errors.len(), 2);
    for error in &errors {
        assert_eq!(error.schema_path.pointer(), "/propertyNames");
        assert_eq!(error.instance_path.pointer(), "");
    }
    match &errors[0].kind {
        ValidationErrorKind::PropertyNames { error } => {
            assert!(matches!(error.kind, ValidationErrorKind::MaxLength { limit: 3 }));
            assert_eq!(error.schema_path.pointer(), "/propertyNames/maxLength");
        }
        other => panic!("unexpected kind {:?}", other),
    }
    match &errors[1].kind {
        ValidationErrorKind::PropertyNames { error } => {
            assert!(matches!(error.kind, ValidationErrorKind::Enum { .. }));
        }
        other => panic!("unexpected kind {:?}", other),
    }
    assert!(build(Draft::Draft4, &json(r#"{"propertyNames":false}"#)).is_valid(&json(r#"{"a":1}"#)));
    assert!(!build(Draft::Draft6, &json(r#"{"propertyNames":false}"#)).is_valid(&json(r#"{"a":1}"#)));
}

#[test]
fn a_member_brings_the_members_that_it_requires() {
    let schema = json(r#"{"dependentRequired":{"card":["address","zip"],"x":[]}}"#);
    let validator = build(Draft::Draft202012, &schema);
    assert!(validator.is_valid(&json(r#"{"name":1}"#)));
    assert!(validator.is_valid(&json(r#"{"card":1,"address":2,"zip":3,"x":4}"#)));
    assert!(validator.is_valid(&json(r#"["card"]"#)));
    let errors = validator.iter_errors(&json(r#"{"card":1}"#));
    assert_eq!(errors.len(), 2);
    assert!(matches!(&errors[0].kind, ValidationErrorKind::Required { property } if property.as_str() == Some("address")));
    assert!(matches!(&errors[1].kind, ValidationErrorKind::Required { property } if property.as_str() == Some("zip")));
    assert_eq!(errors[0].schema_path.pointer(), "/dependentRequired/card");
    assert!(!validator.is_valid(&json(r#"{"card":1,"zip":3}"#)));
    assert!(validator_for(&json(r#"{"dependentRequired":{"a":["b","b"]}}"#)).is_err());
    assert!(validator_for(&json(r#"{"dependentRequired":{"a":"b"}}"#)).is_err());
    assert!(validator_for(&json(r#"{"dependentRequired":[]}"#)).is_err());
    assert!(build(Draft::Draft7, &json(r#"{"dependentRequired":{"a":["b"]}}"#)).is_valid(&json(r#"{"a":1}"#)));
}
