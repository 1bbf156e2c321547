use jsonschema::arrange::{rank, Rank};
use jsonschema::error::{ValidationError, ValidationErrorKind};
use jsonschema::json::{Decimal, Number, ObjectMap, Value};
use jsonschema::options::{parse_draft, EmailOptions, FancyRegexOptions, RegexOptions};
use jsonschema::output::{record, refused_schema_line, report_instance, text_lines, Output};
use jsonschema::paths::{
    escape_segment, is_index_segment, lookup, parse_index, split_pointer, unescape_segment, Location,
};
use jsonschema::payload::kind_payload;
use jsonschema::render::render;
use jsonschema::retriever::{is_integer_text, RetrieverError};
use jsonschema::static_id::StaticId;
use jsonschema::text::{u64_to_string, usize_to_string};
use jsonschema::types::{Draft, JsonType};
use jsonschema::uri::path_to_uri;
use jsonschema::validator::{draft_from_uri, validator_for};
use jsonschema::verbose::build_verbose_message;

fn convert(value: &serde_json::Value) -> Value {
    match value {
        serde_json::Value::Null => Value::Null,
        serde_json::Value::Bool(b) => Value::Bool(*b),
        serde_json::Value::Number(n) => {
            if let Some(u) = n.as_u64() {
                Value::Number(Number::PosInt(u))
            } else if let Some(i) = n.as_i64() {
                Value::Number(Number::NegInt(i))
            } else {
                let f = n.as_f64().unwrap_or(0.0);
                Value::Number(Number::Float(Decimal {
                    text: n.to_string(),
                    integral: f.fract() == 0.0,
                }))
            }
        }
        serde_json::Value::String(s) => Value::String(s.clone()),
        serde_json::Value::Array(items) => Value::Array(items.iter().map(convert).collect()),
        serde_json::Value::Object(map) => {
            let mut out = ObjectMap::new();
            for (k, v) in map {
                out.insert(k.clone(), convert(v));
            }
            Value::Object(out)
        }
    }
}

fn json(text: &str) -> Value {
    convert(&serde_json::from_str::<serde_json::Value>(text).unwrap())
}

fn location(names: &[&str]) -> Location {
    let mut location = Location::new();
    for name in names {
        location = location.join(name);
    }
    location
}

#[test]
fn numbers_are_written_in_decimal() {
    assert_eq!(u64_to_string(0), "0");
    assert_eq!(u64_to_string(7), "7");
    assert_eq!(u64_to_string(10), "10");
    assert_eq!(u64_to_string(1203), "1203");
    assert_eq!(u64_to_string(u64::MAX), "18446744073709551615");
    assert_eq!(usize_to_string(42), "42");
}

#[test]
fn values_are_rendered_as_compact_json() {
    let cases = [
        "null",
        "true",
        "false",
        "0",
        "-17",
        "-9223372036854775808",
        "18446744073709551615",
        "1.5",
        r#""plain""#,
        r#""quote \" and \\ and \n and \u0001 and é""#,
        "[]",
        r#"[1,"a",[null],{}]"#,
        r#"{"a":1,"b":{"c":[true,false]},"we\"ird":null}"#,
    ];
    for case in cases {
        let parsed: serde_json::Value = serde_json::from_str(case).unwrap();
        assert_eq!(render(&convert(&parsed)), serde_json::to_string(&parsed).unwrap());
    }
    assert_eq!(render(&Value::String("a\"b".to_string())), r#""a\"b""#);
}

#[test]
fn names_are_escaped_for_pointers_and_read_back() {
    assert_eq!(escape_segment("plain"), "plain");
    assert_eq!(escape_segment("a/b"), "a~1b");
    assert_eq!(escape_segment("a~b"), "a~0b");
    assert_eq!(escape_segment("~/~"), "~0~1~0");
    assert_eq!(unescape_segment("a~1b"), "a/b");
    assert_eq!(unescape_segment("a~0b"), "a~b");
    assert_eq!(unescape_segment("~01"), "~1");
    assert_eq!(unescape_segment("~"), "~");
    assert_eq!(unescape_segment("~2"), "~2");
    for name in ["", "x", "a/b~c", "~~//", "~0~1"] {
        assert_eq!(unescape_segment(&escape_segment(name)), name);
    }
}

#[test]
fn a_location_is_shown_as_a_pointer() {
    assert_eq!(Location::new().pointer(), "");
    let location = Location::new().join("properties").join("a/b").join_index(12).join("~");
    assert_eq!(location.pointer(), "/properties/a~1b/12/~0");
    assert_eq!(location.len(), 4);
    assert!(location.starts_with(&Location::new().join("properties")));
    assert!(!location.starts_with(&Location::new().join("items")));
}

#[test]
fn a_pointer_is_split_at_its_slashes() {
    assert_eq!(split_pointer(""), Vec::<String>::new());
    assert_eq!(split_pointer("/"), vec!["".to_string()]);
    assert_eq!(split_pointer("/a/b"), vec!["a".to_string(), "b".to_string()]);
    assert_eq!(split_pointer("/a//b/"), vec!["a", "", "b", ""]);
    assert_eq!(split_pointer("lead/a"), vec!["a".to_string()]);
    assert_eq!(split_pointer("nothing"), Vec::<String>::new());
}

#[test]
fn a_segment_of_digits_is_read_as_an_index() {
    assert!(is_index_segment("0"));
    assert!(is_index_segment("0012"));
    assert!(!is_index_segment(""));
    assert!(!is_index_segment("1a"));
    assert!(!is_index_segment("-1"));
    assert_eq!(parse_index("0"), Some(0));
    assert_eq!(parse_index("42"), Some(42));
    assert_eq!(parse_index("007"), Some(7));
    assert_eq!(parse_index(""), None);
    assert_eq!(parse_index("4x"), None);
    assert_eq!(parse_index(&usize::MAX.to_string()), Some(usize::MAX));
    assert_eq!(parse_index("99999999999999999999999999"), None);
}

#[test]
fn a_location_leads_into_a_value() {
    let value = json(r#"{"a": [10, {"b": null}], "0": "zero"}"#);
    let found = lookup(&value, &Location::new().join("a").join_index(1).join("b"));
    assert!(matches!(found, Some(Value::Null)));
    assert!(matches!(lookup(&value, &Location::new().join("0")), Some(Value::String(_))));
    assert!(lookup(&value, &Location::new().join("a").join_index(2)).is_none());
    assert!(lookup(&value, &Location::new().join("a").join("b")).is_none());
    assert!(lookup(&value, &Location::new().join_index(0)).is_none());
    assert!(matches!(lookup(&value, &Location::new()), Some(Value::Object(_))));
}

#[test]
fn the_member_of_an_object_is_replaced_in_place() {
    let mut map = ObjectMap::new();
    assert!(map.is_empty());
    map.insert("a".to_string(), Value::Null);
    map.insert("b".to_string(), Value::Bool(true));
    map.insert("a".to_string(), Value::Bool(false));
    assert_eq!(map.len(), 2);
    assert!(matches!(map.get("a"), Some(Value::Bool(false))));
    assert!(matches!(map.get("b"), Some(Value::Bool(true))));
    assert!(map.get("c").is_none());
    assert!(map.contains_key("b"));
    assert_eq!(map.position("b"), Some(1));
    assert_eq!(map.key_at(0), "a");
}

#[test]
fn a_path_becomes_a_file_uri() {
    let components = |names: &[&str]| -> Vec<Vec<u8>> {
        names.iter().map(|name| name.as_bytes().to_vec()).collect()
    };
    assert_eq!(path_to_uri(&components(&[])), "file://");
    assert_eq!(path_to_uri(&components(&["tmp", "schema.json"])), "file:///tmp/schema.json");
    assert_eq!(path_to_uri(&components(&["a b", "c#d?e"])), "file:///a%20b/c%23d%3Fe");
    assert_eq!(path_to_uri(&components(&["100%", "back\\slash"])), "file:///100%25/back%5Cslash");
    assert_eq!(path_to_uri(&components(&["é"])), "file:///%C3%A9");
    assert_eq!(path_to_uri(&vec![vec![0x01, b'{', b'}', b'~']]), "file:///%01%7B%7D~");
}

#[test]
fn the_long_message_names_both_places_and_the_value() {
    let root = json(r#"{"items": [{"name": 5}], "7": {"x": 1}}"#);
    let failing = json("5");
    let message = build_verbose_message(
        "5 is not of type \"string\"".to_string(),
        &location(&["properties", "items"]).join("items").join("properties").join("name").join("type"),
        &Location::new().join("items").join_index(0).join("name"),
        Some(&root),
        &failing,
        None,
    );
    assert_eq!(
        message,
        "5 is not of type \"string\"\n\nFailed validating \"type\" in schema[\"properties\"][\"items\"][\"items\"][\"properties\"][\"name\"]\n\nOn instance[\"items\"][0][\"name\"]:\n    5"
    );
    let message = build_verbose_message(
        "m".to_string(),
        &location(&["prefixItems"]).join_index(1).join("properties").join("0").join("type"),
        &Location::new().join("7").join("x"),
        Some(&root),
        &failing,
        Some("[hidden]"),
    );
    assert_eq!(
        message,
        "m\n\nFailed validating \"type\" in schema[\"prefixItems\"][1][\"properties\"][\"0\"]\n\nOn instance[\"7\"][\"x\"]:\n    [hidden]"
    );
    let message = build_verbose_message(
        "m".to_string(),
        &Location::new(),
        &Location::new().join_index(3).join("a/b"),
        None,
        &json(r#"{"k":[1]}"#),
        None,
    );
    assert_eq!(message, "m\n\nFailed validating in schema\n\nOn instance[3][\"a/b\"]:\n    {\"k\":[1]}");
}

#[test]
fn an_error_is_described_by_its_kind_and_its_values() {
    let validator = validator_for(&json(r#"{"oneOf":[{"type":"string"},{"required":["a"]}]}"#)).unwrap();
    let error = validator.validate(&json("{}")).unwrap_err();
    assert_eq!(error.kind.keyword(), "oneOf");
    assert_eq!(
        render(&kind_payload(&error.kind, None)),
        r#"{"reason":"notValid","context":[[{"message":"{} is not of type \"string\"","instance_path":"","schema_path":"/oneOf/0/type","evaluation_path":"/oneOf/0/type","kind":"type"}],[{"message":"\"a\" is a required property","instance_path":"","schema_path":"/oneOf/1/required","evaluation_path":"/oneOf/1/required","kind":"required"}]]}"#
    );
    assert_eq!(
        render(&kind_payload(&error.kind, Some("***"))),
        r#"{"reason":"notValid","context":[[{"message":"*** is not of type \"string\"","instance_path":"","schema_path":"/oneOf/0/type","evaluation_path":"/oneOf/0/type","kind":"type"}],[{"message":"\"a\" is a required property","instance_path":"","schema_path":"/oneOf/1/required","evaluation_path":"/oneOf/1/required","kind":"required"}]]}"#
    );
    assert_eq!(error.masked_message("***"), "*** is not valid under any of the schemas listed in the 'oneOf' keyword");
    let cases: Vec<(ValidationErrorKind, &str, &str)> = vec![
        (ValidationErrorKind::AdditionalItems { limit: 2 }, "additionalItems", r#"{"limit":2}"#),
        (
            ValidationErrorKind::AdditionalProperties { unexpected: vec!["a".into(), "b".into()] },
            "additionalProperties",
            r#"{"unexpected":["a","b"]}"#,
        ),
        (ValidationErrorKind::Constant { expected_value: json("[1]") }, "const", r#"{"expected_value":[1]}"#),
        (ValidationErrorKind::Contains, "contains", "{}"),
        (ValidationErrorKind::FalseSchema, "falseSchema", "{}"),
        (ValidationErrorKind::UniqueItems, "uniqueItems", "{}"),
        (ValidationErrorKind::Format { format: "email".into() }, "format", r#"{"format":"email"}"#),
        (ValidationErrorKind::MaxLength { limit: 3 }, "maxLength", r#"{"limit":3}"#),
        (ValidationErrorKind::Minimum { limit: json("1.5") }, "minimum", r#"{"limit":1.5}"#),
        (ValidationErrorKind::MultipleOf { multiple_of: json("2") }, "multipleOf", r#"{"multiple_of":2}"#),
        (ValidationErrorKind::Not { schema: json("{}") }, "not", r#"{"schema":{}}"#),
        (ValidationErrorKind::Pattern { pattern: "^a".into() }, "pattern", r#"{"pattern":"^a"}"#),
        (ValidationErrorKind::Referencing { message: "gone".into() }, "$ref", r#"{"error":"gone"}"#),
        (ValidationErrorKind::Required { property: json(r#""a""#) }, "required", r#"{"property":"a"}"#),
        (
            ValidationErrorKind::Type { kind: jsonschema::error::TypeKind::Single(JsonType::Null) },
            "type",
            r#"{"types":["null"]}"#,
        ),
        (
            ValidationErrorKind::Type {
                kind: jsonschema::error::TypeKind::Multiple(vec![JsonType::Null, JsonType::Array]),
            },
            "type",
            r#"{"types":["null","array"]}"#,
        ),
        (
            ValidationErrorKind::Custom { keyword: "mine".into(), message: "no".into() },
            "mine",
            r#"{"message":"no"}"#,
        ),
    ];
    for (kind, keyword, payload) in cases {
        assert_eq!(kind.keyword(), keyword);
        assert_eq!(render(&kind_payload(&kind, None)), payload);
    }
}

#[test]
fn each_kind_of_error_has_its_message() {
    let cases: Vec<(ValidationErrorKind, &str)> = vec![
        (ValidationErrorKind::AdditionalItems { limit: 2 }, "Additional items are not allowed (at most 2 expected)"),
        (
            ValidationErrorKind::AdditionalProperties { unexpected: vec!["a".into()] },
            "Additional properties are not allowed ('a' was unexpected)",
        ),
        (ValidationErrorKind::Contains, "None of X are valid under the given schema"),
        (ValidationErrorKind::ContentEncoding { content_encoding: "base64".into() }, "X is not compliant with \"base64\" content encoding"),
        (ValidationErrorKind::ContentMediaType { content_media_type: "a/b".into() }, "X is not compliant with \"a/b\" media type"),
        (ValidationErrorKind::Enum { options: json("[1,2]") }, "X is not one of [1,2]"),
        (ValidationErrorKind::ExclusiveMaximum { limit: json("3") }, "X is greater than or equal to the maximum of 3"),
        (ValidationErrorKind::ExclusiveMinimum { limit: json("3") }, "X is less than or equal to the minimum of 3"),
        (ValidationErrorKind::FalseSchema, "False schema does not allow X"),
        (ValidationErrorKind::Format { format: "email".into() }, "X is not a \"email\""),
        (ValidationErrorKind::MaxItems { limit: 1 }, "X has more than 1 item(s)"),
        (ValidationErrorKind::MaxLength { limit: 1 }, "X is longer than 1 character(s)"),
        (ValidationErrorKind::MaxProperties { limit: 1 }, "X has more than 1 propert(y/ies)"),
        (ValidationErrorKind::Maximum { limit: json("3") }, "X is greater than the maximum of 3"),
        (ValidationErrorKind::MinItems { limit: 1 }, "X has less than 1 item(s)"),
        (ValidationErrorKind::MinLength { limit: 12 }, "X is shorter than 12 character(s)"),
        (ValidationErrorKind::MinProperties { limit: 1 }, "X has less than 1 propert(y/ies)"),
        (ValidationErrorKind::Minimum { limit: json("3") }, "X is less than the minimum of 3"),
        (ValidationErrorKind::MultipleOf { multiple_of: json("3") }, "X is not a multiple of 3"),
        (ValidationErrorKind::Not { schema: json("{}") }, "{} is not allowed for X"),
        (ValidationErrorKind::Pattern { pattern: "^a".into() }, "X does not match \"^a\""),
        (ValidationErrorKind::Referencing { message: "gone".into() }, "gone"),
        (
            ValidationErrorKind::Type {
                kind: jsonschema::error::TypeKind::Multiple(vec![JsonType::Null, JsonType::Array]),
            },
            "X is not of types \"null\", \"array\"",
        ),
        (
            ValidationErrorKind::UnevaluatedItems { unexpected: vec!["1".into(), "2".into()] },
            "Unevaluated items are not allowed ('1', '2' were unexpected)",
        ),
        (ValidationErrorKind::UniqueItems, "X has non-unique elements"),
    ];
    for (kind, message) in cases {
        assert_eq!(kind.message("X"), message);
    }
}

#[test]
fn the_constructors_of_errors_fill_every_part() {
    let instance = json(r#"{"a":1}"#);
    let error = ValidationError::required(
        location(&["required"]),
        location(&["x", "required"]),
        location(&["at"]),
        &instance,
        Value::String("b".into()),
    );
    assert_eq!(error.schema_path.pointer(), "/required");
    assert_eq!(error.evaluation_path.pointer(), "/x/required");
    assert_eq!(error.instance_path.pointer(), "/at");
    assert_eq!(render(&error.instance), r#"{"a":1}"#);
    let error = ValidationError::single_type_error(
        Location::new(),
        Location::new(),
        Location::new(),
        &instance,
        JsonType::Array,
    );
    assert_eq!(error.message(), r#"{"a":1} is not of type "array""#);
    let error = ValidationError::unevaluated_properties(
        Location::new(),
        Location::new(),
        Location::new(),
        &instance,
        vec!["a".into()],
    );
    assert_eq!(error.message(), "Unevaluated properties are not allowed ('a' was unexpected)");
    let error = ValidationError::format(Location::new(), Location::new(), Location::new(), &instance, "regex");
    assert!(matches!(error.kind, ValidationErrorKind::Format { ref format } if format == "regex"));
}

#[test]
fn the_options_describe_themselves() {
    let email = EmailOptions::new(None, None, None, None);
    assert_eq!(
        email.inspect(),
        "#<JSONSchema::EmailOptions require_tld=false, allow_domain_literal=true, allow_display_text=true, minimum_sub_domains=nil>"
    );
    let email = EmailOptions::new(Some(true), Some(false), Some(false), Some(2));
    assert_eq!(
        email.inspect(),
        "#<JSONSchema::EmailOptions require_tld=true, allow_domain_literal=false, allow_display_text=false, minimum_sub_domains=2>"
    );
    let regex = RegexOptions { size_limit: Some(1024), dfa_size_limit: None };
    assert_eq!(regex.inspect(), "#<JSONSchema::RegexOptions size_limit=1024, dfa_size_limit=nil>");
    let fancy = FancyRegexOptions { backtrack_limit: Some(10), size_limit: None, dfa_size_limit: Some(0) };
    assert_eq!(
        fancy.inspect(),
        "#<JSONSchema::FancyRegexOptions backtrack_limit=10, size_limit=nil, dfa_size_limit=0>"
    );
    assert_eq!(jsonschema::options::inspect_validator(Draft::Draft7), "#<JSONSchema::Draft7Validator>");
}

#[test]
fn the_name_of_a_draft_is_read_or_refused() {
    assert_eq!(parse_draft("draft4"), Ok(Draft::Draft4));
    assert_eq!(parse_draft("draft6"), Ok(Draft::Draft6));
    assert_eq!(parse_draft("draft7"), Ok(Draft::Draft7));
    assert_eq!(parse_draft("draft201909"), Ok(Draft::Draft201909));
    assert_eq!(parse_draft("draft202012"), Ok(Draft::Draft202012));
    assert_eq!(
        parse_draft("draft3"),
        Err("Unknown draft: :draft3. Valid drafts: :draft4, :draft6, :draft7, :draft201909, :draft202012".to_string())
    );
    assert_eq!(draft_from_uri("http://json-schema.org/draft-07/schema#"), Some(Draft::Draft7));
    assert_eq!(draft_from_uri("https://json-schema.org/draft/2019-09/schema"), Some(Draft::Draft201909));
    assert_eq!(draft_from_uri("a.json"), None);
    let validator = validator_for(&json(r#"{"$schema":"http://json-schema.org/draft-04/schema#","type":"integer"}"#)).unwrap();
    assert_eq!(validator.get_draft(), Draft::Draft4);
    assert!(!validator.is_valid(&json("1.0")));
    assert_eq!(JsonType::from_name("object"), Some(JsonType::Object));
    assert_eq!(JsonType::from_name("Object"), None);
    assert_eq!(JsonType::Integer.as_str(), "integer");
}

#[test]
fn the_failure_of_a_retriever_is_put_in_words() {
    assert_eq!(
        RetrieverError::ReturnedNil { uri: "http://x/y".into() }.message(),
        "Retriever returned nil for URI: http://x/y"
    );
    assert_eq!(
        RetrieverError::ConversionFailed { message: "bad".into() }.message(),
        "Failed to convert retriever result: bad"
    );
    assert_eq!(
        RetrieverError::CallbackFailed { uri: "u".into(), message: "boom".into() }.message(),
        "Retriever failed for u: boom"
    );
}

#[test]
fn the_text_of_a_number_tells_whether_it_is_an_integer() {
    assert!(is_integer_text("0"));
    assert!(is_integer_text("-123456789012345678901234567890"));
    assert!(!is_integer_text("1.0"));
    assert!(!is_integer_text("1e5"));
    assert!(!is_integer_text("2E+3"));
    assert!(is_integer_text(""));
}

#[test]
fn an_identifier_is_never_zero() {
    assert!(StaticId::from_raw(0).is_none());
    let id = StaticId::from_raw(17).unwrap();
    assert_eq!(id.as_raw(), 17);
    let copy = id;
    assert_eq!(copy.as_raw(), id.as_raw());
}

#[test]
fn instances_are_reported_in_the_form_asked_for() {
    assert_eq!(Output::Text.as_str(), "text");
    assert_eq!(Output::Flag.as_str(), "flag");
    assert_eq!(Output::List.as_str(), "list");
    assert_eq!(Output::Hierarchical.as_str(), "hierarchical");
    let validator = validator_for(&json(r#"{"type":"object","properties":{"name":{"type":"string"},"age":{"type":"number"}}}"#)).unwrap();
    let valid = json(r#"{"name":"John"}"#);
    let invalid = json(r#"{"name":123,"age":"old"}"#);

    let report = report_instance(&validator, Output::Text, "schema.json", "valid.json", &valid, false);
    assert!(report.valid);
    assert_eq!(report.lines, vec!["valid.json - VALID".to_string()]);
    let report = report_instance(&validator, Output::Text, "schema.json", "valid.json", &valid, true);
    assert!(report.valid);
    assert!(report.lines.is_empty());
    let report = report_instance(&validator, Output::Text, "schema.json", "invalid.json", &invalid, true);
    assert!(!report.valid);
    assert_eq!(
        report.lines,
        vec![
            "invalid.json - INVALID. Errors:".to_string(),
            "1. \"old\" is not of type \"number\"".to_string(),
            "2. 123 is not of type \"string\"".to_string(),
        ]
    );

    let report = report_instance(&validator, Output::Flag, "schema.json", "valid.json", &valid, false);
    assert_eq!(
        report.lines,
        vec![r#"{"output":"flag","schema":"schema.json","instance":"valid.json","payload":{"valid":true}}"#.to_string()]
    );
    let report = report_instance(&validator, Output::Flag, "schema.json", "valid.json", &valid, true);
    assert!(report.lines.is_empty());
    let report = report_instance(&validator, Output::Flag, "schema.json", "invalid.json", &invalid, true);
    assert!(!report.valid);
    assert_eq!(
        report.lines,
        vec![r#"{"output":"flag","schema":"schema.json","instance":"invalid.json","payload":{"valid":false}}"#.to_string()]
    );
    for output in [Output::List, Output::Hierarchical] {
        let report = report_instance(&validator, output, "s", "i", &invalid, false);
        assert_eq!(report.lines.len(), 1);
        let line: serde_json::Value = serde_json::from_str(&report.lines[0]).unwrap();
        assert_eq!(line["output"], output.as_str());
        assert_eq!(line["payload"]["valid"], false);
        assert!(line["payload"]["details"].is_array());
    }
    let lines = text_lines("f", &validator.iter_errors(&invalid), false);
    assert_eq!(lines.len(), 3);
    assert_eq!(
        render(&record(Output::List, "s", "i", Value::Null)),
        r#"{"output":"list","schema":"s","instance":"i","payload":null}"#
    );
    let error = validator_for(&json(r#"{"type":"invalid"}"#)).unwrap_err();
    assert!(refused_schema_line(&error).starts_with("Schema is invalid. Error: \"invalid\" is not one of ["));
}

#[test]
fn the_results_of_keywords_stand_below_their_schema() {
    let validator = validator_for(&json(
        r#"{"type":"object","properties":{"name":{"type":"string"},"tags":{"items":{"type":"string"}}},"required":["name"]}"#,
    ))
    .unwrap();
    let evaluation = validator.evaluate(&json(r#"{"name":"Alice","tags":["a",1]}"#));
    assert!(!evaluation.flag().valid);
    let tree: serde_json::Value = serde_json::from_str(&render(&evaluation.hierarchical())).unwrap();
    assert_eq!(tree["valid"], false);
    assert_eq!(tree["evaluationPath"], "");
    let details = tree["details"].as_array().unwrap();
    let locations: Vec<&str> = details.iter().map(|d| d["schemaLocation"].as_str().unwrap()).collect();
    assert_eq!(locations, vec!["/type", "/required", "/properties"]);
    let properties = &details[2];
    assert_eq!(properties["valid"], false);
    let names: Vec<&str> = properties["droppedAnnotations"].as_array().unwrap().iter().map(|n| n.as_str().unwrap()).collect();
    assert_eq!(names, vec!["name", "tags"]);
    let tags = &properties["details"][1];
    assert_eq!(tags["instanceLocation"], "/tags");
    assert_eq!(tags["schemaLocation"], "/properties/tags");
    let items = &tags["details"][0];
    assert_eq!(items["schemaLocation"], "/properties/tags/items");
    assert_eq!(items["errors"]["type"], "1 at index 1 is not of type \"string\"");
    assert_eq!(items["droppedAnnotations"], true);
}

#[test]
fn the_list_shows_what_applied_in_the_order_of_its_places() {
    let schema = json(r#"{"properties":{"b":{"type":"integer"},"a":{"minLength":2}},"required":["a","b","c"]}"#);
    let validator = validator_for(&schema).expect("schema compiles");
    let evaluation = validator.evaluate(&json(r#"{"a":"x","b":"y"}"#));
    assert!(!evaluation.flag().valid);
    let list = evaluation.list();
    let details = list.as_object().unwrap().get("details").unwrap().as_array().unwrap();
    let mut keys: Vec<(String, String, String)> = Vec::new();
    for unit in details {
        let members = unit.as_object().unwrap();
        assert!(members.get("details").is_none());
        let text = |name: &str| members.get(name).unwrap().as_str().unwrap().to_string();
        keys.push((text("evaluationPath"), text("schemaLocation"), text("instanceLocation")));
        let shows = members.get("errors").is_some()
            || members.get("annotations").is_some()
            || members.get("droppedAnnotations").is_some()
            || keys.last().unwrap().0.is_empty();
        assert!(shows || members.len() == 4);
    }
    let mut sorted = keys.clone();
    sorted.sort();
    assert_eq!(keys, sorted);
    assert_eq!(keys[0].0, "");
    assert!(keys.iter().any(|k| k.0 == "/properties/a/minLength" && k.2 == "/a"));
    assert!(keys.iter().any(|k| k.0 == "/properties/b/type" && k.2 == "/b"));
    assert!(keys.iter().any(|k| k.0 == "/required"));
    let first_a = keys.iter().position(|k| k.0.starts_with("/properties/a")).unwrap();
    let first_b = keys.iter().position(|k| k.0.starts_with("/properties/b")).unwrap();
    assert!(first_a < first_b);
}

#[test]
fn an_evaluation_lists_its_errors_and_its_notes() {
    let schema = json(r#"{"items":{"type":"integer"},"prefixItems":[{"type":"string"}]}"#);
    let validator = validator_for(&schema).expect("schema compiles");
    let evaluation = validator.evaluate(&json(r#"["a",1,"b"]"#));
    let errors = evaluation.iter_errors();
    assert_eq!(errors.len(), 1);
    assert_eq!(errors[0].error.keyword, "type");
    assert_eq!(errors[0].error.message, r#""b" is not of type "integer""#);
    assert_eq!(errors[0].schema_location.pointer(), "/items/type");
    assert_eq!(errors[0].instance_location.pointer(), "/2");
    let valid = validator.evaluate(&json(r#"["a",1,2]"#));
    assert!(valid.iter_errors().is_empty());
    let notes = valid.iter_annotations();
    assert!(notes.iter().any(|n| n.schema_location.pointer() == "/prefixItems"
        && n.instance_location.pointer() == ""
        && render(&n.annotations) == "0"));
    assert!(notes.iter().any(|n| n.schema_location.pointer() == "/items"
        && render(&n.annotations) == "true"));
}

#[test]
fn texts_are_ranked_character_by_character() {
    let chars = |s: &str| s.chars().collect::<Vec<char>>();
    assert_eq!(rank(&chars(""), &chars("")), Rank::Same);
    assert_eq!(rank(&chars(""), &chars("/a")), Rank::Before);
    assert_eq!(rank(&chars("/a"), &chars("/a/b")), Rank::Before);
    assert_eq!(rank(&chars("/b"), &chars("/a/b")), Rank::After);
    assert_eq!(rank(&chars("/items/10"), &chars("/items/2")), Rank::Before);
    assert_eq!(rank(&chars("/x"), &chars("/x")), Rank::Same);
}

fn member<'a>(unit: &'a Value, name: &str) -> Option<&'a Value> {
    unit.as_object().unwrap().get(name)
}

fn details_of(unit: &Value) -> &Vec<Value> {
    member(unit, "details").unwrap().as_array().unwrap()
}

#[test]
fn the_branches_of_a_choice_stand_below_it_whether_they_hold_or_not() {
    let schema = json(r#"{"anyOf":[{"type":"string"},{"type":"integer"}]}"#);
    let validator = validator_for(&schema).expect("schema compiles");
    let tree = validator.evaluate(&json("1")).hierarchical();
    assert_eq!(render(member(&tree, "valid").unwrap()), "true");
    let keywords = details_of(&tree);
    assert_eq!(keywords.len(), 1);
    assert_eq!(render(member(&keywords[0], "evaluationPath").unwrap()), r#""/anyOf""#);
    assert_eq!(render(member(&keywords[0], "valid").unwrap()), "true");
    assert!(member(&keywords[0], "errors").is_none());
    let branches = details_of(&keywords[0]);
    assert_eq!(branches.len(), 2);
    assert_eq!(render(member(&branches[0], "valid").unwrap()), "false");
    assert_eq!(render(member(&branches[0], "schemaLocation").unwrap()), r#""/anyOf/0""#);
    assert_eq!(render(member(&branches[1], "valid").unwrap()), "true");
    let inner = details_of(&branches[0]);
    assert_eq!(
        render(member(&inner[0], "errors").unwrap()),
        r#"{"type":"1 is not of type \"string\""}"#
    );

    let failed = validator.evaluate(&json("null")).hierarchical();
    let keyword = &details_of(&failed)[0];
    assert_eq!(render(member(keyword, "valid").unwrap()), "false");
    assert!(member(keyword, "errors").unwrap().as_object().unwrap().get("anyOf").is_some());
    assert_eq!(details_of(keyword).len(), 2);
}

#[test]
fn what_a_reference_leads_to_stands_below_the_reference() {
    let schema = json(
        r##"{"$defs":{"n":{"type":"string","minLength":3}},"properties":{"name":{"$ref":"#/$defs/n"}}}"##,
    );
    let validator = validator_for(&schema).expect("schema compiles");
    let evaluation = validator.evaluate(&json(r#"{"name":"ab"}"#));
    assert!(!evaluation.flag().valid);
    let errors = evaluation.iter_errors();
    assert_eq!(errors.len(), 1);
    assert_eq!(errors[0].error.keyword, "minLength");
    assert_eq!(errors[0].schema_location.pointer(), "/$defs/n/minLength");
    assert_eq!(errors[0].instance_location.pointer(), "/name");
    let tree = evaluation.hierarchical();
    let properties = &details_of(&tree)[0];
    let name = &details_of(properties)[0];
    let reference = &details_of(name)[0];
    assert_eq!(render(member(reference, "schemaLocation").unwrap()), r#""/properties/name/$ref""#);
    let target = &details_of(reference)[0];
    assert_eq!(render(member(target, "schemaLocation").unwrap()), r#""/$defs/n""#);
    assert_eq!(render(member(target, "evaluationPath").unwrap()), r#""/properties/name/$ref""#);
    let keywords = details_of(target);
    assert_eq!(keywords.len(), 2);
    assert_eq!(
        render(member(&keywords[1], "evaluationPath").unwrap()),
        r#""/properties/name/$ref/minLength""#
    );
    assert_eq!(render(member(&keywords[1], "valid").unwrap()), "false");
}

#[test]
fn a_string_is_rendered_as_a_json_string_literal() {
    let text = "a\"b\\c\nd\te\r\u{8}\u{c}\u{1}\u{1f}/\u{7f}\u{e9}\u{1F600}";
    let expected = "\"a\\\"b\\\\c\\nd\\te\\r\\b\\f\\u0001\\u001f/\u{7f}\u{e9}\u{1F600}\"";
    assert_eq!(render(&Value::String(text.to_string())), expected);
    assert_eq!(render(&Value::String(String::new())), "\"\"");
}
