use qa_gen::GenerationReply;
use qa_gen::JsonValue;
use qa_gen::SchemaError;
use qa_gen::normalize;

fn text(s: &str) -> JsonValue {
    JsonValue::Text(s.to_string())
}

fn qa_object(question: &str, answer: &str) -> JsonValue {
    JsonValue::Object(vec![
        ("question".to_string(), text(question)),
        ("answer".to_string(), text(answer)),
    ])
}

fn pairs(raw: &[(&str, &str)]) -> Vec<(String, String)> {
    raw.iter().map(|(q, a)| (q.to_string(), a.to_string())).collect()
}

#[test]
fn object_with_array_yields_pairs_in_order() {
    let reply = GenerationReply::Json(JsonValue::Object(vec![(
        "qa_pairs".to_string(),
        JsonValue::Array(vec![qa_object("Q1", "A1"), qa_object("Q2", "A2")]),
    )]));
    assert_eq!(normalize(&reply), Ok(pairs(&[("Q1", "A1"), ("Q2", "A2")])));
}

#[test]
fn object_without_pairs_key_yields_nothing() {
    let reply = GenerationReply::Json(JsonValue::Object(vec![(
        "other".to_string(),
        JsonValue::Null,
    )]));
    assert_eq!(normalize(&reply), Ok(Vec::new()));
}

#[test]
fn object_entry_missing_field_fails_whole_reply() {
    let incomplete = JsonValue::Object(vec![("question".to_string(), text("Q2"))]);
    let reply = GenerationReply::Json(JsonValue::Object(vec![(
        "qa_pairs".to_string(),
        JsonValue::Array(vec![qa_object("Q1", "A1"), incomplete]),
    )]));
    assert_eq!(normalize(&reply), Err(SchemaError::MalformedEntry));
}

#[test]
fn object_with_non_array_pairs_value_is_unsupported() {
    let reply = GenerationReply::Json(JsonValue::Object(vec![(
        "qa_pairs".to_string(),
        text("not an array"),
    )]));
    assert_eq!(normalize(&reply), Err(SchemaError::UnsupportedShape));
}

#[test]
fn bare_array_drops_malformed_entries() {
    let reply = GenerationReply::Json(JsonValue::Array(vec![
        JsonValue::Array(vec![text("Q1"), text("A1")]),
        JsonValue::Array(vec![text("Q2")]),
    ]));
    assert_eq!(normalize(&reply), Ok(pairs(&[("Q1", "A1")])));
}

#[test]
fn bare_array_coerces_scalars() {
    let reply = GenerationReply::Json(JsonValue::Array(vec![JsonValue::Array(vec![
        JsonValue::Number("42".to_string()),
        JsonValue::Bool(true),
    ])]));
    assert_eq!(normalize(&reply), Ok(pairs(&[("42", "true")])));
}

#[test]
fn unselected_tool_call_yields_nothing() {
    let reply = GenerationReply::ToolCall(None);
    assert_eq!(normalize(&reply), Ok(Vec::new()));
}

#[test]
fn selected_tool_call_normalizes_its_arguments() {
    let reply = GenerationReply::ToolCall(Some(JsonValue::Object(vec![(
        "qa_pairs".to_string(),
        JsonValue::Array(vec![qa_object("Q1", "A1")]),
    )])));
    assert_eq!(normalize(&reply), Ok(pairs(&[("Q1", "A1")])));
}

#[test]
fn delimited_scalar_splits_at_first_line_feed() {
    let reply = GenerationReply::Text("What is X?\nX is Y.".to_string());
    assert_eq!(normalize(&reply), Ok(pairs(&[("What is X?", "X is Y.")])));
}

#[test]
fn delimited_scalar_without_separator_yields_empty_pair() {
    let reply = GenerationReply::Text("no separator here".to_string());
    assert_eq!(normalize(&reply), Ok(pairs(&[("", "")])));
}

#[test]
fn duplicate_keys_first_binding_wins() {
    let reply = GenerationReply::Json(JsonValue::Object(vec![
        (
            "qa_pairs".to_string(),
            JsonValue::Array(vec![qa_object("first", "binding")]),
        ),
        (
            "qa_pairs".to_string(),
            JsonValue::Array(vec![qa_object("second", "binding")]),
        ),
    ]));
    assert_eq!(normalize(&reply), Ok(pairs(&[("first", "binding")])));
}

#[test]
fn scalar_json_reply_is_unsupported() {
    let reply = GenerationReply::Json(JsonValue::Null);
    assert_eq!(normalize(&reply), Err(SchemaError::UnsupportedShape));
}
