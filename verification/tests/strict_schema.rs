use agents_core::json::{JsonMember, JsonValue};
use agents_core::strict_schema::{ensure_strict_json_schema, try_ensure_strict_json_schema};

fn s(t: &str) -> JsonValue {
    JsonValue::String(t.to_owned())
}

fn o(members: Vec<(&str, JsonValue)>) -> JsonValue {
    JsonValue::Object(members.into_iter().map(|(k, v)| JsonMember { key: k.to_owned(), value: v }).collect())
}

fn get<'a>(v: &'a JsonValue, key: &str) -> Option<&'a JsonValue> {
    match v {
        JsonValue::Object(members) => members.iter().find(|m| m.key == key).map(|m| &m.value),
        _ => None,
    }
}

fn normalize(schema: JsonValue) -> JsonValue {
    ensure_strict_json_schema(schema).unwrap_or_else(|e| panic!("schema should normalize: {}", e.message))
}

#[test]
fn makes_object_schema_strict() {
    let schema = o(vec![
        ("properties", o(vec![("name", o(vec![("type", s("string"))]))])),
        ("type", s("object")),
    ]);
    let strict = normalize(schema);
    assert_eq!(get(&strict, "additionalProperties"), Some(&JsonValue::Bool(false)));
    assert_eq!(get(&strict, "required"), Some(&JsonValue::Array(vec![s("name")])));
}

#[test]
fn merges_single_all_of_entry_into_parent() {
    let schema = o(vec![
        ("allOf", JsonValue::Array(vec![o(vec![("properties", o(vec![("enabled", o(vec![("type", s("boolean"))]))]))])])),
        ("type", s("object")),
    ]);

    let strict = normalize(schema);

    assert!(get(&strict, "allOf").is_none());
    assert_eq!(get(&strict, "additionalProperties"), Some(&JsonValue::Bool(false)));
    assert_eq!(get(&strict, "required"), Some(&JsonValue::Array(vec![s("enabled")])));
    let enabled = get(get(&strict, "properties").expect("properties"), "enabled").expect("enabled");
    assert_eq!(get(enabled, "type"), Some(&s("boolean")));
}

#[test]
fn expands_definition_refs_when_ref_has_siblings() {
    let schema = o(vec![
        ("definitions", o(vec![("refObj", o(vec![("default", JsonValue::Null), ("type", s("string"))]))])),
        (
            "properties",
            o(vec![("value", o(vec![("$ref", s("#/definitions/refObj")), ("description", s("merged"))]))]),
        ),
        ("type", s("object")),
    ]);

    let strict = normalize(schema);

    let value = get(get(&strict, "properties").expect("properties"), "value").expect("value");
    assert_eq!(get(value, "type"), Some(&s("string")));
    assert_eq!(get(value, "description"), Some(&s("merged")));
    assert!(get(value, "default").is_none());
    assert!(get(value, "$ref").is_none());
}

#[test]
fn empty_schema_becomes_an_empty_closed_object() {
    assert_eq!(
        normalize(o(vec![])),
        o(vec![
            ("additionalProperties", JsonValue::Bool(false)),
            ("properties", o(vec![])),
            ("required", JsonValue::Array(vec![])),
            ("type", s("object")),
        ])
    );
}

#[test]
fn open_objects_and_unknown_references_are_refused() {
    let open = o(vec![("additionalProperties", JsonValue::Bool(true)), ("type", s("object"))]);
    match ensure_strict_json_schema(open) {
        Err(e) => assert_eq!(e.message, "additionalProperties must be false for strict object schemas"),
        Ok(_) => panic!("open object should be refused"),
    }
    let dangling = o(vec![("$ref", s("#/definitions/missing")), ("description", s("x"))]);
    match ensure_strict_json_schema(dangling) {
        Err(e) => assert_eq!(e.message, "could not resolve schema reference `#/definitions/missing`"),
        Ok(_) => panic!("dangling reference should be refused"),
    }
}

#[test]
fn one_of_joins_any_of_and_bare_refs_stay() {
    let schema = o(vec![
        ("anyOf", JsonValue::Array(vec![o(vec![("type", s("string"))])])),
        ("oneOf", JsonValue::Array(vec![o(vec![("type", s("integer"))])])),
    ]);
    let strict = normalize(schema);
    assert!(get(&strict, "oneOf").is_none());
    assert_eq!(
        get(&strict, "anyOf"),
        Some(&JsonValue::Array(vec![o(vec![("type", s("string"))]), o(vec![("type", s("integer"))])]))
    );
    let bare = o(vec![("$ref", s("#/definitions/x"))]);
    assert_eq!(normalize(bare), o(vec![("$ref", s("#/definitions/x"))]));
}

#[test]
fn bounded_normalization_gives_the_strict_schema() {
    let schema = o(vec![("type", s("object")), ("properties", o(vec![("name", o(vec![("type", s("string"))]))]))]);
    let again = o(vec![("type", s("object")), ("properties", o(vec![("name", o(vec![("type", s("string"))]))]))]);
    let tried = try_ensure_strict_json_schema(schema).expect("normalization ends").unwrap_or_else(|e| panic!("{}", e.message));
    assert_eq!(tried, normalize(again));
    assert_eq!(get(&tried, "additionalProperties"), Some(&JsonValue::Bool(false)));
}
