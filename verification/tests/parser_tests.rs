use pathfuzz::json::parse_json;
use pathfuzz::parser::openapi::{extract_base_url, is_yaml_path, parse_openapi_text, parse_schema_type, SpecError};
use pathfuzz::parser::types::{HttpMethod, ParameterLocation, SchemaType};

const PETSTORE: &str = r#"{
  "openapi": "3.0.0",
  "info": {"title": "Petstore"},
  "servers": [{"url": "http://pets.local/v1"}],
  "paths": {
    "/pets": {
      "get": {"parameters": [{"name": "limit", "in": "query", "schema": {"type": "integer"}}]},
      "post": {"requestBody": {"content": {"application/json": {"schema": {
        "type": "object", "required": ["name"],
        "properties": {"name": {"type": "string", "example": "rex"}, "tag": {"type": "string"}}}}}}}
    },
    "/pets/{petId}": {
      "parameters": [{"name": "petId", "in": "path", "required": true, "schema": {"type": "integer"}}],
      "get": {},
      "delete": {"parameters": [{"name": "X-Key", "in": "header"}, {"name": "bad", "in": "cookie"}]}
    }
  }
}"#;

#[test]
fn petstore_endpoints() {
    let api = parse_openapi_text(PETSTORE, false).unwrap();
    assert_eq!(api.title, "Petstore");
    assert_eq!(api.base_url, "http://pets.local/v1");
    assert_eq!(api.endpoints.len(), 4);
    let e0 = &api.endpoints[0];
    assert_eq!(e0.path, "/pets");
    assert_eq!(e0.method, HttpMethod::Get);
    assert_eq!(e0.parameters.len(), 1);
    assert_eq!(e0.parameters[0].location, ParameterLocation::Query);
    assert!(!e0.parameters[0].required);
    assert!(matches!(e0.parameters[0].schema_type, SchemaType::Integer));
    let e1 = &api.endpoints[1];
    assert_eq!(e1.method, HttpMethod::Post);
    let body = e1.request_body.as_ref().unwrap();
    assert_eq!(body.len(), 2);
    assert_eq!(body[0].0, "name");
    assert!(body[0].1.required);
    assert!(body[0].1.example.is_some());
    assert_eq!(body[1].0, "tag");
    assert!(!body[1].1.required);
    let e3 = &api.endpoints[3];
    assert_eq!(e3.method, HttpMethod::Delete);
    // The path item's parameter, then the operation's own; the cookie parameter is dropped.
    assert_eq!(e3.parameters.len(), 2);
    assert_eq!(e3.parameters[0].name, "petId");
    assert!(e3.parameters[0].required);
    assert_eq!(e3.parameters[1].location, ParameterLocation::Header);
}

#[test]
fn yaml_documents_parse_too() {
    let yaml = "info:\n  title: Y\npaths:\n  /a:\n    get: {}\n";
    let api = parse_openapi_text(yaml, true).unwrap();
    assert_eq!(api.title, "Y");
    assert_eq!(api.base_url, "http://localhost:8080");
    assert_eq!(api.endpoints.len(), 1);
}

#[test]
fn missing_paths_and_bad_text_are_errors() {
    assert_eq!(parse_openapi_text(r#"{"info": {}}"#, false).err(), Some(SpecError::NoPaths));
    assert_eq!(parse_openapi_text("{not json", false).err(), Some(SpecError::InvalidDocument));
    assert_eq!(SpecError::NoPaths.message(), "No paths found in spec");
    let api = parse_openapi_text(r#"{"paths": {}}"#, false).unwrap();
    assert_eq!(api.title, "Unknown API");
}

#[test]
fn schema_types() {
    let arr = parse_json(r#"{"type": "array", "items": {"type": "boolean"}}"#).unwrap();
    match parse_schema_type(&arr) {
        SchemaType::Array(inner) => assert!(matches!(*inner, SchemaType::Boolean)),
        _ => panic!("array expected"),
    }
    let obj = parse_json(r#"{"type": "object", "properties": {"n": {"type": "number"}}}"#).unwrap();
    match parse_schema_type(&obj) {
        SchemaType::Object(props) => {
            assert_eq!(props.len(), 1);
            assert!(matches!(props[0].1.schema_type, SchemaType::Number));
        }
        _ => panic!("object expected"),
    }
    let other = parse_json(r#"{"type": "weird"}"#).unwrap();
    assert!(matches!(parse_schema_type(&other), SchemaType::String));
    let no_items = parse_json(r#"{"type": "array"}"#).unwrap();
    assert!(matches!(parse_schema_type(&no_items), SchemaType::Array(ref b) if matches!(**b, SchemaType::String)));
}

#[test]
fn base_url_default() {
    let doc = parse_json(r#"{"servers": []}"#).unwrap();
    assert_eq!(extract_base_url(&doc), "http://localhost:8080");
}

#[test]
fn yaml_is_chosen_by_extension() {
    assert!(is_yaml_path("specs/petstore.yaml"));
    assert!(is_yaml_path("a.b/c.yml"));
    assert!(is_yaml_path("dir/x.yaml/"));
    assert!(!is_yaml_path("specs/petstore.json"));
    assert!(!is_yaml_path(".yaml"));
    assert!(!is_yaml_path("dir.yaml/.."));
    assert!(!is_yaml_path("yaml"));
    assert!(!is_yaml_path("x.YAML"));
}
