use pathfuzz::generator::corpus_generator::{read_float, CorpusGenerator, HttpRequest};
use pathfuzz::generator::sequence_generator::{is_id_param, param_example_or_default, SequenceCorpusGenerator};
use pathfuzz::json::{to_json_text, JsonValue};
use pathfuzz::parser::types::{Endpoint, HttpMethod, Parameter, ParameterLocation, PropertySchema, SchemaType};
use pathfuzz::string_map::StringMap;

fn param(name: &str, location: ParameterLocation, required: bool, schema_type: SchemaType) -> Parameter {
    Parameter { name: name.to_string(), location, required, schema_type, example: None }
}

fn endpoint(path: &str, method: HttpMethod, parameters: Vec<Parameter>) -> Endpoint {
    Endpoint { path: path.to_string(), method, parameters, request_body: None }
}

fn pet_api() -> Vec<Endpoint> {
    let id = || param("petId", ParameterLocation::Path, true, SchemaType::Integer);
    let mut create = endpoint("/pets", HttpMethod::Post, vec![]);
    create.request_body = Some(vec![(
        "name".to_string(),
        PropertySchema { schema_type: SchemaType::String, required: true, example: None },
    )]);
    vec![
        create,
        endpoint("/pets/{petId}", HttpMethod::Get, vec![id()]),
        endpoint("/pets/{petId}", HttpMethod::Put, vec![id()]),
        endpoint("/pets/{petId}", HttpMethod::Delete, vec![id()]),
    ]
}

#[test]
fn id_parameters() {
    assert!(is_id_param("id"));
    assert!(is_id_param("petId"));
    assert!(is_id_param("USER_ID"));
    assert!(!is_id_param("name"));
    assert!(!is_id_param("identity"));
}

#[test]
fn parameter_defaults() {
    assert_eq!(param_example_or_default(&param("a", ParameterLocation::Query, true, SchemaType::String)), "test");
    assert_eq!(param_example_or_default(&param("a", ParameterLocation::Query, true, SchemaType::Integer)), "1");
    assert_eq!(param_example_or_default(&param("a", ParameterLocation::Query, true, SchemaType::Number)), "1.0");
    assert_eq!(param_example_or_default(&param("a", ParameterLocation::Query, true, SchemaType::Boolean)), "true");
    let mut p = param("a", ParameterLocation::Query, true, SchemaType::Integer);
    p.example = Some(JsonValue::Str("seven".to_string()));
    assert_eq!(param_example_or_default(&p), "seven");
    p.example = Some(JsonValue::Number("7".to_string()));
    assert_eq!(param_example_or_default(&p), "7");
}

#[test]
fn resource_prefixes() {
    let g = SequenceCorpusGenerator::new("http://h/");
    assert_eq!(g.extract_resource_prefix("/users/{id}/posts"), "/users");
    assert_eq!(g.extract_resource_prefix("/a/b"), "/a/b");
    assert_eq!(g.extract_resource_prefix("/"), "/");
    assert_eq!(g.extract_resource_prefix("{x}"), "/");
}

#[test]
fn built_request_fills_path_query_headers_and_body() {
    let g = SequenceCorpusGenerator::new("http://h//");
    let mut ep = endpoint(
        "/pets/{petId}/{kind}",
        HttpMethod::Post,
        vec![
            param("petId", ParameterLocation::Path, true, SchemaType::Integer),
            param("kind", ParameterLocation::Path, true, SchemaType::String),
            param("limit", ParameterLocation::Query, true, SchemaType::Integer),
            param("skip", ParameterLocation::Query, false, SchemaType::Integer),
            param("X-Trace", ParameterLocation::Header, false, SchemaType::Boolean),
        ],
    );
    ep.request_body = Some(vec![
        ("name".to_string(), PropertySchema { schema_type: SchemaType::String, required: true, example: None }),
        ("age".to_string(), PropertySchema { schema_type: SchemaType::Integer, required: false, example: None }),
    ]);
    let r = g.build_request(&ep, true);
    assert_eq!(r.url, "http://h/pets/__PATHFUZZ_ID__/test");
    assert_eq!(r.method, "POST");
    assert_eq!(r.query_params.get("limit"), Some(&"1".to_string()));
    assert_eq!(r.query_params.get("skip"), None);
    assert_eq!(r.headers.get("Content-Type"), Some(&"application/json".to_string()));
    assert_eq!(r.headers.get("X-Trace"), Some(&"true".to_string()));
    assert_eq!(r.body.as_deref(), Some(r#"{"age":1,"name":"fuzz_name"}"#));
    let plain = g.build_request(&ep, false);
    assert_eq!(plain.url, "http://h/pets/1/test");
}

#[test]
fn crud_sequences_carry_the_created_id() {
    let g = SequenceCorpusGenerator::new("http://h");
    let seqs = g.generate_sequences(&pet_api());
    // One creator: with the reader, the updater, the deleter, then the full cycle.
    assert_eq!(seqs.len(), 4);
    assert_eq!(seqs[0].requests.len(), 2);
    assert_eq!(seqs[0].requests[1].url, "http://h/pets/__PATHFUZZ_ID__");
    assert_eq!(seqs[0].state_extractions.len(), 6);
    assert_eq!(seqs[3].requests.len(), 4);
    assert_eq!(seqs[3].requests[3].method, "DELETE");
    for s in &seqs {
        for e in &s.state_extractions {
            assert_eq!(e.source_request_idx, 0);
            assert!(e.target_request_idx > 0 && e.target_request_idx < s.requests.len());
        }
    }
}

#[test]
fn login_sequences_carry_the_token() {
    let g = SequenceCorpusGenerator::new("http://h");
    let eps = vec![
        endpoint("/auth/login", HttpMethod::Post, vec![]),
        endpoint("/a", HttpMethod::Get, vec![]),
        endpoint("/b", HttpMethod::Get, vec![]),
        endpoint("/c", HttpMethod::Get, vec![]),
        endpoint("/d", HttpMethod::Get, vec![]),
    ];
    let seqs = g.generate_auth_sequences(&eps);
    assert_eq!(seqs.len(), 3);
    assert_eq!(seqs[0].requests[1].url, "http://h/a");
    assert_eq!(seqs[2].requests[1].url, "http://h/c");
    assert_eq!(seqs[0].state_extractions.len(), 7);
}

#[test]
fn fallback_pairs_neighbours() {
    let g = SequenceCorpusGenerator::new("http://h");
    let eps = vec![
        endpoint("/a", HttpMethod::Get, vec![]),
        endpoint("/b", HttpMethod::Get, vec![]),
        endpoint("/c", HttpMethod::Get, vec![]),
    ];
    let seqs = g.generate_sequences(&eps);
    assert_eq!(seqs.len(), 2);
    assert_eq!(seqs[1].requests[0].url, "http://h/b");
    assert_eq!(seqs[1].requests[1].url, "http://h/c");
    assert!(seqs[1].state_extractions.is_empty());
}

#[test]
fn corpus_has_valid_and_boundary_requests() {
    let g = CorpusGenerator::new("http://h/");
    let eps = pet_api();
    let corpus = g.generate_corpus(&eps);
    // POST gets four requests; GET, PUT and DELETE three, four and three.
    assert_eq!(corpus.len(), 4 + 3 + 4 + 3);
    assert_eq!(corpus[0].url, "http://h/pets");
    let empty = &corpus[1];
    assert_eq!(to_json_text(empty.body.as_ref().unwrap()), r#"{"name":""}"#);
    let long = &corpus[2];
    assert!(to_json_text(long.body.as_ref().unwrap()).contains(&"A".repeat(10000)));
    assert!(matches!(corpus[3].body, Some(JsonValue::Null)));
    assert_eq!(corpus[5].url, "http://h/pets/");
    assert!(corpus[4].url.starts_with("http://h/pets/"));
    let n: u64 = corpus[4].url["http://h/pets/".len()..].parse().unwrap();
    assert!((1..1000).contains(&n));
}

#[test]
fn request_display() {
    let mut q = StringMap::new();
    q.insert("a".to_string(), "1".to_string());
    q.insert("b".to_string(), "2".to_string());
    let r = HttpRequest {
        url: "http://h/x".to_string(),
        method: HttpMethod::Get,
        headers: StringMap::new(),
        query_params: q,
        body: None,
    };
    assert_eq!(r.to_display_string(), "GET http://h/x?a=1&b=2");
}

#[test]
fn number_properties_become_floats() {
    let g = CorpusGenerator::new("http://h");
    let mut ep = endpoint("/m", HttpMethod::Post, vec![]);
    ep.request_body = Some(vec![
        (
            "a".to_string(),
            PropertySchema { schema_type: SchemaType::Number, required: true, example: Some(JsonValue::Number("5".to_string())) },
        ),
        (
            "b".to_string(),
            PropertySchema { schema_type: SchemaType::Integer, required: true, example: Some(JsonValue::Str("12".to_string())) },
        ),
        (
            "c".to_string(),
            PropertySchema { schema_type: SchemaType::Boolean, required: true, example: Some(JsonValue::Bool(true)) },
        ),
        (
            "d".to_string(),
            PropertySchema { schema_type: SchemaType::Number, required: true, example: Some(JsonValue::Number("5.50".to_string())) },
        ),
    ]);
    let corpus = g.generate_corpus(&vec![ep]);
    assert_eq!(to_json_text(corpus[0].body.as_ref().unwrap()), r#"{"a":5.0,"b":12,"c":true,"d":5.5}"#);
}

#[test]
fn number_examples_read_as_rust_floats() {
    let g = CorpusGenerator::new("http://h");
    let mut ep = endpoint("/m", HttpMethod::Post, vec![]);
    let texts = ["+5", ".5", "007", "NaN", "inf", "1e400", "abc", "-2.5E1", "5."];
    let names = ["a", "b", "c", "d", "e", "f", "g", "h", "i"];
    ep.request_body = Some(
        texts
            .iter()
            .zip(names.iter())
            .map(|(t, n)| {
                (
                    n.to_string(),
                    PropertySchema {
                        schema_type: SchemaType::Number,
                        required: true,
                        example: Some(JsonValue::Str(t.to_string())),
                    },
                )
            })
            .collect(),
    );
    let corpus = g.generate_corpus(&vec![ep]);
    assert_eq!(
        to_json_text(corpus[0].body.as_ref().unwrap()),
        r#"{"a":5.0,"b":0.5,"c":7.0,"d":0,"e":0,"f":0,"g":0.0,"h":-25.0,"i":5.0}"#
    );
}

#[test]
fn float_texts_in_json_syntax() {
    let read = |s: &str| read_float(&s.chars().collect());
    assert_eq!(read("+5"), Some(Some("5.0".chars().collect())));
    assert_eq!(read("-.5e-3"), Some(Some("-0.5e-3".chars().collect())));
    assert_eq!(read("00.10"), Some(Some("0.10".chars().collect())));
    assert_eq!(read("-Infinity"), Some(None));
    assert_eq!(read("nan"), Some(None));
    assert_eq!(read("1e"), None);
    assert_eq!(read("."), None);
    assert_eq!(read("1.2.3"), None);
}
