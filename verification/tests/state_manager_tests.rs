use pathfuzz::fuzzer::input::FuzzHttpRequest;
use pathfuzz::fuzzer::state_manager::{
    extract_json_path, inject_into_body, json_path_would_panic, looks_like_id_value, InjectionTarget, StateExtraction, StateManager,
};
use pathfuzz::string_map::StringMap;

fn request(url: &str, body: Option<&str>) -> FuzzHttpRequest {
    FuzzHttpRequest {
        url: url.to_string(),
        method: "GET".to_string(),
        headers: StringMap::new(),
        query_params: StringMap::new(),
        body: body.map(|b| b.to_string()),
    }
}

#[test]
fn test_extract_simple_field() {
    let body = r#"{"id": 42, "name": "test"}"#;
    assert_eq!(extract_json_path(body, "$.id"), Some("42".to_string()));
    assert_eq!(extract_json_path(body, "$.name"), Some("test".to_string()));
}

#[test]
fn test_extract_nested_field() {
    let body = r#"{"data": {"token": "abc123", "user": {"id": 1}}}"#;
    assert_eq!(extract_json_path(body, "$.data.token"), Some("abc123".to_string()));
    assert_eq!(extract_json_path(body, "$.data.user.id"), Some("1".to_string()));
}

#[test]
fn test_extract_array_index() {
    let body = r#"{"items": [{"id": 10}, {"id": 20}]}"#;
    assert_eq!(extract_json_path(body, "$.items[0].id"), Some("10".to_string()));
    assert_eq!(extract_json_path(body, "$.items[1].id"), Some("20".to_string()));
}

#[test]
fn test_inject_into_body() {
    let mut body = Some(r#"{"user_id": "placeholder"}"#.to_string());
    inject_into_body(&mut body, "$.user_id", "42");
    let json: serde_json::Value = serde_json::from_str(body.as_ref().unwrap()).unwrap();
    assert_eq!(json["user_id"], serde_json::Value::Number(42.into()));
}

#[test]
fn test_state_manager_flow() {
    let mut mgr = StateManager::new();
    let response_body = r#"{"id": 999, "token": "secret"}"#;
    let headers = StringMap::new();

    let extractions = vec![
        StateExtraction {
            source_request_idx: 0,
            json_path: "$.id".to_string(),
            target_request_idx: 1,
            target: InjectionTarget::QueryParam("user_id".to_string()),
        },
        StateExtraction {
            source_request_idx: 0,
            json_path: "$.token".to_string(),
            target_request_idx: 1,
            target: InjectionTarget::Header("Authorization".to_string()),
        },
    ];

    mgr.extract_from_response(response_body, &headers, &extractions, 0);

    assert_eq!(mgr.get_extracted_value(0, "$.id"), Some(&"999".to_string()));
    assert_eq!(mgr.get_extracted_value(0, "$.token"), Some(&"secret".to_string()));
}

#[test]
fn extracted_values_reach_the_target_request() {
    let mut mgr = StateManager::new();
    let extractions = vec![
        StateExtraction {
            source_request_idx: 0,
            json_path: "$.id".to_string(),
            target_request_idx: 1,
            target: InjectionTarget::QueryParam("user_id".to_string()),
        },
        StateExtraction {
            source_request_idx: 0,
            json_path: "$.id".to_string(),
            target_request_idx: 1,
            target: InjectionTarget::PathParam("id".to_string()),
        },
    ];
    mgr.extract_from_response(r#"{"id": 7}"#, &StringMap::new(), &extractions, 0);
    let mut req = request("http://h/users/{id}", None);
    mgr.inject_into_request(&mut req, &extractions, 1);
    assert_eq!(req.url, "http://h/users/7");
    assert_eq!(req.query_params.get("user_id"), Some(&"7".to_string()));
    // Request 0 is not a target.
    let mut other = request("http://h/users/{id}", None);
    mgr.inject_into_request(&mut other, &extractions, 0);
    assert_eq!(other.url, "http://h/users/{id}");
}

#[test]
fn header_values_are_extracted_without_case() {
    let mut mgr = StateManager::new();
    let mut headers = StringMap::new();
    headers.insert("Location".to_string(), "/items/5".to_string());
    let extractions = vec![StateExtraction {
        source_request_idx: 0,
        json_path: "$header.location".to_string(),
        target_request_idx: 1,
        target: InjectionTarget::Header("X-Loc".to_string()),
    }];
    mgr.extract_from_response("not json", &headers, &extractions, 0);
    assert_eq!(mgr.get_extracted_value(0, "$header.location"), Some(&"/items/5".to_string()));
}

#[test]
fn missing_values_are_not_stored() {
    let mut mgr = StateManager::new();
    let extractions = vec![StateExtraction {
        source_request_idx: 0,
        json_path: "$.missing".to_string(),
        target_request_idx: 1,
        target: InjectionTarget::QueryParam("q".to_string()),
    }];
    mgr.extract_from_response(r#"{"id": 1}"#, &StringMap::new(), &extractions, 0);
    assert_eq!(mgr.get_extracted_value(0, "$.missing"), None);
    mgr.clear();
    assert_eq!(mgr.get_extracted_value(0, "$.id"), None);
}

#[test]
fn placeholder_and_id_like_segment_are_replaced() {
    let mut mgr = StateManager::new();
    let extractions = vec![StateExtraction {
        source_request_idx: 0,
        json_path: "$.id".to_string(),
        target_request_idx: 1,
        target: InjectionTarget::PathParam("petId".to_string()),
    }];
    mgr.extract_from_response(r#"{"id": "abc"}"#, &StringMap::new(), &extractions, 0);
    let mut a = request("http://h/pets/__PATHFUZZ_ID__/toys/__PATHFUZZ_ID__", None);
    mgr.inject_into_request(&mut a, &extractions, 1);
    assert_eq!(a.url, "http://h/pets/abc/toys/__PATHFUZZ_ID__");
    let mut b = request("http://h/pets/123", None);
    mgr.inject_into_request(&mut b, &extractions, 1);
    assert_eq!(b.url, "http://h/pets/abc");
    let mut c = request("http://h/pets/list", None);
    mgr.inject_into_request(&mut c, &extractions, 1);
    assert_eq!(c.url, "http://h/pets/list");
}

#[test]
fn body_field_injection_creates_a_body() {
    let mut body: Option<String> = None;
    inject_into_body(&mut body, "$.name", "bob");
    assert_eq!(body, Some(r#"{"name": "bob"}"#.to_string()));
    let mut nested = Some(r#"{"a": {"b": 1}}"#.to_string());
    inject_into_body(&mut nested, "$.a.b", "x");
    let json: serde_json::Value = serde_json::from_str(nested.as_ref().unwrap()).unwrap();
    assert_eq!(json["a"]["b"], serde_json::Value::String("x".to_string()));
}

#[test]
fn id_like_segments() {
    assert!(looks_like_id_value("123"));
    assert!(looks_like_id_value("550e8400-e29b-41d4-a716-446655440000"));
    assert!(looks_like_id_value("user_42"));
    assert!(!looks_like_id_value("users"));
    assert!(!looks_like_id_value(""));
}

#[test]
fn panicking_paths_are_detected() {
    assert!(json_path_would_panic("$.items]x["));
    assert!(!json_path_would_panic("$.items["));
    assert!(!json_path_would_panic("$.items[0].id"));
    let mgr = StateManager::new();
    let extractions = vec![StateExtraction {
        source_request_idx: 0,
        json_path: "$.id".to_string(),
        target_request_idx: 1,
        target: InjectionTarget::BodyField("$.x[".to_string()),
    }];
    let req = request("http://h", Some("{}"));
    // Nothing is stored, so no injection reads the path.
    assert!(!mgr.injection_would_panic(&req, &extractions, 1));
}

#[test]
fn extraction_keeps_other_stored_values() {
    let mut mgr = StateManager::new();
    let first = vec![StateExtraction {
        source_request_idx: 0,
        json_path: "$.id".to_string(),
        target_request_idx: 1,
        target: InjectionTarget::QueryParam("id".to_string()),
    }];
    mgr.extract_from_response(r#"{"id": 3}"#, &StringMap::new(), &first, 0);
    let second = vec![
        StateExtraction {
            source_request_idx: 1,
            json_path: "$.name".to_string(),
            target_request_idx: 2,
            target: InjectionTarget::QueryParam("n".to_string()),
        },
        StateExtraction {
            source_request_idx: 0,
            json_path: "$.id".to_string(),
            target_request_idx: 2,
            target: InjectionTarget::QueryParam("id".to_string()),
        },
    ];
    mgr.extract_from_response(r#"{"name": "x", "id": 9}"#, &StringMap::new(), &second, 1);
    assert_eq!(mgr.get_extracted_value(1, "$.name"), Some(&"x".to_string()));
    assert_eq!(mgr.get_extracted_value(0, "$.id"), Some(&"3".to_string()));
}
