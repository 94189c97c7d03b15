use libafl_bolts::rands::{Rand, RomuDuoJrRand};
use pathfuzz::fuzzer::input::FuzzHttpRequest;
use pathfuzz::fuzzer::mutator::{
    apply_body_mutation, apply_header_mutation, apply_json_mutation, apply_method_mutation, apply_query_mutation,
    apply_special_chars, apply_url_mutation, fuzz_value_for, generate_fuzz_value, inject_special_chars, mutate_body, mutate_headers, mutate_json_value, mutate_method,
    mutate_query_params, mutate_url_path, quoted_member_text, HttpRequestMutator,
};
use pathfuzz::fuzzer::param_mutator::{
    apply_boundary_value, apply_format_string, apply_injection_payload, apply_type_confusion, put_boundary_at,
    put_payload_at,
    inject_boundary_into_json, inject_payload_into_json, mutate_boundary_values, mutate_format_strings,
    mutate_injection_payloads, mutate_type_confusion, ParamMutator,
};
use pathfuzz::fuzzer::sequence_input::FuzzRequestSequence;
use pathfuzz::fuzzer::sequence_mutator::{
    duplicate_request, insert_request, remove_request, swap_requests, MutationOutcome, SequenceMutator,
};
use pathfuzz::fuzzer::state_manager::{InjectionTarget, StateExtraction};
use pathfuzz::json::{parse_json, to_json_text, JsonValue};
use pathfuzz::string_map::StringMap;

fn rng() -> RomuDuoJrRand {
    RomuDuoJrRand::with_seed(7)
}

fn request(url: &str, body: Option<&str>) -> FuzzHttpRequest {
    FuzzHttpRequest {
        url: url.to_string(),
        method: "GET".to_string(),
        headers: StringMap::new(),
        query_params: StringMap::new(),
        body: body.map(|b| b.to_string()),
    }
}

fn is_fuzz_value(s: &str) -> bool {
    s.is_empty()
        || s == "A".repeat(10000)
        || s.parse::<u64>().map_or(false, |n| n < 999999 && n.to_string() == s)
        || s == "-1"
        || s == "null"
        || s.strip_prefix("fuzz_").map_or(false, |d| d.parse::<u64>().map_or(false, |n| n < 10000 && n.to_string() == d))
}

#[test]
fn fuzz_values_are_of_the_six_kinds() {
    let mut r = rng();
    for _ in 0..200 {
        let v = generate_fuzz_value(&mut r);
        assert!(is_fuzz_value(&v), "{}", v.len());
    }
}

#[test]
fn fuzz_value_for_each_kind() {
    assert_eq!(fuzz_value_for(0, 0), "");
    assert_eq!(fuzz_value_for(1, 0), "A".repeat(10000));
    assert_eq!(fuzz_value_for(2, 123456), "123456");
    assert_eq!(fuzz_value_for(3, 0), "-1");
    assert_eq!(fuzz_value_for(4, 0), "null");
    assert_eq!(fuzz_value_for(5, 42), "fuzz_42");
}

#[test]
fn request_mutations_keep_maps_well_formed() {
    let mut r = rng();
    let mut m = HttpRequestMutator::new();
    let mut p = ParamMutator::new();
    for i in 0..300 {
        let mut req = request("http://h/items/1", if i % 2 == 0 { Some(r#"{"a": 1, "b": [1, 2]}"#) } else { None });
        req.query_params.insert("q".to_string(), "x".to_string());
        assert_eq!(m.mutate(&mut r, &mut req), MutationOutcome::Mutated);
        assert_eq!(p.mutate(&mut r, &mut req), MutationOutcome::Mutated);
        let keys: Vec<&String> = req.query_params.entries.iter().map(|e| &e.0).collect();
        let mut dedup = keys.clone();
        dedup.sort();
        dedup.dedup();
        assert_eq!(keys.len(), dedup.len());
    }
}

#[test]
fn query_param_mutation_outcomes() {
    let mut r = rng();
    for _ in 0..100 {
        let mut req = request("http://h", None);
        req.query_params.insert("q".to_string(), "x".to_string());
        mutate_query_params(&mut r, &mut req);
        let q = &req.query_params.entries;
        let ok = q.is_empty()
            || (q.len() == 1 && q[0].0 == "q" && is_fuzz_value(&q[0].1))
            || (q.len() == 2 && q[1].0.starts_with("fuzz_param_") && is_fuzz_value(&q[1].1));
        assert!(ok);
        assert_eq!(req.url, "http://h");
    }
}

#[test]
fn body_mutation_outcomes() {
    let mut r = rng();
    for _ in 0..100 {
        let mut req = request("http://h", None);
        mutate_body(&mut r, &mut req);
        match &req.body {
            None => {}
            Some(b) => assert!(
                b == "null" || b == "{}" || b == "[]" || (b.starts_with("{\"fuzz\": \"") && b.ends_with("\"}"))
            ),
        }
    }
}

#[test]
fn url_path_mutation_outcomes() {
    let mut r = rng();
    for _ in 0..100 {
        let mut req = request("http://h/items/1", None);
        mutate_url_path(&mut r, &mut req);
        assert!(req.url.starts_with("http://h/items/"));
    }
}

#[test]
fn special_chars_go_into_query_body_or_url() {
    let mut r = rng();
    for _ in 0..100 {
        let mut req = request("http://h", Some("{}"));
        inject_special_chars(&mut r, &mut req);
        let changed = req.query_params.get("injection").is_some()
            || req.body.as_deref().map_or(false, |b| b.starts_with("{\"data\": "))
            || req.url.starts_with("http://h/");
        assert!(changed);
    }
}

#[test]
fn quoted_member_escapes_quotes() {
    assert_eq!(quoted_member_text("data", "a\"b"), "{\"data\": \"a\\\"b\"}");
}

#[test]
fn method_and_header_mutations() {
    let mut r = rng();
    for _ in 0..50 {
        let mut req = request("http://h", None);
        mutate_method(&mut r, &mut req);
        assert!(["GET", "POST", "PUT", "DELETE", "PATCH"].contains(&req.method.as_str()));
        mutate_headers(&mut r, &mut req);
        let h = &req.headers.entries;
        assert_eq!(h.len(), 1);
        assert!(
            (h[0].0 == "X-Fuzz-Header" && is_fuzz_value(&h[0].1))
                || (h[0].0 == "Content-Type" && h[0].1 == "text/xml")
                || (h[0].0 == "Authorization" && h[0].1.starts_with("Bearer "))
        );
    }
}

#[test]
fn json_value_mutation_changes_strings_and_numbers() {
    let mut r = rng();
    for _ in 0..50 {
        let mut v = JsonValue::Number("5".to_string());
        mutate_json_value(&mut r, &mut v);
        match v {
            JsonValue::Number(t) => assert!(t.parse::<u64>().unwrap() < 999999),
            _ => panic!("a number stays a number"),
        }
        let mut b = JsonValue::Bool(true);
        mutate_json_value(&mut r, &mut b);
        assert!(matches!(b, JsonValue::Bool(true)));
    }
}

#[test]
fn boundary_into_json_object_sets_first_member() {
    let mut r = rng();
    let mut v = parse_json(r#"{"b": 1, "a": 2}"#).unwrap();
    inject_boundary_into_json(&mut r, &mut v, "-1");
    assert_eq!(to_json_text(&v), r#"{"a":-1,"b":1}"#);
    let mut w = parse_json(r#"{"a": 2}"#).unwrap();
    inject_boundary_into_json(&mut r, &mut w, "NaN");
    assert_eq!(to_json_text(&w), r#"{"a":"NaN"}"#);
    let mut s = JsonValue::Null;
    inject_boundary_into_json(&mut r, &mut s, "x");
    assert!(matches!(s, JsonValue::Str(ref t) if t == "x"));
}

#[test]
fn payload_into_empty_array_appends() {
    let mut r = rng();
    let mut v = JsonValue::Array(Vec::new());
    inject_payload_into_json(&mut r, &mut v, "p");
    assert_eq!(to_json_text(&v), r#"["p"]"#);
}

#[test]
fn param_mutations_run() {
    let mut r = rng();
    for _ in 0..100 {
        let mut a = request("http://h/{id}", Some(r#"{"k": "v"}"#));
        mutate_boundary_values(&mut r, &mut a);
        let mut b = request("http://h", None);
        mutate_type_confusion(&mut r, &mut b);
        assert!(b.body.is_some());
        assert_eq!(b.headers.get("Content-Type"), Some(&"application/json".to_string()));
        let mut c = request("http://h", Some("not json"));
        mutate_injection_payloads(&mut r, &mut c);
        let mut d = request("http://h", None);
        mutate_format_strings(&mut r, &mut d);
        assert!(d.body.is_none());
    }
}

fn seq3() -> FuzzRequestSequence {
    FuzzRequestSequence::with_extractions(
        vec![request("http://h/a", None), request("http://h/b", None), request("http://h/c", None)],
        vec![StateExtraction {
            source_request_idx: 0,
            json_path: "$.id".to_string(),
            target_request_idx: 2,
            target: InjectionTarget::PathParam("id".to_string()),
        }],
    )
}

#[test]
fn removing_a_request_renumbers_extractions() {
    let mut s = seq3();
    remove_request(&mut s, 1);
    assert_eq!(s.len(), 2);
    assert_eq!(s.state_extractions.len(), 1);
    assert_eq!(s.state_extractions[0].target_request_idx, 1);
    let mut t = seq3();
    remove_request(&mut t, 0);
    assert!(t.state_extractions.is_empty());
}

#[test]
fn inserting_a_request_renumbers_extractions() {
    let mut s = seq3();
    insert_request(&mut s, 1, request("http://h/x", None));
    assert_eq!(s.len(), 4);
    assert_eq!(s.requests[1].url, "http://h/x");
    assert_eq!(s.state_extractions[0].source_request_idx, 0);
    assert_eq!(s.state_extractions[0].target_request_idx, 3);
}

#[test]
fn swapping_and_duplicating() {
    let mut s = seq3();
    swap_requests(&mut s, 0, 2);
    assert_eq!(s.requests[0].url, "http://h/c");
    assert_eq!(s.requests[2].url, "http://h/a");
    duplicate_request(&mut s, 1);
    assert_eq!(s.len(), 4);
    assert_eq!(s.requests[2].url, "http://h/b");
}

#[test]
fn sequence_mutator_skips_empty_and_bounds_length() {
    let mut r = rng();
    let mut m = SequenceMutator::new();
    let mut empty = FuzzRequestSequence::new(Vec::new());
    assert_eq!(m.mutate(&mut r, &mut empty), MutationOutcome::Skipped);
    let mut s = seq3();
    for _ in 0..500 {
        assert_eq!(m.mutate(&mut r, &mut s), MutationOutcome::Mutated);
        assert!(s.len() >= 1 && s.len() <= 20);
        for e in &s.state_extractions {
            assert!(e.source_request_idx < s.len() && e.target_request_idx < s.len());
        }
    }
    let _ = r.next();
}

#[test]
fn json_mutation_for_given_draws() {
    let mut o = parse_json(r#"{"b": 1, "a": 2}"#).unwrap();
    apply_json_mutation(&mut o, 0, 7, "x".to_string());
    assert_eq!(to_json_text(&o), r#"{"a":2,"b":1,"fuzz_7":"x"}"#);
    let mut o = parse_json(r#"{"b": 1, "a": 2}"#).unwrap();
    apply_json_mutation(&mut o, 1, 0, String::new());
    assert_eq!(to_json_text(&o), r#"{"a":null,"b":1}"#);
    let mut o = parse_json(r#"{"a": 2}"#).unwrap();
    apply_json_mutation(&mut o, 2, 0, "null".to_string());
    assert_eq!(to_json_text(&o), r#"{"a":"null"}"#);
    let mut n = JsonValue::Number("5".to_string());
    apply_json_mutation(&mut n, 0, 4321, String::new());
    assert_eq!(to_json_text(&n), "4321");
    let mut t = JsonValue::Str("s".to_string());
    apply_json_mutation(&mut t, 0, 0, "-1".to_string());
    assert_eq!(to_json_text(&t), "\"-1\"");
}

#[test]
fn request_mutations_for_given_draws() {
    let mut req = request("http://h/items/1", None);
    req.query_params.insert("q".to_string(), "x".to_string());
    apply_query_mutation(&mut req, 0, 12, "v".to_string());
    assert_eq!(req.query_params.get("fuzz_param_12"), Some(&"v".to_string()));
    apply_query_mutation(&mut req, 1, 0, "w".to_string());
    assert_eq!(req.query_params.get("q"), Some(&"w".to_string()));
    apply_query_mutation(&mut req, 2, 0, String::new());
    assert_eq!(req.query_params.get("q"), None);

    apply_body_mutation(&mut req, 4, 0, 0, "z".to_string());
    assert_eq!(req.body.as_deref(), Some("{\"fuzz\": \"z\"}"));
    apply_body_mutation(&mut req, 4, 2, 0, "y".to_string());
    assert_eq!(req.body.as_deref(), Some(r#"{"fuzz":"y"}"#));
    apply_body_mutation(&mut req, 3, 0, 0, String::new());
    assert_eq!(req.body.as_deref(), Some("[]"));

    apply_url_mutation(&mut req, 2, "abc".to_string());
    assert_eq!(req.url, "http://h/items/abc");
    apply_url_mutation(&mut req, 1, "d".to_string());
    assert_eq!(req.url, "http://h/items/abc/d");
    apply_url_mutation(&mut req, 0, String::new());
    assert_eq!(req.url, "http://h/items/abc/d/../");

    apply_special_chars(&mut req, 3, 0);
    assert_eq!(req.query_params.get("injection"), Some(&"%00".to_string()));
    apply_special_chars(&mut req, 1, 1);
    assert_eq!(req.body.as_deref(), Some("{\"data\": \"<script>alert(1)</script>\"}"));

    apply_method_mutation(&mut req, 3);
    assert_eq!(req.method, "DELETE");

    apply_header_mutation(&mut req, 2, "t".to_string());
    assert_eq!(req.headers.get("Authorization"), Some(&"Bearer t".to_string()));
    apply_header_mutation(&mut req, 1, String::new());
    assert_eq!(req.headers.get("Content-Type"), Some(&"text/xml".to_string()));
}

#[test]
fn json_injection_at_given_positions() {
    let mut a = parse_json("[1, 2, 3]").unwrap();
    put_boundary_at(&mut a, "0", 2);
    assert_eq!(to_json_text(&a), r#"[1,2,"0"]"#);
    let mut o = parse_json(r#"{"a": 1, "b": 2}"#).unwrap();
    put_payload_at(&mut o, "p", 1);
    assert_eq!(to_json_text(&o), r#"{"a":1,"b":"p"}"#);
}

#[test]
fn param_mutations_for_given_draws() {
    let mut req = request("http://h/items/1", Some("[1, 2]"));
    apply_boundary_value(&mut req, 1, 1, 0);
    assert_eq!(req.body.as_deref(), Some(r#"["-1",2]"#));
    apply_boundary_value(&mut req, 3, 0, 0);
    assert_eq!(req.query_params.get("id"), Some(&"2147483647".to_string()));
    apply_boundary_value(&mut req, 11, 2, 0);
    assert_eq!(req.url, "http://h/items/null");

    let mut b = request("http://h", Some(r#"{"a": 1}"#));
    apply_type_confusion(&mut b, 2);
    assert_eq!(b.body.as_deref(), Some(r#"{"a":[1,2,3]}"#));

    let mut c = request("http://h", None);
    apply_injection_payload(&mut c, 22, 0, 2, 0);
    assert_eq!(c.query_params.get("id"), Some(&"; id".to_string()));
    apply_injection_payload(&mut c, 10, 1, 0, 0);
    assert_eq!(c.body.as_deref(), Some("{\"input\": \"javascript:alert(1)\"}"));
    apply_injection_payload(&mut c, 21, 2, 0, 0);
    assert_eq!(c.url, "http://h/file:///etc/passwd");
    apply_injection_payload(&mut c, 0, 3, 0, 0);
    assert_eq!(c.headers.get("Referer"), Some(&"' OR '1'='1".to_string()));

    let mut d = request("http://h", Some(r#"{"a": 1, "b": 2}"#));
    apply_format_string(&mut d, 1, 1, 1);
    assert_eq!(d.body.as_deref(), Some(r#"{"a":1,"b":"%x%x%x%x"}"#));
    apply_format_string(&mut d, 0, 0, 0);
    assert_eq!(d.query_params.get("fmt"), Some(&"%s%s%s%s%s".to_string()));
}
