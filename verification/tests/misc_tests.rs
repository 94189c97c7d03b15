use pathfuzz::cli::{parse_coverage_mode, parse_iterations, CoverageMode};
use pathfuzz::coverage::header::HeaderEncoding;
use pathfuzz::coverage::observer::CoverageMapObserver;
use pathfuzz::fuzzer::executor::{record_failure, record_response, RunExit};
use pathfuzz::fuzzer::feedback::StatusCodeFeedback;
use pathfuzz::fuzzer::input::FuzzHttpRequest;
use pathfuzz::fuzzer::observer::HttpObserver;
use pathfuzz::fuzzer::sequence_executor::SequenceRun;
use pathfuzz::fuzzer::sequence_input::FuzzRequestSequence;
use pathfuzz::fuzzer::state::FuzzCorpus;
use pathfuzz::fuzzer::state_manager::{InjectionTarget, StateExtraction};
use pathfuzz::http_client::client::{url_with_query, urlencoded, HttpResponse};
use pathfuzz::string_map::StringMap;
use std::time::Duration;

fn args(v: &[&str]) -> Vec<String> {
    v.iter().map(|s| s.to_string()).collect()
}

fn response(status: u16, body: &str) -> HttpResponse {
    HttpResponse { status_code: status, body: body.to_string(), duration: Duration::from_millis(3), headers: StringMap::new() }
}

fn request(url: &str) -> FuzzHttpRequest {
    FuzzHttpRequest {
        url: url.to_string(),
        method: "GET".to_string(),
        headers: StringMap::new(),
        query_params: StringMap::new(),
        body: None,
    }
}

#[test]
fn coverage_modes() {
    assert!(matches!(parse_coverage_mode(&args(&["p", "s.yaml"])), CoverageMode::Disabled));
    match parse_coverage_mode(&args(&["p", "s", "u", "--coverage", "jacoco"])) {
        CoverageMode::Jacoco(p) => assert_eq!(p, "jacoco.exec"),
        _ => panic!(),
    }
    match parse_coverage_mode(&args(&["p", "--coverage", "jacoco-agent", "h:1"])) {
        CoverageMode::JacocoAgent(a) => assert_eq!(a, "h:1"),
        _ => panic!(),
    }
    match parse_coverage_mode(&args(&["p", "--coverage", "header-hex"])) {
        CoverageMode::Header(h, e) => {
            assert_eq!(h, "X-Coverage-Bitmap");
            assert_eq!(e, HeaderEncoding::Hex);
        }
        _ => panic!(),
    }
    match parse_coverage_mode(&args(&["p", "--coverage", "bogus", "--coverage", "header", "X-C"])) {
        CoverageMode::Header(h, e) => {
            assert_eq!(h, "X-C");
            assert_eq!(e, HeaderEncoding::Base64);
        }
        _ => panic!(),
    }
}

#[test]
fn iteration_counts() {
    assert_eq!(parse_iterations(&args(&["p", "s", "u", "--iterations", "7"])), 7);
    assert_eq!(parse_iterations(&args(&["p", "s", "u", "-n", "x", "-n", "9"])), 9);
    assert_eq!(parse_iterations(&args(&["p", "s", "u", "12"])), 12);
    assert_eq!(parse_iterations(&args(&["p", "s", "u", "--coverage"])), 50);
    assert_eq!(parse_iterations(&args(&["p"])), 50);
}

#[test]
fn url_encoding() {
    assert_eq!(urlencoded("a b&c"), "a+b%26c");
    assert_eq!(urlencoded("A-z_0.~"), "A-z_0.~");
    assert_eq!(urlencoded("é"), "%E9");
    let mut q = StringMap::new();
    q.insert("k 1".to_string(), "v/2".to_string());
    q.insert("x".to_string(), "y".to_string());
    assert_eq!(url_with_query("http://h/p", &q), "http://h/p?k+1=v%2F2&x=y");
    assert_eq!(url_with_query("http://h/p", &StringMap::new()), "http://h/p");
}

#[test]
fn server_errors() {
    assert!(response(500, "").is_server_error());
    assert!(response(599, "").is_server_error());
    assert!(!response(404, "").is_server_error());
    assert!(!response(600, "").is_server_error());
}

#[test]
fn observers_and_feedback() {
    let mut obs = HttpObserver::new();
    let mut fb = StatusCodeFeedback::new();
    assert!(!fb.is_interesting(Some(&obs)));
    assert_eq!(record_response(&mut obs, &response(503, "oops")), RunExit::Crash);
    assert_eq!(obs.last_response_body.as_deref(), Some("oops"));
    assert!(fb.is_interesting(Some(&obs)));
    assert!(!fb.is_interesting(None));
    assert_eq!(record_response(&mut obs, &response(200, "ok")), RunExit::Completed);
    assert!(!fb.is_interesting(Some(&obs)));
    assert_eq!(record_failure(&mut obs), RunExit::Timeout);
    assert_eq!(obs.last_status_code, None);
}

#[test]
fn corpus_keeps_interesting_entries() {
    let mut c = FuzzCorpus::new();
    c.add(request("http://h/a"), 200, false);
    c.add(request("http://h/b"), 500, true);
    assert_eq!(c.len(), 2);
    let i = c.interesting_entries();
    assert_eq!(i.len(), 1);
    assert_eq!(i[0].input.url, "http://h/b");
}

#[test]
fn sequence_run_carries_values_and_keeps_the_worst_exit() {
    let seq = FuzzRequestSequence::with_extractions(
        vec![request("http://h/items"), request("http://h/items/{id}")],
        vec![StateExtraction {
            source_request_idx: 0,
            json_path: "$.id".to_string(),
            target_request_idx: 1,
            target: InjectionTarget::PathParam("id".to_string()),
        }],
    );
    let mut http = HttpObserver::new();
    let mut cov = CoverageMapObserver::new();
    let mut run = SequenceRun::start(&mut http, &mut cov);
    let first = run.prepare_request(&seq, 0).unwrap();
    assert_eq!(first.url, "http://h/items");
    assert!(run.on_response(&seq, 0, &response(201, r#"{"id": 5}"#), &mut http));
    let second = run.prepare_request(&seq, 1).unwrap();
    assert_eq!(second.url, "http://h/items/5");
    assert!(run.on_response(&seq, 1, &response(500, "x"), &mut http));
    run.on_failure();
    assert_eq!(run.exit_kind(), RunExit::Crash);
    let mut other = SequenceRun::start(&mut http, &mut cov);
    other.on_failure();
    assert_eq!(other.exit_kind(), RunExit::Timeout);
}
