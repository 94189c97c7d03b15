use base64::Engine;
use pathfuzz::coverage::header::{HeaderCoverageCollector, HeaderEncoding};
use pathfuzz::coverage::jacoco::{build_dump_command, hash_probe_to_map, read_u64, read_utf8, JacocoCoverageCollector};
use pathfuzz::coverage::observer::CoverageMapObserver;
use pathfuzz::coverage::feedback::CoverageFeedback;
use pathfuzz::coverage::{CoverageCollector, CoverageError, COVERAGE_MAP_SIZE};
use pathfuzz::string_map::StringMap;
use std::path::PathBuf;

#[test]
fn test_decode_base64() {
    let collector = HeaderCoverageCollector::default_base64();
    let data = vec![1u8, 2, 3, 0, 0, 5];
    let encoded = base64::engine::general_purpose::STANDARD.encode(&data);
    let result = collector.decode_bitmap(&encoded).unwrap();
    assert_eq!(result[0], 1);
    assert_eq!(result[1], 2);
    assert_eq!(result[2], 3);
    assert_eq!(result[5], 5);
    assert_eq!(result.len(), COVERAGE_MAP_SIZE);
}

#[test]
fn test_decode_hex() {
    let collector = HeaderCoverageCollector::default_hex();
    let result = collector.decode_bitmap("0102030005").unwrap();
    assert_eq!(result[0], 1);
    assert_eq!(result[1], 2);
    assert_eq!(result[2], 3);
    assert_eq!(result[3], 0);
    assert_eq!(result[4], 5);
    assert_eq!(result.len(), COVERAGE_MAP_SIZE);
}

#[test]
fn test_decode_hit_counts() {
    let collector = HeaderCoverageCollector::new("x-cov", HeaderEncoding::HitCounts);
    let result = collector.decode_bitmap("1,0,3,0,255,300").unwrap();
    assert_eq!(result[0], 1);
    assert_eq!(result[1], 0);
    assert_eq!(result[2], 3);
    assert_eq!(result[4], 255);
    assert_eq!(result[5], 255); // clamped from 300
}

#[test]
fn test_collect_missing_header() {
    let mut collector = HeaderCoverageCollector::default_base64();
    let headers = StringMap::new();
    let result = collector.collect_coverage(&headers).unwrap();
    assert!(result.iter().all(|&b| b == 0));
}

#[test]
fn test_collect_with_header() {
    let mut collector = HeaderCoverageCollector::default_base64();
    let data = vec![0u8; 10];
    let mut modified = data.clone();
    modified[3] = 7;
    let encoded = base64::engine::general_purpose::STANDARD.encode(&modified);

    let mut headers = StringMap::new();
    headers.insert("X-Coverage-Map".to_string(), encoded);

    let result = collector.collect_coverage(&headers).unwrap();
    assert_eq!(result[3], 7);
}

#[test]
fn test_hash_probe_to_map_deterministic() {
    let idx1 = hash_probe_to_map(12345, 0, COVERAGE_MAP_SIZE);
    let idx2 = hash_probe_to_map(12345, 0, COVERAGE_MAP_SIZE);
    assert_eq!(idx1, idx2);
    assert!(idx1 < COVERAGE_MAP_SIZE);
}

#[test]
fn test_hash_probe_to_map_distribution() {
    let mut seen = std::collections::HashSet::new();
    for class_id in 0..1000u64 {
        for probe in 0..10u32 {
            seen.insert(hash_probe_to_map(class_id, probe, COVERAGE_MAP_SIZE));
        }
    }
    assert!(seen.len() > 5000);
}

#[test]
fn test_collector_from_missing_file() {
    let collector = JacocoCoverageCollector::from_exec_file(PathBuf::from("/nonexistent.exec"));
    let mut c = collector;
    // The file does not exist, so there are no contents to parse.
    let result = c.collect_from_exec_contents(None).unwrap();
    assert_eq!(result.len(), COVERAGE_MAP_SIZE);
    assert!(result.iter().all(|&b| b == 0));
}

#[test]
fn decode_hex_rejects_bad_digit() {
    let collector = HeaderCoverageCollector::default_hex();
    match collector.decode_bitmap("zz") {
        Err(CoverageError::Parse(m)) => assert!(m.contains("Invalid hex")),
        _ => panic!("expected a parse error"),
    }
}

#[test]
fn decode_base64_rejects_garbage() {
    let collector = HeaderCoverageCollector::default_base64();
    assert!(matches!(collector.decode_bitmap("!!!"), Err(CoverageError::Parse(_))));
}

#[test]
fn decode_base64_gives_decoded_bytes_not_the_text() {
    let collector = HeaderCoverageCollector::default_base64();
    // "AQID" is the base64 text of [1, 2, 3]; its own bytes would start with b'A'.
    let result = collector.decode_bitmap("AQID").unwrap();
    assert_eq!(&result[..4], &[1u8, 2, 3, 0]);
}

#[test]
fn header_name_matches_without_case() {
    let mut collector = HeaderCoverageCollector::new("X-Cov", HeaderEncoding::Hex);
    let mut headers = StringMap::new();
    headers.insert("x-cov".to_string(), "ff".to_string());
    let result = collector.collect_coverage(&headers).unwrap();
    assert_eq!(result[0], 255);
    assert_eq!(result.len(), COVERAGE_MAP_SIZE);
}

#[test]
fn hash_probe_formula_value() {
    // Multiply-xor-multiply-fold of the class id and probe, modulo the map size.
    assert_eq!(hash_probe_to_map(1, 2, 100), 39);
    assert_eq!(hash_probe_to_map(1, 2, 65536), 31567);
}

#[test]
fn committed_map_is_not_new_again() {
    let mut obs = CoverageMapObserver::new();
    let mut map = vec![0u8; COVERAGE_MAP_SIZE];
    map[7] = 1;
    obs.update_from_result(Ok(map.clone()));
    assert!(obs.has_new_coverage());
    assert_eq!(obs.total_edges_covered(), 1);
    obs.commit();
    obs.update_from_result(Ok(map));
    assert!(!obs.has_new_coverage());
}

#[test]
fn merge_keeps_earlier_hits() {
    let mut obs = CoverageMapObserver::new();
    let mut a = vec![0u8; COVERAGE_MAP_SIZE];
    a[1] = 3;
    let mut b = vec![0u8; COVERAGE_MAP_SIZE];
    b[2] = 4;
    obs.update_from_result(Ok(a));
    obs.update_from_result(Ok(b));
    assert_eq!(obs.coverage_map()[1], 3);
    assert_eq!(obs.coverage_map()[2], 4);
    assert_eq!(obs.total_edges_covered(), 2);
}

#[test]
fn collector_error_changes_nothing() {
    let mut obs = CoverageMapObserver::new();
    obs.update_from_result(Err(CoverageError::Parse("x".to_string())));
    assert!(!obs.has_new_coverage());
    assert_eq!(obs.total_edges_covered(), 0);
}

#[test]
fn feedback_same_map_twice_is_interesting_once() {
    let mut fb = CoverageFeedback::new();
    let mut map = vec![0u8; COVERAGE_MAP_SIZE];
    map[5] = 2;
    assert!(fb.is_interesting_map(&map));
    assert_eq!(fb.total_coverage(), 1);
    assert!(!fb.is_interesting_map(&map));
    assert_eq!(fb.total_coverage(), 1);
}

#[test]
fn coverage_error_messages() {
    assert_eq!(CoverageError::Parse("bad".to_string()).message(), "Parse error: bad");
    assert_eq!(CoverageError::Connection("down".to_string()).message(), "Connection error: down");
}

#[test]
fn utf8_strings_in_exec_data() {
    let ok = [0u8, 2, b'h', b'i'];
    let (s, next) = read_utf8(&ok, 0).unwrap();
    assert_eq!(s, "hi");
    assert_eq!(next, 4);
    let bad = [0u8, 1, 0xff];
    assert!(matches!(read_utf8(&bad, 0), Err(CoverageError::Parse(_))));
    let short = [0u8, 5, b'a'];
    assert!(matches!(read_utf8(&short, 0), Err(CoverageError::Parse(_))));
}

#[test]
fn exec_data_counts_probes() {
    assert_eq!(build_dump_command(true), vec![0x40, 1, 0, 0, 0]);
    let mut c = JacocoCoverageCollector::from_exec_file(PathBuf::from("/x.exec"));
    // Header, then one execution-data block: class id 1, name "A", two probes, the second hit.
    let mut data = vec![0x01u8, 0xc0, 0xc0, 0x10, 0x07];
    data.push(0x11);
    data.extend_from_slice(&1u64.to_be_bytes());
    data.extend_from_slice(&[0, 1, b'A']);
    data.extend_from_slice(&[0, 2]);
    data.extend_from_slice(&[0, 1]);
    let map = c.collect_from_exec_contents(Some(data)).unwrap();
    assert_eq!(map.len(), COVERAGE_MAP_SIZE);
    assert_eq!(map[hash_probe_to_map(1, 1, COVERAGE_MAP_SIZE)], 1);
    assert_eq!(map.iter().filter(|&&b| b != 0).count(), 1);
}

#[test]
fn agent_collector_asks_for_a_dump_and_has_no_file() {
    let mut c = JacocoCoverageCollector::from_agent("localhost:6300".to_string());
    let (addr, cmd) = c.dump_request().unwrap();
    assert_eq!(addr, "localhost:6300");
    assert_eq!(cmd, vec![0x40, 1, 0, 0, 0]);
    assert!(matches!(c.collect_from_exec_contents(None), Err(CoverageError::Parse(_))));
}

#[test]
fn io_error_message() {
    let e = CoverageError::from(std::io::Error::new(std::io::ErrorKind::Other, "disk"));
    assert!(e.message().starts_with("IO error: "));
    assert!(e.message().ends_with("disk"));
}

#[test]
fn short_read_names_what_was_read() {
    match read_u64(&[1, 2, 3], 0) {
        Err(e) => assert_eq!(e.message(), "Parse error: Failed to read u64: failed to fill whole buffer"),
        Ok(_) => panic!("three bytes hold no u64"),
    }
}

fn parse_message(r: Result<Vec<u8>, CoverageError>) -> String {
    match r {
        Err(CoverageError::Parse(m)) => m,
        _ => panic!("expected a parse error"),
    }
}

#[test]
fn hit_count_errors_name_the_first_bad_piece() {
    let c = HeaderCoverageCollector::new("x-cov", HeaderEncoding::HitCounts);
    assert_eq!(
        parse_message(c.decode_bitmap("1, ,2")),
        "Invalid hit count data: cannot parse integer from empty string"
    );
    assert_eq!(
        parse_message(c.decode_bitmap("1,99999999999999999999")),
        "Invalid hit count data: number too large to fit in target type"
    );
    assert_eq!(parse_message(c.decode_bitmap("1,x,99999999999999999999")), "Invalid hit count data: invalid digit found in string");
    assert_eq!(parse_message(c.decode_bitmap("+")), "Invalid hit count data: invalid digit found in string");
}

#[test]
fn decode_error_texts() {
    let b = HeaderCoverageCollector::default_base64();
    assert_eq!(parse_message(b.decode_bitmap("!!!!")), "Invalid base64 coverage data: Invalid symbol 33, offset 0.");
    assert_eq!(parse_message(b.decode_bitmap("QQ")), "Invalid base64 coverage data: Invalid padding");
    let h = HeaderCoverageCollector::default_hex();
    assert_eq!(parse_message(h.decode_bitmap("abc")), "Hex string has odd length");
    assert_eq!(parse_message(h.decode_bitmap("zz")), "Invalid hex coverage data: invalid digit found in string");
}

#[test]
fn collector_without_exec_file_says_so() {
    let mut c = JacocoCoverageCollector::from_agent("localhost:6300".to_string());
    assert_eq!(parse_message(c.collect_from_exec_contents(None)), "No exec file path configured");
}

#[test]
fn feedback_over_many_calls() {
    let mut fb = CoverageFeedback::new();
    let mut a = vec![0u8; COVERAGE_MAP_SIZE];
    a[1] = 3;
    a[2] = 1;
    let mut b = vec![0u8; COVERAGE_MAP_SIZE];
    b[1] = 2;
    b[7] = 1;
    assert!(fb.is_interesting_map(&a));
    assert_eq!(fb.total_coverage(), 2);
    assert!(fb.is_interesting_map(&b));
    assert_eq!(fb.total_coverage(), 3);
    let mut c = vec![0u8; COVERAGE_MAP_SIZE];
    c[1] = 3;
    c[2] = 1;
    c[7] = 1;
    assert!(!fb.is_interesting_map(&c));
    assert_eq!(fb.total_coverage(), 3);
    c[1] = 4;
    assert!(fb.is_interesting_map(&c));
    assert_eq!(fb.total_coverage(), 3);
}

#[test]
fn new_coverage_is_measured_against_the_last_commit() {
    let mut obs = CoverageMapObserver::new();
    let mut a = vec![0u8; COVERAGE_MAP_SIZE];
    a[3] = 1;
    obs.update_from_result(Ok(a.clone()));
    obs.commit();
    obs.clear_current();
    let mut b = vec![0u8; COVERAGE_MAP_SIZE];
    b[4] = 1;
    obs.update_from_result(Ok(b.clone()));
    assert!(obs.has_new_coverage());
    obs.update_from_result(Ok(a.clone()));
    assert!(!obs.has_new_coverage());
    obs.update_from_result(Ok(b));
    assert!(obs.has_new_coverage());
    obs.commit();
    obs.update_from_result(Err(CoverageError::Parse("x".to_string())));
    assert!(obs.has_new_coverage());
    obs.clear_current();
    assert!(!obs.has_new_coverage());
}

#[test]
fn collector_reads_only_the_named_header() {
    let mut c = HeaderCoverageCollector::new("X-Coverage-Map", HeaderEncoding::Hex);
    let mut hs = StringMap::new();
    hs.insert("Other".to_string(), "zz".to_string());
    hs.insert("x-COVERAGE-map".to_string(), "0102".to_string());
    let r = c.collect_coverage(&hs).unwrap();
    assert_eq!(r, c.decode_bitmap("0102").unwrap());
    let mut none = StringMap::new();
    none.insert("Other".to_string(), "zz".to_string());
    assert_eq!(c.collect_coverage(&none).unwrap(), vec![0u8; COVERAGE_MAP_SIZE]);
}

#[test]
fn observer_merges_what_the_collector_answers() {
    let mut obs = CoverageMapObserver::new();
    let mut c = HeaderCoverageCollector::new("x-cov", HeaderEncoding::HitCounts);
    let mut hs = StringMap::new();
    hs.insert("X-Cov".to_string(), "0,2,0,1".to_string());
    obs.update_from_collector(&mut c, &hs);
    assert!(obs.has_new_coverage());
    assert_eq!(obs.coverage_map()[1], 2);
    assert_eq!(obs.coverage_map()[3], 1);
    assert_eq!(obs.total_edges_covered(), 2);
    let mut bad = StringMap::new();
    bad.insert("x-cov".to_string(), "1,x".to_string());
    obs.commit();
    obs.update_from_collector(&mut c, &bad);
    assert!(obs.has_new_coverage());
    assert_eq!(obs.total_edges_covered(), 2);
}
