use mosec::args::{is_reserved, Opts};
use mosec::endpoint::Endpoint;
use mosec::errors::SystemError;

fn opts(endpoints: &[&str], stages: &[u32], batches: &[u32], waits: &[u64], mime: &[&str]) -> Opts {
    Opts {
        path: String::new(),
        endpoints: endpoints.iter().map(|e| Endpoint::new(e)).collect(),
        stages: stages.to_vec(),
        batches: batches.to_vec(),
        capacity: 1024,
        timeout: 3000,
        wait: 10,
        waits: waits.to_vec(),
        address: String::from("0.0.0.0"),
        port: 8000,
        namespace: String::from("mosec_service"),
        debug: false,
        mime: mime.iter().map(|m| m.to_string()).collect(),
    }
}

fn message(r: Result<(), SystemError>) -> String {
    match r {
        Ok(()) => panic!("expected a validation error"),
        Err(SystemError::ArgsValidationFailed { msg }) => msg,
    }
}

#[test]
fn consistent_options_pass() {
    let o = opts(
        &["/math/next", "/ping"],
        &[2, 1],
        &[8, 4, 1],
        &[10, 20, 30],
        &["application/json", "text/plain"],
    );
    assert!(o.validate().is_ok());
}

#[test]
fn no_endpoints_pass() {
    let o = opts(&[], &[], &[], &[], &[]);
    assert!(o.validate().is_ok());
}

#[test]
fn root_route_is_refused() {
    let o = opts(&["/"], &[1], &[1], &[1], &["a"]);
    assert_eq!(
        message(o.validate()),
        "endpoints and stages array should have same length, but 1 != 1"
    );
}

#[test]
fn metrics_route_is_refused() {
    let o = opts(&["/ok", "/metrics"], &[1], &[1], &[1], &["a"]);
    assert_eq!(
        message(o.validate()),
        "endpoints and stages array should have same length, but 2 != 1"
    );
}

#[test]
fn stages_length_mismatch() {
    let o = opts(&["/a", "/b"], &[1], &[1], &[1], &["x", "y"]);
    assert_eq!(
        message(o.validate()),
        "endpoints and stages array should have same length, but 2 != 1"
    );
}

#[test]
fn mime_length_mismatch() {
    let o = opts(&["/a", "/b"], &[1, 1], &[1, 1], &[1, 1], &["x"]);
    assert_eq!(
        message(o.validate()),
        "endpoints and mime array should have same length, but 2 != 1"
    );
}

#[test]
fn batches_must_match_stage_total() {
    let o = opts(&["/a"], &[3], &[1, 2], &[1, 2, 3], &["x"]);
    assert_eq!(
        message(o.validate()),
        "endpoints and stages array should have same length, but 1 != 1"
    );
}

#[test]
fn large_counts_in_message() {
    let endpoints: Vec<String> = (0..12).map(|i| format!("/e{}", i)).collect();
    let names: Vec<&str> = endpoints.iter().map(|s| s.as_str()).collect();
    let o = opts(&names, &[1; 10], &[], &[], &[]);
    assert_eq!(
        message(o.validate()),
        "endpoints and stages array should have same length, but 12 != 10"
    );
}

#[test]
fn reserved_routes() {
    assert!(is_reserved(&Endpoint::new("/")));
    assert!(is_reserved(&Endpoint::new("/metrics")));
    assert!(!is_reserved(&Endpoint::new("/metrics/")));
    assert!(!is_reserved(&Endpoint::new("")));
}

#[test]
fn every_route_gets_its_own_run() {
    let o = opts(
        &["/a", "/b"],
        &[1, 2],
        &[1, 2, 3],
        &[10, 20, 30],
        &["x", "y"],
    );
    let t = o.devide_into_endpoints();
    assert_eq!(t.len(), 2);
    assert_eq!(t.get("/a"), Some(&(vec![1], vec![10])));
    assert_eq!(t.get("/b"), Some(&(vec![2, 3], vec![20, 30])));
    assert!(t.get("/c").is_none());
}

#[test]
fn repeated_route_keeps_its_last_entry() {
    let o = opts(&["/a", "/a"], &[1, 3], &[1, 2, 3, 4], &[5, 6, 7, 8], &["x", "y"]);
    let t = o.devide_into_endpoints();
    assert_eq!(t.len(), 1);
    assert_eq!(t.get("/a"), Some(&(vec![2, 3, 4], vec![6, 7, 8])));
}

#[test]
fn route_without_stages_gets_empty_runs() {
    let o = opts(&["/a", "/b"], &[0, 1], &[7], &[9], &["x", "y"]);
    let t = o.devide_into_endpoints();
    assert_eq!(t.get("/a"), Some(&(vec![], vec![])));
    assert_eq!(t.get("/b"), Some(&(vec![7], vec![9])));
}

#[test]
fn validated_options_divide_and_join_back() {
    let o = opts(
        &["/a", "/b", "/c"],
        &[1, 3, 2],
        &[1, 2, 3, 4, 5, 6],
        &[6, 5, 4, 3, 2, 1],
        &["x", "y", "z"],
    );
    assert!(o.validate().is_ok());
    let t = o.devide_into_endpoints();
    assert_eq!(t.get("/a"), Some(&(vec![1], vec![6])));
    assert_eq!(t.get("/b"), Some(&(vec![2, 3, 4], vec![5, 4, 3])));
    assert_eq!(t.get("/c"), Some(&(vec![5, 6], vec![2, 1])));
    let mut batches: Vec<u32> = Vec::new();
    let mut waits: Vec<u64> = Vec::new();
    for e in ["/a", "/b", "/c"] {
        let (b, w) = t.get(e).unwrap();
        batches.extend(b.iter().copied());
        waits.extend(w.iter().copied());
    }
    assert_eq!(batches, o.batches);
    assert_eq!(waits, o.waits);
}

#[test]
fn waits_must_match_batches() {
    let o = opts(&["/a"], &[1], &[4], &[], &["text/plain"]);
    assert_eq!(
        message(o.validate()),
        "batches and waits array should have same length, but 1 != 0"
    );
}

#[test]
fn stage_total_past_u32_is_refused() {
    let o = opts(&["/a", "/b"], &[u32::MAX, 1], &[], &[], &["x", "y"]);
    assert_eq!(
        message(o.validate()),
        "stages array convert to u32 failed, [\n    4294967295,\n    1,\n]"
    );
}

#[test]
fn stage_total_at_u32_max_is_counted() {
    let o = opts(&["/a", "/b"], &[u32::MAX - 1, 1], &[1], &[1], &["x", "y"]);
    assert_eq!(
        message(o.validate()),
        "endpoints and stages array should have same length, but 2 != 2"
    );
}
