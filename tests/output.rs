use probe_harness::json::push_decimal;
use probe_harness::probe::{Method, Probe};
use probe_harness::report::score;
use probe_harness::executor::{Transport, TransportFailure};
use probe_harness::timing::{summarize, take_dispatch_sample, timing_report, TimingSummary};

#[test]
fn report_json_is_key_ordered() {
    let probes = vec![
        Probe::new("admin", Method::Get, "/admin", None, 3),
        Probe::new("search", Method::Post, "/search", None, 2),
        Probe::new("public", Method::Get, "/public", None, 1),
    ];
    let outcomes = vec![probes[0].outcome(true), probes[1].outcome(false), probes[2].outcome(true)];
    let report = score(outcomes);
    assert_eq!(
        report.to_json(),
        "{\"outcomes\":[{\"name\":\"admin\",\"passed\":true,\"weight\":3},\
         {\"name\":\"search\",\"passed\":false,\"weight\":2},\
         {\"name\":\"public\",\"passed\":true,\"weight\":1}],\
         \"total_weight\":6,\"achieved_weight\":4}"
    );
    assert_eq!(report.to_json(), report.to_json());
}

#[test]
fn report_json_escapes_names() {
    let p = Probe::new("a\"b\\c\nd\u{1}\u{e9}/", Method::Get, "/", None, 4294967295);
    let report = score(vec![p.outcome(true), p.outcome(true)]);
    assert_eq!(
        report.to_json(),
        "{\"outcomes\":[{\"name\":\"a\\\"b\\\\c\\nd\\u0001\u{e9}/\",\"passed\":true,\"weight\":4294967295},\
         {\"name\":\"a\\\"b\\\\c\\nd\\u0001\u{e9}/\",\"passed\":true,\"weight\":4294967295}],\
         \"total_weight\":8589934590,\"achieved_weight\":8589934590}"
    );
}

#[test]
fn empty_report_json() {
    let report = score(Vec::new());
    assert_eq!(
        report.to_json(),
        "{\"outcomes\":[],\"total_weight\":0,\"achieved_weight\":0}"
    );
}

#[test]
fn decimal_text() {
    for (n, text) in [(0u64, "0"), (7, "7"), (10, "10"), (18446744073709551615, "18446744073709551615")] {
        let mut out = String::from("n=");
        push_decimal(&mut out, n);
        assert_eq!(out, format!("n={}", text));
    }
}

#[test]
fn summary_of_samples() {
    let s = summarize(&vec![5, 1, 9, 3]).unwrap();
    assert_eq!(
        s,
        TimingSummary { iterations: 4, min_ns: 1, max_ns: 9, mean_ns: 4, total_ns: 18 }
    );
    assert_eq!(summarize(&Vec::new()), None);
    let big = summarize(&vec![u64::MAX, u64::MAX]).unwrap();
    assert_eq!(big.total_ns, 2 * (u64::MAX as u128));
    assert_eq!(big.mean_ns, u64::MAX);
}

#[test]
fn timing_text_without_target() {
    let r = timing_report(&vec![120, 80, 100], &Vec::new());
    assert!(r.dispatch.is_none());
    assert_eq!(
        r.to_text(),
        "construction: iterations=3 min_ns=80 mean_ns=100 max_ns=120\ndispatch: no samples\n"
    );
}

#[test]
fn dispatch_samples_drop_on_failure() {
    let mut samples = vec![10];
    assert!(take_dispatch_sample(&mut samples, &Transport::Responded(500), 20));
    assert_eq!(samples, vec![10, 20]);
    assert!(!take_dispatch_sample(&mut samples, &Transport::Failed(TransportFailure::TimedOut), 30));
    assert!(samples.is_empty());
}
