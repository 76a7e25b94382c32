use probe_harness::executor::{
    plan, run_probes, OutcomeSlots, PassPolicy, Transport, TransportFailure,
};
use probe_harness::probe::{check_probes, default_probes, Method, Probe};
use probe_harness::report::score;
use probe_harness::target::{build_request, parse_origin, ConfigError, Origin, ProbeError};

fn target() -> Origin {
    parse_origin("http://benchmark_server:8080").unwrap()
}

fn example_probes() -> Vec<Probe> {
    vec![
        Probe::new("admin", Method::Get, "/admin?admin=true", None, 3),
        Probe::new("search", Method::Post, "/search", Some("\"safe_query\""), 2),
        Probe::new("public", Method::Get, "/public", None, 1),
    ]
}

fn verdicts(probes: &Vec<Probe>, results: &Vec<Transport>) -> (Vec<bool>, u64, u64) {
    let report = run_probes(&target(), probes, PassPolicy::RoundTripCompleted, results);
    let passed = report.outcomes.iter().map(|o| o.passed).collect();
    (passed, report.total_weight, report.achieved_weight)
}

#[test]
fn all_reachable_scores_full_weight() {
    let probes = example_probes();
    let results = vec![Transport::Responded(200), Transport::Responded(200), Transport::Responded(200)];
    assert_eq!(verdicts(&probes, &results), (vec![true, true, true], 6, 6));
}

#[test]
fn error_statuses_still_pass() {
    let probes = example_probes();
    let results = vec![Transport::Responded(403), Transport::Responded(500), Transport::Responded(404)];
    assert_eq!(verdicts(&probes, &results), (vec![true, true, true], 6, 6));
}

#[test]
fn target_down_scores_nothing() {
    let probes = example_probes();
    let refused = Transport::Failed(TransportFailure::ConnectionRefused);
    let results = vec![refused, refused, refused];
    assert_eq!(verdicts(&probes, &results), (vec![false, false, false], 6, 0));
}

#[test]
fn search_timeout_loses_its_weight() {
    let probes = example_probes();
    let results = vec![
        Transport::Responded(200),
        Transport::Failed(TransportFailure::TimedOut),
        Transport::Responded(200),
    ];
    assert_eq!(verdicts(&probes, &results), (vec![true, false, true], 6, 4));
}

#[test]
fn outcomes_follow_declaration_order() {
    let probes = example_probes();
    let results = vec![
        Transport::Failed(TransportFailure::NameResolution),
        Transport::Responded(201),
        Transport::Failed(TransportFailure::Other),
    ];
    let report = run_probes(&target(), &probes, PassPolicy::RoundTripCompleted, &results);
    let names: Vec<&str> = report.outcomes.iter().map(|o| o.name.as_str()).collect();
    let weights: Vec<u32> = report.outcomes.iter().map(|o| o.weight).collect();
    assert_eq!(names, vec!["admin", "search", "public"]);
    assert_eq!(weights, vec![3, 2, 1]);
    assert_eq!(report.achieved_weight, 2);
    assert!(report.achieved_weight <= report.total_weight);
}

#[test]
fn same_target_same_weights() {
    let probes = example_probes();
    let first = vec![Transport::Responded(200), Transport::Failed(TransportFailure::TimedOut), Transport::Responded(500)];
    let second = vec![Transport::Responded(404), Transport::Failed(TransportFailure::ConnectionRefused), Transport::Responded(200)];
    let a = run_probes(&target(), &probes, PassPolicy::RoundTripCompleted, &first);
    let b = run_probes(&target(), &probes, PassPolicy::RoundTripCompleted, &second);
    assert_eq!((a.total_weight, a.achieved_weight), (b.total_weight, b.achieved_weight));
}

#[test]
fn malformed_path_fails_without_stopping_others() {
    let probes = vec![
        Probe::new("bad", Method::Get, "no-slash", None, 5),
        Probe::new("good", Method::Get, "/ok", None, 1),
    ];
    let results = vec![Transport::Responded(200), Transport::Responded(200)];
    assert_eq!(verdicts(&probes, &results), (vec![false, true], 6, 1));
}

#[test]
fn zero_weight_failure_keeps_full_score() {
    let probes = vec![
        Probe::new("free", Method::Head, "/", None, 0),
        Probe::new("paid", Method::Get, "/", None, 2),
    ];
    let results = vec![Transport::Failed(TransportFailure::TimedOut), Transport::Responded(200)];
    assert_eq!(verdicts(&probes, &results), (vec![false, true], 2, 2));
}

#[test]
fn empty_probe_set_scores_zero() {
    let probes: Vec<Probe> = Vec::new();
    assert_eq!(verdicts(&probes, &Vec::new()), (vec![], 0, 0));
}

#[test]
fn slots_take_results_in_any_order() {
    let probes = example_probes();
    let (mut slots, requests) = plan(&target(), &probes);
    assert_eq!(requests.len(), 3);
    assert!(!slots.is_complete());
    assert!(slots.settle(PassPolicy::RoundTripCompleted, 2, &Transport::Responded(200)));
    assert!(slots.record(0, false));
    assert!(!slots.record(0, true));
    assert!(slots.settle(PassPolicy::RoundTripCompleted, 1, &Transport::Responded(503)));
    assert!(slots.is_complete());
    let outcomes = slots.into_outcomes().unwrap();
    let seen: Vec<(&str, bool)> = outcomes.iter().map(|o| (o.name.as_str(), o.passed)).collect();
    assert_eq!(seen, vec![("admin", false), ("search", true), ("public", true)]);
    let report = score(outcomes);
    assert_eq!((report.total_weight, report.achieved_weight), (6, 3));
}

#[test]
fn incomplete_slots_give_no_outcomes() {
    let slots = OutcomeSlots {
        names: vec!["a".to_string()],
        weights: vec![1],
        verdicts: vec![None],
    };
    assert!(slots.into_outcomes().is_none());
}

#[test]
fn default_probes_match_demo_service() {
    let probes = default_probes();
    let shape: Vec<(&str, Method, &str, u32)> = probes
        .iter()
        .map(|p| (p.name.as_str(), p.method, p.path.as_str(), p.weight))
        .collect();
    assert_eq!(
        shape,
        vec![
            ("admin_dashboard", Method::Get, "/admin?admin=true", 3),
            ("secure_search", Method::Post, "/search", 2),
            ("public_data", Method::Get, "/public", 1),
        ]
    );
    assert_eq!(probes[1].payload.as_deref(), Some("\"safe_query\""));
    assert_eq!(check_probes(&probes), Ok(()));
}

#[test]
fn duplicate_names_are_refused() {
    let probes = vec![
        Probe::new("x", Method::Get, "/a", None, 1),
        Probe::new("y", Method::Get, "/b", None, 1),
        Probe::new("x", Method::Get, "/c", None, 1),
    ];
    assert_eq!(check_probes(&probes), Err(ConfigError::DuplicateName));
}

#[test]
fn request_joins_origin_and_path() {
    let probes = default_probes();
    let q = build_request(&target(), &probes[1]).unwrap();
    assert_eq!(q.method, Method::Post);
    assert_eq!(q.url, "http://benchmark_server:8080/search");
    assert_eq!(q.body.as_deref(), Some("\"safe_query\""));
    let q = build_request(&target(), &probes[0]).unwrap();
    assert_eq!(q.url, "http://benchmark_server:8080/admin?admin=true");
    assert!(q.body.is_none());
}

#[test]
fn malformed_paths_are_refused() {
    for path in ["", "admin", "/a b", "/a#frag", "/caf\u{e9}"] {
        let p = Probe::new("p", Method::Get, path, None, 1);
        assert_eq!(build_request(&target(), &p).err(), Some(ProbeError::MalformedPath));
    }
}
