use ping_exporter::addr::Address;
use ping_exporter::metrics::{bound_us, within_bucket, MetricState, Update, BUCKETS};
use ping_exporter::probe::ProbeOutcome;
use ping_exporter::target::Target;

fn target(id: &str) -> Target {
    Target { identity: id.to_string(), address: Some(Address::V4(1)) }
}

fn success(id: &str, rtt_us: u64) -> ProbeOutcome {
    ProbeOutcome::Success { target: target(id), rtt_us }
}

fn timeout(id: &str) -> ProbeOutcome {
    ProbeOutcome::Timeout { target: target(id) }
}

fn buckets(m: &MetricState, id: &str) -> Vec<u64> {
    (0..BUCKETS).map(|i| m.bucket_count(id, i)).collect()
}

#[test]
fn new_state_records_nothing() {
    let m = MetricState::new();
    assert_eq!(m.successes("127.0.0.1"), 0);
    assert_eq!(m.timeouts("127.0.0.1"), 0);
    assert_eq!(m.sum_us("127.0.0.1"), 0);
    assert_eq!(buckets(&m, "127.0.0.1"), vec![0; 12]);
    assert!(m.identities().is_empty());
}

#[test]
fn bucket_bounds_in_microseconds() {
    let bounds: Vec<u64> = (0..BUCKETS - 1).map(bound_us).collect();
    assert_eq!(bounds, vec![0, 100, 250, 500, 1_000, 2_000, 5_000, 10_000, 50_000, 100_000, 200_000]);
}

#[test]
fn bucket_membership_is_inclusive() {
    assert!(within_bucket(0, 0));
    assert!(!within_bucket(1, 0));
    assert!(within_bucket(100, 1));
    assert!(!within_bucket(101, 1));
    assert!(within_bucket(200_000, 10));
    assert!(!within_bucket(200_001, 10));
    assert!(within_bucket(u64::MAX, 11));
}

#[test]
fn success_raises_successes_and_enters_the_histogram() {
    let mut m = MetricState::new();
    let u = m.apply(&success("127.0.0.1", 300));
    assert_eq!(u, Update { successes_by: 1, timeouts_by: 0, observed_us: Some(300) });
    assert_eq!(m.successes("127.0.0.1"), 1);
    assert_eq!(m.timeouts("127.0.0.1"), 0);
    assert_eq!(m.sum_us("127.0.0.1"), 300);
    assert_eq!(buckets(&m, "127.0.0.1"), vec![0, 0, 0, 1, 1, 1, 1, 1, 1, 1, 1, 1]);
}

#[test]
fn timeout_raises_timeouts_only() {
    let mut m = MetricState::new();
    let u = m.apply(&timeout("192.0.2.1"));
    assert_eq!(u, Update { successes_by: 0, timeouts_by: 1, observed_us: None });
    assert_eq!(m.timeouts("192.0.2.1"), 1);
    assert_eq!(m.successes("192.0.2.1"), 0);
    assert_eq!(buckets(&m, "192.0.2.1"), vec![0; 12]);
    assert_eq!(m.sum_us("192.0.2.1"), 0);
}

#[test]
fn transport_error_counts_as_a_lost_probe() {
    let mut m = MetricState::new();
    let u = m.apply(&ProbeOutcome::TransportError {
        target: Target { identity: "nowhere.invalid".to_string(), address: None },
        cause: "cannot resolve".to_string(),
    });
    assert_eq!(u, Update { successes_by: 0, timeouts_by: 1, observed_us: None });
    assert_eq!(m.timeouts("nowhere.invalid"), 1);
    assert_eq!(m.successes("nowhere.invalid"), 0);
    assert_eq!(buckets(&m, "nowhere.invalid"), vec![0; 12]);
}

#[test]
fn histogram_is_cumulative() {
    let mut m = MetricState::new();
    for rtt in [0u64, 50, 100, 101, 999, 1_000, 7_500, 150_000, 200_000, 200_001, 9_000_000] {
        m.apply(&success("h", rtt));
    }
    assert_eq!(buckets(&m, "h"), vec![1, 3, 4, 4, 6, 6, 6, 7, 7, 7, 9, 11]);
    assert_eq!(m.successes("h"), 11);
    assert_eq!(m.sum_us("h"), 0 + 50 + 100 + 101 + 999 + 1_000 + 7_500 + 150_000 + 200_000 + 200_001 + 9_000_000);
    let b = buckets(&m, "h");
    for i in 1..b.len() {
        assert!(b[i - 1] <= b[i]);
    }
}

#[test]
fn identities_are_kept_apart() {
    let mut m = MetricState::new();
    m.apply(&success("a", 10));
    m.apply(&timeout("b"));
    m.apply(&success("a", 20_000));
    m.apply(&timeout("a"));
    assert_eq!((m.successes("a"), m.timeouts("a")), (2, 1));
    assert_eq!((m.successes("b"), m.timeouts("b")), (0, 1));
    assert_eq!(buckets(&m, "a"), vec![0, 1, 1, 1, 1, 1, 1, 1, 2, 2, 2, 2]);
    assert_eq!(buckets(&m, "b"), vec![0; 12]);
    assert_eq!(m.identities(), vec!["a".to_string(), "b".to_string()]);
    assert_eq!(m.successes("c"), 0);
}

#[test]
fn counters_never_fall() {
    let mut m = MetricState::new();
    let run = vec![
        success("x", 5),
        timeout("x"),
        timeout("y"),
        success("x", 700),
        success("y", 1),
        timeout("x"),
    ];
    let mut last = (0u64, 0u64, vec![0u64; 12]);
    for o in &run {
        m.apply(o);
        let now = (m.successes("x"), m.timeouts("x"), buckets(&m, "x"));
        assert!(now.0 >= last.0 && now.1 >= last.1);
        for i in 0..12 {
            assert!(now.2[i] >= last.2[i]);
        }
        last = now;
    }
    assert_eq!((last.0, last.1), (2, 2));
}

#[test]
fn apply_all_records_a_round_in_order() {
    let mut m = MetricState::new();
    m.apply(&success("a", 100));
    let updates = m.apply_all(&vec![success("a", 400), timeout("b"), success("b", 3_000), timeout("a")]);
    assert_eq!(
        updates,
        vec![
            Update { successes_by: 1, timeouts_by: 0, observed_us: Some(400) },
            Update { successes_by: 0, timeouts_by: 1, observed_us: None },
            Update { successes_by: 1, timeouts_by: 0, observed_us: Some(3_000) },
            Update { successes_by: 0, timeouts_by: 1, observed_us: None },
        ]
    );
    assert_eq!((m.successes("a"), m.timeouts("a"), m.sum_us("a")), (2, 1, 500));
    assert_eq!((m.successes("b"), m.timeouts("b"), m.sum_us("b")), (1, 1, 3_000));
}

#[test]
fn order_within_a_round_does_not_matter() {
    let mut one = MetricState::new();
    one.apply_all(&vec![success("a", 400), timeout("a"), success("a", 90)]);
    let mut other = MetricState::new();
    other.apply_all(&vec![success("a", 90), success("a", 400), timeout("a")]);
    assert_eq!(one.successes("a"), other.successes("a"));
    assert_eq!(one.timeouts("a"), other.timeouts("a"));
    assert_eq!(one.sum_us("a"), other.sum_us("a"));
    assert_eq!(buckets(&one, "a"), buckets(&other, "a"));
}

#[test]
fn sum_stops_at_the_largest_value() {
    let mut m = MetricState::new();
    m.apply(&success("s", u64::MAX - 1));
    m.apply(&success("s", 5));
    assert_eq!(m.sum_us("s"), u64::MAX);
    assert_eq!(m.successes("s"), 2);
    assert_eq!(buckets(&m, "s"), vec![0, 1, 1, 1, 1, 1, 1, 1, 1, 1, 1, 2]);
}
