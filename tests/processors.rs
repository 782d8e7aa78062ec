use statsrelay::cardinality::{Cardinality, CardinalityConfig, MultiCuckoo};
use statsrelay::pdu::Pdu;
use statsrelay::tag::{Normalizer, Route, RouteType};

const NOW: u64 = 1_700_000_000_000;

#[test]
fn cuckoo_simple_contains() {
    let a: &[u8] = b"a";
    let b: &[u8] = b"b";
    let mut mc = MultiCuckoo::new(2, 60_000, NOW);
    mc.add(a).unwrap();
    assert!(!mc.contains(b));
    assert!(mc.contains(a));
    mc.add(b).unwrap();
    assert!(mc.contains(b));
}

#[test]
fn cuckoo_simple_rotate() {
    let a: &[u8] = b"a";
    let b: &[u8] = b"b";
    let now = NOW;
    let mut mc = MultiCuckoo::new(2, 60_000, now);
    mc.add(a).unwrap();
    assert!(!mc.contains(b));
    assert!(mc.contains(a));
    mc.add(b).unwrap();
    assert!(mc.contains(b));
    // Rotate once, add only a
    mc.rotate(now + 61_000);
    assert!(mc.contains(a));
    assert!(mc.contains(b));
    assert!(mc.len() == 2);
    mc.add(a).unwrap();
    // Rotate again, b should drop out
    mc.rotate(now + 122_000);
    assert!(mc.contains(a));
    assert!(!mc.contains(b));
    assert!(mc.len() == 1);
}

#[test]
fn cuckoo_no_rotation_before_expiry() {
    let mut mc = MultiCuckoo::new(3, 60_000, NOW);
    mc.add(b"a").unwrap();
    mc.rotate(NOW + 59_999);
    assert!(mc.len() == 1);
    mc.rotate(NOW + 60_000);
    assert!(mc.len() == 1);
    assert!(mc.contains(b"a"));
    mc.rotate(NOW + 120_000);
    assert!(mc.contains(b"a"));
    mc.rotate(NOW + 180_000);
    assert!(!mc.contains(b"a"));
    assert!(mc.len() == 0);
}

fn metric(i: u32) -> Pdu {
    Pdu::new(format!("metric.{}:1|c", i).into_bytes()).unwrap()
}

#[test]
fn test_cardinality_limit() {
    let names: Vec<Pdu> = (0..400).map(metric).collect();
    let config = CardinalityConfig { size_limit: 100_usize, rotate_after_seconds: 10, buckets: 2 };
    let mut filter = Cardinality::new(&config, NOW);
    for name in &names[0..101] {
        assert!(filter.provide_statsd(name));
    }
    for name in &names[101..] {
        assert!(!filter.provide_statsd(name), "sample {:?} was allowed", name.as_bytes());
    }
}

#[test]
fn cardinality_limit_scenario() {
    let config = CardinalityConfig { size_limit: 100, rotate_after_seconds: 60, buckets: 2 };
    let mut filter = Cardinality::new(&config, NOW);
    // The limiter closes only once the oldest bucket holds more than the limit.
    for i in 0..101 {
        assert!(filter.provide_statsd(&metric(i)));
    }
    for i in 101..300 {
        assert!(!filter.provide_statsd(&metric(i)));
    }
    // Known identities stay admitted.
    assert!(filter.provide_statsd(&metric(5)));
    filter.tick(NOW + 61_000);
    for i in 0..101 {
        assert!(filter.provide_statsd(&metric(i)));
    }
    for i in 300..350 {
        assert!(!filter.provide_statsd(&metric(i)));
    }
}

#[test]
fn cardinality_identity_includes_tags() {
    let config = CardinalityConfig { size_limit: 0, rotate_after_seconds: 60, buckets: 1 };
    let mut filter = Cardinality::new(&config, NOW);
    let a = Pdu::new(b"m:1|c|#k:v".to_vec()).unwrap();
    let a2 = Pdu::new(b"m:7|c|#k:v".to_vec()).unwrap();
    let b = Pdu::new(b"m:1|c|#k:w".to_vec()).unwrap();
    assert!(filter.provide_statsd(&a));
    assert!(filter.provide_statsd(&a2));
    assert!(!filter.provide_statsd(&b));
}

#[test]
fn make_normalizer() {
    let route = vec![Route { route_type: RouteType::Processor, route_to: "null".to_string() }];
    let tn = Normalizer::new(&route);
    let pdu = Pdu::new(b"foo.bar:3|c|#tags:value|@1.0".to_vec()).unwrap();
    let result = tn.provide_statsd(&pdu).unwrap();
    assert_eq!(result.name(), b"foo.bar.__tags=value");
    assert_eq!(route, tn.route());
}

#[test]
fn normalizer_rewrites_whole_line() {
    let tn = Normalizer::new(&[]);
    let pdu = Pdu::new(b"foo.bar:3|c|#a:1,b:2|@1.0".to_vec()).unwrap();
    let out = tn.provide_statsd(&pdu).unwrap();
    assert_eq!(out.as_bytes(), b"foo.bar.__a=1.__b=2:3|c|@1.0");
    assert_eq!(out.value(), b"3");
    let plain = Pdu::new(b"foo:3|c|@1.0".to_vec()).unwrap();
    assert_eq!(tn.provide_statsd(&plain).unwrap().as_bytes(), b"foo:3|c|@1.0");
}

#[test]
fn membership_decides_admission_over_the_limit() {
    let config = CardinalityConfig { size_limit: 1, rotate_after_seconds: 60, buckets: 2 };
    let mut filter = Cardinality::new(&config, NOW);
    assert!(filter.provide_with_membership(&metric(1), false));
    assert!(filter.provide_with_membership(&metric(2), false));
    // The oldest bucket now holds 2 > 1 entries.
    assert!(!filter.provide_with_membership(&metric(3), false));
    assert_eq!(filter.flagged_metrics(), 1);
    assert!(filter.provide_with_membership(&metric(3), true));
    assert_eq!(filter.flagged_metrics(), 1);
}
