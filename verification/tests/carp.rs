use distrib_kv_store::carp::Carp;
use distrib_kv_store::carp::Node;
use distrib_kv_store::carp::combine_hashes;
use distrib_kv_store::carp::membership_hash;
use distrib_kv_store::carp::url_hash;

#[test]
fn test_size_empty() {
    let ring = Carp::new(vec![], 0);
    assert!(ring.is_empty());
    assert_eq!(ring.len(), 0);
}

#[test]
fn membership_hash_known_values() {
    assert_eq!(membership_hash(""), 0);
    assert_eq!(membership_hash("0"), 1678635672);
    assert_eq!(membership_hash("1"), 2430221563);
    assert_eq!(membership_hash("2"), 3179710302);
    assert_eq!(membership_hash("A"), 1558111022);
    assert_eq!(membership_hash("foo"), 3273099385);
    assert_eq!(membership_hash("hello"), 2505959325);
    assert_eq!(membership_hash("127.0.0.1:31011"), 1665555694);
}

#[test]
fn url_hash_known_values() {
    assert_eq!(url_hash(""), 0);
    assert_eq!(url_hash("0"), 48);
    assert_eq!(url_hash("foo"), 165157572);
    assert_eq!(url_hash("hello"), 715097303);
    assert_eq!(url_hash("127.0.0.1:31011"), 2283618495);
}

#[test]
fn url_hash_differs_from_membership_hash() {
    // The URL hash deliberately omits the prime mix and the final rotation.
    assert_ne!(membership_hash("foo"), url_hash("foo"));
}

#[test]
fn combine_hashes_known_value() {
    let m = membership_hash("0");
    let u = url_hash("foo");
    assert_eq!(combine_hashes(m, u), 352753650);
}

#[test]
fn hash_is_pure_across_calls() {
    let a = membership_hash("10.0.0.7:4000");
    let b = membership_hash("10.0.0.7:4000");
    assert_eq!(a, b);
}

#[test]
fn node_new_derives_hash() {
    let n = Node::new("foo".to_string(), 1.0f32.to_bits());
    assert_eq!(n.hash, membership_hash("foo"));
    assert_eq!(n.relative_load, 1.0f32.to_bits());
    assert_eq!(n.load_factor, 0);
    assert_eq!(n.addr, "foo");
}

#[test]
fn new_keeps_entries_in_order() {
    let w = 0.5f32.to_bits();
    let ring = Carp::new(vec![("a".to_string(), w), ("b".to_string(), w)], 3);
    assert_eq!(ring.len(), 2);
    assert_eq!(ring.config_id, 3);
    assert_eq!(ring.list_ttl, 600);
    assert_eq!(ring.nodes[0].addr, "a");
    assert_eq!(ring.nodes[1].addr, "b");
    assert_eq!(ring.nodes[0].hash, membership_hash("a"));
    assert_eq!(ring.nodes[1].hash, membership_hash("b"));
}

#[test]
fn add_node_appends_and_bumps_revision() {
    let w = 0.5f32.to_bits();
    let mut ring = Carp::new(vec![("0".to_string(), w), ("1".to_string(), w)], 0);
    ring.add_node("2".to_string(), 0.25f32.to_bits());
    assert_eq!(ring.len(), 3);
    assert_eq!(ring.config_id, 1);
    assert_eq!(ring.nodes[2].addr, "2");
    assert_eq!(ring.nodes[2].relative_load, 0.25f32.to_bits());
    assert_eq!(ring.nodes[2].hash, membership_hash("2"));
}

#[test]
fn remove_node_filters_by_address() {
    let w = 0.5f32.to_bits();
    let mut ring = Carp::new(vec![("0".to_string(), w), ("1".to_string(), w)], 0);
    ring.remove_node("0");
    assert_eq!(ring.len(), 1);
    assert_eq!(ring.config_id, 1);
    assert_eq!(ring.nodes[0].addr, "1");
    ring.remove_node("no-such-node");
    assert_eq!(ring.len(), 1);
    assert_eq!(ring.config_id, 2);
}

#[test]
fn wire_entries_round_trip_reproduces_derived_hashes() {
    let ring = Carp::new(
        vec![("0".to_string(), 0.8f32.to_bits()), ("1".to_string(), 0.2f32.to_bits())],
        5,
    );
    let rebuilt = Carp::new(ring.wire_entries(), ring.config_id);
    assert_eq!(rebuilt, ring);
    assert_eq!(rebuilt.nodes[0].hash, ring.nodes[0].hash);
    assert_eq!(rebuilt.nodes[1].relative_load, ring.nodes[1].relative_load);
}

#[test]
fn construction_is_deterministic() {
    let entries = vec![("x".to_string(), 0.4f32.to_bits()), ("y".to_string(), 0.6f32.to_bits())];
    let a = Carp::new(entries.clone(), 2);
    let b = Carp::new(entries, 2);
    assert_eq!(a, b);
}

#[test]
fn combined_hashes_matches_each_node() {
    let w = 0.5f32.to_bits();
    let ring = Carp::new(vec![("0".to_string(), w), ("1".to_string(), w)], 0);
    let c = ring.combined_hashes("foo");
    assert_eq!(c.len(), 2);
    assert_eq!(c[0], combine_hashes(membership_hash("0"), url_hash("foo")));
    assert_eq!(c[1], combine_hashes(membership_hash("1"), url_hash("foo")));
    // Unchanged ring: the score inputs come out the same again.
    assert_eq!(ring.combined_hashes("foo"), c);
}

#[test]
fn set_fallback_records_front_and_bumps_revision() {
    let w = 1.0f32.to_bits();
    let mut ring = Carp::new(vec![("p".to_string(), w)], 0);
    assert!(ring.fallbacks("p").is_none());
    ring.set_fallback("p", "f1".to_string());
    assert_eq!(ring.config_id, 1);
    assert_eq!(ring.fallbacks("p").unwrap(), &vec!["f1".to_string()]);
    ring.set_fallback("p", "f2".to_string());
    assert_eq!(ring.config_id, 2);
    assert_eq!(ring.fallbacks("p").unwrap(), &vec!["f2".to_string(), "f1".to_string()]);
    assert!(ring.fallbacks("q").is_none());
}

#[test]
fn duplicate_is_equal() {
    let mut ring = Carp::new(vec![("a".to_string(), 1.0f32.to_bits())], 0);
    ring.set_fallback("a", "b".to_string());
    let copy = ring.duplicate();
    assert_eq!(copy, ring);
}

#[test]
fn staleness_follows_the_ttl_hint() {
    let ring = Carp::new(vec![("a".to_string(), 1.0f32.to_bits())], 0);
    assert_eq!(ring.list_ttl, 600);
    assert!(!ring.is_stale(0));
    assert!(!ring.is_stale(599));
    assert!(ring.is_stale(600));
    assert!(ring.is_stale(601));
}
