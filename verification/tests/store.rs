use distrib_kv_store::carp::Carp;
use distrib_kv_store::store::Request;
use distrib_kv_store::store::StateMachine;

fn empty_ring() -> Carp {
    Carp::new(vec![], 0)
}

fn put(key: &str, value: &str) -> Request {
    Request::Put { key: key.to_string(), value: value.to_string() }
}

#[test]
fn fresh_state_is_empty() {
    let sm = StateMachine::new(empty_ring());
    assert_eq!(sm.last_applied, 0);
    assert_eq!(sm.lookup("anything"), None);
    assert_eq!(sm.read("anything"), "");
}

#[test]
fn put_binds_and_answers_previous_value() {
    let mut sm = StateMachine::new(empty_ring());
    let first = sm.apply(put("hello", "testing"));
    assert_eq!(first.value, None);
    assert_eq!(sm.read("hello"), "testing");
    assert_eq!(sm.last_applied, 1);
    let second = sm.apply(put("hello", "again"));
    assert_eq!(second.value, Some("testing".to_string()));
    assert_eq!(sm.read("hello"), "again");
    assert_eq!(sm.last_applied, 2);
}

#[test]
fn puts_to_distinct_keys_do_not_interfere() {
    let mut sm = StateMachine::new(empty_ring());
    sm.apply(put("key", "value"));
    sm.apply(put("hi", "test"));
    sm.apply(put("hello", "testing"));
    assert_eq!(sm.read("key"), "value");
    assert_eq!(sm.read("hi"), "test");
    assert_eq!(sm.read("hello"), "testing");
    assert_eq!(sm.read("absent"), "");
}

#[test]
fn update_ring_replaces_the_ring_copy() {
    let mut sm = StateMachine::new(empty_ring());
    sm.apply(put("k", "v"));
    let new_ring = Carp::new(vec![("127.0.0.1:31011".to_string(), 1.0f32.to_bits())], 4);
    let resp = sm.apply(Request::UpdateRing { ring: new_ring.duplicate() });
    assert_eq!(resp.value, None);
    assert_eq!(sm.current_ring(), new_ring);
    // The key/value map is untouched by a ring update.
    assert_eq!(sm.read("k"), "v");
    assert_eq!(sm.last_applied, 2);
}

#[test]
fn replicas_converge_on_the_same_log() {
    let log = vec![
        put("a", "1"),
        put("b", "2"),
        put("a", "3"),
        Request::UpdateRing { ring: Carp::new(vec![("n".to_string(), 1.0f32.to_bits())], 9) },
        put("c", "4"),
    ];
    let mut replica1 = StateMachine::new(empty_ring());
    let mut replica2 = StateMachine::new(empty_ring());
    for req in &log {
        let copy = match req {
            Request::Put { key, value } => put(key, value),
            Request::UpdateRing { ring } => Request::UpdateRing { ring: ring.duplicate() },
        };
        replica1.apply(copy);
    }
    for req in log {
        replica2.apply(req);
    }
    assert_eq!(replica1.read("a"), replica2.read("a"));
    assert_eq!(replica1.read("b"), replica2.read("b"));
    assert_eq!(replica1.read("c"), replica2.read("c"));
    assert_eq!(replica1.read("a"), "3");
    assert_eq!(replica1.current_ring(), replica2.current_ring());
    assert_eq!(replica1.last_applied, replica2.last_applied);
}

#[test]
fn committed_ring_update_reaches_every_replica() {
    let ring = Carp::new(vec![("127.0.0.1:31011".to_string(), 1.0f32.to_bits())], 2);
    let mut replica1 = StateMachine::new(empty_ring());
    let mut replica2 = StateMachine::new(empty_ring());
    for replica in [&mut replica1, &mut replica2] {
        replica.apply(put("x", "y"));
        replica.apply(Request::UpdateRing { ring: ring.duplicate() });
        replica.apply(put("z", "w"));
    }
    assert_eq!(replica1.current_ring(), ring);
    assert_eq!(replica2.current_ring(), ring);
}

#[test]
fn snapshot_and_install_reproduce_state() {
    let mut sm = StateMachine::new(empty_ring());
    sm.apply(put("k1", "v1"));
    sm.apply(put("k2", "v2"));
    let snap = sm.snapshot();
    let mut fresh = StateMachine::new(empty_ring());
    fresh.install_snapshot(snap);
    assert_eq!(fresh.read("k1"), "v1");
    assert_eq!(fresh.read("k2"), "v2");
    assert_eq!(fresh.last_applied, 2);
    assert_eq!(fresh.current_ring(), sm.current_ring());
}
