use distrib_kv_store::carp::Carp;
use distrib_kv_store::kvclient::AppError;
use distrib_kv_store::kvclient::AttemptOutcome;
use distrib_kv_store::kvclient::KVClient;
use distrib_kv_store::kvclient::MAX_FOLLOW;
use distrib_kv_store::kvclient::NextStep;
use distrib_kv_store::kvclient::follow_leader;
use distrib_kv_store::kvclient::should_retry;

fn client_with(addrs: &[&str]) -> KVClient {
    let w = 1.0f32.to_bits();
    let entries = addrs.iter().map(|a| (a.to_string(), w)).collect();
    let known = addrs.iter().map(|a| a.to_string()).collect();
    KVClient::new(Carp::new(entries, 0), known)
}

#[test]
fn accepted_write_succeeds() {
    let step = follow_leader(0, AttemptOutcome::Accepted { value: Some("old".to_string()) });
    assert_eq!(step, NextStep::Succeed { value: Some("old".to_string()) });
}

#[test]
fn redirect_is_followed_up_to_three_hops() {
    assert_eq!(MAX_FOLLOW, 3);
    for hops in 0..3 {
        let step = follow_leader(
            hops,
            AttemptOutcome::ForwardToLeader { leader_addr: Some("leader:1".to_string()) },
        );
        assert_eq!(step, NextStep::Retry { target: "leader:1".to_string() });
    }
    let step = follow_leader(
        3,
        AttemptOutcome::ForwardToLeader { leader_addr: Some("leader:1".to_string()) },
    );
    assert_eq!(
        step,
        NextStep::Fail {
            error: AppError::NotLeader { leader_addr: Some("leader:1".to_string()) }
        }
    );
}

#[test]
fn redirect_without_leader_fails_as_not_leader() {
    let step = follow_leader(0, AttemptOutcome::ForwardToLeader { leader_addr: None });
    assert_eq!(step, NextStep::Fail { error: AppError::NotLeader { leader_addr: None } });
}

#[test]
fn failures_are_surfaced_unchanged() {
    for error in [
        AppError::TransportError,
        AppError::ClientWriteError,
        AppError::CheckIsLeaderError,
        AppError::InitializeError,
        AppError::UnknownShard,
        AppError::AllReplicasUnreachable,
    ] {
        let expect = match &error {
            AppError::TransportError => AppError::TransportError,
            AppError::ClientWriteError => AppError::ClientWriteError,
            AppError::CheckIsLeaderError => AppError::CheckIsLeaderError,
            AppError::InitializeError => AppError::InitializeError,
            AppError::UnknownShard => AppError::UnknownShard,
            _ => AppError::AllReplicasUnreachable,
        };
        let step = follow_leader(1, AttemptOutcome::Failed { error });
        assert_eq!(step, NextStep::Fail { error: expect });
    }
}

#[test]
fn resolve_finds_known_addresses_only() {
    let client = client_with(&["127.0.0.1:31011", "127.0.0.1:31021"]);
    assert_eq!(client.resolve("127.0.0.1:31011"), Some(0));
    assert_eq!(client.resolve("127.0.0.1:31021"), Some(1));
    // An unknown address is the `UnknownShard` case.
    assert_eq!(client.resolve("127.0.0.1:31031"), None);
}

#[test]
fn candidates_are_primary_then_fallbacks_in_order() {
    let mut client = client_with(&["p", "f1", "f2"]);
    assert_eq!(client.failover_candidates("p"), vec!["p".to_string()]);
    client.record_failover("p", "f1".to_string());
    client.record_failover("p", "f2".to_string());
    assert_eq!(
        client.failover_candidates("p"),
        vec!["p".to_string(), "f2".to_string(), "f1".to_string()]
    );
}

#[test]
fn record_failover_puts_the_survivor_first() {
    let mut client = client_with(&["p", "q", "f"]);
    let before = client.carp_ring.config_id;
    client.record_failover("p", "f".to_string());
    assert_eq!(client.carp_ring.config_id, before + 1);
    assert_eq!(client.carp_ring.fallbacks("p").unwrap()[0], "f");
    // Another primary's fallbacks are untouched.
    assert!(client.carp_ring.fallbacks("q").is_none());
    // The node list itself is untouched by failover bookkeeping.
    assert_eq!(client.carp_ring.len(), 3);
}

#[test]
fn only_transport_and_leadership_misses_are_retried() {
    assert!(should_retry(&AppError::TransportError));
    assert!(should_retry(&AppError::NotLeader { leader_addr: None }));
    assert!(should_retry(&AppError::NotLeader { leader_addr: Some("l".to_string()) }));
    assert!(!should_retry(&AppError::ClientWriteError));
    assert!(!should_retry(&AppError::CheckIsLeaderError));
    assert!(!should_retry(&AppError::InitializeError));
    assert!(!should_retry(&AppError::UnknownShard));
    assert!(!should_retry(&AppError::AllReplicasUnreachable));
    assert!(!should_retry(&AppError::Infallible));
}
