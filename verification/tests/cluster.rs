use distrib_kv_store::cluster::api_port;
use distrib_kv_store::cluster::format_u64;
use distrib_kv_store::cluster::get_addr;
use distrib_kv_store::cluster::get_rpc_addr;
use distrib_kv_store::cluster::initial_ring_entries;
use distrib_kv_store::cluster::leader_addrs;
use distrib_kv_store::cluster::membership_ids;
use distrib_kv_store::cluster::replica_plans;
use distrib_kv_store::cluster::rpc_port;
use distrib_kv_store::carp::Carp;

#[test]
fn ports_follow_the_layout() {
    assert_eq!(api_port(1, 1), 31011);
    assert_eq!(api_port(3, 2), 31023);
    assert_eq!(rpc_port(1, 1), 32011);
    assert_eq!(rpc_port(3, 2), 32023);
}

#[test]
fn addresses_are_local_with_the_port() {
    assert_eq!(get_addr(1, 1), "127.0.0.1:31011");
    assert_eq!(get_addr(2, 3), "127.0.0.1:31032");
    assert_eq!(get_rpc_addr(1, 1), "127.0.0.1:32011");
    assert_eq!(get_rpc_addr(2, 3), "127.0.0.1:32032");
}

#[test]
fn decimal_formatting_is_exact() {
    assert_eq!(format_u64(0), "0");
    assert_eq!(format_u64(7), "7");
    assert_eq!(format_u64(31011), "31011");
    assert_eq!(format_u64(u64::MAX), "18446744073709551615");
}

#[test]
fn three_by_three_bootstrap_plan() {
    let plans = replica_plans(3, 3);
    assert_eq!(plans.len(), 3);
    for (c, row) in plans.iter().enumerate() {
        assert_eq!(row.len(), 3);
        for (n, p) in row.iter().enumerate() {
            assert_eq!(p.cluster_id as usize, c + 1);
            assert_eq!(p.node_id as usize, n + 1);
            assert_eq!(p.api_addr, format!("127.0.0.1:{}", 31000 + (c + 1) * 10 + n + 1));
            assert_eq!(p.rpc_addr, format!("127.0.0.1:{}", 32000 + (c + 1) * 10 + n + 1));
        }
    }
    // Nine replicas in all; the first of each row is the initial leader.
    assert_eq!(plans.iter().map(|r| r.len()).sum::<usize>(), 9);
    assert_eq!(plans[0][0].api_addr, "127.0.0.1:31011");
    assert_eq!(plans[1][0].api_addr, "127.0.0.1:31021");
    assert_eq!(plans[2][0].api_addr, "127.0.0.1:31031");
}

#[test]
fn initial_ring_has_one_entry_per_cluster() {
    let matrix = vec![
        vec!["127.0.0.1:31011".to_string(), "127.0.0.1:31012".to_string()],
        vec!["127.0.0.1:31021".to_string(), "127.0.0.1:31022".to_string()],
        vec!["127.0.0.1:31031".to_string(), "127.0.0.1:31032".to_string()],
    ];
    let leaders = leader_addrs(&matrix);
    assert_eq!(
        leaders,
        vec![
            "127.0.0.1:31011".to_string(),
            "127.0.0.1:31021".to_string(),
            "127.0.0.1:31031".to_string()
        ]
    );
    let load = (1.0f32 / 3.0f32).to_bits();
    let entries = initial_ring_entries(&leaders, load);
    assert_eq!(entries.len(), 3);
    for (e, leader) in entries.iter().zip(leaders.iter()) {
        assert_eq!(&e.0, leader);
        assert_eq!(e.1, load);
    }
    let ring = Carp::new(entries, 0);
    assert_eq!(ring.len(), 3);
    assert_eq!(ring.config_id, 0);
    for node in &ring.nodes {
        assert!((f32::from_bits(node.relative_load) - 1.0 / 3.0).abs() < 1e-6);
    }
}

#[test]
fn membership_promotes_every_replica() {
    assert_eq!(membership_ids(3), vec![1, 2, 3]);
    assert_eq!(membership_ids(1), vec![1]);
    assert_eq!(membership_ids(0), Vec::<u64>::new());
}
