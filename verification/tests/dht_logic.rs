use lm_node::backoff::{dht_response_node_limit, dht_response_record_limit, sync_backoff_delay_seconds};
use lm_node::clock::current_unix_timestamp;
use lm_node::config::{DhtRunnerConfig, DhtTransportKind};
use lm_node::control::{
    find_value_key_query, find_value_run_params, replication_run_factor, routing_refresh_run_params,
    KeyQueryKind,
};
use lm_node::dht::{
    candidate_is_seed_peer, dht_peer_health_sort_key, dht_peer_is_quarantined,
    dht_query_peer_dedup_key, dht_runner_peer_configs_with_quarantine_count,
    filter_routing_refresh_nodes, record_dht_peer_failure, record_dht_peer_success,
    replication_control_peers_for_plan, routing_peer_is_seed_peer,
    routing_peer_makes_find_node_progress, routing_peer_makes_find_value_progress,
    sync_peer_config_from_http_routing_peer, sync_peer_config_from_libp2p_routing_peer,
    sync_peer_config_from_routing_peer_for_seed, RoutingPeer, SyncPeerConfig,
};
use lm_node::sync_status::NodeSyncStatus;

const PEER_ID: &str = "12D3KooWRNw2pJC9748Fmq4WNV27HoSTcX3r37132FLkQMrbKAiC";

fn routing(peer_id: &str, addresses: &[&str], first_byte: u8) -> RoutingPeer {
    let mut node_id = [0u8; 32];
    node_id[0] = first_byte;
    RoutingPeer {
        peer_id: peer_id.into(),
        addresses: addresses.iter().map(|s| s.to_string()).collect(),
        node_id,
    }
}

fn peer(url: &str, token: Option<&str>, peer_id: Option<&str>) -> SyncPeerConfig {
    SyncPeerConfig {
        url: url.into(),
        token: token.map(String::from),
        peer_id: peer_id.map(String::from),
    }
}

#[test]
fn backoff_is_bounded_monotone_and_doubles() {
    assert_eq!(sync_backoff_delay_seconds(0, 0, 0), 1);
    assert_eq!(sync_backoff_delay_seconds(30, 600, 1), 30);
    assert_eq!(sync_backoff_delay_seconds(30, 600, 5), 480);
    assert_eq!(sync_backoff_delay_seconds(30, 600, 6), 600);
    assert_eq!(sync_backoff_delay_seconds(30, 600, u32::MAX), 600);
    assert_eq!(sync_backoff_delay_seconds(u64::MAX, u64::MAX, 30), u64::MAX);
    let mut last = 0;
    for f in 0..40 {
        let d = sync_backoff_delay_seconds(7, 10_000, f);
        assert!(d >= last && d >= 1 && d <= 10_000);
        last = d;
    }
}

#[test]
fn response_limits_are_clamped() {
    assert_eq!(dht_response_record_limit(0), 1);
    assert_eq!(dht_response_record_limit(10), 10);
    assert_eq!(dht_response_record_limit(1000), 64);
    assert_eq!(dht_response_node_limit(0), 1);
    assert_eq!(dht_response_node_limit(65), 64);
}

#[test]
fn http_routing_peer_becomes_tokenless_control_peer() {
    let p = routing("peer-a", &["/ip4/1.2.3.4/tcp/1", "http://a.example:8080//", "http://b"], 1);
    let c = sync_peer_config_from_http_routing_peer(&p).unwrap();
    assert_eq!(c.url, "http://a.example:8080");
    assert_eq!(c.token, None);
    assert_eq!(c.peer_id.as_deref(), Some("peer-a"));
    assert!(sync_peer_config_from_http_routing_peer(&routing("x", &["https://a"], 1)).is_none());
}

#[test]
fn libp2p_routing_peer_needs_valid_id_and_address() {
    let p = routing(PEER_ID, &["http://a", "/ip4/127.0.0.1/tcp/4001"], 1);
    let c = sync_peer_config_from_libp2p_routing_peer(&p).unwrap();
    assert_eq!(c.url, "libp2p:///ip4/127.0.0.1/tcp/4001");
    assert_eq!(c.peer_id.as_deref(), Some(PEER_ID));
    assert!(sync_peer_config_from_libp2p_routing_peer(&routing("not-a-peer-id", &["/ip4/127.0.0.1/tcp/1"], 1)).is_none());
    assert!(sync_peer_config_from_libp2p_routing_peer(&routing(PEER_ID, &["http://a"], 1)).is_none());
}

#[test]
fn seed_scheme_selects_the_address_and_no_token() {
    let seed = peer("https://seed.example/base", Some("tok"), Some("seed"));
    let p = routing("other", &["http://x", "https://y.example"], 1);
    let c = sync_peer_config_from_routing_peer_for_seed(&seed, &p).unwrap();
    assert_eq!(c.url, "https://y.example");
    assert_eq!(c.token, None);
    assert_eq!(c.peer_id.as_deref(), Some("other"));
    let no_scheme = peer("seed.example", None, None);
    assert!(sync_peer_config_from_routing_peer_for_seed(&no_scheme, &p).is_none());
    let libp2p_seed = peer("libp2p:///ip4/1.1.1.1/tcp/1", Some("t"), Some(PEER_ID));
    let lp = routing(PEER_ID, &["/ip4/2.2.2.2/tcp/2"], 1);
    let c = sync_peer_config_from_routing_peer_for_seed(&libp2p_seed, &lp).unwrap();
    assert_eq!(c.url, "libp2p:///ip4/2.2.2.2/tcp/2");
    assert_eq!(c.token, None);
}

#[test]
fn seed_identity_checks() {
    let seed = peer("http://seed", None, Some("seed-id"));
    assert!(candidate_is_seed_peer(&seed, &peer("http://seed", None, None)));
    assert!(candidate_is_seed_peer(&seed, &peer("http://other", None, Some("seed-id"))));
    assert!(!candidate_is_seed_peer(&seed, &peer("http://other", None, Some("x"))));
    assert!(!candidate_is_seed_peer(&peer("http://s", None, None), &peer("http://o", None, None)));
    assert!(routing_peer_is_seed_peer(&seed, &routing("seed-id", &[], 1)));
    assert!(routing_peer_is_seed_peer(&seed, &routing("other", &["http://seed"], 1)));
    assert!(!routing_peer_is_seed_peer(&seed, &routing("other", &["http://elsewhere"], 1)));
    let (url, id) = dht_query_peer_dedup_key(&seed);
    assert_eq!(url, "http://seed");
    assert_eq!(id.as_deref(), Some("seed-id"));
}

#[test]
fn progress_is_measured_by_xor_distance() {
    let seed = peer("http://seed", None, Some("seed-id"));
    let mut seed_id = [0u8; 32];
    seed_id[0] = 0b1000_0000;
    let target = [0u8; 32];
    assert!(routing_peer_makes_find_node_progress(&seed, &seed_id, &routing("a", &[], 0b0100_0000), &target));
    assert!(!routing_peer_makes_find_node_progress(&seed, &seed_id, &routing("a", &[], 0b1000_0000), &target));
    assert!(!routing_peer_makes_find_value_progress(&seed, &seed_id, &routing("a", &[], 0b1100_0000), &target));
    let anonymous = peer("http://seed", None, None);
    assert!(routing_peer_makes_find_value_progress(&anonymous, &seed_id, &routing("a", &[], 0xff), &target));
}

#[test]
fn routing_refresh_filter_counts_duplicates_and_non_closer() {
    let seed = peer("http://seed", None, Some("seed-id"));
    let mut seed_id = [0u8; 32];
    seed_id[0] = 0x80;
    let target = [0u8; 32];
    let nodes = vec![
        routing("seed-id", &[], 0x01),
        routing("a", &[], 0x01),
        routing("a", &[], 0x01),
        routing("far", &[], 0xf0),
        routing("b", &[], 0x02),
        routing("c", &[], 0x03),
    ];
    let mut seen = vec!["c".to_string()];
    let (kept, non_closer, dup) = filter_routing_refresh_nodes(&seed, &seed_id, &target, nodes, &mut seen);
    let ids: Vec<&str> = kept.iter().map(|n| n.peer_id.as_str()).collect();
    assert_eq!(ids, vec!["a", "b"]);
    assert_eq!(non_closer, 1);
    assert_eq!(dup, 3);
    assert_eq!(seen, vec!["c", "a", "far", "b"]);
}

#[test]
fn replication_targets_follow_peer_ids() {
    let peers = vec![peer("http://a", None, Some("a")), peer("http://b", None, Some("b")), peer("http://c", None, None)];
    let chosen = replication_control_peers_for_plan(&peers, &vec!["b".to_string()]);
    assert_eq!(chosen.len(), 1);
    assert_eq!(chosen[0].url, "http://b");
    let anonymous = vec![peer("http://a", None, None), peer("http://b", None, None)];
    assert_eq!(replication_control_peers_for_plan(&anonymous, &Vec::new()).len(), 2);
}

#[test]
fn failures_quarantine_and_success_lifts_it() {
    let now = 1_000_000;
    let mut sync = NodeSyncStatus::new();
    let p = peer("http://flaky", None, None);
    for _ in 0..3 {
        record_dht_peer_failure(&mut sync, &p, "timeout", now);
    }
    let s = sync.get("http://flaky").unwrap();
    assert_eq!(s.consecutive_failures, 3);
    assert_eq!(s.next_attempt_at, Some(now + 120));
    assert_eq!(s.last_error.as_deref(), Some("timeout"));
    assert!(dht_peer_is_quarantined(&sync, &p, 3, now));
    assert!(!dht_peer_is_quarantined(&sync, &p, 3, now + 120));
    assert!(!dht_peer_is_quarantined(&sync, &p, 0, now));
    assert_eq!(dht_peer_health_sort_key(&sync, &p), (3, 3, now));
    record_dht_peer_success(&mut sync, &p, now + 5);
    let s = sync.get("http://flaky").unwrap();
    assert_eq!(s.consecutive_failures, 0);
    assert_eq!(s.next_attempt_at, Some(now + 5));
    assert_eq!(s.successes, 1);
    assert!(!dht_peer_is_quarantined(&sync, &p, 1, now));
    for _ in 0..10 {
        record_dht_peer_failure(&mut sync, &p, "down", now);
    }
    assert_eq!(sync.get("http://flaky").unwrap().next_attempt_at, Some(now + 600));
}

#[test]
fn runner_peers_merge_routing_table_without_duplicates() {
    let now = current_unix_timestamp();
    let mut sync = NodeSyncStatus::new();
    sync.record_failure("http://configured", "x", now);
    let configured = vec![peer("http://configured", Some("secret"), None)];
    let table = vec![
        routing("r1", &["http://r1.example/"], 1),
        routing("r1", &["http://r1.example"], 1),
        routing("r2", &["/ip4/1.2.3.4/tcp/1"], 1),
        routing("r3", &["http://r3.example"], 1),
    ];
    let (peers, quarantined) = dht_runner_peer_configs_with_quarantine_count(
        &sync, &table, &configured, DhtTransportKind::HttpControl, 1, now,
    );
    let urls: Vec<&str> = peers.iter().map(|p| p.url.as_str()).collect();
    assert_eq!(urls, vec!["http://r1.example", "http://r3.example"]);
    assert_eq!(quarantined, 1);
    let (peers, quarantined) = dht_runner_peer_configs_with_quarantine_count(
        &sync, &table, &configured, DhtTransportKind::HttpControl, 5, now,
    );
    assert_eq!(quarantined, 0);
    assert_eq!(peers.len(), 3);
    assert_eq!(peers[2].url, "http://configured");
    assert_eq!(peers[2].token.as_deref(), Some("secret"));
    assert!(peers[0].token.is_none());
}

#[test]
fn handler_parameters_are_clamped() {
    let runner = DhtRunnerConfig::default();
    assert_eq!(replication_run_factor("/dht/replicate", &runner), 3);
    assert_eq!(replication_run_factor("/dht/replicate?factor=1000", &runner), 64);
    assert_eq!(replication_run_factor("/dht/replicate?factor=0", &runner), 1);
    assert_eq!(replication_run_factor("/dht/replicate?factor=abc", &runner), 3);
    assert_eq!(routing_refresh_run_params("/dht/routing-refresh?limit=5&max_targets=999", &runner), (5, 256));
    assert_eq!(find_value_run_params("/dht/find-value?alpha=99", &runner), (8, 8, 16));
    assert_eq!(find_value_run_params("/dht/find-value?limit=2&max_peers=3&alpha=2", &runner), (2, 3, 2));
}

#[test]
fn find_value_key_queries() {
    let q = find_value_key_query("/dht/find-value?key=abcd&kind=peer&value=x").unwrap();
    assert_eq!(q.kind, KeyQueryKind::Hex);
    assert_eq!(q.value, "abcd");
    let q = find_value_key_query("/dht/find-value?kind=%20Public-Peer&value=%20alice%20").unwrap();
    assert_eq!(q.kind, KeyQueryKind::PublicPeer);
    assert_eq!(q.value, "alice");
    assert_eq!(find_value_key_query("/dht/find-value?kind=pre-key&value=u").unwrap().kind, KeyQueryKind::Prekey);
    assert_eq!(find_value_key_query("/dht/find-value?kind=mailbox&value=u").unwrap().kind, KeyQueryKind::MailboxHint);
    assert_eq!(find_value_key_query("/dht/find-value").unwrap_err(), "missing key or kind");
    assert_eq!(find_value_key_query("/dht/find-value?kind=peer").unwrap_err(), "missing value");
    assert_eq!(find_value_key_query("/dht/find-value?kind=peer&value=+").unwrap_err(), "missing value");
    assert_eq!(
        find_value_key_query("/dht/find-value?kind=other&value=v").unwrap_err(),
        "unsupported dht key kind; expected public-peer, prekey, or mailbox-hint"
    );
}
