use lm_node::backoff::sync_backoff_delay_seconds;
use lm_node::clock::current_unix_timestamp;
use lm_node::config::{DhtTransportKind, DEFAULT_DHT_PEER_QUARANTINE_CONSECUTIVE_FAILURES};
use lm_node::dht::{dht_runner_peer_configs, RoutingPeer, SyncPeerConfig};
use lm_node::sync_status::NodeSyncStatus;

fn configured(url: &str) -> SyncPeerConfig {
    SyncPeerConfig {
        url: url.into(),
        token: None,
        peer_id: None,
    }
}

#[test]
fn dht_runner_peer_configs_prioritize_healthier_configured_peers() {
    let now = current_unix_timestamp();
    let mut sync = NodeSyncStatus::new();
    sync.record_failure("http://bad-peer", "first failure", now);
    sync.record_failure("http://bad-peer", "second failure", now);
    sync.record_failure("http://flaky-peer", "one failure", now);
    let configured = vec![
        configured("http://bad-peer"),
        configured("http://good-peer"),
        configured("http://flaky-peer"),
    ];
    let routing: Vec<RoutingPeer> = Vec::new();
    let peers = dht_runner_peer_configs(
        &sync,
        &routing,
        &configured,
        DhtTransportKind::HttpControl,
        DEFAULT_DHT_PEER_QUARANTINE_CONSECUTIVE_FAILURES,
        now,
    );
    assert_eq!(peers[0].url, "http://good-peer");
    assert_eq!(peers[1].url, "http://flaky-peer");
    assert_eq!(peers[2].url, "http://bad-peer");
}

#[test]
fn dht_runner_peer_configs_skip_quarantined_configured_peers() {
    let now = current_unix_timestamp();
    let mut sync = NodeSyncStatus::new();
    for failure in 0..DEFAULT_DHT_PEER_QUARANTINE_CONSECUTIVE_FAILURES {
        sync.record_failure("http://quarantined-peer", &format!("failure-{failure}"), now);
    }
    let configured = vec![
        configured("http://quarantined-peer"),
        configured("http://healthy-peer"),
    ];
    let routing: Vec<RoutingPeer> = Vec::new();
    let peers = dht_runner_peer_configs(
        &sync,
        &routing,
        &configured,
        DhtTransportKind::HttpControl,
        DEFAULT_DHT_PEER_QUARANTINE_CONSECUTIVE_FAILURES,
        now,
    );
    assert_eq!(peers.len(), 1);
    assert_eq!(peers[0].url, "http://healthy-peer");

    sync.record_next_attempt("http://quarantined-peer", now.saturating_sub(1));
    let peers = dht_runner_peer_configs(
        &sync,
        &routing,
        &configured,
        DhtTransportKind::HttpControl,
        DEFAULT_DHT_PEER_QUARANTINE_CONSECUTIVE_FAILURES,
        now,
    );
    assert_eq!(peers.len(), 2);
    assert_eq!(peers[0].url, "http://healthy-peer");
    assert_eq!(peers[1].url, "http://quarantined-peer");
}

#[test]
fn sync_backoff_is_exponential_and_capped() {
    assert_eq!(sync_backoff_delay_seconds(10, 300, 0), 10);
    assert_eq!(sync_backoff_delay_seconds(10, 300, 1), 10);
    assert_eq!(sync_backoff_delay_seconds(10, 300, 2), 20);
    assert_eq!(sync_backoff_delay_seconds(10, 300, 3), 40);
    assert_eq!(sync_backoff_delay_seconds(10, 30, 4), 30);
}
