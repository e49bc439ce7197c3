use lm_node::dht::{RoutingPeer, SyncPeerConfig};
use lm_node::lookup::{
    closer_nodes_for_query, closer_response_unhelpful, find_value_run_continues, find_value_run_start,
    finish_find_value_run, next_find_value_round, record_find_value_answer, record_routing_refresh_answer,
    FindValueAnswer, PeerVerdict, RoutingRefreshAnswer,
};
use lm_node::metrics::{DhtFindValueRunStats, DhtRoutingRefreshRunStats};
use lm_node::response::{ControlHttpResponse, ControlResponse};
use lm_node::schedule::{plan_sync_round, rate_limit_prune_due, record_snapshot_sync_outcome, SyncPeerRuntime};
use lm_node::sync_status::{NodeMergeStats, NodeSyncStatus};

const SECOND: u128 = 1_000_000_000;

fn peer(url: &str, peer_id: Option<&str>) -> SyncPeerConfig {
    SyncPeerConfig {
        url: url.into(),
        token: None,
        peer_id: peer_id.map(String::from),
    }
}

fn node(id: &str, first_byte: u8) -> RoutingPeer {
    let mut node_id = [0u8; 32];
    node_id[0] = first_byte;
    RoutingPeer {
        peer_id: id.into(),
        addresses: Vec::new(),
        node_id,
    }
}

#[test]
fn lookup_rounds_skip_asked_peers_and_respect_budgets() {
    let queue = vec![
        peer("http://a", Some("a")),
        peer("http://b", None),
        peer("http://a", Some("a")),
        peer("http://c", None),
        peer("http://d", None),
    ];
    let mut seen = vec![("http://b".to_string(), None)];
    let mut attempts = 0usize;
    let (round, next) = next_find_value_round(&queue, 0, &mut seen, &mut attempts, 2, 10);
    let urls: Vec<&str> = round.iter().map(|p| p.url.as_str()).collect();
    assert_eq!(urls, vec!["http://a", "http://c"]);
    assert_eq!(next, 4);
    assert_eq!(attempts, 2);
    assert_eq!(seen.len(), 3);
    let (round, next) = next_find_value_round(&queue, next, &mut seen, &mut attempts, 2, 3);
    assert_eq!(round.len(), 1);
    assert_eq!(round[0].url, "http://d");
    assert_eq!(next, 5);
    assert_eq!(attempts, 3);
    let (round, next) = next_find_value_round(&queue, 0, &mut seen, &mut attempts, 2, 3);
    assert!(round.is_empty());
    assert_eq!(next, 0);
}

#[test]
fn closer_nodes_are_tried_nearest_first() {
    let seed = peer("http://seed", Some("seed"));
    let mut seed_id = [0u8; 32];
    seed_id[0] = 0x80;
    let target = [0u8; 32];
    let nodes = vec![node("n3", 0x30), node("far", 0x90), node("n1", 0x10), node("n2", 0x20), node("n1b", 0x10)];
    let (ordered, returned, rejected) = closer_nodes_for_query(&seed, &seed_id, &target, nodes.clone(), 8);
    let ids: Vec<&str> = ordered.iter().map(|n| n.peer_id.as_str()).collect();
    assert_eq!(ids, vec!["n1", "n1b", "n2", "n3"]);
    assert_eq!(returned, 5);
    assert_eq!(rejected, 1);
    let (ordered, returned, rejected) = closer_nodes_for_query(&seed, &seed_id, &target, nodes.clone(), 2);
    assert_eq!(ordered.len(), 1);
    assert_eq!(ordered[0].peer_id, "n3");
    assert_eq!((returned, rejected), (2, 1));
    let anonymous = peer("http://seed", None);
    let (ordered, _, rejected) = closer_nodes_for_query(&anonymous, &seed_id, &target, nodes, 0);
    assert_eq!(ordered.len(), 1);
    assert_eq!(rejected, 0);
}

#[test]
fn unhelpful_responses_are_recognised() {
    assert!(closer_response_unhelpful(3, 2, 1, false));
    assert!(!closer_response_unhelpful(3, 2, 1, true));
    assert!(!closer_response_unhelpful(3, 1, 1, false));
    assert!(!closer_response_unhelpful(0, 0, 0, false));
    assert!(closer_response_unhelpful(usize::MAX, usize::MAX, 1, false));
}

#[test]
fn sync_round_finds_due_peers() {
    let peers = vec![
        SyncPeerRuntime { config: peer("http://a", None), next_attempt_at: 5 * SECOND, consecutive_failures: 0 },
        SyncPeerRuntime { config: peer("http://b", None), next_attempt_at: 20 * SECOND, consecutive_failures: 0 },
        SyncPeerRuntime { config: peer("http://c", None), next_attempt_at: 2 * SECOND, consecutive_failures: 1 },
    ];
    let round = plan_sync_round(&peers, 10 * SECOND);
    assert_eq!(round.due, vec![0, 2]);
    assert_eq!(round.lateness, vec![5 * SECOND, 8 * SECOND]);
    assert_eq!(round.max_lateness, 8 * SECOND);
    let quiet = plan_sync_round(&peers, 0);
    assert!(quiet.due.is_empty());
    assert_eq!(quiet.max_lateness, 0);
    assert!(rate_limit_prune_due(60 * SECOND, 0));
    assert!(!rate_limit_prune_due(60 * SECOND - 1, 0));
}

#[test]
fn snapshot_sync_outcome_schedules_next_attempt() {
    let mut sync = NodeSyncStatus::new();
    let mut runtime = SyncPeerRuntime { config: peer("http://a", None), next_attempt_at: 0, consecutive_failures: 0 };
    let now = 1_000;
    let delay = record_snapshot_sync_outcome(&mut sync, &mut runtime, Err("timeout".to_string()), 10, 300, now, 7);
    assert_eq!(delay, 10);
    assert_eq!(runtime.consecutive_failures, 1);
    assert_eq!(runtime.next_attempt_at, 7 + 10 * SECOND);
    let delay = record_snapshot_sync_outcome(&mut sync, &mut runtime, Err("timeout".to_string()), 10, 300, now, 0);
    assert_eq!(delay, 20);
    let status = sync.get("http://a").unwrap();
    assert_eq!(status.failures, 2);
    assert_eq!(status.next_attempt_at, Some(now + 20));
    let stats = NodeMergeStats { peers: 1, mailbox_deliveries: 2, prekey_bundles: 3, signed_one_time_prekey_records: 4, dht_records: 5 };
    let delay = record_snapshot_sync_outcome(&mut sync, &mut runtime, Ok(stats), 0, 300, now, 0);
    assert_eq!(delay, 1);
    assert_eq!(runtime.consecutive_failures, 0);
    let status = sync.get("http://a").unwrap();
    assert_eq!(status.successes, 1);
    assert_eq!(status.last_imported_prekey_bundles, 3);
    assert_eq!(status.next_attempt_at, Some(now + 1));
}

#[test]
fn node_responses_pass_through() {
    let r = ControlHttpResponse::from_control(ControlResponse {
        status: 201,
        content_type: "application/json".into(),
        body: "{}".into(),
    });
    assert_eq!(r.status, 201);
    assert_eq!(r.content_type, "application/json");
    assert!(r.to_http_string("*").starts_with("HTTP/1.1 201 Created\r\ncontent-type: application/json\r\n"));
}

#[test]
fn find_value_answers_are_counted_and_judged() {
    let mut stats = DhtFindValueRunStats::default();
    assert_eq!(record_find_value_answer(&mut stats, &FindValueAnswer::Failed), (PeerVerdict::Failure, false));
    assert_eq!(stats.failures, 1);
    let refused = FindValueAnswer::Value {
        record_accepted: false,
        closer_records: 0,
        closer_nodes_returned: 3,
        closer_nodes_merged: 0,
        rejected_non_closer: 2,
        rejected_duplicate: 1,
    };
    assert_eq!(record_find_value_answer(&mut stats, &refused), (PeerVerdict::Failure, false));
    let helpful = FindValueAnswer::Value {
        record_accepted: false,
        closer_records: 0,
        closer_nodes_returned: 2,
        closer_nodes_merged: 1,
        rejected_non_closer: 1,
        rejected_duplicate: 0,
    };
    assert_eq!(record_find_value_answer(&mut stats, &helpful), (PeerVerdict::Success, false));
    let found = FindValueAnswer::Value {
        record_accepted: true,
        closer_records: 9,
        closer_nodes_returned: 9,
        closer_nodes_merged: 9,
        rejected_non_closer: 0,
        rejected_duplicate: 0,
    };
    assert_eq!(record_find_value_answer(&mut stats, &found), (PeerVerdict::Success, true));
    assert_eq!(stats.successes, 3);
    assert_eq!(stats.found_records, 1);
    assert_eq!(stats.closer_nodes_returned, 5);
    assert_eq!(stats.closer_nodes_merged, 1);
    assert_eq!(stats.closer_nodes_rejected_non_closer, 3);
    assert_eq!(stats.closer_nodes_rejected_duplicate, 1);
}

#[test]
fn routing_refresh_answers_are_counted_and_judged() {
    let mut stats = DhtRoutingRefreshRunStats::default();
    assert_eq!(record_routing_refresh_answer(&mut stats, &RoutingRefreshAnswer::Failed), PeerVerdict::Failure);
    assert_eq!((stats.attempts, stats.failures, stats.successes), (1, 1, 0));
    let all_refused = RoutingRefreshAnswer::Nodes { returned: 3, rejected_non_closer: 2, rejected_duplicate: 1, merged: 0 };
    assert_eq!(record_routing_refresh_answer(&mut stats, &all_refused), PeerVerdict::Failure);
    let some_merged = RoutingRefreshAnswer::Nodes { returned: 3, rejected_non_closer: 1, rejected_duplicate: 0, merged: 2 };
    assert_eq!(record_routing_refresh_answer(&mut stats, &some_merged), PeerVerdict::Success);
    let empty = RoutingRefreshAnswer::Nodes { returned: 0, rejected_non_closer: 0, rejected_duplicate: 0, merged: 0 };
    assert_eq!(record_routing_refresh_answer(&mut stats, &empty), PeerVerdict::Success);
    assert_eq!(stats.attempts, 4);
    assert_eq!(stats.successes, 3);
    assert_eq!(stats.failures, 1);
    assert_eq!(stats.attempts, stats.successes + stats.failures);
    assert_eq!(stats.nodes_returned, 6);
    assert_eq!(stats.nodes_rejected_non_closer, 3);
    assert_eq!(stats.nodes_rejected_duplicate, 1);
    assert_eq!(stats.nodes_merged, 2);
    assert_eq!(stats.targets, 0);
}

#[test]
fn find_value_run_starts_continues_and_finishes() {
    let none = find_value_run_start(0, 5, 0);
    assert_eq!(none.alpha, 1);
    assert!(none.exhausted);
    assert_eq!(none.attempts, 0);
    let no_budget = find_value_run_start(3, 0, 4);
    assert!(no_budget.exhausted);
    assert_eq!(no_budget.alpha, 4);
    let wide = find_value_run_start(3, 5, 40);
    assert_eq!(wide.alpha, 16);
    assert!(!wide.exhausted);
    assert_eq!(wide, DhtFindValueRunStats { alpha: 16, ..DhtFindValueRunStats::default() });

    assert!(find_value_run_continues(0, 2, 0, 5, false));
    assert!(!find_value_run_continues(2, 2, 0, 5, false));
    assert!(!find_value_run_continues(0, 2, 5, 5, false));
    assert!(!find_value_run_continues(0, 2, 0, 5, true));

    let mut ran_out = DhtFindValueRunStats { attempts: 2, ..DhtFindValueRunStats::default() };
    finish_find_value_run(&mut ran_out, 2, 2);
    assert!(ran_out.exhausted);
    assert_eq!(ran_out.attempts, 2);
    let mut found = DhtFindValueRunStats { found_records: 1, ..DhtFindValueRunStats::default() };
    finish_find_value_run(&mut found, 2, 2);
    assert!(!found.exhausted);
    let mut budget_spent = DhtFindValueRunStats::default();
    finish_find_value_run(&mut budget_spent, 1, 3);
    assert!(!budget_spent.exhausted);
}

#[test]
fn sync_status_keeps_one_entry_per_url() {
    let mut status = NodeSyncStatus::new();
    status.record_failure("http://a", "boom", 10);
    status.record_failure("http://a", "again", 11);
    status.record_next_attempt("http://b", 20);
    status.record_success("http://a", NodeMergeStats { peers: 1, mailbox_deliveries: 0, prekey_bundles: 0, signed_one_time_prekey_records: 0, dht_records: 0 }, 12);
    assert_eq!(status.peers.len(), 2);
    assert_eq!(status.peers[0].0, "http://a");
    assert_eq!(status.peers[1].0, "http://b");
    assert_eq!(status.peers[0].1.attempts, 3);
}
