use lm_node::config::{
    parse_dht_transport_kind, parse_log_format, validate_state_db_encryption_requirement,
    DhtTransportKind, LogFormat, DEFAULT_DHT_PEER_QUARANTINE_CONSECUTIVE_FAILURES,
};
use lm_node::http::{
    control_error_http_response, parse_content_length_and_validate_headers,
    status_for_request_error, status_reason, MAX_CONTROL_REQUEST_HEADER_LINE_BYTES,
};
use lm_node::maintenance::{
    DhtRecordRejectStats, MailboxAckRejectStats, MailboxPushRejectStats, NodeMaintenanceStats,
    RoutingPeerRejectStats,
};
use lm_node::metrics::{
    ControlEndpointStats, ControlRuntimeStats, DhtFindValueRunStats, DhtReplicationRunStats,
    DhtRoutingRefreshRunStats, StateDbStats,
};
use lm_node::sync_status::{NodeSyncPeerStatus, NodeSyncStatus};

fn endpoint<'a>(stats: &'a ControlRuntimeStats, key: &str) -> Option<&'a ControlEndpointStats> {
    stats.endpoints.iter().find(|(k, _)| k == key).map(|(_, v)| v)
}

#[test]
fn log_format_parses_text_and_json_aliases() {
    assert_eq!(parse_log_format("text").unwrap(), LogFormat::Text);
    assert_eq!(parse_log_format("plain").unwrap(), LogFormat::Text);
    assert_eq!(parse_log_format("json").unwrap(), LogFormat::Json);
    assert_eq!(parse_log_format("structured").unwrap(), LogFormat::Json);
    assert!(parse_log_format("xml").is_err());
}

#[test]
fn dht_transport_kind_parses_supported_aliases() {
    assert_eq!(
        parse_dht_transport_kind("http-control").unwrap(),
        DhtTransportKind::HttpControl
    );
    assert_eq!(
        parse_dht_transport_kind("control").unwrap(),
        DhtTransportKind::HttpControl
    );
    assert_eq!(
        parse_dht_transport_kind("libp2p").unwrap(),
        DhtTransportKind::Libp2p
    );
    assert!(parse_dht_transport_kind("tcp").is_err());
}

#[test]
fn oversized_control_request_maps_to_413() {
    assert_eq!(status_for_request_error("request body too large"), 413);
    assert_eq!(status_reason(413), "Payload Too Large");
    assert_eq!(status_for_request_error("request header too large"), 431);
    assert_eq!(status_for_request_error("request path too large"), 431);
    assert_eq!(status_reason(431), "Request Header Fields Too Large");
    assert_eq!(status_for_request_error("connection closed"), 400);
    assert!(
        control_error_http_response(413, "request error: request body too large")
            .starts_with("HTTP/1.1 413 Payload Too Large\r\n")
    );
    assert!(
        control_error_http_response(431, "request error: request header too large")
            .starts_with("HTTP/1.1 431 Request Header Fields Too Large\r\n")
    );
}

#[test]
fn control_request_header_parser_rejects_smuggling_inputs() {
    assert_eq!(
        parse_content_length_and_validate_headers(
            "POST /sync/import HTTP/1.1\r\ncontent-length: 7\r\ncontent-length: 7"
        )
        .unwrap(),
        7
    );
    assert!(parse_content_length_and_validate_headers(
        "POST /sync/import HTTP/1.1\r\ncontent-length: 7\r\ncontent-length: 8"
    )
    .unwrap_err()
    .message()
    .contains("conflicting content-length"));
    assert!(parse_content_length_and_validate_headers(
        "POST /sync/import HTTP/1.1\r\ntransfer-encoding: chunked"
    )
    .unwrap_err()
    .message()
    .contains("unsupported transfer-encoding"));
    assert!(parse_content_length_and_validate_headers(&format!(
        "GET /health HTTP/1.1\r\nx-long: {}",
        "a".repeat(MAX_CONTROL_REQUEST_HEADER_LINE_BYTES + 1)
    ))
    .unwrap_err()
    .message()
    .contains("request header too large"));
}

#[test]
fn control_runtime_stats_counts_status_classes_and_security_events() {
    let mut stats = ControlRuntimeStats::new(123);
    stats.record_response("GET /health", 200, 10);
    stats.record_response("GET /health", 201, 20);
    stats.record_response("POST /mailbox/push", 400, 5);
    stats.record_response("GET /sync/status", 401, 1);
    stats.record_response("GET /sync/status", 403, 2);
    stats.record_response("GET /sync/status", 429, 3);
    stats.record_response("GET /control/stats", 500, 4);

    assert_eq!(stats.started_at, 123);
    assert_eq!(stats.requests_total, 7);
    assert_eq!(stats.responses_2xx, 2);
    assert_eq!(stats.responses_4xx, 4);
    assert_eq!(stats.responses_5xx, 1);
    assert_eq!(stats.bad_requests, 1);
    assert_eq!(stats.unauthorized, 1);
    assert_eq!(stats.cors_rejected, 1);
    assert_eq!(stats.rate_limited, 1);
    stats.record_sync_snapshot_bytes("GET /sync/snapshot", 200, 0, 321);
    stats.record_sync_snapshot_bytes("POST /sync/import", 200, 123, 10);
    stats.record_sync_snapshot_bytes("POST /sync/import", 400, 999, 10);
    assert_eq!(stats.sync_snapshot_exports, 1);
    assert_eq!(stats.sync_snapshot_export_bytes, 321);
    assert_eq!(stats.sync_snapshot_imports, 1);
    assert_eq!(stats.sync_snapshot_import_bytes, 123);
    stats.record_dht_replication_run(
        DhtReplicationRunStats {
            records: 2,
            attempts: 4,
            successes: 3,
            failures: 1,
            peers_quarantined: 2,
        },
        456,
    );
    assert_eq!(stats.dht_replication_runs, 1);
    assert_eq!(stats.dht_replication_records, 2);
    assert_eq!(stats.dht_replication_attempts, 4);
    assert_eq!(stats.dht_replication_successes, 3);
    assert_eq!(stats.dht_replication_failures, 1);
    assert_eq!(stats.dht_replication_peers_quarantined, 2);
    assert_eq!(stats.last_dht_replication_at, Some(456));
    stats.record_dht_routing_refresh_run(
        DhtRoutingRefreshRunStats {
            targets: 2,
            attempts: 6,
            successes: 5,
            failures: 1,
            nodes_returned: 7,
            nodes_merged: 2,
            nodes_rejected_non_closer: 4,
            nodes_rejected_duplicate: 5,
            peers_quarantined: 3,
        },
        789,
    );
    assert_eq!(stats.dht_routing_refresh_runs, 1);
    assert_eq!(stats.dht_routing_refresh_targets, 2);
    assert_eq!(stats.dht_routing_refresh_attempts, 6);
    assert_eq!(stats.dht_routing_refresh_successes, 5);
    assert_eq!(stats.dht_routing_refresh_failures, 1);
    assert_eq!(stats.dht_routing_refresh_nodes_returned, 7);
    assert_eq!(stats.dht_routing_refresh_nodes_merged, 2);
    assert_eq!(stats.dht_routing_refresh_nodes_rejected_non_closer, 4);
    assert_eq!(stats.dht_routing_refresh_nodes_rejected_duplicate, 5);
    assert_eq!(stats.dht_routing_refresh_peers_quarantined, 3);
    assert_eq!(stats.last_dht_routing_refresh_at, Some(789));
    stats.record_dht_find_value_run(
        DhtFindValueRunStats {
            attempts: 4,
            successes: 3,
            failures: 1,
            found_records: 1,
            closer_records: 2,
            closer_nodes_returned: 5,
            closer_nodes_merged: 2,
            closer_nodes_rejected_non_closer: 4,
            closer_nodes_rejected_duplicate: 6,
            peers_quarantined: 1,
            exhausted: true,
            ..Default::default()
        },
        999,
    );
    assert_eq!(stats.dht_find_value_runs, 1);
    assert_eq!(stats.dht_find_value_attempts, 4);
    assert_eq!(stats.dht_find_value_successes, 3);
    assert_eq!(stats.dht_find_value_failures, 1);
    assert_eq!(stats.dht_find_value_found_records, 1);
    assert_eq!(stats.dht_find_value_closer_nodes_rejected_non_closer, 4);
    assert_eq!(stats.dht_find_value_closer_nodes_rejected_duplicate, 6);
    assert_eq!(stats.dht_find_value_peers_quarantined, 1);
    assert_eq!(stats.dht_find_value_query_rounds, 0);
    assert_eq!(stats.dht_find_value_alpha_max, 0);
    assert_eq!(stats.dht_find_value_exhausted, 1);
    assert_eq!(stats.last_dht_find_value_at, Some(999));
    stats.record_sync_schedule_delay(11);
    stats.record_dht_replication_schedule_delay(22);
    stats.record_dht_routing_refresh_schedule_delay(33);
    assert_eq!(stats.last_sync_schedule_delay_micros, Some(11));
    assert_eq!(stats.last_dht_replication_schedule_delay_micros, Some(22));
    assert_eq!(
        stats.last_dht_routing_refresh_schedule_delay_micros,
        Some(33)
    );
    let health = endpoint(&stats, "GET /health").unwrap();
    assert_eq!(health.requests, 2);
    assert_eq!(health.responses_2xx, 2);
    assert_eq!(health.total_duration_micros, 30);
    assert_eq!(health.max_duration_micros, 20);
    assert_eq!(health.last_status, Some(201));
    let sync = endpoint(&stats, "GET /sync/status").unwrap();
    assert_eq!(sync.requests, 3);
    assert_eq!(sync.responses_4xx, 3);
    let metrics = stats.to_openmetrics(
        &NodeMaintenanceStats {
            prune_runs: 2,
            mailbox_expired_deliveries: 3,
            prekey_expired_bundles: 4,
            mailbox_push_rejects: MailboxPushRejectStats {
                invalid_json: 2,
                sender_rate_limited: 1,
                ..Default::default()
            },
            dht_record_rejects: DhtRecordRejectStats {
                invalid_json: 4,
                invalid_record: 5,
                ..Default::default()
            },
            mailbox_ack_rejects: MailboxAckRejectStats {
                invalid_json: 6,
                too_many_ids: 7,
                empty_id: 8,
                ..Default::default()
            },
            routing_peer_rejects: RoutingPeerRejectStats {
                mismatched_node_id: 2,
                invalid_signature: 3,
                too_many_addresses: 4,
                address_too_large: 5,
                ..Default::default()
            },
            last_pruned_at: Some(1234),
        },
        Some(&StateDbStats {
            page_count: 10,
            page_size_bytes: 4096,
            freelist_count: 2,
            file_bytes: 40960,
            encrypted: false,
            permissions_hardened: true,
        }),
        Some(&NodeSyncStatus {
            peers: vec![(
                "http://peer.example".to_string(),
                NodeSyncPeerStatus {
                    url: "http://peer.example".to_string(),
                    attempts: 5,
                    successes: 3,
                    failures: 2,
                    last_attempt_at: Some(100),
                    last_success_at: Some(90),
                    last_error_at: Some(80),
                    last_error: Some("timeout".to_string()),
                    next_attempt_at: Some(4_000_000_000),
                    consecutive_failures: DEFAULT_DHT_PEER_QUARANTINE_CONSECUTIVE_FAILURES,
                    last_imported_peers: 1,
                    last_imported_mailbox_deliveries: 2,
                    last_imported_prekey_bundles: 3,
                    last_imported_signed_one_time_prekey_records: 4,
                },
            )],
        }),
        DEFAULT_DHT_PEER_QUARANTINE_CONSECUTIVE_FAILURES,
    );
    assert!(metrics.contains("# TYPE lm_node_control_requests_total counter"));
    assert!(metrics.contains("lm_node_control_requests_total 7"));
    assert!(metrics.contains("lm_node_control_security_events_total{event=\"rate_limited\"} 1"));
    assert!(metrics.contains(
        "lm_node_control_endpoint_requests_total{endpoint=\"GET /sync/status\",class=\"4xx\"} 3"
    ));
    assert!(metrics.contains("lm_node_dht_replication_runs_total 1"));
    assert!(metrics.contains("lm_node_dht_replication_records_total 2"));
    assert!(metrics.contains("lm_node_dht_replication_attempts_total{result=\"success\"} 3"));
    assert!(metrics.contains("lm_node_dht_replication_attempts_total{result=\"failure\"} 1"));
    assert!(metrics.contains("lm_node_dht_replication_peers_quarantined_total 2"));
    assert!(metrics.contains("lm_node_dht_replication_last_run_at 456"));
    assert!(metrics.contains("lm_node_dht_routing_refresh_runs_total 1"));
    assert!(metrics.contains("lm_node_dht_routing_refresh_targets_total 2"));
    assert!(metrics.contains("lm_node_dht_routing_refresh_attempts_total{result=\"success\"} 5"));
    assert!(metrics.contains("lm_node_dht_routing_refresh_nodes_returned_total 7"));
    assert!(metrics.contains("lm_node_dht_routing_refresh_nodes_merged_total 2"));
    assert!(metrics
        .contains("lm_node_dht_routing_refresh_nodes_rejected_total{reason=\"non_closer\"} 4"));
    assert!(metrics
        .contains("lm_node_dht_routing_refresh_nodes_rejected_total{reason=\"duplicate\"} 5"));
    assert!(metrics.contains("lm_node_dht_routing_refresh_peers_quarantined_total 3"));
    assert!(metrics.contains("lm_node_dht_routing_refresh_last_run_at 789"));
    assert!(metrics.contains("lm_node_dht_find_value_runs_total 1"));
    assert!(metrics.contains("lm_node_dht_find_value_attempts_total{result=\"success\"} 3"));
    assert!(metrics.contains("lm_node_dht_find_value_attempts_total{result=\"failure\"} 1"));
    assert!(metrics.contains("lm_node_dht_find_value_records_total{kind=\"found\"} 1"));
    assert!(metrics.contains("lm_node_dht_find_value_records_total{kind=\"closer\"} 2"));
    assert!(metrics.contains("lm_node_dht_find_value_closer_nodes_total{kind=\"returned\"} 5"));
    assert!(metrics.contains("lm_node_dht_find_value_closer_nodes_total{kind=\"merged\"} 2"));
    assert!(metrics
        .contains("lm_node_dht_find_value_closer_nodes_total{kind=\"rejected_non_closer\"} 4"));
    assert!(metrics
        .contains("lm_node_dht_find_value_closer_nodes_total{kind=\"rejected_duplicate\"} 6"));
    assert!(metrics.contains("lm_node_dht_find_value_peers_quarantined_total 1"));
    assert!(metrics.contains("lm_node_dht_find_value_query_rounds_total 0"));
    assert!(metrics.contains("lm_node_dht_find_value_alpha_max 0"));
    assert!(metrics.contains("lm_node_dht_find_value_exhausted_total 1"));
    assert!(metrics.contains("lm_node_dht_find_value_last_run_at 999"));
    assert!(metrics.contains(r#"lm_node_sync_peer_attempts_total{peer="http://peer.example"} 5"#));
    assert!(metrics.contains(r#"lm_node_sync_peer_successes_total{peer="http://peer.example"} 3"#));
    assert!(metrics.contains(r#"lm_node_sync_peer_failures_total{peer="http://peer.example"} 2"#));
    assert!(metrics.contains(
        format!(
            r#"lm_node_sync_peer_consecutive_failures{{peer="http://peer.example"}} {}"#,
            DEFAULT_DHT_PEER_QUARANTINE_CONSECUTIVE_FAILURES
        )
        .as_str()
    ));
    assert!(metrics.contains(r#"lm_node_dht_peer_quarantined{peer="http://peer.example"} 1"#));
    assert!(metrics.contains(
        r#"lm_node_sync_peer_next_attempt_at{peer="http://peer.example"} 4000000000"#
    ));
    assert!(metrics
        .contains("lm_node_background_schedule_delay_micros_total{job=\"snapshot_sync\"} 11"));
    assert!(metrics
        .contains("lm_node_background_schedule_delay_micros_total{job=\"dht_replication\"} 22"));
    assert!(metrics
        .contains("lm_node_background_schedule_delay_micros_last{job=\"dht_routing_refresh\"} 33"));
    assert!(metrics.contains("lm_node_maintenance_prune_runs_total 2"));
    assert!(metrics
        .contains("lm_node_maintenance_expired_records_total{kind=\"mailbox_delivery\"} 3"));
    assert!(metrics.contains("lm_node_mailbox_push_rejections_total{reason=\"invalid_json\"} 2"));
    assert!(metrics
        .contains("lm_node_mailbox_push_rejections_total{reason=\"sender_rate_limited\"} 1"));
    assert!(metrics.contains("lm_node_mailbox_push_rejections_total{reason=\"all\"} 3"));
    assert!(metrics.contains("lm_node_dht_record_rejections_total{reason=\"invalid_json\"} 4"));
    assert!(metrics.contains("lm_node_dht_record_rejections_total{reason=\"invalid_record\"} 5"));
    assert!(metrics.contains("lm_node_dht_record_rejections_total{reason=\"all\"} 9"));
    assert!(metrics
        .contains("lm_node_routing_peer_rejections_total{reason=\"mismatched_node_id\"} 2"));
    assert!(metrics
        .contains("lm_node_routing_peer_rejections_total{reason=\"invalid_signature\"} 3"));
    assert!(metrics
        .contains("lm_node_routing_peer_rejections_total{reason=\"too_many_addresses\"} 4"));
    assert!(metrics
        .contains("lm_node_routing_peer_rejections_total{reason=\"address_too_large\"} 5"));
    assert!(metrics.contains("lm_node_routing_peer_rejections_total{reason=\"all\"} 14"));
    assert!(metrics.contains("lm_node_state_db_pages{kind=\"total\"} 10"));
    assert!(metrics.contains("lm_node_state_db_pages{kind=\"free\"} 2"));
    assert!(metrics.contains("lm_node_state_db_page_size_bytes 4096"));
    assert!(metrics.contains("lm_node_state_db_file_bytes 40960"));
    assert!(metrics.contains("lm_node_state_db_encrypted 0"));
    assert!(metrics.contains("lm_node_state_db_permissions_hardened 1"));
    assert!(metrics.ends_with("# EOF\n"));
}

#[test]
fn state_db_encryption_requirement_fails_closed_until_supported() {
    assert!(validate_state_db_encryption_requirement(false).is_ok());
    let err = validate_state_db_encryption_requirement(true).unwrap_err();
    assert!(err.contains("plain SQLite"));
}

#[test]
fn api_prefixed_snapshot_exports_are_counted_imports_only_bare() {
    let mut stats = ControlRuntimeStats::new(1);
    stats.record_sync_snapshot_bytes("GET /api/sync/snapshot", 200, 0, 321);
    stats.record_sync_snapshot_bytes("POST /api/sync/import", 201, 123, 10);
    stats.record_sync_snapshot_bytes("GET /api/sync/snapshot", 500, 0, 999);
    stats.record_sync_snapshot_bytes("GET /api/sync/status", 200, 0, 999);
    assert_eq!(stats.sync_snapshot_exports, 1);
    assert_eq!(stats.sync_snapshot_export_bytes, 321);
    assert_eq!(stats.sync_snapshot_imports, 0);
    assert_eq!(stats.sync_snapshot_import_bytes, 0);
}

#[test]
fn replication_schedule_delays_accumulate() {
    let mut stats = ControlRuntimeStats::new(1);
    stats.record_dht_replication_schedule_delay(22);
    stats.record_dht_replication_schedule_delay(10);
    assert_eq!(stats.dht_replication_schedule_delay_micros_total, 32);
    assert_eq!(stats.dht_replication_schedule_delay_micros_max, 22);
    assert_eq!(stats.last_dht_replication_schedule_delay_micros, Some(10));
    assert_eq!(stats.sync_schedule_delay_micros_total, 0);
    assert_eq!(stats.last_sync_schedule_delay_micros, None);
    assert_eq!(stats.dht_routing_refresh_schedule_delay_micros_total, 0);
    assert_eq!(stats.last_dht_routing_refresh_schedule_delay_micros, None);
}

#[test]
fn endpoint_table_keeps_one_entry_per_endpoint() {
    let mut stats = ControlRuntimeStats::new(1);
    stats.record_response("GET /health", 200, 10);
    stats.record_response("GET /sync/status", 429, 3);
    stats.record_response("GET /health", 500, 30);
    assert_eq!(stats.endpoints.len(), 2);
    assert_eq!(stats.endpoints[0].0, "GET /health");
    assert_eq!(stats.endpoints[0].1.requests, 2);
    assert_eq!(stats.endpoints[1].0, "GET /sync/status");
    assert_eq!(stats.endpoints[1].1.requests, 1);
}
