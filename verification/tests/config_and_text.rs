use lm_node::config::{
    choose_secret, optional_arg, path_with_suffix, parse_csv, parse_dht_transport_kind, parse_log_format,
    required_arg, validate_state_db_encryption_requirement, ControlLogger, DhtRunnerConfig,
    DhtTransportKind, LogFormat, RateLimitConfig,
};
use lm_node::metrics::escape_openmetrics_label;
use lm_node::prekey::{prekey_low_one_time_prekeys, prekey_replenishment_required};
use lm_node::query::{percent_decode_query_component, query_param_value};

fn args(v: &[&str]) -> Vec<String> {
    v.iter().map(|s| s.to_string()).collect()
}

#[test]
fn optional_and_required_args() {
    let a = args(&["serve-control", "--bind", "127.0.0.1:8080", "--peer-id"]);
    assert_eq!(optional_arg(&a, "--bind").unwrap(), Some("127.0.0.1:8080".to_string()));
    assert_eq!(optional_arg(&a, "--state-file").unwrap(), None);
    assert_eq!(optional_arg(&a, "--peer-id").unwrap_err(), "missing value for --peer-id");
    assert_eq!(required_arg(&a, "--bind").unwrap(), "127.0.0.1:8080");
    assert_eq!(required_arg(&a, "--state-file").unwrap_err(), "missing --state-file");
    assert_eq!(required_arg(&a, "--peer-id").unwrap_err(), "missing value for --peer-id");
    let twice = args(&["--x", "1", "--x", "2"]);
    assert_eq!(optional_arg(&twice, "--x").unwrap(), Some("1".to_string()));
}

#[test]
fn csv_items_are_trimmed_and_nonempty() {
    assert_eq!(parse_csv(" a, b ,,c ,"), vec!["a", "b", "c"]);
    assert!(parse_csv("").is_empty());
    assert!(parse_csv(" , ,").is_empty());
    assert_eq!(parse_csv("http://x"), vec!["http://x"]);
}

#[test]
fn direct_secret_wins() {
    assert_eq!(choose_secret(Some("a".into()), Some("b".into())), Some("a".to_string()));
    assert_eq!(choose_secret(None, Some("b".into())), Some("b".to_string()));
    assert_eq!(choose_secret(None, None), None);
}

#[test]
fn encryption_requirement_message_is_exact() {
    assert_eq!(
        validate_state_db_encryption_requirement(true).unwrap_err(),
        "state_db encryption is required but this build uses plain SQLite (encryption_mode is plain); enable SQLCipher/equivalent before production"
    );
}

#[test]
fn transport_names_round_trip_and_errors_quote_input() {
    for k in [DhtTransportKind::HttpControl, DhtTransportKind::Libp2p] {
        assert_eq!(parse_dht_transport_kind(k.as_str()).unwrap(), k);
    }
    assert_eq!(parse_dht_transport_kind("  HTTP ").unwrap(), DhtTransportKind::HttpControl);
    assert_eq!(parse_dht_transport_kind("LibP2P").unwrap(), DhtTransportKind::Libp2p);
    assert_eq!(
        parse_dht_transport_kind(" TCP ").unwrap_err(),
        "unsupported dht transport \"tcp\"; expected http-control or libp2p"
    );
    assert_eq!(
        parse_dht_transport_kind("a\"b").unwrap_err(),
        "unsupported dht transport \"a\\\"b\"; expected http-control or libp2p"
    );
}

#[test]
fn log_format_defaults_and_errors() {
    assert_eq!(parse_log_format("").unwrap(), LogFormat::Text);
    assert_eq!(parse_log_format(" JSON ").unwrap(), LogFormat::Json);
    assert_eq!(parse_log_format("Xml").unwrap_err(), "invalid log format: xml; expected text or json");
    assert_eq!(ControlLogger::new(LogFormat::Json).format, LogFormat::Json);
}

#[test]
fn rate_limit_and_runner_defaults() {
    assert!(RateLimitConfig { window_seconds: 60, max_requests: 120 }.is_enabled());
    assert!(!RateLimitConfig { window_seconds: 60, max_requests: 0 }.is_enabled());
    let d = DhtRunnerConfig::default();
    assert_eq!(d.replication_factor, 3);
    assert_eq!(d.routing_refresh_limit, 8);
    assert_eq!(d.routing_refresh_max_targets, 8);
    assert_eq!(d.transport, DhtTransportKind::HttpControl);
    assert_eq!(d.peer_quarantine_consecutive_failures, 3);
}

#[test]
fn labels_are_escaped_on_one_line() {
    assert_eq!(escape_openmetrics_label("a\"b\\c\nd"), "a\\\"b\\\\c\\nd");
    assert_eq!(escape_openmetrics_label("plain value"), "plain value");
    assert!(!escape_openmetrics_label("x\ny\n").contains('\n'));
}

#[test]
fn query_values_are_percent_decoded() {
    assert_eq!(query_param_value("/dht/find-value?key=ab%20cd&x=1", "key"), Some("ab cd".to_string()));
    assert_eq!(query_param_value("/a?x=1&x=2", "x"), Some("1".to_string()));
    assert_eq!(query_param_value("/a", "x"), None);
    assert_eq!(percent_decode_query_component("a+b%2Fc"), "a b/c");
}

#[test]
fn prekey_thresholds() {
    assert!(prekey_low_one_time_prekeys(Some(1)));
    assert!(!prekey_low_one_time_prekeys(Some(2)));
    assert!(!prekey_low_one_time_prekeys(None));
    assert!(prekey_replenishment_required(Some(0)));
    assert!(!prekey_replenishment_required(Some(5)));
    assert!(prekey_replenishment_required(None));
}

#[test]
fn state_db_side_files_take_a_suffix() {
    assert_eq!(path_with_suffix("/var/lib/lm/state.sqlite3", "-wal"), "/var/lib/lm/state.sqlite3-wal");
    assert_eq!(path_with_suffix("state.sqlite3", "-shm"), "state.sqlite3-shm");
    assert_eq!(path_with_suffix("", "-wal"), "-wal");
}

#[test]
fn form_decoding_undoes_form_encoding() {
    assert_eq!(percent_decode_query_component("caf%C3%a9+au+lait%21"), "café au lait!");
    assert_eq!(percent_decode_query_component("%2B%25%20x"), "+% x");
    assert_eq!(percent_decode_query_component("a%zz"), "a%zz");
    assert_eq!(percent_decode_query_component("a%4"), "a%4");
}
