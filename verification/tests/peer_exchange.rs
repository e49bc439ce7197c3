use lm_node::dht::{RoutingPeer, SyncPeerConfig};
use lm_node::http::{
    request_from_buffer, request_head_from_bytes, scan_request_head, HeaderScan, RequestError,
    MAX_CONTROL_REQUEST_HEADER_BYTES,
};
use lm_node::p2p::{parse_libp2p_bootstrap_peers, parse_libp2p_dht_peer};
use lm_node::peer_http::{
    check_control_peer_response_len, control_peer_request_text, control_peer_response_body, control_peer_target,
    MAX_CONTROL_PEER_RESPONSE_BYTES,
};
use lm_node::rpc::{find_value_request, validate_dht_rpc_response, DhtRpcRequest, DhtRpcResponse};

const PEER_ID: &str = "12D3KooWRNw2pJC9748Fmq4WNV27HoSTcX3r37132FLkQMrbKAiC";
const OTHER_PEER_ID: &str = "12D3KooWDpJ7As7BWAwRMfu1VU2WCqNjvq387JEYKDBj4kx6nXTN";

#[test]
fn control_peer_target_splits_host_and_prefix() {
    assert_eq!(
        control_peer_target(" http://node.example:9000/api/ ").unwrap(),
        ("node.example:9000".to_string(), "/api".to_string())
    );
    assert_eq!(
        control_peer_target("http://127.0.0.1:8080").unwrap(),
        ("127.0.0.1:8080".to_string(), String::new())
    );
    assert_eq!(
        control_peer_target("https://node.example").unwrap_err(),
        "only http:// control peers are supported"
    );
}

#[test]
fn control_peer_request_carries_token_and_body_length() {
    let text = control_peer_request_text("POST", "/api", "/dht/rpc", "h:1", Some("tok"), "{\"a\":1}");
    assert_eq!(
        text,
        "POST /api/dht/rpc HTTP/1.1\r\nhost: h:1\r\nauthorization: Bearer tok\r\ncontent-type: application/json\r\ncontent-length: 7\r\nconnection: close\r\n\r\n{\"a\":1}"
    );
    let bare = control_peer_request_text("GET", "", "/sync/status", "h:1", None, "");
    assert_eq!(bare, "GET /sync/status HTTP/1.1\r\nhost: h:1\r\nconnection: close\r\n\r\n");
}

#[test]
fn control_peer_response_body_requires_success_status() {
    assert_eq!(
        control_peer_response_body("HTTP/1.1 200 OK\r\nx: y\r\n\r\nbody\r\n\r\nmore").unwrap(),
        "body\r\n\r\nmore"
    );
    assert_eq!(control_peer_response_body("HTTP/1.1 201 Created\r\n\r\n").unwrap(), "");
    assert_eq!(
        control_peer_response_body("HTTP/1.1 500 Internal Server Error\r\n\r\noops").unwrap_err(),
        "control peer returned HTTP/1.1 500 Internal Server Error"
    );
    assert_eq!(control_peer_response_body("no separator").unwrap_err(), "invalid http response");
    assert_eq!(control_peer_response_body("\r\n\r\nbody").unwrap_err(), "missing status line");
}

#[test]
fn dht_rpc_responses_must_answer_the_request() {
    let request = find_value_request("abcd", 500);
    match &request {
        DhtRpcRequest::FindValue { request_id, key, limit } => {
            assert_eq!(request_id, "find-value-abcd");
            assert_eq!(key, "abcd");
            assert_eq!(*limit, 64);
        },
        _ => panic!("wrong request"),
    }
    let ok = DhtRpcResponse::StoreResult { request_id: "find-value-abcd".into(), stored: true, inserted: false };
    assert!(validate_dht_rpc_response(&request, ok).is_ok());
    let other = DhtRpcResponse::Nodes { request_id: "x".into(), nodes: Vec::<RoutingPeer>::new() };
    assert_eq!(
        validate_dht_rpc_response(&request, other).unwrap_err(),
        "dht rpc response request_id mismatch: expected find-value-abcd, got x"
    );
    let err = DhtRpcResponse::Error { request_id: "find-value-abcd".into(), message: "nope".into() };
    assert_eq!(validate_dht_rpc_response(&request, err).unwrap_err(), "dht rpc error response: nope");
    match find_value_request("k", 0) {
        DhtRpcRequest::FindValue { limit, .. } => assert_eq!(limit, 1),
        _ => panic!("wrong request"),
    }
}

#[test]
fn libp2p_bootstrap_peers_parse_multiaddr_and_peer_id() {
    let first_peer = PEER_ID;
    let second_peer = OTHER_PEER_ID;
    let first_addr = "/ip4/127.0.0.1/tcp/40001";
    let second_addr = "/ip4/127.0.0.1/tcp/40002";
    let peers = parse_libp2p_bootstrap_peers(&format!(
        "libp2p://{first_addr}|{first_peer},{second_addr}|{second_peer}"
    ))
    .unwrap();
    assert_eq!(peers.len(), 2);
    assert_eq!(peers[0].peer_id.to_string(), first_peer);
    assert_eq!(peers[0].address.to_string(), first_addr);
    assert_eq!(peers[1].peer_id.to_string(), second_peer);
    assert_eq!(peers[1].address.to_string(), second_addr);
    assert_eq!(peers[0].address_bytes, vec![4, 127, 0, 0, 1, 6, 0x9c, 0x41]);
    assert_eq!(peers[1].address_bytes, vec![4, 127, 0, 0, 1, 6, 0x9c, 0x42]);
    assert_eq!(peers[0].peer_id_bytes, peers[0].peer_id.to_bytes());
    assert_ne!(peers[0].peer_id_bytes, peers[1].peer_id_bytes);
    assert!(parse_libp2p_bootstrap_peers(&format!("{first_addr}")).is_err());
}

#[test]
fn libp2p_bootstrap_peers_refuse_bad_entries() {
    assert_eq!(
        parse_libp2p_bootstrap_peers("/ip4/127.0.0.1/tcp/4001").unwrap_err(),
        "libp2p bootstrap peers must use libp2p://<multiaddr>|<peer_id>"
    );
    assert!(parse_libp2p_bootstrap_peers(&format!("ip4/1.2.3.4|{PEER_ID}")).is_err());
    assert!(parse_libp2p_bootstrap_peers("/ip4/1.2.3.4/tcp/1|not-an-id").is_err());
    assert!(parse_libp2p_bootstrap_peers("").unwrap().is_empty());
}

#[test]
fn libp2p_dht_transport_parses_peer_config() {
    let address = "/ip4/127.0.0.1/tcp/4001";
    let peer = SyncPeerConfig {
        url: format!("libp2p://{address}"),
        token: Some("ignored-for-libp2p".into()),
        peer_id: Some(PEER_ID.into()),
    };
    let parsed = parse_libp2p_dht_peer(&peer).unwrap();
    assert_eq!(parsed.peer_id.to_string(), PEER_ID);
    assert_eq!(parsed.address.to_string(), address);
    assert_eq!(parsed.peer_id_bytes, parsed.peer_id.to_bytes());
    assert_eq!(parsed.address_bytes, parsed.address.to_vec());
    // /ip4 (code 4) 127.0.0.1, /tcp (code 6) port 4001
    assert_eq!(parsed.address_bytes, vec![4, 127, 0, 0, 1, 6, 0x0f, 0xa1]);
}

#[test]
fn libp2p_dht_peer_config_refusals() {
    let p = SyncPeerConfig {
        url: "libp2p:///ip4/127.0.0.1/tcp/4001".into(),
        token: None,
        peer_id: Some(PEER_ID.into()),
    };
    let missing = SyncPeerConfig { peer_id: None, ..p.clone() };
    assert_eq!(parse_libp2p_dht_peer(&missing).unwrap_err(), "libp2p DHT peers require peer_id");
    let bad = SyncPeerConfig { url: "http://x".into(), ..p };
    assert!(parse_libp2p_dht_peer(&bad).is_err());
}

#[test]
fn request_head_scan_waits_for_blank_line() {
    assert_eq!(scan_request_head(b"GET / HTTP/1.1\r\nhost: x\r\n\r\nbody"), HeaderScan::Complete(23));
    assert_eq!(scan_request_head(b"GET / HTTP/1.1\r\n"), HeaderScan::NeedMore);
    let big = vec![b'a'; MAX_CONTROL_REQUEST_HEADER_BYTES + 1];
    assert_eq!(scan_request_head(&big), HeaderScan::TooLarge);
}

#[test]
fn buffered_requests_decode_head_lossily_and_body_strictly() {
    let mut buffer = b"POST /sync/import?x=\xff HTTP/1.1\r\ncontent-length: 2\r\nx-name: v\r\n\r\nok".to_vec();
    let end = match scan_request_head(&buffer) {
        HeaderScan::Complete(pos) => pos,
        other => panic!("unexpected {other:?}"),
    };
    let head = request_head_from_bytes(&buffer, end).unwrap();
    assert_eq!(head.method, "POST");
    assert_eq!(head.path, "/sync/import?x=\u{fffd}");
    assert_eq!(head.content_length, 2);
    let request = request_from_buffer(&buffer, end, head).unwrap();
    assert_eq!(request.body, "ok");
    assert_eq!(request.header("X-Name"), Some("v"));
    let n = buffer.len();
    buffer[n - 1] = 0xc3;
    let head = request_head_from_bytes(&buffer, end).unwrap();
    match request_from_buffer(&buffer, end, head) {
        Err(e @ RequestError::InvalidUtf8Body { .. }) => {
            assert_eq!(e.message(), "incomplete utf-8 byte sequence from index 1")
        },
        other => panic!("unexpected {other:?}"),
    }
}

#[test]
fn clock_reads_the_present() {
    let now = lm_node::clock::current_unix_timestamp();
    assert!(now > 1_600_000_000);
}

#[test]
fn peer_request_reads_back_on_the_receiving_node() {
    let text = control_peer_request_text("POST", "/api", "/dht/rpc", "h:1", Some("tok"), "{\"é\":1}");
    let buffer = text.as_bytes().to_vec();
    let end = match scan_request_head(&buffer) {
        HeaderScan::Complete(pos) => pos,
        _ => panic!("request head not complete"),
    };
    let head = request_head_from_bytes(&buffer, end).unwrap();
    assert_eq!(head.method, "POST");
    assert_eq!(head.path, "/api/dht/rpc");
    assert_eq!(head.content_length, 8);
    let request = request_from_buffer(&buffer, end, head).unwrap();
    assert_eq!(request.body, "{\"é\":1}");

    let bare = control_peer_request_text("GET", "", "/sync/status", "h:1", None, "");
    let buffer = bare.as_bytes().to_vec();
    let end = match scan_request_head(&buffer) {
        HeaderScan::Complete(pos) => pos,
        _ => panic!("request head not complete"),
    };
    let head = request_head_from_bytes(&buffer, end).unwrap();
    assert_eq!((head.method.as_str(), head.path.as_str(), head.content_length), ("GET", "/sync/status", 0));
}

#[test]
fn control_peer_reply_over_eight_mib_is_refused() {
    assert_eq!(MAX_CONTROL_PEER_RESPONSE_BYTES, 8 * 1024 * 1024);
    assert_eq!(check_control_peer_response_len(0), Ok(()));
    assert_eq!(check_control_peer_response_len(MAX_CONTROL_PEER_RESPONSE_BYTES), Ok(()));
    let err = check_control_peer_response_len(MAX_CONTROL_PEER_RESPONSE_BYTES + 1).unwrap_err();
    assert!(err.contains("response too large"));
    assert_eq!(err, "control peer response too large");
}
