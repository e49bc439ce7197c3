use lm_node::config::RateLimitConfig;
use lm_node::control::{route_control_request, ControlRoute};
use lm_node::http::ControlRequest;
use lm_node::ratelimit::{request_is_within_rate_limit, RateLimiter};
use lm_node::response::ControlHttpResponse;
use lm_node::security::{constant_time_eq, request_is_authorized, ControlSecurityConfig};

const SECOND: u128 = 1_000_000_000;

fn get(path: &str, headers: Vec<(String, String)>) -> ControlRequest {
    ControlRequest {
        method: "GET".into(),
        path: path.into(),
        body: String::new(),
        headers,
    }
}

#[test]
fn control_security_accepts_current_and_previous_tokens_for_rotation() {
    let security = ControlSecurityConfig {
        token: Some("new-token".into()),
        previous_tokens: vec!["old-token".into(), "older-token".into()],
        cors_allow_origins: Vec::new(),
    };
    let request = |token: &str| ControlRequest {
        method: "GET".into(),
        path: "/sync/status".into(),
        body: String::new(),
        headers: vec![("authorization".into(), format!("Bearer {token}"))],
    };
    assert!(request_is_authorized(&request("new-token"), &security, None));
    assert!(request_is_authorized(&request("old-token"), &security, None));
    assert!(request_is_authorized(&request("older-token"), &security, None));
    assert!(!request_is_authorized(&request("wrong-token"), &security, None));
    assert!(!security.is_loopback_only());
}

#[test]
fn rate_limiter_enforces_window_and_resets() {
    let mut limiter = RateLimiter::new();
    let config = RateLimitConfig {
        window_seconds: 10,
        max_requests: 2,
    };
    let ip = (4u8, 0x7f00_0001u128);
    let now: u128 = 1_000 * SECOND;
    assert!(limiter.check(ip, now, config));
    assert!(limiter.check(ip, now, config));
    assert!(!limiter.check(ip, now, config));
    assert!(limiter.check(ip, now + 10 * SECOND, config));
}

#[test]
fn control_http_response_sets_browser_security_headers() {
    let response = ControlHttpResponse::json(200, Ok("{\n  \"ok\": true\n}".to_string()))
        .to_http_string("https://app.example");
    assert!(response.starts_with("HTTP/1.1 200 OK\r\n"));
    assert!(response.contains("\r\ncache-control: no-store\r\n"));
    assert!(response.contains("\r\nx-content-type-options: nosniff\r\n"));
    assert!(response.contains("\r\nreferrer-policy: no-referrer\r\n"));
    assert!(response.contains(
        "\r\npermissions-policy: camera=(), microphone=(), geolocation=(), payment=(), usb=()\r\n"
    ));
    assert!(response.contains(
        "\r\ncontent-security-policy: default-src 'none'; frame-ancestors 'none'; base-uri 'none'\r\n"
    ));
    assert!(response.contains("\r\naccess-control-allow-origin: https://app.example\r\n"));
}

#[test]
fn http_response_reports_body_bytes_and_reason() {
    let r = ControlHttpResponse::text(404, "né").to_http_string("*");
    assert!(r.starts_with("HTTP/1.1 404 Not Found\r\ncontent-type: text/plain; charset=utf-8\r\n"));
    assert!(r.contains("\r\ncontent-length: 3\r\nconnection: close\r\n\r\nné"));
    let unknown = ControlHttpResponse::text(418, "x").to_http_string("*");
    assert!(unknown.starts_with("HTTP/1.1 418 OK\r\n"));
    let failed = ControlHttpResponse::json(200, Err("boom".to_string()));
    assert_eq!(failed.status, 500);
    assert_eq!(failed.body, "serialization error: boom");
    let metrics = ControlHttpResponse::openmetrics(200, "# EOF\n".to_string());
    assert_eq!(metrics.content_type, "application/openmetrics-text; version=1.0.0; charset=utf-8");
}

#[test]
fn constant_time_eq_matches_equality() {
    assert!(constant_time_eq(b"secret", b"secret"));
    assert!(!constant_time_eq(b"secret", b"secreT"));
    assert!(!constant_time_eq(b"secret", b"secret!"));
    assert!(constant_time_eq(b"", b""));
}

#[test]
fn rate_limit_never_counts_health_probes_or_unknown_clients() {
    let mut limiter = RateLimiter::new();
    let config = RateLimitConfig {
        window_seconds: 60,
        max_requests: 1,
    };
    let ip = Some((4u8, 1u128));
    let health = get("/health", Vec::new());
    let status = get("/sync/status", Vec::new());
    for _ in 0..5 {
        assert!(request_is_within_rate_limit(&health, ip, &mut limiter, config, 0));
        assert!(request_is_within_rate_limit(&status, None, &mut limiter, config, 0));
    }
    assert!(request_is_within_rate_limit(&status, ip, &mut limiter, config, 0));
    assert!(!request_is_within_rate_limit(&status, ip, &mut limiter, config, 0));
    let off = RateLimitConfig {
        window_seconds: 0,
        max_requests: 1,
    };
    assert!(!off.is_enabled());
    assert!(request_is_within_rate_limit(&status, ip, &mut limiter, off, 0));
}

#[test]
fn rate_limiter_prune_forgets_idle_clients() {
    let mut limiter = RateLimiter::new();
    let config = RateLimitConfig {
        window_seconds: 10,
        max_requests: 1,
    };
    assert!(limiter.check((4, 1), 0, config));
    assert!(limiter.check((4, 2), 15 * SECOND, config));
    limiter.prune(20 * SECOND - 1, config);
    assert_eq!(limiter.client_count(), 2);
    limiter.prune(20 * SECOND, config);
    assert_eq!(limiter.client_count(), 1);
    assert!(limiter.budget_of((4, 1)).is_none());
    assert!(limiter.budget_of((4, 2)).is_some());
    assert!(!limiter.check((4, 2), 21 * SECOND, config));
    limiter.prune(0, RateLimitConfig { window_seconds: 0, max_requests: 0 });
    assert_eq!(limiter.client_count(), 0);
}

#[test]
fn budget_is_never_exceeded_within_a_window() {
    let mut limiter = RateLimiter::new();
    let config = RateLimitConfig {
        window_seconds: 5,
        max_requests: 3,
    };
    let mut allowed = 0;
    for i in 0..10u128 {
        if limiter.check((6, 9), i * SECOND / 4, config) {
            allowed += 1;
        }
        assert!(limiter.budget_of((6, 9)).unwrap().count <= 3);
    }
    assert_eq!(allowed, 3);
}

#[test]
fn control_routes_follow_security_checks() {
    let security = ControlSecurityConfig {
        token: Some("t".into()),
        previous_tokens: Vec::new(),
        cors_allow_origins: vec!["https://ok.example".into()],
    };
    let config = RateLimitConfig {
        window_seconds: 60,
        max_requests: 100,
    };
    let mut limiter = RateLimiter::new();
    let auth = || ("authorization".to_string(), "Bearer t".to_string());
    let bad_origin = get("/control/stats", vec![("origin".into(), "https://evil.example".into()), auth()]);
    match route_control_request(&bad_origin, &security, &mut limiter, config, Some((4, 1)), Some(false), 0) {
        ControlRoute::Refused(r) => {
            assert_eq!(r.status, 403);
            assert_eq!(r.body, "cors origin not allowed");
        },
        other => panic!("unexpected {other:?}"),
    }
    let no_token = get("/control/stats", Vec::new());
    match route_control_request(&no_token, &security, &mut limiter, config, Some((4, 1)), Some(true), 0) {
        ControlRoute::Refused(r) => assert_eq!(r.status, 401),
        other => panic!("unexpected {other:?}"),
    }
    let preflight = ControlRequest {
        method: "OPTIONS".into(),
        path: "/control/stats".into(),
        body: String::new(),
        headers: Vec::new(),
    };
    assert!(matches!(
        route_control_request(&preflight, &security, &mut limiter, config, Some((4, 1)), None, 0),
        ControlRoute::Node
    ));
    let cases = [
        ("/control/stats", "stats"),
        ("/control/metrics", "metrics"),
        ("/dht/find-value?key=00", "find"),
        ("/dht/maintenance", "maintenance"),
        ("/dht/replicate?factor=2", "replicate"),
        ("/dht/routing-refresh", "refresh"),
        ("/sync/status", "node"),
    ];
    for (path, want) in cases {
        let req = get(path, vec![("origin".into(), "https://ok.example".into()), auth()]);
        let got = match route_control_request(&req, &security, &mut limiter, config, Some((4, 1)), None, 0) {
            ControlRoute::Stats => "stats",
            ControlRoute::Metrics => "metrics",
            ControlRoute::DhtFindValue => "find",
            ControlRoute::DhtMaintenance => "maintenance",
            ControlRoute::DhtReplicate => "replicate",
            ControlRoute::DhtRoutingRefresh => "refresh",
            ControlRoute::Node => "node",
            ControlRoute::Refused(r) => panic!("refused {}", r.status),
        };
        assert_eq!(got, want, "{path}");
    }
    let tight = RateLimitConfig {
        window_seconds: 60,
        max_requests: 1,
    };
    let mut fresh = RateLimiter::new();
    let req = get("/sync/status", vec![auth()]);
    assert!(matches!(
        route_control_request(&req, &security, &mut fresh, tight, Some((4, 7)), None, 0),
        ControlRoute::Node
    ));
    match route_control_request(&req, &security, &mut fresh, tight, Some((4, 7)), None, 0) {
        ControlRoute::Refused(r) => {
            assert_eq!(r.status, 429);
            assert_eq!(r.body, "rate limit exceeded");
        },
        other => panic!("unexpected {other:?}"),
    }
}

#[test]
fn loopback_only_without_tokens() {
    let open = ControlSecurityConfig {
        token: None,
        previous_tokens: Vec::new(),
        cors_allow_origins: Vec::new(),
    };
    let req = get("/sync/status", Vec::new());
    assert!(open.is_loopback_only());
    assert!(request_is_authorized(&req, &open, Some(true)));
    assert!(!request_is_authorized(&req, &open, Some(false)));
    assert!(!request_is_authorized(&req, &open, None));
    assert!(request_is_authorized(&get("/health", Vec::new()), &open, None));
}

#[test]
fn api_prefixed_health_probe_needs_no_token_and_no_budget() {
    let security = ControlSecurityConfig {
        token: Some("secret".into()),
        previous_tokens: Vec::new(),
        cors_allow_origins: Vec::new(),
    };
    let health = get("/api/health", Vec::new());
    assert!(request_is_authorized(&health, &security, None));
    assert!(!request_is_authorized(&get("/api/sync/status", Vec::new()), &security, None));
    let mut limiter = RateLimiter::new();
    let config = RateLimitConfig { window_seconds: 60, max_requests: 1 };
    let ip = Some((4u8, 0x7f00_0001u128));
    assert!(request_is_within_rate_limit(&health, ip, &mut limiter, config, 0));
    assert!(request_is_within_rate_limit(&health, ip, &mut limiter, config, 0));
    let status = get("/api/sync/status", Vec::new());
    assert!(request_is_within_rate_limit(&status, ip, &mut limiter, config, 0));
    assert!(!request_is_within_rate_limit(&status, ip, &mut limiter, config, 0));
}

#[test]
fn api_prefixed_paths_route_like_bare_ones() {
    let security = ControlSecurityConfig {
        token: Some("secret".into()),
        previous_tokens: Vec::new(),
        cors_allow_origins: Vec::new(),
    };
    let mut limiter = RateLimiter::new();
    let config = RateLimitConfig { window_seconds: 0, max_requests: 0 };
    let auth = vec![("authorization".to_string(), "Bearer secret".to_string())];
    let stats = get("/api/control/stats", auth.clone());
    assert!(matches!(
        route_control_request(&stats, &security, &mut limiter, config, None, None, 0),
        ControlRoute::Stats
    ));
    let metrics = get("/api/control/metrics", auth.clone());
    assert!(matches!(
        route_control_request(&metrics, &security, &mut limiter, config, None, None, 0),
        ControlRoute::Metrics
    ));
    let health = get("/api/health", Vec::new());
    assert!(matches!(
        route_control_request(&health, &security, &mut limiter, config, None, None, 0),
        ControlRoute::Node
    ));
    let other = get("/apix/control/stats", auth);
    assert!(matches!(
        route_control_request(&other, &security, &mut limiter, config, None, None, 0),
        ControlRoute::Node
    ));
}
