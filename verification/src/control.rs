//! How the control server answers a request: which checks refuse it, which handler
//! serves it, and the parameters the DHT handlers read from the query string.
use vstd::prelude::*;
use crate::config::DhtRunnerConfig;
use crate::http::ControlRequest;
use crate::numparse::{parse_unsigned, parse_usize};
use crate::query::{query_param, query_param_value};
use crate::ratelimit::{check_allows, entry_after_check, request_is_within_rate_limit, ClientKey, RateLimiter};
use crate::response::{text_content_type, ControlHttpResponse};
use crate::security::{
    authorized, is_health_probe, request_is_authorized, route_path, route_path_chars, ControlSecurityConfig,
};
use crate::strs::starts_with;
use crate::text::{chars_equal_str, chars_of, lower, lower_chars, push_str, string_from_chars, trim, trim_chars};
use crate::config::limit_enabled;

verus! {

/// Where a control request goes.
#[derive(Debug, Clone)]
pub enum ControlRoute {
    /// Refused before any handler, with this response.
    Refused(ControlHttpResponse),
    /// The node's own request handler (also for `OPTIONS` preflights).
    Node,
    /// `GET /control/stats`.
    Stats,
    /// `GET /control/metrics`.
    Metrics,
    /// `GET /dht/find-value`.
    DhtFindValue,
    /// `GET /dht/maintenance`.
    DhtMaintenance,
    /// `GET /dht/replicate`.
    DhtReplicate,
    /// `GET /dht/routing-refresh`.
    DhtRoutingRefresh,
}

/// The value of the request's `origin` header, if any.
pub open spec fn request_origin(request: &ControlRequest) -> Option<Seq<char>> {
    match request.header_index("origin"@) {
        Some(i) => Some(request.headers@[i].1@),
        None => None,
    }
}

/// Whether the CORS allow list lets a request from `origin` through.
pub open spec fn origin_allowed(security: &ControlSecurityConfig, origin: Option<Seq<char>>) -> bool {
    security.cors_allow_origins@.len() == 0 || origin is None || exists|i: int|
        0 <= i < security.cors_allow_origins@.len() && (security.cors_allow_origins@[i]@ == "*"@
            || security.cors_allow_origins@[i]@ == origin.unwrap())
}

/// Whether the request passes the rate limit, given the limiter's budgets before it.
pub open spec fn within_limit(
    request: &ControlRequest,
    budgets: Map<ClientKey, crate::ratelimit::RateLimitEntry>,
    rate_limit: crate::config::RateLimitConfig,
    peer_ip: Option<ClientKey>,
    now: u128,
) -> bool {
    if is_health_probe(request) || !limit_enabled(rate_limit) {
        true
    } else {
        match peer_ip {
            None => true,
            Some(ip) => check_allows(if budgets.dom().contains(ip) { Some(budgets[ip]) } else { None }, now, rate_limit),
        }
    }
}

/// The budgets after the request is counted (where it reaches the limiter at all).
pub open spec fn budgets_after(
    request: &ControlRequest,
    budgets: Map<ClientKey, crate::ratelimit::RateLimitEntry>,
    rate_limit: crate::config::RateLimitConfig,
    peer_ip: Option<ClientKey>,
    now: u128,
) -> Map<ClientKey, crate::ratelimit::RateLimitEntry> {
    if is_health_probe(request) || !limit_enabled(rate_limit) {
        budgets
    } else {
        match peer_ip {
            None => budgets,
            Some(ip) => budgets.insert(ip, entry_after_check(if budgets.dom().contains(ip) { Some(budgets[ip]) } else { None }, now, rate_limit)),
        }
    }
}

/// The route of a request that passed the checks: the node for preflights, the named
/// `GET` endpoints by path prefix (a path under `/api/` taken without it), the node for
/// everything else.
pub open spec fn handler_route(request: &ControlRequest) -> ControlRoute {
    let get = request.method@ == "GET"@;
    let p = route_path(request.path@);
    if get && starts_with(p, "/control/stats"@) {
        ControlRoute::Stats
    } else if get && starts_with(p, "/control/metrics"@) {
        ControlRoute::Metrics
    } else if get && starts_with(p, "/dht/find-value"@) {
        ControlRoute::DhtFindValue
    } else if get && starts_with(p, "/dht/maintenance"@) {
        ControlRoute::DhtMaintenance
    } else if get && starts_with(p, "/dht/replicate"@) {
        ControlRoute::DhtReplicate
    } else if get && starts_with(p, "/dht/routing-refresh"@) {
        ControlRoute::DhtRoutingRefresh
    } else {
        ControlRoute::Node
    }
}

/// A refusal with its status and plain-text body.
pub open spec fn is_refusal(r: ControlRoute, status: u16, body: Seq<char>) -> bool {
    r matches ControlRoute::Refused(resp) && resp.status == status && resp.content_type@ == text_content_type() && resp.body@ == body
}

fn route_for_handler(request: &ControlRequest) -> (r: ControlRoute)
    ensures
        r == handler_route(request),
{
    let m = chars_of(request.method.as_str());
    let full = chars_of(request.path.as_str());
    let p = route_path_chars(full.as_slice());
    let get = chars_equal_str(m.as_slice(), "GET");
    if get && crate::strs::starts_with_str(p.as_slice(), "/control/stats") {
        ControlRoute::Stats
    } else if get && crate::strs::starts_with_str(p.as_slice(), "/control/metrics") {
        ControlRoute::Metrics
    } else if get && crate::strs::starts_with_str(p.as_slice(), "/dht/find-value") {
        ControlRoute::DhtFindValue
    } else if get && crate::strs::starts_with_str(p.as_slice(), "/dht/maintenance") {
        ControlRoute::DhtMaintenance
    } else if get && crate::strs::starts_with_str(p.as_slice(), "/dht/replicate") {
        ControlRoute::DhtReplicate
    } else if get && crate::strs::starts_with_str(p.as_slice(), "/dht/routing-refresh") {
        ControlRoute::DhtRoutingRefresh
    } else {
        ControlRoute::Node
    }
}

/// Decides where a control request goes, counting it against its client's budget: a
/// disallowed origin gets 403, an exhausted budget 429, a preflight goes to the node, an
/// unauthorized request gets 401, and the rest go by method and path.
pub fn route_control_request(
    request: &ControlRequest,
    security: &ControlSecurityConfig,
    rate_limiter: &mut RateLimiter,
    rate_limit: crate::config::RateLimitConfig,
    peer_ip: Option<ClientKey>,
    peer_is_loopback: Option<bool>,
    now: u128,
) -> (r: ControlRoute)
    requires
        old(rate_limiter).wf(),
    ensures
        final(rate_limiter).wf(),
        !origin_allowed(security, request_origin(request)) ==> is_refusal(r, 403, "cors origin not allowed"@)
            && final(rate_limiter).budgets() == old(rate_limiter).budgets(),
        origin_allowed(security, request_origin(request)) ==> {
            &&& final(rate_limiter).budgets() == budgets_after(request, old(rate_limiter).budgets(), rate_limit, peer_ip, now)
            &&& if !within_limit(request, old(rate_limiter).budgets(), rate_limit, peer_ip, now) {
                is_refusal(r, 429, "rate limit exceeded"@)
            } else if request.method@ == "OPTIONS"@ {
                r is Node
            } else if !authorized(request, security, peer_is_loopback) {
                is_refusal(r, 401, "unauthorized"@)
            } else {
                r == handler_route(request)
            }
        },
{
    let origin = request.header("origin");
    if !security.allows_origin(origin) {
        return ControlRoute::Refused(ControlHttpResponse::text(403, "cors origin not allowed"));
    }
    if !request_is_within_rate_limit(request, peer_ip, rate_limiter, rate_limit, now) {
        return ControlRoute::Refused(ControlHttpResponse::text(429, "rate limit exceeded"));
    }
    let m = chars_of(request.method.as_str());
    if chars_equal_str(m.as_slice(), "OPTIONS") {
        return ControlRoute::Node;
    }
    if !request_is_authorized(request, security, peer_is_loopback) {
        return ControlRoute::Refused(ControlHttpResponse::text(401, "unauthorized"));
    }
    route_for_handler(request)
}

/// A numeric query parameter as the DHT handlers read it: the parameter parsed as a
/// `usize`, `default` where it is absent or does not parse, then clamped to `lo..=hi`.
pub open spec fn usize_param(path: Seq<char>, name: Seq<char>, default: usize, lo: usize, hi: usize) -> usize {
    let v: usize = match query_param(path, name) {
        Some(text) => match parse_unsigned(text, usize::MAX as nat) {
            Ok(n) => n as usize,
            Err(_) => default,
        },
        None => default,
    };
    if v < lo { lo } else if v > hi { hi } else { v }
}

/// Reads a numeric query parameter, with a default and bounds.
pub fn query_usize_param(path: &str, name: &str, default: usize, lo: usize, hi: usize) -> (r: usize)
    requires
        lo <= hi,
    ensures
        r == usize_param(path@, name@, default, lo, hi),
{
    let v: usize = match query_param_value(path, name) {
        Some(text) => {
            let t = chars_of(text.as_str());
            match parse_usize(t.as_slice()) {
                Ok(n) => n,
                Err(_) => default,
            }
        },
        None => default,
    };
    if v < lo { lo } else if v > hi { hi } else { v }
}

/// The replication factor of a `/dht/replicate` or `/dht/maintenance` run: `factor`,
/// by default the runner's, within 1..=64.
pub fn replication_run_factor(path: &str, runner: &DhtRunnerConfig) -> (r: usize)
    ensures
        r == usize_param(path@, "factor"@, runner.replication_factor, 1, 64),
{
    query_usize_param(path, "factor", runner.replication_factor, 1, 64)
}

/// The node limit and target count of a routing refresh run: `limit` (by default the
/// runner's, within 1..=64) and `max_targets` (by default the runner's, within 1..=256).
pub fn routing_refresh_run_params(path: &str, runner: &DhtRunnerConfig) -> (r: (usize, usize))
    ensures
        r.0 == usize_param(path@, "limit"@, runner.routing_refresh_limit, 1, 64),
        r.1 == usize_param(path@, "max_targets"@, runner.routing_refresh_max_targets, 1, 256),
{
    (
        query_usize_param(path, "limit", runner.routing_refresh_limit, 1, 64),
        query_usize_param(path, "max_targets", runner.routing_refresh_max_targets, 1, 256),
    )
}

/// The record limit, peer budget and parallelism of a FindValue run: `limit` (by default
/// the runner's refresh limit, within 1..=64), `max_peers` (by default its target count,
/// within 1..=64) and `alpha` (by default 3, within 1..=16).
pub fn find_value_run_params(path: &str, runner: &DhtRunnerConfig) -> (r: (usize, usize, usize))
    ensures
        r.0 == usize_param(path@, "limit"@, runner.routing_refresh_limit, 1, 64),
        r.1 == usize_param(path@, "max_peers"@, runner.routing_refresh_max_targets, 1, 64),
        r.2 == usize_param(path@, "alpha"@, 3, 1, 16),
{
    (
        query_usize_param(path, "limit", runner.routing_refresh_limit, 1, 64),
        query_usize_param(path, "max_peers", runner.routing_refresh_max_targets, 1, 64),
        query_usize_param(path, "alpha", 3, 1, 16),
    )
}

/// How a FindValue run names its record.
#[derive(Debug, Clone, Copy, PartialEq, Eq, Structural)]
pub enum KeyQueryKind {
    /// A record key in hex (`key=`).
    Hex,
    /// The public announcement of a peer.
    PublicPeer,
    /// The prekey bundle of a user.
    Prekey,
    /// The mailbox hint of a user.
    MailboxHint,
}

/// Which record a FindValue run looks up, as its query names it.
#[derive(Debug, Clone)]
pub struct FindValueKeyQuery {
    pub kind: KeyQueryKind,
    pub value: String,
}

/// The kind a normalized `kind` parameter names, if any.
pub open spec fn kind_for_name(k: Seq<char>) -> Option<KeyQueryKind> {
    if k == "public-peer"@ || k == "public_peer"@ || k == "peer"@ {
        Some(KeyQueryKind::PublicPeer)
    } else if k == "prekey"@ || k == "pre-key"@ {
        Some(KeyQueryKind::Prekey)
    } else if k == "mailbox-hint"@ || k == "mailbox_hint"@ || k == "mailbox"@ {
        Some(KeyQueryKind::MailboxHint)
    } else {
        None
    }
}

/// What the query of a FindValue run names: `key` wins; otherwise `kind` and a non-blank
/// `value` (trimmed), the kind compared trimmed and ASCII lower-cased.
pub open spec fn key_query(path: Seq<char>) -> Result<(KeyQueryKind, Seq<char>), Seq<char>> {
    match query_param(path, "key"@) {
        Some(k) => Ok((KeyQueryKind::Hex, k)),
        None => match query_param(path, "kind"@) {
            None => Err("missing key or kind"@),
            Some(kind) => match query_param(path, "value"@) {
                None => Err("missing value"@),
                Some(value) => if trim(value).len() == 0 {
                    Err("missing value"@)
                } else {
                    match kind_for_name(lower(trim(kind))) {
                        Some(k) => Ok((k, trim(value))),
                        None => Err("unsupported dht key kind; expected public-peer, prekey, or mailbox-hint"@),
                    }
                },
            },
        },
    }
}

fn err_text(s: &str) -> (r: Result<FindValueKeyQuery, String>)
    ensures
        r matches Err(e) && e@ == s@,
{
    let mut e = String::new();
    push_str(&mut e, s);
    Err(e)
}

/// Reads which record a FindValue run looks up from its request path.
pub fn find_value_key_query(path: &str) -> (r: Result<FindValueKeyQuery, String>)
    ensures
        match (r, key_query(path@)) {
            (Ok(q), Ok((k, v))) => q.kind == k && q.value@ == v,
            (Err(e), Err(f)) => e@ == f,
            _ => false,
        },
{
    if let Some(k) = query_param_value(path, "key") {
        return Ok(FindValueKeyQuery { kind: KeyQueryKind::Hex, value: k });
    }
    let kind = match query_param_value(path, "kind") {
        Some(k) => k,
        None => {
            return err_text("missing key or kind");
        },
    };
    let value = match query_param_value(path, "value") {
        Some(v) => v,
        None => {
            return err_text("missing value");
        },
    };
    let vc = chars_of(value.as_str());
    let v = trim_chars(vc.as_slice());
    if v.len() == 0 {
        return err_text("missing value");
    }
    let kc = chars_of(kind.as_str());
    let kt = trim_chars(kc.as_slice());
    let k = lower_chars(kt.as_slice());
    proof {
        reveal_strlit("public-peer");
        reveal_strlit("public_peer");
        reveal_strlit("peer");
        reveal_strlit("prekey");
        reveal_strlit("pre-key");
        reveal_strlit("mailbox-hint");
        reveal_strlit("mailbox_hint");
        reveal_strlit("mailbox");
    }
    let value = string_from_chars(v.as_slice());
    if chars_equal_str(k.as_slice(), "public-peer") || chars_equal_str(k.as_slice(), "public_peer") || chars_equal_str(k.as_slice(), "peer") {
        Ok(FindValueKeyQuery { kind: KeyQueryKind::PublicPeer, value })
    } else if chars_equal_str(k.as_slice(), "prekey") || chars_equal_str(k.as_slice(), "pre-key") {
        Ok(FindValueKeyQuery { kind: KeyQueryKind::Prekey, value })
    } else if chars_equal_str(k.as_slice(), "mailbox-hint") || chars_equal_str(k.as_slice(), "mailbox_hint") || chars_equal_str(k.as_slice(), "mailbox") {
        Ok(FindValueKeyQuery { kind: KeyQueryKind::MailboxHint, value })
    } else {
        err_text("unsupported dht key kind; expected public-peer, prekey, or mailbox-hint")
    }
}

/// A health probe is never rate limited nor asked for credentials: from an allowed origin
/// it always reaches the node's handler.
pub proof fn lemma_health_probe_reaches_node(
    request: &ControlRequest,
    security: &ControlSecurityConfig,
    budgets: Map<ClientKey, crate::ratelimit::RateLimitEntry>,
    rate_limit: crate::config::RateLimitConfig,
    peer_ip: Option<ClientKey>,
    peer_is_loopback: Option<bool>,
    now: u128,
)
    requires
        is_health_probe(request),
    ensures
        within_limit(request, budgets, rate_limit, peer_ip, now),
        budgets_after(request, budgets, rate_limit, peer_ip, now) == budgets,
        authorized(request, security, peer_is_loopback),
        handler_route(request) is Node,
{
    reveal_strlit("GET");
    reveal_strlit("/health");
    reveal_strlit("/control/stats");
    reveal_strlit("/control/metrics");
    reveal_strlit("/dht/find-value");
    reveal_strlit("/dht/maintenance");
    reveal_strlit("/dht/replicate");
    reveal_strlit("/dht/routing-refresh");
    let p = route_path(request.path@);
    assert(p.take(7) == "/health"@);
    assert(!starts_with(p, "/control/stats"@)) by {
        if starts_with(p, "/control/stats"@) {
            assert(p[1] == "/control/stats"@[1]);
            assert(p[1] == "/health"@[1]);
        }
    }
    assert(!starts_with(p, "/control/metrics"@)) by {
        if starts_with(p, "/control/metrics"@) {
            assert(p[1] == "/control/metrics"@[1]);
            assert(p[1] == "/health"@[1]);
        }
    }
    assert(!starts_with(p, "/dht/find-value"@)) by {
        if starts_with(p, "/dht/find-value"@) {
            assert(p[1] == "/dht/find-value"@[1]);
            assert(p[1] == "/health"@[1]);
        }
    }
    assert(!starts_with(p, "/dht/maintenance"@)) by {
        if starts_with(p, "/dht/maintenance"@) {
            assert(p[1] == "/dht/maintenance"@[1]);
            assert(p[1] == "/health"@[1]);
        }
    }
    assert(!starts_with(p, "/dht/replicate"@)) by {
        if starts_with(p, "/dht/replicate"@) {
            assert(p[1] == "/dht/replicate"@[1]);
            assert(p[1] == "/health"@[1]);
        }
    }
    assert(!starts_with(p, "/dht/routing-refresh"@)) by {
        if starts_with(p, "/dht/routing-refresh"@) {
            assert(p[1] == "/dht/routing-refresh"@[1]);
            assert(p[1] == "/health"@[1]);
        }
    }
}

} // verus!
