//! Choosing and scoring the peers that the DHT maintenance runners talk to.
use vstd::prelude::*;
use crate::backoff::{
    backoff_delay, sync_backoff_delay_seconds, DHT_PEER_FAILURE_BACKOFF_BASE_SECONDS,
    DHT_PEER_FAILURE_BACKOFF_MAX_SECONDS,
};
use crate::config::{opt_view, DhtTransportKind};
use crate::sync_status::{
    after_failure, after_success, quarantined, status_of, sync_peer_is_dht_quarantined,
    updated_entry, NodeMergeStats, NodeSyncPeerStatus, NodeSyncStatus,
};
use crate::p2p::{multiaddr_parse_error, parse_multiaddr, parse_peer_id, peer_id_parse_error};
use crate::strs::{find_chars, first_occurrence, split_once_str, starts_with, starts_with_chars, starts_with_str};
use crate::text::{chars_equal, chars_of, push_str, string_from_chars};

verus! {

/// A peer the runners can reach: its control URL, the bearer token to present, and its
/// peer id where known.
#[derive(Debug, Clone)]
pub struct SyncPeerConfig {
    pub url: String,
    pub token: Option<String>,
    pub peer_id: Option<String>,
}

/// A peer from the Kademlia routing table: its announced peer id and addresses, and its
/// node id in the key space.
#[derive(Debug, Clone)]
pub struct RoutingPeer {
    pub peer_id: String,
    pub addresses: Vec<String>,
    pub node_id: [u8; 32],
}

/// The plain values of a peer configuration: URL, token, peer id.
pub open spec fn config_view(c: SyncPeerConfig) -> (Seq<char>, Option<Seq<char>>, Option<Seq<char>>) {
    (c.url@, opt_view(c.token), opt_view(c.peer_id))
}

/// A copy of an optional string.
pub fn clone_opt(x: &Option<String>) -> (r: Option<String>)
    ensures
        opt_view(r) == opt_view(*x),
{
    match x {
        Some(s) => Some(s.clone()),
        None => None,
    }
}

/// A copy of a peer configuration.
pub fn copy_config(c: &SyncPeerConfig) -> (r: SyncPeerConfig)
    ensures
        config_view(r) == config_view(*c),
{
    SyncPeerConfig { url: c.url.clone(), token: clone_opt(&c.token), peer_id: clone_opt(&c.peer_id) }
}

/// How a peer ranks for the runners: fewer consecutive failures first, then fewer failures,
/// then the older last error; a peer with no recorded health ranks as all zeros.
pub open spec fn health_key(sync: NodeSyncStatus, url: Seq<char>) -> (u32, u64, u64) {
    match status_of(sync, url) {
        Some(s) => (s.consecutive_failures, s.failures, match s.last_error_at {
            Some(t) => t,
            None => 0,
        }),
        None => (0, 0, 0),
    }
}

/// The ranking key of `peer` under the recorded sync health.
pub fn dht_peer_health_sort_key(sync_status: &NodeSyncStatus, peer: &SyncPeerConfig) -> (r: (u32, u64, u64))
    ensures
        r == health_key(*sync_status, peer.url@),
{
    match sync_status.get(peer.url.as_str()) {
        Some(s) => (s.consecutive_failures, s.failures, match s.last_error_at {
            Some(t) => t,
            None => 0,
        }),
        None => (0, 0, 0),
    }
}

/// A peer's ranking key reads its recorded health: its consecutive failures, its total
/// failures, and the time of its last error (0 where it has none); a peer with nothing
/// recorded ranks with the key (0, 0, 0).
pub proof fn lemma_health_key_reads_status(sync: NodeSyncStatus, url: Seq<char>)
    ensures
        status_of(sync, url) matches Some(s) ==> {
            &&& health_key(sync, url).0 == s.consecutive_failures
            &&& health_key(sync, url).1 == s.failures
            &&& s.last_error_at matches Some(t) ==> health_key(sync, url).2 == t
            &&& s.last_error_at is None ==> health_key(sync, url).2 == 0
        },
        status_of(sync, url) is None ==> health_key(sync, url) == (0u32, 0u64, 0u64),
{
}

/// Of two peers with recorded health, the runners put first the one with fewer consecutive
/// failures; with as many consecutive failures, the one with fewer failures in all; with
/// as many of both, the one whose last error is older.
pub proof fn lemma_health_ranking(sync: NodeSyncStatus, a: Seq<char>, b: Seq<char>)
    requires
        status_of(sync, a) is Some,
        status_of(sync, b) is Some,
    ensures
        ({
            let sa = status_of(sync, a).unwrap();
            let sb = status_of(sync, b).unwrap();
            let ta: u64 = match sa.last_error_at { Some(t) => t, None => 0 };
            let tb: u64 = match sb.last_error_at { Some(t) => t, None => 0 };
            &&& sa.consecutive_failures < sb.consecutive_failures ==> key_lt(health_key(sync, a), health_key(sync, b))
            &&& sa.consecutive_failures == sb.consecutive_failures && sa.failures < sb.failures
                ==> key_lt(health_key(sync, a), health_key(sync, b))
            &&& sa.consecutive_failures == sb.consecutive_failures && sa.failures == sb.failures && ta < tb
                ==> key_lt(health_key(sync, a), health_key(sync, b))
            &&& sa.consecutive_failures == sb.consecutive_failures && sa.failures == sb.failures && ta == tb
                ==> !key_lt(health_key(sync, a), health_key(sync, b)) && !key_lt(health_key(sync, b), health_key(sync, a))
        }),
{
}

/// Whether the recorded health of `url` keeps it out of the runners at `now`.
pub open spec fn peer_quarantined(sync: NodeSyncStatus, url: Seq<char>, threshold: u32, now: u64) -> bool {
    match status_of(sync, url) {
        Some(s) => quarantined(s, now, threshold),
        None => false,
    }
}

/// Whether the runners skip `peer` at `now`.
pub fn dht_peer_is_quarantined(sync_status: &NodeSyncStatus, peer: &SyncPeerConfig, threshold: u32, now: u64) -> (r: bool)
    ensures
        r == peer_quarantined(*sync_status, peer.url@, threshold, now),
{
    match sync_status.get(peer.url.as_str()) {
        Some(s) => sync_peer_is_dht_quarantined(s, now, threshold),
        None => false,
    }
}

/// The key under which a query remembers a peer: its URL and peer id.
pub fn dht_query_peer_dedup_key(peer: &SyncPeerConfig) -> (r: (String, Option<String>))
    ensures
        r.0@ == peer.url@,
        opt_view(r.1) == opt_view(peer.peer_id),
{
    (peer.url.clone(), clone_opt(&peer.peer_id))
}

/// A candidate is the seed itself when the URLs agree, or when both have peer ids and
/// those agree.
pub open spec fn is_seed_candidate(seed: SyncPeerConfig, candidate: SyncPeerConfig) -> bool {
    ||| candidate.url@ == seed.url@
    ||| (candidate.peer_id matches Some(c) && seed.peer_id matches Some(s) && c@ == s@)
}

/// Whether `candidate` names the seed peer again.
pub fn candidate_is_seed_peer(seed_peer: &SyncPeerConfig, candidate: &SyncPeerConfig) -> (r: bool)
    ensures
        r == is_seed_candidate(*seed_peer, *candidate),
{
    let cu = chars_of(candidate.url.as_str());
    let su = chars_of(seed_peer.url.as_str());
    if chars_equal(cu.as_slice(), su.as_slice()) {
        return true;
    }
    match (&candidate.peer_id, &seed_peer.peer_id) {
        (Some(c), Some(s)) => {
            let cc = chars_of(c.as_str());
            let sc = chars_of(s.as_str());
            chars_equal(cc.as_slice(), sc.as_slice())
        },
        _ => false,
    }
}

/// Nothing merged: what a bare DHT exchange contributes to a peer's sync record.
pub open spec fn no_merge() -> NodeMergeStats {
    NodeMergeStats { peers: 0, mailbox_deliveries: 0, prekey_bundles: 0, signed_one_time_prekey_records: 0, dht_records: 0 }
}

/// How a successful DHT exchange at `now` changes a peer's health: a success with nothing
/// merged, and the peer due again at `now`.
pub open spec fn after_dht_success(b: NodeSyncPeerStatus, a: NodeSyncPeerStatus, now: u64) -> bool {
    &&& a.next_attempt_at == Some(now)
    &&& after_success(b, NodeSyncPeerStatus { next_attempt_at: b.next_attempt_at, ..a }, no_merge(), now)
}

/// When a peer is next due after a failure at `now` that left it with `failures`
/// consecutive failures: `now` plus the backoff, saturating.
pub open spec fn retry_at(now: u64, failures: u32) -> u64 {
    let due = now as int + backoff_delay(DHT_PEER_FAILURE_BACKOFF_BASE_SECONDS, DHT_PEER_FAILURE_BACKOFF_MAX_SECONDS, failures);
    if due > u64::MAX { u64::MAX } else { due as u64 }
}

/// How a failed DHT exchange at `now` changes a peer's health: a failure, and the next
/// attempt put off by the backoff for its new run of consecutive failures.
pub open spec fn after_dht_failure(b: NodeSyncPeerStatus, a: NodeSyncPeerStatus, error: Seq<char>, now: u64) -> bool {
    &&& a.next_attempt_at == Some(retry_at(now, a.consecutive_failures))
    &&& after_failure(b, NodeSyncPeerStatus { next_attempt_at: b.next_attempt_at, ..a }, error, now)
}

/// Records a successful DHT exchange with `peer` at `now`.
pub fn record_dht_peer_success(sync_status: &mut NodeSyncStatus, peer: &SyncPeerConfig, now: u64)
    ensures
        updated_entry(old(sync_status).peers@, final(sync_status).peers@, peer.url@, |b: NodeSyncPeerStatus, a: NodeSyncPeerStatus| after_dht_success(b, a, now)),
        old(sync_status).wf() ==> final(sync_status).wf(),
{
    let ghost s0 = sync_status.peers@;
    let stats = NodeMergeStats { peers: 0, mailbox_deliveries: 0, prekey_bundles: 0, signed_one_time_prekey_records: 0, dht_records: 0 };
    sync_status.record_success(peer.url.as_str(), stats, now);
    let ghost s1 = sync_status.peers@;
    sync_status.record_next_attempt(peer.url.as_str(), now);
    proof {
        let f = |b: NodeSyncPeerStatus, a: NodeSyncPeerStatus| after_success(b, a, stats, now);
        let g = |b: NodeSyncPeerStatus, a: NodeSyncPeerStatus| a == (NodeSyncPeerStatus { next_attempt_at: Some(now), ..b });
        let h = |b: NodeSyncPeerStatus, a: NodeSyncPeerStatus| after_dht_success(b, a, now);
        assert forall|b: NodeSyncPeerStatus, m: NodeSyncPeerStatus, a: NodeSyncPeerStatus| #[trigger] f(b, m) && #[trigger] g(m, a) implies h(b, a) by {
            assert(NodeSyncPeerStatus { next_attempt_at: b.next_attempt_at, ..a } == m);
        }
        crate::sync_status::lemma_updated_entry_compose(s0, s1, sync_status.peers@, peer.url@, f, g, h);
    }
}

/// Records a failed DHT exchange with `peer` at `now`, and schedules its next attempt after
/// the backoff for its consecutive failures (30 s, doubling, at most 600 s).
pub fn record_dht_peer_failure(sync_status: &mut NodeSyncStatus, peer: &SyncPeerConfig, error: &str, now: u64)
    ensures
        updated_entry(old(sync_status).peers@, final(sync_status).peers@, peer.url@, |b: NodeSyncPeerStatus, a: NodeSyncPeerStatus| after_dht_failure(b, a, error@, now)),
        old(sync_status).wf() ==> final(sync_status).wf(),
{
    let ghost s0 = sync_status.peers@;
    sync_status.record_failure(peer.url.as_str(), error, now);
    let ghost s1 = sync_status.peers@;
    proof {
        crate::sync_status::lemma_updated_entry_index(s0, s1, peer.url@, |b: NodeSyncPeerStatus, a: NodeSyncPeerStatus| after_failure(b, a, error@, now));
    }
    let failures: u32 = match sync_status.get(peer.url.as_str()) {
        Some(s) => s.consecutive_failures,
        None => 1,
    };
    let delay = sync_backoff_delay_seconds(DHT_PEER_FAILURE_BACKOFF_BASE_SECONDS, DHT_PEER_FAILURE_BACKOFF_MAX_SECONDS, failures);
    let at = now.saturating_add(delay);
    sync_status.record_next_attempt(peer.url.as_str(), at);
    proof {
        let f = |b: NodeSyncPeerStatus, a: NodeSyncPeerStatus| after_failure(b, a, error@, now);
        let g0 = |b: NodeSyncPeerStatus, a: NodeSyncPeerStatus| a == (NodeSyncPeerStatus { next_attempt_at: Some(at), ..b });
        let g = |b: NodeSyncPeerStatus, a: NodeSyncPeerStatus| a == (NodeSyncPeerStatus { next_attempt_at: Some(retry_at(now, b.consecutive_failures)), ..b });
        let h = |b: NodeSyncPeerStatus, a: NodeSyncPeerStatus| after_dht_failure(b, a, error@, now);
        let i = match crate::sync_status::peer_index(s0, peer.url@) {
            Some(i) => i,
            None => s0.len() as int,
        };
        let s2 = sync_status.peers@;
        assert(failures == s1[i].1.consecutive_failures);
        assert(at == retry_at(now, failures));
        assert(g0(s1[i].1, s2[i].1));
        assert(updated_entry(s1, s2, peer.url@, g));
        assert forall|b: NodeSyncPeerStatus, m: NodeSyncPeerStatus, a: NodeSyncPeerStatus| #[trigger] f(b, m) && #[trigger] g(m, a) implies h(b, a) by {
            assert(NodeSyncPeerStatus { next_attempt_at: b.next_attempt_at, ..a } == m);
        }
        crate::sync_status::lemma_updated_entry_compose(s0, s1, sync_status.peers@, peer.url@, f, g, h);
    }
}

/// The plain values of a peer configuration, where there is one.
pub open spec fn opt_config_view(c: Option<SyncPeerConfig>) -> Option<(Seq<char>, Option<Seq<char>>, Option<Seq<char>>)> {
    match c {
        Some(c) => Some(config_view(c)),
        None => None,
    }
}

/// `i` is the first of the addresses that `pred` accepts.
pub open spec fn is_first_address(addrs: Seq<String>, pred: spec_fn(Seq<char>) -> bool, i: int) -> bool {
    &&& 0 <= i < addrs.len()
    &&& pred(addrs[i]@)
    &&& forall|j: int| 0 <= j < i ==> !pred(#[trigger] addrs[j]@)
}

/// The first of the addresses that `pred` accepts, if any (`Iterator::find`).
pub open spec fn first_address(addrs: Seq<String>, pred: spec_fn(Seq<char>) -> bool) -> Option<int> {
    if exists|i: int| is_first_address(addrs, pred, i) {
        Some(choose|i: int| is_first_address(addrs, pred, i))
    } else {
        None
    }
}

proof fn lemma_first_address(addrs: Seq<String>, pred: spec_fn(Seq<char>) -> bool, i: int)
    requires
        is_first_address(addrs, pred, i),
    ensures
        first_address(addrs, pred) == Some(i),
{
    let k = choose|k: int| is_first_address(addrs, pred, k);
    assert(k == i) by {
        if k < i {
            assert(!pred(addrs[k]@));
        } else if k > i {
            assert(!pred(addrs[i]@));
        }
    }
}

proof fn lemma_no_address(addrs: Seq<String>, pred: spec_fn(Seq<char>) -> bool)
    requires
        forall|j: int| 0 <= j < addrs.len() ==> !pred(#[trigger] addrs[j]@),
    ensures
        first_address(addrs, pred) is None,
{
}

/// Whether an address starts with `prefix`.
pub open spec fn has_prefix(prefix: Seq<char>) -> spec_fn(Seq<char>) -> bool {
    |a: Seq<char>| starts_with(a, prefix)
}

/// Whether an address parses as a multiaddress.
pub open spec fn is_multiaddr() -> spec_fn(Seq<char>) -> bool {
    |a: Seq<char>| multiaddr_parse_error(a) is None
}

/// The first address that starts with `prefix`.
fn find_address_with_prefix(addrs: &Vec<String>, prefix: &[char]) -> (r: Option<usize>)
    ensures
        match r {
            Some(i) => first_address(addrs@, has_prefix(prefix@)) == Some(i as int) && i < addrs@.len(),
            None => first_address(addrs@, has_prefix(prefix@)) is None,
        },
{
    let ghost pred = has_prefix(prefix@);
    let mut i: usize = 0;
    while i < addrs.len()
        invariant
            i <= addrs@.len(),
            pred == has_prefix(prefix@),
            forall|j: int| 0 <= j < i ==> !pred(#[trigger] addrs@[j]@),
        decreases addrs@.len() - i,
    {
        let a = chars_of(addrs[i].as_str());
        if starts_with_chars(a.as_slice(), prefix) {
            proof {
                lemma_first_address(addrs@, pred, i as int);
            }
            return Some(i);
        }
        i += 1;
    }
    proof {
        lemma_no_address(addrs@, pred);
    }
    None
}

/// The first address that parses as a multiaddress.
fn find_multiaddr(addrs: &Vec<String>) -> (r: Option<usize>)
    ensures
        match r {
            Some(i) => first_address(addrs@, is_multiaddr()) == Some(i as int) && i < addrs@.len(),
            None => first_address(addrs@, is_multiaddr()) is None,
        },
{
    let ghost pred = is_multiaddr();
    let mut i: usize = 0;
    while i < addrs.len()
        invariant
            i <= addrs@.len(),
            pred == is_multiaddr(),
            forall|j: int| 0 <= j < i ==> !pred(#[trigger] addrs@[j]@),
        decreases addrs@.len() - i,
    {
        if parse_multiaddr(addrs[i].as_str()).is_ok() {
            proof {
                lemma_first_address(addrs@, pred, i as int);
            }
            return Some(i);
        }
        i += 1;
    }
    proof {
        lemma_no_address(addrs@, pred);
    }
    None
}

/// `s` without its trailing slashes (`trim_end_matches('/')`).
pub open spec fn strip_trailing_slashes(s: Seq<char>) -> Seq<char>
    decreases s.len(),
{
    if s.len() > 0 && s.last() == '/' {
        strip_trailing_slashes(s.drop_last())
    } else {
        s
    }
}

fn trim_trailing_slashes(s: &[char]) -> (r: Vec<char>)
    ensures
        r@ == strip_trailing_slashes(s@),
{
    let mut j: usize = s.len();
    assert(s@.take(j as int) =~= s@);
    while j > 0 && s[j - 1] == '/'
        invariant
            j <= s@.len(),
            strip_trailing_slashes(s@) == strip_trailing_slashes(s@.take(j as int)),
        decreases j,
    {
        assert(s@.take(j as int).drop_last() =~= s@.take(j - 1));
        j -= 1;
    }
    let mut r: Vec<char> = Vec::new();
    let mut k: usize = 0;
    while k < j
        invariant
            k <= j <= s@.len(),
            r@ == s@.take(k as int),
        decreases j - k,
    {
        r.push(s[k]);
        assert(s@.take(k as int + 1) =~= s@.take(k as int).push(s@[k as int]));
        k += 1;
    }
    r
}

/// The control peer a routing peer gives over HTTP: its first `http://` address without
/// trailing slashes, no token (a token is only for operator-configured peers), its peer id.
pub open spec fn http_peer_config(p: RoutingPeer) -> Option<(Seq<char>, Option<Seq<char>>, Option<Seq<char>>)> {
    match first_address(p.addresses@, has_prefix("http://"@)) {
        Some(i) => Some((strip_trailing_slashes(p.addresses@[i]@), None, Some(p.peer_id@))),
        None => None,
    }
}

/// The HTTP control peer of a routing peer, if it announces an `http://` address.
pub fn sync_peer_config_from_http_routing_peer(peer: &RoutingPeer) -> (r: Option<SyncPeerConfig>)
    ensures
        opt_config_view(r) == http_peer_config(*peer),
{
    let prefix = chars_of("http://");
    match find_address_with_prefix(&peer.addresses, prefix.as_slice()) {
        Some(i) => {
            let a = chars_of(peer.addresses[i].as_str());
            let url = trim_trailing_slashes(a.as_slice());
            Some(SyncPeerConfig {
                url: string_from_chars(url.as_slice()),
                token: None,
                peer_id: Some(peer.peer_id.clone()),
            })
        },
        None => None,
    }
}

/// The libp2p peer a routing peer gives: where its peer id parses, its first address that
/// parses as a multiaddress behind `libp2p://`, no token, its peer id.
pub open spec fn libp2p_peer_config(p: RoutingPeer) -> Option<(Seq<char>, Option<Seq<char>>, Option<Seq<char>>)> {
    if peer_id_parse_error(p.peer_id@) is Some {
        None
    } else {
        match first_address(p.addresses@, is_multiaddr()) {
            Some(i) => Some(("libp2p://"@ + p.addresses@[i]@, None, Some(p.peer_id@))),
            None => None,
        }
    }
}

/// The libp2p peer of a routing peer, if its peer id and one of its addresses parse.
pub fn sync_peer_config_from_libp2p_routing_peer(peer: &RoutingPeer) -> (r: Option<SyncPeerConfig>)
    ensures
        opt_config_view(r) == libp2p_peer_config(*peer),
{
    if parse_peer_id(peer.peer_id.as_str()).is_err() {
        return None;
    }
    match find_multiaddr(&peer.addresses) {
        Some(i) => {
            let mut url = String::new();
            push_str(&mut url, "libp2p://");
            push_str(&mut url, peer.addresses[i].as_str());
            Some(SyncPeerConfig { url, token: None, peer_id: Some(peer.peer_id.clone()) })
        },
        None => None,
    }
}

/// The peer a routing peer gives when it was learnt from `seed`: over libp2p when the seed
/// is a libp2p peer; otherwise its first address in the seed URL's scheme, with no token (a
/// token is only for operator-configured peers, never for discovered ones) and the routing
/// peer's id (none where the seed URL has no scheme).
pub open spec fn seed_peer_config(seed: SyncPeerConfig, p: RoutingPeer) -> Option<(Seq<char>, Option<Seq<char>>, Option<Seq<char>>)> {
    if starts_with(seed.url@, "libp2p://"@) {
        libp2p_peer_config(p)
    } else {
        match split_once_str(seed.url@, "://"@) {
            Some((scheme, _)) => match first_address(p.addresses@, has_prefix(scheme + "://"@)) {
                Some(i) => Some((p.addresses@[i]@, None, Some(p.peer_id@))),
                None => None,
            },
            None => None,
        }
    }
}

/// The peer a routing peer learnt from `seed_peer` gives, reached the way the seed is.
pub fn sync_peer_config_from_routing_peer_for_seed(seed_peer: &SyncPeerConfig, routing_peer: &RoutingPeer) -> (r: Option<SyncPeerConfig>)
    ensures
        opt_config_view(r) == seed_peer_config(*seed_peer, *routing_peer),
{
    let su = chars_of(seed_peer.url.as_str());
    if starts_with_str(su.as_slice(), "libp2p://") {
        return sync_peer_config_from_libp2p_routing_peer(routing_peer);
    }
    let sep = chars_of("://");
    match find_chars(su.as_slice(), sep.as_slice()) {
        Some(k) => {
            let mut prefix: Vec<char> = Vec::new();
            let mut j: usize = 0;
            while j < k
                invariant
                    j <= k,
                    first_occurrence(su@, sep@) == Some(k as int),
                    k + sep@.len() <= su@.len(),
                    prefix@ == su@.take(j as int),
                decreases k - j,
            {
                prefix.push(su[j]);
                assert(su@.take(j as int + 1) =~= su@.take(j as int).push(su@[j as int]));
                j += 1;
            }
            let ghost scheme = prefix@;
            prefix.push(':');
            prefix.push('/');
            prefix.push('/');
            proof {
                reveal_strlit("://");
                assert(prefix@ =~= scheme + "://"@);
            }
            match find_address_with_prefix(&routing_peer.addresses, prefix.as_slice()) {
                Some(i) => Some(SyncPeerConfig {
                    url: routing_peer.addresses[i].clone(),
                    token: None,
                    peer_id: Some(routing_peer.peer_id.clone()),
                }),
                None => None,
            }
        },
        None => None,
    }
}

/// A routing peer is the seed again when its id is the seed's (or empty where the seed has
/// none), or when the peer it gives for the seed has the seed's URL.
pub open spec fn is_seed_routing_peer(seed: SyncPeerConfig, p: RoutingPeer) -> bool {
    ||| p.peer_id@ == (match seed.peer_id {
        Some(s) => s@,
        None => Seq::<char>::empty(),
    })
    ||| (seed_peer_config(seed, p) matches Some(c) && c.0 == seed.url@)
}

/// Whether `candidate` is the seed peer itself.
pub fn routing_peer_is_seed_peer(seed_peer: &SyncPeerConfig, candidate: &RoutingPeer) -> (r: bool)
    ensures
        r == is_seed_routing_peer(*seed_peer, *candidate),
{
    let cid = chars_of(candidate.peer_id.as_str());
    let sid: Vec<char> = match &seed_peer.peer_id {
        Some(s) => chars_of(s.as_str()),
        None => Vec::new(),
    };
    if chars_equal(cid.as_slice(), sid.as_slice()) {
        return true;
    }
    match sync_peer_config_from_routing_peer_for_seed(seed_peer, candidate) {
        Some(c) => {
            let cu = chars_of(c.url.as_str());
            let su = chars_of(seed_peer.url.as_str());
            chars_equal(cu.as_slice(), su.as_slice())
        },
        None => false,
    }
}

/// Byte-wise exclusive or of two node ids: their distance in the Kademlia metric.
pub open spec fn xor_bytes(a: Seq<u8>, b: Seq<u8>) -> Seq<u8> {
    Seq::new(a.len(), |i: int| a[i] ^ b[i])
}

/// `a` sorts strictly before `b`, byte by byte (the order of byte arrays).
pub open spec fn bytes_lt(a: Seq<u8>, b: Seq<u8>) -> bool
    decreases a.len(),
{
    if b.len() == 0 {
        false
    } else if a.len() == 0 {
        true
    } else if a[0] < b[0] {
        true
    } else if a[0] > b[0] {
        false
    } else {
        bytes_lt(a.drop_first(), b.drop_first())
    }
}

/// `candidate` is strictly closer to `target` than `reference` is.
pub open spec fn closer_to(candidate: Seq<u8>, reference: Seq<u8>, target: Seq<u8>) -> bool {
    bytes_lt(xor_bytes(candidate, target), xor_bytes(reference, target))
}

/// Whether `candidate` lies strictly closer to `target` than `reference`.
pub fn is_closer(candidate: &[u8; 32], reference: &[u8; 32], target: &[u8; 32]) -> (r: bool)
    ensures
        r == closer_to(candidate@, reference@, target@),
{
    let ghost a = xor_bytes(candidate@, target@);
    let ghost b = xor_bytes(reference@, target@);
    let mut i: usize = 0;
    assert(a.skip(0) =~= a);
    assert(b.skip(0) =~= b);
    while i < 32
        invariant
            i <= 32,
            a == xor_bytes(candidate@, target@),
            b == xor_bytes(reference@, target@),
            a.len() == 32 && b.len() == 32,
            bytes_lt(a, b) == bytes_lt(a.skip(i as int), b.skip(i as int)),
        decreases 32 - i,
    {
        let x: u8 = candidate[i] ^ target[i];
        let y: u8 = reference[i] ^ target[i];
        assert(a.skip(i as int)[0] == x && b.skip(i as int)[0] == y);
        if x < y {
            return true;
        }
        if x > y {
            return false;
        }
        assert(a.skip(i as int).drop_first() =~= a.skip(i as int + 1));
        assert(b.skip(i as int).drop_first() =~= b.skip(i as int + 1));
        i += 1;
    }
    false
}

/// A peer learnt from `seed` takes a query forward when it lies strictly closer to the
/// target than the seed (whose node id is `seed_node_id`); a seed without a peer id cannot
/// be measured, so every candidate counts.
pub open spec fn makes_progress(seed: SyncPeerConfig, seed_node_id: Seq<u8>, candidate: RoutingPeer, target: Seq<u8>) -> bool {
    seed.peer_id is None || closer_to(candidate.node_id@, seed_node_id, target)
}

/// Whether a node returned by `seed_peer` for a FindNode brings the lookup closer to
/// `target_node_id`; `seed_node_id` is the seed's node id.
pub fn routing_peer_makes_find_node_progress(seed_peer: &SyncPeerConfig, seed_node_id: &[u8; 32], candidate: &RoutingPeer, target_node_id: &[u8; 32]) -> (r: bool)
    ensures
        r == makes_progress(*seed_peer, seed_node_id@, *candidate, target_node_id@),
{
    if seed_peer.peer_id.is_none() {
        return true;
    }
    is_closer(&candidate.node_id, seed_node_id, target_node_id)
}

/// Whether a node returned by `seed_peer` for a FindValue brings the lookup closer to
/// `target_node_id`; `seed_node_id` is the seed's node id.
pub fn routing_peer_makes_find_value_progress(seed_peer: &SyncPeerConfig, seed_node_id: &[u8; 32], candidate: &RoutingPeer, target_node_id: &[u8; 32]) -> (r: bool)
    ensures
        r == makes_progress(*seed_peer, seed_node_id@, *candidate, target_node_id@),
{
    if seed_peer.peer_id.is_none() {
        return true;
    }
    is_closer(&candidate.node_id, seed_node_id, target_node_id)
}

/// Sorting the nodes a routing refresh got back from `seed`: returns the kept nodes, the
/// ids seen so far, and the counts of nodes refused as not closer and as duplicates. A node
/// that is the seed, or whose id was seen, is a duplicate; otherwise its id is remembered,
/// and it is kept only where it makes progress towards `target`.
pub open spec fn refresh_filter(
    seed: SyncPeerConfig,
    seed_node_id: Seq<u8>,
    target: Seq<u8>,
    nodes: Seq<RoutingPeer>,
    seen: Seq<Seq<char>>,
) -> (Seq<RoutingPeer>, Seq<Seq<char>>, nat, nat)
    decreases nodes.len(),
{
    if nodes.len() == 0 {
        (Seq::empty(), seen, 0, 0)
    } else {
        let (out, sn, non_closer, dup) = refresh_filter(seed, seed_node_id, target, nodes.drop_last(), seen);
        let node = nodes.last();
        if is_seed_routing_peer(seed, node) || sn.contains(node.peer_id@) {
            (out, sn, non_closer, dup + 1)
        } else if !makes_progress(seed, seed_node_id, node, target) {
            (out, sn.push(node.peer_id@), non_closer + 1, dup)
        } else {
            (out.push(node), sn.push(node.peer_id@), non_closer, dup)
        }
    }
}

/// Every node a routing refresh returns is either kept or counted once among the
/// rejections (not closer, or already seen).
pub proof fn lemma_refresh_filter_counts(
    seed: SyncPeerConfig,
    seed_node_id: Seq<u8>,
    target: Seq<u8>,
    nodes: Seq<RoutingPeer>,
    seen: Seq<Seq<char>>,
)
    ensures
        ({
            let (out, sn, a, b) = refresh_filter(seed, seed_node_id, target, nodes, seen);
            out.len() + a + b == nodes.len()
        }),
    decreases nodes.len(),
{
    if nodes.len() > 0 {
        lemma_refresh_filter_counts(seed, seed_node_id, target, nodes.drop_last(), seen);
    }
}

fn seen_contains(seen: &Vec<String>, id: &str) -> (r: bool)
    ensures
        r == seen@.map_values(|x: String| x@).contains(id@),
{
    let key = chars_of(id);
    let ghost sv = seen@.map_values(|x: String| x@);
    let mut i: usize = 0;
    while i < seen.len()
        invariant
            i <= seen@.len(),
            key@ == id@,
            sv == seen@.map_values(|x: String| x@),
            forall|j: int| 0 <= j < i ==> sv[j] != id@,
        decreases seen@.len() - i,
    {
        let k = chars_of(seen[i].as_str());
        if chars_equal(k.as_slice(), key.as_slice()) {
            assert(sv[i as int] == id@);
            return true;
        }
        i += 1;
    }
    false
}

/// Keeps the nodes that a routing refresh seeded at `seed_peer` can use: each new peer id
/// is added to `seen_returned_peer_ids`. Returns the kept nodes, the number refused as not
/// closer to `target`, and the number refused as duplicates.
pub fn filter_routing_refresh_nodes(
    seed_peer: &SyncPeerConfig,
    seed_node_id: &[u8; 32],
    target: &[u8; 32],
    nodes: Vec<RoutingPeer>,
    seen_returned_peer_ids: &mut Vec<String>,
) -> (r: (Vec<RoutingPeer>, usize, usize))
    ensures
        ({
            let (out, sn, a, b) = refresh_filter(*seed_peer, seed_node_id@, target@, nodes@, old(seen_returned_peer_ids)@.map_values(|x: String| x@));
            &&& r.0@ == out
            &&& final(seen_returned_peer_ids)@.map_values(|x: String| x@) == sn
            &&& r.1 == a
            &&& r.2 == b
        }),
{
    let ghost all = nodes@;
    let ghost seen0 = seen_returned_peer_ids@.map_values(|x: String| x@);
    let total = nodes.len();
    let mut rest = nodes;
    let mut out: Vec<RoutingPeer> = Vec::new();
    let mut non_closer: usize = 0;
    let mut dup: usize = 0;
    let mut i: usize = 0;
    assert(all.take(0) =~= Seq::<RoutingPeer>::empty());
    assert(all.skip(0) =~= all);
    while rest.len() > 0
        invariant
            i <= all.len(),
            rest@ == all.skip(i as int),
            all.len() == total,
            ({
                let (o, sn, a, b) = refresh_filter(*seed_peer, seed_node_id@, target@, all.take(i as int), seen0);
                &&& out@ == o
                &&& seen_returned_peer_ids@.map_values(|x: String| x@) == sn
                &&& non_closer == a
                &&& dup == b
            }),
            non_closer + dup <= i,
        decreases rest@.len(),
    {
        let node = rest.remove(0);
        proof {
            assert(all.take(i as int + 1).drop_last() =~= all.take(i as int));
            assert(all.take(i as int + 1).last() == node);
            assert(rest@ =~= all.skip(i as int + 1));
        }
        let ghost before = seen_returned_peer_ids@;
        if routing_peer_is_seed_peer(seed_peer, &node) || seen_contains(seen_returned_peer_ids, node.peer_id.as_str()) {
            dup = dup + 1;
        } else {
            seen_returned_peer_ids.push(node.peer_id.clone());
            assert(seen_returned_peer_ids@.map_values(|x: String| x@) =~= before.map_values(|x: String| x@).push(node.peer_id@));
            if !routing_peer_makes_find_node_progress(seed_peer, seed_node_id, &node, target) {
                non_closer = non_closer + 1;
            } else {
                out.push(node);
            }
        }
        i += 1;
    }
    assert(all.take(i as int) =~= all);
    (out, non_closer, dup)
}

/// The peers a record's replication goes to: all of them where none has a peer id;
/// otherwise those whose peer id is among the plan's target peer ids.
pub open spec fn plan_peers(peers: Seq<SyncPeerConfig>, targets: Seq<Seq<char>>) -> Seq<SyncPeerConfig> {
    if !(exists|i: int| 0 <= i < peers.len() && (#[trigger] peers[i]).peer_id is Some) {
        peers
    } else {
        peers.filter(|p: SyncPeerConfig| p.peer_id matches Some(id) && targets.contains(id@))
    }
}

/// The configured peers that a planned record goes to, given the peer ids of the plan's
/// target nodes.
pub fn replication_control_peers_for_plan(peers: &Vec<SyncPeerConfig>, target_peer_ids: &Vec<String>) -> (r: Vec<SyncPeerConfig>)
    ensures
        r@.map_values(|c: SyncPeerConfig| config_view(c)) == plan_peers(peers@, target_peer_ids@.map_values(|x: String| x@)).map_values(|c: SyncPeerConfig| config_view(c)),
{
    let ghost targets = target_peer_ids@.map_values(|x: String| x@);
    let mut any_id = false;
    let mut i: usize = 0;
    while i < peers.len()
        invariant
            i <= peers@.len(),
            any_id == (exists|j: int| 0 <= j < i && (#[trigger] peers@[j]).peer_id is Some),
        decreases peers@.len() - i,
    {
        if peers[i].peer_id.is_some() {
            any_id = true;
        }
        i += 1;
    }
    let ghost pred = |p: SyncPeerConfig| p.peer_id matches Some(id) && targets.contains(id@);
    let mut out: Vec<SyncPeerConfig> = Vec::new();
    let mut k: usize = 0;
    assert(peers@.take(0).filter(pred) =~= Seq::<SyncPeerConfig>::empty()) by {
        reveal_with_fuel(Seq::<_>::filter, 1);
    }
    while k < peers.len()
        invariant
            k <= peers@.len(),
            targets == target_peer_ids@.map_values(|x: String| x@),
            pred == (|p: SyncPeerConfig| p.peer_id matches Some(id) && targets.contains(id@)),
            out@.map_values(|c: SyncPeerConfig| config_view(c)) == (if any_id { peers@.take(k as int).filter(pred) } else { peers@.take(k as int) }).map_values(|c: SyncPeerConfig| config_view(c)),
        decreases peers@.len() - k,
    {
        let p = &peers[k];
        let ghost before = out@;
        proof {
            assert(peers@.take(k as int + 1).drop_last() =~= peers@.take(k as int));
            assert(peers@.take(k as int + 1).last() == *p);
            reveal_with_fuel(Seq::<_>::filter, 1);
        }
        let keep = if !any_id {
            true
        } else {
            match &p.peer_id {
                Some(id) => seen_contains(target_peer_ids, id.as_str()),
                None => false,
            }
        };
        if keep {
            let c = copy_config(p);
            out.push(c);
            assert(out@.map_values(|c: SyncPeerConfig| config_view(c)) =~= before.map_values(|c: SyncPeerConfig| config_view(c)).push(config_view(*p)));
        } else {
            assert(out@ == before);
        }
        k += 1;
    }
    assert(peers@.take(peers@.len() as int) =~= peers@);
    out
}

/// The peer a routing peer gives over the runners' transport.
pub open spec fn transport_peer_config(transport: DhtTransportKind, p: RoutingPeer) -> Option<(Seq<char>, Option<Seq<char>>, Option<Seq<char>>)> {
    match transport {
        DhtTransportKind::Libp2p => libp2p_peer_config(p),
        DhtTransportKind::HttpControl => http_peer_config(p),
    }
}

/// Whether a peer with the URL and peer id of `c` is already in `g`.
pub open spec fn has_peer_key(g: Seq<(Seq<char>, Option<Seq<char>>, Option<Seq<char>>)>, c: (Seq<char>, Option<Seq<char>>, Option<Seq<char>>)) -> bool {
    exists|i: int| 0 <= i < g.len() && (#[trigger] g[i]).0 == c.0 && g[i].2 == c.2
}

/// The configured peers, followed by each routing peer's peer over `transport` whose URL
/// and peer id are new, in routing-table order.
pub open spec fn gathered_peers(
    configured: Seq<(Seq<char>, Option<Seq<char>>, Option<Seq<char>>)>,
    routing: Seq<RoutingPeer>,
    transport: DhtTransportKind,
) -> Seq<(Seq<char>, Option<Seq<char>>, Option<Seq<char>>)>
    decreases routing.len(),
{
    if routing.len() == 0 {
        configured
    } else {
        let g = gathered_peers(configured, routing.drop_last(), transport);
        match transport_peer_config(transport, routing.last()) {
            Some(c) => if has_peer_key(g, c) { g } else { g.push(c) },
            None => g,
        }
    }
}

/// The peers not in quarantine at `now`, in order.
pub open spec fn unquarantined(
    s: Seq<(Seq<char>, Option<Seq<char>>, Option<Seq<char>>)>,
    sync: NodeSyncStatus,
    threshold: u32,
    now: u64,
) -> Seq<(Seq<char>, Option<Seq<char>>, Option<Seq<char>>)>
    decreases s.len(),
{
    if s.len() == 0 {
        s
    } else {
        let r = unquarantined(s.drop_last(), sync, threshold, now);
        if peer_quarantined(sync, s.last().0, threshold, now) { r } else { r.push(s.last()) }
    }
}

/// The order of health keys: by consecutive failures, then failures, then last error time.
pub open spec fn key_lt(a: (u32, u64, u64), b: (u32, u64, u64)) -> bool {
    ||| a.0 < b.0
    ||| (a.0 == b.0 && a.1 < b.1)
    ||| (a.0 == b.0 && a.1 == b.1 && a.2 < b.2)
}

/// `x` inserted into a health-ordered list after every peer that does not rank after it.
pub open spec fn insert_by_health(
    s: Seq<(Seq<char>, Option<Seq<char>>, Option<Seq<char>>)>,
    x: (Seq<char>, Option<Seq<char>>, Option<Seq<char>>),
    sync: NodeSyncStatus,
) -> Seq<(Seq<char>, Option<Seq<char>>, Option<Seq<char>>)>
    decreases s.len(),
{
    if s.len() == 0 {
        seq![x]
    } else if key_lt(health_key(sync, x.0), health_key(sync, s.last().0)) {
        insert_by_health(s.drop_last(), x, sync).push(s.last())
    } else {
        s.push(x)
    }
}

/// The peers ordered by health key; peers with equal keys keep their order (stable sort).
pub open spec fn ranked_by_health(
    s: Seq<(Seq<char>, Option<Seq<char>>, Option<Seq<char>>)>,
    sync: NodeSyncStatus,
) -> Seq<(Seq<char>, Option<Seq<char>>, Option<Seq<char>>)>
    decreases s.len(),
{
    if s.len() == 0 {
        s
    } else {
        insert_by_health(ranked_by_health(s.drop_last(), sync), s.last(), sync)
    }
}

/// The peers the DHT runners use, and how many were left out by quarantine: the gathered
/// peers without those in quarantine, healthiest first.
pub open spec fn runner_peers(
    sync: NodeSyncStatus,
    routing: Seq<RoutingPeer>,
    configured: Seq<(Seq<char>, Option<Seq<char>>, Option<Seq<char>>)>,
    transport: DhtTransportKind,
    threshold: u32,
    now: u64,
) -> (Seq<(Seq<char>, Option<Seq<char>>, Option<Seq<char>>)>, nat) {
    let g = gathered_peers(configured, routing, transport);
    let k = unquarantined(g, sync, threshold, now);
    (ranked_by_health(k, sync), (g.len() - k.len()) as nat)
}

/// The views of a list of peer configurations.
pub open spec fn config_views(v: Seq<SyncPeerConfig>) -> Seq<(Seq<char>, Option<Seq<char>>, Option<Seq<char>>)> {
    v.map_values(|c: SyncPeerConfig| config_view(c))
}

fn opt_strings_equal(a: &Option<String>, b: &Option<String>) -> (r: bool)
    ensures
        r == (opt_view(*a) == opt_view(*b)),
{
    match (a, b) {
        (Some(x), Some(y)) => {
            let xc = chars_of(x.as_str());
            let yc = chars_of(y.as_str());
            chars_equal(xc.as_slice(), yc.as_slice())
        },
        (None, None) => true,
        _ => false,
    }
}

fn contains_peer_key(peers: &Vec<SyncPeerConfig>, c: &SyncPeerConfig) -> (r: bool)
    ensures
        r == has_peer_key(config_views(peers@), config_view(*c)),
{
    let ghost g = config_views(peers@);
    let cu = chars_of(c.url.as_str());
    let mut i: usize = 0;
    while i < peers.len()
        invariant
            i <= peers@.len(),
            g == config_views(peers@),
            cu@ == c.url@,
            forall|j: int| 0 <= j < i ==> !((#[trigger] g[j]).0 == c.url@ && g[j].2 == opt_view(c.peer_id)),
        decreases peers@.len() - i,
    {
        let pu = chars_of(peers[i].url.as_str());
        if chars_equal(pu.as_slice(), cu.as_slice()) && opt_strings_equal(&peers[i].peer_id, &c.peer_id) {
            assert(g[i as int].0 == c.url@ && g[i as int].2 == opt_view(c.peer_id));
            return true;
        }
        i += 1;
    }
    false
}

fn insert_peer_by_health(v: &mut Vec<SyncPeerConfig>, x: SyncPeerConfig, sync_status: &NodeSyncStatus)
    ensures
        config_views(final(v)@) == insert_by_health(config_views(old(v)@), config_view(x), *sync_status),
{
    let ghost s = config_views(v@);
    let ghost xv = config_view(x);
    let xk = dht_peer_health_sort_key(sync_status, &x);
    let mut j: usize = v.len();
    assert(s.take(j as int) =~= s);
    assert(s.skip(j as int) =~= Seq::<(Seq<char>, Option<Seq<char>>, Option<Seq<char>>)>::empty());
    while j > 0
        invariant
            j <= s.len(),
            s == config_views(v@),
            xk == health_key(*sync_status, xv.0),
            insert_by_health(s, xv, *sync_status) == insert_by_health(s.take(j as int), xv, *sync_status) + s.skip(j as int),
        ensures
            j <= s.len(),
            s == config_views(v@),
            insert_by_health(s, xv, *sync_status) == insert_by_health(s.take(j as int), xv, *sync_status) + s.skip(j as int),
            j > 0 ==> !key_lt(health_key(*sync_status, xv.0), health_key(*sync_status, s[j - 1].0)),
        decreases j,
    {
        let k = dht_peer_health_sort_key(sync_status, &v[j - 1]);
        let less = xk.0 < k.0 || (xk.0 == k.0 && xk.1 < k.1) || (xk.0 == k.0 && xk.1 == k.1 && xk.2 < k.2);
        if !less {
            break;
        }
        assert(s.take(j as int).drop_last() =~= s.take(j - 1));
        assert(s.take(j as int).last() == s[j - 1]);
        assert(s.skip(j - 1) =~= seq![s[j - 1]] + s.skip(j as int));
        assert(insert_by_health(s.take(j - 1), xv, *sync_status).push(s[j - 1]) + s.skip(j as int) =~= insert_by_health(
            s.take(j - 1),
            xv,
            *sync_status,
        ) + s.skip(j - 1));
        j -= 1;
    }
    if j > 0 {
        assert(s.take(j as int).last() == s[j - 1]);
    }
    assert(insert_by_health(s.take(j as int), xv, *sync_status) == s.take(j as int).push(xv));
    let ghost before = v@;
    v.insert(j, x);
    assert(config_views(v@) =~= s.take(j as int).push(xv) + s.skip(j as int));
}

/// The peers the DHT runners use, from the configured peers and the routing table, with the
/// number left out by quarantine at `now` (a peer is found by URL and peer id only once).
pub fn dht_runner_peer_configs_with_quarantine_count(
    sync_status: &NodeSyncStatus,
    routing_peers: &Vec<RoutingPeer>,
    configured_peers: &Vec<SyncPeerConfig>,
    transport: DhtTransportKind,
    quarantine_threshold: u32,
    now: u64,
) -> (r: (Vec<SyncPeerConfig>, usize))
    ensures
        config_views(r.0@) == runner_peers(*sync_status, routing_peers@, config_views(configured_peers@), transport, quarantine_threshold, now).0,
        r.1 == runner_peers(*sync_status, routing_peers@, config_views(configured_peers@), transport, quarantine_threshold, now).1,
{
    let ghost conf = config_views(configured_peers@);
    let mut peers: Vec<SyncPeerConfig> = Vec::new();
    let mut i: usize = 0;
    while i < configured_peers.len()
        invariant
            i <= configured_peers@.len(),
            conf == config_views(configured_peers@),
            config_views(peers@) == conf.take(i as int),
        decreases configured_peers@.len() - i,
    {
        let ghost before = peers@;
        peers.push(copy_config(&configured_peers[i]));
        assert(config_views(peers@) =~= config_views(before).push(conf[i as int]));
        assert(conf.take(i as int + 1) =~= conf.take(i as int).push(conf[i as int]));
        i += 1;
    }
    assert(conf.take(i as int) =~= conf);
    let mut k: usize = 0;
    assert(routing_peers@.take(0) =~= Seq::<RoutingPeer>::empty());
    while k < routing_peers.len()
        invariant
            k <= routing_peers@.len(),
            config_views(peers@) == gathered_peers(conf, routing_peers@.take(k as int), transport),
        decreases routing_peers@.len() - k,
    {
        assert(routing_peers@.take(k as int + 1).drop_last() =~= routing_peers@.take(k as int));
        assert(routing_peers@.take(k as int + 1).last() == routing_peers@[k as int]);
        let candidate = match transport {
            DhtTransportKind::Libp2p => sync_peer_config_from_libp2p_routing_peer(&routing_peers[k]),
            DhtTransportKind::HttpControl => sync_peer_config_from_http_routing_peer(&routing_peers[k]),
        };
        if let Some(c) = candidate {
            if !contains_peer_key(&peers, &c) {
                let ghost before = peers@;
                let ghost cv = config_view(c);
                peers.push(c);
                assert(config_views(peers@) =~= config_views(before).push(cv));
            }
        }
        k += 1;
    }
    assert(routing_peers@.take(k as int) =~= routing_peers@);
    let ghost g = config_views(peers@);
    let before_len = peers.len();
    let mut kept: Vec<SyncPeerConfig> = Vec::new();
    let mut m: usize = 0;
    assert(g.take(0) =~= g.take(0).take(0));
    while m < peers.len()
        invariant
            m <= peers@.len(),
            g == config_views(peers@),
            config_views(kept@) == unquarantined(g.take(m as int), *sync_status, quarantine_threshold, now),
            kept@.len() <= m,
        decreases peers@.len() - m,
    {
        assert(g.take(m as int + 1).drop_last() =~= g.take(m as int));
        assert(g.take(m as int + 1).last() == g[m as int]);
        if !dht_peer_is_quarantined(sync_status, &peers[m], quarantine_threshold, now) {
            let ghost before = kept@;
            kept.push(copy_config(&peers[m]));
            assert(config_views(kept@) =~= config_views(before).push(g[m as int]));
        }
        m += 1;
    }
    assert(g.take(m as int) =~= g);
    let quarantined_count = before_len - kept.len();
    let ghost kv = config_views(kept@);
    let mut ranked: Vec<SyncPeerConfig> = Vec::new();
    let mut n: usize = 0;
    assert(kv.take(0) =~= Seq::<(Seq<char>, Option<Seq<char>>, Option<Seq<char>>)>::empty());
    while n < kept.len()
        invariant
            n <= kept@.len(),
            kv == config_views(kept@),
            config_views(ranked@) == ranked_by_health(kv.take(n as int), *sync_status),
        decreases kept@.len() - n,
    {
        assert(kv.take(n as int + 1).drop_last() =~= kv.take(n as int));
        assert(kv.take(n as int + 1).last() == kv[n as int]);
        let c = copy_config(&kept[n]);
        insert_peer_by_health(&mut ranked, c, sync_status);
        n += 1;
    }
    assert(kv.take(n as int) =~= kv);
    (ranked, quarantined_count)
}

/// The peers the DHT runners use at `now`, healthiest first.
pub fn dht_runner_peer_configs(
    sync_status: &NodeSyncStatus,
    routing_peers: &Vec<RoutingPeer>,
    configured_peers: &Vec<SyncPeerConfig>,
    transport: DhtTransportKind,
    quarantine_threshold: u32,
    now: u64,
) -> (r: Vec<SyncPeerConfig>)
    ensures
        config_views(r@) == runner_peers(*sync_status, routing_peers@, config_views(configured_peers@), transport, quarantine_threshold, now).0,
{
    dht_runner_peer_configs_with_quarantine_count(sync_status, routing_peers, configured_peers, transport, quarantine_threshold, now).0
}

/// No peer of `s` ranks before an earlier one.
pub open spec fn health_sorted(s: Seq<(Seq<char>, Option<Seq<char>>, Option<Seq<char>>)>, sync: NodeSyncStatus) -> bool {
    forall|i: int, j: int| 0 <= i < j < s.len() ==> !key_lt(health_key(sync, (#[trigger] s[j]).0), health_key(sync, (#[trigger] s[i]).0))
}

proof fn lemma_insert_by_health(
    s: Seq<(Seq<char>, Option<Seq<char>>, Option<Seq<char>>)>,
    x: (Seq<char>, Option<Seq<char>>, Option<Seq<char>>),
    sync: NodeSyncStatus,
)
    ensures
        insert_by_health(s, x, sync).len() == s.len() + 1,
        forall|y: (Seq<char>, Option<Seq<char>>, Option<Seq<char>>)| #[trigger] insert_by_health(s, x, sync).contains(y) <==> (s.contains(y) || y == x),
        health_sorted(s, sync) ==> health_sorted(insert_by_health(s, x, sync), sync),
    decreases s.len(),
{
    let r = insert_by_health(s, x, sync);
    if s.len() == 0 {
        assert(r =~= seq![x]);
        assert forall|y| #[trigger] r.contains(y) <==> (s.contains(y) || y == x) by {
            if r.contains(y) {
                let k = choose|k: int| 0 <= k < r.len() && r[k] == y;
                assert(k == 0);
            }
            if y == x {
                assert(r[0] == x);
            }
        }
    } else if key_lt(health_key(sync, x.0), health_key(sync, s.last().0)) {
        let p = s.drop_last();
        lemma_insert_by_health(p, x, sync);
        let q = insert_by_health(p, x, sync);
        assert(r == q.push(s.last()));
        assert forall|y| #[trigger] r.contains(y) <==> (s.contains(y) || y == x) by {
            if r.contains(y) {
                let k = choose|k: int| 0 <= k < r.len() && r[k] == y;
                if k < q.len() {
                    assert(q.contains(y));
                    if p.contains(y) {
                        let m = choose|m: int| 0 <= m < p.len() && p[m] == y;
                        assert(s[m] == y);
                    }
                } else {
                    assert(y == s[s.len() - 1]);
                }
            }
            if s.contains(y) {
                let m = choose|m: int| 0 <= m < s.len() && s[m] == y;
                if m < s.len() - 1 {
                    assert(p[m] == y);
                    assert(q.contains(y));
                    let k = choose|k: int| 0 <= k < q.len() && q[k] == y;
                    assert(r[k] == y);
                } else {
                    assert(r[r.len() - 1] == y);
                }
            }
            if y == x {
                assert(q.contains(x));
                let k = choose|k: int| 0 <= k < q.len() && q[k] == x;
                assert(r[k] == x);
            }
        }
        if health_sorted(s, sync) {
            assert(health_sorted(p, sync)) by {
                assert forall|i: int, j: int| 0 <= i < j < p.len() implies !key_lt(health_key(sync, (#[trigger] p[j]).0), health_key(sync, (#[trigger] p[i]).0)) by {
                    assert(p[i] == s[i] && p[j] == s[j]);
                }
            }
            assert forall|i: int, j: int| 0 <= i < j < r.len() implies !key_lt(health_key(sync, (#[trigger] r[j]).0), health_key(sync, (#[trigger] r[i]).0)) by {
                if j < r.len() - 1 {
                    assert(r[i] == q[i] && r[j] == q[j]);
                } else {
                    assert(r[j] == s.last());
                    assert(q.contains(q[i]));
                    if q[i] == x {
                    } else {
                        assert(p.contains(q[i]));
                        let m = choose|m: int| 0 <= m < p.len() && p[m] == q[i];
                        assert(s[m] == q[i]);
                        assert(s[s.len() - 1] == s.last());
                    }
                }
            }
        }
    } else {
        assert(r == s.push(x));
        assert forall|y| #[trigger] r.contains(y) <==> (s.contains(y) || y == x) by {
            if r.contains(y) {
                let k = choose|k: int| 0 <= k < r.len() && r[k] == y;
                if k < s.len() {
                    assert(s[k] == y);
                }
            }
            if s.contains(y) {
                let m = choose|m: int| 0 <= m < s.len() && s[m] == y;
                assert(r[m] == y);
            }
            if y == x {
                assert(r[r.len() - 1] == x);
            }
        }
        if health_sorted(s, sync) {
            assert forall|i: int, j: int| 0 <= i < j < r.len() implies !key_lt(health_key(sync, (#[trigger] r[j]).0), health_key(sync, (#[trigger] r[i]).0)) by {
                if j < r.len() - 1 {
                    assert(r[i] == s[i] && r[j] == s[j]);
                } else {
                    assert(r[i] == s[i]);
                    if i < s.len() - 1 {
                        assert(!key_lt(health_key(sync, s[s.len() - 1].0), health_key(sync, s[i].0)));
                    }
                }
            }
        }
    }
}

proof fn lemma_ranked_by_health(s: Seq<(Seq<char>, Option<Seq<char>>, Option<Seq<char>>)>, sync: NodeSyncStatus)
    ensures
        ranked_by_health(s, sync).len() == s.len(),
        forall|y: (Seq<char>, Option<Seq<char>>, Option<Seq<char>>)| #[trigger] ranked_by_health(s, sync).contains(y) <==> s.contains(y),
        health_sorted(ranked_by_health(s, sync), sync),
    decreases s.len(),
{
    if s.len() > 0 {
        let p = s.drop_last();
        lemma_ranked_by_health(p, sync);
        lemma_insert_by_health(ranked_by_health(p, sync), s.last(), sync);
        assert forall|y| #[trigger] ranked_by_health(s, sync).contains(y) <==> s.contains(y) by {
            if s.contains(y) && y != s.last() {
                let m = choose|m: int| 0 <= m < s.len() && s[m] == y;
                assert(p[m] == y);
            }
            if p.contains(y) {
                let m = choose|m: int| 0 <= m < p.len() && p[m] == y;
                assert(s[m] == y);
            }
            if y == s.last() {
                assert(s[s.len() - 1] == y);
            }
        }
    }
}

proof fn lemma_unquarantined(
    s: Seq<(Seq<char>, Option<Seq<char>>, Option<Seq<char>>)>,
    sync: NodeSyncStatus,
    threshold: u32,
    now: u64,
)
    ensures
        unquarantined(s, sync, threshold, now).len() <= s.len(),
        forall|y: (Seq<char>, Option<Seq<char>>, Option<Seq<char>>)| #[trigger] unquarantined(s, sync, threshold, now).contains(y) <==> (s.contains(y) && !peer_quarantined(sync, y.0, threshold, now)),
    decreases s.len(),
{
    if s.len() > 0 {
        let p = s.drop_last();
        lemma_unquarantined(p, sync, threshold, now);
        let q = unquarantined(p, sync, threshold, now);
        let r = unquarantined(s, sync, threshold, now);
        assert forall|y| #[trigger] r.contains(y) <==> (s.contains(y) && !peer_quarantined(sync, y.0, threshold, now)) by {
            if r.contains(y) {
                let k = choose|k: int| 0 <= k < r.len() && r[k] == y;
                if k < q.len() {
                    assert(q[k] == y);
                    assert(q.contains(y));
                    let m = choose|m: int| 0 <= m < p.len() && p[m] == y;
                    assert(s[m] == y);
                } else {
                    assert(y == s[s.len() - 1]);
                }
            }
            if s.contains(y) && !peer_quarantined(sync, y.0, threshold, now) {
                let m = choose|m: int| 0 <= m < s.len() && s[m] == y;
                if m < s.len() - 1 {
                    assert(p[m] == y);
                    assert(q.contains(y));
                    let k = choose|k: int| 0 <= k < q.len() && q[k] == y;
                    assert(r[k] == y);
                } else {
                    assert(r[r.len() - 1] == y);
                }
            }
        }
    }
}

proof fn lemma_gathered_keeps_configured(
    configured: Seq<(Seq<char>, Option<Seq<char>>, Option<Seq<char>>)>,
    routing: Seq<RoutingPeer>,
    transport: DhtTransportKind,
)
    ensures
        gathered_peers(configured, routing, transport).len() >= configured.len(),
        forall|i: int| 0 <= i < configured.len() ==> gathered_peers(configured, routing, transport)[i] == configured[i],
    decreases routing.len(),
{
    if routing.len() > 0 {
        lemma_gathered_keeps_configured(configured, routing.drop_last(), transport);
    }
}

/// The runners' peer list holds no peer in quarantine at `now`, is ordered healthiest
/// first, holds every configured peer that is not in quarantine, and together with the
/// quarantine count accounts for every gathered peer.
pub proof fn lemma_runner_peers(
    sync: NodeSyncStatus,
    routing: Seq<RoutingPeer>,
    configured: Seq<(Seq<char>, Option<Seq<char>>, Option<Seq<char>>)>,
    transport: DhtTransportKind,
    threshold: u32,
    now: u64,
)
    ensures
        ({
            let (peers, skipped) = runner_peers(sync, routing, configured, transport, threshold, now);
            &&& forall|i: int| 0 <= i < peers.len() ==> !peer_quarantined(sync, (#[trigger] peers[i]).0, threshold, now)
            &&& health_sorted(peers, sync)
            &&& forall|i: int| 0 <= i < configured.len() && !peer_quarantined(sync, (#[trigger] configured[i]).0, threshold, now) ==> peers.contains(configured[i])
            &&& peers.len() + skipped == gathered_peers(configured, routing, transport).len()
        }),
{
    let g = gathered_peers(configured, routing, transport);
    let k = unquarantined(g, sync, threshold, now);
    let peers = ranked_by_health(k, sync);
    lemma_unquarantined(g, sync, threshold, now);
    lemma_ranked_by_health(k, sync);
    lemma_gathered_keeps_configured(configured, routing, transport);
    assert forall|i: int| 0 <= i < peers.len() implies !peer_quarantined(sync, (#[trigger] peers[i]).0, threshold, now) by {
        assert(peers.contains(peers[i]));
        assert(k.contains(peers[i]));
    }
    assert forall|i: int| 0 <= i < configured.len() && !peer_quarantined(sync, (#[trigger] configured[i]).0, threshold, now) implies peers.contains(configured[i]) by {
        assert(g[i] == configured[i]);
        assert(g.contains(configured[i]));
        assert(k.contains(configured[i]));
    }
}

/// A peer whose failed DHT exchange brings its consecutive failures to a positive
/// threshold is in quarantine at that moment (its retry lies at least a second ahead).
pub proof fn lemma_failure_quarantines(b: NodeSyncPeerStatus, a: NodeSyncPeerStatus, error: Seq<char>, now: u64, threshold: u32)
    requires
        after_dht_failure(b, a, error, now),
        threshold > 0,
        a.consecutive_failures >= threshold,
        now < u64::MAX,
    ensures
        quarantined(a, now, threshold),
{
    crate::backoff::lemma_backoff_bounds(DHT_PEER_FAILURE_BACKOFF_BASE_SECONDS, DHT_PEER_FAILURE_BACKOFF_MAX_SECONDS, a.consecutive_failures);
}

/// A successful DHT exchange lifts any quarantine at once.
pub proof fn lemma_success_clears_quarantine(b: NodeSyncPeerStatus, a: NodeSyncPeerStatus, now: u64, threshold: u32)
    requires
        after_dht_success(b, a, now),
    ensures
        !quarantined(a, now, threshold),
{
}

/// After a failure the peer is next due later than the failure (unless the clock is at its
/// end), and never later than the backoff cap (600 s) after it.
pub proof fn lemma_failure_retry_within_cap(b: NodeSyncPeerStatus, a: NodeSyncPeerStatus, error: Seq<char>, now: u64)
    requires
        after_dht_failure(b, a, error, now),
    ensures
        now < u64::MAX ==> (a.next_attempt_at matches Some(t) && now < t),
        a.next_attempt_at matches Some(t) && t <= now + DHT_PEER_FAILURE_BACKOFF_MAX_SECONDS,
{
    crate::backoff::lemma_backoff_bounds(DHT_PEER_FAILURE_BACKOFF_BASE_SECONDS, DHT_PEER_FAILURE_BACKOFF_MAX_SECONDS, a.consecutive_failures);
}

} // verus!
