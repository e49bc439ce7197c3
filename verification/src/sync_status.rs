//! Snapshot-sync health of peers, as the node records it, and the DHT quarantine rule.
use vstd::prelude::*;
use crate::text::{chars_equal, chars_of};

verus! {

/// Sync health of one peer.
#[derive(Debug, Clone)]
pub struct NodeSyncPeerStatus {
    pub url: String,
    pub attempts: u64,
    pub successes: u64,
    pub failures: u64,
    pub last_attempt_at: Option<u64>,
    pub last_success_at: Option<u64>,
    pub last_error_at: Option<u64>,
    pub last_error: Option<String>,
    pub next_attempt_at: Option<u64>,
    pub consecutive_failures: u32,
    pub last_imported_peers: usize,
    pub last_imported_mailbox_deliveries: usize,
    pub last_imported_prekey_bundles: usize,
    pub last_imported_signed_one_time_prekey_records: usize,
}

/// What one snapshot merge brought in.
#[derive(Debug, Clone, Copy, PartialEq, Eq)]
pub struct NodeMergeStats {
    pub peers: usize,
    pub mailbox_deliveries: usize,
    pub prekey_bundles: usize,
    pub signed_one_time_prekey_records: usize,
    pub dht_records: usize,
}

/// Sync health of every peer the node has tried, keyed by URL.
#[derive(Debug, Clone)]
pub struct NodeSyncStatus {
    pub peers: Vec<(String, NodeSyncPeerStatus)>,
}

/// Whether the DHT runners skip a peer: a positive threshold reached by its consecutive
/// failures, while its next attempt is still ahead (or not scheduled).
pub open spec fn quarantined(status: NodeSyncPeerStatus, now: u64, threshold: u32) -> bool {
    &&& threshold > 0
    &&& status.consecutive_failures >= threshold
    &&& match status.next_attempt_at {
        Some(next) => next > now,
        None => true,
    }
}

/// Decides whether the DHT runners skip a peer with this sync health.
pub fn sync_peer_is_dht_quarantined(status: &NodeSyncPeerStatus, now: u64, threshold: u32) -> (r: bool)
    ensures
        r == quarantined(*status, now, threshold),
{
    threshold > 0 && status.consecutive_failures >= threshold && match status.next_attempt_at {
        Some(next) => next > now,
        None => true,
    }
}

/// Position of the first entry for `url`.
pub open spec fn peer_index(peers: Seq<(String, NodeSyncPeerStatus)>, url: Seq<char>) -> Option<int> {
    if exists|i: int| is_first_peer(peers, url, i) {
        Some(choose|i: int| is_first_peer(peers, url, i))
    } else {
        None
    }
}

/// `i` is the first entry for `url`.
pub open spec fn is_first_peer(peers: Seq<(String, NodeSyncPeerStatus)>, url: Seq<char>, i: int) -> bool {
    0 <= i < peers.len() && peers[i].0@ == url && forall|j: int| 0 <= j < i ==> peers[j].0@ != url
}

proof fn lemma_peer_index(peers: Seq<(String, NodeSyncPeerStatus)>, url: Seq<char>, i: int)
    requires
        0 <= i < peers.len(),
        peers[i].0@ == url,
        forall|j: int| 0 <= j < i ==> peers[j].0@ != url,
    ensures
        peer_index(peers, url) == Some(i),
{
    assert(is_first_peer(peers, url, i));
    let k = choose|k: int| is_first_peer(peers, url, k);
    assert(k == i) by {
        if k < i {
            assert(peers[k].0@ != url);
        } else if k > i {
            assert(peers[i].0@ != url);
        }
    }
}

/// The recorded health of `url`, if any.
pub open spec fn status_of(sync: NodeSyncStatus, url: Seq<char>) -> Option<NodeSyncPeerStatus> {
    match peer_index(sync.peers@, url) {
        Some(i) => Some(sync.peers@[i].1),
        None => None,
    }
}

/// A status with nothing recorded yet.
pub open spec fn fresh_status(url: Seq<char>, s: NodeSyncPeerStatus) -> bool {
    &&& s.url@ == url
    &&& s.attempts == 0
    &&& s.successes == 0
    &&& s.failures == 0
    &&& s.last_attempt_at is None
    &&& s.last_success_at is None
    &&& s.last_error_at is None
    &&& s.last_error is None
    &&& s.next_attempt_at is None
    &&& s.consecutive_failures == 0
    &&& s.last_imported_peers == 0
    &&& s.last_imported_mailbox_deliveries == 0
    &&& s.last_imported_prekey_bundles == 0
    &&& s.last_imported_signed_one_time_prekey_records == 0
}

/// How a failure changes a peer's health.
pub open spec fn after_failure(b: NodeSyncPeerStatus, a: NodeSyncPeerStatus, error: Seq<char>, now: u64) -> bool {
    &&& a.url == b.url
    &&& a.attempts == b.attempts.saturating_add(1)
    &&& a.successes == b.successes
    &&& a.failures == b.failures.saturating_add(1)
    &&& a.consecutive_failures == b.consecutive_failures.saturating_add(1)
    &&& a.last_attempt_at == Some(now)
    &&& a.last_success_at == b.last_success_at
    &&& a.last_error_at == Some(now)
    &&& a.last_error matches Some(e) && e@ == error
    &&& a.next_attempt_at == b.next_attempt_at
    &&& a.last_imported_peers == b.last_imported_peers
    &&& a.last_imported_mailbox_deliveries == b.last_imported_mailbox_deliveries
    &&& a.last_imported_prekey_bundles == b.last_imported_prekey_bundles
    &&& a.last_imported_signed_one_time_prekey_records == b.last_imported_signed_one_time_prekey_records
}

/// How a success changes a peer's health.
pub open spec fn after_success(b: NodeSyncPeerStatus, a: NodeSyncPeerStatus, stats: NodeMergeStats, now: u64) -> bool {
    &&& a.url == b.url
    &&& a.attempts == b.attempts.saturating_add(1)
    &&& a.successes == b.successes.saturating_add(1)
    &&& a.failures == b.failures
    &&& a.consecutive_failures == 0
    &&& a.last_attempt_at == Some(now)
    &&& a.last_success_at == Some(now)
    &&& a.last_error_at == b.last_error_at
    &&& a.last_error == b.last_error
    &&& a.next_attempt_at == b.next_attempt_at
    &&& a.last_imported_peers == stats.peers
    &&& a.last_imported_mailbox_deliveries == stats.mailbox_deliveries
    &&& a.last_imported_prekey_bundles == stats.prekey_bundles
    &&& a.last_imported_signed_one_time_prekey_records == stats.signed_one_time_prekey_records
}

/// The entry of `url` changed as `changed` says, every other entry kept; a missing entry is
/// appended, starting from nothing recorded.
pub open spec fn updated_entry(
    before: Seq<(String, NodeSyncPeerStatus)>,
    after: Seq<(String, NodeSyncPeerStatus)>,
    url: Seq<char>,
    changed: spec_fn(NodeSyncPeerStatus, NodeSyncPeerStatus) -> bool,
) -> bool {
    match peer_index(before, url) {
        Some(i) => {
            &&& after.len() == before.len()
            &&& forall|j: int| 0 <= j < before.len() && j != i ==> after[j] == before[j]
            &&& after[i].0 == before[i].0
            &&& changed(before[i].1, after[i].1)
        },
        None => {
            &&& after.len() == before.len() + 1
            &&& after.take(before.len() as int) == before
            &&& after.last().0@ == url
            &&& exists|s: NodeSyncPeerStatus| fresh_status(url, s) && changed(s, after.last().1)
        },
    }
}

proof fn lemma_no_earlier_match(peers: Seq<(String, NodeSyncPeerStatus)>, url: Seq<char>, j: int)
    requires
        !exists|i: int| is_first_peer(peers, url, i),
        0 <= j < peers.len(),
    ensures
        forall|k: int| 0 <= k <= j ==> peers[k].0@ != url,
    decreases j,
{
    if j > 0 {
        lemma_no_earlier_match(peers, url, j - 1);
    }
    if peers[j].0@ == url {
        assert(is_first_peer(peers, url, j));
    }
}

/// Without a first entry for `url`, no entry is for `url`.
pub proof fn lemma_peer_index_none(peers: Seq<(String, NodeSyncPeerStatus)>, url: Seq<char>)
    requires
        peer_index(peers, url) is None,
    ensures
        forall|k: int| 0 <= k < peers.len() ==> peers[k].0@ != url,
{
    if peers.len() > 0 {
        lemma_no_earlier_match(peers, url, peers.len() - 1);
    }
}

/// After an update of `url`, its entry is where it was, or last where it was added.
pub proof fn lemma_updated_entry_index(
    before: Seq<(String, NodeSyncPeerStatus)>,
    after: Seq<(String, NodeSyncPeerStatus)>,
    url: Seq<char>,
    changed: spec_fn(NodeSyncPeerStatus, NodeSyncPeerStatus) -> bool,
)
    requires
        updated_entry(before, after, url, changed),
    ensures
        peer_index(after, url) == Some(match peer_index(before, url) {
            Some(i) => i,
            None => before.len() as int,
        }),
{
    match peer_index(before, url) {
        Some(i) => {
            assert(is_first_peer(before, url, i));
            assert forall|j: int| 0 <= j < i implies after[j].0@ != url by {
                assert(after[j] == before[j]);
            }
            lemma_peer_index(after, url, i);
        },
        None => {
            lemma_peer_index_none(before, url);
            assert forall|j: int| 0 <= j < before.len() implies after[j].0@ != url by {
                assert(after.take(before.len() as int)[j] == after[j]);
            }
            lemma_peer_index(after, url, before.len() as int);
        },
    }
}

/// No two entries have the same URL.
pub open spec fn peer_urls_unique(peers: Seq<(String, NodeSyncPeerStatus)>) -> bool {
    forall|i: int, j: int| 0 <= i < j < peers.len() ==> #[trigger] peers[i].0@ != #[trigger] peers[j].0@
}

/// An update of one entry keeps each URL to one entry at most.
pub proof fn lemma_updated_entry_keeps_urls_unique(
    before: Seq<(String, NodeSyncPeerStatus)>,
    after: Seq<(String, NodeSyncPeerStatus)>,
    url: Seq<char>,
    changed: spec_fn(NodeSyncPeerStatus, NodeSyncPeerStatus) -> bool,
)
    requires
        peer_urls_unique(before),
        updated_entry(before, after, url, changed),
    ensures
        peer_urls_unique(after),
{
    match peer_index(before, url) {
        Some(i) => {
            assert forall|j: int| 0 <= j < after.len() implies #[trigger] after[j].0@ == before[j].0@ by {
                if j != i {
                    assert(after[j] == before[j]);
                }
            }
        },
        None => {
            lemma_peer_index_none(before, url);
            let n = before.len() as int;
            assert forall|j: int| 0 <= j < n implies #[trigger] after[j].0@ == before[j].0@ by {
                assert(after.take(n)[j] == after[j]);
            }
            assert(after[n] == after.last());
        },
    }
}

/// Two successive updates of the same entry make one update by their composition.
pub proof fn lemma_updated_entry_compose(
    s0: Seq<(String, NodeSyncPeerStatus)>,
    s1: Seq<(String, NodeSyncPeerStatus)>,
    s2: Seq<(String, NodeSyncPeerStatus)>,
    url: Seq<char>,
    f: spec_fn(NodeSyncPeerStatus, NodeSyncPeerStatus) -> bool,
    g: spec_fn(NodeSyncPeerStatus, NodeSyncPeerStatus) -> bool,
    h: spec_fn(NodeSyncPeerStatus, NodeSyncPeerStatus) -> bool,
)
    requires
        updated_entry(s0, s1, url, f),
        updated_entry(s1, s2, url, g),
        forall|b: NodeSyncPeerStatus, m: NodeSyncPeerStatus, a: NodeSyncPeerStatus| #[trigger] f(b, m) && #[trigger] g(m, a) ==> h(b, a),
    ensures
        updated_entry(s0, s2, url, h),
{
    lemma_updated_entry_index(s0, s1, url, f);
    match peer_index(s0, url) {
        Some(i) => {
            assert(f(s0[i].1, s1[i].1) && g(s1[i].1, s2[i].1));
        },
        None => {
            let n = s0.len() as int;
            let x = choose|s: NodeSyncPeerStatus| fresh_status(url, s) && f(s, s1.last().1);
            assert(s1.last() == s1[n]);
            assert(s2.last() == s2[n]);
            assert(f(x, s1[n].1) && g(s1[n].1, s2[n].1));
            assert(fresh_status(url, x) && h(x, s2.last().1));
            assert(s2.take(n) =~= s0) by {
                assert forall|j: int| 0 <= j < n implies s2.take(n)[j] == s0[j] by {
                    assert(s1.take(n)[j] == s1[j]);
                }
            }
        },
    }
}

fn copy_status(s: &NodeSyncPeerStatus) -> (r: NodeSyncPeerStatus)
    ensures
        r == *s,
{
    NodeSyncPeerStatus {
        url: s.url.clone(),
        attempts: s.attempts,
        successes: s.successes,
        failures: s.failures,
        last_attempt_at: s.last_attempt_at,
        last_success_at: s.last_success_at,
        last_error_at: s.last_error_at,
        last_error: match &s.last_error {
            Some(e) => Some(e.clone()),
            None => None,
        },
        next_attempt_at: s.next_attempt_at,
        consecutive_failures: s.consecutive_failures,
        last_imported_peers: s.last_imported_peers,
        last_imported_mailbox_deliveries: s.last_imported_mailbox_deliveries,
        last_imported_prekey_bundles: s.last_imported_prekey_bundles,
        last_imported_signed_one_time_prekey_records: s.last_imported_signed_one_time_prekey_records,
    }
}

fn new_status(url: &str) -> (r: NodeSyncPeerStatus)
    ensures
        fresh_status(url@, r),
{
    NodeSyncPeerStatus {
        url: crate::text::string_from_chars(chars_of(url).as_slice()),
        attempts: 0,
        successes: 0,
        failures: 0,
        last_attempt_at: None,
        last_success_at: None,
        last_error_at: None,
        last_error: None,
        next_attempt_at: None,
        consecutive_failures: 0,
        last_imported_peers: 0,
        last_imported_mailbox_deliveries: 0,
        last_imported_prekey_bundles: 0,
        last_imported_signed_one_time_prekey_records: 0,
    }
}

impl NodeSyncStatus {
    /// Each URL has one entry at most.
    pub open spec fn wf(&self) -> bool {
        peer_urls_unique(self.peers@)
    }

    /// No peer tried yet.
    pub fn new() -> (r: Self)
        ensures
            r.peers@.len() == 0,
            r.wf(),
    {
        NodeSyncStatus { peers: Vec::new() }
    }

    /// Finds the entry of `url`.
    pub fn find(&self, url: &str) -> (r: Option<usize>)
        ensures
            match r {
                Some(i) => peer_index(self.peers@, url@) == Some(i as int),
                None => peer_index(self.peers@, url@) is None,
            },
    {
        let key = chars_of(url);
        let mut i: usize = 0;
        while i < self.peers.len()
            invariant
                i <= self.peers@.len(),
                key@ == url@,
                forall|j: int| 0 <= j < i ==> self.peers@[j].0@ != url@,
            decreases self.peers@.len() - i,
        {
            let k = chars_of(self.peers[i].0.as_str());
            if chars_equal(k.as_slice(), key.as_slice()) {
                proof {
                    lemma_peer_index(self.peers@, url@, i as int);
                }
                return Some(i);
            }
            i += 1;
        }
        None
    }

    /// The recorded health of `url`.
    pub fn get(&self, url: &str) -> (r: Option<&NodeSyncPeerStatus>)
        ensures
            match r {
                Some(s) => status_of(*self, url@) == Some(*s),
                None => status_of(*self, url@) is None,
            },
    {
        match self.find(url) {
            Some(i) => Some(&self.peers[i].1),
            None => None,
        }
    }

    fn entry_copy(&self, url: &str) -> (r: (Option<usize>, NodeSyncPeerStatus))
        ensures
            match r.0 {
                Some(i) => peer_index(self.peers@, url@) == Some(i as int) && r.1 == self.peers@[i as int].1,
                None => peer_index(self.peers@, url@) is None && fresh_status(url@, r.1),
            },
    {
        match self.find(url) {
            Some(i) => (Some(i), copy_status(&self.peers[i].1)),
            None => (None, new_status(url)),
        }
    }

    fn store(&mut self, idx: Option<usize>, url: &str, s: NodeSyncPeerStatus)
        requires
            match idx {
                Some(i) => i < old(self).peers@.len(),
                None => true,
            },
        ensures
            match idx {
                Some(i) => final(self).peers@ == old(self).peers@.update(i as int, (old(self).peers@[i as int].0, s)),
                None => final(self).peers@.len() == old(self).peers@.len() + 1
                    && final(self).peers@.take(old(self).peers@.len() as int) == old(self).peers@
                    && final(self).peers@.last().0@ == url@ && final(self).peers@.last().1 == s,
            },
    {
        match idx {
            Some(i) => {
                let name = self.peers[i].0.clone();
                self.peers.set(i, (name, s));
            },
            None => {
                let ghost before = self.peers@;
                let name = crate::text::string_from_chars(chars_of(url).as_slice());
                self.peers.push((name, s));
                assert(self.peers@.take(before.len() as int) =~= before);
            },
        }
    }

    /// Records a failed attempt at `now`.
    pub fn record_failure(&mut self, url: &str, error: &str, now: u64)
        ensures
            updated_entry(old(self).peers@, final(self).peers@, url@, |b: NodeSyncPeerStatus, a: NodeSyncPeerStatus| after_failure(b, a, error@, now)),
            old(self).wf() ==> final(self).wf(),
    {
        let (idx, mut s) = self.entry_copy(url);
        let ghost b = s;
        s.attempts = s.attempts.saturating_add(1);
        s.failures = s.failures.saturating_add(1);
        s.consecutive_failures = s.consecutive_failures.saturating_add(1);
        s.last_attempt_at = Some(now);
        s.last_error_at = Some(now);
        s.last_error = Some(crate::text::string_from_chars(chars_of(error).as_slice()));
        assert(after_failure(b, s, error@, now));
        self.store(idx, url, s);
        proof {
            let f = |b: NodeSyncPeerStatus, a: NodeSyncPeerStatus| after_failure(b, a, error@, now);
            assert(f(b, s));
            if old(self).wf() {
                lemma_updated_entry_keeps_urls_unique(old(self).peers@, self.peers@, url@, f);
            }
        }
    }

    /// Records a successful snapshot merge at `now`.
    pub fn record_success(&mut self, url: &str, stats: NodeMergeStats, now: u64)
        ensures
            updated_entry(old(self).peers@, final(self).peers@, url@, |b: NodeSyncPeerStatus, a: NodeSyncPeerStatus| after_success(b, a, stats, now)),
            old(self).wf() ==> final(self).wf(),
    {
        let (idx, mut s) = self.entry_copy(url);
        let ghost b = s;
        s.attempts = s.attempts.saturating_add(1);
        s.successes = s.successes.saturating_add(1);
        s.consecutive_failures = 0;
        s.last_attempt_at = Some(now);
        s.last_success_at = Some(now);
        s.last_imported_peers = stats.peers;
        s.last_imported_mailbox_deliveries = stats.mailbox_deliveries;
        s.last_imported_prekey_bundles = stats.prekey_bundles;
        s.last_imported_signed_one_time_prekey_records = stats.signed_one_time_prekey_records;
        assert(after_success(b, s, stats, now));
        self.store(idx, url, s);
        proof {
            let f = |b: NodeSyncPeerStatus, a: NodeSyncPeerStatus| after_success(b, a, stats, now);
            assert(f(b, s));
            if old(self).wf() {
                lemma_updated_entry_keeps_urls_unique(old(self).peers@, self.peers@, url@, f);
            }
        }
    }

    /// Records when `url` is next due.
    pub fn record_next_attempt(&mut self, url: &str, at: u64)
        ensures
            updated_entry(old(self).peers@, final(self).peers@, url@, |b: NodeSyncPeerStatus, a: NodeSyncPeerStatus| a == (NodeSyncPeerStatus { next_attempt_at: Some(at), ..b })),
            old(self).wf() ==> final(self).wf(),
    {
        let (idx, mut s) = self.entry_copy(url);
        let ghost b = s;
        s.next_attempt_at = Some(at);
        self.store(idx, url, s);
        proof {
            let f = |b: NodeSyncPeerStatus, a: NodeSyncPeerStatus| a == (NodeSyncPeerStatus { next_attempt_at: Some(at), ..b });
            assert(f(b, s));
            if old(self).wf() {
                lemma_updated_entry_keeps_urls_unique(old(self).peers@, self.peers@, url@, f);
            }
        }
    }
}

} // verus!
