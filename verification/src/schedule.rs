//! The control server's background timetable: which snapshot-sync peers are due, when a
//! peer is due again after a sync, and when idle rate-limit entries are swept.
use vstd::prelude::*;
use crate::backoff::{backoff_delay, sync_backoff_delay_seconds};
use crate::dht::SyncPeerConfig;
use crate::sync_status::{after_failure, after_success, updated_entry, NodeMergeStats, NodeSyncPeerStatus, NodeSyncStatus};

verus! {

/// A configured snapshot-sync peer and its schedule: when it is next due (nanoseconds on
/// the server's monotonic clock) and its current run of failures.
#[derive(Debug, Clone)]
pub struct SyncPeerRuntime {
    pub config: SyncPeerConfig,
    pub next_attempt_at: u128,
    pub consecutive_failures: u32,
}

/// The positions of the peers due at `now`, in order.
pub open spec fn due_indices(s: Seq<SyncPeerRuntime>, now: u128) -> Seq<int>
    decreases s.len(),
{
    if s.len() == 0 {
        Seq::empty()
    } else {
        let r = due_indices(s.drop_last(), now);
        if now >= s.last().next_attempt_at { r.push(s.len() - 1) } else { r }
    }
}

/// The largest lateness among the due peers (zero when none is due).
pub open spec fn max_lateness(s: Seq<SyncPeerRuntime>, now: u128) -> u128
    decreases s.len(),
{
    if s.len() == 0 {
        0
    } else {
        let m = max_lateness(s.drop_last(), now);
        if now >= s.last().next_attempt_at && (now - s.last().next_attempt_at) as u128 > m {
            (now - s.last().next_attempt_at) as u128
        } else {
            m
        }
    }
}

/// One pass of the scheduler: the peers due, how late each is, and the largest lateness.
pub struct SyncRound {
    pub due: Vec<usize>,
    pub lateness: Vec<u128>,
    pub max_lateness: u128,
}

/// Finds the snapshot-sync peers due at `now` and how late each one is.
pub fn plan_sync_round(peers: &Vec<SyncPeerRuntime>, now: u128) -> (r: SyncRound)
    ensures
        r.due@.map_values(|i: usize| i as int) == due_indices(peers@, now),
        r.lateness@.len() == r.due@.len(),
        forall|k: int| 0 <= k < r.due@.len() ==> r.lateness@[k] == now - peers@[r.due@[k] as int].next_attempt_at,
        r.max_lateness == max_lateness(peers@, now),
{
    let mut due: Vec<usize> = Vec::new();
    let mut lateness: Vec<u128> = Vec::new();
    let mut m: u128 = 0;
    let mut i: usize = 0;
    assert(peers@.take(0) =~= Seq::<SyncPeerRuntime>::empty());
    assert(due@.map_values(|i: usize| i as int) =~= Seq::<int>::empty());
    while i < peers.len()
        invariant
            i <= peers@.len(),
            due@.map_values(|i: usize| i as int) == due_indices(peers@.take(i as int), now),
            lateness@.len() == due@.len(),
            forall|k: int| 0 <= k < due@.len() ==> #[trigger] due@[k] < i,
            forall|k: int| 0 <= k < due@.len() ==> #[trigger] lateness@[k] == now - peers@[due@[k] as int].next_attempt_at,
            m == max_lateness(peers@.take(i as int), now),
        decreases peers@.len() - i,
    {
        assert(peers@.take(i as int + 1).drop_last() =~= peers@.take(i as int));
        assert(peers@.take(i as int + 1).last() == peers@[i as int]);
        let next = peers[i].next_attempt_at;
        if now >= next {
            let late = now - next;
            let ghost before = due@;
            let ghost before_l = lateness@;
            due.push(i);
            lateness.push(late);
            assert forall|k: int| 0 <= k < due@.len() implies #[trigger] due@[k] < i + 1 by {
                if k < before.len() {
                    assert(due@[k] == before[k]);
                }
            }
            assert forall|k: int| 0 <= k < due@.len() implies #[trigger] lateness@[k] == now - peers@[due@[k] as int].next_attempt_at by {
                if k < before.len() {
                    assert(due@[k] == before[k] && lateness@[k] == before_l[k]);
                }
            }
            assert(due@.map_values(|i: usize| i as int) =~= before.map_values(|i: usize| i as int).push(i as int));
            if late > m {
                m = late;
            }
        }
        i += 1;
    }
    assert(peers@.take(i as int) =~= peers@);
    SyncRound { due, lateness, max_lateness: m }
}

/// Idle rate-limit entries are swept once a minute.
pub open spec fn prune_due(now: u128, last_prune: u128) -> bool {
    now >= last_prune && now - last_prune >= 60_000_000_000
}

/// Whether a sweep of idle rate-limit entries is due at `now` (a minute after the last).
pub fn rate_limit_prune_due(now: u128, last_prune: u128) -> (r: bool)
    ensures
        r == prune_due(now, last_prune),
{
    now >= last_prune && now - last_prune >= 60_000_000_000
}

/// The delay before the next sync of a peer: the interval (at least a second) after a
/// success, the backoff for its run of failures after a failure.
pub open spec fn next_sync_delay(success: bool, base: u64, max_backoff: u64, failures: u32) -> nat {
    if success {
        if base >= 1 { base as nat } else { 1 }
    } else {
        backoff_delay(if base >= 1 { base } else { 1 }, if max_backoff >= 1 { max_backoff } else { 1 }, failures)
    }
}

/// How a successful snapshot sync at `now` changes a peer's health: a success with the
/// merged counts, and the peer next due at `at`.
pub open spec fn after_sync_success(b: NodeSyncPeerStatus, a: NodeSyncPeerStatus, stats: NodeMergeStats, now: u64, at: u64) -> bool {
    &&& a.next_attempt_at == Some(at)
    &&& after_success(b, NodeSyncPeerStatus { next_attempt_at: b.next_attempt_at, ..a }, stats, now)
}

/// How a failed snapshot sync at `now` changes a peer's health: a failure with the error,
/// and the peer next due at `at`.
pub open spec fn after_sync_failure(b: NodeSyncPeerStatus, a: NodeSyncPeerStatus, error: Seq<char>, now: u64, at: u64) -> bool {
    &&& a.next_attempt_at == Some(at)
    &&& after_failure(b, NodeSyncPeerStatus { next_attempt_at: b.next_attempt_at, ..a }, error, now)
}

/// Records the outcome of a snapshot sync with `peer` (the merged counts, or the error) at
/// `now` (Unix seconds; `mono_now` on the monotonic clock), and schedules its next sync.
/// Returns the delay in seconds.
pub fn record_snapshot_sync_outcome(
    sync_status: &mut NodeSyncStatus,
    peer: &mut SyncPeerRuntime,
    outcome: Result<NodeMergeStats, String>,
    base_interval_seconds: u64,
    max_backoff_seconds: u64,
    now: u64,
    mono_now: u128,
) -> (delay: u64)
    requires
        mono_now + u64::MAX as nat * 1_000_000_000 <= u128::MAX,
    ensures
        final(peer).config == old(peer).config,
        final(peer).consecutive_failures == (match outcome {
            Ok(_) => 0,
            Err(_) => old(peer).consecutive_failures.saturating_add(1),
        }),
        delay == next_sync_delay(outcome is Ok, base_interval_seconds, max_backoff_seconds, final(peer).consecutive_failures),
        final(peer).next_attempt_at == mono_now + delay as nat * 1_000_000_000,
        ({
            let at = if now as nat + delay as nat > u64::MAX { u64::MAX } else { (now + delay) as u64 };
            match outcome {
                Ok(stats) => updated_entry(old(sync_status).peers@, final(sync_status).peers@, old(peer).config.url@, |b: NodeSyncPeerStatus, a: NodeSyncPeerStatus| after_sync_success(b, a, stats, now, at)),
                Err(e) => updated_entry(old(sync_status).peers@, final(sync_status).peers@, old(peer).config.url@, |b: NodeSyncPeerStatus, a: NodeSyncPeerStatus| after_sync_failure(b, a, e@, now, at)),
            }
        }),
        old(sync_status).wf() ==> final(sync_status).wf(),
{
    let ghost s0 = sync_status.peers@;
    let ghost url = peer.config.url@;
    let delay: u64 = match &outcome {
        Ok(stats) => {
            sync_status.record_success(peer.config.url.as_str(), *stats, now);
            peer.consecutive_failures = 0;
            if base_interval_seconds >= 1 { base_interval_seconds } else { 1 }
        },
        Err(e) => {
            sync_status.record_failure(peer.config.url.as_str(), e.as_str(), now);
            peer.consecutive_failures = peer.consecutive_failures.saturating_add(1);
            sync_backoff_delay_seconds(
                if base_interval_seconds >= 1 { base_interval_seconds } else { 1 },
                if max_backoff_seconds >= 1 { max_backoff_seconds } else { 1 },
                peer.consecutive_failures,
            )
        },
    };
    let ghost mid = sync_status.peers@;
    peer.next_attempt_at = mono_now + delay as u128 * 1_000_000_000;
    let at = now.saturating_add(delay);
    sync_status.record_next_attempt(peer.config.url.as_str(), at);
    proof {
        let g = |b: NodeSyncPeerStatus, a: NodeSyncPeerStatus| a == (NodeSyncPeerStatus { next_attempt_at: Some(at), ..b });
        match outcome {
            Ok(stats) => {
                let f = |b: NodeSyncPeerStatus, a: NodeSyncPeerStatus| after_success(b, a, stats, now);
                let h = |b: NodeSyncPeerStatus, a: NodeSyncPeerStatus| after_sync_success(b, a, stats, now, at);
                assert forall|b: NodeSyncPeerStatus, m: NodeSyncPeerStatus, a: NodeSyncPeerStatus| #[trigger] f(b, m) && #[trigger] g(m, a) implies h(b, a) by {
                    assert(NodeSyncPeerStatus { next_attempt_at: b.next_attempt_at, ..a } == m);
                }
                crate::sync_status::lemma_updated_entry_compose(s0, mid, sync_status.peers@, url, f, g, h);
            },
            Err(e) => {
                let f = |b: NodeSyncPeerStatus, a: NodeSyncPeerStatus| after_failure(b, a, e@, now);
                let h = |b: NodeSyncPeerStatus, a: NodeSyncPeerStatus| after_sync_failure(b, a, e@, now, at);
                assert forall|b: NodeSyncPeerStatus, m: NodeSyncPeerStatus, a: NodeSyncPeerStatus| #[trigger] f(b, m) && #[trigger] g(m, a) implies h(b, a) by {
                    assert(NodeSyncPeerStatus { next_attempt_at: b.next_attempt_at, ..a } == m);
                }
                crate::sync_status::lemma_updated_entry_compose(s0, mid, sync_status.peers@, url, f, g, h);
            },
        }
    }
    delay
}

} // verus!
