//! The OpenMetrics text exposition of the control runtime's counters.
use vstd::prelude::*;
use crate::maintenance::NodeMaintenanceStats;
use crate::metrics::{
    ControlEndpointStats, ControlRuntimeStats, StateDbStats, endpoint_line, help_line,
    labeled_line, push_endpoint_metric_value, push_labeled_metric_value, push_metric_help,
    push_metric_type, push_metric_value, type_line, value_line,
};
use crate::sync_status::{NodeSyncPeerStatus, NodeSyncStatus, quarantined, sync_peer_is_dht_quarantined};
use crate::clock::current_unix_timestamp;
use crate::text::{chars_of, push_str};

verus! {

/// The value behind an optional reference.
pub open spec fn opt_copy<T>(x: Option<&T>) -> Option<T> {
    match x {
        Some(v) => Some(*v),
        None => None,
    }
}

/// `a` sorts strictly before `b` (lexicographic by character, as `String`'s order is).
pub open spec fn lex_lt(a: Seq<char>, b: Seq<char>) -> bool
    decreases a.len(),
{
    if b.len() == 0 {
        false
    } else if a.len() == 0 {
        true
    } else if (a[0] as u32) < (b[0] as u32) {
        true
    } else if (a[0] as u32) > (b[0] as u32) {
        false
    } else {
        lex_lt(a.drop_first(), b.drop_first())
    }
}

/// Whether `a` sorts strictly before `b`.
pub fn lex_less(a: &[char], b: &[char]) -> (r: bool)
    ensures
        r == lex_lt(a@, b@),
{
    let mut i: usize = 0;
    assert(a@.skip(0) =~= a@);
    assert(b@.skip(0) =~= b@);
    while i < a.len() && i < b.len()
        invariant
            i <= a@.len(),
            i <= b@.len(),
            lex_lt(a@, b@) == lex_lt(a@.skip(i as int), b@.skip(i as int)),
        decreases a@.len() - i,
    {
        let x = a[i];
        let y = b[i];
        assert(a@.skip(i as int)[0] == x && b@.skip(i as int)[0] == y);
        if (x as u32) < (y as u32) {
            return true;
        }
        if (x as u32) > (y as u32) {
            return false;
        }
        assert(a@.skip(i as int).drop_first() =~= a@.skip(i as int + 1));
        assert(b@.skip(i as int).drop_first() =~= b@.skip(i as int + 1));
        i += 1;
    }
    i < b.len()
}

/// `x` inserted into a sorted table after every entry whose key does not sort after it.
pub open spec fn insert_sorted(s: Seq<(String, ControlEndpointStats)>, x: (String, ControlEndpointStats)) -> Seq<(String, ControlEndpointStats)>
    decreases s.len(),
{
    if s.len() == 0 {
        seq![x]
    } else if lex_lt(x.0@, s.last().0@) {
        insert_sorted(s.drop_last(), x).push(s.last())
    } else {
        s.push(x)
    }
}

/// The endpoint table in key order; entries with equal keys keep their order (stable sort).
pub open spec fn sorted_endpoints(s: Seq<(String, ControlEndpointStats)>) -> Seq<(String, ControlEndpointStats)>
    decreases s.len(),
{
    if s.len() == 0 {
        s
    } else {
        insert_sorted(sorted_endpoints(s.drop_last()), s.last())
    }
}

fn insert_entry(v: &mut Vec<(String, ControlEndpointStats)>, x: (String, ControlEndpointStats))
    ensures
        final(v)@ == insert_sorted(old(v)@, x),
{
    let ghost s = v@;
    let xk = chars_of(x.0.as_str());
    let mut j: usize = v.len();
    assert(s.take(j as int) =~= s);
    assert(s.skip(j as int) =~= Seq::<(String, ControlEndpointStats)>::empty());
    while j > 0
        invariant
            j <= s.len(),
            v@ == s,
            xk@ == x.0@,
            insert_sorted(s, x) == insert_sorted(s.take(j as int), x) + s.skip(j as int),
        ensures
            j <= s.len(),
            insert_sorted(s, x) == insert_sorted(s.take(j as int), x) + s.skip(j as int),
            j > 0 ==> !lex_lt(x.0@, s[j - 1].0@),
        decreases j,
    {
        let k = chars_of(v[j - 1].0.as_str());
        if !lex_less(xk.as_slice(), k.as_slice()) {
            break;
        }
        assert(s.take(j as int).drop_last() =~= s.take(j - 1));
        assert(s.take(j as int).last() == s[j - 1]);
        assert(s.skip(j - 1) =~= seq![s[j - 1]] + s.skip(j as int));
        assert(insert_sorted(s.take(j - 1), x).push(s[j - 1]) + s.skip(j as int) =~= insert_sorted(
            s.take(j - 1),
            x,
        ) + s.skip(j - 1));
        j -= 1;
    }
    if j > 0 {
        assert(s.take(j as int).last() == s[j - 1]);
    }
    assert(insert_sorted(s.take(j as int), x) == s.take(j as int).push(x));
    v.insert(j, x);
    assert(v@ =~= s.take(j as int).push(x) + s.skip(j as int));
}

fn copy_entry(e: &(String, ControlEndpointStats)) -> (r: (String, ControlEndpointStats))
    ensures
        r == *e,
{
    (e.0.clone(), e.1.copy())
}

/// The endpoint table sorted by key, equal keys in table order.
pub fn sort_endpoints(entries: &Vec<(String, ControlEndpointStats)>) -> (r: Vec<(String, ControlEndpointStats)>)
    ensures
        r@ == sorted_endpoints(entries@),
{
    let mut out: Vec<(String, ControlEndpointStats)> = Vec::new();
    let mut i: usize = 0;
    assert(entries@.take(0) =~= Seq::<(String, ControlEndpointStats)>::empty());
    while i < entries.len()
        invariant
            i <= entries@.len(),
            out@ == sorted_endpoints(entries@.take(i as int)),
        decreases entries@.len() - i,
    {
        assert(entries@.take(i as int + 1).drop_last() =~= entries@.take(i as int));
        assert(entries@.take(i as int + 1).last() == entries@[i as int]);
        let e = copy_entry(&entries[i]);
        insert_entry(&mut out, e);
        i += 1;
    }
    assert(entries@.take(entries@.len() as int) =~= entries@);
    out
}

/// The sample lines of each endpoint, in table order, after `p`.
pub open spec fn endpoint_lines(p: Seq<char>, s: Seq<(String, ControlEndpointStats)>) -> Seq<char>
    decreases s.len(),
{
    if s.len() == 0 {
        p
    } else {
        let q = endpoint_lines(p, s.drop_last());
        let e = s.last().0@;
        let st = s.last().1;
        let base = q
            + endpoint_line("lm_node_control_endpoint_requests_total"@, e, "all"@, st.requests as nat)
            + endpoint_line("lm_node_control_endpoint_requests_total"@, e, "2xx"@, st.responses_2xx as nat)
            + endpoint_line("lm_node_control_endpoint_requests_total"@, e, "4xx"@, st.responses_4xx as nat)
            + endpoint_line("lm_node_control_endpoint_requests_total"@, e, "5xx"@, st.responses_5xx as nat)
            + labeled_line("lm_node_control_endpoint_duration_micros_total"@, "endpoint"@, e, st.total_duration_micros as nat)
            + labeled_line("lm_node_control_endpoint_duration_micros_max"@, "endpoint"@, e, st.max_duration_micros as nat);
        match st.last_status {
            Some(status) => base + labeled_line("lm_node_control_endpoint_last_status"@, "endpoint"@, e, status as nat),
            None => base,
        }
    }
}

fn push_endpoint_lines(out: &mut String, s: &Vec<(String, ControlEndpointStats)>)
    ensures
        final(out)@ == endpoint_lines(old(out)@, s@),
{
    let ghost start = out@;
    let mut i: usize = 0;
    assert(s@.take(0) =~= Seq::<(String, ControlEndpointStats)>::empty());
    while i < s.len()
        invariant
            i <= s@.len(),
            out@ == endpoint_lines(start, s@.take(i as int)),
        decreases s@.len() - i,
    {
        assert(s@.take(i as int + 1).drop_last() =~= s@.take(i as int));
        assert(s@.take(i as int + 1).last() == s@[i as int]);
        let endpoint = s[i].0.as_str();
        let stats = &s[i].1;
        push_endpoint_metric_value(out, "lm_node_control_endpoint_requests_total", endpoint, "all", stats.requests as u128);
        push_endpoint_metric_value(out, "lm_node_control_endpoint_requests_total", endpoint, "2xx", stats.responses_2xx as u128);
        push_endpoint_metric_value(out, "lm_node_control_endpoint_requests_total", endpoint, "4xx", stats.responses_4xx as u128);
        push_endpoint_metric_value(out, "lm_node_control_endpoint_requests_total", endpoint, "5xx", stats.responses_5xx as u128);
        push_labeled_metric_value(out, "lm_node_control_endpoint_duration_micros_total", "endpoint", endpoint, stats.total_duration_micros);
        push_labeled_metric_value(out, "lm_node_control_endpoint_duration_micros_max", "endpoint", endpoint, stats.max_duration_micros);
        if let Some(status) = stats.last_status {
            push_labeled_metric_value(out, "lm_node_control_endpoint_last_status", "endpoint", endpoint, status as u128);
        }
        i += 1;
    }
    assert(s@.take(s@.len() as int) =~= s@);
}

/// The per-peer sync lines, in table order, after `p`.
pub open spec fn sync_peer_lines(p: Seq<char>, s: Seq<(String, NodeSyncPeerStatus)>, threshold: u32, now: u64) -> Seq<char>
    decreases s.len(),
{
    if s.len() == 0 {
        p
    } else {
        let q = sync_peer_lines(p, s.drop_last(), threshold, now);
        let peer = s.last().0@;
        let st = s.last().1;
        let base = q
            + labeled_line("lm_node_sync_peer_attempts_total"@, "peer"@, peer, st.attempts as nat)
            + labeled_line("lm_node_sync_peer_successes_total"@, "peer"@, peer, st.successes as nat)
            + labeled_line("lm_node_sync_peer_failures_total"@, "peer"@, peer, st.failures as nat)
            + labeled_line("lm_node_sync_peer_consecutive_failures"@, "peer"@, peer, st.consecutive_failures as nat)
            + labeled_line("lm_node_dht_peer_quarantined"@, "peer"@, peer, if quarantined(st, now, threshold) { 1nat } else { 0nat });
        match st.next_attempt_at {
            Some(next) => base + labeled_line("lm_node_sync_peer_next_attempt_at"@, "peer"@, peer, next as nat),
            None => base,
        }
    }
}

/// The sync section: its help and type lines, then each peer's samples.
pub open spec fn sync_status_lines(p: Seq<char>, sync_status: NodeSyncStatus, threshold: u32, now: u64) -> Seq<char> {
    let h = p
        + help_line("lm_node_sync_peer_attempts_total"@, "Snapshot sync attempts by peer."@)
        + type_line("lm_node_sync_peer_attempts_total"@, "counter"@)
        + help_line("lm_node_sync_peer_successes_total"@, "Snapshot sync successes by peer."@)
        + type_line("lm_node_sync_peer_successes_total"@, "counter"@)
        + help_line("lm_node_sync_peer_failures_total"@, "Snapshot sync failures by peer."@)
        + type_line("lm_node_sync_peer_failures_total"@, "counter"@)
        + help_line("lm_node_sync_peer_consecutive_failures"@, "Current consecutive snapshot sync failures by peer."@)
        + type_line("lm_node_sync_peer_consecutive_failures"@, "gauge"@)
        + help_line("lm_node_sync_peer_next_attempt_at"@, "Unix timestamp for the next scheduled snapshot sync attempt by peer."@)
        + type_line("lm_node_sync_peer_next_attempt_at"@, "gauge"@)
        + help_line("lm_node_dht_peer_quarantined"@, "Whether a sync/control peer is currently skipped by DHT runners due to consecutive failures."@)
        + type_line("lm_node_dht_peer_quarantined"@, "gauge"@);
    sync_peer_lines(h, sync_status.peers@, threshold, now)
}

/// Appends the sync section: per peer its attempts, successes, failures, consecutive
/// failures, whether the DHT runners skip it at `now`, and its next attempt time.
pub fn push_sync_status_metrics(out: &mut String, sync_status: &NodeSyncStatus, dht_peer_quarantine_threshold: u32, now: u64)
    ensures
        final(out)@ == sync_status_lines(old(out)@, *sync_status, dht_peer_quarantine_threshold, now),
{
    push_metric_help(out, "lm_node_sync_peer_attempts_total", "Snapshot sync attempts by peer.");
    push_metric_type(out, "lm_node_sync_peer_attempts_total", "counter");
    push_metric_help(out, "lm_node_sync_peer_successes_total", "Snapshot sync successes by peer.");
    push_metric_type(out, "lm_node_sync_peer_successes_total", "counter");
    push_metric_help(out, "lm_node_sync_peer_failures_total", "Snapshot sync failures by peer.");
    push_metric_type(out, "lm_node_sync_peer_failures_total", "counter");
    push_metric_help(out, "lm_node_sync_peer_consecutive_failures", "Current consecutive snapshot sync failures by peer.");
    push_metric_type(out, "lm_node_sync_peer_consecutive_failures", "gauge");
    push_metric_help(out, "lm_node_sync_peer_next_attempt_at", "Unix timestamp for the next scheduled snapshot sync attempt by peer.");
    push_metric_type(out, "lm_node_sync_peer_next_attempt_at", "gauge");
    push_metric_help(out, "lm_node_dht_peer_quarantined", "Whether a sync/control peer is currently skipped by DHT runners due to consecutive failures.");
    push_metric_type(out, "lm_node_dht_peer_quarantined", "gauge");
    let ghost h = out@;
    let s = &sync_status.peers;
    let mut i: usize = 0;
    assert(s@.take(0) =~= Seq::<(String, NodeSyncPeerStatus)>::empty());
    while i < s.len()
        invariant
            i <= s@.len(),
            out@ == sync_peer_lines(h, s@.take(i as int), dht_peer_quarantine_threshold, now),
        decreases s@.len() - i,
    {
        assert(s@.take(i as int + 1).drop_last() =~= s@.take(i as int));
        assert(s@.take(i as int + 1).last() == s@[i as int]);
        let peer = s[i].0.as_str();
        let status = &s[i].1;
        push_labeled_metric_value(out, "lm_node_sync_peer_attempts_total", "peer", peer, status.attempts as u128);
        push_labeled_metric_value(out, "lm_node_sync_peer_successes_total", "peer", peer, status.successes as u128);
        push_labeled_metric_value(out, "lm_node_sync_peer_failures_total", "peer", peer, status.failures as u128);
        push_labeled_metric_value(out, "lm_node_sync_peer_consecutive_failures", "peer", peer, status.consecutive_failures as u128);
        let q: u128 = if sync_peer_is_dht_quarantined(status, now, dht_peer_quarantine_threshold) { 1 } else { 0 };
        push_labeled_metric_value(out, "lm_node_dht_peer_quarantined", "peer", peer, q);
        if let Some(next_attempt_at) = status.next_attempt_at {
            push_labeled_metric_value(out, "lm_node_sync_peer_next_attempt_at", "peer", peer, next_attempt_at as u128);
        }
        i += 1;
    }
    assert(s@.take(s@.len() as int) =~= s@);
}

impl ControlRuntimeStats {
    /// Section 0 of the exposition, appended to `p`.
    pub open spec fn exposition_part_0(&self, p: Seq<char>, maintenance: NodeMaintenanceStats, state_db: Option<StateDbStats>, sync_status: Option<NodeSyncStatus>, dht_peer_quarantine_threshold: u32, now: u64) -> Seq<char> {
        p
            + help_line("lm_node_control_started_at"@, "Unix timestamp when the control runtime started."@)
            + type_line("lm_node_control_started_at"@, "gauge"@)
            + value_line("lm_node_control_started_at"@, self.started_at as nat)
            + help_line("lm_node_control_requests_total"@, "Total control HTTP responses by status class and security outcome."@)
            + type_line("lm_node_control_requests_total"@, "counter"@)
            + value_line("lm_node_control_requests_total"@, self.requests_total as nat)
            + labeled_line("lm_node_control_responses_total"@, "class"@, "2xx"@, self.responses_2xx as nat)
            + labeled_line("lm_node_control_responses_total"@, "class"@, "4xx"@, self.responses_4xx as nat)
            + labeled_line("lm_node_control_responses_total"@, "class"@, "5xx"@, self.responses_5xx as nat)
            + labeled_line("lm_node_control_security_events_total"@, "event"@, "bad_request"@, self.bad_requests as nat)
            + labeled_line("lm_node_control_security_events_total"@, "event"@, "unauthorized"@, self.unauthorized as nat)
            + labeled_line("lm_node_control_security_events_total"@, "event"@, "cors_rejected"@, self.cors_rejected as nat)
    }

    fn push_exposition_part_0(&self, out: &mut String, maintenance: &NodeMaintenanceStats, state_db: Option<&StateDbStats>, sync_status: Option<&NodeSyncStatus>, dht_peer_quarantine_threshold: u32, now: u64)
        ensures
            final(out)@ == self.exposition_part_0(old(out)@, *maintenance, opt_copy(state_db), opt_copy(sync_status), dht_peer_quarantine_threshold, now),
    {
        push_metric_help(out, "lm_node_control_started_at", "Unix timestamp when the control runtime started.");
        push_metric_type(out, "lm_node_control_started_at", "gauge");
        push_metric_value(out, "lm_node_control_started_at", self.started_at as u128);
        push_metric_help(out, "lm_node_control_requests_total", "Total control HTTP responses by status class and security outcome.");
        push_metric_type(out, "lm_node_control_requests_total", "counter");
        push_metric_value(out, "lm_node_control_requests_total", self.requests_total as u128);
        push_labeled_metric_value(out, "lm_node_control_responses_total", "class", "2xx", self.responses_2xx as u128);
        push_labeled_metric_value(out, "lm_node_control_responses_total", "class", "4xx", self.responses_4xx as u128);
        push_labeled_metric_value(out, "lm_node_control_responses_total", "class", "5xx", self.responses_5xx as u128);
        push_labeled_metric_value(out, "lm_node_control_security_events_total", "event", "bad_request", self.bad_requests as u128);
        push_labeled_metric_value(out, "lm_node_control_security_events_total", "event", "unauthorized", self.unauthorized as u128);
        push_labeled_metric_value(out, "lm_node_control_security_events_total", "event", "cors_rejected", self.cors_rejected as u128);
    }

    /// Section 1 of the exposition, appended to `p`.
    pub open spec fn exposition_part_1(&self, p: Seq<char>, maintenance: NodeMaintenanceStats, state_db: Option<StateDbStats>, sync_status: Option<NodeSyncStatus>, dht_peer_quarantine_threshold: u32, now: u64) -> Seq<char> {
        p
            + labeled_line("lm_node_control_security_events_total"@, "event"@, "rate_limited"@, self.rate_limited as nat)
            + help_line("lm_node_control_sync_snapshots_total"@, "Successful snapshot sync import/export operations through the control plane."@)
            + type_line("lm_node_control_sync_snapshots_total"@, "counter"@)
            + labeled_line("lm_node_control_sync_snapshots_total"@, "direction"@, "export"@, self.sync_snapshot_exports as nat)
            + labeled_line("lm_node_control_sync_snapshots_total"@, "direction"@, "import"@, self.sync_snapshot_imports as nat)
            + help_line("lm_node_control_sync_snapshot_bytes_total"@, "Snapshot sync import/export payload bytes through the control plane."@)
            + type_line("lm_node_control_sync_snapshot_bytes_total"@, "counter"@)
            + labeled_line("lm_node_control_sync_snapshot_bytes_total"@, "direction"@, "export"@, self.sync_snapshot_export_bytes as nat)
            + labeled_line("lm_node_control_sync_snapshot_bytes_total"@, "direction"@, "import"@, self.sync_snapshot_import_bytes as nat)
            + help_line("lm_node_dht_replication_runs_total"@, "Total DHT control-peer replication runner executions."@)
            + type_line("lm_node_dht_replication_runs_total"@, "counter"@)
            + value_line("lm_node_dht_replication_runs_total"@, self.dht_replication_runs as nat)
    }

    fn push_exposition_part_1(&self, out: &mut String, maintenance: &NodeMaintenanceStats, state_db: Option<&StateDbStats>, sync_status: Option<&NodeSyncStatus>, dht_peer_quarantine_threshold: u32, now: u64)
        ensures
            final(out)@ == self.exposition_part_1(old(out)@, *maintenance, opt_copy(state_db), opt_copy(sync_status), dht_peer_quarantine_threshold, now),
    {
        push_labeled_metric_value(out, "lm_node_control_security_events_total", "event", "rate_limited", self.rate_limited as u128);
        push_metric_help(out, "lm_node_control_sync_snapshots_total", "Successful snapshot sync import/export operations through the control plane.");
        push_metric_type(out, "lm_node_control_sync_snapshots_total", "counter");
        push_labeled_metric_value(out, "lm_node_control_sync_snapshots_total", "direction", "export", self.sync_snapshot_exports as u128);
        push_labeled_metric_value(out, "lm_node_control_sync_snapshots_total", "direction", "import", self.sync_snapshot_imports as u128);
        push_metric_help(out, "lm_node_control_sync_snapshot_bytes_total", "Snapshot sync import/export payload bytes through the control plane.");
        push_metric_type(out, "lm_node_control_sync_snapshot_bytes_total", "counter");
        push_labeled_metric_value(out, "lm_node_control_sync_snapshot_bytes_total", "direction", "export", self.sync_snapshot_export_bytes as u128);
        push_labeled_metric_value(out, "lm_node_control_sync_snapshot_bytes_total", "direction", "import", self.sync_snapshot_import_bytes as u128);
        push_metric_help(out, "lm_node_dht_replication_runs_total", "Total DHT control-peer replication runner executions.");
        push_metric_type(out, "lm_node_dht_replication_runs_total", "counter");
        push_metric_value(out, "lm_node_dht_replication_runs_total", self.dht_replication_runs as u128);
    }

    /// Section 2 of the exposition, appended to `p`.
    pub open spec fn exposition_part_2(&self, p: Seq<char>, maintenance: NodeMaintenanceStats, state_db: Option<StateDbStats>, sync_status: Option<NodeSyncStatus>, dht_peer_quarantine_threshold: u32, now: u64) -> Seq<char> {
        p
            + help_line("lm_node_dht_replication_records_total"@, "DHT records included in replication runner plans."@)
            + type_line("lm_node_dht_replication_records_total"@, "counter"@)
            + value_line("lm_node_dht_replication_records_total"@, self.dht_replication_records as nat)
            + help_line("lm_node_dht_replication_attempts_total"@, "DHT StoreRecord replication attempts by result."@)
            + type_line("lm_node_dht_replication_attempts_total"@, "counter"@)
            + labeled_line("lm_node_dht_replication_attempts_total"@, "result"@, "success"@, self.dht_replication_successes as nat)
            + labeled_line("lm_node_dht_replication_attempts_total"@, "result"@, "failure"@, self.dht_replication_failures as nat)
            + labeled_line("lm_node_dht_replication_attempts_total"@, "result"@, "all"@, self.dht_replication_attempts as nat)
            + help_line("lm_node_dht_replication_peers_quarantined_total"@, "DHT replication peers skipped by quarantine."@)
            + type_line("lm_node_dht_replication_peers_quarantined_total"@, "counter"@)
            + value_line("lm_node_dht_replication_peers_quarantined_total"@, self.dht_replication_peers_quarantined as nat)
    }

    fn push_exposition_part_2(&self, out: &mut String, maintenance: &NodeMaintenanceStats, state_db: Option<&StateDbStats>, sync_status: Option<&NodeSyncStatus>, dht_peer_quarantine_threshold: u32, now: u64)
        ensures
            final(out)@ == self.exposition_part_2(old(out)@, *maintenance, opt_copy(state_db), opt_copy(sync_status), dht_peer_quarantine_threshold, now),
    {
        push_metric_help(out, "lm_node_dht_replication_records_total", "DHT records included in replication runner plans.");
        push_metric_type(out, "lm_node_dht_replication_records_total", "counter");
        push_metric_value(out, "lm_node_dht_replication_records_total", self.dht_replication_records as u128);
        push_metric_help(out, "lm_node_dht_replication_attempts_total", "DHT StoreRecord replication attempts by result.");
        push_metric_type(out, "lm_node_dht_replication_attempts_total", "counter");
        push_labeled_metric_value(out, "lm_node_dht_replication_attempts_total", "result", "success", self.dht_replication_successes as u128);
        push_labeled_metric_value(out, "lm_node_dht_replication_attempts_total", "result", "failure", self.dht_replication_failures as u128);
        push_labeled_metric_value(out, "lm_node_dht_replication_attempts_total", "result", "all", self.dht_replication_attempts as u128);
        push_metric_help(out, "lm_node_dht_replication_peers_quarantined_total", "DHT replication peers skipped by quarantine.");
        push_metric_type(out, "lm_node_dht_replication_peers_quarantined_total", "counter");
        push_metric_value(out, "lm_node_dht_replication_peers_quarantined_total", self.dht_replication_peers_quarantined as u128);
    }

    /// Section 3 of the exposition, appended to `p`.
    pub open spec fn exposition_part_3(&self, p: Seq<char>, maintenance: NodeMaintenanceStats, state_db: Option<StateDbStats>, sync_status: Option<NodeSyncStatus>, dht_peer_quarantine_threshold: u32, now: u64) -> Seq<char> {
        match self.last_dht_replication_at {
            Some(last_dht_replication_at) => p
            + help_line("lm_node_dht_replication_last_run_at"@, "Unix timestamp of the last DHT replication runner execution."@)
            + type_line("lm_node_dht_replication_last_run_at"@, "gauge"@)
            + value_line("lm_node_dht_replication_last_run_at"@, last_dht_replication_at as nat),
            None => p,
        }
    }

    fn push_exposition_part_3(&self, out: &mut String, maintenance: &NodeMaintenanceStats, state_db: Option<&StateDbStats>, sync_status: Option<&NodeSyncStatus>, dht_peer_quarantine_threshold: u32, now: u64)
        ensures
            final(out)@ == self.exposition_part_3(old(out)@, *maintenance, opt_copy(state_db), opt_copy(sync_status), dht_peer_quarantine_threshold, now),
    {
        if let Some(last_dht_replication_at) = self.last_dht_replication_at {
            push_metric_help(out, "lm_node_dht_replication_last_run_at", "Unix timestamp of the last DHT replication runner execution.");
            push_metric_type(out, "lm_node_dht_replication_last_run_at", "gauge");
            push_metric_value(out, "lm_node_dht_replication_last_run_at", last_dht_replication_at as u128);
        }
    }

    /// Section 4 of the exposition, appended to `p`.
    pub open spec fn exposition_part_4(&self, p: Seq<char>, maintenance: NodeMaintenanceStats, state_db: Option<StateDbStats>, sync_status: Option<NodeSyncStatus>, dht_peer_quarantine_threshold: u32, now: u64) -> Seq<char> {
        p
            + help_line("lm_node_dht_routing_refresh_runs_total"@, "Total DHT routing refresh runner executions."@)
            + type_line("lm_node_dht_routing_refresh_runs_total"@, "counter"@)
            + value_line("lm_node_dht_routing_refresh_runs_total"@, self.dht_routing_refresh_runs as nat)
            + help_line("lm_node_dht_routing_refresh_targets_total"@, "DHT routing refresh targets queried by the runner."@)
            + type_line("lm_node_dht_routing_refresh_targets_total"@, "counter"@)
            + value_line("lm_node_dht_routing_refresh_targets_total"@, self.dht_routing_refresh_targets as nat)
            + help_line("lm_node_dht_routing_refresh_attempts_total"@, "DHT FindNode routing refresh attempts by result."@)
            + type_line("lm_node_dht_routing_refresh_attempts_total"@, "counter"@)
            + labeled_line("lm_node_dht_routing_refresh_attempts_total"@, "result"@, "success"@, self.dht_routing_refresh_successes as nat)
            + labeled_line("lm_node_dht_routing_refresh_attempts_total"@, "result"@, "failure"@, self.dht_routing_refresh_failures as nat)
            + labeled_line("lm_node_dht_routing_refresh_attempts_total"@, "result"@, "all"@, self.dht_routing_refresh_attempts as nat)
            + help_line("lm_node_dht_routing_refresh_nodes_returned_total"@, "Routing peers returned by DHT FindNode refresh responses."@)
    }

    fn push_exposition_part_4(&self, out: &mut String, maintenance: &NodeMaintenanceStats, state_db: Option<&StateDbStats>, sync_status: Option<&NodeSyncStatus>, dht_peer_quarantine_threshold: u32, now: u64)
        ensures
            final(out)@ == self.exposition_part_4(old(out)@, *maintenance, opt_copy(state_db), opt_copy(sync_status), dht_peer_quarantine_threshold, now),
    {
        push_metric_help(out, "lm_node_dht_routing_refresh_runs_total", "Total DHT routing refresh runner executions.");
        push_metric_type(out, "lm_node_dht_routing_refresh_runs_total", "counter");
        push_metric_value(out, "lm_node_dht_routing_refresh_runs_total", self.dht_routing_refresh_runs as u128);
        push_metric_help(out, "lm_node_dht_routing_refresh_targets_total", "DHT routing refresh targets queried by the runner.");
        push_metric_type(out, "lm_node_dht_routing_refresh_targets_total", "counter");
        push_metric_value(out, "lm_node_dht_routing_refresh_targets_total", self.dht_routing_refresh_targets as u128);
        push_metric_help(out, "lm_node_dht_routing_refresh_attempts_total", "DHT FindNode routing refresh attempts by result.");
        push_metric_type(out, "lm_node_dht_routing_refresh_attempts_total", "counter");
        push_labeled_metric_value(out, "lm_node_dht_routing_refresh_attempts_total", "result", "success", self.dht_routing_refresh_successes as u128);
        push_labeled_metric_value(out, "lm_node_dht_routing_refresh_attempts_total", "result", "failure", self.dht_routing_refresh_failures as u128);
        push_labeled_metric_value(out, "lm_node_dht_routing_refresh_attempts_total", "result", "all", self.dht_routing_refresh_attempts as u128);
        push_metric_help(out, "lm_node_dht_routing_refresh_nodes_returned_total", "Routing peers returned by DHT FindNode refresh responses.");
    }

    /// Section 5 of the exposition, appended to `p`.
    pub open spec fn exposition_part_5(&self, p: Seq<char>, maintenance: NodeMaintenanceStats, state_db: Option<StateDbStats>, sync_status: Option<NodeSyncStatus>, dht_peer_quarantine_threshold: u32, now: u64) -> Seq<char> {
        p
            + type_line("lm_node_dht_routing_refresh_nodes_returned_total"@, "counter"@)
            + value_line("lm_node_dht_routing_refresh_nodes_returned_total"@, self.dht_routing_refresh_nodes_returned as nat)
            + help_line("lm_node_dht_routing_refresh_nodes_merged_total"@, "Trusted routing peers merged from DHT FindNode refresh responses."@)
            + type_line("lm_node_dht_routing_refresh_nodes_merged_total"@, "counter"@)
            + value_line("lm_node_dht_routing_refresh_nodes_merged_total"@, self.dht_routing_refresh_nodes_merged as nat)
            + help_line("lm_node_dht_routing_refresh_nodes_rejected_total"@, "Routing peers rejected from DHT FindNode refresh responses before merge."@)
            + type_line("lm_node_dht_routing_refresh_nodes_rejected_total"@, "counter"@)
            + labeled_line("lm_node_dht_routing_refresh_nodes_rejected_total"@, "reason"@, "non_closer"@, self.dht_routing_refresh_nodes_rejected_non_closer as nat)
            + labeled_line("lm_node_dht_routing_refresh_nodes_rejected_total"@, "reason"@, "duplicate"@, self.dht_routing_refresh_nodes_rejected_duplicate as nat)
            + help_line("lm_node_dht_routing_refresh_peers_quarantined_total"@, "DHT routing refresh peers skipped by quarantine."@)
            + type_line("lm_node_dht_routing_refresh_peers_quarantined_total"@, "counter"@)
            + value_line("lm_node_dht_routing_refresh_peers_quarantined_total"@, self.dht_routing_refresh_peers_quarantined as nat)
    }

    fn push_exposition_part_5(&self, out: &mut String, maintenance: &NodeMaintenanceStats, state_db: Option<&StateDbStats>, sync_status: Option<&NodeSyncStatus>, dht_peer_quarantine_threshold: u32, now: u64)
        ensures
            final(out)@ == self.exposition_part_5(old(out)@, *maintenance, opt_copy(state_db), opt_copy(sync_status), dht_peer_quarantine_threshold, now),
    {
        push_metric_type(out, "lm_node_dht_routing_refresh_nodes_returned_total", "counter");
        push_metric_value(out, "lm_node_dht_routing_refresh_nodes_returned_total", self.dht_routing_refresh_nodes_returned as u128);
        push_metric_help(out, "lm_node_dht_routing_refresh_nodes_merged_total", "Trusted routing peers merged from DHT FindNode refresh responses.");
        push_metric_type(out, "lm_node_dht_routing_refresh_nodes_merged_total", "counter");
        push_metric_value(out, "lm_node_dht_routing_refresh_nodes_merged_total", self.dht_routing_refresh_nodes_merged as u128);
        push_metric_help(out, "lm_node_dht_routing_refresh_nodes_rejected_total", "Routing peers rejected from DHT FindNode refresh responses before merge.");
        push_metric_type(out, "lm_node_dht_routing_refresh_nodes_rejected_total", "counter");
        push_labeled_metric_value(out, "lm_node_dht_routing_refresh_nodes_rejected_total", "reason", "non_closer", self.dht_routing_refresh_nodes_rejected_non_closer as u128);
        push_labeled_metric_value(out, "lm_node_dht_routing_refresh_nodes_rejected_total", "reason", "duplicate", self.dht_routing_refresh_nodes_rejected_duplicate as u128);
        push_metric_help(out, "lm_node_dht_routing_refresh_peers_quarantined_total", "DHT routing refresh peers skipped by quarantine.");
        push_metric_type(out, "lm_node_dht_routing_refresh_peers_quarantined_total", "counter");
        push_metric_value(out, "lm_node_dht_routing_refresh_peers_quarantined_total", self.dht_routing_refresh_peers_quarantined as u128);
    }

    /// Section 6 of the exposition, appended to `p`.
    pub open spec fn exposition_part_6(&self, p: Seq<char>, maintenance: NodeMaintenanceStats, state_db: Option<StateDbStats>, sync_status: Option<NodeSyncStatus>, dht_peer_quarantine_threshold: u32, now: u64) -> Seq<char> {
        match self.last_dht_routing_refresh_at {
            Some(last_dht_routing_refresh_at) => p
            + help_line("lm_node_dht_routing_refresh_last_run_at"@, "Unix timestamp of the last DHT routing refresh runner execution."@)
            + type_line("lm_node_dht_routing_refresh_last_run_at"@, "gauge"@)
            + value_line("lm_node_dht_routing_refresh_last_run_at"@, last_dht_routing_refresh_at as nat),
            None => p,
        }
    }

    fn push_exposition_part_6(&self, out: &mut String, maintenance: &NodeMaintenanceStats, state_db: Option<&StateDbStats>, sync_status: Option<&NodeSyncStatus>, dht_peer_quarantine_threshold: u32, now: u64)
        ensures
            final(out)@ == self.exposition_part_6(old(out)@, *maintenance, opt_copy(state_db), opt_copy(sync_status), dht_peer_quarantine_threshold, now),
    {
        if let Some(last_dht_routing_refresh_at) = self.last_dht_routing_refresh_at {
            push_metric_help(out, "lm_node_dht_routing_refresh_last_run_at", "Unix timestamp of the last DHT routing refresh runner execution.");
            push_metric_type(out, "lm_node_dht_routing_refresh_last_run_at", "gauge");
            push_metric_value(out, "lm_node_dht_routing_refresh_last_run_at", last_dht_routing_refresh_at as u128);
        }
    }

    /// Section 7 of the exposition, appended to `p`.
    pub open spec fn exposition_part_7(&self, p: Seq<char>, maintenance: NodeMaintenanceStats, state_db: Option<StateDbStats>, sync_status: Option<NodeSyncStatus>, dht_peer_quarantine_threshold: u32, now: u64) -> Seq<char> {
        p
            + help_line("lm_node_dht_find_value_runs_total"@, "Total manual DHT FindValue runner executions."@)
            + type_line("lm_node_dht_find_value_runs_total"@, "counter"@)
            + value_line("lm_node_dht_find_value_runs_total"@, self.dht_find_value_runs as nat)
            + help_line("lm_node_dht_find_value_attempts_total"@, "Manual DHT FindValue attempts by result."@)
            + type_line("lm_node_dht_find_value_attempts_total"@, "counter"@)
            + labeled_line("lm_node_dht_find_value_attempts_total"@, "result"@, "success"@, self.dht_find_value_successes as nat)
            + labeled_line("lm_node_dht_find_value_attempts_total"@, "result"@, "failure"@, self.dht_find_value_failures as nat)
            + labeled_line("lm_node_dht_find_value_attempts_total"@, "result"@, "all"@, self.dht_find_value_attempts as nat)
            + help_line("lm_node_dht_find_value_records_total"@, "Manual DHT FindValue records merged by kind."@)
            + type_line("lm_node_dht_find_value_records_total"@, "counter"@)
            + labeled_line("lm_node_dht_find_value_records_total"@, "kind"@, "found"@, self.dht_find_value_found_records as nat)
            + labeled_line("lm_node_dht_find_value_records_total"@, "kind"@, "closer"@, self.dht_find_value_closer_records as nat)
    }

    fn push_exposition_part_7(&self, out: &mut String, maintenance: &NodeMaintenanceStats, state_db: Option<&StateDbStats>, sync_status: Option<&NodeSyncStatus>, dht_peer_quarantine_threshold: u32, now: u64)
        ensures
            final(out)@ == self.exposition_part_7(old(out)@, *maintenance, opt_copy(state_db), opt_copy(sync_status), dht_peer_quarantine_threshold, now),
    {
        push_metric_help(out, "lm_node_dht_find_value_runs_total", "Total manual DHT FindValue runner executions.");
        push_metric_type(out, "lm_node_dht_find_value_runs_total", "counter");
        push_metric_value(out, "lm_node_dht_find_value_runs_total", self.dht_find_value_runs as u128);
        push_metric_help(out, "lm_node_dht_find_value_attempts_total", "Manual DHT FindValue attempts by result.");
        push_metric_type(out, "lm_node_dht_find_value_attempts_total", "counter");
        push_labeled_metric_value(out, "lm_node_dht_find_value_attempts_total", "result", "success", self.dht_find_value_successes as u128);
        push_labeled_metric_value(out, "lm_node_dht_find_value_attempts_total", "result", "failure", self.dht_find_value_failures as u128);
        push_labeled_metric_value(out, "lm_node_dht_find_value_attempts_total", "result", "all", self.dht_find_value_attempts as u128);
        push_metric_help(out, "lm_node_dht_find_value_records_total", "Manual DHT FindValue records merged by kind.");
        push_metric_type(out, "lm_node_dht_find_value_records_total", "counter");
        push_labeled_metric_value(out, "lm_node_dht_find_value_records_total", "kind", "found", self.dht_find_value_found_records as u128);
        push_labeled_metric_value(out, "lm_node_dht_find_value_records_total", "kind", "closer", self.dht_find_value_closer_records as u128);
    }

    /// Section 8 of the exposition, appended to `p`.
    pub open spec fn exposition_part_8(&self, p: Seq<char>, maintenance: NodeMaintenanceStats, state_db: Option<StateDbStats>, sync_status: Option<NodeSyncStatus>, dht_peer_quarantine_threshold: u32, now: u64) -> Seq<char> {
        p
            + help_line("lm_node_dht_find_value_closer_nodes_total"@, "Manual DHT FindValue closer nodes returned and merged."@)
            + type_line("lm_node_dht_find_value_closer_nodes_total"@, "counter"@)
            + labeled_line("lm_node_dht_find_value_closer_nodes_total"@, "kind"@, "returned"@, self.dht_find_value_closer_nodes_returned as nat)
            + labeled_line("lm_node_dht_find_value_closer_nodes_total"@, "kind"@, "merged"@, self.dht_find_value_closer_nodes_merged as nat)
            + labeled_line("lm_node_dht_find_value_closer_nodes_total"@, "kind"@, "rejected_non_closer"@, self.dht_find_value_closer_nodes_rejected_non_closer as nat)
            + labeled_line("lm_node_dht_find_value_closer_nodes_total"@, "kind"@, "rejected_duplicate"@, self.dht_find_value_closer_nodes_rejected_duplicate as nat)
            + help_line("lm_node_dht_find_value_peers_quarantined_total"@, "Manual DHT FindValue peers skipped by quarantine."@)
            + type_line("lm_node_dht_find_value_peers_quarantined_total"@, "counter"@)
            + value_line("lm_node_dht_find_value_peers_quarantined_total"@, self.dht_find_value_peers_quarantined as nat)
            + help_line("lm_node_dht_find_value_query_rounds_total"@, "Total query rounds used by manual DHT FindValue runs."@)
            + type_line("lm_node_dht_find_value_query_rounds_total"@, "counter"@)
            + value_line("lm_node_dht_find_value_query_rounds_total"@, self.dht_find_value_query_rounds as nat)
    }

    fn push_exposition_part_8(&self, out: &mut String, maintenance: &NodeMaintenanceStats, state_db: Option<&StateDbStats>, sync_status: Option<&NodeSyncStatus>, dht_peer_quarantine_threshold: u32, now: u64)
        ensures
            final(out)@ == self.exposition_part_8(old(out)@, *maintenance, opt_copy(state_db), opt_copy(sync_status), dht_peer_quarantine_threshold, now),
    {
        push_metric_help(out, "lm_node_dht_find_value_closer_nodes_total", "Manual DHT FindValue closer nodes returned and merged.");
        push_metric_type(out, "lm_node_dht_find_value_closer_nodes_total", "counter");
        push_labeled_metric_value(out, "lm_node_dht_find_value_closer_nodes_total", "kind", "returned", self.dht_find_value_closer_nodes_returned as u128);
        push_labeled_metric_value(out, "lm_node_dht_find_value_closer_nodes_total", "kind", "merged", self.dht_find_value_closer_nodes_merged as u128);
        push_labeled_metric_value(out, "lm_node_dht_find_value_closer_nodes_total", "kind", "rejected_non_closer", self.dht_find_value_closer_nodes_rejected_non_closer as u128);
        push_labeled_metric_value(out, "lm_node_dht_find_value_closer_nodes_total", "kind", "rejected_duplicate", self.dht_find_value_closer_nodes_rejected_duplicate as u128);
        push_metric_help(out, "lm_node_dht_find_value_peers_quarantined_total", "Manual DHT FindValue peers skipped by quarantine.");
        push_metric_type(out, "lm_node_dht_find_value_peers_quarantined_total", "counter");
        push_metric_value(out, "lm_node_dht_find_value_peers_quarantined_total", self.dht_find_value_peers_quarantined as u128);
        push_metric_help(out, "lm_node_dht_find_value_query_rounds_total", "Total query rounds used by manual DHT FindValue runs.");
        push_metric_type(out, "lm_node_dht_find_value_query_rounds_total", "counter");
        push_metric_value(out, "lm_node_dht_find_value_query_rounds_total", self.dht_find_value_query_rounds as u128);
    }

    /// Section 9 of the exposition, appended to `p`.
    pub open spec fn exposition_part_9(&self, p: Seq<char>, maintenance: NodeMaintenanceStats, state_db: Option<StateDbStats>, sync_status: Option<NodeSyncStatus>, dht_peer_quarantine_threshold: u32, now: u64) -> Seq<char> {
        p
            + help_line("lm_node_dht_find_value_alpha_max"@, "Maximum alpha requested by manual DHT FindValue runs."@)
            + type_line("lm_node_dht_find_value_alpha_max"@, "gauge"@)
            + value_line("lm_node_dht_find_value_alpha_max"@, self.dht_find_value_alpha_max as nat)
            + help_line("lm_node_dht_find_value_exhausted_total"@, "Manual DHT FindValue runs that exhausted candidates without finding a record."@)
            + type_line("lm_node_dht_find_value_exhausted_total"@, "counter"@)
            + value_line("lm_node_dht_find_value_exhausted_total"@, self.dht_find_value_exhausted as nat)
    }

    fn push_exposition_part_9(&self, out: &mut String, maintenance: &NodeMaintenanceStats, state_db: Option<&StateDbStats>, sync_status: Option<&NodeSyncStatus>, dht_peer_quarantine_threshold: u32, now: u64)
        ensures
            final(out)@ == self.exposition_part_9(old(out)@, *maintenance, opt_copy(state_db), opt_copy(sync_status), dht_peer_quarantine_threshold, now),
    {
        push_metric_help(out, "lm_node_dht_find_value_alpha_max", "Maximum alpha requested by manual DHT FindValue runs.");
        push_metric_type(out, "lm_node_dht_find_value_alpha_max", "gauge");
        push_metric_value(out, "lm_node_dht_find_value_alpha_max", self.dht_find_value_alpha_max as u128);
        push_metric_help(out, "lm_node_dht_find_value_exhausted_total", "Manual DHT FindValue runs that exhausted candidates without finding a record.");
        push_metric_type(out, "lm_node_dht_find_value_exhausted_total", "counter");
        push_metric_value(out, "lm_node_dht_find_value_exhausted_total", self.dht_find_value_exhausted as u128);
    }

    /// Section 10 of the exposition, appended to `p`.
    pub open spec fn exposition_part_10(&self, p: Seq<char>, maintenance: NodeMaintenanceStats, state_db: Option<StateDbStats>, sync_status: Option<NodeSyncStatus>, dht_peer_quarantine_threshold: u32, now: u64) -> Seq<char> {
        match self.last_dht_find_value_at {
            Some(last_dht_find_value_at) => p
            + help_line("lm_node_dht_find_value_last_run_at"@, "Unix timestamp of the last manual DHT FindValue execution."@)
            + type_line("lm_node_dht_find_value_last_run_at"@, "gauge"@)
            + value_line("lm_node_dht_find_value_last_run_at"@, last_dht_find_value_at as nat),
            None => p,
        }
    }

    fn push_exposition_part_10(&self, out: &mut String, maintenance: &NodeMaintenanceStats, state_db: Option<&StateDbStats>, sync_status: Option<&NodeSyncStatus>, dht_peer_quarantine_threshold: u32, now: u64)
        ensures
            final(out)@ == self.exposition_part_10(old(out)@, *maintenance, opt_copy(state_db), opt_copy(sync_status), dht_peer_quarantine_threshold, now),
    {
        if let Some(last_dht_find_value_at) = self.last_dht_find_value_at {
            push_metric_help(out, "lm_node_dht_find_value_last_run_at", "Unix timestamp of the last manual DHT FindValue execution.");
            push_metric_type(out, "lm_node_dht_find_value_last_run_at", "gauge");
            push_metric_value(out, "lm_node_dht_find_value_last_run_at", last_dht_find_value_at as u128);
        }
    }

    /// Section 11 of the exposition, appended to `p`.
    pub open spec fn exposition_part_11(&self, p: Seq<char>, maintenance: NodeMaintenanceStats, state_db: Option<StateDbStats>, sync_status: Option<NodeSyncStatus>, dht_peer_quarantine_threshold: u32, now: u64) -> Seq<char> {
        p
            + help_line("lm_node_background_schedule_delay_micros_total"@, "Total scheduler delay in microseconds for background jobs."@)
            + type_line("lm_node_background_schedule_delay_micros_total"@, "counter"@)
            + labeled_line("lm_node_background_schedule_delay_micros_total"@, "job"@, "snapshot_sync"@, self.sync_schedule_delay_micros_total as nat)
            + labeled_line("lm_node_background_schedule_delay_micros_total"@, "job"@, "dht_replication"@, self.dht_replication_schedule_delay_micros_total as nat)
            + labeled_line("lm_node_background_schedule_delay_micros_total"@, "job"@, "dht_routing_refresh"@, self.dht_routing_refresh_schedule_delay_micros_total as nat)
            + help_line("lm_node_background_schedule_delay_micros_max"@, "Maximum scheduler delay in microseconds for background jobs."@)
            + type_line("lm_node_background_schedule_delay_micros_max"@, "gauge"@)
            + labeled_line("lm_node_background_schedule_delay_micros_max"@, "job"@, "snapshot_sync"@, self.sync_schedule_delay_micros_max as nat)
            + labeled_line("lm_node_background_schedule_delay_micros_max"@, "job"@, "dht_replication"@, self.dht_replication_schedule_delay_micros_max as nat)
            + labeled_line("lm_node_background_schedule_delay_micros_max"@, "job"@, "dht_routing_refresh"@, self.dht_routing_refresh_schedule_delay_micros_max as nat)
            + help_line("lm_node_background_schedule_delay_micros_last"@, "Last scheduler delay in microseconds for background jobs."@)
            + type_line("lm_node_background_schedule_delay_micros_last"@, "gauge"@)
    }

    fn push_exposition_part_11(&self, out: &mut String, maintenance: &NodeMaintenanceStats, state_db: Option<&StateDbStats>, sync_status: Option<&NodeSyncStatus>, dht_peer_quarantine_threshold: u32, now: u64)
        ensures
            final(out)@ == self.exposition_part_11(old(out)@, *maintenance, opt_copy(state_db), opt_copy(sync_status), dht_peer_quarantine_threshold, now),
    {
        push_metric_help(out, "lm_node_background_schedule_delay_micros_total", "Total scheduler delay in microseconds for background jobs.");
        push_metric_type(out, "lm_node_background_schedule_delay_micros_total", "counter");
        push_labeled_metric_value(out, "lm_node_background_schedule_delay_micros_total", "job", "snapshot_sync", self.sync_schedule_delay_micros_total as u128);
        push_labeled_metric_value(out, "lm_node_background_schedule_delay_micros_total", "job", "dht_replication", self.dht_replication_schedule_delay_micros_total as u128);
        push_labeled_metric_value(out, "lm_node_background_schedule_delay_micros_total", "job", "dht_routing_refresh", self.dht_routing_refresh_schedule_delay_micros_total as u128);
        push_metric_help(out, "lm_node_background_schedule_delay_micros_max", "Maximum scheduler delay in microseconds for background jobs.");
        push_metric_type(out, "lm_node_background_schedule_delay_micros_max", "gauge");
        push_labeled_metric_value(out, "lm_node_background_schedule_delay_micros_max", "job", "snapshot_sync", self.sync_schedule_delay_micros_max as u128);
        push_labeled_metric_value(out, "lm_node_background_schedule_delay_micros_max", "job", "dht_replication", self.dht_replication_schedule_delay_micros_max as u128);
        push_labeled_metric_value(out, "lm_node_background_schedule_delay_micros_max", "job", "dht_routing_refresh", self.dht_routing_refresh_schedule_delay_micros_max as u128);
        push_metric_help(out, "lm_node_background_schedule_delay_micros_last", "Last scheduler delay in microseconds for background jobs.");
        push_metric_type(out, "lm_node_background_schedule_delay_micros_last", "gauge");
    }

    /// Section 12 of the exposition, appended to `p`.
    pub open spec fn exposition_part_12(&self, p: Seq<char>, maintenance: NodeMaintenanceStats, state_db: Option<StateDbStats>, sync_status: Option<NodeSyncStatus>, dht_peer_quarantine_threshold: u32, now: u64) -> Seq<char> {
        match self.last_sync_schedule_delay_micros {
            Some(value) => p
            + labeled_line("lm_node_background_schedule_delay_micros_last"@, "job"@, "snapshot_sync"@, value as nat),
            None => p,
        }
    }

    fn push_exposition_part_12(&self, out: &mut String, maintenance: &NodeMaintenanceStats, state_db: Option<&StateDbStats>, sync_status: Option<&NodeSyncStatus>, dht_peer_quarantine_threshold: u32, now: u64)
        ensures
            final(out)@ == self.exposition_part_12(old(out)@, *maintenance, opt_copy(state_db), opt_copy(sync_status), dht_peer_quarantine_threshold, now),
    {
        if let Some(value) = self.last_sync_schedule_delay_micros {
            push_labeled_metric_value(out, "lm_node_background_schedule_delay_micros_last", "job", "snapshot_sync", value as u128);
        }
    }

    /// Section 13 of the exposition, appended to `p`.
    pub open spec fn exposition_part_13(&self, p: Seq<char>, maintenance: NodeMaintenanceStats, state_db: Option<StateDbStats>, sync_status: Option<NodeSyncStatus>, dht_peer_quarantine_threshold: u32, now: u64) -> Seq<char> {
        match self.last_dht_replication_schedule_delay_micros {
            Some(value) => p
            + labeled_line("lm_node_background_schedule_delay_micros_last"@, "job"@, "dht_replication"@, value as nat),
            None => p,
        }
    }

    fn push_exposition_part_13(&self, out: &mut String, maintenance: &NodeMaintenanceStats, state_db: Option<&StateDbStats>, sync_status: Option<&NodeSyncStatus>, dht_peer_quarantine_threshold: u32, now: u64)
        ensures
            final(out)@ == self.exposition_part_13(old(out)@, *maintenance, opt_copy(state_db), opt_copy(sync_status), dht_peer_quarantine_threshold, now),
    {
        if let Some(value) = self.last_dht_replication_schedule_delay_micros {
            push_labeled_metric_value(out, "lm_node_background_schedule_delay_micros_last", "job", "dht_replication", value as u128);
        }
    }

    /// Section 14 of the exposition, appended to `p`.
    pub open spec fn exposition_part_14(&self, p: Seq<char>, maintenance: NodeMaintenanceStats, state_db: Option<StateDbStats>, sync_status: Option<NodeSyncStatus>, dht_peer_quarantine_threshold: u32, now: u64) -> Seq<char> {
        match self.last_dht_routing_refresh_schedule_delay_micros {
            Some(value) => p
            + labeled_line("lm_node_background_schedule_delay_micros_last"@, "job"@, "dht_routing_refresh"@, value as nat),
            None => p,
        }
    }

    fn push_exposition_part_14(&self, out: &mut String, maintenance: &NodeMaintenanceStats, state_db: Option<&StateDbStats>, sync_status: Option<&NodeSyncStatus>, dht_peer_quarantine_threshold: u32, now: u64)
        ensures
            final(out)@ == self.exposition_part_14(old(out)@, *maintenance, opt_copy(state_db), opt_copy(sync_status), dht_peer_quarantine_threshold, now),
    {
        if let Some(value) = self.last_dht_routing_refresh_schedule_delay_micros {
            push_labeled_metric_value(out, "lm_node_background_schedule_delay_micros_last", "job", "dht_routing_refresh", value as u128);
        }
    }

    /// Section 15 of the exposition, appended to `p`.
    pub open spec fn exposition_part_15(&self, p: Seq<char>, maintenance: NodeMaintenanceStats, state_db: Option<StateDbStats>, sync_status: Option<NodeSyncStatus>, dht_peer_quarantine_threshold: u32, now: u64) -> Seq<char> {
        match sync_status {
            Some(sync_status) => sync_status_lines(p, sync_status, dht_peer_quarantine_threshold, now),
            None => p,
        }
    }

    fn push_exposition_part_15(&self, out: &mut String, maintenance: &NodeMaintenanceStats, state_db: Option<&StateDbStats>, sync_status: Option<&NodeSyncStatus>, dht_peer_quarantine_threshold: u32, now: u64)
        ensures
            final(out)@ == self.exposition_part_15(old(out)@, *maintenance, opt_copy(state_db), opt_copy(sync_status), dht_peer_quarantine_threshold, now),
    {
        if let Some(sync_status) = sync_status {
            push_sync_status_metrics(out, sync_status, dht_peer_quarantine_threshold, now);
        }
    }

    /// Section 16 of the exposition, appended to `p`.
    pub open spec fn exposition_part_16(&self, p: Seq<char>, maintenance: NodeMaintenanceStats, state_db: Option<StateDbStats>, sync_status: Option<NodeSyncStatus>, dht_peer_quarantine_threshold: u32, now: u64) -> Seq<char> {
        p
            + help_line("lm_node_maintenance_prune_runs_total"@, "Total node expired-record prune runs."@)
            + type_line("lm_node_maintenance_prune_runs_total"@, "counter"@)
            + value_line("lm_node_maintenance_prune_runs_total"@, maintenance.prune_runs as nat)
            + help_line("lm_node_maintenance_expired_records_total"@, "Expired records removed by node maintenance prune jobs."@)
            + type_line("lm_node_maintenance_expired_records_total"@, "counter"@)
            + labeled_line("lm_node_maintenance_expired_records_total"@, "kind"@, "mailbox_delivery"@, maintenance.mailbox_expired_deliveries as nat)
            + labeled_line("lm_node_maintenance_expired_records_total"@, "kind"@, "prekey_bundle"@, maintenance.prekey_expired_bundles as nat)
            + help_line("lm_node_mailbox_push_rejections_total"@, "Rejected mailbox push attempts by reason."@)
            + type_line("lm_node_mailbox_push_rejections_total"@, "counter"@)
            + labeled_line("lm_node_mailbox_push_rejections_total"@, "reason"@, "invalid_json"@, maintenance.mailbox_push_rejects.invalid_json as nat)
            + labeled_line("lm_node_mailbox_push_rejections_total"@, "reason"@, "invalid_message_format"@, maintenance.mailbox_push_rejects.invalid_message_format as nat)
            + labeled_line("lm_node_mailbox_push_rejections_total"@, "reason"@, "invalid_identity_public_key"@, maintenance.mailbox_push_rejects.invalid_identity_public_key as nat)
    }

    fn push_exposition_part_16(&self, out: &mut String, maintenance: &NodeMaintenanceStats, state_db: Option<&StateDbStats>, sync_status: Option<&NodeSyncStatus>, dht_peer_quarantine_threshold: u32, now: u64)
        ensures
            final(out)@ == self.exposition_part_16(old(out)@, *maintenance, opt_copy(state_db), opt_copy(sync_status), dht_peer_quarantine_threshold, now),
    {
        push_metric_help(out, "lm_node_maintenance_prune_runs_total", "Total node expired-record prune runs.");
        push_metric_type(out, "lm_node_maintenance_prune_runs_total", "counter");
        push_metric_value(out, "lm_node_maintenance_prune_runs_total", maintenance.prune_runs as u128);
        push_metric_help(out, "lm_node_maintenance_expired_records_total", "Expired records removed by node maintenance prune jobs.");
        push_metric_type(out, "lm_node_maintenance_expired_records_total", "counter");
        push_labeled_metric_value(out, "lm_node_maintenance_expired_records_total", "kind", "mailbox_delivery", maintenance.mailbox_expired_deliveries as u128);
        push_labeled_metric_value(out, "lm_node_maintenance_expired_records_total", "kind", "prekey_bundle", maintenance.prekey_expired_bundles as u128);
        push_metric_help(out, "lm_node_mailbox_push_rejections_total", "Rejected mailbox push attempts by reason.");
        push_metric_type(out, "lm_node_mailbox_push_rejections_total", "counter");
        push_labeled_metric_value(out, "lm_node_mailbox_push_rejections_total", "reason", "invalid_json", maintenance.mailbox_push_rejects.invalid_json as u128);
        push_labeled_metric_value(out, "lm_node_mailbox_push_rejections_total", "reason", "invalid_message_format", maintenance.mailbox_push_rejects.invalid_message_format as u128);
        push_labeled_metric_value(out, "lm_node_mailbox_push_rejections_total", "reason", "invalid_identity_public_key", maintenance.mailbox_push_rejects.invalid_identity_public_key as u128);
    }

    /// Section 17 of the exposition, appended to `p`.
    pub open spec fn exposition_part_17(&self, p: Seq<char>, maintenance: NodeMaintenanceStats, state_db: Option<StateDbStats>, sync_status: Option<NodeSyncStatus>, dht_peer_quarantine_threshold: u32, now: u64) -> Seq<char> {
        p
            + labeled_line("lm_node_mailbox_push_rejections_total"@, "reason"@, "invalid_signature"@, maintenance.mailbox_push_rejects.invalid_signature as nat)
            + labeled_line("lm_node_mailbox_push_rejections_total"@, "reason"@, "expired_object"@, maintenance.mailbox_push_rejects.expired_object as nat)
            + labeled_line("lm_node_mailbox_push_rejections_total"@, "reason"@, "duplicate_message"@, maintenance.mailbox_push_rejects.duplicate_message as nat)
            + labeled_line("lm_node_mailbox_push_rejections_total"@, "reason"@, "payload_too_large"@, maintenance.mailbox_push_rejects.payload_too_large as nat)
            + labeled_line("lm_node_mailbox_push_rejections_total"@, "reason"@, "global_rate_limited"@, maintenance.mailbox_push_rejects.global_rate_limited as nat)
            + labeled_line("lm_node_mailbox_push_rejections_total"@, "reason"@, "sender_rate_limited"@, maintenance.mailbox_push_rejects.sender_rate_limited as nat)
            + labeled_line("lm_node_mailbox_push_rejections_total"@, "reason"@, "other"@, maintenance.mailbox_push_rejects.other as nat)
            + labeled_line("lm_node_mailbox_push_rejections_total"@, "reason"@, "all"@, maintenance.mailbox_push_rejects.total_count() as nat)
            + help_line("lm_node_dht_record_rejections_total"@, "Rejected DHT record store attempts by reason."@)
            + type_line("lm_node_dht_record_rejections_total"@, "counter"@)
            + labeled_line("lm_node_dht_record_rejections_total"@, "reason"@, "invalid_json"@, maintenance.dht_record_rejects.invalid_json as nat)
            + labeled_line("lm_node_dht_record_rejections_total"@, "reason"@, "expired"@, maintenance.dht_record_rejects.expired as nat)
    }

    fn push_exposition_part_17(&self, out: &mut String, maintenance: &NodeMaintenanceStats, state_db: Option<&StateDbStats>, sync_status: Option<&NodeSyncStatus>, dht_peer_quarantine_threshold: u32, now: u64)
        ensures
            final(out)@ == self.exposition_part_17(old(out)@, *maintenance, opt_copy(state_db), opt_copy(sync_status), dht_peer_quarantine_threshold, now),
    {
        push_labeled_metric_value(out, "lm_node_mailbox_push_rejections_total", "reason", "invalid_signature", maintenance.mailbox_push_rejects.invalid_signature as u128);
        push_labeled_metric_value(out, "lm_node_mailbox_push_rejections_total", "reason", "expired_object", maintenance.mailbox_push_rejects.expired_object as u128);
        push_labeled_metric_value(out, "lm_node_mailbox_push_rejections_total", "reason", "duplicate_message", maintenance.mailbox_push_rejects.duplicate_message as u128);
        push_labeled_metric_value(out, "lm_node_mailbox_push_rejections_total", "reason", "payload_too_large", maintenance.mailbox_push_rejects.payload_too_large as u128);
        push_labeled_metric_value(out, "lm_node_mailbox_push_rejections_total", "reason", "global_rate_limited", maintenance.mailbox_push_rejects.global_rate_limited as u128);
        push_labeled_metric_value(out, "lm_node_mailbox_push_rejections_total", "reason", "sender_rate_limited", maintenance.mailbox_push_rejects.sender_rate_limited as u128);
        push_labeled_metric_value(out, "lm_node_mailbox_push_rejections_total", "reason", "other", maintenance.mailbox_push_rejects.other as u128);
        push_labeled_metric_value(out, "lm_node_mailbox_push_rejections_total", "reason", "all", maintenance.mailbox_push_rejects.total() as u128);
        push_metric_help(out, "lm_node_dht_record_rejections_total", "Rejected DHT record store attempts by reason.");
        push_metric_type(out, "lm_node_dht_record_rejections_total", "counter");
        push_labeled_metric_value(out, "lm_node_dht_record_rejections_total", "reason", "invalid_json", maintenance.dht_record_rejects.invalid_json as u128);
        push_labeled_metric_value(out, "lm_node_dht_record_rejections_total", "reason", "expired", maintenance.dht_record_rejects.expired as u128);
    }

    /// Section 18 of the exposition, appended to `p`.
    pub open spec fn exposition_part_18(&self, p: Seq<char>, maintenance: NodeMaintenanceStats, state_db: Option<StateDbStats>, sync_status: Option<NodeSyncStatus>, dht_peer_quarantine_threshold: u32, now: u64) -> Seq<char> {
        p
            + labeled_line("lm_node_dht_record_rejections_total"@, "reason"@, "ttl_too_long"@, maintenance.dht_record_rejects.ttl_too_long as nat)
            + labeled_line("lm_node_dht_record_rejections_total"@, "reason"@, "payload_too_large"@, maintenance.dht_record_rejects.payload_too_large as nat)
            + labeled_line("lm_node_dht_record_rejections_total"@, "reason"@, "invalid_record"@, maintenance.dht_record_rejects.invalid_record as nat)
            + labeled_line("lm_node_dht_record_rejections_total"@, "reason"@, "all"@, maintenance.dht_record_rejects.total_count() as nat)
            + help_line("lm_node_mailbox_ack_rejections_total"@, "Rejected mailbox ack attempts by reason."@)
            + type_line("lm_node_mailbox_ack_rejections_total"@, "counter"@)
            + labeled_line("lm_node_mailbox_ack_rejections_total"@, "reason"@, "invalid_json"@, maintenance.mailbox_ack_rejects.invalid_json as nat)
            + labeled_line("lm_node_mailbox_ack_rejections_total"@, "reason"@, "invalid_user_id"@, maintenance.mailbox_ack_rejects.invalid_user_id as nat)
            + labeled_line("lm_node_mailbox_ack_rejections_total"@, "reason"@, "too_many_ids"@, maintenance.mailbox_ack_rejects.too_many_ids as nat)
            + labeled_line("lm_node_mailbox_ack_rejections_total"@, "reason"@, "empty_id"@, maintenance.mailbox_ack_rejects.empty_id as nat)
            + labeled_line("lm_node_mailbox_ack_rejections_total"@, "reason"@, "id_too_large"@, maintenance.mailbox_ack_rejects.id_too_large as nat)
            + labeled_line("lm_node_mailbox_ack_rejections_total"@, "reason"@, "all"@, maintenance.mailbox_ack_rejects.total_count() as nat)
    }

    fn push_exposition_part_18(&self, out: &mut String, maintenance: &NodeMaintenanceStats, state_db: Option<&StateDbStats>, sync_status: Option<&NodeSyncStatus>, dht_peer_quarantine_threshold: u32, now: u64)
        ensures
            final(out)@ == self.exposition_part_18(old(out)@, *maintenance, opt_copy(state_db), opt_copy(sync_status), dht_peer_quarantine_threshold, now),
    {
        push_labeled_metric_value(out, "lm_node_dht_record_rejections_total", "reason", "ttl_too_long", maintenance.dht_record_rejects.ttl_too_long as u128);
        push_labeled_metric_value(out, "lm_node_dht_record_rejections_total", "reason", "payload_too_large", maintenance.dht_record_rejects.payload_too_large as u128);
        push_labeled_metric_value(out, "lm_node_dht_record_rejections_total", "reason", "invalid_record", maintenance.dht_record_rejects.invalid_record as u128);
        push_labeled_metric_value(out, "lm_node_dht_record_rejections_total", "reason", "all", maintenance.dht_record_rejects.total() as u128);
        push_metric_help(out, "lm_node_mailbox_ack_rejections_total", "Rejected mailbox ack attempts by reason.");
        push_metric_type(out, "lm_node_mailbox_ack_rejections_total", "counter");
        push_labeled_metric_value(out, "lm_node_mailbox_ack_rejections_total", "reason", "invalid_json", maintenance.mailbox_ack_rejects.invalid_json as u128);
        push_labeled_metric_value(out, "lm_node_mailbox_ack_rejections_total", "reason", "invalid_user_id", maintenance.mailbox_ack_rejects.invalid_user_id as u128);
        push_labeled_metric_value(out, "lm_node_mailbox_ack_rejections_total", "reason", "too_many_ids", maintenance.mailbox_ack_rejects.too_many_ids as u128);
        push_labeled_metric_value(out, "lm_node_mailbox_ack_rejections_total", "reason", "empty_id", maintenance.mailbox_ack_rejects.empty_id as u128);
        push_labeled_metric_value(out, "lm_node_mailbox_ack_rejections_total", "reason", "id_too_large", maintenance.mailbox_ack_rejects.id_too_large as u128);
        push_labeled_metric_value(out, "lm_node_mailbox_ack_rejections_total", "reason", "all", maintenance.mailbox_ack_rejects.total() as u128);
    }

    /// Section 19 of the exposition, appended to `p`.
    pub open spec fn exposition_part_19(&self, p: Seq<char>, maintenance: NodeMaintenanceStats, state_db: Option<StateDbStats>, sync_status: Option<NodeSyncStatus>, dht_peer_quarantine_threshold: u32, now: u64) -> Seq<char> {
        p
            + help_line("lm_node_routing_peer_rejections_total"@, "Rejected DHT routing peer merge attempts by reason."@)
            + type_line("lm_node_routing_peer_rejections_total"@, "counter"@)
            + labeled_line("lm_node_routing_peer_rejections_total"@, "reason"@, "expired"@, maintenance.routing_peer_rejects.expired as nat)
            + labeled_line("lm_node_routing_peer_rejections_total"@, "reason"@, "mismatched_node_id"@, maintenance.routing_peer_rejects.mismatched_node_id as nat)
            + labeled_line("lm_node_routing_peer_rejections_total"@, "reason"@, "local_node"@, maintenance.routing_peer_rejects.local_node as nat)
            + labeled_line("lm_node_routing_peer_rejections_total"@, "reason"@, "missing_identity_public_key"@, maintenance.routing_peer_rejects.missing_identity_public_key as nat)
            + labeled_line("lm_node_routing_peer_rejections_total"@, "reason"@, "invalid_identity_public_key"@, maintenance.routing_peer_rejects.invalid_identity_public_key as nat)
            + labeled_line("lm_node_routing_peer_rejections_total"@, "reason"@, "invalid_signature"@, maintenance.routing_peer_rejects.invalid_signature as nat)
            + labeled_line("lm_node_routing_peer_rejections_total"@, "reason"@, "too_many_addresses"@, maintenance.routing_peer_rejects.too_many_addresses as nat)
            + labeled_line("lm_node_routing_peer_rejections_total"@, "reason"@, "address_too_large"@, maintenance.routing_peer_rejects.address_too_large as nat)
            + labeled_line("lm_node_routing_peer_rejections_total"@, "reason"@, "all"@, maintenance.routing_peer_rejects.total_count() as nat)
    }

    fn push_exposition_part_19(&self, out: &mut String, maintenance: &NodeMaintenanceStats, state_db: Option<&StateDbStats>, sync_status: Option<&NodeSyncStatus>, dht_peer_quarantine_threshold: u32, now: u64)
        ensures
            final(out)@ == self.exposition_part_19(old(out)@, *maintenance, opt_copy(state_db), opt_copy(sync_status), dht_peer_quarantine_threshold, now),
    {
        push_metric_help(out, "lm_node_routing_peer_rejections_total", "Rejected DHT routing peer merge attempts by reason.");
        push_metric_type(out, "lm_node_routing_peer_rejections_total", "counter");
        push_labeled_metric_value(out, "lm_node_routing_peer_rejections_total", "reason", "expired", maintenance.routing_peer_rejects.expired as u128);
        push_labeled_metric_value(out, "lm_node_routing_peer_rejections_total", "reason", "mismatched_node_id", maintenance.routing_peer_rejects.mismatched_node_id as u128);
        push_labeled_metric_value(out, "lm_node_routing_peer_rejections_total", "reason", "local_node", maintenance.routing_peer_rejects.local_node as u128);
        push_labeled_metric_value(out, "lm_node_routing_peer_rejections_total", "reason", "missing_identity_public_key", maintenance.routing_peer_rejects.missing_identity_public_key as u128);
        push_labeled_metric_value(out, "lm_node_routing_peer_rejections_total", "reason", "invalid_identity_public_key", maintenance.routing_peer_rejects.invalid_identity_public_key as u128);
        push_labeled_metric_value(out, "lm_node_routing_peer_rejections_total", "reason", "invalid_signature", maintenance.routing_peer_rejects.invalid_signature as u128);
        push_labeled_metric_value(out, "lm_node_routing_peer_rejections_total", "reason", "too_many_addresses", maintenance.routing_peer_rejects.too_many_addresses as u128);
        push_labeled_metric_value(out, "lm_node_routing_peer_rejections_total", "reason", "address_too_large", maintenance.routing_peer_rejects.address_too_large as u128);
        push_labeled_metric_value(out, "lm_node_routing_peer_rejections_total", "reason", "all", maintenance.routing_peer_rejects.total() as u128);
    }

    /// Section 20 of the exposition, appended to `p`.
    pub open spec fn exposition_part_20(&self, p: Seq<char>, maintenance: NodeMaintenanceStats, state_db: Option<StateDbStats>, sync_status: Option<NodeSyncStatus>, dht_peer_quarantine_threshold: u32, now: u64) -> Seq<char> {
        match maintenance.last_pruned_at {
            Some(last_pruned_at) => p
            + help_line("lm_node_maintenance_last_pruned_at"@, "Unix timestamp of the last expired-record prune run."@)
            + type_line("lm_node_maintenance_last_pruned_at"@, "gauge"@)
            + value_line("lm_node_maintenance_last_pruned_at"@, last_pruned_at as nat),
            None => p,
        }
    }

    fn push_exposition_part_20(&self, out: &mut String, maintenance: &NodeMaintenanceStats, state_db: Option<&StateDbStats>, sync_status: Option<&NodeSyncStatus>, dht_peer_quarantine_threshold: u32, now: u64)
        ensures
            final(out)@ == self.exposition_part_20(old(out)@, *maintenance, opt_copy(state_db), opt_copy(sync_status), dht_peer_quarantine_threshold, now),
    {
        if let Some(last_pruned_at) = maintenance.last_pruned_at {
            push_metric_help(out, "lm_node_maintenance_last_pruned_at", "Unix timestamp of the last expired-record prune run.");
            push_metric_type(out, "lm_node_maintenance_last_pruned_at", "gauge");
            push_metric_value(out, "lm_node_maintenance_last_pruned_at", last_pruned_at as u128);
        }
    }

    /// Section 21 of the exposition, appended to `p`.
    pub open spec fn exposition_part_21(&self, p: Seq<char>, maintenance: NodeMaintenanceStats, state_db: Option<StateDbStats>, sync_status: Option<NodeSyncStatus>, dht_peer_quarantine_threshold: u32, now: u64) -> Seq<char> {
        match state_db {
            Some(state_db) => p
            + help_line("lm_node_state_db_pages"@, "SQLite state database page counts."@)
            + type_line("lm_node_state_db_pages"@, "gauge"@)
            + labeled_line("lm_node_state_db_pages"@, "kind"@, "total"@, state_db.page_count as nat)
            + labeled_line("lm_node_state_db_pages"@, "kind"@, "free"@, state_db.freelist_count as nat)
            + help_line("lm_node_state_db_page_size_bytes"@, "SQLite state database page size in bytes."@)
            + type_line("lm_node_state_db_page_size_bytes"@, "gauge"@)
            + value_line("lm_node_state_db_page_size_bytes"@, state_db.page_size_bytes as nat)
            + help_line("lm_node_state_db_file_bytes"@, "SQLite state database file size in bytes."@)
            + type_line("lm_node_state_db_file_bytes"@, "gauge"@)
            + value_line("lm_node_state_db_file_bytes"@, state_db.file_bytes as nat)
            + help_line("lm_node_state_db_encrypted"@, "Whether the SQLite state database is encrypted at the database layer."@)
            + type_line("lm_node_state_db_encrypted"@, "gauge"@)
            + value_line("lm_node_state_db_encrypted"@, (if state_db.encrypted { 1nat } else { 0nat }))
            + help_line("lm_node_state_db_permissions_hardened"@, "Whether the state database files are expected to be restricted to the node user."@)
            + type_line("lm_node_state_db_permissions_hardened"@, "gauge"@)
            + value_line("lm_node_state_db_permissions_hardened"@, (if state_db.permissions_hardened { 1nat } else { 0nat })),
            None => p,
        }
    }

    fn push_exposition_part_21(&self, out: &mut String, maintenance: &NodeMaintenanceStats, state_db: Option<&StateDbStats>, sync_status: Option<&NodeSyncStatus>, dht_peer_quarantine_threshold: u32, now: u64)
        ensures
            final(out)@ == self.exposition_part_21(old(out)@, *maintenance, opt_copy(state_db), opt_copy(sync_status), dht_peer_quarantine_threshold, now),
    {
        if let Some(state_db) = state_db {
            push_metric_help(out, "lm_node_state_db_pages", "SQLite state database page counts.");
            push_metric_type(out, "lm_node_state_db_pages", "gauge");
            push_labeled_metric_value(out, "lm_node_state_db_pages", "kind", "total", state_db.page_count as u128);
            push_labeled_metric_value(out, "lm_node_state_db_pages", "kind", "free", state_db.freelist_count as u128);
            push_metric_help(out, "lm_node_state_db_page_size_bytes", "SQLite state database page size in bytes.");
            push_metric_type(out, "lm_node_state_db_page_size_bytes", "gauge");
            push_metric_value(out, "lm_node_state_db_page_size_bytes", state_db.page_size_bytes as u128);
            push_metric_help(out, "lm_node_state_db_file_bytes", "SQLite state database file size in bytes.");
            push_metric_type(out, "lm_node_state_db_file_bytes", "gauge");
            push_metric_value(out, "lm_node_state_db_file_bytes", state_db.file_bytes as u128);
            push_metric_help(out, "lm_node_state_db_encrypted", "Whether the SQLite state database is encrypted at the database layer.");
            push_metric_type(out, "lm_node_state_db_encrypted", "gauge");
            push_metric_value(out, "lm_node_state_db_encrypted", if state_db.encrypted { 1u128 } else { 0u128 });
            push_metric_help(out, "lm_node_state_db_permissions_hardened", "Whether the state database files are expected to be restricted to the node user.");
            push_metric_type(out, "lm_node_state_db_permissions_hardened", "gauge");
            push_metric_value(out, "lm_node_state_db_permissions_hardened", if state_db.permissions_hardened { 1u128 } else { 0u128 });
        }
    }

    /// Section 22 of the exposition, appended to `p`.
    pub open spec fn exposition_part_22(&self, p: Seq<char>, maintenance: NodeMaintenanceStats, state_db: Option<StateDbStats>, sync_status: Option<NodeSyncStatus>, dht_peer_quarantine_threshold: u32, now: u64) -> Seq<char> {
        p
            + help_line("lm_node_control_endpoint_requests_total"@, "Control HTTP responses by endpoint and status class."@)
            + type_line("lm_node_control_endpoint_requests_total"@, "counter"@)
            + help_line("lm_node_control_endpoint_duration_micros_total"@, "Total control HTTP handler duration in microseconds by endpoint."@)
            + type_line("lm_node_control_endpoint_duration_micros_total"@, "counter"@)
            + help_line("lm_node_control_endpoint_duration_micros_max"@, "Maximum observed control HTTP handler duration in microseconds by endpoint."@)
            + type_line("lm_node_control_endpoint_duration_micros_max"@, "gauge"@)
    }

    fn push_exposition_part_22(&self, out: &mut String, maintenance: &NodeMaintenanceStats, state_db: Option<&StateDbStats>, sync_status: Option<&NodeSyncStatus>, dht_peer_quarantine_threshold: u32, now: u64)
        ensures
            final(out)@ == self.exposition_part_22(old(out)@, *maintenance, opt_copy(state_db), opt_copy(sync_status), dht_peer_quarantine_threshold, now),
    {
        push_metric_help(out, "lm_node_control_endpoint_requests_total", "Control HTTP responses by endpoint and status class.");
        push_metric_type(out, "lm_node_control_endpoint_requests_total", "counter");
        push_metric_help(out, "lm_node_control_endpoint_duration_micros_total", "Total control HTTP handler duration in microseconds by endpoint.");
        push_metric_type(out, "lm_node_control_endpoint_duration_micros_total", "counter");
        push_metric_help(out, "lm_node_control_endpoint_duration_micros_max", "Maximum observed control HTTP handler duration in microseconds by endpoint.");
        push_metric_type(out, "lm_node_control_endpoint_duration_micros_max", "gauge");
    }

    /// The whole exposition: every counter section, the endpoint samples sorted by
    /// endpoint, and the closing `# EOF` line.
    pub open spec fn openmetrics_text(&self, maintenance: NodeMaintenanceStats, state_db: Option<StateDbStats>, sync_status: Option<NodeSyncStatus>, dht_peer_quarantine_threshold: u32, now: u64) -> Seq<char> {
        endpoint_lines(self.exposition_part_22(self.exposition_part_21(self.exposition_part_20(self.exposition_part_19(self.exposition_part_18(self.exposition_part_17(self.exposition_part_16(self.exposition_part_15(self.exposition_part_14(self.exposition_part_13(self.exposition_part_12(self.exposition_part_11(self.exposition_part_10(self.exposition_part_9(self.exposition_part_8(self.exposition_part_7(self.exposition_part_6(self.exposition_part_5(self.exposition_part_4(self.exposition_part_3(self.exposition_part_2(self.exposition_part_1(self.exposition_part_0(Seq::empty(), maintenance, state_db, sync_status, dht_peer_quarantine_threshold, now), maintenance, state_db, sync_status, dht_peer_quarantine_threshold, now), maintenance, state_db, sync_status, dht_peer_quarantine_threshold, now), maintenance, state_db, sync_status, dht_peer_quarantine_threshold, now), maintenance, state_db, sync_status, dht_peer_quarantine_threshold, now), maintenance, state_db, sync_status, dht_peer_quarantine_threshold, now), maintenance, state_db, sync_status, dht_peer_quarantine_threshold, now), maintenance, state_db, sync_status, dht_peer_quarantine_threshold, now), maintenance, state_db, sync_status, dht_peer_quarantine_threshold, now), maintenance, state_db, sync_status, dht_peer_quarantine_threshold, now), maintenance, state_db, sync_status, dht_peer_quarantine_threshold, now), maintenance, state_db, sync_status, dht_peer_quarantine_threshold, now), maintenance, state_db, sync_status, dht_peer_quarantine_threshold, now), maintenance, state_db, sync_status, dht_peer_quarantine_threshold, now), maintenance, state_db, sync_status, dht_peer_quarantine_threshold, now), maintenance, state_db, sync_status, dht_peer_quarantine_threshold, now), maintenance, state_db, sync_status, dht_peer_quarantine_threshold, now), maintenance, state_db, sync_status, dht_peer_quarantine_threshold, now), maintenance, state_db, sync_status, dht_peer_quarantine_threshold, now), maintenance, state_db, sync_status, dht_peer_quarantine_threshold, now), maintenance, state_db, sync_status, dht_peer_quarantine_threshold, now), maintenance, state_db, sync_status, dht_peer_quarantine_threshold, now), maintenance, state_db, sync_status, dht_peer_quarantine_threshold, now), sorted_endpoints(self.endpoints@)) + "# EOF\n"@
    }

    /// Renders the counters as an OpenMetrics text exposition, judging peer quarantine
    /// at `now`.
    #[verifier::spinoff_prover]
    #[verifier::rlimit(50)]
    pub fn to_openmetrics_at(&self, maintenance: &NodeMaintenanceStats, state_db: Option<&StateDbStats>, sync_status: Option<&NodeSyncStatus>, dht_peer_quarantine_threshold: u32, now: u64) -> (r: String)
        ensures
            r@ == self.openmetrics_text(*maintenance, opt_copy(state_db), opt_copy(sync_status), dht_peer_quarantine_threshold, now),
    {
        let mut out = String::new();
        self.push_exposition_part_0(&mut out, maintenance, state_db, sync_status, dht_peer_quarantine_threshold, now);
        self.push_exposition_part_1(&mut out, maintenance, state_db, sync_status, dht_peer_quarantine_threshold, now);
        self.push_exposition_part_2(&mut out, maintenance, state_db, sync_status, dht_peer_quarantine_threshold, now);
        self.push_exposition_part_3(&mut out, maintenance, state_db, sync_status, dht_peer_quarantine_threshold, now);
        self.push_exposition_part_4(&mut out, maintenance, state_db, sync_status, dht_peer_quarantine_threshold, now);
        self.push_exposition_part_5(&mut out, maintenance, state_db, sync_status, dht_peer_quarantine_threshold, now);
        self.push_exposition_part_6(&mut out, maintenance, state_db, sync_status, dht_peer_quarantine_threshold, now);
        self.push_exposition_part_7(&mut out, maintenance, state_db, sync_status, dht_peer_quarantine_threshold, now);
        self.push_exposition_part_8(&mut out, maintenance, state_db, sync_status, dht_peer_quarantine_threshold, now);
        self.push_exposition_part_9(&mut out, maintenance, state_db, sync_status, dht_peer_quarantine_threshold, now);
        self.push_exposition_part_10(&mut out, maintenance, state_db, sync_status, dht_peer_quarantine_threshold, now);
        self.push_exposition_part_11(&mut out, maintenance, state_db, sync_status, dht_peer_quarantine_threshold, now);
        self.push_exposition_part_12(&mut out, maintenance, state_db, sync_status, dht_peer_quarantine_threshold, now);
        self.push_exposition_part_13(&mut out, maintenance, state_db, sync_status, dht_peer_quarantine_threshold, now);
        self.push_exposition_part_14(&mut out, maintenance, state_db, sync_status, dht_peer_quarantine_threshold, now);
        self.push_exposition_part_15(&mut out, maintenance, state_db, sync_status, dht_peer_quarantine_threshold, now);
        self.push_exposition_part_16(&mut out, maintenance, state_db, sync_status, dht_peer_quarantine_threshold, now);
        self.push_exposition_part_17(&mut out, maintenance, state_db, sync_status, dht_peer_quarantine_threshold, now);
        self.push_exposition_part_18(&mut out, maintenance, state_db, sync_status, dht_peer_quarantine_threshold, now);
        self.push_exposition_part_19(&mut out, maintenance, state_db, sync_status, dht_peer_quarantine_threshold, now);
        self.push_exposition_part_20(&mut out, maintenance, state_db, sync_status, dht_peer_quarantine_threshold, now);
        self.push_exposition_part_21(&mut out, maintenance, state_db, sync_status, dht_peer_quarantine_threshold, now);
        self.push_exposition_part_22(&mut out, maintenance, state_db, sync_status, dht_peer_quarantine_threshold, now);
        let sorted = sort_endpoints(&self.endpoints);
        push_endpoint_lines(&mut out, &sorted);
        push_str(&mut out, "# EOF\n");
        out
    }

    /// Renders the counters as an OpenMetrics text exposition, judging peer quarantine
    /// by the system clock. The text is that of `openmetrics_text` at the clock's reading.
    pub fn to_openmetrics(&self, maintenance: &NodeMaintenanceStats, state_db: Option<&StateDbStats>, sync_status: Option<&NodeSyncStatus>, dht_peer_quarantine_threshold: u32) -> (r: String)
        ensures
            exists|now: u64| r@ == self.openmetrics_text(*maintenance, opt_copy(state_db), opt_copy(sync_status), dht_peer_quarantine_threshold, now),
    {
        let now = current_unix_timestamp();
        self.to_openmetrics_at(maintenance, state_db, sync_status, dht_peer_quarantine_threshold, now)
    }
}

/// `text` begins with `p`.
#[verifier::opaque]
spec fn begins_with(text: Seq<char>, p: Seq<char>) -> bool {
    p.len() <= text.len() && text.take(p.len() as int) == p
}

/// `line` stands in `text` as a whole line: at the start of `text`, or right after a line
/// feed.
pub open spec fn has_line(text: Seq<char>, line: Seq<char>) -> bool {
    exists|a: Seq<char>, b: Seq<char>| (a.len() == 0 || a.last() == '\n') && text == #[trigger] (a + line + b)
}

proof fn lemma_begins_with_add()
    ensures
        forall|q: Seq<char>, y: Seq<char>, p: Seq<char>| begins_with(q, p) ==> #[trigger] begins_with(q + y, p),
{
    reveal(begins_with);
    assert forall|q: Seq<char>, y: Seq<char>, p: Seq<char>| begins_with(q, p) implies #[trigger] begins_with(q + y, p) by {
        assert((q + y).take(p.len() as int) =~= q.take(p.len() as int));
    }
}

proof fn lemma_has_line_add()
    ensures
        forall|q: Seq<char>, y: Seq<char>, line: Seq<char>| has_line(q, line) ==> #[trigger] has_line(q + y, line),
        forall|q: Seq<char>, line: Seq<char>| (q.len() == 0 || q.last() == '\n') ==> #[trigger] has_line(q + line, line),
{
    assert forall|q: Seq<char>, y: Seq<char>, line: Seq<char>| has_line(q, line) implies #[trigger] has_line(q + y, line) by {
        let (a, b) = choose|a: Seq<char>, b: Seq<char>| (a.len() == 0 || a.last() == '\n') && q == #[trigger] (a + line + b);
        assert(q + y =~= a + line + (b + y));
    }
    assert forall|q: Seq<char>, line: Seq<char>| (q.len() == 0 || q.last() == '\n') implies #[trigger] has_line(q + line, line) by {
        assert(q + line =~= q + line + Seq::<char>::empty());
    }
}

proof fn lemma_has_line_in_prefix(text: Seq<char>, p: Seq<char>, line: Seq<char>)
    requires
        begins_with(text, p),
        has_line(p, line),
    ensures
        has_line(text, line),
{
    reveal(begins_with);
    let (a, b) = choose|a: Seq<char>, b: Seq<char>| (a.len() == 0 || a.last() == '\n') && p == #[trigger] (a + line + b);
    let rest = text.skip(p.len() as int);
    assert(text =~= p + rest);
    assert(text =~= a + line + (b + rest));
}

proof fn lemma_endpoint_lines_begin(q: Seq<char>, s: Seq<(String, ControlEndpointStats)>, p: Seq<char>)
    requires
        begins_with(q, p),
    ensures
        begins_with(endpoint_lines(q, s), p),
    decreases s.len(),
{
    lemma_begins_with_add();
    if s.len() > 0 {
        lemma_endpoint_lines_begin(q, s.drop_last(), p);
    }
}

proof fn lemma_sync_peer_lines_begin(q: Seq<char>, s: Seq<(String, NodeSyncPeerStatus)>, threshold: u32, now: u64, p: Seq<char>)
    requires
        begins_with(q, p),
    ensures
        begins_with(sync_peer_lines(q, s, threshold, now), p),
    decreases s.len(),
{
    lemma_begins_with_add();
    if s.len() > 0 {
        lemma_sync_peer_lines_begin(q, s.drop_last(), threshold, now, p);
    }
}

impl ControlRuntimeStats {
    proof fn lemma_part_2_keeps_prefix(&self, q: Seq<char>, p: Seq<char>, maintenance: NodeMaintenanceStats, state_db: Option<StateDbStats>, sync_status: Option<NodeSyncStatus>, threshold: u32, now: u64)
        requires
            begins_with(q, p),
        ensures
            begins_with(self.exposition_part_2(q, maintenance, state_db, sync_status, threshold, now), p),
    {
        lemma_begins_with_add();
    }

    proof fn lemma_part_3_keeps_prefix(&self, q: Seq<char>, p: Seq<char>, maintenance: NodeMaintenanceStats, state_db: Option<StateDbStats>, sync_status: Option<NodeSyncStatus>, threshold: u32, now: u64)
        requires
            begins_with(q, p),
        ensures
            begins_with(self.exposition_part_3(q, maintenance, state_db, sync_status, threshold, now), p),
    {
        lemma_begins_with_add();
        match self.last_dht_replication_at {
            Some(_) => {},
            None => {},
        }
    }

    proof fn lemma_part_4_keeps_prefix(&self, q: Seq<char>, p: Seq<char>, maintenance: NodeMaintenanceStats, state_db: Option<StateDbStats>, sync_status: Option<NodeSyncStatus>, threshold: u32, now: u64)
        requires
            begins_with(q, p),
        ensures
            begins_with(self.exposition_part_4(q, maintenance, state_db, sync_status, threshold, now), p),
    {
        lemma_begins_with_add();
    }

    proof fn lemma_part_5_keeps_prefix(&self, q: Seq<char>, p: Seq<char>, maintenance: NodeMaintenanceStats, state_db: Option<StateDbStats>, sync_status: Option<NodeSyncStatus>, threshold: u32, now: u64)
        requires
            begins_with(q, p),
        ensures
            begins_with(self.exposition_part_5(q, maintenance, state_db, sync_status, threshold, now), p),
    {
        lemma_begins_with_add();
        match self.last_dht_routing_refresh_at {
            Some(_) => {},
            None => {},
        }
    }

    proof fn lemma_part_6_keeps_prefix(&self, q: Seq<char>, p: Seq<char>, maintenance: NodeMaintenanceStats, state_db: Option<StateDbStats>, sync_status: Option<NodeSyncStatus>, threshold: u32, now: u64)
        requires
            begins_with(q, p),
        ensures
            begins_with(self.exposition_part_6(q, maintenance, state_db, sync_status, threshold, now), p),
    {
        lemma_begins_with_add();
    }

    proof fn lemma_part_7_keeps_prefix(&self, q: Seq<char>, p: Seq<char>, maintenance: NodeMaintenanceStats, state_db: Option<StateDbStats>, sync_status: Option<NodeSyncStatus>, threshold: u32, now: u64)
        requires
            begins_with(q, p),
        ensures
            begins_with(self.exposition_part_7(q, maintenance, state_db, sync_status, threshold, now), p),
    {
        lemma_begins_with_add();
    }

    proof fn lemma_part_8_keeps_prefix(&self, q: Seq<char>, p: Seq<char>, maintenance: NodeMaintenanceStats, state_db: Option<StateDbStats>, sync_status: Option<NodeSyncStatus>, threshold: u32, now: u64)
        requires
            begins_with(q, p),
        ensures
            begins_with(self.exposition_part_8(q, maintenance, state_db, sync_status, threshold, now), p),
    {
        lemma_begins_with_add();
    }

    proof fn lemma_part_9_keeps_prefix(&self, q: Seq<char>, p: Seq<char>, maintenance: NodeMaintenanceStats, state_db: Option<StateDbStats>, sync_status: Option<NodeSyncStatus>, threshold: u32, now: u64)
        requires
            begins_with(q, p),
        ensures
            begins_with(self.exposition_part_9(q, maintenance, state_db, sync_status, threshold, now), p),
    {
        lemma_begins_with_add();
        match self.last_dht_find_value_at {
            Some(_) => {},
            None => {},
        }
    }

    proof fn lemma_part_10_keeps_prefix(&self, q: Seq<char>, p: Seq<char>, maintenance: NodeMaintenanceStats, state_db: Option<StateDbStats>, sync_status: Option<NodeSyncStatus>, threshold: u32, now: u64)
        requires
            begins_with(q, p),
        ensures
            begins_with(self.exposition_part_10(q, maintenance, state_db, sync_status, threshold, now), p),
    {
        lemma_begins_with_add();
    }

    proof fn lemma_part_11_keeps_prefix(&self, q: Seq<char>, p: Seq<char>, maintenance: NodeMaintenanceStats, state_db: Option<StateDbStats>, sync_status: Option<NodeSyncStatus>, threshold: u32, now: u64)
        requires
            begins_with(q, p),
        ensures
            begins_with(self.exposition_part_11(q, maintenance, state_db, sync_status, threshold, now), p),
    {
        lemma_begins_with_add();
    }

    proof fn lemma_part_12_keeps_prefix(&self, q: Seq<char>, p: Seq<char>, maintenance: NodeMaintenanceStats, state_db: Option<StateDbStats>, sync_status: Option<NodeSyncStatus>, threshold: u32, now: u64)
        requires
            begins_with(q, p),
        ensures
            begins_with(self.exposition_part_12(q, maintenance, state_db, sync_status, threshold, now), p),
    {
        lemma_begins_with_add();
        match self.last_sync_schedule_delay_micros {
            Some(_) => {},
            None => {},
        }
    }

    proof fn lemma_part_13_keeps_prefix(&self, q: Seq<char>, p: Seq<char>, maintenance: NodeMaintenanceStats, state_db: Option<StateDbStats>, sync_status: Option<NodeSyncStatus>, threshold: u32, now: u64)
        requires
            begins_with(q, p),
        ensures
            begins_with(self.exposition_part_13(q, maintenance, state_db, sync_status, threshold, now), p),
    {
        lemma_begins_with_add();
        match self.last_dht_replication_schedule_delay_micros {
            Some(_) => {},
            None => {},
        }
    }

    proof fn lemma_part_14_keeps_prefix(&self, q: Seq<char>, p: Seq<char>, maintenance: NodeMaintenanceStats, state_db: Option<StateDbStats>, sync_status: Option<NodeSyncStatus>, threshold: u32, now: u64)
        requires
            begins_with(q, p),
        ensures
            begins_with(self.exposition_part_14(q, maintenance, state_db, sync_status, threshold, now), p),
    {
        lemma_begins_with_add();
        match self.last_dht_routing_refresh_schedule_delay_micros {
            Some(_) => {},
            None => {},
        }
    }

    proof fn lemma_part_15_keeps_prefix(&self, q: Seq<char>, p: Seq<char>, maintenance: NodeMaintenanceStats, state_db: Option<StateDbStats>, sync_status: Option<NodeSyncStatus>, threshold: u32, now: u64)
        requires
            begins_with(q, p),
        ensures
            begins_with(self.exposition_part_15(q, maintenance, state_db, sync_status, threshold, now), p),
    {
        lemma_begins_with_add();
        match sync_status {
            Some(ss) => {
                let h = q
                    + help_line("lm_node_sync_peer_attempts_total"@, "Snapshot sync attempts by peer."@)
                    + type_line("lm_node_sync_peer_attempts_total"@, "counter"@)
                    + help_line("lm_node_sync_peer_successes_total"@, "Snapshot sync successes by peer."@)
                    + type_line("lm_node_sync_peer_successes_total"@, "counter"@)
                    + help_line("lm_node_sync_peer_failures_total"@, "Snapshot sync failures by peer."@)
                    + type_line("lm_node_sync_peer_failures_total"@, "counter"@)
                    + help_line("lm_node_sync_peer_consecutive_failures"@, "Current consecutive snapshot sync failures by peer."@)
                    + type_line("lm_node_sync_peer_consecutive_failures"@, "gauge"@)
                    + help_line("lm_node_sync_peer_next_attempt_at"@, "Unix timestamp for the next scheduled snapshot sync attempt by peer."@)
                    + type_line("lm_node_sync_peer_next_attempt_at"@, "gauge"@)
                    + help_line("lm_node_dht_peer_quarantined"@, "Whether a sync/control peer is currently skipped by DHT runners due to consecutive failures."@)
                    + type_line("lm_node_dht_peer_quarantined"@, "gauge"@);
                assert(begins_with(h, p));
                lemma_sync_peer_lines_begin(h, ss.peers@, threshold, now, p);
            },
            None => {},
        }
    }

    proof fn lemma_part_16_keeps_prefix(&self, q: Seq<char>, p: Seq<char>, maintenance: NodeMaintenanceStats, state_db: Option<StateDbStats>, sync_status: Option<NodeSyncStatus>, threshold: u32, now: u64)
        requires
            begins_with(q, p),
        ensures
            begins_with(self.exposition_part_16(q, maintenance, state_db, sync_status, threshold, now), p),
    {
        lemma_begins_with_add();
    }

    proof fn lemma_part_17_keeps_prefix(&self, q: Seq<char>, p: Seq<char>, maintenance: NodeMaintenanceStats, state_db: Option<StateDbStats>, sync_status: Option<NodeSyncStatus>, threshold: u32, now: u64)
        requires
            begins_with(q, p),
        ensures
            begins_with(self.exposition_part_17(q, maintenance, state_db, sync_status, threshold, now), p),
    {
        lemma_begins_with_add();
    }

    proof fn lemma_part_18_keeps_prefix(&self, q: Seq<char>, p: Seq<char>, maintenance: NodeMaintenanceStats, state_db: Option<StateDbStats>, sync_status: Option<NodeSyncStatus>, threshold: u32, now: u64)
        requires
            begins_with(q, p),
        ensures
            begins_with(self.exposition_part_18(q, maintenance, state_db, sync_status, threshold, now), p),
    {
        lemma_begins_with_add();
    }

    proof fn lemma_part_19_keeps_prefix(&self, q: Seq<char>, p: Seq<char>, maintenance: NodeMaintenanceStats, state_db: Option<StateDbStats>, sync_status: Option<NodeSyncStatus>, threshold: u32, now: u64)
        requires
            begins_with(q, p),
        ensures
            begins_with(self.exposition_part_19(q, maintenance, state_db, sync_status, threshold, now), p),
    {
        lemma_begins_with_add();
    }

    proof fn lemma_part_20_keeps_prefix(&self, q: Seq<char>, p: Seq<char>, maintenance: NodeMaintenanceStats, state_db: Option<StateDbStats>, sync_status: Option<NodeSyncStatus>, threshold: u32, now: u64)
        requires
            begins_with(q, p),
        ensures
            begins_with(self.exposition_part_20(q, maintenance, state_db, sync_status, threshold, now), p),
    {
        lemma_begins_with_add();
        match maintenance.last_pruned_at {
            Some(_) => {},
            None => {},
        }
    }

    proof fn lemma_part_21_keeps_prefix(&self, q: Seq<char>, p: Seq<char>, maintenance: NodeMaintenanceStats, state_db: Option<StateDbStats>, sync_status: Option<NodeSyncStatus>, threshold: u32, now: u64)
        requires
            begins_with(q, p),
        ensures
            begins_with(self.exposition_part_21(q, maintenance, state_db, sync_status, threshold, now), p),
    {
        lemma_begins_with_add();
        match state_db {
            Some(_) => {},
            None => {},
        }
    }

    proof fn lemma_part_22_keeps_prefix(&self, q: Seq<char>, p: Seq<char>, maintenance: NodeMaintenanceStats, state_db: Option<StateDbStats>, sync_status: Option<NodeSyncStatus>, threshold: u32, now: u64)
        requires
            begins_with(q, p),
        ensures
            begins_with(self.exposition_part_22(q, maintenance, state_db, sync_status, threshold, now), p),
    {
        lemma_begins_with_add();
    }

}

impl ControlRuntimeStats {
    /// The exposition shows each control counter on its own line, under its own name and
    /// label: the start time, the responses in all and by status class, each security
    /// event (bad requests, unauthorized, CORS rejections, rate limiting), and the snapshot
    /// exports and imports with their bytes.
    proof fn lemma_first_sections_show_control_counters(&self, maintenance: NodeMaintenanceStats, state_db: Option<StateDbStats>, sync_status: Option<NodeSyncStatus>, threshold: u32, now: u64)
        ensures
            ({
                let text = self.exposition_part_1(self.exposition_part_0(Seq::empty(), maintenance, state_db, sync_status, threshold, now), maintenance, state_db, sync_status, threshold, now);
                &&& has_line(text, value_line("lm_node_control_started_at"@, (self.started_at as nat)))
                &&& has_line(text, value_line("lm_node_control_requests_total"@, (self.requests_total as nat)))
                &&& has_line(text, labeled_line("lm_node_control_responses_total"@, "class"@, "2xx"@, (self.responses_2xx as nat)))
                &&& has_line(text, labeled_line("lm_node_control_responses_total"@, "class"@, "4xx"@, (self.responses_4xx as nat)))
                &&& has_line(text, labeled_line("lm_node_control_responses_total"@, "class"@, "5xx"@, (self.responses_5xx as nat)))
                &&& has_line(text, labeled_line("lm_node_control_security_events_total"@, "event"@, "bad_request"@, (self.bad_requests as nat)))
                &&& has_line(text, labeled_line("lm_node_control_security_events_total"@, "event"@, "unauthorized"@, (self.unauthorized as nat)))
                &&& has_line(text, labeled_line("lm_node_control_security_events_total"@, "event"@, "cors_rejected"@, (self.cors_rejected as nat)))
                &&& has_line(text, labeled_line("lm_node_control_security_events_total"@, "event"@, "rate_limited"@, (self.rate_limited as nat)))
                &&& has_line(text, labeled_line("lm_node_control_sync_snapshots_total"@, "direction"@, "export"@, (self.sync_snapshot_exports as nat)))
                &&& has_line(text, labeled_line("lm_node_control_sync_snapshots_total"@, "direction"@, "import"@, (self.sync_snapshot_imports as nat)))
                &&& has_line(text, labeled_line("lm_node_control_sync_snapshot_bytes_total"@, "direction"@, "export"@, (self.sync_snapshot_export_bytes as nat)))
                &&& has_line(text, labeled_line("lm_node_control_sync_snapshot_bytes_total"@, "direction"@, "import"@, (self.sync_snapshot_import_bytes as nat)))
            }),
    {
        reveal_strlit("\n");
        lemma_has_line_add();
        let t1 = self.exposition_part_1(self.exposition_part_0(Seq::empty(), maintenance, state_db, sync_status, threshold, now), maintenance, state_db, sync_status, threshold, now);
        let l0 = value_line("lm_node_control_started_at"@, (self.started_at as nat));
        let l1 = value_line("lm_node_control_requests_total"@, (self.requests_total as nat));
        let l2 = labeled_line("lm_node_control_responses_total"@, "class"@, "2xx"@, (self.responses_2xx as nat));
        let l3 = labeled_line("lm_node_control_responses_total"@, "class"@, "4xx"@, (self.responses_4xx as nat));
        let l4 = labeled_line("lm_node_control_responses_total"@, "class"@, "5xx"@, (self.responses_5xx as nat));
        let l5 = labeled_line("lm_node_control_security_events_total"@, "event"@, "bad_request"@, (self.bad_requests as nat));
        let l6 = labeled_line("lm_node_control_security_events_total"@, "event"@, "unauthorized"@, (self.unauthorized as nat));
        let l7 = labeled_line("lm_node_control_security_events_total"@, "event"@, "cors_rejected"@, (self.cors_rejected as nat));
        let l8 = labeled_line("lm_node_control_security_events_total"@, "event"@, "rate_limited"@, (self.rate_limited as nat));
        let l9 = labeled_line("lm_node_control_sync_snapshots_total"@, "direction"@, "export"@, (self.sync_snapshot_exports as nat));
        let l10 = labeled_line("lm_node_control_sync_snapshots_total"@, "direction"@, "import"@, (self.sync_snapshot_imports as nat));
        let l11 = labeled_line("lm_node_control_sync_snapshot_bytes_total"@, "direction"@, "export"@, (self.sync_snapshot_export_bytes as nat));
        let l12 = labeled_line("lm_node_control_sync_snapshot_bytes_total"@, "direction"@, "import"@, (self.sync_snapshot_import_bytes as nat));
        assert(has_line(t1, l0));
        assert(has_line(t1, l1));
        assert(has_line(t1, l2));
        assert(has_line(t1, l3));
        assert(has_line(t1, l4));
        assert(has_line(t1, l5));
        assert(has_line(t1, l6));
        assert(has_line(t1, l7));
        assert(has_line(t1, l8));
        assert(has_line(t1, l9));
        assert(has_line(t1, l10));
        assert(has_line(t1, l11));
        assert(has_line(t1, l12));
    }

    #[verifier::spinoff_prover]
    #[verifier::rlimit(100)]
    pub proof fn lemma_exposition_shows_control_counters(&self, maintenance: NodeMaintenanceStats, state_db: Option<StateDbStats>, sync_status: Option<NodeSyncStatus>, threshold: u32, now: u64)
        ensures
            ({
                let text = self.openmetrics_text(maintenance, state_db, sync_status, threshold, now);
                &&& has_line(text, value_line("lm_node_control_started_at"@, (self.started_at as nat)))
                &&& has_line(text, value_line("lm_node_control_requests_total"@, (self.requests_total as nat)))
                &&& has_line(text, labeled_line("lm_node_control_responses_total"@, "class"@, "2xx"@, (self.responses_2xx as nat)))
                &&& has_line(text, labeled_line("lm_node_control_responses_total"@, "class"@, "4xx"@, (self.responses_4xx as nat)))
                &&& has_line(text, labeled_line("lm_node_control_responses_total"@, "class"@, "5xx"@, (self.responses_5xx as nat)))
                &&& has_line(text, labeled_line("lm_node_control_security_events_total"@, "event"@, "bad_request"@, (self.bad_requests as nat)))
                &&& has_line(text, labeled_line("lm_node_control_security_events_total"@, "event"@, "unauthorized"@, (self.unauthorized as nat)))
                &&& has_line(text, labeled_line("lm_node_control_security_events_total"@, "event"@, "cors_rejected"@, (self.cors_rejected as nat)))
                &&& has_line(text, labeled_line("lm_node_control_security_events_total"@, "event"@, "rate_limited"@, (self.rate_limited as nat)))
                &&& has_line(text, labeled_line("lm_node_control_sync_snapshots_total"@, "direction"@, "export"@, (self.sync_snapshot_exports as nat)))
                &&& has_line(text, labeled_line("lm_node_control_sync_snapshots_total"@, "direction"@, "import"@, (self.sync_snapshot_imports as nat)))
                &&& has_line(text, labeled_line("lm_node_control_sync_snapshot_bytes_total"@, "direction"@, "export"@, (self.sync_snapshot_export_bytes as nat)))
                &&& has_line(text, labeled_line("lm_node_control_sync_snapshot_bytes_total"@, "direction"@, "import"@, (self.sync_snapshot_import_bytes as nat)))
            }),
    {
        let text = self.openmetrics_text(maintenance, state_db, sync_status, threshold, now);
        let t1 = self.exposition_part_1(self.exposition_part_0(Seq::empty(), maintenance, state_db, sync_status, threshold, now), maintenance, state_db, sync_status, threshold, now);
        lemma_begins_with_refl(t1);
        self.lemma_sections_after_1_keep_prefix(t1, t1, maintenance, state_db, sync_status, threshold, now);
        let l0 = value_line("lm_node_control_started_at"@, (self.started_at as nat));
        let l1 = value_line("lm_node_control_requests_total"@, (self.requests_total as nat));
        let l2 = labeled_line("lm_node_control_responses_total"@, "class"@, "2xx"@, (self.responses_2xx as nat));
        let l3 = labeled_line("lm_node_control_responses_total"@, "class"@, "4xx"@, (self.responses_4xx as nat));
        let l4 = labeled_line("lm_node_control_responses_total"@, "class"@, "5xx"@, (self.responses_5xx as nat));
        let l5 = labeled_line("lm_node_control_security_events_total"@, "event"@, "bad_request"@, (self.bad_requests as nat));
        let l6 = labeled_line("lm_node_control_security_events_total"@, "event"@, "unauthorized"@, (self.unauthorized as nat));
        let l7 = labeled_line("lm_node_control_security_events_total"@, "event"@, "cors_rejected"@, (self.cors_rejected as nat));
        let l8 = labeled_line("lm_node_control_security_events_total"@, "event"@, "rate_limited"@, (self.rate_limited as nat));
        let l9 = labeled_line("lm_node_control_sync_snapshots_total"@, "direction"@, "export"@, (self.sync_snapshot_exports as nat));
        let l10 = labeled_line("lm_node_control_sync_snapshots_total"@, "direction"@, "import"@, (self.sync_snapshot_imports as nat));
        let l11 = labeled_line("lm_node_control_sync_snapshot_bytes_total"@, "direction"@, "export"@, (self.sync_snapshot_export_bytes as nat));
        let l12 = labeled_line("lm_node_control_sync_snapshot_bytes_total"@, "direction"@, "import"@, (self.sync_snapshot_import_bytes as nat));
        self.lemma_first_sections_show_control_counters(maintenance, state_db, sync_status, threshold, now);
        lemma_has_line_in_prefix(text, t1, l0);
        lemma_has_line_in_prefix(text, t1, l1);
        lemma_has_line_in_prefix(text, t1, l2);
        lemma_has_line_in_prefix(text, t1, l3);
        lemma_has_line_in_prefix(text, t1, l4);
        lemma_has_line_in_prefix(text, t1, l5);
        lemma_has_line_in_prefix(text, t1, l6);
        lemma_has_line_in_prefix(text, t1, l7);
        lemma_has_line_in_prefix(text, t1, l8);
        lemma_has_line_in_prefix(text, t1, l9);
        lemma_has_line_in_prefix(text, t1, l10);
        lemma_has_line_in_prefix(text, t1, l11);
        lemma_has_line_in_prefix(text, t1, l12);
    }
}

/// Every text begins with itself.
proof fn lemma_begins_with_refl(x: Seq<char>)
    ensures
        begins_with(x, x),
{
    reveal(begins_with);
    assert(x.take(x.len() as int) =~= x);
}

impl ControlRuntimeStats {
    proof fn lemma_part_2_shows(&self, q: Seq<char>, maintenance: NodeMaintenanceStats, state_db: Option<StateDbStats>, sync_status: Option<NodeSyncStatus>, threshold: u32, now: u64)
        ensures
            self.exposition_part_2(q, maintenance, state_db, sync_status, threshold, now).len() > 0 && self.exposition_part_2(q, maintenance, state_db, sync_status, threshold, now).last() == '\n',
            has_line(self.exposition_part_2(q, maintenance, state_db, sync_status, threshold, now), value_line("lm_node_dht_replication_records_total"@, (self.dht_replication_records as nat))),
            has_line(self.exposition_part_2(q, maintenance, state_db, sync_status, threshold, now), labeled_line("lm_node_dht_replication_attempts_total"@, "result"@, "success"@, (self.dht_replication_successes as nat))),
            has_line(self.exposition_part_2(q, maintenance, state_db, sync_status, threshold, now), labeled_line("lm_node_dht_replication_attempts_total"@, "result"@, "failure"@, (self.dht_replication_failures as nat))),
            has_line(self.exposition_part_2(q, maintenance, state_db, sync_status, threshold, now), labeled_line("lm_node_dht_replication_attempts_total"@, "result"@, "all"@, (self.dht_replication_attempts as nat))),
            has_line(self.exposition_part_2(q, maintenance, state_db, sync_status, threshold, now), value_line("lm_node_dht_replication_peers_quarantined_total"@, (self.dht_replication_peers_quarantined as nat))),
    {
        reveal_strlit("\n");
        lemma_has_line_add();
    }

    proof fn lemma_part_3_shows(&self, q: Seq<char>, maintenance: NodeMaintenanceStats, state_db: Option<StateDbStats>, sync_status: Option<NodeSyncStatus>, threshold: u32, now: u64)
        ensures
            self.last_dht_replication_at matches Some(last_dht_replication_at) ==> has_line(self.exposition_part_3(q, maintenance, state_db, sync_status, threshold, now), value_line("lm_node_dht_replication_last_run_at"@, (last_dht_replication_at as nat))),
    {
        reveal_strlit("\n");
        lemma_has_line_add();
        match self.last_dht_replication_at {
            Some(_) => {},
            None => {},
        }
    }

    proof fn lemma_part_4_shows(&self, q: Seq<char>, maintenance: NodeMaintenanceStats, state_db: Option<StateDbStats>, sync_status: Option<NodeSyncStatus>, threshold: u32, now: u64)
        ensures
            self.exposition_part_4(q, maintenance, state_db, sync_status, threshold, now).len() > 0 && self.exposition_part_4(q, maintenance, state_db, sync_status, threshold, now).last() == '\n',
            has_line(self.exposition_part_4(q, maintenance, state_db, sync_status, threshold, now), value_line("lm_node_dht_routing_refresh_runs_total"@, (self.dht_routing_refresh_runs as nat))),
            has_line(self.exposition_part_4(q, maintenance, state_db, sync_status, threshold, now), value_line("lm_node_dht_routing_refresh_targets_total"@, (self.dht_routing_refresh_targets as nat))),
            has_line(self.exposition_part_4(q, maintenance, state_db, sync_status, threshold, now), labeled_line("lm_node_dht_routing_refresh_attempts_total"@, "result"@, "success"@, (self.dht_routing_refresh_successes as nat))),
            has_line(self.exposition_part_4(q, maintenance, state_db, sync_status, threshold, now), labeled_line("lm_node_dht_routing_refresh_attempts_total"@, "result"@, "failure"@, (self.dht_routing_refresh_failures as nat))),
            has_line(self.exposition_part_4(q, maintenance, state_db, sync_status, threshold, now), labeled_line("lm_node_dht_routing_refresh_attempts_total"@, "result"@, "all"@, (self.dht_routing_refresh_attempts as nat))),
    {
        reveal_strlit("\n");
        lemma_has_line_add();
    }

    proof fn lemma_part_5_shows(&self, q: Seq<char>, maintenance: NodeMaintenanceStats, state_db: Option<StateDbStats>, sync_status: Option<NodeSyncStatus>, threshold: u32, now: u64)
        ensures
            self.exposition_part_5(q, maintenance, state_db, sync_status, threshold, now).len() > 0 && self.exposition_part_5(q, maintenance, state_db, sync_status, threshold, now).last() == '\n',
            has_line(self.exposition_part_5(q, maintenance, state_db, sync_status, threshold, now), value_line("lm_node_dht_routing_refresh_nodes_returned_total"@, (self.dht_routing_refresh_nodes_returned as nat))),
            has_line(self.exposition_part_5(q, maintenance, state_db, sync_status, threshold, now), value_line("lm_node_dht_routing_refresh_nodes_merged_total"@, (self.dht_routing_refresh_nodes_merged as nat))),
            has_line(self.exposition_part_5(q, maintenance, state_db, sync_status, threshold, now), labeled_line("lm_node_dht_routing_refresh_nodes_rejected_total"@, "reason"@, "non_closer"@, (self.dht_routing_refresh_nodes_rejected_non_closer as nat))),
            has_line(self.exposition_part_5(q, maintenance, state_db, sync_status, threshold, now), labeled_line("lm_node_dht_routing_refresh_nodes_rejected_total"@, "reason"@, "duplicate"@, (self.dht_routing_refresh_nodes_rejected_duplicate as nat))),
            has_line(self.exposition_part_5(q, maintenance, state_db, sync_status, threshold, now), value_line("lm_node_dht_routing_refresh_peers_quarantined_total"@, (self.dht_routing_refresh_peers_quarantined as nat))),
    {
        reveal_strlit("\n");
        lemma_has_line_add();
    }

    proof fn lemma_part_6_shows(&self, q: Seq<char>, maintenance: NodeMaintenanceStats, state_db: Option<StateDbStats>, sync_status: Option<NodeSyncStatus>, threshold: u32, now: u64)
        ensures
            self.last_dht_routing_refresh_at matches Some(last_dht_routing_refresh_at) ==> has_line(self.exposition_part_6(q, maintenance, state_db, sync_status, threshold, now), value_line("lm_node_dht_routing_refresh_last_run_at"@, (last_dht_routing_refresh_at as nat))),
    {
        reveal_strlit("\n");
        lemma_has_line_add();
        match self.last_dht_routing_refresh_at {
            Some(_) => {},
            None => {},
        }
    }

    proof fn lemma_part_7_shows(&self, q: Seq<char>, maintenance: NodeMaintenanceStats, state_db: Option<StateDbStats>, sync_status: Option<NodeSyncStatus>, threshold: u32, now: u64)
        ensures
            self.exposition_part_7(q, maintenance, state_db, sync_status, threshold, now).len() > 0 && self.exposition_part_7(q, maintenance, state_db, sync_status, threshold, now).last() == '\n',
            has_line(self.exposition_part_7(q, maintenance, state_db, sync_status, threshold, now), value_line("lm_node_dht_find_value_runs_total"@, (self.dht_find_value_runs as nat))),
            has_line(self.exposition_part_7(q, maintenance, state_db, sync_status, threshold, now), labeled_line("lm_node_dht_find_value_attempts_total"@, "result"@, "success"@, (self.dht_find_value_successes as nat))),
            has_line(self.exposition_part_7(q, maintenance, state_db, sync_status, threshold, now), labeled_line("lm_node_dht_find_value_attempts_total"@, "result"@, "failure"@, (self.dht_find_value_failures as nat))),
            has_line(self.exposition_part_7(q, maintenance, state_db, sync_status, threshold, now), labeled_line("lm_node_dht_find_value_attempts_total"@, "result"@, "all"@, (self.dht_find_value_attempts as nat))),
            has_line(self.exposition_part_7(q, maintenance, state_db, sync_status, threshold, now), labeled_line("lm_node_dht_find_value_records_total"@, "kind"@, "found"@, (self.dht_find_value_found_records as nat))),
            has_line(self.exposition_part_7(q, maintenance, state_db, sync_status, threshold, now), labeled_line("lm_node_dht_find_value_records_total"@, "kind"@, "closer"@, (self.dht_find_value_closer_records as nat))),
    {
        reveal_strlit("\n");
        lemma_has_line_add();
    }

    proof fn lemma_part_8_shows(&self, q: Seq<char>, maintenance: NodeMaintenanceStats, state_db: Option<StateDbStats>, sync_status: Option<NodeSyncStatus>, threshold: u32, now: u64)
        ensures
            self.exposition_part_8(q, maintenance, state_db, sync_status, threshold, now).len() > 0 && self.exposition_part_8(q, maintenance, state_db, sync_status, threshold, now).last() == '\n',
            has_line(self.exposition_part_8(q, maintenance, state_db, sync_status, threshold, now), labeled_line("lm_node_dht_find_value_closer_nodes_total"@, "kind"@, "returned"@, (self.dht_find_value_closer_nodes_returned as nat))),
            has_line(self.exposition_part_8(q, maintenance, state_db, sync_status, threshold, now), labeled_line("lm_node_dht_find_value_closer_nodes_total"@, "kind"@, "merged"@, (self.dht_find_value_closer_nodes_merged as nat))),
            has_line(self.exposition_part_8(q, maintenance, state_db, sync_status, threshold, now), labeled_line("lm_node_dht_find_value_closer_nodes_total"@, "kind"@, "rejected_non_closer"@, (self.dht_find_value_closer_nodes_rejected_non_closer as nat))),
            has_line(self.exposition_part_8(q, maintenance, state_db, sync_status, threshold, now), labeled_line("lm_node_dht_find_value_closer_nodes_total"@, "kind"@, "rejected_duplicate"@, (self.dht_find_value_closer_nodes_rejected_duplicate as nat))),
            has_line(self.exposition_part_8(q, maintenance, state_db, sync_status, threshold, now), value_line("lm_node_dht_find_value_peers_quarantined_total"@, (self.dht_find_value_peers_quarantined as nat))),
            has_line(self.exposition_part_8(q, maintenance, state_db, sync_status, threshold, now), value_line("lm_node_dht_find_value_query_rounds_total"@, (self.dht_find_value_query_rounds as nat))),
    {
        reveal_strlit("\n");
        lemma_has_line_add();
    }

    proof fn lemma_part_9_shows(&self, q: Seq<char>, maintenance: NodeMaintenanceStats, state_db: Option<StateDbStats>, sync_status: Option<NodeSyncStatus>, threshold: u32, now: u64)
        ensures
            self.exposition_part_9(q, maintenance, state_db, sync_status, threshold, now).len() > 0 && self.exposition_part_9(q, maintenance, state_db, sync_status, threshold, now).last() == '\n',
            has_line(self.exposition_part_9(q, maintenance, state_db, sync_status, threshold, now), value_line("lm_node_dht_find_value_alpha_max"@, (self.dht_find_value_alpha_max as nat))),
            has_line(self.exposition_part_9(q, maintenance, state_db, sync_status, threshold, now), value_line("lm_node_dht_find_value_exhausted_total"@, (self.dht_find_value_exhausted as nat))),
    {
        reveal_strlit("\n");
        lemma_has_line_add();
    }

    proof fn lemma_part_10_shows(&self, q: Seq<char>, maintenance: NodeMaintenanceStats, state_db: Option<StateDbStats>, sync_status: Option<NodeSyncStatus>, threshold: u32, now: u64)
        ensures
            self.last_dht_find_value_at matches Some(last_dht_find_value_at) ==> has_line(self.exposition_part_10(q, maintenance, state_db, sync_status, threshold, now), value_line("lm_node_dht_find_value_last_run_at"@, (last_dht_find_value_at as nat))),
    {
        reveal_strlit("\n");
        lemma_has_line_add();
        match self.last_dht_find_value_at {
            Some(_) => {},
            None => {},
        }
    }

    proof fn lemma_part_11_shows(&self, q: Seq<char>, maintenance: NodeMaintenanceStats, state_db: Option<StateDbStats>, sync_status: Option<NodeSyncStatus>, threshold: u32, now: u64)
        ensures
            self.exposition_part_11(q, maintenance, state_db, sync_status, threshold, now).len() > 0 && self.exposition_part_11(q, maintenance, state_db, sync_status, threshold, now).last() == '\n',
            has_line(self.exposition_part_11(q, maintenance, state_db, sync_status, threshold, now), labeled_line("lm_node_background_schedule_delay_micros_total"@, "job"@, "snapshot_sync"@, (self.sync_schedule_delay_micros_total as nat))),
            has_line(self.exposition_part_11(q, maintenance, state_db, sync_status, threshold, now), labeled_line("lm_node_background_schedule_delay_micros_total"@, "job"@, "dht_replication"@, (self.dht_replication_schedule_delay_micros_total as nat))),
            has_line(self.exposition_part_11(q, maintenance, state_db, sync_status, threshold, now), labeled_line("lm_node_background_schedule_delay_micros_total"@, "job"@, "dht_routing_refresh"@, (self.dht_routing_refresh_schedule_delay_micros_total as nat))),
            has_line(self.exposition_part_11(q, maintenance, state_db, sync_status, threshold, now), labeled_line("lm_node_background_schedule_delay_micros_max"@, "job"@, "snapshot_sync"@, (self.sync_schedule_delay_micros_max as nat))),
            has_line(self.exposition_part_11(q, maintenance, state_db, sync_status, threshold, now), labeled_line("lm_node_background_schedule_delay_micros_max"@, "job"@, "dht_replication"@, (self.dht_replication_schedule_delay_micros_max as nat))),
            has_line(self.exposition_part_11(q, maintenance, state_db, sync_status, threshold, now), labeled_line("lm_node_background_schedule_delay_micros_max"@, "job"@, "dht_routing_refresh"@, (self.dht_routing_refresh_schedule_delay_micros_max as nat))),
    {
        reveal_strlit("\n");
        lemma_has_line_add();
    }

    proof fn lemma_part_12_shows(&self, q: Seq<char>, maintenance: NodeMaintenanceStats, state_db: Option<StateDbStats>, sync_status: Option<NodeSyncStatus>, threshold: u32, now: u64)
        requires
            q.len() > 0 && q.last() == '\n',
        ensures
            self.exposition_part_12(q, maintenance, state_db, sync_status, threshold, now).len() > 0 && self.exposition_part_12(q, maintenance, state_db, sync_status, threshold, now).last() == '\n',
            self.last_sync_schedule_delay_micros matches Some(value) ==> has_line(self.exposition_part_12(q, maintenance, state_db, sync_status, threshold, now), labeled_line("lm_node_background_schedule_delay_micros_last"@, "job"@, "snapshot_sync"@, (value as nat))),
    {
        reveal_strlit("\n");
        lemma_has_line_add();
        match self.last_sync_schedule_delay_micros {
            Some(_) => {},
            None => {},
        }
    }

    proof fn lemma_part_13_shows(&self, q: Seq<char>, maintenance: NodeMaintenanceStats, state_db: Option<StateDbStats>, sync_status: Option<NodeSyncStatus>, threshold: u32, now: u64)
        requires
            q.len() > 0 && q.last() == '\n',
        ensures
            self.exposition_part_13(q, maintenance, state_db, sync_status, threshold, now).len() > 0 && self.exposition_part_13(q, maintenance, state_db, sync_status, threshold, now).last() == '\n',
            self.last_dht_replication_schedule_delay_micros matches Some(value) ==> has_line(self.exposition_part_13(q, maintenance, state_db, sync_status, threshold, now), labeled_line("lm_node_background_schedule_delay_micros_last"@, "job"@, "dht_replication"@, (value as nat))),
    {
        reveal_strlit("\n");
        lemma_has_line_add();
        match self.last_dht_replication_schedule_delay_micros {
            Some(_) => {},
            None => {},
        }
    }

    proof fn lemma_part_14_shows(&self, q: Seq<char>, maintenance: NodeMaintenanceStats, state_db: Option<StateDbStats>, sync_status: Option<NodeSyncStatus>, threshold: u32, now: u64)
        requires
            q.len() > 0 && q.last() == '\n',
        ensures
            self.exposition_part_14(q, maintenance, state_db, sync_status, threshold, now).len() > 0 && self.exposition_part_14(q, maintenance, state_db, sync_status, threshold, now).last() == '\n',
            self.last_dht_routing_refresh_schedule_delay_micros matches Some(value) ==> has_line(self.exposition_part_14(q, maintenance, state_db, sync_status, threshold, now), labeled_line("lm_node_background_schedule_delay_micros_last"@, "job"@, "dht_routing_refresh"@, (value as nat))),
    {
        reveal_strlit("\n");
        lemma_has_line_add();
        match self.last_dht_routing_refresh_schedule_delay_micros {
            Some(_) => {},
            None => {},
        }
    }

    proof fn lemma_part_16_shows(&self, q: Seq<char>, maintenance: NodeMaintenanceStats, state_db: Option<StateDbStats>, sync_status: Option<NodeSyncStatus>, threshold: u32, now: u64)
        ensures
            self.exposition_part_16(q, maintenance, state_db, sync_status, threshold, now).len() > 0 && self.exposition_part_16(q, maintenance, state_db, sync_status, threshold, now).last() == '\n',
            has_line(self.exposition_part_16(q, maintenance, state_db, sync_status, threshold, now), value_line("lm_node_maintenance_prune_runs_total"@, (maintenance.prune_runs as nat))),
            has_line(self.exposition_part_16(q, maintenance, state_db, sync_status, threshold, now), labeled_line("lm_node_maintenance_expired_records_total"@, "kind"@, "mailbox_delivery"@, (maintenance.mailbox_expired_deliveries as nat))),
            has_line(self.exposition_part_16(q, maintenance, state_db, sync_status, threshold, now), labeled_line("lm_node_maintenance_expired_records_total"@, "kind"@, "prekey_bundle"@, (maintenance.prekey_expired_bundles as nat))),
            has_line(self.exposition_part_16(q, maintenance, state_db, sync_status, threshold, now), labeled_line("lm_node_mailbox_push_rejections_total"@, "reason"@, "invalid_json"@, (maintenance.mailbox_push_rejects.invalid_json as nat))),
            has_line(self.exposition_part_16(q, maintenance, state_db, sync_status, threshold, now), labeled_line("lm_node_mailbox_push_rejections_total"@, "reason"@, "invalid_message_format"@, (maintenance.mailbox_push_rejects.invalid_message_format as nat))),
            has_line(self.exposition_part_16(q, maintenance, state_db, sync_status, threshold, now), labeled_line("lm_node_mailbox_push_rejections_total"@, "reason"@, "invalid_identity_public_key"@, (maintenance.mailbox_push_rejects.invalid_identity_public_key as nat))),
    {
        reveal_strlit("\n");
        lemma_has_line_add();
    }

    proof fn lemma_part_17_shows(&self, q: Seq<char>, maintenance: NodeMaintenanceStats, state_db: Option<StateDbStats>, sync_status: Option<NodeSyncStatus>, threshold: u32, now: u64)
        requires
            q.len() > 0 && q.last() == '\n',
        ensures
            self.exposition_part_17(q, maintenance, state_db, sync_status, threshold, now).len() > 0 && self.exposition_part_17(q, maintenance, state_db, sync_status, threshold, now).last() == '\n',
            has_line(self.exposition_part_17(q, maintenance, state_db, sync_status, threshold, now), labeled_line("lm_node_mailbox_push_rejections_total"@, "reason"@, "invalid_signature"@, (maintenance.mailbox_push_rejects.invalid_signature as nat))),
            has_line(self.exposition_part_17(q, maintenance, state_db, sync_status, threshold, now), labeled_line("lm_node_mailbox_push_rejections_total"@, "reason"@, "expired_object"@, (maintenance.mailbox_push_rejects.expired_object as nat))),
            has_line(self.exposition_part_17(q, maintenance, state_db, sync_status, threshold, now), labeled_line("lm_node_mailbox_push_rejections_total"@, "reason"@, "duplicate_message"@, (maintenance.mailbox_push_rejects.duplicate_message as nat))),
            has_line(self.exposition_part_17(q, maintenance, state_db, sync_status, threshold, now), labeled_line("lm_node_mailbox_push_rejections_total"@, "reason"@, "payload_too_large"@, (maintenance.mailbox_push_rejects.payload_too_large as nat))),
            has_line(self.exposition_part_17(q, maintenance, state_db, sync_status, threshold, now), labeled_line("lm_node_mailbox_push_rejections_total"@, "reason"@, "global_rate_limited"@, (maintenance.mailbox_push_rejects.global_rate_limited as nat))),
            has_line(self.exposition_part_17(q, maintenance, state_db, sync_status, threshold, now), labeled_line("lm_node_mailbox_push_rejections_total"@, "reason"@, "sender_rate_limited"@, (maintenance.mailbox_push_rejects.sender_rate_limited as nat))),
            has_line(self.exposition_part_17(q, maintenance, state_db, sync_status, threshold, now), labeled_line("lm_node_mailbox_push_rejections_total"@, "reason"@, "other"@, (maintenance.mailbox_push_rejects.other as nat))),
            has_line(self.exposition_part_17(q, maintenance, state_db, sync_status, threshold, now), labeled_line("lm_node_mailbox_push_rejections_total"@, "reason"@, "all"@, (maintenance.mailbox_push_rejects.total_count() as nat))),
            has_line(self.exposition_part_17(q, maintenance, state_db, sync_status, threshold, now), labeled_line("lm_node_dht_record_rejections_total"@, "reason"@, "invalid_json"@, (maintenance.dht_record_rejects.invalid_json as nat))),
            has_line(self.exposition_part_17(q, maintenance, state_db, sync_status, threshold, now), labeled_line("lm_node_dht_record_rejections_total"@, "reason"@, "expired"@, (maintenance.dht_record_rejects.expired as nat))),
    {
        reveal_strlit("\n");
        lemma_has_line_add();
    }

    proof fn lemma_part_18_shows(&self, q: Seq<char>, maintenance: NodeMaintenanceStats, state_db: Option<StateDbStats>, sync_status: Option<NodeSyncStatus>, threshold: u32, now: u64)
        requires
            q.len() > 0 && q.last() == '\n',
        ensures
            self.exposition_part_18(q, maintenance, state_db, sync_status, threshold, now).len() > 0 && self.exposition_part_18(q, maintenance, state_db, sync_status, threshold, now).last() == '\n',
            has_line(self.exposition_part_18(q, maintenance, state_db, sync_status, threshold, now), labeled_line("lm_node_dht_record_rejections_total"@, "reason"@, "ttl_too_long"@, (maintenance.dht_record_rejects.ttl_too_long as nat))),
            has_line(self.exposition_part_18(q, maintenance, state_db, sync_status, threshold, now), labeled_line("lm_node_dht_record_rejections_total"@, "reason"@, "payload_too_large"@, (maintenance.dht_record_rejects.payload_too_large as nat))),
            has_line(self.exposition_part_18(q, maintenance, state_db, sync_status, threshold, now), labeled_line("lm_node_dht_record_rejections_total"@, "reason"@, "invalid_record"@, (maintenance.dht_record_rejects.invalid_record as nat))),
            has_line(self.exposition_part_18(q, maintenance, state_db, sync_status, threshold, now), labeled_line("lm_node_dht_record_rejections_total"@, "reason"@, "all"@, (maintenance.dht_record_rejects.total_count() as nat))),
            has_line(self.exposition_part_18(q, maintenance, state_db, sync_status, threshold, now), labeled_line("lm_node_mailbox_ack_rejections_total"@, "reason"@, "invalid_json"@, (maintenance.mailbox_ack_rejects.invalid_json as nat))),
            has_line(self.exposition_part_18(q, maintenance, state_db, sync_status, threshold, now), labeled_line("lm_node_mailbox_ack_rejections_total"@, "reason"@, "invalid_user_id"@, (maintenance.mailbox_ack_rejects.invalid_user_id as nat))),
            has_line(self.exposition_part_18(q, maintenance, state_db, sync_status, threshold, now), labeled_line("lm_node_mailbox_ack_rejections_total"@, "reason"@, "too_many_ids"@, (maintenance.mailbox_ack_rejects.too_many_ids as nat))),
            has_line(self.exposition_part_18(q, maintenance, state_db, sync_status, threshold, now), labeled_line("lm_node_mailbox_ack_rejections_total"@, "reason"@, "empty_id"@, (maintenance.mailbox_ack_rejects.empty_id as nat))),
            has_line(self.exposition_part_18(q, maintenance, state_db, sync_status, threshold, now), labeled_line("lm_node_mailbox_ack_rejections_total"@, "reason"@, "id_too_large"@, (maintenance.mailbox_ack_rejects.id_too_large as nat))),
            has_line(self.exposition_part_18(q, maintenance, state_db, sync_status, threshold, now), labeled_line("lm_node_mailbox_ack_rejections_total"@, "reason"@, "all"@, (maintenance.mailbox_ack_rejects.total_count() as nat))),
    {
        reveal_strlit("\n");
        lemma_has_line_add();
    }

    proof fn lemma_part_19_shows(&self, q: Seq<char>, maintenance: NodeMaintenanceStats, state_db: Option<StateDbStats>, sync_status: Option<NodeSyncStatus>, threshold: u32, now: u64)
        ensures
            self.exposition_part_19(q, maintenance, state_db, sync_status, threshold, now).len() > 0 && self.exposition_part_19(q, maintenance, state_db, sync_status, threshold, now).last() == '\n',
            has_line(self.exposition_part_19(q, maintenance, state_db, sync_status, threshold, now), labeled_line("lm_node_routing_peer_rejections_total"@, "reason"@, "expired"@, (maintenance.routing_peer_rejects.expired as nat))),
            has_line(self.exposition_part_19(q, maintenance, state_db, sync_status, threshold, now), labeled_line("lm_node_routing_peer_rejections_total"@, "reason"@, "mismatched_node_id"@, (maintenance.routing_peer_rejects.mismatched_node_id as nat))),
            has_line(self.exposition_part_19(q, maintenance, state_db, sync_status, threshold, now), labeled_line("lm_node_routing_peer_rejections_total"@, "reason"@, "local_node"@, (maintenance.routing_peer_rejects.local_node as nat))),
            has_line(self.exposition_part_19(q, maintenance, state_db, sync_status, threshold, now), labeled_line("lm_node_routing_peer_rejections_total"@, "reason"@, "missing_identity_public_key"@, (maintenance.routing_peer_rejects.missing_identity_public_key as nat))),
            has_line(self.exposition_part_19(q, maintenance, state_db, sync_status, threshold, now), labeled_line("lm_node_routing_peer_rejections_total"@, "reason"@, "invalid_identity_public_key"@, (maintenance.routing_peer_rejects.invalid_identity_public_key as nat))),
            has_line(self.exposition_part_19(q, maintenance, state_db, sync_status, threshold, now), labeled_line("lm_node_routing_peer_rejections_total"@, "reason"@, "invalid_signature"@, (maintenance.routing_peer_rejects.invalid_signature as nat))),
            has_line(self.exposition_part_19(q, maintenance, state_db, sync_status, threshold, now), labeled_line("lm_node_routing_peer_rejections_total"@, "reason"@, "too_many_addresses"@, (maintenance.routing_peer_rejects.too_many_addresses as nat))),
            has_line(self.exposition_part_19(q, maintenance, state_db, sync_status, threshold, now), labeled_line("lm_node_routing_peer_rejections_total"@, "reason"@, "address_too_large"@, (maintenance.routing_peer_rejects.address_too_large as nat))),
            has_line(self.exposition_part_19(q, maintenance, state_db, sync_status, threshold, now), labeled_line("lm_node_routing_peer_rejections_total"@, "reason"@, "all"@, (maintenance.routing_peer_rejects.total_count() as nat))),
    {
        reveal_strlit("\n");
        lemma_has_line_add();
    }

    proof fn lemma_part_20_shows(&self, q: Seq<char>, maintenance: NodeMaintenanceStats, state_db: Option<StateDbStats>, sync_status: Option<NodeSyncStatus>, threshold: u32, now: u64)
        ensures
            maintenance.last_pruned_at matches Some(last_pruned_at) ==> has_line(self.exposition_part_20(q, maintenance, state_db, sync_status, threshold, now), value_line("lm_node_maintenance_last_pruned_at"@, (last_pruned_at as nat))),
    {
        reveal_strlit("\n");
        lemma_has_line_add();
        match maintenance.last_pruned_at {
            Some(_) => {},
            None => {},
        }
    }

    proof fn lemma_part_21_shows(&self, q: Seq<char>, maintenance: NodeMaintenanceStats, state_db: Option<StateDbStats>, sync_status: Option<NodeSyncStatus>, threshold: u32, now: u64)
        ensures
            state_db matches Some(db) ==> has_line(self.exposition_part_21(q, maintenance, state_db, sync_status, threshold, now), labeled_line("lm_node_state_db_pages"@, "kind"@, "total"@, (db.page_count as nat))),
            state_db matches Some(db) ==> has_line(self.exposition_part_21(q, maintenance, state_db, sync_status, threshold, now), labeled_line("lm_node_state_db_pages"@, "kind"@, "free"@, (db.freelist_count as nat))),
            state_db matches Some(db) ==> has_line(self.exposition_part_21(q, maintenance, state_db, sync_status, threshold, now), value_line("lm_node_state_db_page_size_bytes"@, (db.page_size_bytes as nat))),
            state_db matches Some(db) ==> has_line(self.exposition_part_21(q, maintenance, state_db, sync_status, threshold, now), value_line("lm_node_state_db_file_bytes"@, (db.file_bytes as nat))),
            state_db matches Some(db) ==> has_line(self.exposition_part_21(q, maintenance, state_db, sync_status, threshold, now), value_line("lm_node_state_db_encrypted"@, (if db.encrypted { 1nat } else { 0nat }))),
            state_db matches Some(db) ==> has_line(self.exposition_part_21(q, maintenance, state_db, sync_status, threshold, now), value_line("lm_node_state_db_permissions_hardened"@, (if db.permissions_hardened { 1nat } else { 0nat }))),
    {
        reveal_strlit("\n");
        lemma_has_line_add();
        match state_db {
            Some(_) => {},
            None => {},
        }
    }

    proof fn lemma_sections_after_22_keep_prefix(&self, q: Seq<char>, p: Seq<char>, maintenance: NodeMaintenanceStats, state_db: Option<StateDbStats>, sync_status: Option<NodeSyncStatus>, threshold: u32, now: u64)
        requires
            begins_with(q, p),
        ensures
            begins_with(endpoint_lines(q, sorted_endpoints(self.endpoints@)) + "# EOF\n"@, p),
    {
        lemma_endpoint_lines_begin(q, sorted_endpoints(self.endpoints@), p);
        lemma_begins_with_add();
    }

    proof fn lemma_sections_after_21_keep_prefix(&self, q: Seq<char>, p: Seq<char>, maintenance: NodeMaintenanceStats, state_db: Option<StateDbStats>, sync_status: Option<NodeSyncStatus>, threshold: u32, now: u64)
        requires
            begins_with(q, p),
        ensures
            begins_with(endpoint_lines(self.exposition_part_22(q, maintenance, state_db, sync_status, threshold, now), sorted_endpoints(self.endpoints@)) + "# EOF\n"@, p),
    {
        self.lemma_part_22_keeps_prefix(q, p, maintenance, state_db, sync_status, threshold, now);
        self.lemma_sections_after_22_keep_prefix(self.exposition_part_22(q, maintenance, state_db, sync_status, threshold, now), p, maintenance, state_db, sync_status, threshold, now);
    }

    proof fn lemma_sections_after_20_keep_prefix(&self, q: Seq<char>, p: Seq<char>, maintenance: NodeMaintenanceStats, state_db: Option<StateDbStats>, sync_status: Option<NodeSyncStatus>, threshold: u32, now: u64)
        requires
            begins_with(q, p),
        ensures
            begins_with(endpoint_lines(self.exposition_part_22(self.exposition_part_21(q, maintenance, state_db, sync_status, threshold, now), maintenance, state_db, sync_status, threshold, now), sorted_endpoints(self.endpoints@)) + "# EOF\n"@, p),
    {
        self.lemma_part_21_keeps_prefix(q, p, maintenance, state_db, sync_status, threshold, now);
        self.lemma_sections_after_21_keep_prefix(self.exposition_part_21(q, maintenance, state_db, sync_status, threshold, now), p, maintenance, state_db, sync_status, threshold, now);
    }

    proof fn lemma_sections_after_19_keep_prefix(&self, q: Seq<char>, p: Seq<char>, maintenance: NodeMaintenanceStats, state_db: Option<StateDbStats>, sync_status: Option<NodeSyncStatus>, threshold: u32, now: u64)
        requires
            begins_with(q, p),
        ensures
            begins_with(endpoint_lines(self.exposition_part_22(self.exposition_part_21(self.exposition_part_20(q, maintenance, state_db, sync_status, threshold, now), maintenance, state_db, sync_status, threshold, now), maintenance, state_db, sync_status, threshold, now), sorted_endpoints(self.endpoints@)) + "# EOF\n"@, p),
    {
        self.lemma_part_20_keeps_prefix(q, p, maintenance, state_db, sync_status, threshold, now);
        self.lemma_sections_after_20_keep_prefix(self.exposition_part_20(q, maintenance, state_db, sync_status, threshold, now), p, maintenance, state_db, sync_status, threshold, now);
    }

    proof fn lemma_sections_after_18_keep_prefix(&self, q: Seq<char>, p: Seq<char>, maintenance: NodeMaintenanceStats, state_db: Option<StateDbStats>, sync_status: Option<NodeSyncStatus>, threshold: u32, now: u64)
        requires
            begins_with(q, p),
        ensures
            begins_with(endpoint_lines(self.exposition_part_22(self.exposition_part_21(self.exposition_part_20(self.exposition_part_19(q, maintenance, state_db, sync_status, threshold, now), maintenance, state_db, sync_status, threshold, now), maintenance, state_db, sync_status, threshold, now), maintenance, state_db, sync_status, threshold, now), sorted_endpoints(self.endpoints@)) + "# EOF\n"@, p),
    {
        self.lemma_part_19_keeps_prefix(q, p, maintenance, state_db, sync_status, threshold, now);
        self.lemma_sections_after_19_keep_prefix(self.exposition_part_19(q, maintenance, state_db, sync_status, threshold, now), p, maintenance, state_db, sync_status, threshold, now);
    }

    proof fn lemma_sections_after_17_keep_prefix(&self, q: Seq<char>, p: Seq<char>, maintenance: NodeMaintenanceStats, state_db: Option<StateDbStats>, sync_status: Option<NodeSyncStatus>, threshold: u32, now: u64)
        requires
            begins_with(q, p),
        ensures
            begins_with(endpoint_lines(self.exposition_part_22(self.exposition_part_21(self.exposition_part_20(self.exposition_part_19(self.exposition_part_18(q, maintenance, state_db, sync_status, threshold, now), maintenance, state_db, sync_status, threshold, now), maintenance, state_db, sync_status, threshold, now), maintenance, state_db, sync_status, threshold, now), maintenance, state_db, sync_status, threshold, now), sorted_endpoints(self.endpoints@)) + "# EOF\n"@, p),
    {
        self.lemma_part_18_keeps_prefix(q, p, maintenance, state_db, sync_status, threshold, now);
        self.lemma_sections_after_18_keep_prefix(self.exposition_part_18(q, maintenance, state_db, sync_status, threshold, now), p, maintenance, state_db, sync_status, threshold, now);
    }

    proof fn lemma_sections_after_16_keep_prefix(&self, q: Seq<char>, p: Seq<char>, maintenance: NodeMaintenanceStats, state_db: Option<StateDbStats>, sync_status: Option<NodeSyncStatus>, threshold: u32, now: u64)
        requires
            begins_with(q, p),
        ensures
            begins_with(endpoint_lines(self.exposition_part_22(self.exposition_part_21(self.exposition_part_20(self.exposition_part_19(self.exposition_part_18(self.exposition_part_17(q, maintenance, state_db, sync_status, threshold, now), maintenance, state_db, sync_status, threshold, now), maintenance, state_db, sync_status, threshold, now), maintenance, state_db, sync_status, threshold, now), maintenance, state_db, sync_status, threshold, now), maintenance, state_db, sync_status, threshold, now), sorted_endpoints(self.endpoints@)) + "# EOF\n"@, p),
    {
        self.lemma_part_17_keeps_prefix(q, p, maintenance, state_db, sync_status, threshold, now);
        self.lemma_sections_after_17_keep_prefix(self.exposition_part_17(q, maintenance, state_db, sync_status, threshold, now), p, maintenance, state_db, sync_status, threshold, now);
    }

    proof fn lemma_sections_after_15_keep_prefix(&self, q: Seq<char>, p: Seq<char>, maintenance: NodeMaintenanceStats, state_db: Option<StateDbStats>, sync_status: Option<NodeSyncStatus>, threshold: u32, now: u64)
        requires
            begins_with(q, p),
        ensures
            begins_with(endpoint_lines(self.exposition_part_22(self.exposition_part_21(self.exposition_part_20(self.exposition_part_19(self.exposition_part_18(self.exposition_part_17(self.exposition_part_16(q, maintenance, state_db, sync_status, threshold, now), maintenance, state_db, sync_status, threshold, now), maintenance, state_db, sync_status, threshold, now), maintenance, state_db, sync_status, threshold, now), maintenance, state_db, sync_status, threshold, now), maintenance, state_db, sync_status, threshold, now), maintenance, state_db, sync_status, threshold, now), sorted_endpoints(self.endpoints@)) + "# EOF\n"@, p),
    {
        self.lemma_part_16_keeps_prefix(q, p, maintenance, state_db, sync_status, threshold, now);
        self.lemma_sections_after_16_keep_prefix(self.exposition_part_16(q, maintenance, state_db, sync_status, threshold, now), p, maintenance, state_db, sync_status, threshold, now);
    }

    proof fn lemma_sections_after_14_keep_prefix(&self, q: Seq<char>, p: Seq<char>, maintenance: NodeMaintenanceStats, state_db: Option<StateDbStats>, sync_status: Option<NodeSyncStatus>, threshold: u32, now: u64)
        requires
            begins_with(q, p),
        ensures
            begins_with(endpoint_lines(self.exposition_part_22(self.exposition_part_21(self.exposition_part_20(self.exposition_part_19(self.exposition_part_18(self.exposition_part_17(self.exposition_part_16(self.exposition_part_15(q, maintenance, state_db, sync_status, threshold, now), maintenance, state_db, sync_status, threshold, now), maintenance, state_db, sync_status, threshold, now), maintenance, state_db, sync_status, threshold, now), maintenance, state_db, sync_status, threshold, now), maintenance, state_db, sync_status, threshold, now), maintenance, state_db, sync_status, threshold, now), maintenance, state_db, sync_status, threshold, now), sorted_endpoints(self.endpoints@)) + "# EOF\n"@, p),
    {
        self.lemma_part_15_keeps_prefix(q, p, maintenance, state_db, sync_status, threshold, now);
        self.lemma_sections_after_15_keep_prefix(self.exposition_part_15(q, maintenance, state_db, sync_status, threshold, now), p, maintenance, state_db, sync_status, threshold, now);
    }

    proof fn lemma_sections_after_13_keep_prefix(&self, q: Seq<char>, p: Seq<char>, maintenance: NodeMaintenanceStats, state_db: Option<StateDbStats>, sync_status: Option<NodeSyncStatus>, threshold: u32, now: u64)
        requires
            begins_with(q, p),
        ensures
            begins_with(endpoint_lines(self.exposition_part_22(self.exposition_part_21(self.exposition_part_20(self.exposition_part_19(self.exposition_part_18(self.exposition_part_17(self.exposition_part_16(self.exposition_part_15(self.exposition_part_14(q, maintenance, state_db, sync_status, threshold, now), maintenance, state_db, sync_status, threshold, now), maintenance, state_db, sync_status, threshold, now), maintenance, state_db, sync_status, threshold, now), maintenance, state_db, sync_status, threshold, now), maintenance, state_db, sync_status, threshold, now), maintenance, state_db, sync_status, threshold, now), maintenance, state_db, sync_status, threshold, now), maintenance, state_db, sync_status, threshold, now), sorted_endpoints(self.endpoints@)) + "# EOF\n"@, p),
    {
        self.lemma_part_14_keeps_prefix(q, p, maintenance, state_db, sync_status, threshold, now);
        self.lemma_sections_after_14_keep_prefix(self.exposition_part_14(q, maintenance, state_db, sync_status, threshold, now), p, maintenance, state_db, sync_status, threshold, now);
    }

    proof fn lemma_sections_after_12_keep_prefix(&self, q: Seq<char>, p: Seq<char>, maintenance: NodeMaintenanceStats, state_db: Option<StateDbStats>, sync_status: Option<NodeSyncStatus>, threshold: u32, now: u64)
        requires
            begins_with(q, p),
        ensures
            begins_with(endpoint_lines(self.exposition_part_22(self.exposition_part_21(self.exposition_part_20(self.exposition_part_19(self.exposition_part_18(self.exposition_part_17(self.exposition_part_16(self.exposition_part_15(self.exposition_part_14(self.exposition_part_13(q, maintenance, state_db, sync_status, threshold, now), maintenance, state_db, sync_status, threshold, now), maintenance, state_db, sync_status, threshold, now), maintenance, state_db, sync_status, threshold, now), maintenance, state_db, sync_status, threshold, now), maintenance, state_db, sync_status, threshold, now), maintenance, state_db, sync_status, threshold, now), maintenance, state_db, sync_status, threshold, now), maintenance, state_db, sync_status, threshold, now), maintenance, state_db, sync_status, threshold, now), sorted_endpoints(self.endpoints@)) + "# EOF\n"@, p),
    {
        self.lemma_part_13_keeps_prefix(q, p, maintenance, state_db, sync_status, threshold, now);
        self.lemma_sections_after_13_keep_prefix(self.exposition_part_13(q, maintenance, state_db, sync_status, threshold, now), p, maintenance, state_db, sync_status, threshold, now);
    }

    proof fn lemma_sections_after_11_keep_prefix(&self, q: Seq<char>, p: Seq<char>, maintenance: NodeMaintenanceStats, state_db: Option<StateDbStats>, sync_status: Option<NodeSyncStatus>, threshold: u32, now: u64)
        requires
            begins_with(q, p),
        ensures
            begins_with(endpoint_lines(self.exposition_part_22(self.exposition_part_21(self.exposition_part_20(self.exposition_part_19(self.exposition_part_18(self.exposition_part_17(self.exposition_part_16(self.exposition_part_15(self.exposition_part_14(self.exposition_part_13(self.exposition_part_12(q, maintenance, state_db, sync_status, threshold, now), maintenance, state_db, sync_status, threshold, now), maintenance, state_db, sync_status, threshold, now), maintenance, state_db, sync_status, threshold, now), maintenance, state_db, sync_status, threshold, now), maintenance, state_db, sync_status, threshold, now), maintenance, state_db, sync_status, threshold, now), maintenance, state_db, sync_status, threshold, now), maintenance, state_db, sync_status, threshold, now), maintenance, state_db, sync_status, threshold, now), maintenance, state_db, sync_status, threshold, now), sorted_endpoints(self.endpoints@)) + "# EOF\n"@, p),
    {
        self.lemma_part_12_keeps_prefix(q, p, maintenance, state_db, sync_status, threshold, now);
        self.lemma_sections_after_12_keep_prefix(self.exposition_part_12(q, maintenance, state_db, sync_status, threshold, now), p, maintenance, state_db, sync_status, threshold, now);
    }

    proof fn lemma_sections_after_10_keep_prefix(&self, q: Seq<char>, p: Seq<char>, maintenance: NodeMaintenanceStats, state_db: Option<StateDbStats>, sync_status: Option<NodeSyncStatus>, threshold: u32, now: u64)
        requires
            begins_with(q, p),
        ensures
            begins_with(endpoint_lines(self.exposition_part_22(self.exposition_part_21(self.exposition_part_20(self.exposition_part_19(self.exposition_part_18(self.exposition_part_17(self.exposition_part_16(self.exposition_part_15(self.exposition_part_14(self.exposition_part_13(self.exposition_part_12(self.exposition_part_11(q, maintenance, state_db, sync_status, threshold, now), maintenance, state_db, sync_status, threshold, now), maintenance, state_db, sync_status, threshold, now), maintenance, state_db, sync_status, threshold, now), maintenance, state_db, sync_status, threshold, now), maintenance, state_db, sync_status, threshold, now), maintenance, state_db, sync_status, threshold, now), maintenance, state_db, sync_status, threshold, now), maintenance, state_db, sync_status, threshold, now), maintenance, state_db, sync_status, threshold, now), maintenance, state_db, sync_status, threshold, now), maintenance, state_db, sync_status, threshold, now), sorted_endpoints(self.endpoints@)) + "# EOF\n"@, p),
    {
        self.lemma_part_11_keeps_prefix(q, p, maintenance, state_db, sync_status, threshold, now);
        self.lemma_sections_after_11_keep_prefix(self.exposition_part_11(q, maintenance, state_db, sync_status, threshold, now), p, maintenance, state_db, sync_status, threshold, now);
    }

    proof fn lemma_sections_after_9_keep_prefix(&self, q: Seq<char>, p: Seq<char>, maintenance: NodeMaintenanceStats, state_db: Option<StateDbStats>, sync_status: Option<NodeSyncStatus>, threshold: u32, now: u64)
        requires
            begins_with(q, p),
        ensures
            begins_with(endpoint_lines(self.exposition_part_22(self.exposition_part_21(self.exposition_part_20(self.exposition_part_19(self.exposition_part_18(self.exposition_part_17(self.exposition_part_16(self.exposition_part_15(self.exposition_part_14(self.exposition_part_13(self.exposition_part_12(self.exposition_part_11(self.exposition_part_10(q, maintenance, state_db, sync_status, threshold, now), maintenance, state_db, sync_status, threshold, now), maintenance, state_db, sync_status, threshold, now), maintenance, state_db, sync_status, threshold, now), maintenance, state_db, sync_status, threshold, now), maintenance, state_db, sync_status, threshold, now), maintenance, state_db, sync_status, threshold, now), maintenance, state_db, sync_status, threshold, now), maintenance, state_db, sync_status, threshold, now), maintenance, state_db, sync_status, threshold, now), maintenance, state_db, sync_status, threshold, now), maintenance, state_db, sync_status, threshold, now), maintenance, state_db, sync_status, threshold, now), sorted_endpoints(self.endpoints@)) + "# EOF\n"@, p),
    {
        self.lemma_part_10_keeps_prefix(q, p, maintenance, state_db, sync_status, threshold, now);
        self.lemma_sections_after_10_keep_prefix(self.exposition_part_10(q, maintenance, state_db, sync_status, threshold, now), p, maintenance, state_db, sync_status, threshold, now);
    }

    proof fn lemma_sections_after_8_keep_prefix(&self, q: Seq<char>, p: Seq<char>, maintenance: NodeMaintenanceStats, state_db: Option<StateDbStats>, sync_status: Option<NodeSyncStatus>, threshold: u32, now: u64)
        requires
            begins_with(q, p),
        ensures
            begins_with(endpoint_lines(self.exposition_part_22(self.exposition_part_21(self.exposition_part_20(self.exposition_part_19(self.exposition_part_18(self.exposition_part_17(self.exposition_part_16(self.exposition_part_15(self.exposition_part_14(self.exposition_part_13(self.exposition_part_12(self.exposition_part_11(self.exposition_part_10(self.exposition_part_9(q, maintenance, state_db, sync_status, threshold, now), maintenance, state_db, sync_status, threshold, now), maintenance, state_db, sync_status, threshold, now), maintenance, state_db, sync_status, threshold, now), maintenance, state_db, sync_status, threshold, now), maintenance, state_db, sync_status, threshold, now), maintenance, state_db, sync_status, threshold, now), maintenance, state_db, sync_status, threshold, now), maintenance, state_db, sync_status, threshold, now), maintenance, state_db, sync_status, threshold, now), maintenance, state_db, sync_status, threshold, now), maintenance, state_db, sync_status, threshold, now), maintenance, state_db, sync_status, threshold, now), maintenance, state_db, sync_status, threshold, now), sorted_endpoints(self.endpoints@)) + "# EOF\n"@, p),
    {
        self.lemma_part_9_keeps_prefix(q, p, maintenance, state_db, sync_status, threshold, now);
        self.lemma_sections_after_9_keep_prefix(self.exposition_part_9(q, maintenance, state_db, sync_status, threshold, now), p, maintenance, state_db, sync_status, threshold, now);
    }

    proof fn lemma_sections_after_7_keep_prefix(&self, q: Seq<char>, p: Seq<char>, maintenance: NodeMaintenanceStats, state_db: Option<StateDbStats>, sync_status: Option<NodeSyncStatus>, threshold: u32, now: u64)
        requires
            begins_with(q, p),
        ensures
            begins_with(endpoint_lines(self.exposition_part_22(self.exposition_part_21(self.exposition_part_20(self.exposition_part_19(self.exposition_part_18(self.exposition_part_17(self.exposition_part_16(self.exposition_part_15(self.exposition_part_14(self.exposition_part_13(self.exposition_part_12(self.exposition_part_11(self.exposition_part_10(self.exposition_part_9(self.exposition_part_8(q, maintenance, state_db, sync_status, threshold, now), maintenance, state_db, sync_status, threshold, now), maintenance, state_db, sync_status, threshold, now), maintenance, state_db, sync_status, threshold, now), maintenance, state_db, sync_status, threshold, now), maintenance, state_db, sync_status, threshold, now), maintenance, state_db, sync_status, threshold, now), maintenance, state_db, sync_status, threshold, now), maintenance, state_db, sync_status, threshold, now), maintenance, state_db, sync_status, threshold, now), maintenance, state_db, sync_status, threshold, now), maintenance, state_db, sync_status, threshold, now), maintenance, state_db, sync_status, threshold, now), maintenance, state_db, sync_status, threshold, now), maintenance, state_db, sync_status, threshold, now), sorted_endpoints(self.endpoints@)) + "# EOF\n"@, p),
    {
        self.lemma_part_8_keeps_prefix(q, p, maintenance, state_db, sync_status, threshold, now);
        self.lemma_sections_after_8_keep_prefix(self.exposition_part_8(q, maintenance, state_db, sync_status, threshold, now), p, maintenance, state_db, sync_status, threshold, now);
    }

    proof fn lemma_sections_after_6_keep_prefix(&self, q: Seq<char>, p: Seq<char>, maintenance: NodeMaintenanceStats, state_db: Option<StateDbStats>, sync_status: Option<NodeSyncStatus>, threshold: u32, now: u64)
        requires
            begins_with(q, p),
        ensures
            begins_with(endpoint_lines(self.exposition_part_22(self.exposition_part_21(self.exposition_part_20(self.exposition_part_19(self.exposition_part_18(self.exposition_part_17(self.exposition_part_16(self.exposition_part_15(self.exposition_part_14(self.exposition_part_13(self.exposition_part_12(self.exposition_part_11(self.exposition_part_10(self.exposition_part_9(self.exposition_part_8(self.exposition_part_7(q, maintenance, state_db, sync_status, threshold, now), maintenance, state_db, sync_status, threshold, now), maintenance, state_db, sync_status, threshold, now), maintenance, state_db, sync_status, threshold, now), maintenance, state_db, sync_status, threshold, now), maintenance, state_db, sync_status, threshold, now), maintenance, state_db, sync_status, threshold, now), maintenance, state_db, sync_status, threshold, now), maintenance, state_db, sync_status, threshold, now), maintenance, state_db, sync_status, threshold, now), maintenance, state_db, sync_status, threshold, now), maintenance, state_db, sync_status, threshold, now), maintenance, state_db, sync_status, threshold, now), maintenance, state_db, sync_status, threshold, now), maintenance, state_db, sync_status, threshold, now), maintenance, state_db, sync_status, threshold, now), sorted_endpoints(self.endpoints@)) + "# EOF\n"@, p),
    {
        self.lemma_part_7_keeps_prefix(q, p, maintenance, state_db, sync_status, threshold, now);
        self.lemma_sections_after_7_keep_prefix(self.exposition_part_7(q, maintenance, state_db, sync_status, threshold, now), p, maintenance, state_db, sync_status, threshold, now);
    }

    proof fn lemma_sections_after_5_keep_prefix(&self, q: Seq<char>, p: Seq<char>, maintenance: NodeMaintenanceStats, state_db: Option<StateDbStats>, sync_status: Option<NodeSyncStatus>, threshold: u32, now: u64)
        requires
            begins_with(q, p),
        ensures
            begins_with(endpoint_lines(self.exposition_part_22(self.exposition_part_21(self.exposition_part_20(self.exposition_part_19(self.exposition_part_18(self.exposition_part_17(self.exposition_part_16(self.exposition_part_15(self.exposition_part_14(self.exposition_part_13(self.exposition_part_12(self.exposition_part_11(self.exposition_part_10(self.exposition_part_9(self.exposition_part_8(self.exposition_part_7(self.exposition_part_6(q, maintenance, state_db, sync_status, threshold, now), maintenance, state_db, sync_status, threshold, now), maintenance, state_db, sync_status, threshold, now), maintenance, state_db, sync_status, threshold, now), maintenance, state_db, sync_status, threshold, now), maintenance, state_db, sync_status, threshold, now), maintenance, state_db, sync_status, threshold, now), maintenance, state_db, sync_status, threshold, now), maintenance, state_db, sync_status, threshold, now), maintenance, state_db, sync_status, threshold, now), maintenance, state_db, sync_status, threshold, now), maintenance, state_db, sync_status, threshold, now), maintenance, state_db, sync_status, threshold, now), maintenance, state_db, sync_status, threshold, now), maintenance, state_db, sync_status, threshold, now), maintenance, state_db, sync_status, threshold, now), maintenance, state_db, sync_status, threshold, now), sorted_endpoints(self.endpoints@)) + "# EOF\n"@, p),
    {
        self.lemma_part_6_keeps_prefix(q, p, maintenance, state_db, sync_status, threshold, now);
        self.lemma_sections_after_6_keep_prefix(self.exposition_part_6(q, maintenance, state_db, sync_status, threshold, now), p, maintenance, state_db, sync_status, threshold, now);
    }

    proof fn lemma_sections_after_4_keep_prefix(&self, q: Seq<char>, p: Seq<char>, maintenance: NodeMaintenanceStats, state_db: Option<StateDbStats>, sync_status: Option<NodeSyncStatus>, threshold: u32, now: u64)
        requires
            begins_with(q, p),
        ensures
            begins_with(endpoint_lines(self.exposition_part_22(self.exposition_part_21(self.exposition_part_20(self.exposition_part_19(self.exposition_part_18(self.exposition_part_17(self.exposition_part_16(self.exposition_part_15(self.exposition_part_14(self.exposition_part_13(self.exposition_part_12(self.exposition_part_11(self.exposition_part_10(self.exposition_part_9(self.exposition_part_8(self.exposition_part_7(self.exposition_part_6(self.exposition_part_5(q, maintenance, state_db, sync_status, threshold, now), maintenance, state_db, sync_status, threshold, now), maintenance, state_db, sync_status, threshold, now), maintenance, state_db, sync_status, threshold, now), maintenance, state_db, sync_status, threshold, now), maintenance, state_db, sync_status, threshold, now), maintenance, state_db, sync_status, threshold, now), maintenance, state_db, sync_status, threshold, now), maintenance, state_db, sync_status, threshold, now), maintenance, state_db, sync_status, threshold, now), maintenance, state_db, sync_status, threshold, now), maintenance, state_db, sync_status, threshold, now), maintenance, state_db, sync_status, threshold, now), maintenance, state_db, sync_status, threshold, now), maintenance, state_db, sync_status, threshold, now), maintenance, state_db, sync_status, threshold, now), maintenance, state_db, sync_status, threshold, now), maintenance, state_db, sync_status, threshold, now), sorted_endpoints(self.endpoints@)) + "# EOF\n"@, p),
    {
        self.lemma_part_5_keeps_prefix(q, p, maintenance, state_db, sync_status, threshold, now);
        self.lemma_sections_after_5_keep_prefix(self.exposition_part_5(q, maintenance, state_db, sync_status, threshold, now), p, maintenance, state_db, sync_status, threshold, now);
    }

    proof fn lemma_sections_after_3_keep_prefix(&self, q: Seq<char>, p: Seq<char>, maintenance: NodeMaintenanceStats, state_db: Option<StateDbStats>, sync_status: Option<NodeSyncStatus>, threshold: u32, now: u64)
        requires
            begins_with(q, p),
        ensures
            begins_with(endpoint_lines(self.exposition_part_22(self.exposition_part_21(self.exposition_part_20(self.exposition_part_19(self.exposition_part_18(self.exposition_part_17(self.exposition_part_16(self.exposition_part_15(self.exposition_part_14(self.exposition_part_13(self.exposition_part_12(self.exposition_part_11(self.exposition_part_10(self.exposition_part_9(self.exposition_part_8(self.exposition_part_7(self.exposition_part_6(self.exposition_part_5(self.exposition_part_4(q, maintenance, state_db, sync_status, threshold, now), maintenance, state_db, sync_status, threshold, now), maintenance, state_db, sync_status, threshold, now), maintenance, state_db, sync_status, threshold, now), maintenance, state_db, sync_status, threshold, now), maintenance, state_db, sync_status, threshold, now), maintenance, state_db, sync_status, threshold, now), maintenance, state_db, sync_status, threshold, now), maintenance, state_db, sync_status, threshold, now), maintenance, state_db, sync_status, threshold, now), maintenance, state_db, sync_status, threshold, now), maintenance, state_db, sync_status, threshold, now), maintenance, state_db, sync_status, threshold, now), maintenance, state_db, sync_status, threshold, now), maintenance, state_db, sync_status, threshold, now), maintenance, state_db, sync_status, threshold, now), maintenance, state_db, sync_status, threshold, now), maintenance, state_db, sync_status, threshold, now), maintenance, state_db, sync_status, threshold, now), sorted_endpoints(self.endpoints@)) + "# EOF\n"@, p),
    {
        self.lemma_part_4_keeps_prefix(q, p, maintenance, state_db, sync_status, threshold, now);
        self.lemma_sections_after_4_keep_prefix(self.exposition_part_4(q, maintenance, state_db, sync_status, threshold, now), p, maintenance, state_db, sync_status, threshold, now);
    }

    proof fn lemma_sections_after_2_keep_prefix(&self, q: Seq<char>, p: Seq<char>, maintenance: NodeMaintenanceStats, state_db: Option<StateDbStats>, sync_status: Option<NodeSyncStatus>, threshold: u32, now: u64)
        requires
            begins_with(q, p),
        ensures
            begins_with(endpoint_lines(self.exposition_part_22(self.exposition_part_21(self.exposition_part_20(self.exposition_part_19(self.exposition_part_18(self.exposition_part_17(self.exposition_part_16(self.exposition_part_15(self.exposition_part_14(self.exposition_part_13(self.exposition_part_12(self.exposition_part_11(self.exposition_part_10(self.exposition_part_9(self.exposition_part_8(self.exposition_part_7(self.exposition_part_6(self.exposition_part_5(self.exposition_part_4(self.exposition_part_3(q, maintenance, state_db, sync_status, threshold, now), maintenance, state_db, sync_status, threshold, now), maintenance, state_db, sync_status, threshold, now), maintenance, state_db, sync_status, threshold, now), maintenance, state_db, sync_status, threshold, now), maintenance, state_db, sync_status, threshold, now), maintenance, state_db, sync_status, threshold, now), maintenance, state_db, sync_status, threshold, now), maintenance, state_db, sync_status, threshold, now), maintenance, state_db, sync_status, threshold, now), maintenance, state_db, sync_status, threshold, now), maintenance, state_db, sync_status, threshold, now), maintenance, state_db, sync_status, threshold, now), maintenance, state_db, sync_status, threshold, now), maintenance, state_db, sync_status, threshold, now), maintenance, state_db, sync_status, threshold, now), maintenance, state_db, sync_status, threshold, now), maintenance, state_db, sync_status, threshold, now), maintenance, state_db, sync_status, threshold, now), maintenance, state_db, sync_status, threshold, now), sorted_endpoints(self.endpoints@)) + "# EOF\n"@, p),
    {
        self.lemma_part_3_keeps_prefix(q, p, maintenance, state_db, sync_status, threshold, now);
        self.lemma_sections_after_3_keep_prefix(self.exposition_part_3(q, maintenance, state_db, sync_status, threshold, now), p, maintenance, state_db, sync_status, threshold, now);
    }

    proof fn lemma_sections_after_1_keep_prefix(&self, q: Seq<char>, p: Seq<char>, maintenance: NodeMaintenanceStats, state_db: Option<StateDbStats>, sync_status: Option<NodeSyncStatus>, threshold: u32, now: u64)
        requires
            begins_with(q, p),
        ensures
            begins_with(endpoint_lines(self.exposition_part_22(self.exposition_part_21(self.exposition_part_20(self.exposition_part_19(self.exposition_part_18(self.exposition_part_17(self.exposition_part_16(self.exposition_part_15(self.exposition_part_14(self.exposition_part_13(self.exposition_part_12(self.exposition_part_11(self.exposition_part_10(self.exposition_part_9(self.exposition_part_8(self.exposition_part_7(self.exposition_part_6(self.exposition_part_5(self.exposition_part_4(self.exposition_part_3(self.exposition_part_2(q, maintenance, state_db, sync_status, threshold, now), maintenance, state_db, sync_status, threshold, now), maintenance, state_db, sync_status, threshold, now), maintenance, state_db, sync_status, threshold, now), maintenance, state_db, sync_status, threshold, now), maintenance, state_db, sync_status, threshold, now), maintenance, state_db, sync_status, threshold, now), maintenance, state_db, sync_status, threshold, now), maintenance, state_db, sync_status, threshold, now), maintenance, state_db, sync_status, threshold, now), maintenance, state_db, sync_status, threshold, now), maintenance, state_db, sync_status, threshold, now), maintenance, state_db, sync_status, threshold, now), maintenance, state_db, sync_status, threshold, now), maintenance, state_db, sync_status, threshold, now), maintenance, state_db, sync_status, threshold, now), maintenance, state_db, sync_status, threshold, now), maintenance, state_db, sync_status, threshold, now), maintenance, state_db, sync_status, threshold, now), maintenance, state_db, sync_status, threshold, now), maintenance, state_db, sync_status, threshold, now), sorted_endpoints(self.endpoints@)) + "# EOF\n"@, p),
    {
        self.lemma_part_2_keeps_prefix(q, p, maintenance, state_db, sync_status, threshold, now);
        self.lemma_sections_after_2_keep_prefix(self.exposition_part_2(q, maintenance, state_db, sync_status, threshold, now), p, maintenance, state_db, sync_status, threshold, now);
    }

}

impl ControlRuntimeStats {
    /// The exposition shows each counter of the DHT replication runner (records, attempts by result, quarantined peers, last run) and the routing refresh runner on its own line, under its own name
    /// and label; a timestamp or last delay is shown where one was recorded.
    #[verifier::spinoff_prover]
    #[verifier::rlimit(100)]
    pub proof fn lemma_exposition_shows_dht_replication_and_refresh_counters(&self, maintenance: NodeMaintenanceStats, state_db: Option<StateDbStats>, sync_status: Option<NodeSyncStatus>, threshold: u32, now: u64)
        ensures
            ({
                let text = self.openmetrics_text(maintenance, state_db, sync_status, threshold, now);
                &&& has_line(text, value_line("lm_node_dht_replication_records_total"@, (self.dht_replication_records as nat)))
                &&& has_line(text, labeled_line("lm_node_dht_replication_attempts_total"@, "result"@, "success"@, (self.dht_replication_successes as nat)))
                &&& has_line(text, labeled_line("lm_node_dht_replication_attempts_total"@, "result"@, "failure"@, (self.dht_replication_failures as nat)))
                &&& has_line(text, labeled_line("lm_node_dht_replication_attempts_total"@, "result"@, "all"@, (self.dht_replication_attempts as nat)))
                &&& has_line(text, value_line("lm_node_dht_replication_peers_quarantined_total"@, (self.dht_replication_peers_quarantined as nat)))
                &&& self.last_dht_replication_at matches Some(last_dht_replication_at) ==> has_line(text, value_line("lm_node_dht_replication_last_run_at"@, (last_dht_replication_at as nat)))
                &&& has_line(text, value_line("lm_node_dht_routing_refresh_runs_total"@, (self.dht_routing_refresh_runs as nat)))
                &&& has_line(text, value_line("lm_node_dht_routing_refresh_targets_total"@, (self.dht_routing_refresh_targets as nat)))
                &&& has_line(text, labeled_line("lm_node_dht_routing_refresh_attempts_total"@, "result"@, "success"@, (self.dht_routing_refresh_successes as nat)))
                &&& has_line(text, labeled_line("lm_node_dht_routing_refresh_attempts_total"@, "result"@, "failure"@, (self.dht_routing_refresh_failures as nat)))
                &&& has_line(text, labeled_line("lm_node_dht_routing_refresh_attempts_total"@, "result"@, "all"@, (self.dht_routing_refresh_attempts as nat)))
                &&& has_line(text, value_line("lm_node_dht_routing_refresh_nodes_returned_total"@, (self.dht_routing_refresh_nodes_returned as nat)))
                &&& has_line(text, value_line("lm_node_dht_routing_refresh_nodes_merged_total"@, (self.dht_routing_refresh_nodes_merged as nat)))
                &&& has_line(text, labeled_line("lm_node_dht_routing_refresh_nodes_rejected_total"@, "reason"@, "non_closer"@, (self.dht_routing_refresh_nodes_rejected_non_closer as nat)))
                &&& has_line(text, labeled_line("lm_node_dht_routing_refresh_nodes_rejected_total"@, "reason"@, "duplicate"@, (self.dht_routing_refresh_nodes_rejected_duplicate as nat)))
                &&& has_line(text, value_line("lm_node_dht_routing_refresh_peers_quarantined_total"@, (self.dht_routing_refresh_peers_quarantined as nat)))
                &&& self.last_dht_routing_refresh_at matches Some(last_dht_routing_refresh_at) ==> has_line(text, value_line("lm_node_dht_routing_refresh_last_run_at"@, (last_dht_routing_refresh_at as nat)))
            }),
    {
        let t0 = self.exposition_part_0(Seq::empty(), maintenance, state_db, sync_status, threshold, now);
        let t1 = self.exposition_part_1(t0, maintenance, state_db, sync_status, threshold, now);
        let t2 = self.exposition_part_2(t1, maintenance, state_db, sync_status, threshold, now);
        let t3 = self.exposition_part_3(t2, maintenance, state_db, sync_status, threshold, now);
        let t4 = self.exposition_part_4(t3, maintenance, state_db, sync_status, threshold, now);
        let t5 = self.exposition_part_5(t4, maintenance, state_db, sync_status, threshold, now);
        let t6 = self.exposition_part_6(t5, maintenance, state_db, sync_status, threshold, now);
        let t7 = self.exposition_part_7(t6, maintenance, state_db, sync_status, threshold, now);
        let t8 = self.exposition_part_8(t7, maintenance, state_db, sync_status, threshold, now);
        let t9 = self.exposition_part_9(t8, maintenance, state_db, sync_status, threshold, now);
        let t10 = self.exposition_part_10(t9, maintenance, state_db, sync_status, threshold, now);
        let t11 = self.exposition_part_11(t10, maintenance, state_db, sync_status, threshold, now);
        let t12 = self.exposition_part_12(t11, maintenance, state_db, sync_status, threshold, now);
        let t13 = self.exposition_part_13(t12, maintenance, state_db, sync_status, threshold, now);
        let t14 = self.exposition_part_14(t13, maintenance, state_db, sync_status, threshold, now);
        let t15 = self.exposition_part_15(t14, maintenance, state_db, sync_status, threshold, now);
        let t16 = self.exposition_part_16(t15, maintenance, state_db, sync_status, threshold, now);
        let t17 = self.exposition_part_17(t16, maintenance, state_db, sync_status, threshold, now);
        let t18 = self.exposition_part_18(t17, maintenance, state_db, sync_status, threshold, now);
        let t19 = self.exposition_part_19(t18, maintenance, state_db, sync_status, threshold, now);
        let t20 = self.exposition_part_20(t19, maintenance, state_db, sync_status, threshold, now);
        let t21 = self.exposition_part_21(t20, maintenance, state_db, sync_status, threshold, now);
        let t22 = self.exposition_part_22(t21, maintenance, state_db, sync_status, threshold, now);
        let text = self.openmetrics_text(maintenance, state_db, sync_status, threshold, now);
        self.lemma_part_2_shows(t1, maintenance, state_db, sync_status, threshold, now);
        lemma_begins_with_refl(t2);
        self.lemma_sections_after_2_keep_prefix(t2, t2, maintenance, state_db, sync_status, threshold, now);
        lemma_has_line_in_prefix(text, t2, value_line("lm_node_dht_replication_records_total"@, (self.dht_replication_records as nat)));
        lemma_has_line_in_prefix(text, t2, labeled_line("lm_node_dht_replication_attempts_total"@, "result"@, "success"@, (self.dht_replication_successes as nat)));
        lemma_has_line_in_prefix(text, t2, labeled_line("lm_node_dht_replication_attempts_total"@, "result"@, "failure"@, (self.dht_replication_failures as nat)));
        lemma_has_line_in_prefix(text, t2, labeled_line("lm_node_dht_replication_attempts_total"@, "result"@, "all"@, (self.dht_replication_attempts as nat)));
        lemma_has_line_in_prefix(text, t2, value_line("lm_node_dht_replication_peers_quarantined_total"@, (self.dht_replication_peers_quarantined as nat)));
        self.lemma_part_3_shows(t2, maintenance, state_db, sync_status, threshold, now);
        lemma_begins_with_refl(t3);
        self.lemma_sections_after_3_keep_prefix(t3, t3, maintenance, state_db, sync_status, threshold, now);
        match self.last_dht_replication_at {
            Some(last_dht_replication_at) => {
                lemma_has_line_in_prefix(text, t3, value_line("lm_node_dht_replication_last_run_at"@, (last_dht_replication_at as nat)));
            },
            None => {},
        }
        self.lemma_part_4_shows(t3, maintenance, state_db, sync_status, threshold, now);
        lemma_begins_with_refl(t4);
        self.lemma_sections_after_4_keep_prefix(t4, t4, maintenance, state_db, sync_status, threshold, now);
        lemma_has_line_in_prefix(text, t4, value_line("lm_node_dht_routing_refresh_runs_total"@, (self.dht_routing_refresh_runs as nat)));
        lemma_has_line_in_prefix(text, t4, value_line("lm_node_dht_routing_refresh_targets_total"@, (self.dht_routing_refresh_targets as nat)));
        lemma_has_line_in_prefix(text, t4, labeled_line("lm_node_dht_routing_refresh_attempts_total"@, "result"@, "success"@, (self.dht_routing_refresh_successes as nat)));
        lemma_has_line_in_prefix(text, t4, labeled_line("lm_node_dht_routing_refresh_attempts_total"@, "result"@, "failure"@, (self.dht_routing_refresh_failures as nat)));
        lemma_has_line_in_prefix(text, t4, labeled_line("lm_node_dht_routing_refresh_attempts_total"@, "result"@, "all"@, (self.dht_routing_refresh_attempts as nat)));
        self.lemma_part_5_shows(t4, maintenance, state_db, sync_status, threshold, now);
        lemma_begins_with_refl(t5);
        self.lemma_sections_after_5_keep_prefix(t5, t5, maintenance, state_db, sync_status, threshold, now);
        lemma_has_line_in_prefix(text, t5, value_line("lm_node_dht_routing_refresh_nodes_returned_total"@, (self.dht_routing_refresh_nodes_returned as nat)));
        lemma_has_line_in_prefix(text, t5, value_line("lm_node_dht_routing_refresh_nodes_merged_total"@, (self.dht_routing_refresh_nodes_merged as nat)));
        lemma_has_line_in_prefix(text, t5, labeled_line("lm_node_dht_routing_refresh_nodes_rejected_total"@, "reason"@, "non_closer"@, (self.dht_routing_refresh_nodes_rejected_non_closer as nat)));
        lemma_has_line_in_prefix(text, t5, labeled_line("lm_node_dht_routing_refresh_nodes_rejected_total"@, "reason"@, "duplicate"@, (self.dht_routing_refresh_nodes_rejected_duplicate as nat)));
        lemma_has_line_in_prefix(text, t5, value_line("lm_node_dht_routing_refresh_peers_quarantined_total"@, (self.dht_routing_refresh_peers_quarantined as nat)));
        self.lemma_part_6_shows(t5, maintenance, state_db, sync_status, threshold, now);
        lemma_begins_with_refl(t6);
        self.lemma_sections_after_6_keep_prefix(t6, t6, maintenance, state_db, sync_status, threshold, now);
        match self.last_dht_routing_refresh_at {
            Some(last_dht_routing_refresh_at) => {
                lemma_has_line_in_prefix(text, t6, value_line("lm_node_dht_routing_refresh_last_run_at"@, (last_dht_routing_refresh_at as nat)));
            },
            None => {},
        }
    }

    /// The exposition shows each counter of the manual DHT FindValue runs (runs, attempts by result, records, closer nodes, rounds, alpha, exhausted runs, last run) on its own line, under its own name
    /// and label; a timestamp or last delay is shown where one was recorded.
    #[verifier::spinoff_prover]
    #[verifier::rlimit(100)]
    pub proof fn lemma_exposition_shows_find_value_counters(&self, maintenance: NodeMaintenanceStats, state_db: Option<StateDbStats>, sync_status: Option<NodeSyncStatus>, threshold: u32, now: u64)
        ensures
            ({
                let text = self.openmetrics_text(maintenance, state_db, sync_status, threshold, now);
                &&& has_line(text, value_line("lm_node_dht_find_value_runs_total"@, (self.dht_find_value_runs as nat)))
                &&& has_line(text, labeled_line("lm_node_dht_find_value_attempts_total"@, "result"@, "success"@, (self.dht_find_value_successes as nat)))
                &&& has_line(text, labeled_line("lm_node_dht_find_value_attempts_total"@, "result"@, "failure"@, (self.dht_find_value_failures as nat)))
                &&& has_line(text, labeled_line("lm_node_dht_find_value_attempts_total"@, "result"@, "all"@, (self.dht_find_value_attempts as nat)))
                &&& has_line(text, labeled_line("lm_node_dht_find_value_records_total"@, "kind"@, "found"@, (self.dht_find_value_found_records as nat)))
                &&& has_line(text, labeled_line("lm_node_dht_find_value_records_total"@, "kind"@, "closer"@, (self.dht_find_value_closer_records as nat)))
                &&& has_line(text, labeled_line("lm_node_dht_find_value_closer_nodes_total"@, "kind"@, "returned"@, (self.dht_find_value_closer_nodes_returned as nat)))
                &&& has_line(text, labeled_line("lm_node_dht_find_value_closer_nodes_total"@, "kind"@, "merged"@, (self.dht_find_value_closer_nodes_merged as nat)))
                &&& has_line(text, labeled_line("lm_node_dht_find_value_closer_nodes_total"@, "kind"@, "rejected_non_closer"@, (self.dht_find_value_closer_nodes_rejected_non_closer as nat)))
                &&& has_line(text, labeled_line("lm_node_dht_find_value_closer_nodes_total"@, "kind"@, "rejected_duplicate"@, (self.dht_find_value_closer_nodes_rejected_duplicate as nat)))
                &&& has_line(text, value_line("lm_node_dht_find_value_peers_quarantined_total"@, (self.dht_find_value_peers_quarantined as nat)))
                &&& has_line(text, value_line("lm_node_dht_find_value_query_rounds_total"@, (self.dht_find_value_query_rounds as nat)))
                &&& has_line(text, value_line("lm_node_dht_find_value_alpha_max"@, (self.dht_find_value_alpha_max as nat)))
                &&& has_line(text, value_line("lm_node_dht_find_value_exhausted_total"@, (self.dht_find_value_exhausted as nat)))
                &&& self.last_dht_find_value_at matches Some(last_dht_find_value_at) ==> has_line(text, value_line("lm_node_dht_find_value_last_run_at"@, (last_dht_find_value_at as nat)))
            }),
    {
        let t0 = self.exposition_part_0(Seq::empty(), maintenance, state_db, sync_status, threshold, now);
        let t1 = self.exposition_part_1(t0, maintenance, state_db, sync_status, threshold, now);
        let t2 = self.exposition_part_2(t1, maintenance, state_db, sync_status, threshold, now);
        let t3 = self.exposition_part_3(t2, maintenance, state_db, sync_status, threshold, now);
        let t4 = self.exposition_part_4(t3, maintenance, state_db, sync_status, threshold, now);
        let t5 = self.exposition_part_5(t4, maintenance, state_db, sync_status, threshold, now);
        let t6 = self.exposition_part_6(t5, maintenance, state_db, sync_status, threshold, now);
        let t7 = self.exposition_part_7(t6, maintenance, state_db, sync_status, threshold, now);
        let t8 = self.exposition_part_8(t7, maintenance, state_db, sync_status, threshold, now);
        let t9 = self.exposition_part_9(t8, maintenance, state_db, sync_status, threshold, now);
        let t10 = self.exposition_part_10(t9, maintenance, state_db, sync_status, threshold, now);
        let t11 = self.exposition_part_11(t10, maintenance, state_db, sync_status, threshold, now);
        let t12 = self.exposition_part_12(t11, maintenance, state_db, sync_status, threshold, now);
        let t13 = self.exposition_part_13(t12, maintenance, state_db, sync_status, threshold, now);
        let t14 = self.exposition_part_14(t13, maintenance, state_db, sync_status, threshold, now);
        let t15 = self.exposition_part_15(t14, maintenance, state_db, sync_status, threshold, now);
        let t16 = self.exposition_part_16(t15, maintenance, state_db, sync_status, threshold, now);
        let t17 = self.exposition_part_17(t16, maintenance, state_db, sync_status, threshold, now);
        let t18 = self.exposition_part_18(t17, maintenance, state_db, sync_status, threshold, now);
        let t19 = self.exposition_part_19(t18, maintenance, state_db, sync_status, threshold, now);
        let t20 = self.exposition_part_20(t19, maintenance, state_db, sync_status, threshold, now);
        let t21 = self.exposition_part_21(t20, maintenance, state_db, sync_status, threshold, now);
        let t22 = self.exposition_part_22(t21, maintenance, state_db, sync_status, threshold, now);
        let text = self.openmetrics_text(maintenance, state_db, sync_status, threshold, now);
        self.lemma_part_7_shows(t6, maintenance, state_db, sync_status, threshold, now);
        lemma_begins_with_refl(t7);
        self.lemma_sections_after_7_keep_prefix(t7, t7, maintenance, state_db, sync_status, threshold, now);
        lemma_has_line_in_prefix(text, t7, value_line("lm_node_dht_find_value_runs_total"@, (self.dht_find_value_runs as nat)));
        lemma_has_line_in_prefix(text, t7, labeled_line("lm_node_dht_find_value_attempts_total"@, "result"@, "success"@, (self.dht_find_value_successes as nat)));
        lemma_has_line_in_prefix(text, t7, labeled_line("lm_node_dht_find_value_attempts_total"@, "result"@, "failure"@, (self.dht_find_value_failures as nat)));
        lemma_has_line_in_prefix(text, t7, labeled_line("lm_node_dht_find_value_attempts_total"@, "result"@, "all"@, (self.dht_find_value_attempts as nat)));
        lemma_has_line_in_prefix(text, t7, labeled_line("lm_node_dht_find_value_records_total"@, "kind"@, "found"@, (self.dht_find_value_found_records as nat)));
        lemma_has_line_in_prefix(text, t7, labeled_line("lm_node_dht_find_value_records_total"@, "kind"@, "closer"@, (self.dht_find_value_closer_records as nat)));
        self.lemma_part_8_shows(t7, maintenance, state_db, sync_status, threshold, now);
        lemma_begins_with_refl(t8);
        self.lemma_sections_after_8_keep_prefix(t8, t8, maintenance, state_db, sync_status, threshold, now);
        lemma_has_line_in_prefix(text, t8, labeled_line("lm_node_dht_find_value_closer_nodes_total"@, "kind"@, "returned"@, (self.dht_find_value_closer_nodes_returned as nat)));
        lemma_has_line_in_prefix(text, t8, labeled_line("lm_node_dht_find_value_closer_nodes_total"@, "kind"@, "merged"@, (self.dht_find_value_closer_nodes_merged as nat)));
        lemma_has_line_in_prefix(text, t8, labeled_line("lm_node_dht_find_value_closer_nodes_total"@, "kind"@, "rejected_non_closer"@, (self.dht_find_value_closer_nodes_rejected_non_closer as nat)));
        lemma_has_line_in_prefix(text, t8, labeled_line("lm_node_dht_find_value_closer_nodes_total"@, "kind"@, "rejected_duplicate"@, (self.dht_find_value_closer_nodes_rejected_duplicate as nat)));
        lemma_has_line_in_prefix(text, t8, value_line("lm_node_dht_find_value_peers_quarantined_total"@, (self.dht_find_value_peers_quarantined as nat)));
        lemma_has_line_in_prefix(text, t8, value_line("lm_node_dht_find_value_query_rounds_total"@, (self.dht_find_value_query_rounds as nat)));
        self.lemma_part_9_shows(t8, maintenance, state_db, sync_status, threshold, now);
        lemma_begins_with_refl(t9);
        self.lemma_sections_after_9_keep_prefix(t9, t9, maintenance, state_db, sync_status, threshold, now);
        lemma_has_line_in_prefix(text, t9, value_line("lm_node_dht_find_value_alpha_max"@, (self.dht_find_value_alpha_max as nat)));
        lemma_has_line_in_prefix(text, t9, value_line("lm_node_dht_find_value_exhausted_total"@, (self.dht_find_value_exhausted as nat)));
        self.lemma_part_10_shows(t9, maintenance, state_db, sync_status, threshold, now);
        lemma_begins_with_refl(t10);
        self.lemma_sections_after_10_keep_prefix(t10, t10, maintenance, state_db, sync_status, threshold, now);
        match self.last_dht_find_value_at {
            Some(last_dht_find_value_at) => {
                lemma_has_line_in_prefix(text, t10, value_line("lm_node_dht_find_value_last_run_at"@, (last_dht_find_value_at as nat)));
            },
            None => {},
        }
    }

    /// The exposition shows each counter of the background schedule delays (totals, maxima and last delay of each job) on its own line, under its own name
    /// and label; a timestamp or last delay is shown where one was recorded.
    #[verifier::spinoff_prover]
    #[verifier::rlimit(100)]
    pub proof fn lemma_exposition_shows_schedule_delays_counters(&self, maintenance: NodeMaintenanceStats, state_db: Option<StateDbStats>, sync_status: Option<NodeSyncStatus>, threshold: u32, now: u64)
        ensures
            ({
                let text = self.openmetrics_text(maintenance, state_db, sync_status, threshold, now);
                &&& has_line(text, labeled_line("lm_node_background_schedule_delay_micros_total"@, "job"@, "snapshot_sync"@, (self.sync_schedule_delay_micros_total as nat)))
                &&& has_line(text, labeled_line("lm_node_background_schedule_delay_micros_total"@, "job"@, "dht_replication"@, (self.dht_replication_schedule_delay_micros_total as nat)))
                &&& has_line(text, labeled_line("lm_node_background_schedule_delay_micros_total"@, "job"@, "dht_routing_refresh"@, (self.dht_routing_refresh_schedule_delay_micros_total as nat)))
                &&& has_line(text, labeled_line("lm_node_background_schedule_delay_micros_max"@, "job"@, "snapshot_sync"@, (self.sync_schedule_delay_micros_max as nat)))
                &&& has_line(text, labeled_line("lm_node_background_schedule_delay_micros_max"@, "job"@, "dht_replication"@, (self.dht_replication_schedule_delay_micros_max as nat)))
                &&& has_line(text, labeled_line("lm_node_background_schedule_delay_micros_max"@, "job"@, "dht_routing_refresh"@, (self.dht_routing_refresh_schedule_delay_micros_max as nat)))
                &&& self.last_sync_schedule_delay_micros matches Some(value) ==> has_line(text, labeled_line("lm_node_background_schedule_delay_micros_last"@, "job"@, "snapshot_sync"@, (value as nat)))
                &&& self.last_dht_replication_schedule_delay_micros matches Some(value) ==> has_line(text, labeled_line("lm_node_background_schedule_delay_micros_last"@, "job"@, "dht_replication"@, (value as nat)))
                &&& self.last_dht_routing_refresh_schedule_delay_micros matches Some(value) ==> has_line(text, labeled_line("lm_node_background_schedule_delay_micros_last"@, "job"@, "dht_routing_refresh"@, (value as nat)))
            }),
    {
        let t0 = self.exposition_part_0(Seq::empty(), maintenance, state_db, sync_status, threshold, now);
        let t1 = self.exposition_part_1(t0, maintenance, state_db, sync_status, threshold, now);
        let t2 = self.exposition_part_2(t1, maintenance, state_db, sync_status, threshold, now);
        let t3 = self.exposition_part_3(t2, maintenance, state_db, sync_status, threshold, now);
        let t4 = self.exposition_part_4(t3, maintenance, state_db, sync_status, threshold, now);
        let t5 = self.exposition_part_5(t4, maintenance, state_db, sync_status, threshold, now);
        let t6 = self.exposition_part_6(t5, maintenance, state_db, sync_status, threshold, now);
        let t7 = self.exposition_part_7(t6, maintenance, state_db, sync_status, threshold, now);
        let t8 = self.exposition_part_8(t7, maintenance, state_db, sync_status, threshold, now);
        let t9 = self.exposition_part_9(t8, maintenance, state_db, sync_status, threshold, now);
        let t10 = self.exposition_part_10(t9, maintenance, state_db, sync_status, threshold, now);
        let t11 = self.exposition_part_11(t10, maintenance, state_db, sync_status, threshold, now);
        let t12 = self.exposition_part_12(t11, maintenance, state_db, sync_status, threshold, now);
        let t13 = self.exposition_part_13(t12, maintenance, state_db, sync_status, threshold, now);
        let t14 = self.exposition_part_14(t13, maintenance, state_db, sync_status, threshold, now);
        let t15 = self.exposition_part_15(t14, maintenance, state_db, sync_status, threshold, now);
        let t16 = self.exposition_part_16(t15, maintenance, state_db, sync_status, threshold, now);
        let t17 = self.exposition_part_17(t16, maintenance, state_db, sync_status, threshold, now);
        let t18 = self.exposition_part_18(t17, maintenance, state_db, sync_status, threshold, now);
        let t19 = self.exposition_part_19(t18, maintenance, state_db, sync_status, threshold, now);
        let t20 = self.exposition_part_20(t19, maintenance, state_db, sync_status, threshold, now);
        let t21 = self.exposition_part_21(t20, maintenance, state_db, sync_status, threshold, now);
        let t22 = self.exposition_part_22(t21, maintenance, state_db, sync_status, threshold, now);
        let text = self.openmetrics_text(maintenance, state_db, sync_status, threshold, now);
        self.lemma_part_11_shows(t10, maintenance, state_db, sync_status, threshold, now);
        lemma_begins_with_refl(t11);
        self.lemma_sections_after_11_keep_prefix(t11, t11, maintenance, state_db, sync_status, threshold, now);
        lemma_has_line_in_prefix(text, t11, labeled_line("lm_node_background_schedule_delay_micros_total"@, "job"@, "snapshot_sync"@, (self.sync_schedule_delay_micros_total as nat)));
        lemma_has_line_in_prefix(text, t11, labeled_line("lm_node_background_schedule_delay_micros_total"@, "job"@, "dht_replication"@, (self.dht_replication_schedule_delay_micros_total as nat)));
        lemma_has_line_in_prefix(text, t11, labeled_line("lm_node_background_schedule_delay_micros_total"@, "job"@, "dht_routing_refresh"@, (self.dht_routing_refresh_schedule_delay_micros_total as nat)));
        lemma_has_line_in_prefix(text, t11, labeled_line("lm_node_background_schedule_delay_micros_max"@, "job"@, "snapshot_sync"@, (self.sync_schedule_delay_micros_max as nat)));
        lemma_has_line_in_prefix(text, t11, labeled_line("lm_node_background_schedule_delay_micros_max"@, "job"@, "dht_replication"@, (self.dht_replication_schedule_delay_micros_max as nat)));
        lemma_has_line_in_prefix(text, t11, labeled_line("lm_node_background_schedule_delay_micros_max"@, "job"@, "dht_routing_refresh"@, (self.dht_routing_refresh_schedule_delay_micros_max as nat)));
        self.lemma_part_12_shows(t11, maintenance, state_db, sync_status, threshold, now);
        lemma_begins_with_refl(t12);
        self.lemma_sections_after_12_keep_prefix(t12, t12, maintenance, state_db, sync_status, threshold, now);
        match self.last_sync_schedule_delay_micros {
            Some(value) => {
                lemma_has_line_in_prefix(text, t12, labeled_line("lm_node_background_schedule_delay_micros_last"@, "job"@, "snapshot_sync"@, (value as nat)));
            },
            None => {},
        }
        self.lemma_part_13_shows(t12, maintenance, state_db, sync_status, threshold, now);
        lemma_begins_with_refl(t13);
        self.lemma_sections_after_13_keep_prefix(t13, t13, maintenance, state_db, sync_status, threshold, now);
        match self.last_dht_replication_schedule_delay_micros {
            Some(value) => {
                lemma_has_line_in_prefix(text, t13, labeled_line("lm_node_background_schedule_delay_micros_last"@, "job"@, "dht_replication"@, (value as nat)));
            },
            None => {},
        }
        self.lemma_part_14_shows(t13, maintenance, state_db, sync_status, threshold, now);
        lemma_begins_with_refl(t14);
        self.lemma_sections_after_14_keep_prefix(t14, t14, maintenance, state_db, sync_status, threshold, now);
        match self.last_dht_routing_refresh_schedule_delay_micros {
            Some(value) => {
                lemma_has_line_in_prefix(text, t14, labeled_line("lm_node_background_schedule_delay_micros_last"@, "job"@, "dht_routing_refresh"@, (value as nat)));
            },
            None => {},
        }
    }

    /// The exposition shows each counter of node maintenance (prune runs, expired records, rejections by reason, last prune) on its own line, under its own name
    /// and label; a timestamp or last delay is shown where one was recorded.
    #[verifier::spinoff_prover]
    #[verifier::rlimit(100)]
    pub proof fn lemma_exposition_shows_maintenance_counters(&self, maintenance: NodeMaintenanceStats, state_db: Option<StateDbStats>, sync_status: Option<NodeSyncStatus>, threshold: u32, now: u64)
        ensures
            ({
                let text = self.openmetrics_text(maintenance, state_db, sync_status, threshold, now);
                &&& has_line(text, value_line("lm_node_maintenance_prune_runs_total"@, (maintenance.prune_runs as nat)))
                &&& has_line(text, labeled_line("lm_node_maintenance_expired_records_total"@, "kind"@, "mailbox_delivery"@, (maintenance.mailbox_expired_deliveries as nat)))
                &&& has_line(text, labeled_line("lm_node_maintenance_expired_records_total"@, "kind"@, "prekey_bundle"@, (maintenance.prekey_expired_bundles as nat)))
                &&& has_line(text, labeled_line("lm_node_mailbox_push_rejections_total"@, "reason"@, "invalid_json"@, (maintenance.mailbox_push_rejects.invalid_json as nat)))
                &&& has_line(text, labeled_line("lm_node_mailbox_push_rejections_total"@, "reason"@, "invalid_message_format"@, (maintenance.mailbox_push_rejects.invalid_message_format as nat)))
                &&& has_line(text, labeled_line("lm_node_mailbox_push_rejections_total"@, "reason"@, "invalid_identity_public_key"@, (maintenance.mailbox_push_rejects.invalid_identity_public_key as nat)))
                &&& has_line(text, labeled_line("lm_node_mailbox_push_rejections_total"@, "reason"@, "invalid_signature"@, (maintenance.mailbox_push_rejects.invalid_signature as nat)))
                &&& has_line(text, labeled_line("lm_node_mailbox_push_rejections_total"@, "reason"@, "expired_object"@, (maintenance.mailbox_push_rejects.expired_object as nat)))
                &&& has_line(text, labeled_line("lm_node_mailbox_push_rejections_total"@, "reason"@, "duplicate_message"@, (maintenance.mailbox_push_rejects.duplicate_message as nat)))
                &&& has_line(text, labeled_line("lm_node_mailbox_push_rejections_total"@, "reason"@, "payload_too_large"@, (maintenance.mailbox_push_rejects.payload_too_large as nat)))
                &&& has_line(text, labeled_line("lm_node_mailbox_push_rejections_total"@, "reason"@, "global_rate_limited"@, (maintenance.mailbox_push_rejects.global_rate_limited as nat)))
                &&& has_line(text, labeled_line("lm_node_mailbox_push_rejections_total"@, "reason"@, "sender_rate_limited"@, (maintenance.mailbox_push_rejects.sender_rate_limited as nat)))
                &&& has_line(text, labeled_line("lm_node_mailbox_push_rejections_total"@, "reason"@, "other"@, (maintenance.mailbox_push_rejects.other as nat)))
                &&& has_line(text, labeled_line("lm_node_mailbox_push_rejections_total"@, "reason"@, "all"@, (maintenance.mailbox_push_rejects.total_count() as nat)))
                &&& has_line(text, labeled_line("lm_node_dht_record_rejections_total"@, "reason"@, "invalid_json"@, (maintenance.dht_record_rejects.invalid_json as nat)))
                &&& has_line(text, labeled_line("lm_node_dht_record_rejections_total"@, "reason"@, "expired"@, (maintenance.dht_record_rejects.expired as nat)))
                &&& has_line(text, labeled_line("lm_node_dht_record_rejections_total"@, "reason"@, "ttl_too_long"@, (maintenance.dht_record_rejects.ttl_too_long as nat)))
                &&& has_line(text, labeled_line("lm_node_dht_record_rejections_total"@, "reason"@, "payload_too_large"@, (maintenance.dht_record_rejects.payload_too_large as nat)))
                &&& has_line(text, labeled_line("lm_node_dht_record_rejections_total"@, "reason"@, "invalid_record"@, (maintenance.dht_record_rejects.invalid_record as nat)))
                &&& has_line(text, labeled_line("lm_node_dht_record_rejections_total"@, "reason"@, "all"@, (maintenance.dht_record_rejects.total_count() as nat)))
                &&& has_line(text, labeled_line("lm_node_mailbox_ack_rejections_total"@, "reason"@, "invalid_json"@, (maintenance.mailbox_ack_rejects.invalid_json as nat)))
                &&& has_line(text, labeled_line("lm_node_mailbox_ack_rejections_total"@, "reason"@, "invalid_user_id"@, (maintenance.mailbox_ack_rejects.invalid_user_id as nat)))
                &&& has_line(text, labeled_line("lm_node_mailbox_ack_rejections_total"@, "reason"@, "too_many_ids"@, (maintenance.mailbox_ack_rejects.too_many_ids as nat)))
                &&& has_line(text, labeled_line("lm_node_mailbox_ack_rejections_total"@, "reason"@, "empty_id"@, (maintenance.mailbox_ack_rejects.empty_id as nat)))
                &&& has_line(text, labeled_line("lm_node_mailbox_ack_rejections_total"@, "reason"@, "id_too_large"@, (maintenance.mailbox_ack_rejects.id_too_large as nat)))
                &&& has_line(text, labeled_line("lm_node_mailbox_ack_rejections_total"@, "reason"@, "all"@, (maintenance.mailbox_ack_rejects.total_count() as nat)))
                &&& has_line(text, labeled_line("lm_node_routing_peer_rejections_total"@, "reason"@, "expired"@, (maintenance.routing_peer_rejects.expired as nat)))
                &&& has_line(text, labeled_line("lm_node_routing_peer_rejections_total"@, "reason"@, "mismatched_node_id"@, (maintenance.routing_peer_rejects.mismatched_node_id as nat)))
                &&& has_line(text, labeled_line("lm_node_routing_peer_rejections_total"@, "reason"@, "local_node"@, (maintenance.routing_peer_rejects.local_node as nat)))
                &&& has_line(text, labeled_line("lm_node_routing_peer_rejections_total"@, "reason"@, "missing_identity_public_key"@, (maintenance.routing_peer_rejects.missing_identity_public_key as nat)))
                &&& has_line(text, labeled_line("lm_node_routing_peer_rejections_total"@, "reason"@, "invalid_identity_public_key"@, (maintenance.routing_peer_rejects.invalid_identity_public_key as nat)))
                &&& has_line(text, labeled_line("lm_node_routing_peer_rejections_total"@, "reason"@, "invalid_signature"@, (maintenance.routing_peer_rejects.invalid_signature as nat)))
                &&& has_line(text, labeled_line("lm_node_routing_peer_rejections_total"@, "reason"@, "too_many_addresses"@, (maintenance.routing_peer_rejects.too_many_addresses as nat)))
                &&& has_line(text, labeled_line("lm_node_routing_peer_rejections_total"@, "reason"@, "address_too_large"@, (maintenance.routing_peer_rejects.address_too_large as nat)))
                &&& has_line(text, labeled_line("lm_node_routing_peer_rejections_total"@, "reason"@, "all"@, (maintenance.routing_peer_rejects.total_count() as nat)))
                &&& maintenance.last_pruned_at matches Some(last_pruned_at) ==> has_line(text, value_line("lm_node_maintenance_last_pruned_at"@, (last_pruned_at as nat)))
            }),
    {
        let t0 = self.exposition_part_0(Seq::empty(), maintenance, state_db, sync_status, threshold, now);
        let t1 = self.exposition_part_1(t0, maintenance, state_db, sync_status, threshold, now);
        let t2 = self.exposition_part_2(t1, maintenance, state_db, sync_status, threshold, now);
        let t3 = self.exposition_part_3(t2, maintenance, state_db, sync_status, threshold, now);
        let t4 = self.exposition_part_4(t3, maintenance, state_db, sync_status, threshold, now);
        let t5 = self.exposition_part_5(t4, maintenance, state_db, sync_status, threshold, now);
        let t6 = self.exposition_part_6(t5, maintenance, state_db, sync_status, threshold, now);
        let t7 = self.exposition_part_7(t6, maintenance, state_db, sync_status, threshold, now);
        let t8 = self.exposition_part_8(t7, maintenance, state_db, sync_status, threshold, now);
        let t9 = self.exposition_part_9(t8, maintenance, state_db, sync_status, threshold, now);
        let t10 = self.exposition_part_10(t9, maintenance, state_db, sync_status, threshold, now);
        let t11 = self.exposition_part_11(t10, maintenance, state_db, sync_status, threshold, now);
        let t12 = self.exposition_part_12(t11, maintenance, state_db, sync_status, threshold, now);
        let t13 = self.exposition_part_13(t12, maintenance, state_db, sync_status, threshold, now);
        let t14 = self.exposition_part_14(t13, maintenance, state_db, sync_status, threshold, now);
        let t15 = self.exposition_part_15(t14, maintenance, state_db, sync_status, threshold, now);
        let t16 = self.exposition_part_16(t15, maintenance, state_db, sync_status, threshold, now);
        let t17 = self.exposition_part_17(t16, maintenance, state_db, sync_status, threshold, now);
        let t18 = self.exposition_part_18(t17, maintenance, state_db, sync_status, threshold, now);
        let t19 = self.exposition_part_19(t18, maintenance, state_db, sync_status, threshold, now);
        let t20 = self.exposition_part_20(t19, maintenance, state_db, sync_status, threshold, now);
        let t21 = self.exposition_part_21(t20, maintenance, state_db, sync_status, threshold, now);
        let t22 = self.exposition_part_22(t21, maintenance, state_db, sync_status, threshold, now);
        let text = self.openmetrics_text(maintenance, state_db, sync_status, threshold, now);
        self.lemma_part_16_shows(t15, maintenance, state_db, sync_status, threshold, now);
        lemma_begins_with_refl(t16);
        self.lemma_sections_after_16_keep_prefix(t16, t16, maintenance, state_db, sync_status, threshold, now);
        lemma_has_line_in_prefix(text, t16, value_line("lm_node_maintenance_prune_runs_total"@, (maintenance.prune_runs as nat)));
        lemma_has_line_in_prefix(text, t16, labeled_line("lm_node_maintenance_expired_records_total"@, "kind"@, "mailbox_delivery"@, (maintenance.mailbox_expired_deliveries as nat)));
        lemma_has_line_in_prefix(text, t16, labeled_line("lm_node_maintenance_expired_records_total"@, "kind"@, "prekey_bundle"@, (maintenance.prekey_expired_bundles as nat)));
        lemma_has_line_in_prefix(text, t16, labeled_line("lm_node_mailbox_push_rejections_total"@, "reason"@, "invalid_json"@, (maintenance.mailbox_push_rejects.invalid_json as nat)));
        lemma_has_line_in_prefix(text, t16, labeled_line("lm_node_mailbox_push_rejections_total"@, "reason"@, "invalid_message_format"@, (maintenance.mailbox_push_rejects.invalid_message_format as nat)));
        lemma_has_line_in_prefix(text, t16, labeled_line("lm_node_mailbox_push_rejections_total"@, "reason"@, "invalid_identity_public_key"@, (maintenance.mailbox_push_rejects.invalid_identity_public_key as nat)));
        self.lemma_part_17_shows(t16, maintenance, state_db, sync_status, threshold, now);
        lemma_begins_with_refl(t17);
        self.lemma_sections_after_17_keep_prefix(t17, t17, maintenance, state_db, sync_status, threshold, now);
        lemma_has_line_in_prefix(text, t17, labeled_line("lm_node_mailbox_push_rejections_total"@, "reason"@, "invalid_signature"@, (maintenance.mailbox_push_rejects.invalid_signature as nat)));
        lemma_has_line_in_prefix(text, t17, labeled_line("lm_node_mailbox_push_rejections_total"@, "reason"@, "expired_object"@, (maintenance.mailbox_push_rejects.expired_object as nat)));
        lemma_has_line_in_prefix(text, t17, labeled_line("lm_node_mailbox_push_rejections_total"@, "reason"@, "duplicate_message"@, (maintenance.mailbox_push_rejects.duplicate_message as nat)));
        lemma_has_line_in_prefix(text, t17, labeled_line("lm_node_mailbox_push_rejections_total"@, "reason"@, "payload_too_large"@, (maintenance.mailbox_push_rejects.payload_too_large as nat)));
        lemma_has_line_in_prefix(text, t17, labeled_line("lm_node_mailbox_push_rejections_total"@, "reason"@, "global_rate_limited"@, (maintenance.mailbox_push_rejects.global_rate_limited as nat)));
        lemma_has_line_in_prefix(text, t17, labeled_line("lm_node_mailbox_push_rejections_total"@, "reason"@, "sender_rate_limited"@, (maintenance.mailbox_push_rejects.sender_rate_limited as nat)));
        lemma_has_line_in_prefix(text, t17, labeled_line("lm_node_mailbox_push_rejections_total"@, "reason"@, "other"@, (maintenance.mailbox_push_rejects.other as nat)));
        lemma_has_line_in_prefix(text, t17, labeled_line("lm_node_mailbox_push_rejections_total"@, "reason"@, "all"@, (maintenance.mailbox_push_rejects.total_count() as nat)));
        lemma_has_line_in_prefix(text, t17, labeled_line("lm_node_dht_record_rejections_total"@, "reason"@, "invalid_json"@, (maintenance.dht_record_rejects.invalid_json as nat)));
        lemma_has_line_in_prefix(text, t17, labeled_line("lm_node_dht_record_rejections_total"@, "reason"@, "expired"@, (maintenance.dht_record_rejects.expired as nat)));
        self.lemma_part_18_shows(t17, maintenance, state_db, sync_status, threshold, now);
        lemma_begins_with_refl(t18);
        self.lemma_sections_after_18_keep_prefix(t18, t18, maintenance, state_db, sync_status, threshold, now);
        lemma_has_line_in_prefix(text, t18, labeled_line("lm_node_dht_record_rejections_total"@, "reason"@, "ttl_too_long"@, (maintenance.dht_record_rejects.ttl_too_long as nat)));
        lemma_has_line_in_prefix(text, t18, labeled_line("lm_node_dht_record_rejections_total"@, "reason"@, "payload_too_large"@, (maintenance.dht_record_rejects.payload_too_large as nat)));
        lemma_has_line_in_prefix(text, t18, labeled_line("lm_node_dht_record_rejections_total"@, "reason"@, "invalid_record"@, (maintenance.dht_record_rejects.invalid_record as nat)));
        lemma_has_line_in_prefix(text, t18, labeled_line("lm_node_dht_record_rejections_total"@, "reason"@, "all"@, (maintenance.dht_record_rejects.total_count() as nat)));
        lemma_has_line_in_prefix(text, t18, labeled_line("lm_node_mailbox_ack_rejections_total"@, "reason"@, "invalid_json"@, (maintenance.mailbox_ack_rejects.invalid_json as nat)));
        lemma_has_line_in_prefix(text, t18, labeled_line("lm_node_mailbox_ack_rejections_total"@, "reason"@, "invalid_user_id"@, (maintenance.mailbox_ack_rejects.invalid_user_id as nat)));
        lemma_has_line_in_prefix(text, t18, labeled_line("lm_node_mailbox_ack_rejections_total"@, "reason"@, "too_many_ids"@, (maintenance.mailbox_ack_rejects.too_many_ids as nat)));
        lemma_has_line_in_prefix(text, t18, labeled_line("lm_node_mailbox_ack_rejections_total"@, "reason"@, "empty_id"@, (maintenance.mailbox_ack_rejects.empty_id as nat)));
        lemma_has_line_in_prefix(text, t18, labeled_line("lm_node_mailbox_ack_rejections_total"@, "reason"@, "id_too_large"@, (maintenance.mailbox_ack_rejects.id_too_large as nat)));
        lemma_has_line_in_prefix(text, t18, labeled_line("lm_node_mailbox_ack_rejections_total"@, "reason"@, "all"@, (maintenance.mailbox_ack_rejects.total_count() as nat)));
        self.lemma_part_19_shows(t18, maintenance, state_db, sync_status, threshold, now);
        lemma_begins_with_refl(t19);
        self.lemma_sections_after_19_keep_prefix(t19, t19, maintenance, state_db, sync_status, threshold, now);
        lemma_has_line_in_prefix(text, t19, labeled_line("lm_node_routing_peer_rejections_total"@, "reason"@, "expired"@, (maintenance.routing_peer_rejects.expired as nat)));
        lemma_has_line_in_prefix(text, t19, labeled_line("lm_node_routing_peer_rejections_total"@, "reason"@, "mismatched_node_id"@, (maintenance.routing_peer_rejects.mismatched_node_id as nat)));
        lemma_has_line_in_prefix(text, t19, labeled_line("lm_node_routing_peer_rejections_total"@, "reason"@, "local_node"@, (maintenance.routing_peer_rejects.local_node as nat)));
        lemma_has_line_in_prefix(text, t19, labeled_line("lm_node_routing_peer_rejections_total"@, "reason"@, "missing_identity_public_key"@, (maintenance.routing_peer_rejects.missing_identity_public_key as nat)));
        lemma_has_line_in_prefix(text, t19, labeled_line("lm_node_routing_peer_rejections_total"@, "reason"@, "invalid_identity_public_key"@, (maintenance.routing_peer_rejects.invalid_identity_public_key as nat)));
        lemma_has_line_in_prefix(text, t19, labeled_line("lm_node_routing_peer_rejections_total"@, "reason"@, "invalid_signature"@, (maintenance.routing_peer_rejects.invalid_signature as nat)));
        lemma_has_line_in_prefix(text, t19, labeled_line("lm_node_routing_peer_rejections_total"@, "reason"@, "too_many_addresses"@, (maintenance.routing_peer_rejects.too_many_addresses as nat)));
        lemma_has_line_in_prefix(text, t19, labeled_line("lm_node_routing_peer_rejections_total"@, "reason"@, "address_too_large"@, (maintenance.routing_peer_rejects.address_too_large as nat)));
        lemma_has_line_in_prefix(text, t19, labeled_line("lm_node_routing_peer_rejections_total"@, "reason"@, "all"@, (maintenance.routing_peer_rejects.total_count() as nat)));
        self.lemma_part_20_shows(t19, maintenance, state_db, sync_status, threshold, now);
        lemma_begins_with_refl(t20);
        self.lemma_sections_after_20_keep_prefix(t20, t20, maintenance, state_db, sync_status, threshold, now);
        match maintenance.last_pruned_at {
            Some(last_pruned_at) => {
                lemma_has_line_in_prefix(text, t20, value_line("lm_node_maintenance_last_pruned_at"@, (last_pruned_at as nat)));
            },
            None => {},
        }
    }

    /// The exposition shows each counter of the state database (pages, page size, file size, encryption, hardened permissions) on its own line, under its own name
    /// and label; a timestamp or last delay is shown where one was recorded.
    #[verifier::spinoff_prover]
    #[verifier::rlimit(100)]
    pub proof fn lemma_exposition_shows_state_db_counters(&self, maintenance: NodeMaintenanceStats, state_db: Option<StateDbStats>, sync_status: Option<NodeSyncStatus>, threshold: u32, now: u64)
        ensures
            ({
                let text = self.openmetrics_text(maintenance, state_db, sync_status, threshold, now);
                &&& state_db matches Some(db) ==> has_line(text, labeled_line("lm_node_state_db_pages"@, "kind"@, "total"@, (db.page_count as nat)))
                &&& state_db matches Some(db) ==> has_line(text, labeled_line("lm_node_state_db_pages"@, "kind"@, "free"@, (db.freelist_count as nat)))
                &&& state_db matches Some(db) ==> has_line(text, value_line("lm_node_state_db_page_size_bytes"@, (db.page_size_bytes as nat)))
                &&& state_db matches Some(db) ==> has_line(text, value_line("lm_node_state_db_file_bytes"@, (db.file_bytes as nat)))
                &&& state_db matches Some(db) ==> has_line(text, value_line("lm_node_state_db_encrypted"@, (if db.encrypted { 1nat } else { 0nat })))
                &&& state_db matches Some(db) ==> has_line(text, value_line("lm_node_state_db_permissions_hardened"@, (if db.permissions_hardened { 1nat } else { 0nat })))
            }),
    {
        let t0 = self.exposition_part_0(Seq::empty(), maintenance, state_db, sync_status, threshold, now);
        let t1 = self.exposition_part_1(t0, maintenance, state_db, sync_status, threshold, now);
        let t2 = self.exposition_part_2(t1, maintenance, state_db, sync_status, threshold, now);
        let t3 = self.exposition_part_3(t2, maintenance, state_db, sync_status, threshold, now);
        let t4 = self.exposition_part_4(t3, maintenance, state_db, sync_status, threshold, now);
        let t5 = self.exposition_part_5(t4, maintenance, state_db, sync_status, threshold, now);
        let t6 = self.exposition_part_6(t5, maintenance, state_db, sync_status, threshold, now);
        let t7 = self.exposition_part_7(t6, maintenance, state_db, sync_status, threshold, now);
        let t8 = self.exposition_part_8(t7, maintenance, state_db, sync_status, threshold, now);
        let t9 = self.exposition_part_9(t8, maintenance, state_db, sync_status, threshold, now);
        let t10 = self.exposition_part_10(t9, maintenance, state_db, sync_status, threshold, now);
        let t11 = self.exposition_part_11(t10, maintenance, state_db, sync_status, threshold, now);
        let t12 = self.exposition_part_12(t11, maintenance, state_db, sync_status, threshold, now);
        let t13 = self.exposition_part_13(t12, maintenance, state_db, sync_status, threshold, now);
        let t14 = self.exposition_part_14(t13, maintenance, state_db, sync_status, threshold, now);
        let t15 = self.exposition_part_15(t14, maintenance, state_db, sync_status, threshold, now);
        let t16 = self.exposition_part_16(t15, maintenance, state_db, sync_status, threshold, now);
        let t17 = self.exposition_part_17(t16, maintenance, state_db, sync_status, threshold, now);
        let t18 = self.exposition_part_18(t17, maintenance, state_db, sync_status, threshold, now);
        let t19 = self.exposition_part_19(t18, maintenance, state_db, sync_status, threshold, now);
        let t20 = self.exposition_part_20(t19, maintenance, state_db, sync_status, threshold, now);
        let t21 = self.exposition_part_21(t20, maintenance, state_db, sync_status, threshold, now);
        let t22 = self.exposition_part_22(t21, maintenance, state_db, sync_status, threshold, now);
        let text = self.openmetrics_text(maintenance, state_db, sync_status, threshold, now);
        self.lemma_part_21_shows(t20, maintenance, state_db, sync_status, threshold, now);
        lemma_begins_with_refl(t21);
        self.lemma_sections_after_21_keep_prefix(t21, t21, maintenance, state_db, sync_status, threshold, now);
        match state_db {
            Some(db) => {
                lemma_has_line_in_prefix(text, t21, labeled_line("lm_node_state_db_pages"@, "kind"@, "total"@, (db.page_count as nat)));
                lemma_has_line_in_prefix(text, t21, labeled_line("lm_node_state_db_pages"@, "kind"@, "free"@, (db.freelist_count as nat)));
                lemma_has_line_in_prefix(text, t21, value_line("lm_node_state_db_page_size_bytes"@, (db.page_size_bytes as nat)));
                lemma_has_line_in_prefix(text, t21, value_line("lm_node_state_db_file_bytes"@, (db.file_bytes as nat)));
                lemma_has_line_in_prefix(text, t21, value_line("lm_node_state_db_encrypted"@, (if db.encrypted { 1nat } else { 0nat })));
                lemma_has_line_in_prefix(text, t21, value_line("lm_node_state_db_permissions_hardened"@, (if db.permissions_hardened { 1nat } else { 0nat })));
            },
            None => {},
        }
    }

}

/// The sample lines of one endpoint entry: its responses in all and by status class, its
/// total and maximum handler durations, and its last status where it has one.
pub open spec fn shows_endpoint(text: Seq<char>, e: (String, ControlEndpointStats)) -> bool {
    &&& has_line(text, endpoint_line("lm_node_control_endpoint_requests_total"@, e.0@, "all"@, (e.1.requests as nat)))
    &&& has_line(text, endpoint_line("lm_node_control_endpoint_requests_total"@, e.0@, "2xx"@, (e.1.responses_2xx as nat)))
    &&& has_line(text, endpoint_line("lm_node_control_endpoint_requests_total"@, e.0@, "4xx"@, (e.1.responses_4xx as nat)))
    &&& has_line(text, endpoint_line("lm_node_control_endpoint_requests_total"@, e.0@, "5xx"@, (e.1.responses_5xx as nat)))
    &&& has_line(text, labeled_line("lm_node_control_endpoint_duration_micros_total"@, "endpoint"@, e.0@, (e.1.total_duration_micros as nat)))
    &&& has_line(text, labeled_line("lm_node_control_endpoint_duration_micros_max"@, "endpoint"@, e.0@, (e.1.max_duration_micros as nat)))
    &&& e.1.last_status matches Some(status) ==> has_line(text, labeled_line("lm_node_control_endpoint_last_status"@, "endpoint"@, e.0@, (status as nat)))
}

proof fn lemma_shows_endpoint_add(text: Seq<char>, y: Seq<char>, e: (String, ControlEndpointStats))
    requires
        shows_endpoint(text, e),
    ensures
        shows_endpoint(text + y, e),
{
    lemma_has_line_add();
}

/// The sample lines of one endpoint entry, after `q`.
spec fn endpoint_block(q: Seq<char>, x: (String, ControlEndpointStats)) -> Seq<char> {
    let e = x.0@;
    let st = x.1;
    let base = q
        + endpoint_line("lm_node_control_endpoint_requests_total"@, e, "all"@, st.requests as nat)
        + endpoint_line("lm_node_control_endpoint_requests_total"@, e, "2xx"@, st.responses_2xx as nat)
        + endpoint_line("lm_node_control_endpoint_requests_total"@, e, "4xx"@, st.responses_4xx as nat)
        + endpoint_line("lm_node_control_endpoint_requests_total"@, e, "5xx"@, st.responses_5xx as nat)
        + labeled_line("lm_node_control_endpoint_duration_micros_total"@, "endpoint"@, e, st.total_duration_micros as nat)
        + labeled_line("lm_node_control_endpoint_duration_micros_max"@, "endpoint"@, e, st.max_duration_micros as nat);
    match st.last_status {
        Some(status) => base + labeled_line("lm_node_control_endpoint_last_status"@, "endpoint"@, e, status as nat),
        None => base,
    }
}

proof fn lemma_endpoint_block_shows(q: Seq<char>, x: (String, ControlEndpointStats))
    requires
        q.len() > 0 && q.last() == '\n',
    ensures
        shows_endpoint(endpoint_block(q, x), x),
        endpoint_block(q, x).len() > 0 && endpoint_block(q, x).last() == '\n',
{
    reveal_strlit("\n");
    lemma_has_line_add();
    match x.1.last_status {
        Some(_) => {},
        None => {},
    }
}

proof fn lemma_endpoint_block_keeps(q: Seq<char>, x: (String, ControlEndpointStats), e: (String, ControlEndpointStats))
    requires
        shows_endpoint(q, e),
    ensures
        shows_endpoint(endpoint_block(q, x), e),
{
    lemma_has_line_add();
    match x.1.last_status {
        Some(_) => {},
        None => {},
    }
}

proof fn lemma_endpoint_lines_show(q: Seq<char>, s: Seq<(String, ControlEndpointStats)>, i: int)
    requires
        q.len() > 0 && q.last() == '\n',
        0 <= i < s.len(),
    ensures
        shows_endpoint(endpoint_lines(q, s), s[i]),
        endpoint_lines(q, s).len() > 0 && endpoint_lines(q, s).last() == '\n',
    decreases s.len(),
{
    let r = s.drop_last();
    assert(endpoint_lines(q, s) == endpoint_block(endpoint_lines(q, r), s.last()));
    if r.len() == 0 {
        lemma_endpoint_block_shows(q, s.last());
    } else if i == s.len() - 1 {
        lemma_endpoint_lines_show(q, r, 0);
        lemma_endpoint_block_shows(endpoint_lines(q, r), s.last());
    } else {
        lemma_endpoint_lines_show(q, r, i);
        assert(r[i] == s[i]);
        lemma_endpoint_block_shows(endpoint_lines(q, r), s.last());
        lemma_endpoint_block_keeps(endpoint_lines(q, r), s.last(), s[i]);
    }
}

proof fn lemma_insert_sorted_contains(s: Seq<(String, ControlEndpointStats)>, x: (String, ControlEndpointStats))
    ensures
        insert_sorted(s, x).contains(x),
        forall|j: int| 0 <= j < s.len() ==> insert_sorted(s, x).contains(#[trigger] s[j]),
    decreases s.len(),
{
    let r = insert_sorted(s, x);
    if s.len() == 0 {
        assert(r[0] == x);
    } else if lex_lt(x.0@, s.last().0@) {
        let t = insert_sorted(s.drop_last(), x);
        lemma_insert_sorted_contains(s.drop_last(), x);
        assert(r == t.push(s.last()));
        let k = choose|k: int| 0 <= k < t.len() && t[k] == x;
        assert(r[k] == x);
        assert forall|j: int| 0 <= j < s.len() implies r.contains(#[trigger] s[j]) by {
            if j == s.len() - 1 {
                assert(r[t.len() as int] == s[j]);
            } else {
                assert(s.drop_last()[j] == s[j]);
                assert(t.contains(s.drop_last()[j]));
                let m = choose|m: int| 0 <= m < t.len() && t[m] == s[j];
                assert(r[m] == s[j]);
            }
        }
    } else {
        assert(r == s.push(x));
        assert(r[s.len() as int] == x);
        assert forall|j: int| 0 <= j < s.len() implies r.contains(#[trigger] s[j]) by {
            assert(r[j] == s[j]);
        }
    }
}

proof fn lemma_sorted_endpoints_contains(s: Seq<(String, ControlEndpointStats)>, i: int)
    requires
        0 <= i < s.len(),
    ensures
        sorted_endpoints(s).contains(s[i]),
    decreases s.len(),
{
    let t = sorted_endpoints(s.drop_last());
    lemma_insert_sorted_contains(t, s.last());
    if i < s.len() - 1 {
        lemma_sorted_endpoints_contains(s.drop_last(), i);
        assert(s.drop_last()[i] == s[i]);
        let k = choose|k: int| 0 <= k < t.len() && t[k] == s[i];
        assert(t[k] == s[i]);
    }
}

impl ControlRuntimeStats {
    proof fn lemma_part_22_ends(&self, q: Seq<char>, maintenance: NodeMaintenanceStats, state_db: Option<StateDbStats>, sync_status: Option<NodeSyncStatus>, threshold: u32, now: u64)
        ensures
            self.exposition_part_22(q, maintenance, state_db, sync_status, threshold, now).len() > 0 && self.exposition_part_22(q, maintenance, state_db, sync_status, threshold, now).last() == '\n',
    {
        reveal_strlit("\n");
    }

    /// The exposition shows, for each endpoint in the table, its responses in all and by
    /// status class, its total and maximum handler durations, and its last status.
    #[verifier::spinoff_prover]
    #[verifier::rlimit(100)]
    pub proof fn lemma_exposition_shows_endpoint_counters(&self, maintenance: NodeMaintenanceStats, state_db: Option<StateDbStats>, sync_status: Option<NodeSyncStatus>, threshold: u32, now: u64, i: int)
        requires
            0 <= i < self.endpoints@.len(),
        ensures
            shows_endpoint(self.openmetrics_text(maintenance, state_db, sync_status, threshold, now), self.endpoints@[i]),
    {
        let t0 = self.exposition_part_0(Seq::empty(), maintenance, state_db, sync_status, threshold, now);
        let t1 = self.exposition_part_1(t0, maintenance, state_db, sync_status, threshold, now);
        let t2 = self.exposition_part_2(t1, maintenance, state_db, sync_status, threshold, now);
        let t3 = self.exposition_part_3(t2, maintenance, state_db, sync_status, threshold, now);
        let t4 = self.exposition_part_4(t3, maintenance, state_db, sync_status, threshold, now);
        let t5 = self.exposition_part_5(t4, maintenance, state_db, sync_status, threshold, now);
        let t6 = self.exposition_part_6(t5, maintenance, state_db, sync_status, threshold, now);
        let t7 = self.exposition_part_7(t6, maintenance, state_db, sync_status, threshold, now);
        let t8 = self.exposition_part_8(t7, maintenance, state_db, sync_status, threshold, now);
        let t9 = self.exposition_part_9(t8, maintenance, state_db, sync_status, threshold, now);
        let t10 = self.exposition_part_10(t9, maintenance, state_db, sync_status, threshold, now);
        let t11 = self.exposition_part_11(t10, maintenance, state_db, sync_status, threshold, now);
        let t12 = self.exposition_part_12(t11, maintenance, state_db, sync_status, threshold, now);
        let t13 = self.exposition_part_13(t12, maintenance, state_db, sync_status, threshold, now);
        let t14 = self.exposition_part_14(t13, maintenance, state_db, sync_status, threshold, now);
        let t15 = self.exposition_part_15(t14, maintenance, state_db, sync_status, threshold, now);
        let t16 = self.exposition_part_16(t15, maintenance, state_db, sync_status, threshold, now);
        let t17 = self.exposition_part_17(t16, maintenance, state_db, sync_status, threshold, now);
        let t18 = self.exposition_part_18(t17, maintenance, state_db, sync_status, threshold, now);
        let t19 = self.exposition_part_19(t18, maintenance, state_db, sync_status, threshold, now);
        let t20 = self.exposition_part_20(t19, maintenance, state_db, sync_status, threshold, now);
        let t21 = self.exposition_part_21(t20, maintenance, state_db, sync_status, threshold, now);
        let t22 = self.exposition_part_22(t21, maintenance, state_db, sync_status, threshold, now);
        let sorted = sorted_endpoints(self.endpoints@);
        self.lemma_part_22_ends(t21, maintenance, state_db, sync_status, threshold, now);
        lemma_sorted_endpoints_contains(self.endpoints@, i);
        let k = choose|k: int| 0 <= k < sorted.len() && sorted[k] == self.endpoints@[i];
        lemma_endpoint_lines_show(t22, sorted, k);
        lemma_shows_endpoint_add(endpoint_lines(t22, sorted), "# EOF\n"@, self.endpoints@[i]);
    }
}

/// The sample lines of one peer's sync health: its attempts, successes, failures and
/// consecutive failures, whether the DHT runners skip it at `now` (1 or 0), and its next
/// attempt time where one is scheduled.
pub open spec fn shows_sync_peer(text: Seq<char>, e: (String, NodeSyncPeerStatus), threshold: u32, now: u64) -> bool {
    &&& has_line(text, labeled_line("lm_node_sync_peer_attempts_total"@, "peer"@, e.0@, (e.1.attempts as nat)))
    &&& has_line(text, labeled_line("lm_node_sync_peer_successes_total"@, "peer"@, e.0@, (e.1.successes as nat)))
    &&& has_line(text, labeled_line("lm_node_sync_peer_failures_total"@, "peer"@, e.0@, (e.1.failures as nat)))
    &&& has_line(text, labeled_line("lm_node_sync_peer_consecutive_failures"@, "peer"@, e.0@, (e.1.consecutive_failures as nat)))
    &&& quarantined(e.1, now, threshold) ==> has_line(text, labeled_line("lm_node_dht_peer_quarantined"@, "peer"@, e.0@, 1nat))
    &&& !quarantined(e.1, now, threshold) ==> has_line(text, labeled_line("lm_node_dht_peer_quarantined"@, "peer"@, e.0@, 0nat))
    &&& e.1.next_attempt_at matches Some(next) ==> has_line(text, labeled_line("lm_node_sync_peer_next_attempt_at"@, "peer"@, e.0@, (next as nat)))
}

/// The sample lines of one peer, after `q`.
spec fn sync_peer_block(q: Seq<char>, x: (String, NodeSyncPeerStatus), threshold: u32, now: u64) -> Seq<char> {
    let peer = x.0@;
    let st = x.1;
    let base = q
        + labeled_line("lm_node_sync_peer_attempts_total"@, "peer"@, peer, st.attempts as nat)
        + labeled_line("lm_node_sync_peer_successes_total"@, "peer"@, peer, st.successes as nat)
        + labeled_line("lm_node_sync_peer_failures_total"@, "peer"@, peer, st.failures as nat)
        + labeled_line("lm_node_sync_peer_consecutive_failures"@, "peer"@, peer, st.consecutive_failures as nat)
        + labeled_line("lm_node_dht_peer_quarantined"@, "peer"@, peer, if quarantined(st, now, threshold) { 1nat } else { 0nat });
    match st.next_attempt_at {
        Some(next) => base + labeled_line("lm_node_sync_peer_next_attempt_at"@, "peer"@, peer, next as nat),
        None => base,
    }
}

proof fn lemma_sync_peer_block_shows(q: Seq<char>, x: (String, NodeSyncPeerStatus), threshold: u32, now: u64)
    requires
        q.len() > 0 && q.last() == '\n',
    ensures
        shows_sync_peer(sync_peer_block(q, x, threshold, now), x, threshold, now),
        sync_peer_block(q, x, threshold, now).len() > 0 && sync_peer_block(q, x, threshold, now).last() == '\n',
{
    reveal_strlit("\n");
    lemma_has_line_add();
    match x.1.next_attempt_at {
        Some(_) => {},
        None => {},
    }
}

proof fn lemma_sync_peer_block_keeps(q: Seq<char>, x: (String, NodeSyncPeerStatus), e: (String, NodeSyncPeerStatus), threshold: u32, now: u64)
    requires
        shows_sync_peer(q, e, threshold, now),
    ensures
        shows_sync_peer(sync_peer_block(q, x, threshold, now), e, threshold, now),
{
    lemma_has_line_add();
    match x.1.next_attempt_at {
        Some(_) => {},
        None => {},
    }
}

proof fn lemma_sync_peer_lines_show(q: Seq<char>, s: Seq<(String, NodeSyncPeerStatus)>, threshold: u32, now: u64, i: int)
    requires
        q.len() > 0 && q.last() == '\n',
        0 <= i < s.len(),
    ensures
        shows_sync_peer(sync_peer_lines(q, s, threshold, now), s[i], threshold, now),
        sync_peer_lines(q, s, threshold, now).len() > 0 && sync_peer_lines(q, s, threshold, now).last() == '\n',
    decreases s.len(),
{
    let r = s.drop_last();
    assert(sync_peer_lines(q, s, threshold, now) == sync_peer_block(sync_peer_lines(q, r, threshold, now), s.last(), threshold, now));
    if r.len() == 0 {
        lemma_sync_peer_block_shows(q, s.last(), threshold, now);
    } else if i == s.len() - 1 {
        lemma_sync_peer_lines_show(q, r, threshold, now, 0);
        lemma_sync_peer_block_shows(sync_peer_lines(q, r, threshold, now), s.last(), threshold, now);
    } else {
        lemma_sync_peer_lines_show(q, r, threshold, now, i);
        assert(r[i] == s[i]);
        lemma_sync_peer_block_shows(sync_peer_lines(q, r, threshold, now), s.last(), threshold, now);
        lemma_sync_peer_block_keeps(sync_peer_lines(q, r, threshold, now), s.last(), s[i], threshold, now);
    }
}

proof fn lemma_sync_status_lines_show(q: Seq<char>, ss: NodeSyncStatus, threshold: u32, now: u64, i: int)
    requires
        0 <= i < ss.peers@.len(),
    ensures
        shows_sync_peer(sync_status_lines(q, ss, threshold, now), ss.peers@[i], threshold, now),
{
    reveal_strlit("\n");
    let h = q
        + help_line("lm_node_sync_peer_attempts_total"@, "Snapshot sync attempts by peer."@)
        + type_line("lm_node_sync_peer_attempts_total"@, "counter"@)
        + help_line("lm_node_sync_peer_successes_total"@, "Snapshot sync successes by peer."@)
        + type_line("lm_node_sync_peer_successes_total"@, "counter"@)
        + help_line("lm_node_sync_peer_failures_total"@, "Snapshot sync failures by peer."@)
        + type_line("lm_node_sync_peer_failures_total"@, "counter"@)
        + help_line("lm_node_sync_peer_consecutive_failures"@, "Current consecutive snapshot sync failures by peer."@)
        + type_line("lm_node_sync_peer_consecutive_failures"@, "gauge"@)
        + help_line("lm_node_sync_peer_next_attempt_at"@, "Unix timestamp for the next scheduled snapshot sync attempt by peer."@)
        + type_line("lm_node_sync_peer_next_attempt_at"@, "gauge"@)
        + help_line("lm_node_dht_peer_quarantined"@, "Whether a sync/control peer is currently skipped by DHT runners due to consecutive failures."@)
        + type_line("lm_node_dht_peer_quarantined"@, "gauge"@);
    assert(h.len() > 0 && h.last() == '\n');
    lemma_sync_peer_lines_show(h, ss.peers@, threshold, now, i);
}

proof fn lemma_shows_sync_peer_in_prefix(text: Seq<char>, p: Seq<char>, e: (String, NodeSyncPeerStatus), threshold: u32, now: u64)
    requires
        begins_with(text, p),
        shows_sync_peer(p, e, threshold, now),
    ensures
        shows_sync_peer(text, e, threshold, now),
{
    lemma_has_line_in_prefix(text, p, labeled_line("lm_node_sync_peer_attempts_total"@, "peer"@, e.0@, (e.1.attempts as nat)));
    lemma_has_line_in_prefix(text, p, labeled_line("lm_node_sync_peer_successes_total"@, "peer"@, e.0@, (e.1.successes as nat)));
    lemma_has_line_in_prefix(text, p, labeled_line("lm_node_sync_peer_failures_total"@, "peer"@, e.0@, (e.1.failures as nat)));
    lemma_has_line_in_prefix(text, p, labeled_line("lm_node_sync_peer_consecutive_failures"@, "peer"@, e.0@, (e.1.consecutive_failures as nat)));
    if quarantined(e.1, now, threshold) {
        lemma_has_line_in_prefix(text, p, labeled_line("lm_node_dht_peer_quarantined"@, "peer"@, e.0@, 1nat));
    } else {
        lemma_has_line_in_prefix(text, p, labeled_line("lm_node_dht_peer_quarantined"@, "peer"@, e.0@, 0nat));
    }
    if let Some(next) = e.1.next_attempt_at {
        lemma_has_line_in_prefix(text, p, labeled_line("lm_node_sync_peer_next_attempt_at"@, "peer"@, e.0@, (next as nat)));
    }
}

impl ControlRuntimeStats {
    /// Where the node's sync health is exposed, the exposition shows for each peer its
    /// attempts, successes, failures and consecutive failures, whether the DHT runners skip
    /// it at `now`, and its next attempt time.
    #[verifier::spinoff_prover]
    #[verifier::rlimit(100)]
    pub proof fn lemma_exposition_shows_sync_peers(&self, maintenance: NodeMaintenanceStats, state_db: Option<StateDbStats>, sync_status: Option<NodeSyncStatus>, threshold: u32, now: u64, i: int)
        requires
            sync_status matches Some(ss) && 0 <= i < ss.peers@.len(),
        ensures
            shows_sync_peer(self.openmetrics_text(maintenance, state_db, sync_status, threshold, now), sync_status.unwrap().peers@[i], threshold, now),
    {
        let ss = sync_status.unwrap();
        let t0 = self.exposition_part_0(Seq::empty(), maintenance, state_db, sync_status, threshold, now);
        let t1 = self.exposition_part_1(t0, maintenance, state_db, sync_status, threshold, now);
        let t2 = self.exposition_part_2(t1, maintenance, state_db, sync_status, threshold, now);
        let t3 = self.exposition_part_3(t2, maintenance, state_db, sync_status, threshold, now);
        let t4 = self.exposition_part_4(t3, maintenance, state_db, sync_status, threshold, now);
        let t5 = self.exposition_part_5(t4, maintenance, state_db, sync_status, threshold, now);
        let t6 = self.exposition_part_6(t5, maintenance, state_db, sync_status, threshold, now);
        let t7 = self.exposition_part_7(t6, maintenance, state_db, sync_status, threshold, now);
        let t8 = self.exposition_part_8(t7, maintenance, state_db, sync_status, threshold, now);
        let t9 = self.exposition_part_9(t8, maintenance, state_db, sync_status, threshold, now);
        let t10 = self.exposition_part_10(t9, maintenance, state_db, sync_status, threshold, now);
        let t11 = self.exposition_part_11(t10, maintenance, state_db, sync_status, threshold, now);
        let t12 = self.exposition_part_12(t11, maintenance, state_db, sync_status, threshold, now);
        let t13 = self.exposition_part_13(t12, maintenance, state_db, sync_status, threshold, now);
        let t14 = self.exposition_part_14(t13, maintenance, state_db, sync_status, threshold, now);
        let t15 = self.exposition_part_15(t14, maintenance, state_db, sync_status, threshold, now);
        lemma_sync_status_lines_show(t14, ss, threshold, now, i);
        assert(t15 == sync_status_lines(t14, ss, threshold, now));
        lemma_begins_with_refl(t15);
        self.lemma_sections_after_15_keep_prefix(t15, t15, maintenance, state_db, sync_status, threshold, now);
        lemma_shows_sync_peer_in_prefix(self.openmetrics_text(maintenance, state_db, sync_status, threshold, now), t15, ss.peers@[i], threshold, now);
    }
}

} // verus!
