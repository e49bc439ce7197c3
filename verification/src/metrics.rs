//! Runtime counters of the control plane and their OpenMetrics exposition.
use vstd::prelude::*;
use crate::text::{chars_of, decimal, push_char, push_decimal, push_str};

verus! {

/// Per-endpoint request counters.
#[derive(Debug, Clone)]
pub struct ControlEndpointStats {
    pub requests: u64,
    pub responses_2xx: u64,
    pub responses_4xx: u64,
    pub responses_5xx: u64,
    pub total_duration_micros: u128,
    pub max_duration_micros: u128,
    pub last_status: Option<u16>,
}

/// Counters of an endpoint that has seen no request.
pub open spec fn empty_endpoint_stats() -> ControlEndpointStats {
    ControlEndpointStats {
        requests: 0,
        responses_2xx: 0,
        responses_4xx: 0,
        responses_5xx: 0,
        total_duration_micros: 0,
        max_duration_micros: 0,
        last_status: None,
    }
}

/// Endpoint counters after one more response.
pub open spec fn endpoint_after(e: ControlEndpointStats, status: u16, micros: u128) -> ControlEndpointStats {
    ControlEndpointStats {
        requests: e.requests.saturating_add(1),
        responses_2xx: if 200 <= status <= 299 { e.responses_2xx.saturating_add(1) } else { e.responses_2xx },
        responses_4xx: if 400 <= status <= 499 { e.responses_4xx.saturating_add(1) } else { e.responses_4xx },
        responses_5xx: if 500 <= status <= 599 { e.responses_5xx.saturating_add(1) } else { e.responses_5xx },
        total_duration_micros: e.total_duration_micros.saturating_add(micros),
        max_duration_micros: if micros > e.max_duration_micros { micros } else { e.max_duration_micros },
        last_status: Some(status),
    }
}

impl ControlEndpointStats {
    /// Counters of an endpoint that has seen no request.
    pub fn new() -> (r: Self)
        ensures
            r == empty_endpoint_stats(),
    {
        ControlEndpointStats {
            requests: 0,
            responses_2xx: 0,
            responses_4xx: 0,
            responses_5xx: 0,
            total_duration_micros: 0,
            max_duration_micros: 0,
            last_status: None,
        }
    }

    /// A copy of these counters.
    pub fn copy(&self) -> (r: Self)
        ensures
            r == *self,
    {
        ControlEndpointStats {
            requests: self.requests,
            responses_2xx: self.responses_2xx,
            responses_4xx: self.responses_4xx,
            responses_5xx: self.responses_5xx,
            total_duration_micros: self.total_duration_micros,
            max_duration_micros: self.max_duration_micros,
            last_status: self.last_status,
        }
    }

    /// Counts one response with its status class and handler duration.
    pub fn record(&mut self, status: u16, duration_micros: u128)
        ensures
            *final(self) == endpoint_after(*old(self), status, duration_micros),
            old(self).requests < u64::MAX && old(self).responses_2xx + old(self).responses_4xx + old(self).responses_5xx <= old(self).requests
                ==> final(self).responses_2xx + final(self).responses_4xx + final(self).responses_5xx <= final(self).requests,
    {
        self.requests = self.requests.saturating_add(1);
        if 200 <= status && status <= 299 {
            self.responses_2xx = self.responses_2xx.saturating_add(1);
        } else if 400 <= status && status <= 499 {
            self.responses_4xx = self.responses_4xx.saturating_add(1);
        } else if 500 <= status && status <= 599 {
            self.responses_5xx = self.responses_5xx.saturating_add(1);
        }
        self.total_duration_micros = self.total_duration_micros.saturating_add(duration_micros);
        if duration_micros > self.max_duration_micros {
            self.max_duration_micros = duration_micros;
        }
        self.last_status = Some(status);
    }
}

/// Counters of one DHT replication run.
#[derive(Debug, Clone, Copy, Default, PartialEq, Eq)]
pub struct DhtReplicationRunStats {
    pub records: usize,
    pub attempts: usize,
    pub successes: usize,
    pub failures: usize,
    pub peers_quarantined: usize,
}

/// Counters of one DHT routing refresh run.
#[derive(Debug, Clone, Copy, Default, PartialEq, Eq)]
pub struct DhtRoutingRefreshRunStats {
    pub targets: usize,
    pub attempts: usize,
    pub successes: usize,
    pub failures: usize,
    pub nodes_returned: usize,
    pub nodes_merged: usize,
    pub nodes_rejected_non_closer: usize,
    pub nodes_rejected_duplicate: usize,
    pub peers_quarantined: usize,
}

/// Counters of one DHT FindValue run.
#[derive(Debug, Clone, Copy, Default, PartialEq, Eq)]
pub struct DhtFindValueRunStats {
    pub attempts: usize,
    pub successes: usize,
    pub failures: usize,
    pub found_records: usize,
    pub closer_records: usize,
    pub closer_nodes_returned: usize,
    pub closer_nodes_merged: usize,
    pub closer_nodes_rejected_non_closer: usize,
    pub closer_nodes_rejected_duplicate: usize,
    pub peers_quarantined: usize,
    pub quarantine_threshold: u32,
    pub query_rounds: usize,
    pub alpha: usize,
    pub exhausted: bool,
}

/// Size and protection of the SQLite state database.
#[derive(Debug, Clone, PartialEq, Eq)]
pub struct StateDbStats {
    pub page_count: u64,
    pub page_size_bytes: u64,
    pub freelist_count: u64,
    pub file_bytes: u64,
    pub encrypted: bool,
    pub permissions_hardened: bool,
}

/// Counters of the control runtime since it started.
#[derive(Debug, Clone)]
pub struct ControlRuntimeStats {
    pub started_at: u64,
    pub requests_total: u64,
    pub responses_2xx: u64,
    pub responses_4xx: u64,
    pub responses_5xx: u64,
    pub cors_rejected: u64,
    pub unauthorized: u64,
    pub rate_limited: u64,
    pub bad_requests: u64,
    pub sync_snapshot_exports: u64,
    pub sync_snapshot_export_bytes: u64,
    pub sync_snapshot_imports: u64,
    pub sync_snapshot_import_bytes: u64,
    pub dht_replication_runs: u64,
    pub dht_replication_records: u64,
    pub dht_replication_attempts: u64,
    pub dht_replication_successes: u64,
    pub dht_replication_failures: u64,
    pub dht_replication_peers_quarantined: u64,
    pub last_dht_replication_at: Option<u64>,
    pub dht_routing_refresh_runs: u64,
    pub dht_routing_refresh_targets: u64,
    pub dht_routing_refresh_attempts: u64,
    pub dht_routing_refresh_successes: u64,
    pub dht_routing_refresh_failures: u64,
    pub dht_routing_refresh_nodes_returned: u64,
    pub dht_routing_refresh_nodes_merged: u64,
    pub dht_routing_refresh_nodes_rejected_non_closer: u64,
    pub dht_routing_refresh_nodes_rejected_duplicate: u64,
    pub dht_routing_refresh_peers_quarantined: u64,
    pub last_dht_routing_refresh_at: Option<u64>,
    pub dht_find_value_runs: u64,
    pub dht_find_value_attempts: u64,
    pub dht_find_value_successes: u64,
    pub dht_find_value_failures: u64,
    pub dht_find_value_found_records: u64,
    pub dht_find_value_closer_records: u64,
    pub dht_find_value_closer_nodes_returned: u64,
    pub dht_find_value_closer_nodes_merged: u64,
    pub dht_find_value_closer_nodes_rejected_non_closer: u64,
    pub dht_find_value_closer_nodes_rejected_duplicate: u64,
    pub dht_find_value_peers_quarantined: u64,
    pub dht_find_value_query_rounds: u64,
    pub dht_find_value_alpha_max: usize,
    pub dht_find_value_exhausted: u64,
    pub last_dht_find_value_at: Option<u64>,
    pub sync_schedule_delay_micros_total: u128,
    pub sync_schedule_delay_micros_max: u128,
    pub last_sync_schedule_delay_micros: Option<u128>,
    pub dht_replication_schedule_delay_micros_total: u128,
    pub dht_replication_schedule_delay_micros_max: u128,
    pub last_dht_replication_schedule_delay_micros: Option<u128>,
    pub dht_routing_refresh_schedule_delay_micros_total: u128,
    pub dht_routing_refresh_schedule_delay_micros_max: u128,
    pub last_dht_routing_refresh_schedule_delay_micros: Option<u128>,
    pub endpoints: Vec<(String, ControlEndpointStats)>,
}

/// `n` added to a `u64` counter, saturating.
pub open spec fn add_count(a: u64, n: usize) -> u64 {
    if a + n > u64::MAX {
        u64::MAX
    } else {
        (a + n) as u64
    }
}

fn add_count_exec(a: u64, n: usize) -> (r: u64)
    ensures
        r == add_count(a, n),
{
    if n as u64 > u64::MAX - a {
        u64::MAX
    } else {
        a + n as u64
    }
}

/// The larger of two durations.
pub open spec fn max_u128(a: u128, b: u128) -> u128 {
    if b > a {
        b
    } else {
        a
    }
}

/// No two entries of an endpoint table have the same key.
pub open spec fn endpoint_keys_unique(eps: Seq<(String, ControlEndpointStats)>) -> bool {
    forall|i: int, j: int| 0 <= i < j < eps.len() ==> #[trigger] eps[i].0@ != #[trigger] eps[j].0@
}

/// Position of the first endpoint entry with the given key.
pub open spec fn endpoint_index(eps: Seq<(String, ControlEndpointStats)>, key: Seq<char>) -> Option<int> {
    if exists|i: int| is_first_endpoint(eps, key, i) {
        Some(choose|i: int| is_first_endpoint(eps, key, i))
    } else {
        None
    }
}

/// `i` is the first entry for `key`.
pub open spec fn is_first_endpoint(eps: Seq<(String, ControlEndpointStats)>, key: Seq<char>, i: int) -> bool {
    0 <= i < eps.len() && eps[i].0@ == key && forall|j: int| 0 <= j < i ==> eps[j].0@ != key
}

proof fn lemma_endpoint_index(eps: Seq<(String, ControlEndpointStats)>, key: Seq<char>, i: int)
    requires
        0 <= i < eps.len(),
        eps[i].0@ == key,
        forall|j: int| 0 <= j < i ==> eps[j].0@ != key,
    ensures
        endpoint_index(eps, key) == Some(i),
{
    assert(is_first_endpoint(eps, key, i));
    let k = choose|k: int| is_first_endpoint(eps, key, k);
    assert(k == i) by {
        if k < i {
            assert(eps[k].0@ != key);
        } else if k > i {
            assert(eps[i].0@ != key);
        }
    }
}

/// Endpoint table after one more response to `key`: the first entry with that key is
/// updated, or a new entry is appended.
pub open spec fn endpoints_updated(
    before: Seq<(String, ControlEndpointStats)>,
    after: Seq<(String, ControlEndpointStats)>,
    key: Seq<char>,
    status: u16,
    micros: u128,
) -> bool {
    match endpoint_index(before, key) {
        Some(i) => after == before.update(i, (before[i].0, endpoint_after(before[i].1, status, micros))),
        None => {
            &&& after.len() == before.len() + 1
            &&& after.take(before.len() as int) == before
            &&& after.last().0@ == key
            &&& after.last().1 == endpoint_after(empty_endpoint_stats(), status, micros)
        },
    }
}

/// The counters after one more snapshot sync start `delay_micros` late: the delay added to the
/// total (saturating), the maximum kept, the last delay set.
pub open spec fn sync_delay_after(s: ControlRuntimeStats, delay_micros: u128) -> ControlRuntimeStats {
    ControlRuntimeStats {
        sync_schedule_delay_micros_total: s.sync_schedule_delay_micros_total.saturating_add(delay_micros),
        sync_schedule_delay_micros_max: max_u128(s.sync_schedule_delay_micros_max, delay_micros),
        last_sync_schedule_delay_micros: Some(delay_micros),
        ..s
    }
}

/// Two snapshot sync delays recorded in turn add up in the total (where the sum fits), the larger
/// of them and the earlier maximum is the maximum, the second is the last, and every other
/// counter is untouched.
pub proof fn lemma_sync_delays_accumulate(s: ControlRuntimeStats, first: u128, second: u128)
    requires
        s.sync_schedule_delay_micros_total + first + second <= u128::MAX,
    ensures
        ({
            let t = sync_delay_after(sync_delay_after(s, first), second);
            &&& t.sync_schedule_delay_micros_total == s.sync_schedule_delay_micros_total + first + second
            &&& t.sync_schedule_delay_micros_max == max_u128(max_u128(s.sync_schedule_delay_micros_max, first), second)
            &&& t.last_sync_schedule_delay_micros == Some(second)
            &&& t == (ControlRuntimeStats {
                sync_schedule_delay_micros_total: t.sync_schedule_delay_micros_total,
                sync_schedule_delay_micros_max: t.sync_schedule_delay_micros_max,
                last_sync_schedule_delay_micros: t.last_sync_schedule_delay_micros,
                ..s
            })
        }),
{
}

/// The counters after one more DHT replication start `delay_micros` late: the delay added to the
/// total (saturating), the maximum kept, the last delay set.
pub open spec fn dht_replication_delay_after(s: ControlRuntimeStats, delay_micros: u128) -> ControlRuntimeStats {
    ControlRuntimeStats {
        dht_replication_schedule_delay_micros_total: s.dht_replication_schedule_delay_micros_total.saturating_add(delay_micros),
        dht_replication_schedule_delay_micros_max: max_u128(s.dht_replication_schedule_delay_micros_max, delay_micros),
        last_dht_replication_schedule_delay_micros: Some(delay_micros),
        ..s
    }
}

/// Two DHT replication delays recorded in turn add up in the total (where the sum fits), the larger
/// of them and the earlier maximum is the maximum, the second is the last, and every other
/// counter is untouched.
pub proof fn lemma_dht_replication_delays_accumulate(s: ControlRuntimeStats, first: u128, second: u128)
    requires
        s.dht_replication_schedule_delay_micros_total + first + second <= u128::MAX,
    ensures
        ({
            let t = dht_replication_delay_after(dht_replication_delay_after(s, first), second);
            &&& t.dht_replication_schedule_delay_micros_total == s.dht_replication_schedule_delay_micros_total + first + second
            &&& t.dht_replication_schedule_delay_micros_max == max_u128(max_u128(s.dht_replication_schedule_delay_micros_max, first), second)
            &&& t.last_dht_replication_schedule_delay_micros == Some(second)
            &&& t == (ControlRuntimeStats {
                dht_replication_schedule_delay_micros_total: t.dht_replication_schedule_delay_micros_total,
                dht_replication_schedule_delay_micros_max: t.dht_replication_schedule_delay_micros_max,
                last_dht_replication_schedule_delay_micros: t.last_dht_replication_schedule_delay_micros,
                ..s
            })
        }),
{
}

/// The counters after one more DHT routing refresh start `delay_micros` late: the delay added to the
/// total (saturating), the maximum kept, the last delay set.
pub open spec fn dht_routing_refresh_delay_after(s: ControlRuntimeStats, delay_micros: u128) -> ControlRuntimeStats {
    ControlRuntimeStats {
        dht_routing_refresh_schedule_delay_micros_total: s.dht_routing_refresh_schedule_delay_micros_total.saturating_add(delay_micros),
        dht_routing_refresh_schedule_delay_micros_max: max_u128(s.dht_routing_refresh_schedule_delay_micros_max, delay_micros),
        last_dht_routing_refresh_schedule_delay_micros: Some(delay_micros),
        ..s
    }
}

/// Two DHT routing refresh delays recorded in turn add up in the total (where the sum fits), the larger
/// of them and the earlier maximum is the maximum, the second is the last, and every other
/// counter is untouched.
pub proof fn lemma_dht_routing_refresh_delays_accumulate(s: ControlRuntimeStats, first: u128, second: u128)
    requires
        s.dht_routing_refresh_schedule_delay_micros_total + first + second <= u128::MAX,
    ensures
        ({
            let t = dht_routing_refresh_delay_after(dht_routing_refresh_delay_after(s, first), second);
            &&& t.dht_routing_refresh_schedule_delay_micros_total == s.dht_routing_refresh_schedule_delay_micros_total + first + second
            &&& t.dht_routing_refresh_schedule_delay_micros_max == max_u128(max_u128(s.dht_routing_refresh_schedule_delay_micros_max, first), second)
            &&& t.last_dht_routing_refresh_schedule_delay_micros == Some(second)
            &&& t == (ControlRuntimeStats {
                dht_routing_refresh_schedule_delay_micros_total: t.dht_routing_refresh_schedule_delay_micros_total,
                dht_routing_refresh_schedule_delay_micros_max: t.dht_routing_refresh_schedule_delay_micros_max,
                last_dht_routing_refresh_schedule_delay_micros: t.last_dht_routing_refresh_schedule_delay_micros,
                ..s
            })
        }),
{
}

impl ControlRuntimeStats {
    /// Counters of a runtime started at `started_at`, all zero.
    pub fn new(started_at: u64) -> (r: Self)
        ensures
            r.started_at == started_at,
            r.is_zero(),
            r.wf(),
    {
        ControlRuntimeStats {
            started_at,
            requests_total: 0,
            responses_2xx: 0,
            responses_4xx: 0,
            responses_5xx: 0,
            cors_rejected: 0,
            unauthorized: 0,
            rate_limited: 0,
            bad_requests: 0,
            sync_snapshot_exports: 0,
            sync_snapshot_export_bytes: 0,
            sync_snapshot_imports: 0,
            sync_snapshot_import_bytes: 0,
            dht_replication_runs: 0,
            dht_replication_records: 0,
            dht_replication_attempts: 0,
            dht_replication_successes: 0,
            dht_replication_failures: 0,
            dht_replication_peers_quarantined: 0,
            last_dht_replication_at: None,
            dht_routing_refresh_runs: 0,
            dht_routing_refresh_targets: 0,
            dht_routing_refresh_attempts: 0,
            dht_routing_refresh_successes: 0,
            dht_routing_refresh_failures: 0,
            dht_routing_refresh_nodes_returned: 0,
            dht_routing_refresh_nodes_merged: 0,
            dht_routing_refresh_nodes_rejected_non_closer: 0,
            dht_routing_refresh_nodes_rejected_duplicate: 0,
            dht_routing_refresh_peers_quarantined: 0,
            last_dht_routing_refresh_at: None,
            dht_find_value_runs: 0,
            dht_find_value_attempts: 0,
            dht_find_value_successes: 0,
            dht_find_value_failures: 0,
            dht_find_value_found_records: 0,
            dht_find_value_closer_records: 0,
            dht_find_value_closer_nodes_returned: 0,
            dht_find_value_closer_nodes_merged: 0,
            dht_find_value_closer_nodes_rejected_non_closer: 0,
            dht_find_value_closer_nodes_rejected_duplicate: 0,
            dht_find_value_peers_quarantined: 0,
            dht_find_value_query_rounds: 0,
            dht_find_value_alpha_max: 0,
            dht_find_value_exhausted: 0,
            last_dht_find_value_at: None,
            sync_schedule_delay_micros_total: 0,
            sync_schedule_delay_micros_max: 0,
            last_sync_schedule_delay_micros: None,
            dht_replication_schedule_delay_micros_total: 0,
            dht_replication_schedule_delay_micros_max: 0,
            last_dht_replication_schedule_delay_micros: None,
            dht_routing_refresh_schedule_delay_micros_total: 0,
            dht_routing_refresh_schedule_delay_micros_max: 0,
            last_dht_routing_refresh_schedule_delay_micros: None,
            endpoints: Vec::new(),
        }
    }

    /// Each endpoint has one entry at most in the endpoint table.
    pub open spec fn wf(&self) -> bool {
        endpoint_keys_unique(self.endpoints@)
    }

    /// Every counter is zero, no run has happened and no endpoint has been seen.
    pub open spec fn is_zero(&self) -> bool {
        &&& self.requests_total == 0
        &&& self.responses_2xx == 0
        &&& self.responses_4xx == 0
        &&& self.responses_5xx == 0
        &&& self.cors_rejected == 0
        &&& self.unauthorized == 0
        &&& self.rate_limited == 0
        &&& self.bad_requests == 0
        &&& self.sync_snapshot_exports == 0
        &&& self.sync_snapshot_export_bytes == 0
        &&& self.sync_snapshot_imports == 0
        &&& self.sync_snapshot_import_bytes == 0
        &&& self.dht_replication_runs == 0
        &&& self.dht_replication_records == 0
        &&& self.dht_replication_attempts == 0
        &&& self.dht_replication_successes == 0
        &&& self.dht_replication_failures == 0
        &&& self.dht_replication_peers_quarantined == 0
        &&& self.last_dht_replication_at is None
        &&& self.dht_routing_refresh_runs == 0
        &&& self.dht_routing_refresh_targets == 0
        &&& self.dht_routing_refresh_attempts == 0
        &&& self.dht_routing_refresh_successes == 0
        &&& self.dht_routing_refresh_failures == 0
        &&& self.dht_routing_refresh_nodes_returned == 0
        &&& self.dht_routing_refresh_nodes_merged == 0
        &&& self.dht_routing_refresh_nodes_rejected_non_closer == 0
        &&& self.dht_routing_refresh_nodes_rejected_duplicate == 0
        &&& self.dht_routing_refresh_peers_quarantined == 0
        &&& self.last_dht_routing_refresh_at is None
        &&& self.dht_find_value_runs == 0
        &&& self.dht_find_value_attempts == 0
        &&& self.dht_find_value_successes == 0
        &&& self.dht_find_value_failures == 0
        &&& self.dht_find_value_found_records == 0
        &&& self.dht_find_value_closer_records == 0
        &&& self.dht_find_value_closer_nodes_returned == 0
        &&& self.dht_find_value_closer_nodes_merged == 0
        &&& self.dht_find_value_closer_nodes_rejected_non_closer == 0
        &&& self.dht_find_value_closer_nodes_rejected_duplicate == 0
        &&& self.dht_find_value_peers_quarantined == 0
        &&& self.dht_find_value_query_rounds == 0
        &&& self.dht_find_value_alpha_max == 0
        &&& self.dht_find_value_exhausted == 0
        &&& self.last_dht_find_value_at is None
        &&& self.sync_schedule_delay_micros_total == 0
        &&& self.sync_schedule_delay_micros_max == 0
        &&& self.last_sync_schedule_delay_micros is None
        &&& self.dht_replication_schedule_delay_micros_total == 0
        &&& self.dht_replication_schedule_delay_micros_max == 0
        &&& self.last_dht_replication_schedule_delay_micros is None
        &&& self.dht_routing_refresh_schedule_delay_micros_total == 0
        &&& self.dht_routing_refresh_schedule_delay_micros_max == 0
        &&& self.last_dht_routing_refresh_schedule_delay_micros is None
        &&& self.endpoints@.len() == 0
    }
}

} // verus!

verus! {

impl ControlRuntimeStats {
    /// Counts one control response: its status class, the security event it stands for
    /// (400, 401, 403, 429) and its endpoint's counters.
    pub fn record_response(&mut self, endpoint: &str, status: u16, duration_micros: u128)
        ensures
            final(self).requests_total == old(self).requests_total.saturating_add(1),
            final(self).responses_2xx == if 200 <= status <= 299 {
                old(self).responses_2xx.saturating_add(1)
            } else {
                old(self).responses_2xx
            },
            final(self).responses_4xx == if 400 <= status <= 499 {
                old(self).responses_4xx.saturating_add(1)
            } else {
                old(self).responses_4xx
            },
            final(self).responses_5xx == if 500 <= status <= 599 {
                old(self).responses_5xx.saturating_add(1)
            } else {
                old(self).responses_5xx
            },
            final(self).bad_requests == if status == 400 {
                old(self).bad_requests.saturating_add(1)
            } else {
                old(self).bad_requests
            },
            final(self).unauthorized == if status == 401 {
                old(self).unauthorized.saturating_add(1)
            } else {
                old(self).unauthorized
            },
            final(self).cors_rejected == if status == 403 {
                old(self).cors_rejected.saturating_add(1)
            } else {
                old(self).cors_rejected
            },
            final(self).rate_limited == if status == 429 {
                old(self).rate_limited.saturating_add(1)
            } else {
                old(self).rate_limited
            },
            endpoints_updated(old(self).endpoints@, final(self).endpoints@, endpoint@, status, duration_micros),
            old(self).wf() ==> final(self).wf(),
            old(self).requests_total < u64::MAX && old(self).responses_2xx + old(self).responses_4xx + old(self).responses_5xx <= old(self).requests_total
                ==> final(self).responses_2xx + final(self).responses_4xx + final(self).responses_5xx <= final(self).requests_total,
            old(self).responses_4xx < u64::MAX && old(self).bad_requests + old(self).unauthorized + old(self).cors_rejected + old(self).rate_limited <= old(self).responses_4xx
                ==> final(self).bad_requests + final(self).unauthorized + final(self).cors_rejected + final(self).rate_limited <= final(self).responses_4xx,
            *final(self) == (ControlRuntimeStats {
                requests_total: final(self).requests_total,
                responses_2xx: final(self).responses_2xx,
                responses_4xx: final(self).responses_4xx,
                responses_5xx: final(self).responses_5xx,
                bad_requests: final(self).bad_requests,
                unauthorized: final(self).unauthorized,
                cors_rejected: final(self).cors_rejected,
                rate_limited: final(self).rate_limited,
                endpoints: final(self).endpoints,
                ..*old(self)
            }),
    {
        self.requests_total = self.requests_total.saturating_add(1);
        if 200 <= status && status <= 299 {
            self.responses_2xx = self.responses_2xx.saturating_add(1);
        } else if 400 <= status && status <= 499 {
            self.responses_4xx = self.responses_4xx.saturating_add(1);
        } else if 500 <= status && status <= 599 {
            self.responses_5xx = self.responses_5xx.saturating_add(1);
        }
        if status == 400 {
            self.bad_requests = self.bad_requests.saturating_add(1);
        } else if status == 401 {
            self.unauthorized = self.unauthorized.saturating_add(1);
        } else if status == 403 {
            self.cors_rejected = self.cors_rejected.saturating_add(1);
        } else if status == 429 {
            self.rate_limited = self.rate_limited.saturating_add(1);
        }
        let key = chars_of(endpoint);
        let ghost mid = *self;
        let mut i: usize = 0;
        #[verifier::loop_isolation(false)]
        while i < self.endpoints.len()
            invariant
                *self == mid,
                i <= self.endpoints@.len(),
                key@ == endpoint@,
                forall|j: int| 0 <= j < i ==> self.endpoints@[j].0@ != endpoint@,
            decreases self.endpoints@.len() - i,
        {
            let k = chars_of(self.endpoints[i].0.as_str());
            if crate::text::chars_equal(k.as_slice(), key.as_slice()) {
                proof {
                    lemma_endpoint_index(self.endpoints@, endpoint@, i as int);
                }
                let ghost before = self.endpoints@;
                let name = self.endpoints[i].0.clone();
                let mut st = self.endpoints[i].1.copy();
                st.record(status, duration_micros);
                self.endpoints.set(i, (name, st));
                assert(self.endpoints@ =~= before.update(
                    i as int,
                    (before[i as int].0, endpoint_after(before[i as int].1, status, duration_micros)),
                ));
                assert(forall|j: int| 0 <= j < before.len() ==> #[trigger] self.endpoints@[j].0@ == before[j].0@);
                return;
            }
            i += 1;
        }
        let mut stats = ControlEndpointStats::new();
        stats.record(status, duration_micros);
        let name = crate::text::string_from_chars(key.as_slice());
        let ghost before = self.endpoints@;
        self.endpoints.push((name, stats));
        assert(self.endpoints@.take(before.len() as int) =~= before);
        assert(forall|j: int| 0 <= j < before.len() ==> #[trigger] self.endpoints@[j].0@ == before[j].0@);
    }
}

} // verus!

verus! {

/// The larger of two counts.
pub open spec fn max_usize(a: usize, b: usize) -> usize {
    if b > a {
        b
    } else {
        a
    }
}

impl ControlRuntimeStats {
    /// Adds a replication run's counters and stamps its finishing time.
    pub fn record_dht_replication_run(&mut self, stats: DhtReplicationRunStats, finished_at: u64)
        ensures
            *final(self) == (ControlRuntimeStats {
                dht_replication_runs: old(self).dht_replication_runs.saturating_add(1),
                dht_replication_records: add_count(old(self).dht_replication_records, stats.records),
                dht_replication_attempts: add_count(old(self).dht_replication_attempts, stats.attempts),
                dht_replication_successes: add_count(old(self).dht_replication_successes, stats.successes),
                dht_replication_failures: add_count(old(self).dht_replication_failures, stats.failures),
                dht_replication_peers_quarantined: add_count(
                    old(self).dht_replication_peers_quarantined,
                    stats.peers_quarantined,
                ),
                last_dht_replication_at: Some(finished_at),
                ..*old(self)
            }),
    {
        self.dht_replication_runs = self.dht_replication_runs.saturating_add(1);
        self.dht_replication_records = add_count_exec(self.dht_replication_records, stats.records);
        self.dht_replication_attempts = add_count_exec(self.dht_replication_attempts, stats.attempts);
        self.dht_replication_successes = add_count_exec(self.dht_replication_successes, stats.successes);
        self.dht_replication_failures = add_count_exec(self.dht_replication_failures, stats.failures);
        self.dht_replication_peers_quarantined = add_count_exec(
            self.dht_replication_peers_quarantined,
            stats.peers_quarantined,
        );
        self.last_dht_replication_at = Some(finished_at);
    }

    /// Adds a routing refresh run's counters and stamps its finishing time.
    pub fn record_dht_routing_refresh_run(&mut self, stats: DhtRoutingRefreshRunStats, finished_at: u64)
        ensures
            *final(self) == (ControlRuntimeStats {
                dht_routing_refresh_runs: old(self).dht_routing_refresh_runs.saturating_add(1),
                dht_routing_refresh_targets: add_count(old(self).dht_routing_refresh_targets, stats.targets),
                dht_routing_refresh_attempts: add_count(old(self).dht_routing_refresh_attempts, stats.attempts),
                dht_routing_refresh_successes: add_count(old(self).dht_routing_refresh_successes, stats.successes),
                dht_routing_refresh_failures: add_count(old(self).dht_routing_refresh_failures, stats.failures),
                dht_routing_refresh_nodes_returned: add_count(
                    old(self).dht_routing_refresh_nodes_returned,
                    stats.nodes_returned,
                ),
                dht_routing_refresh_nodes_merged: add_count(
                    old(self).dht_routing_refresh_nodes_merged,
                    stats.nodes_merged,
                ),
                dht_routing_refresh_nodes_rejected_non_closer: add_count(
                    old(self).dht_routing_refresh_nodes_rejected_non_closer,
                    stats.nodes_rejected_non_closer,
                ),
                dht_routing_refresh_nodes_rejected_duplicate: add_count(
                    old(self).dht_routing_refresh_nodes_rejected_duplicate,
                    stats.nodes_rejected_duplicate,
                ),
                dht_routing_refresh_peers_quarantined: add_count(
                    old(self).dht_routing_refresh_peers_quarantined,
                    stats.peers_quarantined,
                ),
                last_dht_routing_refresh_at: Some(finished_at),
                ..*old(self)
            }),
    {
        self.dht_routing_refresh_runs = self.dht_routing_refresh_runs.saturating_add(1);
        self.dht_routing_refresh_targets = add_count_exec(self.dht_routing_refresh_targets, stats.targets);
        self.dht_routing_refresh_attempts = add_count_exec(self.dht_routing_refresh_attempts, stats.attempts);
        self.dht_routing_refresh_successes = add_count_exec(self.dht_routing_refresh_successes, stats.successes);
        self.dht_routing_refresh_failures = add_count_exec(self.dht_routing_refresh_failures, stats.failures);
        self.dht_routing_refresh_nodes_returned = add_count_exec(
            self.dht_routing_refresh_nodes_returned,
            stats.nodes_returned,
        );
        self.dht_routing_refresh_nodes_merged = add_count_exec(
            self.dht_routing_refresh_nodes_merged,
            stats.nodes_merged,
        );
        self.dht_routing_refresh_nodes_rejected_non_closer = add_count_exec(
            self.dht_routing_refresh_nodes_rejected_non_closer,
            stats.nodes_rejected_non_closer,
        );
        self.dht_routing_refresh_nodes_rejected_duplicate = add_count_exec(
            self.dht_routing_refresh_nodes_rejected_duplicate,
            stats.nodes_rejected_duplicate,
        );
        self.dht_routing_refresh_peers_quarantined = add_count_exec(
            self.dht_routing_refresh_peers_quarantined,
            stats.peers_quarantined,
        );
        self.last_dht_routing_refresh_at = Some(finished_at);
    }

    /// Adds a FindValue run's counters, keeps the largest parallelism seen, counts
    /// exhausted runs and stamps the finishing time.
    pub fn record_dht_find_value_run(&mut self, stats: DhtFindValueRunStats, finished_at: u64)
        ensures
            *final(self) == (ControlRuntimeStats {
                dht_find_value_runs: old(self).dht_find_value_runs.saturating_add(1),
                dht_find_value_attempts: add_count(old(self).dht_find_value_attempts, stats.attempts),
                dht_find_value_successes: add_count(old(self).dht_find_value_successes, stats.successes),
                dht_find_value_failures: add_count(old(self).dht_find_value_failures, stats.failures),
                dht_find_value_found_records: add_count(old(self).dht_find_value_found_records, stats.found_records),
                dht_find_value_closer_records: add_count(old(self).dht_find_value_closer_records, stats.closer_records),
                dht_find_value_closer_nodes_returned: add_count(
                    old(self).dht_find_value_closer_nodes_returned,
                    stats.closer_nodes_returned,
                ),
                dht_find_value_closer_nodes_merged: add_count(
                    old(self).dht_find_value_closer_nodes_merged,
                    stats.closer_nodes_merged,
                ),
                dht_find_value_closer_nodes_rejected_non_closer: add_count(
                    old(self).dht_find_value_closer_nodes_rejected_non_closer,
                    stats.closer_nodes_rejected_non_closer,
                ),
                dht_find_value_closer_nodes_rejected_duplicate: add_count(
                    old(self).dht_find_value_closer_nodes_rejected_duplicate,
                    stats.closer_nodes_rejected_duplicate,
                ),
                dht_find_value_peers_quarantined: add_count(
                    old(self).dht_find_value_peers_quarantined,
                    stats.peers_quarantined,
                ),
                dht_find_value_query_rounds: add_count(old(self).dht_find_value_query_rounds, stats.query_rounds),
                dht_find_value_alpha_max: max_usize(old(self).dht_find_value_alpha_max, stats.alpha),
                dht_find_value_exhausted: if stats.exhausted {
                    old(self).dht_find_value_exhausted.saturating_add(1)
                } else {
                    old(self).dht_find_value_exhausted
                },
                last_dht_find_value_at: Some(finished_at),
                ..*old(self)
            }),
    {
        self.dht_find_value_runs = self.dht_find_value_runs.saturating_add(1);
        self.dht_find_value_attempts = add_count_exec(self.dht_find_value_attempts, stats.attempts);
        self.dht_find_value_successes = add_count_exec(self.dht_find_value_successes, stats.successes);
        self.dht_find_value_failures = add_count_exec(self.dht_find_value_failures, stats.failures);
        self.dht_find_value_found_records = add_count_exec(self.dht_find_value_found_records, stats.found_records);
        self.dht_find_value_closer_records = add_count_exec(self.dht_find_value_closer_records, stats.closer_records);
        self.dht_find_value_closer_nodes_returned = add_count_exec(
            self.dht_find_value_closer_nodes_returned,
            stats.closer_nodes_returned,
        );
        self.dht_find_value_closer_nodes_merged = add_count_exec(
            self.dht_find_value_closer_nodes_merged,
            stats.closer_nodes_merged,
        );
        self.dht_find_value_closer_nodes_rejected_non_closer = add_count_exec(
            self.dht_find_value_closer_nodes_rejected_non_closer,
            stats.closer_nodes_rejected_non_closer,
        );
        self.dht_find_value_closer_nodes_rejected_duplicate = add_count_exec(
            self.dht_find_value_closer_nodes_rejected_duplicate,
            stats.closer_nodes_rejected_duplicate,
        );
        self.dht_find_value_peers_quarantined = add_count_exec(
            self.dht_find_value_peers_quarantined,
            stats.peers_quarantined,
        );
        self.dht_find_value_query_rounds = add_count_exec(self.dht_find_value_query_rounds, stats.query_rounds);
        if stats.alpha > self.dht_find_value_alpha_max {
            self.dht_find_value_alpha_max = stats.alpha;
        }
        if stats.exhausted {
            self.dht_find_value_exhausted = self.dht_find_value_exhausted.saturating_add(1);
        }
        self.last_dht_find_value_at = Some(finished_at);
    }

    /// Adds how late a snapshot sync started.
    pub fn record_sync_schedule_delay(&mut self, delay_micros: u128)
        ensures
            *final(self) == sync_delay_after(*old(self), delay_micros),
    {
        self.sync_schedule_delay_micros_total = self.sync_schedule_delay_micros_total.saturating_add(delay_micros);
        if delay_micros > self.sync_schedule_delay_micros_max {
            self.sync_schedule_delay_micros_max = delay_micros;
        }
        self.last_sync_schedule_delay_micros = Some(delay_micros);
    }

    /// Adds how late a DHT replication run started.
    pub fn record_dht_replication_schedule_delay(&mut self, delay_micros: u128)
        ensures
            *final(self) == dht_replication_delay_after(*old(self), delay_micros),
    {
        self.dht_replication_schedule_delay_micros_total = self.dht_replication_schedule_delay_micros_total.saturating_add(delay_micros);
        if delay_micros > self.dht_replication_schedule_delay_micros_max {
            self.dht_replication_schedule_delay_micros_max = delay_micros;
        }
        self.last_dht_replication_schedule_delay_micros = Some(delay_micros);
    }

    /// Adds how late a DHT routing refresh run started.
    pub fn record_dht_routing_refresh_schedule_delay(&mut self, delay_micros: u128)
        ensures
            *final(self) == dht_routing_refresh_delay_after(*old(self), delay_micros),
    {
        self.dht_routing_refresh_schedule_delay_micros_total = self.dht_routing_refresh_schedule_delay_micros_total.saturating_add(delay_micros);
        if delay_micros > self.dht_routing_refresh_schedule_delay_micros_max {
            self.dht_routing_refresh_schedule_delay_micros_max = delay_micros;
        }
        self.last_dht_routing_refresh_schedule_delay_micros = Some(delay_micros);
    }

    /// Counts a successful snapshot export (`GET /sync/snapshot`, response bytes) or import
    /// (`POST /sync/import`, request bytes); an export is also counted under `/api/`
    /// (`GET /api/sync/snapshot`); other endpoints and non-2xx statuses are ignored.
    pub fn record_sync_snapshot_bytes(
        &mut self,
        endpoint: &str,
        status: u16,
        request_body_bytes: usize,
        response_body_bytes: usize,
    )
        ensures
            *final(self) == if !(200 <= status <= 299) {
                *old(self)
            } else if endpoint@ == "GET /sync/snapshot"@ || endpoint@ == "GET /api/sync/snapshot"@ {
                ControlRuntimeStats {
                    sync_snapshot_exports: old(self).sync_snapshot_exports.saturating_add(1),
                    sync_snapshot_export_bytes: add_count(old(self).sync_snapshot_export_bytes, response_body_bytes),
                    ..*old(self)
                }
            } else if endpoint@ == "POST /sync/import"@ {
                ControlRuntimeStats {
                    sync_snapshot_imports: old(self).sync_snapshot_imports.saturating_add(1),
                    sync_snapshot_import_bytes: add_count(old(self).sync_snapshot_import_bytes, request_body_bytes),
                    ..*old(self)
                }
            } else {
                *old(self)
            },
    {
        if !(200 <= status && status <= 299) {
            return;
        }
        let e = chars_of(endpoint);
        if crate::text::chars_equal_str(e.as_slice(), "GET /sync/snapshot")
            || crate::text::chars_equal_str(e.as_slice(), "GET /api/sync/snapshot") {
            self.sync_snapshot_exports = self.sync_snapshot_exports.saturating_add(1);
            self.sync_snapshot_export_bytes = add_count_exec(self.sync_snapshot_export_bytes, response_body_bytes);
        } else if crate::text::chars_equal_str(e.as_slice(), "POST /sync/import") {
            self.sync_snapshot_imports = self.sync_snapshot_imports.saturating_add(1);
            self.sync_snapshot_import_bytes = add_count_exec(self.sync_snapshot_import_bytes, request_body_bytes);
        }
    }
}

} // verus!

verus! {

/// A label value escaped for OpenMetrics: backslash, newline and double quote are
/// written as `\\`, `\n` and `\"`.
pub open spec fn escape_char(c: char) -> Seq<char> {
    if c == '\\' {
        seq!['\\', '\\']
    } else if c == '\n' {
        seq!['\\', 'n']
    } else if c == '"' {
        seq!['\\', '"']
    } else {
        seq![c]
    }
}

/// A label value escaped for OpenMetrics.
pub open spec fn escape_label(s: Seq<char>) -> Seq<char>
    decreases s.len(),
{
    if s.len() == 0 {
        Seq::empty()
    } else {
        escape_label(s.drop_last()) + escape_char(s.last())
    }
}

fn push_escaped(out: &mut String, value: &str)
    ensures
        final(out)@ == old(out)@ + escape_label(value@),
{
    let v = chars_of(value);
    let ghost start = out@;
    let mut i: usize = 0;
    assert(v@.take(0) =~= Seq::<char>::empty());
    while i < v.len()
        invariant
            i <= v@.len(),
            v@ == value@,
            out@ == start + escape_label(v@.take(i as int)),
        decreases v@.len() - i,
    {
        let c = v[i];
        assert(v@.take(i as int + 1).drop_last() =~= v@.take(i as int));
        if c == '\\' {
            push_char(out, '\\');
            push_char(out, '\\');
        } else if c == '\n' {
            push_char(out, '\\');
            push_char(out, 'n');
        } else if c == '"' {
            push_char(out, '\\');
            push_char(out, '"');
        } else {
            push_char(out, c);
        }
        assert(out@ =~= start + escape_label(v@.take(i as int + 1)));
        i += 1;
    }
    assert(v@.take(v@.len() as int) =~= v@);
}

/// An escaped label value holds no newline, so it never breaks an exposition line.
pub proof fn lemma_escaped_label_is_one_line(s: Seq<char>)
    ensures
        !escape_label(s).contains('\n'),
    decreases s.len(),
{
    if s.len() > 0 {
        lemma_escaped_label_is_one_line(s.drop_last());
        let p = escape_label(s.drop_last());
        let e = escape_char(s.last());
        assert forall|i: int| 0 <= i < (p + e).len() implies (p + e)[i] != '\n' by {
            if i < p.len() {
                assert((p + e)[i] == p[i]);
            } else {
                assert((p + e)[i] == e[i - p.len()]);
            }
        }
    }
}

/// A label value without backslash, newline or double quote is written unchanged.
pub proof fn lemma_plain_label_unchanged(s: Seq<char>)
    requires
        forall|i: int| 0 <= i < s.len() ==> s[i] != '\\' && s[i] != '\n' && s[i] != '"',
    ensures
        escape_label(s) == s,
    decreases s.len(),
{
    if s.len() > 0 {
        lemma_plain_label_unchanged(s.drop_last());
        assert(s.drop_last().push(s.last()) =~= s);
    }
}

/// Escapes a label value for OpenMetrics.
pub fn escape_openmetrics_label(value: &str) -> (r: String)
    ensures
        r@ == escape_label(value@),
{
    let mut out = String::new();
    push_escaped(&mut out, value);
    out
}

/// `# HELP <name> <help>` line.
pub open spec fn help_line(name: Seq<char>, help: Seq<char>) -> Seq<char> {
    "# HELP "@ + name + " "@ + help + "\n"@
}

/// `# TYPE <name> <kind>` line.
pub open spec fn type_line(name: Seq<char>, kind: Seq<char>) -> Seq<char> {
    "# TYPE "@ + name + " "@ + kind + "\n"@
}

/// `<name> <value>` sample line.
pub open spec fn value_line(name: Seq<char>, value: nat) -> Seq<char> {
    name + " "@ + decimal(value) + "\n"@
}

/// `<name>{<label>="<value>"} <value>` sample line.
pub open spec fn labeled_line(name: Seq<char>, label: Seq<char>, label_value: Seq<char>, value: nat) -> Seq<char> {
    name + "{"@ + label + "=\""@ + escape_label(label_value) + "\"} "@ + decimal(value) + "\n"@
}

/// `<name>{endpoint="<endpoint>",class="<class>"} <value>` sample line.
pub open spec fn endpoint_line(name: Seq<char>, endpoint: Seq<char>, class: Seq<char>, value: nat) -> Seq<char> {
    name + "{endpoint=\""@ + escape_label(endpoint) + "\",class=\""@ + escape_label(class) + "\"} "@
        + decimal(value) + "\n"@
}

/// Appends a `# HELP` line.
pub fn push_metric_help(out: &mut String, name: &str, help: &str)
    ensures
        final(out)@ == old(out)@ + help_line(name@, help@),
{
    let ghost start = out@;
    push_str(out, "# HELP ");
    push_str(out, name);
    push_char(out, ' ');
    push_str(out, help);
    push_char(out, '\n');
    proof {
        reveal_strlit(" ");
        reveal_strlit("\n");
    }
    assert(out@ =~= start + help_line(name@, help@));
}

/// Appends a `# TYPE` line.
pub fn push_metric_type(out: &mut String, name: &str, kind: &str)
    ensures
        final(out)@ == old(out)@ + type_line(name@, kind@),
{
    let ghost start = out@;
    push_str(out, "# TYPE ");
    push_str(out, name);
    push_char(out, ' ');
    push_str(out, kind);
    push_char(out, '\n');
    proof {
        reveal_strlit(" ");
        reveal_strlit("\n");
    }
    assert(out@ =~= start + type_line(name@, kind@));
}

/// Appends an unlabeled sample line.
pub fn push_metric_value(out: &mut String, name: &str, value: u128)
    ensures
        final(out)@ == old(out)@ + value_line(name@, value as nat),
{
    let ghost start = out@;
    push_str(out, name);
    push_char(out, ' ');
    push_decimal(out, value);
    push_char(out, '\n');
    proof {
        reveal_strlit(" ");
        reveal_strlit("\n");
    }
    assert(out@ =~= start + value_line(name@, value as nat));
}

/// Appends a sample line with one label.
pub fn push_labeled_metric_value(out: &mut String, name: &str, label_name: &str, label_value: &str, value: u128)
    ensures
        final(out)@ == old(out)@ + labeled_line(name@, label_name@, label_value@, value as nat),
{
    let ghost start = out@;
    push_str(out, name);
    push_char(out, '{');
    push_str(out, label_name);
    push_str(out, "=\"");
    push_escaped(out, label_value);
    push_str(out, "\"} ");
    push_decimal(out, value);
    push_char(out, '\n');
    proof {
        reveal_strlit("{");
        reveal_strlit("\n");
    }
    assert(out@ =~= start + labeled_line(name@, label_name@, label_value@, value as nat));
}

/// Appends a sample line labelled with an endpoint and a status class.
pub fn push_endpoint_metric_value(out: &mut String, name: &str, endpoint: &str, class: &str, value: u128)
    ensures
        final(out)@ == old(out)@ + endpoint_line(name@, endpoint@, class@, value as nat),
{
    let ghost start = out@;
    push_str(out, name);
    push_str(out, "{endpoint=\"");
    push_escaped(out, endpoint);
    push_str(out, "\",class=\"");
    push_escaped(out, class);
    push_str(out, "\"} ");
    push_decimal(out, value);
    push_char(out, '\n');
    proof {
        reveal_strlit("\n");
    }
    assert(out@ =~= start + endpoint_line(name@, endpoint@, class@, value as nat));
}

} // verus!
