//! Per-client request budgets of the control server.
use vstd::prelude::*;
use crate::config::{limit_enabled, RateLimitConfig};
use crate::http::ControlRequest;
use crate::security::{health_probe, is_health_probe};

verus! {

/// A client address as the limiter keys it: the address family (4 or 6) and its bits.
pub type ClientKey = (u8, u128);

/// One client's budget: when its window began (nanoseconds on the server's monotonic
/// clock) and how many requests it has made in it.
#[derive(Debug, Clone, Copy, PartialEq, Eq, Structural)]
pub struct RateLimitEntry {
    pub window_started_at: u128,
    pub count: u32,
}

/// The budgets of the clients seen lately, one entry per client.
#[derive(Debug, Clone)]
pub struct RateLimiter {
    entries: Vec<(ClientKey, RateLimitEntry)>,
}

/// The budgets as a map from client to entry (the last entry of a key wins).
pub open spec fn entries_map(s: Seq<(ClientKey, RateLimitEntry)>) -> Map<ClientKey, RateLimitEntry>
    decreases s.len(),
{
    if s.len() == 0 {
        Map::empty()
    } else {
        entries_map(s.drop_last()).insert(s.last().0, s.last().1)
    }
}

/// No client has two entries.
pub open spec fn unique_keys(s: Seq<(ClientKey, RateLimitEntry)>) -> bool {
    forall|i: int, j: int| 0 <= i < j < s.len() ==> (#[trigger] s[i]).0 != (#[trigger] s[j]).0
}

/// Nanoseconds elapsed from `start` to `now`, zero where `now` is earlier.
pub open spec fn elapsed(now: u128, start: u128) -> nat {
    if now >= start { (now - start) as nat } else { 0 }
}

/// Nanoseconds in `seconds` seconds.
pub open spec fn seconds_nanos(seconds: u64) -> nat {
    seconds as nat * 1_000_000_000
}

/// The entry a request from a client with entry `e` (if any) leaves at `now`: a new
/// window where none was open or the open one has run `window_seconds`; then one more
/// request counted where the budget allows.
pub open spec fn entry_after_check(e: Option<RateLimitEntry>, now: u128, config: RateLimitConfig) -> RateLimitEntry {
    let start = match e {
        Some(x) => x,
        None => RateLimitEntry { window_started_at: now, count: 0 },
    };
    let open = if elapsed(now, start.window_started_at) >= seconds_nanos(config.window_seconds) {
        RateLimitEntry { window_started_at: now, count: 0 }
    } else {
        start
    };
    if open.count >= config.max_requests {
        open
    } else {
        RateLimitEntry { count: (open.count + 1) as u32, ..open }
    }
}

/// Whether that request is within the budget.
pub open spec fn check_allows(e: Option<RateLimitEntry>, now: u128, config: RateLimitConfig) -> bool {
    let start = match e {
        Some(x) => x,
        None => RateLimitEntry { window_started_at: now, count: 0 },
    };
    let count = if elapsed(now, start.window_started_at) >= seconds_nanos(config.window_seconds) { 0 } else { start.count };
    count < config.max_requests
}

proof fn lemma_entries_map_index(s: Seq<(ClientKey, RateLimitEntry)>, k: ClientKey)
    requires
        unique_keys(s),
    ensures
        forall|i: int| 0 <= i < s.len() && (#[trigger] s[i]).0 == k ==> entries_map(s).dom().contains(k) && entries_map(s)[k] == s[i].1,
        (forall|i: int| 0 <= i < s.len() ==> (#[trigger] s[i]).0 != k) ==> !entries_map(s).dom().contains(k),
    decreases s.len(),
{
    if s.len() > 0 {
        let p = s.drop_last();
        assert(unique_keys(p)) by {
            assert forall|i: int, j: int| 0 <= i < j < p.len() implies (#[trigger] p[i]).0 != (#[trigger] p[j]).0 by {
                assert(p[i] == s[i] && p[j] == s[j]);
            }
        }
        lemma_entries_map_index(p, k);
        assert forall|i: int| 0 <= i < s.len() && (#[trigger] s[i]).0 == k implies entries_map(s).dom().contains(k) && entries_map(s)[k] == s[i].1 by {
            if i < s.len() - 1 {
                assert(p[i] == s[i]);
                assert(s[i].0 != s[s.len() - 1].0);
            }
        }
        if forall|i: int| 0 <= i < s.len() ==> (#[trigger] s[i]).0 != k {
            assert forall|i: int| 0 <= i < p.len() implies (#[trigger] p[i]).0 != k by {
                assert(p[i] == s[i]);
            }
            assert(s[s.len() - 1].0 != k);
        }
    }
}

proof fn lemma_entries_map_update(s: Seq<(ClientKey, RateLimitEntry)>, i: int, v: RateLimitEntry)
    requires
        unique_keys(s),
        0 <= i < s.len(),
    ensures
        unique_keys(s.update(i, (s[i].0, v))),
        entries_map(s.update(i, (s[i].0, v))) == entries_map(s).insert(s[i].0, v),
    decreases s.len(),
{
    let t = s.update(i, (s[i].0, v));
    assert(unique_keys(t)) by {
        assert forall|a: int, b: int| 0 <= a < b < t.len() implies (#[trigger] t[a]).0 != (#[trigger] t[b]).0 by {
            assert(t[a].0 == s[a].0 && t[b].0 == s[b].0);
        }
    }
    let p = s.drop_last();
    assert(unique_keys(p)) by {
        assert forall|a: int, b: int| 0 <= a < b < p.len() implies (#[trigger] p[a]).0 != (#[trigger] p[b]).0 by {
            assert(p[a] == s[a] && p[b] == s[b]);
        }
    }
    if i == s.len() - 1 {
        assert(t.drop_last() =~= p);
        assert(entries_map(t) =~= entries_map(s).insert(s[i].0, v));
    } else {
        lemma_entries_map_update(p, i, v);
        assert(t.drop_last() =~= p.update(i, (p[i].0, v)));
        assert(s[i].0 != s.last().0);
        assert(entries_map(t) =~= entries_map(s).insert(s[i].0, v));
    }
}

proof fn lemma_entries_map_len(s: Seq<(ClientKey, RateLimitEntry)>)
    requires
        unique_keys(s),
    ensures
        entries_map(s).dom().finite(),
        entries_map(s).dom().len() == s.len(),
    decreases s.len(),
{
    if s.len() > 0 {
        let p = s.drop_last();
        assert(unique_keys(p)) by {
            assert forall|i: int, j: int| 0 <= i < j < p.len() implies (#[trigger] p[i]).0 != (#[trigger] p[j]).0 by {
                assert(p[i] == s[i] && p[j] == s[j]);
            }
        }
        lemma_entries_map_len(p);
        lemma_entries_map_index(p, s.last().0);
        assert forall|i: int| 0 <= i < p.len() implies (#[trigger] p[i]).0 != s.last().0 by {
            assert(p[i] == s[i]);
        }
        assert(entries_map(s).dom() =~= entries_map(p).dom().insert(s.last().0));
    }
}

impl RateLimiter {
    /// The budgets by client.
    pub closed spec fn budgets(&self) -> Map<ClientKey, RateLimitEntry> {
        entries_map(self.entries@)
    }

    /// Each client has at most one entry.
    pub closed spec fn wf(&self) -> bool {
        unique_keys(self.entries@)
    }

    /// The budget of one client, if it has one.
    pub fn budget_of(&self, ip: ClientKey) -> (r: Option<RateLimitEntry>)
        requires
            self.wf(),
        ensures
            r == (if self.budgets().dom().contains(ip) { Some(self.budgets()[ip]) } else { None }),
    {
        proof { lemma_entries_map_index(self.entries@, ip); }
        let mut i: usize = 0;
        while i < self.entries.len()
            invariant
                self.wf(),
                i <= self.entries@.len(),
                forall|j: int| 0 <= j < i ==> (#[trigger] self.entries@[j]).0 != ip,
            decreases self.entries@.len() - i,
        {
            if self.entries[i].0.0 == ip.0 && self.entries[i].0.1 == ip.1 {
                assert(self.entries@[i as int].0 == ip);
                proof { lemma_entries_map_index(self.entries@, ip); }
                return Some(self.entries[i].1);
            }
            i += 1;
        }
        None
    }

    /// How many clients have a budget.
    pub fn client_count(&self) -> (r: usize)
        requires
            self.wf(),
        ensures
            self.budgets().dom().finite(),
            r == self.budgets().dom().len(),
    {
        proof { lemma_entries_map_len(self.entries@); }
        self.entries.len()
    }

    /// No client yet.    /// No client yet.
    pub fn new() -> (r: Self)
        ensures
            r.wf(),
            r.budgets() == Map::<ClientKey, RateLimitEntry>::empty(),
    {
        RateLimiter { entries: Vec::new() }
    }

    /// Counts a request from `ip` at `now` (nanoseconds) and says whether it is within the
    /// budget; with limiting off, every request is, and nothing is recorded.
    pub fn check(&mut self, ip: ClientKey, now: u128, config: RateLimitConfig) -> (r: bool)
        requires
            old(self).wf(),
        ensures
            final(self).wf(),
            !limit_enabled(config) ==> r && final(self).budgets() == old(self).budgets(),
            limit_enabled(config) ==> {
                let e = if old(self).budgets().dom().contains(ip) { Some(old(self).budgets()[ip]) } else { None };
                &&& r == check_allows(e, now, config)
                &&& final(self).budgets() == old(self).budgets().insert(ip, entry_after_check(e, now, config))
            },
    {
        if !config.is_enabled() {
            return true;
        }
        let ghost s = self.entries@;
        let mut i: usize = 0;
        while i < self.entries.len()
            invariant
                i <= self.entries@.len(),
                self.entries@ == s,
                forall|j: int| 0 <= j < i ==> (#[trigger] s[j]).0 != ip,
            ensures
                i <= s.len(),
                self.entries@ == s,
                forall|j: int| 0 <= j < i ==> (#[trigger] s[j]).0 != ip,
                i < s.len() ==> s[i as int].0 == ip,
            decreases self.entries@.len() - i,
        {
            if self.entries[i].0.0 == ip.0 && self.entries[i].0.1 == ip.1 {
                assert(s[i as int].0 == ip);
                break;
            }
            i += 1;
        }
        proof {
            lemma_entries_map_index(s, ip);
        }
        let found = i < self.entries.len();
        let start = if found {
            self.entries[i].1
        } else {
            RateLimitEntry { window_started_at: now, count: 0 }
        };
        let window: u128 = config.window_seconds as u128 * 1_000_000_000;
        let passed: u128 = if now >= start.window_started_at { now - start.window_started_at } else { 0 };
        let open = if passed >= window {
            RateLimitEntry { window_started_at: now, count: 0 }
        } else {
            start
        };
        let allowed = open.count < config.max_requests;
        let next = if allowed {
            RateLimitEntry { count: open.count + 1, ..open }
        } else {
            open
        };
        if found {
            proof {
                lemma_entries_map_update(s, i as int, next);
            }
            self.entries.set(i, (ip, next));
        } else {
            self.entries.push((ip, next));
            proof {
                assert(self.entries@.drop_last() =~= s);
                assert(unique_keys(self.entries@)) by {
                    assert forall|a: int, b: int| 0 <= a < b < self.entries@.len() implies (#[trigger] self.entries@[a]).0 != (#[trigger] self.entries@[b]).0 by {
                        if b < s.len() {
                            assert(self.entries@[a] == s[a] && self.entries@[b] == s[b]);
                        } else {
                            assert(self.entries@[a] == s[a]);
                        }
                    }
                }
            }
        }
        allowed
    }
}

/// How long an idle client's entry is kept: twice the window (saturating), at least one
/// second.
pub open spec fn prune_ttl_nanos(config: RateLimitConfig) -> nat {
    let doubled = if config.window_seconds as nat * 2 > u64::MAX { u64::MAX as nat } else { config.window_seconds as nat * 2 };
    let secs = if doubled < 1 { 1 } else { doubled };
    secs * 1_000_000_000
}

/// The entries kept by a prune at `now`.
pub open spec fn kept_entries(s: Seq<(ClientKey, RateLimitEntry)>, now: u128, ttl: nat) -> Seq<(ClientKey, RateLimitEntry)>
    decreases s.len(),
{
    if s.len() == 0 {
        s
    } else {
        let r = kept_entries(s.drop_last(), now, ttl);
        if elapsed(now, s.last().1.window_started_at) < ttl { r.push(s.last()) } else { r }
    }
}

proof fn lemma_kept_entries(s: Seq<(ClientKey, RateLimitEntry)>, now: u128, ttl: nat)
    requires
        unique_keys(s),
    ensures
        unique_keys(kept_entries(s, now, ttl)),
        entries_map(kept_entries(s, now, ttl)) == entries_map(s).restrict(
            entries_map(s).dom().filter(|k: ClientKey| elapsed(now, entries_map(s)[k].window_started_at) < ttl),
        ),
        forall|x: (ClientKey, RateLimitEntry)| kept_entries(s, now, ttl).contains(x) ==> s.contains(x),
    decreases s.len(),
{
    let r = kept_entries(s, now, ttl);
    if s.len() == 0 {
        assert(entries_map(r) =~= entries_map(s).restrict(entries_map(s).dom().filter(|k: ClientKey| elapsed(now, entries_map(s)[k].window_started_at) < ttl)));
    } else {
        let p = s.drop_last();
        assert(unique_keys(p)) by {
            assert forall|a: int, b: int| 0 <= a < b < p.len() implies (#[trigger] p[a]).0 != (#[trigger] p[b]).0 by {
                assert(p[a] == s[a] && p[b] == s[b]);
            }
        }
        lemma_kept_entries(p, now, ttl);
        let q = kept_entries(p, now, ttl);
        let last = s.last();
        assert forall|x: (ClientKey, RateLimitEntry)| r.contains(x) implies s.contains(x) by {
            if q.contains(x) {
                assert(p.contains(x));
                let m = choose|m: int| 0 <= m < p.len() && p[m] == x;
                assert(s[m] == x);
            } else {
                assert(x == last);
                assert(s[s.len() - 1] == x);
            }
        }
        assert forall|i: int| 0 <= i < q.len() implies (#[trigger] q[i]).0 != last.0 by {
            assert(q.contains(q[i]));
            assert(p.contains(q[i]));
            let m = choose|m: int| 0 <= m < p.len() && p[m] == q[i];
            assert(s[m] == q[i]);
        }
        lemma_entries_map_index(p, last.0);
        assert forall|i: int| 0 <= i < p.len() implies (#[trigger] p[i]).0 != last.0 by {
            assert(p[i] == s[i]);
            assert(s[s.len() - 1] == last);
        }
        assert(!entries_map(p).dom().contains(last.0));
        if elapsed(now, last.1.window_started_at) < ttl {
            assert(unique_keys(r)) by {
                assert forall|a: int, b: int| 0 <= a < b < r.len() implies (#[trigger] r[a]).0 != (#[trigger] r[b]).0 by {
                    if b < q.len() {
                        assert(r[a] == q[a] && r[b] == q[b]);
                    } else {
                        assert(r[a] == q[a]);
                    }
                }
            }
        }
        let ms = entries_map(s);
        let mp = entries_map(p);
        let target = ms.restrict(ms.dom().filter(|k: ClientKey| elapsed(now, ms[k].window_started_at) < ttl));
        let prev = mp.restrict(mp.dom().filter(|k: ClientKey| elapsed(now, mp[k].window_started_at) < ttl));
        assert(entries_map(q) == prev);
        assert(ms == mp.insert(last.0, last.1));
        let keep_last = elapsed(now, last.1.window_started_at) < ttl;
        if keep_last {
            assert(r == q.push(last));
            assert(q.push(last).drop_last() =~= q);
            assert(entries_map(r) == entries_map(q).insert(last.0, last.1));
        } else {
            assert(r == q);
        }
        assert(!prev.dom().contains(last.0));
        assert(ms[last.0] == last.1);
        assert(ms.dom().contains(last.0));
        assert(target.dom().contains(last.0) == keep_last);
        assert forall|k: ClientKey| #[trigger] entries_map(r).dom().contains(k) <==> target.dom().contains(k) by {
            if k != last.0 {
                assert(ms.dom().contains(k) <==> mp.dom().contains(k));
                if mp.dom().contains(k) {
                    assert(ms[k] == mp[k]);
                }
            }
        }
        assert forall|k: ClientKey| #[trigger] entries_map(r).dom().contains(k) implies entries_map(r)[k] == target[k] by {
            if k != last.0 {
                assert(ms[k] == mp[k]);
            }
        }
        assert(entries_map(r) =~= target);
    }
}

impl RateLimiter {
    /// Forgets the clients idle for longer than the prune time-to-live; with limiting off,
    /// forgets every client.
    pub fn prune(&mut self, now: u128, config: RateLimitConfig)
        requires
            old(self).wf(),
        ensures
            final(self).wf(),
            !limit_enabled(config) ==> final(self).budgets() == Map::<ClientKey, RateLimitEntry>::empty(),
            limit_enabled(config) ==> final(self).budgets() == old(self).budgets().restrict(
                old(self).budgets().dom().filter(|k: ClientKey| elapsed(now, old(self).budgets()[k].window_started_at) < prune_ttl_nanos(config)),
            ),
    {
        if !config.is_enabled() {
            self.entries = Vec::new();
            return;
        }
        let doubled: u64 = match config.window_seconds.checked_mul(2) {
            Some(d) => d,
            None => u64::MAX,
        };
        let secs: u64 = if doubled < 1 { 1 } else { doubled };
        let ttl: u128 = secs as u128 * 1_000_000_000;
        let ghost s = self.entries@;
        let mut kept: Vec<(ClientKey, RateLimitEntry)> = Vec::new();
        let mut i: usize = 0;
        while i < self.entries.len()
            invariant
                i <= s.len(),
                self.entries@ == s,
                ttl == prune_ttl_nanos(config),
                kept@ == kept_entries(s.take(i as int), now, ttl as nat),
            decreases s.len() - i,
        {
            assert(s.take(i as int + 1).drop_last() =~= s.take(i as int));
            assert(s.take(i as int + 1).last() == s[i as int]);
            let e = self.entries[i];
            let passed: u128 = if now >= e.1.window_started_at { now - e.1.window_started_at } else { 0 };
            if passed < ttl {
                kept.push(e);
            }
            i += 1;
        }
        assert(s.take(i as int) =~= s);
        proof {
            lemma_kept_entries(s, now, ttl as nat);
        }
        self.entries = kept;
    }
}

/// Counting a request never takes a client past its budget: where every client was within
/// `max_requests`, every client still is.
pub proof fn lemma_check_keeps_budget(budgets: Map<ClientKey, RateLimitEntry>, ip: ClientKey, now: u128, config: RateLimitConfig)
    requires
        forall|k: ClientKey| budgets.dom().contains(k) ==> budgets[k].count <= config.max_requests,
    ensures
        ({
            let e = if budgets.dom().contains(ip) { Some(budgets[ip]) } else { None };
            let after = budgets.insert(ip, entry_after_check(e, now, config));
            forall|k: ClientKey| after.dom().contains(k) ==> after[k].count <= config.max_requests
        }),
{
}

/// A refused request costs the client nothing and does not move its window: where the
/// open window (started `window_seconds` ago or less) has used up the budget, the check at
/// `refused_at` refuses and leaves the entry as it was; a later request, made once the
/// window has run `window_seconds` from its start, is allowed and opens a new window.
pub proof fn lemma_refused_request_keeps_window(
    e: RateLimitEntry,
    refused_at: u128,
    later: u128,
    config: RateLimitConfig,
)
    requires
        limit_enabled(config),
        e.window_started_at <= refused_at,
        (refused_at - e.window_started_at) < seconds_nanos(config.window_seconds),
        e.count >= config.max_requests,
        later >= e.window_started_at + seconds_nanos(config.window_seconds),
    ensures
        !check_allows(Some(e), refused_at, config),
        entry_after_check(Some(e), refused_at, config) == e,
        check_allows(Some(entry_after_check(Some(e), refused_at, config)), later, config),
        entry_after_check(Some(entry_after_check(Some(e), refused_at, config)), later, config)
            == (RateLimitEntry { window_started_at: later, count: 1 }),
{
}

/// An allowed request counts one more in its window and keeps the window's start; a
/// request that finds no open window (none yet, or one that has run `window_seconds`)
/// starts a new window at its own time.
pub proof fn lemma_allowed_request_counts_once(e: Option<RateLimitEntry>, now: u128, config: RateLimitConfig)
    requires
        limit_enabled(config),
    ensures
        ({
            let after = entry_after_check(e, now, config);
            let open = e matches Some(x) && x.window_started_at <= now
                && (now - x.window_started_at) < seconds_nanos(config.window_seconds);
            &&& open ==> after.window_started_at == e.unwrap().window_started_at
            &&& open && check_allows(e, now, config) ==> after.count == e.unwrap().count + 1
            &&& open && !check_allows(e, now, config) ==> after == e.unwrap()
            &&& !open && !(e matches Some(x) && now < x.window_started_at) ==> after == (RateLimitEntry { window_started_at: now, count: 1 }) && check_allows(e, now, config)
        }),
{
}

/// Whether a control request may proceed under the rate limit: health probes and requests
/// from an unknown client always may; otherwise the client's budget decides.
pub fn request_is_within_rate_limit(
    request: &ControlRequest,
    peer_ip: Option<ClientKey>,
    rate_limiter: &mut RateLimiter,
    rate_limit: RateLimitConfig,
    now: u128,
) -> (r: bool)
    requires
        old(rate_limiter).wf(),
    ensures
        final(rate_limiter).wf(),
        is_health_probe(request) || peer_ip is None ==> r && final(rate_limiter).budgets() == old(rate_limiter).budgets(),
        !is_health_probe(request) ==> (peer_ip matches Some(ip) ==> {
            &&& !limit_enabled(rate_limit) ==> r && final(rate_limiter).budgets() == old(rate_limiter).budgets()
            &&& limit_enabled(rate_limit) ==> {
                let e = if old(rate_limiter).budgets().dom().contains(ip) { Some(old(rate_limiter).budgets()[ip]) } else { None };
                &&& r == check_allows(e, now, rate_limit)
                &&& final(rate_limiter).budgets() == old(rate_limiter).budgets().insert(ip, entry_after_check(e, now, rate_limit))
            }
        }),
{
    if health_probe(request) {
        return true;
    }
    match peer_ip {
        None => true,
        Some(ip) => rate_limiter.check(ip, now, rate_limit),
    }
}

/// A sweep never forgets a client whose window is still open: entries are kept for twice
/// the window (at least a second).
pub proof fn lemma_prune_keeps_open_windows(budgets: Map<ClientKey, RateLimitEntry>, k: ClientKey, now: u128, config: RateLimitConfig)
    requires
        limit_enabled(config),
        budgets.dom().contains(k),
        elapsed(now, budgets[k].window_started_at) < seconds_nanos(config.window_seconds),
    ensures
        budgets.restrict(budgets.dom().filter(|c: ClientKey| elapsed(now, budgets[c].window_started_at) < prune_ttl_nanos(config))).dom().contains(k),
{
    assert(seconds_nanos(config.window_seconds) <= prune_ttl_nanos(config));
}

} // verus!
