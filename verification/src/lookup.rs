//! The iterative FindValue lookup's own bookkeeping: which peers each round asks, which
//! returned nodes can take the lookup further, and in what order they are tried.
use vstd::prelude::*;
use crate::config::opt_view;
use crate::dht::{
    bytes_lt, clone_opt, config_view, copy_config, is_closer, makes_progress, routing_peer_makes_find_value_progress,
    xor_bytes, RoutingPeer, SyncPeerConfig,
};
use crate::metrics::{DhtFindValueRunStats, DhtRoutingRefreshRunStats};
use crate::text::{chars_equal, chars_of};

verus! {

/// The key under which a lookup remembers a peer: its URL and peer id.
pub open spec fn peer_key(c: (Seq<char>, Option<Seq<char>>, Option<Seq<char>>)) -> (Seq<char>, Option<Seq<char>>) {
    (c.0, c.2)
}

/// The peers one lookup round asks, taken from `queue` at `index` onwards: peers already
/// asked are skipped; each new one is remembered and counted, until the round holds
/// `room` peers, the queue ends, or `attempts` reaches `max_peers`. Returns the round, the
/// next index, the remembered keys and the attempt count.
pub open spec fn round_from(
    queue: Seq<(Seq<char>, Option<Seq<char>>, Option<Seq<char>>)>,
    index: int,
    seen: Seq<(Seq<char>, Option<Seq<char>>)>,
    attempts: int,
    room: int,
    max_peers: int,
) -> (Seq<(Seq<char>, Option<Seq<char>>, Option<Seq<char>>)>, int, Seq<(Seq<char>, Option<Seq<char>>)>, int)
    decreases queue.len() - index,
{
    if index < 0 || index >= queue.len() || room <= 0 || attempts >= max_peers {
        (Seq::empty(), index, seen, attempts)
    } else if seen.contains(peer_key(queue[index])) {
        round_from(queue, index + 1, seen, attempts, room, max_peers)
    } else {
        let (r, i, s, a) = round_from(queue, index + 1, seen.push(peer_key(queue[index])), attempts + 1, room - 1, max_peers);
        (seq![queue[index]] + r, i, s, a)
    }
}

/// The key of a configured peer.
pub open spec fn key_view(k: (String, Option<String>)) -> (Seq<char>, Option<Seq<char>>) {
    (k.0@, opt_view(k.1))
}

fn seen_has(seen: &Vec<(String, Option<String>)>, c: &SyncPeerConfig) -> (r: bool)
    ensures
        r == seen@.map_values(|k: (String, Option<String>)| key_view(k)).contains(peer_key(config_view(*c))),
{
    let ghost sv = seen@.map_values(|k: (String, Option<String>)| key_view(k));
    let cu = chars_of(c.url.as_str());
    let mut i: usize = 0;
    while i < seen.len()
        invariant
            i <= seen@.len(),
            sv == seen@.map_values(|k: (String, Option<String>)| key_view(k)),
            cu@ == c.url@,
            forall|j: int| 0 <= j < i ==> sv[j] != peer_key(config_view(*c)),
        decreases seen@.len() - i,
    {
        let su = chars_of(seen[i].0.as_str());
        let same_id = match (&seen[i].1, &c.peer_id) {
            (Some(a), Some(b)) => {
                let ac = chars_of(a.as_str());
                let bc = chars_of(b.as_str());
                chars_equal(ac.as_slice(), bc.as_slice())
            },
            (None, None) => true,
            _ => false,
        };
        if chars_equal(su.as_slice(), cu.as_slice()) && same_id {
            assert(sv[i as int] == peer_key(config_view(*c)));
            return true;
        }
        i += 1;
    }
    false
}

/// Picks the peers of the next lookup round (at most `alpha`), remembering them in `seen`
/// and counting them in `attempts`; returns the round and the next queue index.
pub fn next_find_value_round(
    queue: &Vec<SyncPeerConfig>,
    index: usize,
    seen: &mut Vec<(String, Option<String>)>,
    attempts: &mut usize,
    alpha: usize,
    max_peers: usize,
) -> (r: (Vec<SyncPeerConfig>, usize))
    ensures
        ({
            let (round, i, s, a) = round_from(
                queue@.map_values(|c: SyncPeerConfig| config_view(c)),
                index as int,
                old(seen)@.map_values(|k: (String, Option<String>)| key_view(k)),
                *old(attempts) as int,
                alpha as int,
                max_peers as int,
            );
            &&& r.0@.map_values(|c: SyncPeerConfig| config_view(c)) == round
            &&& r.1 == i
            &&& final(seen)@.map_values(|k: (String, Option<String>)| key_view(k)) == s
            &&& *final(attempts) == a
        }),
{
    let ghost qv = queue@.map_values(|c: SyncPeerConfig| config_view(c));
    let ghost target = round_from(qv, index as int, seen@.map_values(|k: (String, Option<String>)| key_view(k)), *attempts as int, alpha as int, max_peers as int);
    let mut round: Vec<SyncPeerConfig> = Vec::new();
    let mut i = index;
    assert(round@.map_values(|c: SyncPeerConfig| config_view(c)) =~= Seq::<(Seq<char>, Option<Seq<char>>, Option<Seq<char>>)>::empty());
    while i < queue.len() && round.len() < alpha && *attempts < max_peers
        invariant
            qv == queue@.map_values(|c: SyncPeerConfig| config_view(c)),
            index <= i,
            round@.len() <= alpha,
            *attempts <= max_peers || round@.len() == 0,
            ({
                let (r, ni, s, a) = round_from(qv, i as int, seen@.map_values(|k: (String, Option<String>)| key_view(k)), *attempts as int, alpha - round@.len(), max_peers as int);
                &&& target.0 == round@.map_values(|c: SyncPeerConfig| config_view(c)) + r
                &&& target.1 == ni
                &&& target.2 == s
                &&& target.3 == a
            }),
        decreases queue@.len() - i,
    {
        let ghost sv = seen@.map_values(|k: (String, Option<String>)| key_view(k));
        let ghost rv = round@.map_values(|c: SyncPeerConfig| config_view(c));
        assert(qv[i as int] == config_view(queue@[i as int]));
        if seen_has(seen, &queue[i]) {
            i += 1;
        } else {
            let key = (queue[i].url.clone(), clone_opt(&queue[i].peer_id));
            seen.push(key);
            assert(seen@.map_values(|k: (String, Option<String>)| key_view(k)) =~= sv.push(peer_key(qv[i as int])));
            *attempts = *attempts + 1;
            let c = copy_config(&queue[i]);
            round.push(c);
            assert(round@.map_values(|c: SyncPeerConfig| config_view(c)) =~= rv.push(qv[i as int]));
            let ghost rest = round_from(qv, i as int + 1, sv.push(peer_key(qv[i as int])), *attempts as int, alpha - round@.len(), max_peers as int);
            assert(rv + (seq![qv[i as int]] + rest.0) =~= rv.push(qv[i as int]) + rest.0);
            i += 1;
        }
    }
    assert(round_from(qv, i as int, seen@.map_values(|k: (String, Option<String>)| key_view(k)), *attempts as int, alpha - round@.len(), max_peers as int).0 =~= Seq::<(Seq<char>, Option<Seq<char>>, Option<Seq<char>>)>::empty());
    assert(target.0 =~= round@.map_values(|c: SyncPeerConfig| config_view(c)));
    (round, i)
}

/// The nodes kept from `nodes` that make progress, in order.
pub open spec fn progressing(seed: SyncPeerConfig, seed_node_id: Seq<u8>, target: Seq<u8>, nodes: Seq<RoutingPeer>) -> Seq<RoutingPeer>
    decreases nodes.len(),
{
    if nodes.len() == 0 {
        nodes
    } else {
        let r = progressing(seed, seed_node_id, target, nodes.drop_last());
        if makes_progress(seed, seed_node_id, nodes.last(), target) { r.push(nodes.last()) } else { r }
    }
}

/// `x` inserted into a distance-ordered list after every node not farther from `target`.
pub open spec fn insert_by_distance(s: Seq<RoutingPeer>, x: RoutingPeer, target: Seq<u8>) -> Seq<RoutingPeer>
    decreases s.len(),
{
    if s.len() == 0 {
        seq![x]
    } else if bytes_lt(xor_bytes(x.node_id@, target), xor_bytes(s.last().node_id@, target)) {
        insert_by_distance(s.drop_last(), x, target).push(s.last())
    } else {
        s.push(x)
    }
}

/// The nodes ordered by distance to `target`, nearer first; equally distant nodes keep
/// their order (stable sort).
pub open spec fn by_distance(s: Seq<RoutingPeer>, target: Seq<u8>) -> Seq<RoutingPeer>
    decreases s.len(),
{
    if s.len() == 0 {
        s
    } else {
        insert_by_distance(by_distance(s.drop_last(), target), s.last(), target)
    }
}

/// What a lookup makes of the closer nodes a peer returned: at most `node_limit` of them
/// are looked at; those that make progress are tried nearest first. Returns them, how many
/// were looked at and how many were refused as not closer.
pub open spec fn closer_nodes_plan(
    seed: SyncPeerConfig,
    seed_node_id: Seq<u8>,
    target: Seq<u8>,
    nodes: Seq<RoutingPeer>,
    node_limit: nat,
) -> (Seq<RoutingPeer>, nat, nat) {
    let taken = if nodes.len() > node_limit { nodes.take(node_limit as int) } else { nodes };
    let kept = progressing(seed, seed_node_id, target, taken);
    (by_distance(kept, target), taken.len(), (taken.len() - kept.len()) as nat)
}

proof fn lemma_progressing_len(seed: SyncPeerConfig, seed_node_id: Seq<u8>, target: Seq<u8>, nodes: Seq<RoutingPeer>)
    ensures
        progressing(seed, seed_node_id, target, nodes).len() <= nodes.len(),
    decreases nodes.len(),
{
    if nodes.len() > 0 {
        lemma_progressing_len(seed, seed_node_id, target, nodes.drop_last());
    }
}

fn insert_node_by_distance(v: &mut Vec<RoutingPeer>, x: RoutingPeer, target: &[u8; 32])
    ensures
        final(v)@ == insert_by_distance(old(v)@, x, target@),
{
    let ghost s = v@;
    let mut j: usize = v.len();
    assert(s.take(j as int) =~= s);
    assert(s.skip(j as int) =~= Seq::<RoutingPeer>::empty());
    while j > 0
        invariant
            j <= s.len(),
            s == v@,
            insert_by_distance(s, x, target@) == insert_by_distance(s.take(j as int), x, target@) + s.skip(j as int),
        ensures
            j <= s.len(),
            s == v@,
            insert_by_distance(s, x, target@) == insert_by_distance(s.take(j as int), x, target@) + s.skip(j as int),
            j > 0 ==> !bytes_lt(xor_bytes(x.node_id@, target@), xor_bytes(s[j - 1].node_id@, target@)),
        decreases j,
    {
        let nearer = is_closer(&x.node_id, &v[j - 1].node_id, target);
        if !nearer {
            break;
        }
        assert(s.take(j as int).drop_last() =~= s.take(j - 1));
        assert(s.take(j as int).last() == s[j - 1]);
        assert(s.skip(j - 1) =~= seq![s[j - 1]] + s.skip(j as int));
        assert(insert_by_distance(s.take(j - 1), x, target@).push(s[j - 1]) + s.skip(j as int) =~= insert_by_distance(
            s.take(j - 1),
            x,
            target@,
        ) + s.skip(j - 1));
        j -= 1;
    }
    if j > 0 {
        assert(s.take(j as int).last() == s[j - 1]);
    }
    assert(insert_by_distance(s.take(j as int), x, target@) == s.take(j as int).push(x));
    v.insert(j, x);
    assert(v@ =~= s.take(j as int).push(x) + s.skip(j as int));
}

/// Orders the closer nodes a peer returned for a FindValue lookup: looks at no more than
/// the node limit for `limit`, drops those that do not make progress, and sorts the rest by
/// distance to `target`. Returns them, how many were looked at and how many were dropped.
pub fn closer_nodes_for_query(
    seed_peer: &SyncPeerConfig,
    seed_node_id: &[u8; 32],
    target: &[u8; 32],
    nodes: Vec<RoutingPeer>,
    limit: usize,
) -> (r: (Vec<RoutingPeer>, usize, usize))
    ensures
        ({
            let (ordered, returned, rejected) = closer_nodes_plan(
                *seed_peer,
                seed_node_id@,
                target@,
                nodes@,
                (if limit < 1 { 1 } else if limit > 64 { 64 } else { limit }) as nat,
            );
            &&& r.0@ == ordered
            &&& r.1 == returned
            &&& r.2 == rejected
        }),
{
    let node_limit = crate::backoff::dht_response_node_limit(limit);
    let ghost all = nodes@;
    let ghost taken = if all.len() > node_limit { all.take(node_limit as int) } else { all };
    let mut rest = nodes;
    let mut kept: Vec<RoutingPeer> = Vec::new();
    let mut i: usize = 0;
    let total = rest.len();
    let n = if total > node_limit { node_limit } else { total };
    assert(taken.len() == n);
    assert(taken.take(0) =~= Seq::<RoutingPeer>::empty());
    assert(all.skip(0) =~= all);
    while i < n
        invariant
            i <= n,
            n == taken.len(),
            n <= total,
            total == all.len(),
            rest@ == all.skip(i as int),
            forall|k: int| 0 <= k < n ==> taken[k] == all[k],
            kept@ == progressing(*seed_peer, seed_node_id@, target@, taken.take(i as int)),
        decreases n - i,
    {
        let node = rest.remove(0);
        proof {
            assert(rest@ =~= all.skip(i as int + 1));
            assert(taken.take(i as int + 1).drop_last() =~= taken.take(i as int));
            assert(taken.take(i as int + 1).last() == node);
        }
        if routing_peer_makes_find_value_progress(seed_peer, seed_node_id, &node, target) {
            kept.push(node);
        }
        i += 1;
    }
    assert(taken.take(n as int) =~= taken);
    proof {
        lemma_progressing_len(*seed_peer, seed_node_id@, target@, taken);
    }
    let rejected = n - kept.len();
    let ghost kv = kept@;
    let m = kept.len();
    let mut ordered: Vec<RoutingPeer> = Vec::new();
    let mut k: usize = 0;
    assert(kv.take(0) =~= Seq::<RoutingPeer>::empty());
    while kept.len() > 0
        invariant
            k + kept@.len() == kv.len(),
            kv.len() == m,
            kept@ == kv.skip(k as int),
            ordered@ == by_distance(kv.take(k as int), target@),
        decreases kept@.len(),
    {
        let x = kept.remove(0);
        proof {
            assert(kept@ =~= kv.skip(k as int + 1));
            assert(kv.take(k as int + 1).drop_last() =~= kv.take(k as int));
            assert(kv.take(k as int + 1).last() == x);
        }
        insert_node_by_distance(&mut ordered, x, target);
        k += 1;
    }
    assert(kv.take(k as int) =~= kv);
    (ordered, n, rejected)
}

/// `alpha` held to the lookup's concurrency bounds, 1 to 16.
pub open spec fn clamped_alpha(alpha: usize) -> usize {
    if alpha < 1 {
        1
    } else if alpha > 16 {
        16
    } else {
        alpha
    }
}

/// The counters a FindValue run starts from: all zero, with `alpha` clamped; a run with no
/// peer to ask or no query allowed is over before it starts, and counts as exhausted.
pub open spec fn find_value_run_start_stats(peer_count: usize, max_peers: usize, alpha: usize) -> DhtFindValueRunStats {
    DhtFindValueRunStats {
        attempts: 0,
        successes: 0,
        failures: 0,
        found_records: 0,
        closer_records: 0,
        closer_nodes_returned: 0,
        closer_nodes_merged: 0,
        closer_nodes_rejected_non_closer: 0,
        closer_nodes_rejected_duplicate: 0,
        peers_quarantined: 0,
        quarantine_threshold: 0,
        query_rounds: 0,
        alpha: clamped_alpha(alpha),
        exhausted: peer_count == 0 || max_peers == 0,
    }
}

/// The counters a FindValue run over `peer_count` configured peers starts from.
pub fn find_value_run_start(peer_count: usize, max_peers: usize, alpha: usize) -> (r: DhtFindValueRunStats)
    ensures
        r == find_value_run_start_stats(peer_count, max_peers, alpha),
{
    let alpha = if alpha < 1 {
        1
    } else if alpha > 16 {
        16
    } else {
        alpha
    };
    DhtFindValueRunStats {
        attempts: 0,
        successes: 0,
        failures: 0,
        found_records: 0,
        closer_records: 0,
        closer_nodes_returned: 0,
        closer_nodes_merged: 0,
        closer_nodes_rejected_non_closer: 0,
        closer_nodes_rejected_duplicate: 0,
        peers_quarantined: 0,
        quarantine_threshold: 0,
        query_rounds: 0,
        alpha,
        exhausted: peer_count == 0 || max_peers == 0,
    }
}

/// Whether a FindValue run goes on to another round: the queue has peers left at `index`,
/// the attempts are within the budget, and no record has been found.
pub fn find_value_run_continues(index: usize, queue_len: usize, attempts: usize, max_peers: usize, found: bool) -> (r: bool)
    ensures
        r == (index < queue_len && attempts < max_peers && !found),
{
    index < queue_len && attempts < max_peers && !found
}

/// Closes a FindValue run whose queue stopped at `index` of `queue_len`: it is exhausted
/// where it found no record and asked its whole queue.
pub fn finish_find_value_run(stats: &mut DhtFindValueRunStats, index: usize, queue_len: usize)
    ensures
        *final(stats) == (DhtFindValueRunStats {
            exhausted: old(stats).found_records == 0 && index >= queue_len,
            ..*old(stats)
        }),
{
    stats.exhausted = stats.found_records == 0 && index >= queue_len;
}

/// One peer's answer to a FindValue query, as the lookup counts it.
#[derive(Debug, Clone, Copy)]
pub enum FindValueAnswer {
    /// A value response: whether the node accepted its record, and what merging its closer
    /// records and nodes gave (merged only while no record is found).
    Value {
        record_accepted: bool,
        closer_records: usize,
        closer_nodes_returned: usize,
        closer_nodes_merged: usize,
        rejected_non_closer: usize,
        rejected_duplicate: usize,
    },
    /// Another kind of response, or none.
    Failed,
}

/// What the lookup records about the peer after its answer.
#[derive(Debug, Clone, Copy, PartialEq, Eq, Structural)]
pub enum PeerVerdict {
    Success,
    Failure,
}

/// How much of `n` a counter standing at `c` takes in before it saturates.
pub open spec fn counted(c: usize, n: usize) -> usize {
    (c.saturating_add(n) - c) as usize
}

/// The verdict on a peer whose value response, counted into the run counters `s`, returned
/// `returned` closer nodes (of which `merged` were merged, `non_closer` refused as no
/// closer and `duplicate` refused as already known) and `records` closer records: a
/// failure exactly where closer nodes were counted, the refused ones are all of them, and
/// neither a closer record nor a merged node was counted.
pub open spec fn closer_answer_verdict(
    s: DhtFindValueRunStats,
    records: usize,
    returned: usize,
    merged: usize,
    non_closer: usize,
    duplicate: usize,
) -> PeerVerdict {
    let returned_counted = counted(s.closer_nodes_returned, returned);
    let refused_counted = counted(s.closer_nodes_rejected_non_closer, non_closer).saturating_add(
        counted(s.closer_nodes_rejected_duplicate, duplicate),
    );
    let brought_new = counted(s.closer_records, records) > 0 || counted(s.closer_nodes_merged, merged) > 0;
    if returned_counted > 0 && refused_counted == returned_counted && !brought_new {
        PeerVerdict::Failure
    } else {
        PeerVerdict::Success
    }
}

/// Where no counter saturates, a peer's value response without its record is held against
/// it exactly when it returned closer nodes, all of them were refused, and it brought no
/// closer record and no node that was merged.
pub proof fn lemma_closer_answer_verdict_unsaturated(
    s: DhtFindValueRunStats,
    records: usize,
    returned: usize,
    merged: usize,
    non_closer: usize,
    duplicate: usize,
)
    requires
        s.closer_records + records <= usize::MAX,
        s.closer_nodes_returned + returned <= usize::MAX,
        s.closer_nodes_merged + merged <= usize::MAX,
        s.closer_nodes_rejected_non_closer + non_closer <= usize::MAX,
        s.closer_nodes_rejected_duplicate + duplicate <= usize::MAX,
        non_closer + duplicate <= usize::MAX,
    ensures
        closer_answer_verdict(s, records, returned, merged, non_closer, duplicate) == (if returned > 0
            && non_closer + duplicate == returned && records == 0 && merged == 0 {
            PeerVerdict::Failure
        } else {
            PeerVerdict::Success
        }),
{
}

/// The run counters after one answer, the verdict on the peer, and whether the lookup
/// found its record. A failed answer counts a failure against the peer. A value response
/// counts a success; with an accepted record it counts a found record and ends the lookup,
/// nothing merged; else its closer records and nodes are counted in, and the verdict is
/// `closer_answer_verdict`.
pub open spec fn find_value_answer_step(s: DhtFindValueRunStats, answer: FindValueAnswer) -> (DhtFindValueRunStats, PeerVerdict, bool) {
    match answer {
        FindValueAnswer::Failed => (DhtFindValueRunStats { failures: s.failures.saturating_add(1), ..s }, PeerVerdict::Failure, false),
        FindValueAnswer::Value {
            record_accepted,
            closer_records,
            closer_nodes_returned,
            closer_nodes_merged,
            rejected_non_closer,
            rejected_duplicate,
        } => if record_accepted {
            (
                DhtFindValueRunStats {
                    successes: s.successes.saturating_add(1),
                    found_records: s.found_records.saturating_add(1),
                    ..s
                },
                PeerVerdict::Success,
                true,
            )
        } else {
            (
                DhtFindValueRunStats {
                    successes: s.successes.saturating_add(1),
                    closer_records: s.closer_records.saturating_add(closer_records),
                    closer_nodes_returned: s.closer_nodes_returned.saturating_add(closer_nodes_returned),
                    closer_nodes_merged: s.closer_nodes_merged.saturating_add(closer_nodes_merged),
                    closer_nodes_rejected_non_closer: s.closer_nodes_rejected_non_closer.saturating_add(rejected_non_closer),
                    closer_nodes_rejected_duplicate: s.closer_nodes_rejected_duplicate.saturating_add(rejected_duplicate),
                    ..s
                },
                closer_answer_verdict(
                    s,
                    closer_records,
                    closer_nodes_returned,
                    closer_nodes_merged,
                    rejected_non_closer,
                    rejected_duplicate,
                ),
                false,
            )
        },
    }
}

/// Counts one peer's answer to a FindValue query into the run counters; returns the verdict
/// on the peer and whether the record was found.
pub fn record_find_value_answer(stats: &mut DhtFindValueRunStats, answer: &FindValueAnswer) -> (r: (PeerVerdict, bool))
    ensures
        (*final(stats), r.0, r.1) == find_value_answer_step(*old(stats), *answer),
{
    match answer {
        FindValueAnswer::Failed => {
            stats.failures = stats.failures.saturating_add(1);
            (PeerVerdict::Failure, false)
        },
        FindValueAnswer::Value {
            record_accepted,
            closer_records,
            closer_nodes_returned,
            closer_nodes_merged,
            rejected_non_closer,
            rejected_duplicate,
        } => {
            stats.successes = stats.successes.saturating_add(1);
            if *record_accepted {
                stats.found_records = stats.found_records.saturating_add(1);
                return (PeerVerdict::Success, true);
            }
            let before_records = stats.closer_records;
            let before_returned = stats.closer_nodes_returned;
            let before_merged = stats.closer_nodes_merged;
            let before_non_closer = stats.closer_nodes_rejected_non_closer;
            let before_duplicate = stats.closer_nodes_rejected_duplicate;
            stats.closer_records = stats.closer_records.saturating_add(*closer_records);
            stats.closer_nodes_returned = stats.closer_nodes_returned.saturating_add(*closer_nodes_returned);
            stats.closer_nodes_merged = stats.closer_nodes_merged.saturating_add(*closer_nodes_merged);
            stats.closer_nodes_rejected_non_closer = stats.closer_nodes_rejected_non_closer.saturating_add(*rejected_non_closer);
            stats.closer_nodes_rejected_duplicate = stats.closer_nodes_rejected_duplicate.saturating_add(*rejected_duplicate);
            let useful = stats.closer_records > before_records || stats.closer_nodes_merged > before_merged;
            let returned = stats.closer_nodes_returned - before_returned;
            let rejected = (stats.closer_nodes_rejected_non_closer - before_non_closer)
                .saturating_add(stats.closer_nodes_rejected_duplicate - before_duplicate);
            if returned > 0 && rejected == returned && !useful {
                (PeerVerdict::Failure, false)
            } else {
                (PeerVerdict::Success, false)
            }
        },
    }
}

/// One peer's answer to a routing-refresh FindNode query, as the run counts it.
#[derive(Debug, Clone, Copy)]
pub enum RoutingRefreshAnswer {
    /// A nodes response: how many nodes it returned (within the response limit), how many of
    /// them were refused as no closer and as already seen, and how many the routing table
    /// merged of the rest.
    Nodes { returned: usize, rejected_non_closer: usize, rejected_duplicate: usize, merged: usize },
    /// Another kind of response, or none.
    Failed,
}

/// The run counters after one FindNode query of a routing refresh, and the verdict on the
/// peer. The query counts an attempt. A failed answer counts a failure against the peer. A
/// nodes response counts a success and its returned, refused and merged nodes; the peer is
/// held to have failed exactly where it returned nodes and every one of them was refused.
pub open spec fn routing_refresh_answer_step(
    s: DhtRoutingRefreshRunStats,
    answer: RoutingRefreshAnswer,
) -> (DhtRoutingRefreshRunStats, PeerVerdict) {
    match answer {
        RoutingRefreshAnswer::Failed => (
            DhtRoutingRefreshRunStats {
                attempts: s.attempts.saturating_add(1),
                failures: s.failures.saturating_add(1),
                ..s
            },
            PeerVerdict::Failure,
        ),
        RoutingRefreshAnswer::Nodes { returned, rejected_non_closer, rejected_duplicate, merged } => {
            let refused = rejected_non_closer.saturating_add(rejected_duplicate);
            (
                DhtRoutingRefreshRunStats {
                    attempts: s.attempts.saturating_add(1),
                    successes: s.successes.saturating_add(1),
                    nodes_returned: s.nodes_returned.saturating_add(returned),
                    nodes_rejected_non_closer: s.nodes_rejected_non_closer.saturating_add(rejected_non_closer),
                    nodes_rejected_duplicate: s.nodes_rejected_duplicate.saturating_add(rejected_duplicate),
                    nodes_merged: s.nodes_merged.saturating_add(merged),
                    ..s
                },
                if returned > 0 && refused == returned { PeerVerdict::Failure } else { PeerVerdict::Success },
            )
        },
    }
}

/// Counts one FindNode query of a routing refresh, and the peer's answer, into the run
/// counters; returns the verdict on the peer.
pub fn record_routing_refresh_answer(stats: &mut DhtRoutingRefreshRunStats, answer: &RoutingRefreshAnswer) -> (r: PeerVerdict)
    ensures
        (*final(stats), r) == routing_refresh_answer_step(*old(stats), *answer),
{
    stats.attempts = stats.attempts.saturating_add(1);
    match answer {
        RoutingRefreshAnswer::Failed => {
            stats.failures = stats.failures.saturating_add(1);
            PeerVerdict::Failure
        },
        RoutingRefreshAnswer::Nodes { returned, rejected_non_closer, rejected_duplicate, merged } => {
            stats.nodes_returned = stats.nodes_returned.saturating_add(*returned);
            stats.nodes_rejected_non_closer = stats.nodes_rejected_non_closer.saturating_add(*rejected_non_closer);
            stats.nodes_rejected_duplicate = stats.nodes_rejected_duplicate.saturating_add(*rejected_duplicate);
            stats.nodes_merged = stats.nodes_merged.saturating_add(*merged);
            stats.successes = stats.successes.saturating_add(1);
            let refused = rejected_non_closer.saturating_add(*rejected_duplicate);
            if *returned > 0 && refused > 0 && refused == *returned {
                PeerVerdict::Failure
            } else {
                PeerVerdict::Success
            }
        },
    }
}

/// Every query of a routing refresh ends in a success or a failure: where the attempts so
/// far are the successes plus the failures, and one more attempt fits, so it stays after
/// one more query.
pub proof fn lemma_routing_refresh_attempts_balance(s: DhtRoutingRefreshRunStats, answer: RoutingRefreshAnswer)
    requires
        s.attempts == s.successes + s.failures,
        s.attempts < usize::MAX,
    ensures
        ({
            let t = routing_refresh_answer_step(s, answer).0;
            t.attempts == t.successes + t.failures && t.attempts == s.attempts + 1
        }),
{
}

/// A FindValue response is held against the peer when it returned closer nodes, every one
/// of them was refused, and it brought nothing else of use.
pub fn closer_response_unhelpful(returned: usize, rejected_non_closer: usize, rejected_duplicate: usize, useful: bool) -> (r: bool)
    ensures
        r == (returned > 0 && !useful && (if rejected_non_closer + rejected_duplicate > usize::MAX {
            usize::MAX as int
        } else {
            rejected_non_closer + rejected_duplicate
        }) == returned),
{
    let rejected = rejected_non_closer.saturating_add(rejected_duplicate);
    returned > 0 && rejected == returned && !useful
}

proof fn lemma_bytes_lt_asym(a: Seq<u8>, b: Seq<u8>)
    ensures
        bytes_lt(a, b) ==> !bytes_lt(b, a),
    decreases a.len(),
{
    if a.len() > 0 && b.len() > 0 && a[0] == b[0] {
        lemma_bytes_lt_asym(a.drop_first(), b.drop_first());
    }
}

proof fn lemma_bytes_le_trans(a: Seq<u8>, b: Seq<u8>, c: Seq<u8>)
    requires
        a.len() == b.len(),
        b.len() == c.len(),
        !bytes_lt(b, a),
        !bytes_lt(c, b),
    ensures
        !bytes_lt(c, a),
    decreases a.len(),
{
    if a.len() > 0 && a[0] == b[0] && b[0] == c[0] {
        lemma_bytes_le_trans(a.drop_first(), b.drop_first(), c.drop_first());
    }
}

/// No node of `s` lies nearer to `target` than an earlier one.
pub open spec fn distance_sorted(s: Seq<RoutingPeer>, target: Seq<u8>) -> bool {
    forall|i: int, j: int| 0 <= i < j < s.len() ==> !bytes_lt(xor_bytes((#[trigger] s[j]).node_id@, target), xor_bytes((#[trigger] s[i]).node_id@, target))
}

proof fn lemma_insert_by_distance(s: Seq<RoutingPeer>, x: RoutingPeer, target: Seq<u8>)
    requires
        target.len() == 32,
    ensures
        insert_by_distance(s, x, target).len() == s.len() + 1,
        forall|y: RoutingPeer| #[trigger] insert_by_distance(s, x, target).contains(y) <==> (s.contains(y) || y == x),
        distance_sorted(s, target) ==> distance_sorted(insert_by_distance(s, x, target), target),
    decreases s.len(),
{
    let r = insert_by_distance(s, x, target);
    let d = |p: RoutingPeer| xor_bytes(p.node_id@, target);
    if s.len() == 0 {
        assert(r =~= seq![x]);
        assert forall|y| #[trigger] r.contains(y) <==> (s.contains(y) || y == x) by {
            if r.contains(y) {
                let k = choose|k: int| 0 <= k < r.len() && r[k] == y;
                assert(k == 0);
            }
            if y == x {
                assert(r[0] == x);
            }
        }
    } else if bytes_lt(d(x), d(s.last())) {
        let p = s.drop_last();
        lemma_insert_by_distance(p, x, target);
        let q = insert_by_distance(p, x, target);
        assert(r == q.push(s.last()));
        assert forall|y| #[trigger] r.contains(y) <==> (s.contains(y) || y == x) by {
            if r.contains(y) {
                let k = choose|k: int| 0 <= k < r.len() && r[k] == y;
                if k < q.len() {
                    assert(q.contains(y));
                    if p.contains(y) {
                        let m = choose|m: int| 0 <= m < p.len() && p[m] == y;
                        assert(s[m] == y);
                    }
                } else {
                    assert(y == s[s.len() - 1]);
                }
            }
            if s.contains(y) {
                let m = choose|m: int| 0 <= m < s.len() && s[m] == y;
                if m < s.len() - 1 {
                    assert(p[m] == y);
                    assert(q.contains(y));
                    let k = choose|k: int| 0 <= k < q.len() && q[k] == y;
                    assert(r[k] == y);
                } else {
                    assert(r[r.len() - 1] == y);
                }
            }
            if y == x {
                assert(q.contains(x));
                let k = choose|k: int| 0 <= k < q.len() && q[k] == x;
                assert(r[k] == x);
            }
        }
        if distance_sorted(s, target) {
            assert(distance_sorted(p, target)) by {
                assert forall|i: int, j: int| 0 <= i < j < p.len() implies !bytes_lt(xor_bytes((#[trigger] p[j]).node_id@, target), xor_bytes((#[trigger] p[i]).node_id@, target)) by {
                    assert(p[i] == s[i] && p[j] == s[j]);
                }
            }
            assert forall|i: int, j: int| 0 <= i < j < r.len() implies !bytes_lt(xor_bytes((#[trigger] r[j]).node_id@, target), xor_bytes((#[trigger] r[i]).node_id@, target)) by {
                if j < r.len() - 1 {
                    assert(r[i] == q[i] && r[j] == q[j]);
                } else {
                    assert(r[j] == s.last());
                    assert(q.contains(q[i]));
                    if q[i] == x {
                        lemma_bytes_lt_asym(d(x), d(s.last()));
                    } else {
                        assert(p.contains(q[i]));
                        let m = choose|m: int| 0 <= m < p.len() && p[m] == q[i];
                        assert(s[m] == q[i]);
                        assert(s[s.len() - 1] == s.last());
                    }
                }
            }
        }
    } else {
        assert(r == s.push(x));
        assert forall|y| #[trigger] r.contains(y) <==> (s.contains(y) || y == x) by {
            if r.contains(y) {
                let k = choose|k: int| 0 <= k < r.len() && r[k] == y;
                if k < s.len() {
                    assert(s[k] == y);
                }
            }
            if s.contains(y) {
                let m = choose|m: int| 0 <= m < s.len() && s[m] == y;
                assert(r[m] == y);
            }
            if y == x {
                assert(r[r.len() - 1] == x);
            }
        }
        if distance_sorted(s, target) {
            assert forall|i: int, j: int| 0 <= i < j < r.len() implies !bytes_lt(xor_bytes((#[trigger] r[j]).node_id@, target), xor_bytes((#[trigger] r[i]).node_id@, target)) by {
                if j < r.len() - 1 {
                    assert(r[i] == s[i] && r[j] == s[j]);
                } else {
                    assert(r[i] == s[i]);
                    let l = s.len() - 1;
                    if i < l {
                        assert(!bytes_lt(d(s[l]), d(s[i])));
                        lemma_bytes_le_trans(d(s[i]), d(s[l]), d(x));
                    }
                }
            }
        }
    }
}

/// The nodes a lookup tries next are in order of distance to its target, nearest first,
/// and are exactly the progressing nodes among those looked at.
pub proof fn lemma_closer_nodes_by_distance(
    seed: SyncPeerConfig,
    seed_node_id: Seq<u8>,
    target: Seq<u8>,
    nodes: Seq<RoutingPeer>,
    node_limit: nat,
)
    requires
        target.len() == 32,
    ensures
        ({
            let (ordered, returned, rejected) = closer_nodes_plan(seed, seed_node_id, target, nodes, node_limit);
            let taken = if nodes.len() > node_limit { nodes.take(node_limit as int) } else { nodes };
            &&& distance_sorted(ordered, target)
            &&& forall|y: RoutingPeer| #[trigger] ordered.contains(y) <==> progressing(seed, seed_node_id, target, taken).contains(y)
            &&& ordered.len() + rejected == returned
        }),
{
    let taken = if nodes.len() > node_limit { nodes.take(node_limit as int) } else { nodes };
    let kept = progressing(seed, seed_node_id, target, taken);
    lemma_progressing_len(seed, seed_node_id, target, taken);
    lemma_by_distance(kept, target);
}

proof fn lemma_by_distance(s: Seq<RoutingPeer>, target: Seq<u8>)
    requires
        target.len() == 32,
    ensures
        by_distance(s, target).len() == s.len(),
        forall|y: RoutingPeer| #[trigger] by_distance(s, target).contains(y) <==> s.contains(y),
        distance_sorted(by_distance(s, target), target),
    decreases s.len(),
{
    if s.len() > 0 {
        let p = s.drop_last();
        lemma_by_distance(p, target);
        lemma_insert_by_distance(by_distance(p, target), s.last(), target);
        assert forall|y| #[trigger] by_distance(s, target).contains(y) <==> s.contains(y) by {
            if s.contains(y) && y != s.last() {
                let m = choose|m: int| 0 <= m < s.len() && s[m] == y;
                assert(p[m] == y);
            }
            if p.contains(y) {
                let m = choose|m: int| 0 <= m < p.len() && p[m] == y;
                assert(s[m] == y);
            }
            if y == s.last() {
                assert(s[s.len() - 1] == y);
            }
        }
    }
}

/// A lookup round asks at most `room` peers, never more than the attempt budget allows,
/// and never a peer asked before: each asked peer's key was not yet remembered, and the
/// remembered keys grow by exactly the round's keys.
pub proof fn lemma_round_bounds(
    queue: Seq<(Seq<char>, Option<Seq<char>>, Option<Seq<char>>)>,
    index: int,
    seen: Seq<(Seq<char>, Option<Seq<char>>)>,
    attempts: int,
    room: int,
    max_peers: int,
)
    requires
        0 <= room,
        attempts <= max_peers,
    ensures
        ({
            let (r, i, s, a) = round_from(queue, index, seen, attempts, room, max_peers);
            &&& r.len() <= room
            &&& a == attempts + r.len()
            &&& a <= max_peers
            &&& s == seen + r.map_values(|c: (Seq<char>, Option<Seq<char>>, Option<Seq<char>>)| peer_key(c))
            &&& forall|k: int| 0 <= k < r.len() ==> !seen.contains(peer_key(#[trigger] r[k]))
            &&& forall|k: int, l: int| 0 <= k < l < r.len() ==> peer_key(#[trigger] r[k]) != peer_key(#[trigger] r[l])
        }),
    decreases queue.len() - index,
{
    if index < 0 || index >= queue.len() || room <= 0 || attempts >= max_peers {
        let (r, i, s, a) = round_from(queue, index, seen, attempts, room, max_peers);
        assert(s =~= seen + r.map_values(|c: (Seq<char>, Option<Seq<char>>, Option<Seq<char>>)| peer_key(c)));
    } else if seen.contains(peer_key(queue[index])) {
        lemma_round_bounds(queue, index + 1, seen, attempts, room, max_peers);
    } else {
        let key = peer_key(queue[index]);
        let seen2 = seen.push(key);
        lemma_round_bounds(queue, index + 1, seen2, attempts + 1, room - 1, max_peers);
        let (r2, i2, s2, a2) = round_from(queue, index + 1, seen2, attempts + 1, room - 1, max_peers);
        let r = seq![queue[index]] + r2;
        let f = |c: (Seq<char>, Option<Seq<char>>, Option<Seq<char>>)| peer_key(c);
        assert(r.map_values(f) =~= seq![key] + r2.map_values(f));
        assert(s2 =~= seen + r.map_values(f));
        assert forall|k: int| 0 <= k < r.len() implies !seen.contains(peer_key(#[trigger] r[k])) by {
            if k > 0 {
                assert(r[k] == r2[k - 1]);
                assert(!seen2.contains(peer_key(r2[k - 1])));
                if seen.contains(peer_key(r2[k - 1])) {
                    let m = choose|m: int| 0 <= m < seen.len() && seen[m] == peer_key(r2[k - 1]);
                    assert(seen2[m] == seen[m]);
                }
            }
        }
        assert forall|k: int, l: int| 0 <= k < l < r.len() implies peer_key(#[trigger] r[k]) != peer_key(#[trigger] r[l]) by {
            if k == 0 {
                assert(r[l] == r2[l - 1]);
                assert(!seen2.contains(peer_key(r2[l - 1])));
                assert(seen2[seen.len() as int] == key);
            } else {
                assert(r[k] == r2[k - 1] && r[l] == r2[l - 1]);
            }
        }
    }
}

} // verus!
