//! Counters of the node's housekeeping and of the inputs it refused.
use vstd::prelude::*;

verus! {

/// A sum of counters, saturating at `u64::MAX`.
pub open spec fn saturating_sum(xs: Seq<u64>) -> u64
    decreases xs.len(),
{
    if xs.len() == 0 {
        0
    } else {
        saturating_sum(xs.drop_last()).saturating_add(xs.last())
    }
}

fn sum_exec(xs: &[u64]) -> (r: u64)
    ensures
        r == saturating_sum(xs@),
{
    let mut acc: u64 = 0;
    let mut i: usize = 0;
    while i < xs.len()
        invariant
            i <= xs@.len(),
            acc == saturating_sum(xs@.take(i as int)),
        decreases xs@.len() - i,
    {
        assert(xs@.take(i as int + 1).drop_last() =~= xs@.take(i as int));
        acc = acc.saturating_add(xs[i]);
        i += 1;
    }
    assert(xs@.take(xs@.len() as int) =~= xs@);
    acc
}

/// Mailbox pushes refused, by reason.
#[derive(Debug, Clone, Copy, Default, PartialEq, Eq)]
pub struct MailboxPushRejectStats {
    pub invalid_json: u64,
    pub invalid_message_format: u64,
    pub invalid_identity_public_key: u64,
    pub invalid_signature: u64,
    pub expired_object: u64,
    pub duplicate_message: u64,
    pub payload_too_large: u64,
    pub global_rate_limited: u64,
    pub sender_rate_limited: u64,
    pub other: u64,
}

impl MailboxPushRejectStats {
    pub open spec fn counts(&self) -> Seq<u64> {
        seq![
            self.invalid_json,
            self.invalid_message_format,
            self.invalid_identity_public_key,
            self.invalid_signature,
            self.expired_object,
            self.duplicate_message,
            self.payload_too_large,
            self.global_rate_limited,
            self.sender_rate_limited,
            self.other,
        ]
    }

    /// All refusals together.
    pub open spec fn total_count(&self) -> u64 {
        saturating_sum(self.counts())
    }

    /// All refusals together, saturating.
    pub fn total(&self) -> (r: u64)
        ensures
            r == self.total_count(),
    {
        let v = vec![
            self.invalid_json,
            self.invalid_message_format,
            self.invalid_identity_public_key,
            self.invalid_signature,
            self.expired_object,
            self.duplicate_message,
            self.payload_too_large,
            self.global_rate_limited,
            self.sender_rate_limited,
            self.other,
        ];
        assert(v@ =~= self.counts());
        sum_exec(v.as_slice())
    }
}

/// DHT records refused, by reason.
#[derive(Debug, Clone, Copy, Default, PartialEq, Eq)]
pub struct DhtRecordRejectStats {
    pub invalid_json: u64,
    pub expired: u64,
    pub ttl_too_long: u64,
    pub payload_too_large: u64,
    pub invalid_record: u64,
}

impl DhtRecordRejectStats {
    pub open spec fn counts(&self) -> Seq<u64> {
        seq![self.invalid_json, self.expired, self.ttl_too_long, self.payload_too_large, self.invalid_record]
    }

    /// All refusals together.
    pub open spec fn total_count(&self) -> u64 {
        saturating_sum(self.counts())
    }

    /// All refusals together, saturating.
    pub fn total(&self) -> (r: u64)
        ensures
            r == self.total_count(),
    {
        let v = vec![self.invalid_json, self.expired, self.ttl_too_long, self.payload_too_large, self.invalid_record];
        assert(v@ =~= self.counts());
        sum_exec(v.as_slice())
    }
}

/// Mailbox acknowledgements refused, by reason.
#[derive(Debug, Clone, Copy, Default, PartialEq, Eq)]
pub struct MailboxAckRejectStats {
    pub invalid_json: u64,
    pub invalid_user_id: u64,
    pub too_many_ids: u64,
    pub empty_id: u64,
    pub id_too_large: u64,
}

impl MailboxAckRejectStats {
    pub open spec fn counts(&self) -> Seq<u64> {
        seq![self.invalid_json, self.invalid_user_id, self.too_many_ids, self.empty_id, self.id_too_large]
    }

    /// All refusals together.
    pub open spec fn total_count(&self) -> u64 {
        saturating_sum(self.counts())
    }

    /// All refusals together, saturating.
    pub fn total(&self) -> (r: u64)
        ensures
            r == self.total_count(),
    {
        let v = vec![self.invalid_json, self.invalid_user_id, self.too_many_ids, self.empty_id, self.id_too_large];
        assert(v@ =~= self.counts());
        sum_exec(v.as_slice())
    }
}

/// Routing peers refused, by reason.
#[derive(Debug, Clone, Copy, Default, PartialEq, Eq)]
pub struct RoutingPeerRejectStats {
    pub expired: u64,
    pub mismatched_node_id: u64,
    pub local_node: u64,
    pub missing_identity_public_key: u64,
    pub invalid_identity_public_key: u64,
    pub invalid_signature: u64,
    pub too_many_addresses: u64,
    pub address_too_large: u64,
}

impl RoutingPeerRejectStats {
    pub open spec fn counts(&self) -> Seq<u64> {
        seq![
            self.expired,
            self.mismatched_node_id,
            self.local_node,
            self.missing_identity_public_key,
            self.invalid_identity_public_key,
            self.invalid_signature,
            self.too_many_addresses,
            self.address_too_large,
        ]
    }

    /// All refusals together.
    pub open spec fn total_count(&self) -> u64 {
        saturating_sum(self.counts())
    }

    /// All refusals together, saturating.
    pub fn total(&self) -> (r: u64)
        ensures
            r == self.total_count(),
    {
        let v = vec![
            self.expired,
            self.mismatched_node_id,
            self.local_node,
            self.missing_identity_public_key,
            self.invalid_identity_public_key,
            self.invalid_signature,
            self.too_many_addresses,
            self.address_too_large,
        ];
        assert(v@ =~= self.counts());
        sum_exec(v.as_slice())
    }
}

/// Housekeeping counters of the node.
#[derive(Debug, Clone, Copy, Default, PartialEq, Eq)]
pub struct NodeMaintenanceStats {
    pub prune_runs: u64,
    pub mailbox_expired_deliveries: u64,
    pub prekey_expired_bundles: u64,
    pub mailbox_push_rejects: MailboxPushRejectStats,
    pub dht_record_rejects: DhtRecordRejectStats,
    pub mailbox_ack_rejects: MailboxAckRejectStats,
    pub routing_peer_rejects: RoutingPeerRejectStats,
    pub last_pruned_at: Option<u64>,
}

} // verus!
