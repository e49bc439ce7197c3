//! The prekey bundles a node holds for its users, with their signed one-time prekey
//! records and the one-time prekeys already handed out.
//!
//! Signatures are checked by the caller's verdict functions: `verify_bundle` says whether a
//! bundle's own signature holds, `verify_record` whether a one-time prekey record was signed
//! for a bundle. Both must decide: one answer per input.
use vstd::prelude::*;
use crate::clock::current_unix_timestamp;

verus! {

/// A user's published prekey bundle, as far as the store reads it.
#[derive(Debug)]
pub struct PreKeyBundle {
    pub user_id: String,
    pub signed_prekey_id: u32,
    pub expires_at: u64,
    pub signed_prekey_expires_at: u64,
    /// The ids of the one-time prekeys the bundle carries, in order.
    pub one_time_prekey_ids: Vec<u32>,
}

/// A bundle as plain values.
pub struct BundleView {
    pub user_id: Seq<char>,
    pub signed_prekey_id: u32,
    pub expires_at: u64,
    pub signed_prekey_expires_at: u64,
    pub one_time_prekey_ids: Seq<u32>,
}

impl View for PreKeyBundle {
    type V = BundleView;

    open spec fn view(&self) -> BundleView {
        BundleView {
            user_id: self.user_id@,
            signed_prekey_id: self.signed_prekey_id,
            expires_at: self.expires_at,
            signed_prekey_expires_at: self.signed_prekey_expires_at,
            one_time_prekey_ids: self.one_time_prekey_ids@,
        }
    }
}

/// A one-time prekey signed for one signed prekey of a user.
#[derive(Debug)]
pub struct SignedOneTimePreKeyRecord {
    pub user_id: String,
    pub signed_prekey_id: u32,
    pub key_id: u32,
    pub expires_at: u64,
}

/// A one-time prekey of a user that has been handed out.
#[derive(Debug, Clone, PartialEq, Eq)]
pub struct ConsumedOneTimePreKey {
    pub user_id: String,
    pub key_id: u32,
}

impl PreKeyBundle {
    /// A copy of the bundle.
    pub fn duplicate(&self) -> (r: PreKeyBundle)
        ensures
            r@ == self@,
    {
        let mut ids: Vec<u32> = Vec::new();
        let mut i: usize = 0;
        while i < self.one_time_prekey_ids.len()
            invariant
                i <= self.one_time_prekey_ids@.len(),
                ids@ == self.one_time_prekey_ids@.take(i as int),
            decreases self.one_time_prekey_ids@.len() - i,
        {
            ids.push(self.one_time_prekey_ids[i]);
            assert(self.one_time_prekey_ids@.take(i as int + 1) =~= self.one_time_prekey_ids@.take(i as int).push(self.one_time_prekey_ids@[i as int]));
            i += 1;
        }
        assert(self.one_time_prekey_ids@.take(i as int) =~= self.one_time_prekey_ids@);
        PreKeyBundle {
            user_id: self.user_id.clone(),
            signed_prekey_id: self.signed_prekey_id,
            expires_at: self.expires_at,
            signed_prekey_expires_at: self.signed_prekey_expires_at,
            one_time_prekey_ids: ids,
        }
    }
}

impl SignedOneTimePreKeyRecord {
    /// A copy of the record.
    pub fn duplicate(&self) -> (r: SignedOneTimePreKeyRecord)
        ensures
            r == *self,
    {
        SignedOneTimePreKeyRecord {
            user_id: self.user_id.clone(),
            signed_prekey_id: self.signed_prekey_id,
            key_id: self.key_id,
            expires_at: self.expires_at,
        }
    }
}

/// What the store holds for one user: the bundle, the signed one-time prekey records
/// (none where the list is empty), and the ids of the one-time prekeys handed out.
pub struct UserPreKeys {
    pub bundle: Option<PreKeyBundle>,
    pub records: Seq<SignedOneTimePreKeyRecord>,
    pub consumed: Seq<u32>,
}

/// Nothing held for a user.
pub open spec fn no_prekeys() -> UserPreKeys {
    UserPreKeys { bundle: None, records: Seq::empty(), consumed: Seq::empty() }
}

/// The bundle as plain values, where there is one.
pub open spec fn opt_bundle_view(b: Option<PreKeyBundle>) -> Option<BundleView> {
    match b {
        Some(x) => Some(x@),
        None => None,
    }
}

/// The order of records: by signed prekey id, then by key id.
pub open spec fn record_before(a: SignedOneTimePreKeyRecord, b: SignedOneTimePreKeyRecord) -> bool {
    a.signed_prekey_id < b.signed_prekey_id || (a.signed_prekey_id == b.signed_prekey_id && a.key_id < b.key_id)
}

/// Records in strictly increasing (signed prekey id, key id) order: sorted, no key twice.
pub open spec fn records_sorted(s: Seq<SignedOneTimePreKeyRecord>) -> bool {
    forall|i: int, j: int| 0 <= i < j < s.len() ==> record_before(#[trigger] s[i], #[trigger] s[j])
}

/// Ids in strictly increasing order: sorted, none twice.
pub open spec fn ids_increasing(s: Seq<u32>) -> bool {
    forall|i: int, j: int| 0 <= i < j < s.len() ==> #[trigger] s[i] < #[trigger] s[j]
}

/// What holds of every user's entry: a bundle belongs to its user, records are held only
/// beside a bundle, records are sorted by key and consumed ids increase.
pub open spec fn user_ok(u: Seq<char>, st: UserPreKeys) -> bool {
    &&& (st.bundle matches Some(b) ==> b.user_id@ == u)
    &&& (st.records.len() > 0 ==> st.bundle is Some)
    &&& records_sorted(st.records)
    &&& ids_increasing(st.consumed)
}

/// One user's entry in the store.
struct UserEntry {
    user_id: String,
    bundle: Option<PreKeyBundle>,
    records: Vec<SignedOneTimePreKeyRecord>,
    consumed: Vec<u32>,
}

spec fn entry_state(e: UserEntry) -> UserPreKeys {
    UserPreKeys { bundle: e.bundle, records: e.records@, consumed: e.consumed@ }
}

spec fn unique_users(s: Seq<UserEntry>) -> bool {
    forall|i: int, j: int| 0 <= i < j < s.len() ==> (#[trigger] s[i]).user_id@ != (#[trigger] s[j]).user_id@
}

spec fn has_user(s: Seq<UserEntry>, u: Seq<char>) -> bool {
    exists|i: int| 0 <= i < s.len() && (#[trigger] s[i]).user_id@ == u
}

spec fn user_of(s: Seq<UserEntry>, u: Seq<char>) -> UserPreKeys {
    if has_user(s, u) {
        entry_state(s[choose|i: int| 0 <= i < s.len() && (#[trigger] s[i]).user_id@ == u])
    } else {
        no_prekeys()
    }
}

spec fn entries_ok(s: Seq<UserEntry>) -> bool {
    &&& unique_users(s)
    &&& forall|i: int| 0 <= i < s.len() ==> user_ok((#[trigger] s[i]).user_id@, entry_state(s[i]))
}

proof fn lemma_user_at(s: Seq<UserEntry>, i: int)
    requires
        unique_users(s),
        0 <= i < s.len(),
    ensures
        user_of(s, s[i].user_id@) == entry_state(s[i]),
{
    assert(has_user(s, s[i].user_id@));
    let j = choose|j: int| 0 <= j < s.len() && (#[trigger] s[j]).user_id@ == s[i].user_id@;
    if j != i {
        if j < i {
            assert(s[j].user_id@ != s[i].user_id@);
        } else {
            assert(s[i].user_id@ != s[j].user_id@);
        }
    }
}

proof fn lemma_user_absent(s: Seq<UserEntry>, u: Seq<char>)
    requires
        forall|i: int| 0 <= i < s.len() ==> (#[trigger] s[i]).user_id@ != u,
    ensures
        user_of(s, u) == no_prekeys(),
{
}

proof fn lemma_entries_ok_user(s: Seq<UserEntry>, u: Seq<char>)
    requires
        entries_ok(s),
    ensures
        user_ok(u, user_of(s, u)),
{
    if has_user(s, u) {
        let i = choose|i: int| 0 <= i < s.len() && (#[trigger] s[i]).user_id@ == u;
        lemma_user_at(s, i);
    }
}

proof fn lemma_update_entry(s: Seq<UserEntry>, i: int, e: UserEntry)
    requires
        unique_users(s),
        0 <= i < s.len(),
        e.user_id@ == s[i].user_id@,
    ensures
        unique_users(s.update(i, e)),
        forall|v: Seq<char>| #[trigger] user_of(s.update(i, e), v) == if v == e.user_id@ { entry_state(e) } else { user_of(s, v) },
{
    let t = s.update(i, e);
    assert(unique_users(t)) by {
        assert forall|a: int, b: int| 0 <= a < b < t.len() implies (#[trigger] t[a]).user_id@ != (#[trigger] t[b]).user_id@ by {
            assert(t[a].user_id@ == s[a].user_id@ && t[b].user_id@ == s[b].user_id@);
        }
    }
    assert forall|v: Seq<char>| #[trigger] user_of(t, v) == if v == e.user_id@ { entry_state(e) } else { user_of(s, v) } by {
        if v == e.user_id@ {
            lemma_user_at(t, i);
        } else if has_user(s, v) {
            let j = choose|j: int| 0 <= j < s.len() && (#[trigger] s[j]).user_id@ == v;
            lemma_user_at(s, j);
            assert(t[j] == s[j]);
            lemma_user_at(t, j);
        } else {
            assert forall|k: int| 0 <= k < t.len() implies (#[trigger] t[k]).user_id@ != v by {
                if k != i {
                    assert(t[k] == s[k]);
                }
            }
        }
    }
}

proof fn lemma_push_entry(s: Seq<UserEntry>, e: UserEntry)
    requires
        unique_users(s),
        forall|i: int| 0 <= i < s.len() ==> (#[trigger] s[i]).user_id@ != e.user_id@,
    ensures
        unique_users(s.push(e)),
        forall|v: Seq<char>| #[trigger] user_of(s.push(e), v) == if v == e.user_id@ { entry_state(e) } else { user_of(s, v) },
{
    let t = s.push(e);
    assert(unique_users(t)) by {
        assert forall|a: int, b: int| 0 <= a < b < t.len() implies (#[trigger] t[a]).user_id@ != (#[trigger] t[b]).user_id@ by {
            assert(t[a] == s[a]);
            if b < s.len() {
                assert(t[b] == s[b]);
            }
        }
    }
    assert forall|v: Seq<char>| #[trigger] user_of(t, v) == if v == e.user_id@ { entry_state(e) } else { user_of(s, v) } by {
        if v == e.user_id@ {
            lemma_user_at(t, s.len() as int);
        } else if has_user(s, v) {
            let j = choose|j: int| 0 <= j < s.len() && (#[trigger] s[j]).user_id@ == v;
            lemma_user_at(s, j);
            assert(t[j] == s[j]);
            lemma_user_at(t, j);
        } else {
            assert forall|k: int| 0 <= k < t.len() implies (#[trigger] t[k]).user_id@ != v by {
                if k < s.len() {
                    assert(t[k] == s[k]);
                }
            }
        }
    }
}

spec fn count_users(s: Seq<UserEntry>, p: spec_fn(UserPreKeys) -> bool) -> nat
    decreases s.len(),
{
    if s.len() == 0 {
        0
    } else {
        count_users(s.drop_last(), p) + if p(entry_state(s.last())) { 1nat } else { 0nat }
    }
}

spec fn users_where(s: Seq<UserEntry>, p: spec_fn(UserPreKeys) -> bool) -> Set<Seq<char>>
    decreases s.len(),
{
    if s.len() == 0 {
        Set::empty()
    } else if p(entry_state(s.last())) {
        users_where(s.drop_last(), p).insert(s.last().user_id@)
    } else {
        users_where(s.drop_last(), p)
    }
}

proof fn lemma_users_where(s: Seq<UserEntry>, p: spec_fn(UserPreKeys) -> bool)
    requires
        unique_users(s),
        !p(no_prekeys()),
    ensures
        users_where(s, p).finite(),
        users_where(s, p).len() == count_users(s, p),
        users_where(s, p) == Set::new(|u: Seq<char>| p(user_of(s, u))),
    decreases s.len(),
{
    if s.len() == 0 {
        assert(users_where(s, p) =~= Set::new(|u: Seq<char>| p(user_of(s, u))));
    } else {
        let q = s.drop_last();
        let e = s.last();
        assert(unique_users(q)) by {
            assert forall|a: int, b: int| 0 <= a < b < q.len() implies (#[trigger] q[a]).user_id@ != (#[trigger] q[b]).user_id@ by {
                assert(q[a] == s[a] && q[b] == s[b]);
            }
        }
        assert forall|i: int| 0 <= i < q.len() implies (#[trigger] q[i]).user_id@ != e.user_id@ by {
            assert(q[i] == s[i]);
        }
        assert(q.push(e) =~= s);
        lemma_push_entry(q, e);
        lemma_users_where(q, p);
        assert(!users_where(q, p).contains(e.user_id@)) by {
            lemma_user_absent(q, e.user_id@);
        }
        assert(users_where(s, p) =~= Set::new(|u: Seq<char>| p(user_of(s, u)))) by {
            assert forall|u: Seq<char>| users_where(s, p).contains(u) == p(#[trigger] user_of(s, u)) by {
                assert(user_of(q.push(e), u) == user_of(s, u));
            }
        }
    }
}

/// Whether a bundle is past its own expiry or its signed prekey's at `now`.
pub open spec fn bundle_expired(b: PreKeyBundle, now: u64) -> bool {
    b.expires_at <= now || b.signed_prekey_expires_at <= now
}

/// How many records are signed for signed prekey `spk`.
pub open spec fn count_current(records: Seq<SignedOneTimePreKeyRecord>, spk: u32) -> nat
    decreases records.len(),
{
    if records.len() == 0 {
        0
    } else {
        count_current(records.drop_last(), spk) + if records.last().signed_prekey_id == spk { 1nat } else { 0nat }
    }
}

/// How many records are signed for signed prekey `spk` and not yet handed out.
pub open spec fn count_fresh_records(records: Seq<SignedOneTimePreKeyRecord>, spk: u32, consumed: Seq<u32>) -> nat
    decreases records.len(),
{
    if records.len() == 0 {
        0
    } else {
        let r = records.last();
        count_fresh_records(records.drop_last(), spk, consumed)
            + if r.signed_prekey_id == spk && !consumed.contains(r.key_id) { 1nat } else { 0nat }
    }
}

/// How many of the ids are not yet handed out.
pub open spec fn count_fresh_ids(ids: Seq<u32>, consumed: Seq<u32>) -> nat
    decreases ids.len(),
{
    if ids.len() == 0 {
        0
    } else {
        count_fresh_ids(ids.drop_last(), consumed) + if !consumed.contains(ids.last()) { 1nat } else { 0nat }
    }
}

/// How many one-time prekeys a user has published for the current signed prekey: the
/// records signed for it where there are records, else the bundle's own one-time prekeys.
pub open spec fn published_count(st: UserPreKeys) -> Option<nat> {
    match st.bundle {
        None => None,
        Some(b) => if st.records.len() > 0 {
            Some(count_current(st.records, b.signed_prekey_id))
        } else {
            Some(b.one_time_prekey_ids@.len())
        },
    }
}

/// How many of those have not been handed out.
pub open spec fn remaining_count(st: UserPreKeys) -> Option<nat> {
    match st.bundle {
        None => None,
        Some(b) => if st.records.len() > 0 {
            Some(count_fresh_records(st.records, b.signed_prekey_id, st.consumed))
        } else {
            Some(count_fresh_ids(b.one_time_prekey_ids@, st.consumed))
        },
    }
}

/// Whether the user has a bundle.
pub open spec fn has_bundle(st: UserPreKeys) -> bool {
    st.bundle is Some
}

fn contains_id(ids: &Vec<u32>, id: u32) -> (r: bool)
    ensures
        r == ids@.contains(id),
{
    let mut i: usize = 0;
    while i < ids.len()
        invariant
            i <= ids@.len(),
            forall|k: int| 0 <= k < i ==> ids@[k] != id,
        decreases ids@.len() - i,
    {
        if ids[i] == id {
            assert(ids@[i as int] == id);
            return true;
        }
        i += 1;
    }
    false
}

fn count_current_records(records: &Vec<SignedOneTimePreKeyRecord>, spk: u32) -> (r: usize)
    ensures
        r == count_current(records@, spk),
{
    let mut n: usize = 0;
    let mut i: usize = 0;
    while i < records.len()
        invariant
            i <= records@.len(),
            n == count_current(records@.take(i as int), spk),
            n <= i,
        decreases records@.len() - i,
    {
        assert(records@.take(i as int + 1).drop_last() =~= records@.take(i as int));
        if records[i].signed_prekey_id == spk {
            n += 1;
        }
        i += 1;
    }
    assert(records@.take(i as int) =~= records@);
    n
}

fn count_fresh_record_keys(records: &Vec<SignedOneTimePreKeyRecord>, spk: u32, consumed: &Vec<u32>) -> (r: usize)
    ensures
        r == count_fresh_records(records@, spk, consumed@),
{
    let mut n: usize = 0;
    let mut i: usize = 0;
    while i < records.len()
        invariant
            i <= records@.len(),
            n == count_fresh_records(records@.take(i as int), spk, consumed@),
            n <= i,
        decreases records@.len() - i,
    {
        assert(records@.take(i as int + 1).drop_last() =~= records@.take(i as int));
        if records[i].signed_prekey_id == spk && !contains_id(consumed, records[i].key_id) {
            n += 1;
        }
        i += 1;
    }
    assert(records@.take(i as int) =~= records@);
    n
}

fn count_fresh_key_ids(ids: &Vec<u32>, consumed: &Vec<u32>) -> (r: usize)
    ensures
        r == count_fresh_ids(ids@, consumed@),
{
    let mut n: usize = 0;
    let mut i: usize = 0;
    while i < ids.len()
        invariant
            i <= ids@.len(),
            n == count_fresh_ids(ids@.take(i as int), consumed@),
            n <= i,
        decreases ids@.len() - i,
    {
        assert(ids@.take(i as int + 1).drop_last() =~= ids@.take(i as int));
        if !contains_id(consumed, ids[i]) {
            n += 1;
        }
        i += 1;
    }
    assert(ids@.take(i as int) =~= ids@);
    n
}

fn copy_ids(ids: &Vec<u32>) -> (r: Vec<u32>)
    ensures
        r@ == ids@,
{
    let mut out: Vec<u32> = Vec::new();
    let mut i: usize = 0;
    while i < ids.len()
        invariant
            i <= ids@.len(),
            out@ == ids@.take(i as int),
        decreases ids@.len() - i,
    {
        out.push(ids[i]);
        assert(ids@.take(i as int + 1) =~= ids@.take(i as int).push(ids@[i as int]));
        i += 1;
    }
    assert(ids@.take(i as int) =~= ids@);
    out
}

fn copy_records(records: &Vec<SignedOneTimePreKeyRecord>) -> (r: Vec<SignedOneTimePreKeyRecord>)
    ensures
        r@ == records@,
{
    let mut out: Vec<SignedOneTimePreKeyRecord> = Vec::new();
    let mut i: usize = 0;
    while i < records.len()
        invariant
            i <= records@.len(),
            out@ == records@.take(i as int),
        decreases records@.len() - i,
    {
        out.push(records[i].duplicate());
        assert(records@.take(i as int + 1) =~= records@.take(i as int).push(records@[i as int]));
        i += 1;
    }
    assert(records@.take(i as int) =~= records@);
    out
}

/// The records that `keep` keeps, in order.
pub open spec fn filter_records(rs: Seq<SignedOneTimePreKeyRecord>, keep: spec_fn(SignedOneTimePreKeyRecord) -> bool) -> Seq<SignedOneTimePreKeyRecord>
    decreases rs.len(),
{
    if rs.len() == 0 {
        rs
    } else {
        let p = filter_records(rs.drop_last(), keep);
        if keep(rs.last()) { p.push(rs.last()) } else { p }
    }
}

/// The ids that `keep` keeps, in order.
pub open spec fn filter_ids(c: Seq<u32>, keep: spec_fn(u32) -> bool) -> Seq<u32>
    decreases c.len(),
{
    if c.len() == 0 {
        c
    } else {
        let p = filter_ids(c.drop_last(), keep);
        if keep(c.last()) { p.push(c.last()) } else { p }
    }
}

proof fn lemma_filter_records(rs: Seq<SignedOneTimePreKeyRecord>, keep: spec_fn(SignedOneTimePreKeyRecord) -> bool)
    ensures
        forall|x: SignedOneTimePreKeyRecord| #[trigger] filter_records(rs, keep).contains(x) <==> (rs.contains(x) && keep(x)),
        records_sorted(rs) ==> records_sorted(filter_records(rs, keep)),
        filter_records(rs, keep).len() <= rs.len(),
    decreases rs.len(),
{
    if rs.len() > 0 {
        let q = rs.drop_last();
        let p = filter_records(q, keep);
        lemma_filter_records(q, keep);
        assert forall|x: SignedOneTimePreKeyRecord| filter_records(rs, keep).contains(x) <==> (rs.contains(x) && keep(x)) by {
            if rs.contains(x) {
                let i = choose|i: int| 0 <= i < rs.len() && rs[i] == x;
                if i < rs.len() - 1 {
                    assert(q[i] == x);
                }
            }
            if q.contains(x) {
                let i = choose|i: int| 0 <= i < q.len() && q[i] == x;
                assert(rs[i] == x);
            }
            if keep(rs.last()) {
                assert(p.push(rs.last()).contains(x) <==> (p.contains(x) || x == rs.last())) by {
                    if p.push(rs.last()).contains(x) && x != rs.last() {
                        let i = choose|i: int| 0 <= i < p.len() + 1 && p.push(rs.last())[i] == x;
                        assert(p[i] == x);
                    }
                    if p.contains(x) {
                        let i = choose|i: int| 0 <= i < p.len() && p[i] == x;
                        assert(p.push(rs.last())[i] == x);
                    }
                    if x == rs.last() {
                        assert(p.push(rs.last())[p.len() as int] == x);
                    }
                }
            }
        }
        if records_sorted(rs) {
            assert(records_sorted(q)) by {
                assert forall|i: int, j: int| 0 <= i < j < q.len() implies record_before(#[trigger] q[i], #[trigger] q[j]) by {
                    assert(q[i] == rs[i] && q[j] == rs[j]);
                }
            }
            if keep(rs.last()) {
                let t = p.push(rs.last());
                assert forall|i: int, j: int| 0 <= i < j < t.len() implies record_before(#[trigger] t[i], #[trigger] t[j]) by {
                    if j == t.len() - 1 {
                        assert(t[i] == p[i]);
                        assert(p.contains(p[i]));
                        assert(q.contains(p[i]));
                        let k = choose|k: int| 0 <= k < q.len() && q[k] == p[i];
                        assert(q[k] == rs[k]);
                        assert(record_before(rs[k], rs[rs.len() - 1]));
                    } else {
                        assert(t[i] == p[i] && t[j] == p[j]);
                    }
                }
            }
        }
    }
}

proof fn lemma_filter_ids(c: Seq<u32>, keep: spec_fn(u32) -> bool)
    ensures
        forall|x: u32| #[trigger] filter_ids(c, keep).contains(x) <==> (c.contains(x) && keep(x)),
        ids_increasing(c) ==> ids_increasing(filter_ids(c, keep)),
        filter_ids(c, keep).len() <= c.len(),
    decreases c.len(),
{
    if c.len() > 0 {
        let q = c.drop_last();
        let p = filter_ids(q, keep);
        lemma_filter_ids(q, keep);
        assert forall|x: u32| filter_ids(c, keep).contains(x) <==> (c.contains(x) && keep(x)) by {
            if c.contains(x) {
                let i = choose|i: int| 0 <= i < c.len() && c[i] == x;
                if i < c.len() - 1 {
                    assert(q[i] == x);
                }
            }
            if q.contains(x) {
                let i = choose|i: int| 0 <= i < q.len() && q[i] == x;
                assert(c[i] == x);
            }
            if keep(c.last()) {
                assert(p.push(c.last()).contains(x) <==> (p.contains(x) || x == c.last())) by {
                    if p.push(c.last()).contains(x) && x != c.last() {
                        let i = choose|i: int| 0 <= i < p.len() + 1 && p.push(c.last())[i] == x;
                        assert(p[i] == x);
                    }
                    if p.contains(x) {
                        let i = choose|i: int| 0 <= i < p.len() && p[i] == x;
                        assert(p.push(c.last())[i] == x);
                    }
                    if x == c.last() {
                        assert(p.push(c.last())[p.len() as int] == x);
                    }
                }
            }
        }
        if ids_increasing(c) {
            assert(ids_increasing(q)) by {
                assert forall|i: int, j: int| 0 <= i < j < q.len() implies #[trigger] q[i] < #[trigger] q[j] by {
                    assert(q[i] == c[i] && q[j] == c[j]);
                }
            }
            if keep(c.last()) {
                let t = p.push(c.last());
                assert forall|i: int, j: int| 0 <= i < j < t.len() implies #[trigger] t[i] < #[trigger] t[j] by {
                    if j == t.len() - 1 {
                        assert(t[i] == p[i]);
                        assert(p.contains(p[i]));
                        assert(q.contains(p[i]));
                        let k = choose|k: int| 0 <= k < q.len() && q[k] == p[i];
                        assert(q[k] == c[k]);
                        assert(c[k] < c[c.len() - 1]);
                    } else {
                        assert(t[i] == p[i] && t[j] == p[j]);
                    }
                }
            }
        }
    }
}

/// Whether `id` is a one-time prekey of the user's current signed prekey: one of the
/// records signed for it where there are records, else one of the bundle's own.
pub open spec fn valid_key_id(st: UserPreKeys, id: u32) -> bool {
    match st.bundle {
        None => false,
        Some(b) => if st.records.len() > 0 {
            exists|i: int| 0 <= i < st.records.len() && (#[trigger] st.records[i]).signed_prekey_id == b.signed_prekey_id && st.records[i].key_id == id
        } else {
            b.one_time_prekey_ids@.contains(id)
        },
    }
}

/// The user's entry with the handed-out ids that are no longer valid dropped.
pub open spec fn prune_consumed(st: UserPreKeys) -> UserPreKeys {
    UserPreKeys { consumed: filter_ids(st.consumed, |id: u32| valid_key_id(st, id)), ..st }
}

/// The user's entry after expiry at `now`: everything goes with an expired bundle; else
/// expired records go, and with records held the handed-out ids are pruned.
pub open spec fn expire_user(st: UserPreKeys, now: u64) -> UserPreKeys {
    if st.bundle matches Some(b) && bundle_expired(b, now) {
        no_prekeys()
    } else if st.records.len() > 0 {
        prune_consumed(UserPreKeys { records: filter_records(st.records, |r: SignedOneTimePreKeyRecord| r.expires_at > now), ..st })
    } else {
        st
    }
}

proof fn lemma_prune_consumed_ok(u: Seq<char>, st: UserPreKeys)
    requires
        user_ok(u, st),
    ensures
        user_ok(u, prune_consumed(st)),
{
    lemma_filter_ids(st.consumed, |id: u32| valid_key_id(st, id));
}

proof fn lemma_expire_user_ok(u: Seq<char>, st: UserPreKeys, now: u64)
    requires
        user_ok(u, st),
    ensures
        user_ok(u, expire_user(st, now)),
{
    if st.bundle matches Some(b) && bundle_expired(b, now) {
    } else if st.records.len() > 0 {
        lemma_filter_records(st.records, |r: SignedOneTimePreKeyRecord| r.expires_at > now);
        lemma_prune_consumed_ok(u, UserPreKeys { records: filter_records(st.records, |r: SignedOneTimePreKeyRecord| r.expires_at > now), ..st });
    }
}

spec fn bundle_with_records(b: PreKeyBundle, rs: Seq<SignedOneTimePreKeyRecord>) -> UserPreKeys {
    UserPreKeys { bundle: Some(b), records: rs, consumed: Seq::empty() }
}

fn is_valid_key_id(bundle: &PreKeyBundle, records: &Vec<SignedOneTimePreKeyRecord>, id: u32) -> (r: bool)
    ensures
        r == valid_key_id(bundle_with_records(*bundle, records@), id),
{
    if records.len() > 0 {
        let mut i: usize = 0;
        while i < records.len()
            invariant
                i <= records@.len(),
                forall|k: int| 0 <= k < i ==> !((#[trigger] records@[k]).signed_prekey_id == bundle.signed_prekey_id && records@[k].key_id == id),
            decreases records@.len() - i,
        {
            if records[i].signed_prekey_id == bundle.signed_prekey_id && records[i].key_id == id {
                return true;
            }
            i += 1;
        }
        false
    } else {
        contains_id(&bundle.one_time_prekey_ids, id)
    }
}

impl UserEntry {
    /// Drops the handed-out ids that are no longer valid.
    fn prune_consumed(&mut self)
        ensures
            final(self).user_id == old(self).user_id,
            entry_state(*final(self)) == prune_consumed(entry_state(*old(self))),
    {
        let ghost st = entry_state(*self);
        let ghost keep = |id: u32| valid_key_id(st, id);
        let mut kept: Vec<u32> = Vec::new();
        let mut i: usize = 0;
        while i < self.consumed.len()
            invariant
                st == entry_state(*self),
                keep == |id: u32| valid_key_id(st, id),
                i <= self.consumed@.len(),
                kept@ == filter_ids(self.consumed@.take(i as int), keep),
            decreases self.consumed@.len() - i,
        {
            let id = self.consumed[i];
            let valid = match &self.bundle {
                None => false,
                Some(b) => is_valid_key_id(b, &self.records, id),
            };
            assert(self.consumed@.take(i as int + 1).drop_last() =~= self.consumed@.take(i as int));
            assert(valid == keep(id));
            if valid {
                kept.push(id);
            }
            i += 1;
        }
        assert(self.consumed@.take(i as int) =~= self.consumed@);
        self.consumed = kept;
    }

    /// Applies expiry at `now`; says whether the bundle itself expired.
    fn expire(&mut self, now: u64) -> (r: bool)
        ensures
            final(self).user_id == old(self).user_id,
            entry_state(*final(self)) == expire_user(entry_state(*old(self)), now),
            r == (entry_state(*old(self)).bundle matches Some(b) && bundle_expired(b, now)),
    {
        let expired = match &self.bundle {
            Some(b) => b.expires_at <= now || b.signed_prekey_expires_at <= now,
            None => false,
        };
        if expired {
            self.bundle = None;
            self.records = Vec::new();
            self.consumed = Vec::new();
            assert(entry_state(*self) =~= no_prekeys());
            return true;
        }
        if self.records.len() > 0 {
            let ghost keep = |r: SignedOneTimePreKeyRecord| r.expires_at > now;
            let mut kept: Vec<SignedOneTimePreKeyRecord> = Vec::new();
            let mut i: usize = 0;
            while i < self.records.len()
                invariant
                    keep == |r: SignedOneTimePreKeyRecord| r.expires_at > now,
                    i <= self.records@.len(),
                    kept@ == filter_records(self.records@.take(i as int), keep),
                decreases self.records@.len() - i,
            {
                assert(self.records@.take(i as int + 1).drop_last() =~= self.records@.take(i as int));
                if self.records[i].expires_at > now {
                    kept.push(self.records[i].duplicate());
                }
                i += 1;
            }
            assert(self.records@.take(i as int) =~= self.records@);
            self.records = kept;
            self.prune_consumed();
        }
        false
    }
}

proof fn lemma_user_index(s: Seq<UserEntry>, u: Seq<char>) -> (i: int)
    requires
        unique_users(s),
        has_user(s, u),
    ensures
        0 <= i < s.len(),
        s[i].user_id@ == u,
        user_of(s, u) == entry_state(s[i]),
{
    let i = choose|i: int| 0 <= i < s.len() && (#[trigger] s[i]).user_id@ == u;
    lemma_user_at(s, i);
    i
}

/// The first record, in order, signed for `spk` whose key has not been handed out.
pub open spec fn first_fresh_record(rs: Seq<SignedOneTimePreKeyRecord>, spk: u32, consumed: Seq<u32>) -> Option<SignedOneTimePreKeyRecord>
    decreases rs.len(),
{
    if rs.len() == 0 {
        None
    } else if rs[0].signed_prekey_id == spk && !consumed.contains(rs[0].key_id) {
        Some(rs[0])
    } else {
        first_fresh_record(rs.subrange(1, rs.len() as int), spk, consumed)
    }
}

/// The first id, in order, that has not been handed out.
pub open spec fn first_fresh_id(ids: Seq<u32>, consumed: Seq<u32>) -> Option<u32>
    decreases ids.len(),
{
    if ids.len() == 0 {
        None
    } else if !consumed.contains(ids[0]) {
        Some(ids[0])
    } else {
        first_fresh_id(ids.subrange(1, ids.len() as int), consumed)
    }
}

/// The one-time prekey a take hands out, as its id and, where it comes from a record, the
/// record: the first fresh record signed for the current signed prekey; where the user has
/// records but none is fresh, nothing; without records, the bundle's first fresh key.
pub open spec fn selection(st: UserPreKeys) -> (Option<u32>, Option<SignedOneTimePreKeyRecord>) {
    match st.bundle {
        None => (None, None),
        Some(b) => match first_fresh_record(st.records, b.signed_prekey_id, st.consumed) {
            Some(r) => (Some(r.key_id), Some(r)),
            None => if st.records.len() > 0 {
                (None, None)
            } else {
                (first_fresh_id(b.one_time_prekey_ids@, st.consumed), None)
            },
        },
    }
}

/// How many ids lead `c` that are below `k`.
pub open spec fn count_below(c: Seq<u32>, k: u32) -> nat
    decreases c.len(),
{
    if c.len() == 0 {
        0
    } else if c[0] < k {
        1 + count_below(c.subrange(1, c.len() as int), k)
    } else {
        0
    }
}

/// `c` with `k` added in order (unchanged where `k` is already at its place).
pub open spec fn insert_id(c: Seq<u32>, k: u32) -> Seq<u32> {
    let p = count_below(c, k) as int;
    if p < c.len() && c[p] == k { c } else { c.insert(p, k) }
}

/// A take from the user's (already expired) entry: nothing without a bundle; else the
/// bundle with the selection, and where `consume` holds and a key was selected, that key
/// counted as handed out.
pub open spec fn take_user(st: UserPreKeys, consume: bool) -> (UserPreKeys, Option<(BundleView, Option<u32>, Option<SignedOneTimePreKeyRecord>)>) {
    match st.bundle {
        None => (st, None),
        Some(b) => {
            let (id, rec) = selection(st);
            let next = match id {
                Some(k) => if consume { UserPreKeys { consumed: insert_id(st.consumed, k), ..st } } else { st },
                None => st,
            };
            (next, Some((b@, id, rec)))
        },
    }
}

/// A take's result as plain values.
pub open spec fn taken_view(r: Option<(PreKeyBundle, Option<u32>, Option<SignedOneTimePreKeyRecord>)>) -> Option<(BundleView, Option<u32>, Option<SignedOneTimePreKeyRecord>)> {
    match r {
        Some((b, id, rec)) => Some((b@, id, rec)),
        None => None,
    }
}

proof fn lemma_count_below(c: Seq<u32>, k: u32)
    ensures
        count_below(c, k) <= c.len(),
        forall|j: int| 0 <= j < count_below(c, k) ==> c[j] < k,
        count_below(c, k) < c.len() ==> c[count_below(c, k) as int] >= k,
    decreases c.len(),
{
    if c.len() > 0 && c[0] < k {
        let t = c.subrange(1, c.len() as int);
        lemma_count_below(t, k);
        assert forall|j: int| 0 <= j < count_below(c, k) implies c[j] < k by {
            if j > 0 {
                assert(c[j] == t[j - 1]);
            }
        }
        if count_below(c, k) < c.len() {
            assert(c[count_below(c, k) as int] == t[count_below(t, k) as int]);
        }
    }
}

proof fn lemma_insert_id(c: Seq<u32>, k: u32)
    requires
        ids_increasing(c),
    ensures
        ids_increasing(insert_id(c, k)),
        forall|x: u32| insert_id(c, k).contains(x) <==> (c.contains(x) || x == k),
        !c.contains(k) ==> insert_id(c, k).len() == c.len() + 1,
{
    lemma_count_below(c, k);
    let p = count_below(c, k) as int;
    if p < c.len() && c[p] == k {
        assert(c.contains(k));
    } else {
        let t = c.insert(p, k);
        assert forall|i: int, j: int| 0 <= i < j < t.len() implies #[trigger] t[i] < #[trigger] t[j] by {
            if j < p {
                assert(t[i] == c[i] && t[j] == c[j]);
            } else if j == p {
                assert(t[i] == c[i]);
            } else if i < p {
                assert(t[i] == c[i] && t[j] == c[j - 1]);
                if p < c.len() {
                    assert(c[p] > k);
                    if j - 1 > p {
                        assert(c[p] < c[j - 1]);
                    }
                }
            } else if i == p {
                assert(t[j] == c[j - 1]);
                assert(c[p] >= k && c[p] != k);
                if j - 1 > p {
                    assert(c[p] < c[j - 1]);
                }
            } else {
                assert(t[i] == c[i - 1] && t[j] == c[j - 1]);
            }
        }
        assert forall|x: u32| t.contains(x) <==> (c.contains(x) || x == k) by {
            if t.contains(x) {
                let i = choose|i: int| 0 <= i < t.len() && t[i] == x;
                if i < p {
                    assert(c[i] == x);
                } else if i > p {
                    assert(c[i - 1] == x);
                }
            }
            if c.contains(x) {
                let i = choose|i: int| 0 <= i < c.len() && c[i] == x;
                if i < p {
                    assert(t[i] == x);
                } else {
                    assert(t[i + 1] == x);
                }
            }
            if x == k {
                assert(t[p] == x);
            }
        }
    }
}

/// The ids of the handed-out keys only grow by a take, by the key it hands out.
proof fn lemma_take_user_ok(u: Seq<char>, st: UserPreKeys, consume: bool)
    requires
        user_ok(u, st),
    ensures
        user_ok(u, take_user(st, consume).0),
{
    if let Some(k) = selection(st).0 {
        lemma_insert_id(st.consumed, k);
    }
}

fn insert_id_sorted(c: &mut Vec<u32>, k: u32)
    ensures
        final(c)@ == insert_id(old(c)@, k),
{
    let ghost c0 = c@;
    let mut p: usize = 0;
    assert(c0.subrange(0, c0.len() as int) =~= c0);
    while p < c.len() && c[p] < k
        invariant
            c@ == c0,
            p <= c0.len(),
            count_below(c0, k) == p + count_below(c0.subrange(p as int, c0.len() as int), k),
        decreases c0.len() - p,
    {
        assert(c0.subrange(p as int, c0.len() as int).subrange(1, c0.len() - p) =~= c0.subrange(p as int + 1, c0.len() as int));
        p += 1;
    }
    assert(count_below(c0.subrange(p as int, c0.len() as int), k) == 0);
    if p < c.len() && c[p] == k {
        return;
    }
    c.insert(p, k);
}

/// Why a bundle was not published.
#[derive(Debug, Clone, Copy, PartialEq, Eq, Structural)]
pub enum PreKeyPublishError {
    /// More signed one-time prekey records than the store takes at once.
    PayloadTooLarge,
    /// The bundle's own signature does not hold.
    InvalidBundle,
    /// A record was not signed for the bundle.
    InvalidSignedOneTimePreKeyRecord,
}

/// Whether `verify_bundle` accepts the bundle.
pub open spec fn bundle_accepted<FB: Fn(&PreKeyBundle) -> bool>(verify_bundle: FB, b: PreKeyBundle) -> bool {
    call_ensures(verify_bundle, (&b,), true)
}

/// Whether `verify_record` accepts the record as signed for the bundle.
pub open spec fn record_accepted<FR: Fn(&SignedOneTimePreKeyRecord, &PreKeyBundle) -> bool>(
    verify_record: FR,
    r: SignedOneTimePreKeyRecord,
    b: PreKeyBundle,
) -> bool {
    call_ensures(verify_record, (&r, &b), true)
}

/// `verify_bundle` answers for every bundle, and one way only.
pub open spec fn decides_bundles<FB: Fn(&PreKeyBundle) -> bool>(verify_bundle: FB) -> bool {
    forall|b: PreKeyBundle| #[trigger] call_requires(verify_bundle, (&b,))
        && !(call_ensures(verify_bundle, (&b,), true) && call_ensures(verify_bundle, (&b,), false))
}

/// `verify_record` answers for every record and bundle, and one way only.
pub open spec fn decides_records<FR: Fn(&SignedOneTimePreKeyRecord, &PreKeyBundle) -> bool>(verify_record: FR) -> bool {
    forall|r: SignedOneTimePreKeyRecord, b: PreKeyBundle| #[trigger] call_requires(verify_record, (&r, &b))
        && !(call_ensures(verify_record, (&r, &b), true) && call_ensures(verify_record, (&r, &b), false))
}

/// How many records lead `list` that come before `r` in record order.
pub open spec fn count_before(list: Seq<SignedOneTimePreKeyRecord>, r: SignedOneTimePreKeyRecord) -> nat
    decreases list.len(),
{
    if list.len() == 0 {
        0
    } else if record_before(list[0], r) {
        1 + count_before(list.subrange(1, list.len() as int), r)
    } else {
        0
    }
}

/// Whether two records have the same signed prekey id and key id.
pub open spec fn same_key(a: SignedOneTimePreKeyRecord, b: SignedOneTimePreKeyRecord) -> bool {
    a.signed_prekey_id == b.signed_prekey_id && a.key_id == b.key_id
}

/// `list` with `r` in its place by key: replacing the record with the same key, else
/// inserted in order.
pub open spec fn merge_record(list: Seq<SignedOneTimePreKeyRecord>, r: SignedOneTimePreKeyRecord) -> Seq<SignedOneTimePreKeyRecord> {
    let p = count_before(list, r) as int;
    if p < list.len() && same_key(list[p], r) { list.update(p, r) } else { list.insert(p, r) }
}

/// `list` with the incoming records merged in turn (a later record replaces an earlier one
/// with the same key).
pub open spec fn merge_records(list: Seq<SignedOneTimePreKeyRecord>, incoming: Seq<SignedOneTimePreKeyRecord>) -> Seq<SignedOneTimePreKeyRecord>
    decreases incoming.len(),
{
    if incoming.len() == 0 {
        list
    } else {
        merge_record(merge_records(list, incoming.drop_last()), incoming.last())
    }
}

/// The user's entry after `bundle` is published with `records`: a new signed prekey (or a
/// first bundle) drops the records and handed-out ids held so far; the records are merged
/// in, those `verify_record` does not accept for the bundle are dropped, and then the
/// handed-out ids no longer valid.
pub open spec fn publish_user<FR: Fn(&SignedOneTimePreKeyRecord, &PreKeyBundle) -> bool>(
    st: UserPreKeys,
    bundle: PreKeyBundle,
    records: Seq<SignedOneTimePreKeyRecord>,
    verify_record: FR,
) -> UserPreKeys {
    let reset = match st.bundle {
        Some(b) => b.signed_prekey_id != bundle.signed_prekey_id,
        None => true,
    };
    let kept = if reset { Seq::empty() } else { st.records };
    let merged = merge_records(kept, records);
    let checked = filter_records(merged, |r: SignedOneTimePreKeyRecord| record_accepted(verify_record, r, bundle));
    prune_consumed(UserPreKeys {
        bundle: Some(bundle),
        records: checked,
        consumed: if reset { Seq::empty() } else { st.consumed },
    })
}

proof fn lemma_count_before(list: Seq<SignedOneTimePreKeyRecord>, r: SignedOneTimePreKeyRecord)
    ensures
        count_before(list, r) <= list.len(),
        forall|j: int| 0 <= j < count_before(list, r) ==> record_before(#[trigger] list[j], r),
        count_before(list, r) < list.len() ==> !record_before(list[count_before(list, r) as int], r),
    decreases list.len(),
{
    if list.len() > 0 && record_before(list[0], r) {
        let t = list.subrange(1, list.len() as int);
        lemma_count_before(t, r);
        assert forall|j: int| 0 <= j < count_before(list, r) implies record_before(#[trigger] list[j], r) by {
            if j > 0 {
                assert(list[j] == t[j - 1]);
            }
        }
        if count_before(list, r) < list.len() {
            assert(list[count_before(list, r) as int] == t[count_before(t, r) as int]);
        }
    }
}

proof fn lemma_merge_record_sorted(list: Seq<SignedOneTimePreKeyRecord>, r: SignedOneTimePreKeyRecord)
    requires
        records_sorted(list),
    ensures
        records_sorted(merge_record(list, r)),
{
    lemma_count_before(list, r);
    let p = count_before(list, r) as int;
    let t = merge_record(list, r);
    if p < list.len() && same_key(list[p], r) {
        assert forall|i: int, j: int| 0 <= i < j < t.len() implies record_before(#[trigger] t[i], #[trigger] t[j]) by {
            assert(record_before(list[i], list[j]));
        }
    } else {
        assert forall|i: int, j: int| 0 <= i < j < t.len() implies record_before(#[trigger] t[i], #[trigger] t[j]) by {
            if j < p {
                assert(t[i] == list[i] && t[j] == list[j]);
            } else if j == p {
                assert(t[i] == list[i]);
            } else if i < p {
                assert(t[i] == list[i] && t[j] == list[j - 1]);
                if j - 1 > p {
                    assert(record_before(list[p], list[j - 1]));
                }
            } else if i == p {
                assert(t[j] == list[j - 1]);
                if j - 1 > p {
                    assert(record_before(list[p], list[j - 1]));
                }
            } else {
                assert(t[i] == list[i - 1] && t[j] == list[j - 1]);
            }
        }
    }
}

proof fn lemma_merge_records_sorted(list: Seq<SignedOneTimePreKeyRecord>, incoming: Seq<SignedOneTimePreKeyRecord>)
    requires
        records_sorted(list),
    ensures
        records_sorted(merge_records(list, incoming)),
    decreases incoming.len(),
{
    if incoming.len() > 0 {
        lemma_merge_records_sorted(list, incoming.drop_last());
        lemma_merge_record_sorted(merge_records(list, incoming.drop_last()), incoming.last());
    }
}

proof fn lemma_publish_user_ok<FR: Fn(&SignedOneTimePreKeyRecord, &PreKeyBundle) -> bool>(
    st: UserPreKeys,
    bundle: PreKeyBundle,
    records: Seq<SignedOneTimePreKeyRecord>,
    verify_record: FR,
)
    requires
        user_ok(bundle.user_id@, st),
    ensures
        user_ok(bundle.user_id@, publish_user(st, bundle, records, verify_record)),
{
    let reset = match st.bundle {
        Some(b) => b.signed_prekey_id != bundle.signed_prekey_id,
        None => true,
    };
    let kept = if reset { Seq::<SignedOneTimePreKeyRecord>::empty() } else { st.records };
    lemma_merge_records_sorted(kept, records);
    let merged = merge_records(kept, records);
    let keep = |r: SignedOneTimePreKeyRecord| record_accepted(verify_record, r, bundle);
    lemma_filter_records(merged, keep);
    let mid = UserPreKeys {
        bundle: Some(bundle),
        records: filter_records(merged, keep),
        consumed: if reset { Seq::empty() } else { st.consumed },
    };
    lemma_prune_consumed_ok(bundle.user_id@, mid);
}

fn merge_record_into(list: &mut Vec<SignedOneTimePreKeyRecord>, r: SignedOneTimePreKeyRecord)
    ensures
        final(list)@ == merge_record(old(list)@, r),
{
    let ghost l0 = list@;
    let mut p: usize = 0;
    assert(l0.subrange(0, l0.len() as int) =~= l0);
    while p < list.len()
        && (list[p].signed_prekey_id < r.signed_prekey_id
            || (list[p].signed_prekey_id == r.signed_prekey_id && list[p].key_id < r.key_id))
        invariant
            list@ == l0,
            p <= l0.len(),
            count_before(l0, r) == p + count_before(l0.subrange(p as int, l0.len() as int), r),
        decreases l0.len() - p,
    {
        assert(l0.subrange(p as int, l0.len() as int).subrange(1, l0.len() - p) =~= l0.subrange(p as int + 1, l0.len() as int));
        p += 1;
    }
    assert(count_before(l0.subrange(p as int, l0.len() as int), r) == 0);
    if p < list.len() && list[p].signed_prekey_id == r.signed_prekey_id && list[p].key_id == r.key_id {
        list.set(p, r);
    } else {
        list.insert(p, r);
    }
}

fn retain_accepted<FR: Fn(&SignedOneTimePreKeyRecord, &PreKeyBundle) -> bool>(
    list: &Vec<SignedOneTimePreKeyRecord>,
    bundle: &PreKeyBundle,
    verify_record: &FR,
) -> (r: Vec<SignedOneTimePreKeyRecord>)
    requires
        decides_records(*verify_record),
    ensures
        r@ == filter_records(list@, |x: SignedOneTimePreKeyRecord| record_accepted(*verify_record, x, *bundle)),
{
    let ghost keep = |x: SignedOneTimePreKeyRecord| record_accepted(*verify_record, x, *bundle);
    let mut kept: Vec<SignedOneTimePreKeyRecord> = Vec::new();
    let mut i: usize = 0;
    while i < list.len()
        invariant
            decides_records(*verify_record),
            keep == |x: SignedOneTimePreKeyRecord| record_accepted(*verify_record, x, *bundle),
            i <= list@.len(),
            kept@ == filter_records(list@.take(i as int), keep),
        decreases list@.len() - i,
    {
        assert(list@.take(i as int + 1).drop_last() =~= list@.take(i as int));
        assert(call_requires(*verify_record, (&list@[i as int], bundle)));
        let ok = verify_record(&list[i], bundle);
        assert(ok == keep(list@[i as int]));
        if ok {
            kept.push(list[i].duplicate());
        }
        i += 1;
    }
    assert(list@.take(i as int) =~= list@);
    kept
}

proof fn lemma_first_fresh_record(rs: Seq<SignedOneTimePreKeyRecord>, spk: u32, c: Seq<u32>)
    ensures
        first_fresh_record(rs, spk, c) matches Some(r) ==> rs.contains(r) && r.signed_prekey_id == spk && !c.contains(r.key_id),
    decreases rs.len(),
{
    if rs.len() > 0 {
        let t = rs.subrange(1, rs.len() as int);
        lemma_first_fresh_record(t, spk, c);
        if rs[0].signed_prekey_id == spk && !c.contains(rs[0].key_id) {
            assert(rs[0] == rs[0]);
        } else if let Some(r) = first_fresh_record(t, spk, c) {
            let i = choose|i: int| 0 <= i < t.len() && t[i] == r;
            assert(rs[i + 1] == r);
        }
    }
}

proof fn lemma_first_fresh_id(ids: Seq<u32>, c: Seq<u32>)
    ensures
        first_fresh_id(ids, c) matches Some(k) ==> ids.contains(k) && !c.contains(k),
    decreases ids.len(),
{
    if ids.len() > 0 {
        let t = ids.subrange(1, ids.len() as int);
        lemma_first_fresh_id(t, c);
        if !c.contains(ids[0]) {
            assert(ids[0] == ids[0]);
        } else if let Some(k) = first_fresh_id(t, c) {
            let i = choose|i: int| 0 <= i < t.len() && t[i] == k;
            assert(ids[i + 1] == k);
        }
    }
}

/// The key a take selects has not been handed out and belongs to the current signed
/// prekey.
proof fn lemma_selection_fresh(st: UserPreKeys)
    ensures
        selection(st).0 matches Some(k) ==> !st.consumed.contains(k) && valid_key_id(st, k),
{
    if let Some(b) = st.bundle {
        lemma_first_fresh_record(st.records, b.signed_prekey_id, st.consumed);
        lemma_first_fresh_id(b.one_time_prekey_ids@, st.consumed);
        if let Some(r) = first_fresh_record(st.records, b.signed_prekey_id, st.consumed) {
            let i = choose|i: int| 0 <= i < st.records.len() && st.records[i] == r;
            assert(st.records[i].signed_prekey_id == b.signed_prekey_id && st.records[i].key_id == r.key_id);
        }
    }
}

proof fn lemma_filter_records_all_kept(rs: Seq<SignedOneTimePreKeyRecord>, keep: spec_fn(SignedOneTimePreKeyRecord) -> bool)
    requires
        forall|i: int| 0 <= i < rs.len() ==> keep(#[trigger] rs[i]),
    ensures
        filter_records(rs, keep) == rs,
    decreases rs.len(),
{
    if rs.len() > 0 {
        let q = rs.drop_last();
        assert forall|i: int| 0 <= i < q.len() implies keep(#[trigger] q[i]) by {
            assert(q[i] == rs[i]);
        }
        lemma_filter_records_all_kept(q, keep);
        assert(keep(rs[rs.len() - 1]));
        assert(q.push(rs.last()) =~= rs);
    }
}

proof fn lemma_filter_ids_all_kept(c: Seq<u32>, keep: spec_fn(u32) -> bool)
    requires
        forall|i: int| 0 <= i < c.len() ==> keep(#[trigger] c[i]),
    ensures
        filter_ids(c, keep) == c,
    decreases c.len(),
{
    if c.len() > 0 {
        let q = c.drop_last();
        assert forall|i: int| 0 <= i < q.len() implies keep(#[trigger] q[i]) by {
            assert(q[i] == c[i]);
        }
        lemma_filter_ids_all_kept(q, keep);
        assert(keep(c[c.len() - 1]));
        assert(q.push(c.last()) =~= c);
    }
}

/// After expiry at `now` no expired bundle and no expired record is left.
pub proof fn lemma_expiry_leaves_nothing_expired(st: UserPreKeys, now: u64)
    ensures
        expire_user(st, now).bundle matches Some(b) ==> !bundle_expired(b, now),
        forall|i: int| 0 <= i < expire_user(st, now).records.len() ==> (#[trigger] expire_user(st, now).records[i]).expires_at > now,
{
    if st.bundle matches Some(b) && bundle_expired(b, now) {
    } else if st.records.len() > 0 {
        let keep = |r: SignedOneTimePreKeyRecord| r.expires_at > now;
        lemma_filter_records(st.records, keep);
        let rs = filter_records(st.records, keep);
        assert forall|i: int| 0 <= i < rs.len() implies (#[trigger] rs[i]).expires_at > now by {
            assert(rs.contains(rs[i]));
        }
    }
}

/// Expiring twice at the same time is expiring once.
pub proof fn lemma_expiry_idempotent(st: UserPreKeys, now: u64)
    ensures
        expire_user(expire_user(st, now), now) == expire_user(st, now),
{
    if st.bundle matches Some(b) && bundle_expired(b, now) {
        assert(expire_user(no_prekeys(), now) == no_prekeys());
    } else if st.records.len() > 0 {
        let keep = |r: SignedOneTimePreKeyRecord| r.expires_at > now;
        let st1 = UserPreKeys { records: filter_records(st.records, keep), ..st };
        let p = prune_consumed(st1);
        lemma_expiry_leaves_nothing_expired(st, now);
        if p.records.len() > 0 {
            lemma_filter_records_all_kept(p.records, keep);
            let q = UserPreKeys { records: filter_records(p.records, keep), ..p };
            assert(q == p);
            let valid1 = |id: u32| valid_key_id(st1, id);
            let validp = |id: u32| valid_key_id(p, id);
            lemma_filter_ids(st1.consumed, valid1);
            assert forall|i: int| 0 <= i < p.consumed.len() implies validp(#[trigger] p.consumed[i]) by {
                assert(p.consumed.contains(p.consumed[i]));
                assert(valid_key_id(st1, p.consumed[i]));
            }
            lemma_filter_ids_all_kept(p.consumed, validp);
            assert(prune_consumed(p) == p);
        }
    }
}

/// A take hands out a key that has not been handed out before; a consuming take counts it
/// as handed out and changes nothing else; a take that hands out no key, or does not
/// consume, changes nothing.
pub proof fn lemma_take_hands_out_fresh_key(u: Seq<char>, st: UserPreKeys, consume: bool)
    requires
        user_ok(u, st),
    ensures
        take_user(st, consume).1 matches Some((_, Some(k), _)) ==> !st.consumed.contains(k),
        take_user(st, consume).1 matches Some((_, Some(k), _)) ==> consume ==> {
            let next = take_user(st, consume).0;
            &&& next.bundle == st.bundle
            &&& next.records == st.records
            &&& ids_increasing(next.consumed)
            &&& forall|x: u32| next.consumed.contains(x) <==> (st.consumed.contains(x) || x == k)
        },
        !(take_user(st, consume).1 matches Some((_, Some(_), _))) ==> take_user(st, consume).0 == st,
        !consume ==> take_user(st, consume).0 == st,
{
    lemma_selection_fresh(st);
    if let Some(k) = selection(st).0 {
        lemma_insert_id(st.consumed, k);
    }
}

/// Two consuming takes at the same time never hand out the same one-time prekey.
pub proof fn lemma_consuming_takes_differ(u: Seq<char>, st: UserPreKeys, now: u64)
    requires
        user_ok(u, st),
    ensures
        ({
            let first = take_user(expire_user(st, now), true);
            let second = take_user(expire_user(first.0, now), true);
            first.1 matches Some((_, Some(k1), _)) ==> (second.1 matches Some((_, Some(k2), _)) ==> k1 != k2)
        }),
{
    let p = expire_user(st, now);
    lemma_expire_user_ok(u, st, now);
    let first = take_user(p, true);
    if let Some((_, Some(k1), _)) = first.1 {
        lemma_take_hands_out_fresh_key(u, p, true);
        lemma_selection_fresh(p);
        let p1 = first.0;
        lemma_take_user_ok(u, p, true);
        let p2 = expire_user(p1, now);
        lemma_expiry_leaves_nothing_expired(st, now);
        let b = p.bundle.unwrap();
        assert(!bundle_expired(b, now));
        assert(p1.consumed.contains(k1));
        assert(p2.consumed.contains(k1)) by {
            if p1.records.len() > 0 {
                let keep = |r: SignedOneTimePreKeyRecord| r.expires_at > now;
                lemma_filter_records_all_kept(p1.records, keep);
                let q = UserPreKeys { records: filter_records(p1.records, keep), ..p1 };
                assert(q == p1);
                let valid = |id: u32| valid_key_id(p1, id);
                assert(valid_key_id(p, k1));
                assert(valid(k1));
                lemma_filter_ids(p1.consumed, valid);
            }
        }
        lemma_selection_fresh(p2);
    }
}

/// How many records are signed for `spk` with key id `k`.
pub open spec fn count_key_records(rs: Seq<SignedOneTimePreKeyRecord>, spk: u32, k: u32) -> nat
    decreases rs.len(),
{
    if rs.len() == 0 {
        0
    } else {
        count_key_records(rs.drop_last(), spk, k)
            + if rs.last().signed_prekey_id == spk && rs.last().key_id == k { 1nat } else { 0nat }
    }
}

/// How many times `k` occurs in `ids`.
pub open spec fn count_id(ids: Seq<u32>, k: u32) -> nat
    decreases ids.len(),
{
    if ids.len() == 0 {
        0
    } else {
        count_id(ids.drop_last(), k) + if ids.last() == k { 1nat } else { 0nat }
    }
}

/// No id occurs twice.
pub open spec fn ids_distinct(s: Seq<u32>) -> bool {
    forall|i: int, j: int| 0 <= i < j < s.len() ==> #[trigger] s[i] != #[trigger] s[j]
}

proof fn lemma_fresh_records_after_insert(rs: Seq<SignedOneTimePreKeyRecord>, spk: u32, c: Seq<u32>, c2: Seq<u32>, k: u32)
    requires
        !c.contains(k),
        forall|x: u32| #[trigger] c2.contains(x) <==> (c.contains(x) || x == k),
    ensures
        count_fresh_records(rs, spk, c) == count_fresh_records(rs, spk, c2) + count_key_records(rs, spk, k),
    decreases rs.len(),
{
    if rs.len() > 0 {
        lemma_fresh_records_after_insert(rs.drop_last(), spk, c, c2, k);
        assert(c2.contains(rs.last().key_id) == (c.contains(rs.last().key_id) || rs.last().key_id == k));
    }
}

proof fn lemma_fresh_ids_after_insert(ids: Seq<u32>, c: Seq<u32>, c2: Seq<u32>, k: u32)
    requires
        !c.contains(k),
        forall|x: u32| #[trigger] c2.contains(x) <==> (c.contains(x) || x == k),
    ensures
        count_fresh_ids(ids, c) == count_fresh_ids(ids, c2) + count_id(ids, k),
    decreases ids.len(),
{
    if ids.len() > 0 {
        lemma_fresh_ids_after_insert(ids.drop_last(), c, c2, k);
        assert(c2.contains(ids.last()) == (c.contains(ids.last()) || ids.last() == k));
    }
}

proof fn lemma_count_key_records_none(rs: Seq<SignedOneTimePreKeyRecord>, spk: u32, k: u32)
    requires
        forall|i: int| 0 <= i < rs.len() ==> !((#[trigger] rs[i]).signed_prekey_id == spk && rs[i].key_id == k),
    ensures
        count_key_records(rs, spk, k) == 0,
    decreases rs.len(),
{
    if rs.len() > 0 {
        let q = rs.drop_last();
        assert forall|i: int| 0 <= i < q.len() implies !((#[trigger] q[i]).signed_prekey_id == spk && q[i].key_id == k) by {
            assert(q[i] == rs[i]);
        }
        lemma_count_key_records_none(q, spk, k);
        assert(rs.last() == rs[rs.len() - 1]);
    }
}

proof fn lemma_count_key_records_one(rs: Seq<SignedOneTimePreKeyRecord>, r: SignedOneTimePreKeyRecord)
    requires
        records_sorted(rs),
        rs.contains(r),
    ensures
        count_key_records(rs, r.signed_prekey_id, r.key_id) == 1,
    decreases rs.len(),
{
    let q = rs.drop_last();
    let l = rs.last();
    assert(records_sorted(q)) by {
        assert forall|i: int, j: int| 0 <= i < j < q.len() implies record_before(#[trigger] q[i], #[trigger] q[j]) by {
            assert(q[i] == rs[i] && q[j] == rs[j]);
        }
    }
    if l.signed_prekey_id == r.signed_prekey_id && l.key_id == r.key_id {
        assert forall|i: int| 0 <= i < q.len() implies !((#[trigger] q[i]).signed_prekey_id == r.signed_prekey_id && q[i].key_id == r.key_id) by {
            assert(q[i] == rs[i]);
            assert(record_before(rs[i], rs[rs.len() - 1]));
        }
        lemma_count_key_records_none(q, r.signed_prekey_id, r.key_id);
    } else {
        let i = choose|i: int| 0 <= i < rs.len() && rs[i] == r;
        assert(i < rs.len() - 1);
        assert(q[i] == r);
        lemma_count_key_records_one(q, r);
    }
}

proof fn lemma_count_id_none(ids: Seq<u32>, k: u32)
    requires
        !ids.contains(k),
    ensures
        count_id(ids, k) == 0,
    decreases ids.len(),
{
    if ids.len() > 0 {
        let q = ids.drop_last();
        assert(!q.contains(k)) by {
            if q.contains(k) {
                let i = choose|i: int| 0 <= i < q.len() && q[i] == k;
                assert(ids[i] == k);
            }
        }
        lemma_count_id_none(q, k);
        assert(ids[ids.len() - 1] == ids.last());
    }
}

proof fn lemma_count_id_one(ids: Seq<u32>, k: u32)
    requires
        ids_distinct(ids),
        ids.contains(k),
    ensures
        count_id(ids, k) == 1,
    decreases ids.len(),
{
    let q = ids.drop_last();
    assert(ids_distinct(q)) by {
        assert forall|i: int, j: int| 0 <= i < j < q.len() implies #[trigger] q[i] != #[trigger] q[j] by {
            assert(q[i] == ids[i] && q[j] == ids[j]);
        }
    }
    if ids.last() == k {
        assert(!q.contains(k)) by {
            if q.contains(k) {
                let i = choose|i: int| 0 <= i < q.len() && q[i] == k;
                assert(ids[i] != ids[ids.len() - 1]);
            }
        }
        lemma_count_id_none(q, k);
    } else {
        let i = choose|i: int| 0 <= i < ids.len() && ids[i] == k;
        assert(i < ids.len() - 1);
        assert(q[i] == k);
        lemma_count_id_one(q, k);
    }
}

/// A consuming take that hands out a key leaves one key fewer to hand out (where the user
/// has no records, provided the bundle lists each one-time prekey id once).
pub proof fn lemma_consuming_take_uses_one_key(u: Seq<char>, st: UserPreKeys)
    requires
        user_ok(u, st),
        st.bundle matches Some(b) ==> (st.records.len() == 0 ==> ids_distinct(b.one_time_prekey_ids@)),
    ensures
        take_user(st, true).1 matches Some((_, Some(k), _)) ==> (
            remaining_count(st) matches Some(n) && n >= 1 && remaining_count(take_user(st, true).0) == Some((n - 1) as nat)),
{
    if let Some((_, Some(k), _)) = take_user(st, true).1 {
        lemma_take_hands_out_fresh_key(u, st, true);
        let next = take_user(st, true).0;
        let b = st.bundle.unwrap();
        lemma_first_fresh_record(st.records, b.signed_prekey_id, st.consumed);
        lemma_first_fresh_id(b.one_time_prekey_ids@, st.consumed);
        if let Some(r) = first_fresh_record(st.records, b.signed_prekey_id, st.consumed) {
            lemma_fresh_records_after_insert(st.records, b.signed_prekey_id, st.consumed, next.consumed, k);
            lemma_count_key_records_one(st.records, r);
        } else {
            lemma_fresh_ids_after_insert(b.one_time_prekey_ids@, st.consumed, next.consumed, k);
            lemma_count_id_one(b.one_time_prekey_ids@, k);
        }
    }
}

/// Publishing a bundle makes it the user's bundle; a first bundle or a new signed prekey
/// starts with nothing handed out; every record held afterwards was accepted for the
/// bundle, and the records stay sorted by key.
pub proof fn lemma_publish_sets_bundle<FR: Fn(&SignedOneTimePreKeyRecord, &PreKeyBundle) -> bool>(
    st: UserPreKeys,
    bundle: PreKeyBundle,
    records: Seq<SignedOneTimePreKeyRecord>,
    verify_record: FR,
)
    requires
        user_ok(bundle.user_id@, st),
    ensures
        publish_user(st, bundle, records, verify_record).bundle == Some(bundle),
        (match st.bundle {
            Some(b) => b.signed_prekey_id != bundle.signed_prekey_id,
            None => true,
        }) ==> publish_user(st, bundle, records, verify_record).consumed.len() == 0,
        forall|i: int| 0 <= i < publish_user(st, bundle, records, verify_record).records.len()
            ==> record_accepted(verify_record, #[trigger] publish_user(st, bundle, records, verify_record).records[i], bundle),
        records_sorted(publish_user(st, bundle, records, verify_record).records),
{
    lemma_publish_user_ok(st, bundle, records, verify_record);
    let reset = match st.bundle {
        Some(b) => b.signed_prekey_id != bundle.signed_prekey_id,
        None => true,
    };
    let kept = if reset { Seq::<SignedOneTimePreKeyRecord>::empty() } else { st.records };
    let merged = merge_records(kept, records);
    let keep = |r: SignedOneTimePreKeyRecord| record_accepted(verify_record, r, bundle);
    lemma_filter_records(merged, keep);
    let rs = filter_records(merged, keep);
    assert forall|i: int| 0 <= i < rs.len() implies record_accepted(verify_record, #[trigger] rs[i], bundle) by {
        assert(rs.contains(rs[i]));
    }
    if reset {
        let mid = UserPreKeys { bundle: Some(bundle), records: rs, consumed: Seq::empty() };
        lemma_filter_ids(mid.consumed, |id: u32| valid_key_id(mid, id));
    }
}

/// User `v`'s entry after handed-out ids are merged in turn: each id of `v`'s is added and
/// the ids no longer valid are dropped.
pub open spec fn consumed_merged(st: UserPreKeys, v: Seq<char>, items: Seq<ConsumedOneTimePreKey>) -> UserPreKeys
    decreases items.len(),
{
    if items.len() == 0 {
        st
    } else {
        let prev = consumed_merged(st, v, items.drop_last());
        if items.last().user_id@ == v {
            prune_consumed(UserPreKeys { consumed: insert_id(prev.consumed, items.last().key_id), ..prev })
        } else {
            prev
        }
    }
}

/// User `v`'s entry after bundles are merged in turn: each of `v`'s bundles that
/// `verify_bundle` accepts is published with no new records.
pub open spec fn bundles_merged<FB: Fn(&PreKeyBundle) -> bool, FR: Fn(&SignedOneTimePreKeyRecord, &PreKeyBundle) -> bool>(
    st: UserPreKeys,
    v: Seq<char>,
    bs: Seq<PreKeyBundle>,
    verify_bundle: FB,
    verify_record: FR,
) -> UserPreKeys
    decreases bs.len(),
{
    if bs.len() == 0 {
        st
    } else {
        let prev = bundles_merged(st, v, bs.drop_last(), verify_bundle, verify_record);
        let b = bs.last();
        if b.user_id@ == v && bundle_accepted(verify_bundle, b) {
            publish_user(prev, b, Seq::empty(), verify_record)
        } else {
            prev
        }
    }
}

/// Whether some bundle of `v` among `bs` is accepted.
pub open spec fn has_accepted_bundle<FB: Fn(&PreKeyBundle) -> bool>(bs: Seq<PreKeyBundle>, v: Seq<char>, verify_bundle: FB) -> bool {
    exists|i: int| 0 <= i < bs.len() && (#[trigger] bs[i]).user_id@ == v && bundle_accepted(verify_bundle, bs[i])
}

proof fn lemma_bundles_merged_bundle<FB: Fn(&PreKeyBundle) -> bool, FR: Fn(&SignedOneTimePreKeyRecord, &PreKeyBundle) -> bool>(
    st: UserPreKeys,
    v: Seq<char>,
    bs: Seq<PreKeyBundle>,
    verify_bundle: FB,
    verify_record: FR,
)
    ensures
        (bundles_merged(st, v, bs, verify_bundle, verify_record).bundle is None)
            == (st.bundle is None && !has_accepted_bundle(bs, v, verify_bundle)),
    decreases bs.len(),
{
    if bs.len() > 0 {
        let q = bs.drop_last();
        lemma_bundles_merged_bundle(st, v, q, verify_bundle, verify_record);
        if has_accepted_bundle(q, v, verify_bundle) {
            let i = choose|i: int| 0 <= i < q.len() && (#[trigger] q[i]).user_id@ == v && bundle_accepted(verify_bundle, q[i]);
            assert(bs[i] == q[i]);
        }
        if has_accepted_bundle(bs, v, verify_bundle) {
            let i = choose|i: int| 0 <= i < bs.len() && (#[trigger] bs[i]).user_id@ == v && bundle_accepted(verify_bundle, bs[i]);
            if i < bs.len() - 1 {
                assert(q[i] == bs[i]);
            }
        }
        if bs.last().user_id@ == v && bundle_accepted(verify_bundle, bs.last()) {
            assert(bs[bs.len() - 1] == bs.last());
        }
    }
}

/// User `v`'s entry after bundles are restored in turn: each of `v`'s bundles that
/// `verify_bundle` accepts becomes the bundle, nothing else changes.
pub open spec fn bundles_restored<FB: Fn(&PreKeyBundle) -> bool>(st: UserPreKeys, v: Seq<char>, bs: Seq<PreKeyBundle>, verify_bundle: FB) -> UserPreKeys
    decreases bs.len(),
{
    if bs.len() == 0 {
        st
    } else {
        let prev = bundles_restored(st, v, bs.drop_last(), verify_bundle);
        let b = bs.last();
        if b.user_id@ == v && bundle_accepted(verify_bundle, b) {
            UserPreKeys { bundle: Some(b), ..prev }
        } else {
            prev
        }
    }
}

/// The entry with no handed-out ids.
pub open spec fn without_consumed(st: UserPreKeys) -> UserPreKeys {
    UserPreKeys { consumed: Seq::empty(), ..st }
}

/// The entry with no records.
pub open spec fn without_records(st: UserPreKeys) -> UserPreKeys {
    UserPreKeys { records: Seq::empty(), ..st }
}

/// What a restore starts from: the handed-out ids alone.
pub open spec fn consumed_only(st: UserPreKeys) -> UserPreKeys {
    UserPreKeys { bundle: None, records: Seq::empty(), consumed: st.consumed }
}

/// The records among `rs`, in order, that belong to user `v` and that `verify_record`
/// accepts for `v`'s bundle (none without a bundle).
pub open spec fn accepted_records_for<FR: Fn(&SignedOneTimePreKeyRecord, &PreKeyBundle) -> bool>(
    st: UserPreKeys,
    v: Seq<char>,
    rs: Seq<SignedOneTimePreKeyRecord>,
    verify_record: FR,
) -> Seq<SignedOneTimePreKeyRecord> {
    match st.bundle {
        None => Seq::empty(),
        Some(b) => filter_records(rs, |r: SignedOneTimePreKeyRecord| r.user_id@ == v && record_accepted(verify_record, r, b)),
    }
}

/// User `v`'s entry with the accepted records merged in, before the handed-out ids are
/// pruned.
pub open spec fn records_merged_unpruned<FR: Fn(&SignedOneTimePreKeyRecord, &PreKeyBundle) -> bool>(
    st: UserPreKeys,
    v: Seq<char>,
    rs: Seq<SignedOneTimePreKeyRecord>,
    verify_record: FR,
) -> UserPreKeys {
    UserPreKeys { records: merge_records(st.records, accepted_records_for(st, v, rs, verify_record)), ..st }
}

/// User `v`'s entry after records are merged: where some of `rs` are accepted for `v`,
/// they are merged in turn and the handed-out ids no longer valid are dropped.
pub open spec fn records_merged<FR: Fn(&SignedOneTimePreKeyRecord, &PreKeyBundle) -> bool>(
    st: UserPreKeys,
    v: Seq<char>,
    rs: Seq<SignedOneTimePreKeyRecord>,
    verify_record: FR,
) -> UserPreKeys {
    if accepted_records_for(st, v, rs, verify_record).len() > 0 {
        prune_consumed(records_merged_unpruned(st, v, rs, verify_record))
    } else {
        st
    }
}

/// Whether `list` holds a record with `r`'s key.
pub open spec fn has_key(list: Seq<SignedOneTimePreKeyRecord>, r: SignedOneTimePreKeyRecord) -> bool {
    exists|i: int| 0 <= i < list.len() && same_key(#[trigger] list[i], r)
}

/// How many of `rs`, merged in turn into the users `f` gives, add a key not held before.
pub open spec fn new_record_count<FR: Fn(&SignedOneTimePreKeyRecord, &PreKeyBundle) -> bool>(
    f: spec_fn(Seq<char>) -> UserPreKeys,
    rs: Seq<SignedOneTimePreKeyRecord>,
    verify_record: FR,
) -> nat
    decreases rs.len(),
{
    if rs.len() == 0 {
        0
    } else {
        let q = rs.drop_last();
        let r = rs.last();
        let v = r.user_id@;
        let st = f(v);
        new_record_count(f, q, verify_record) + if (st.bundle matches Some(b) && record_accepted(verify_record, r, b))
            && !has_key(records_merged_unpruned(st, v, q, verify_record).records, r) { 1nat } else { 0nat }
    }
}

proof fn lemma_merge_record_found(list: Seq<SignedOneTimePreKeyRecord>, r: SignedOneTimePreKeyRecord)
    requires
        records_sorted(list),
    ensures
        (count_before(list, r) < list.len() && same_key(list[count_before(list, r) as int], r)) == has_key(list, r),
{
    lemma_count_before(list, r);
    let p = count_before(list, r) as int;
    if has_key(list, r) {
        let i = choose|i: int| 0 <= i < list.len() && same_key(#[trigger] list[i], r);
        if i < p {
            assert(record_before(list[i], r));
        } else if i > p {
            assert(record_before(list[p], list[i]));
        }
    }
}

proof fn lemma_records_merged_ok<FR: Fn(&SignedOneTimePreKeyRecord, &PreKeyBundle) -> bool>(
    st: UserPreKeys,
    v: Seq<char>,
    rs: Seq<SignedOneTimePreKeyRecord>,
    verify_record: FR,
)
    requires
        user_ok(v, st),
    ensures
        user_ok(v, records_merged_unpruned(st, v, rs, verify_record)),
        user_ok(v, records_merged(st, v, rs, verify_record)),
{
    let acc = accepted_records_for(st, v, rs, verify_record);
    lemma_merge_records_sorted(st.records, acc);
    if acc.len() > 0 {
        lemma_merge_records_sorted(st.records, acc);
        assert(merge_records(st.records, acc).len() > 0) by {
            lemma_merge_records_nonempty(st.records, acc);
        }
        lemma_prune_consumed_ok(v, records_merged_unpruned(st, v, rs, verify_record));
    } else {
        assert(acc =~= Seq::<SignedOneTimePreKeyRecord>::empty());
        assert(merge_records(st.records, acc) == st.records);
    }
}

proof fn lemma_merge_records_nonempty(list: Seq<SignedOneTimePreKeyRecord>, incoming: Seq<SignedOneTimePreKeyRecord>)
    requires
        incoming.len() > 0,
    ensures
        merge_records(list, incoming).len() > 0,
        merge_records(list, incoming).len() >= list.len(),
    decreases incoming.len(),
{
    let prev = merge_records(list, incoming.drop_last());
    if incoming.len() > 1 {
        lemma_merge_records_nonempty(list, incoming.drop_last());
    }
    lemma_count_before(prev, incoming.last());
}

fn merge_record_counting(list: &mut Vec<SignedOneTimePreKeyRecord>, r: SignedOneTimePreKeyRecord) -> (added: bool)
    requires
        records_sorted(old(list)@),
    ensures
        final(list)@ == merge_record(old(list)@, r),
        added == !has_key(old(list)@, r),
{
    let ghost l0 = list@;
    let mut p: usize = 0;
    assert(l0.subrange(0, l0.len() as int) =~= l0);
    while p < list.len()
        && (list[p].signed_prekey_id < r.signed_prekey_id
            || (list[p].signed_prekey_id == r.signed_prekey_id && list[p].key_id < r.key_id))
        invariant
            list@ == l0,
            p <= l0.len(),
            count_before(l0, r) == p + count_before(l0.subrange(p as int, l0.len() as int), r),
        decreases l0.len() - p,
    {
        assert(l0.subrange(p as int, l0.len() as int).subrange(1, l0.len() - p) =~= l0.subrange(p as int + 1, l0.len() as int));
        p += 1;
    }
    assert(count_before(l0.subrange(p as int, l0.len() as int), r) == 0);
    proof { lemma_merge_record_found(l0, r); }
    if p < list.len() && list[p].signed_prekey_id == r.signed_prekey_id && list[p].key_id == r.key_id {
        list.set(p, r);
        false
    } else {
        list.insert(p, r);
        true
    }
}

/// The bundles, as plain values, of the listed users that have one, in listing order.
pub open spec fn listed_bundles(f: spec_fn(Seq<char>) -> UserPreKeys, l: Seq<Seq<char>>) -> Seq<BundleView>
    decreases l.len(),
{
    if l.len() == 0 {
        Seq::empty()
    } else {
        let p = listed_bundles(f, l.drop_last());
        match f(l.last()).bundle {
            Some(b) => p.push(b@),
            None => p,
        }
    }
}

/// The records of the listed users, user after user in listing order.
pub open spec fn listed_records(f: spec_fn(Seq<char>) -> UserPreKeys, l: Seq<Seq<char>>) -> Seq<SignedOneTimePreKeyRecord>
    decreases l.len(),
{
    if l.len() == 0 {
        Seq::empty()
    } else {
        listed_records(f, l.drop_last()) + f(l.last()).records
    }
}

/// The bundles as plain values.
pub open spec fn bundle_views(bs: Seq<PreKeyBundle>) -> Seq<BundleView> {
    bs.map_values(|b: PreKeyBundle| b@)
}

/// The bundles of the node's users, with their one-time prekey bookkeeping.
pub struct PreKeyStore {
    users: Vec<UserEntry>,
}

impl PreKeyStore {
    /// What the store holds for user `u`.
    pub closed spec fn user(&self, u: Seq<char>) -> UserPreKeys {
        user_of(self.users@, u)
    }

    /// The store's own consistency: one entry per user, each as `user_ok` says.
    pub closed spec fn wf(&self) -> bool {
        entries_ok(self.users@)
    }

    /// What holds of every user of a consistent store.
    pub proof fn lemma_users_ok(&self, u: Seq<char>)
        requires
            self.wf(),
        ensures
            user_ok(u, self.user(u)),
    {
        lemma_entries_ok_user(self.users@, u);
    }

    /// An empty store.
    pub fn new() -> (r: PreKeyStore)
        ensures
            r.wf(),
            forall|u: Seq<char>| #[trigger] r.user(u) == no_prekeys(),
    {
        PreKeyStore { users: Vec::new() }
    }

    fn find_user(&self, user_id: &String) -> (r: Option<usize>)
        ensures
            r matches Some(i) ==> i < self.users@.len() && self.users@[i as int].user_id@ == user_id@,
            r is None ==> forall|i: int| 0 <= i < self.users@.len() ==> (#[trigger] self.users@[i]).user_id@ != user_id@,
    {
        let mut i: usize = 0;
        while i < self.users.len()
            invariant
                i <= self.users@.len(),
                forall|k: int| 0 <= k < i ==> (#[trigger] self.users@[k]).user_id@ != user_id@,
            decreases self.users@.len() - i,
        {
            if self.users[i].user_id == *user_id {
                return Some(i);
            }
            i += 1;
        }
        None
    }
}

impl PreKeyStore {
    /// The users that have a bundle.
    pub open spec fn bundle_users(&self) -> Set<Seq<char>> {
        Set::new(|u: Seq<char>| has_bundle(self.user(u)))
    }

    /// The user's bundle, whether or not it has expired.
    pub fn get_for_unchecked(&self, user_id: &String) -> (r: Option<PreKeyBundle>)
        requires
            self.wf(),
        ensures
            opt_bundle_view(r) == opt_bundle_view(self.user(user_id@).bundle),
    {
        match self.find_user(user_id) {
            None => {
                proof { lemma_user_absent(self.users@, user_id@); }
                None
            },
            Some(i) => {
                proof { lemma_user_at(self.users@, i as int); }
                match &self.users[i].bundle {
                    Some(b) => Some(b.duplicate()),
                    None => None,
                }
            },
        }
    }

    /// The ids of the user's one-time prekeys handed out so far, in increasing order.
    pub fn consumed_for(&self, user_id: &String) -> (r: Vec<u32>)
        requires
            self.wf(),
        ensures
            r@ == self.user(user_id@).consumed,
    {
        match self.find_user(user_id) {
            None => {
                proof { lemma_user_absent(self.users@, user_id@); }
                Vec::new()
            },
            Some(i) => {
                proof { lemma_user_at(self.users@, i as int); }
                copy_ids(&self.users[i].consumed)
            },
        }
    }

    /// The user's signed one-time prekey records, by signed prekey id and key id.
    pub fn signed_one_time_prekey_records_for(&self, user_id: &String) -> (r: Vec<SignedOneTimePreKeyRecord>)
        requires
            self.wf(),
        ensures
            r@ == self.user(user_id@).records,
    {
        match self.find_user(user_id) {
            None => {
                proof { lemma_user_absent(self.users@, user_id@); }
                Vec::new()
            },
            Some(i) => {
                proof { lemma_user_at(self.users@, i as int); }
                copy_records(&self.users[i].records)
            },
        }
    }

    /// How many one-time prekeys the user has for the current signed prekey; `None`
    /// without a bundle.
    pub fn published_one_time_prekeys_for(&self, user_id: &String) -> (r: Option<usize>)
        requires
            self.wf(),
        ensures
            match r {
                Some(n) => published_count(self.user(user_id@)) == Some(n as nat),
                None => published_count(self.user(user_id@)) is None,
            },
    {
        match self.find_user(user_id) {
            None => {
                proof { lemma_user_absent(self.users@, user_id@); }
                None
            },
            Some(i) => {
                proof { lemma_user_at(self.users@, i as int); }
                let e = &self.users[i];
                match &e.bundle {
                    None => None,
                    Some(b) => if e.records.len() > 0 {
                        Some(count_current_records(&e.records, b.signed_prekey_id))
                    } else {
                        Some(b.one_time_prekey_ids.len())
                    },
                }
            },
        }
    }

    /// How many of those have not been handed out; `None` without a bundle.
    pub fn remaining_one_time_prekeys_for(&self, user_id: &String) -> (r: Option<usize>)
        requires
            self.wf(),
        ensures
            match r {
                Some(n) => remaining_count(self.user(user_id@)) == Some(n as nat),
                None => remaining_count(self.user(user_id@)) is None,
            },
    {
        match self.find_user(user_id) {
            None => {
                proof { lemma_user_absent(self.users@, user_id@); }
                None
            },
            Some(i) => {
                proof { lemma_user_at(self.users@, i as int); }
                let e = &self.users[i];
                match &e.bundle {
                    None => None,
                    Some(b) => if e.records.len() > 0 {
                        Some(count_fresh_record_keys(&e.records, b.signed_prekey_id, &e.consumed))
                    } else {
                        Some(count_fresh_key_ids(&b.one_time_prekey_ids, &e.consumed))
                    },
                }
            },
        }
    }

    /// How many users have a bundle.
    pub fn len(&self) -> (r: usize)
        requires
            self.wf(),
        ensures
            self.bundle_users().finite(),
            r == self.bundle_users().len(),
    {
        let ghost p = |st: UserPreKeys| has_bundle(st);
        let mut n: usize = 0;
        let mut i: usize = 0;
        while i < self.users.len()
            invariant
                i <= self.users@.len(),
                n == count_users(self.users@.take(i as int), p),
                n <= i,
                p == |st: UserPreKeys| has_bundle(st),
            decreases self.users@.len() - i,
        {
            assert(self.users@.take(i as int + 1).drop_last() =~= self.users@.take(i as int));
            assert(self.users@.take(i as int + 1).last() == self.users@[i as int]);
            assert(p(entry_state(self.users@[i as int])) == self.users@[i as int].bundle.is_some());
            if self.users[i].bundle.is_some() {
                n += 1;
            }
            i += 1;
        }
        proof {
            assert(self.users@.take(i as int) =~= self.users@);
            lemma_users_where(self.users@, p);
            assert(self.bundle_users() =~= users_where(self.users@, p));
        }
        n
    }

    /// Whether no user has a bundle.
    pub fn is_empty(&self) -> (r: bool)
        requires
            self.wf(),
        ensures
            r == (self.bundle_users().len() == 0),
    {
        self.len() == 0
    }
}

impl PreKeyStore {
    /// The users whose bundle has expired at `now`.
    pub open spec fn expired_users(&self, now: u64) -> Set<Seq<char>> {
        Set::new(|u: Seq<char>| self.user(u).bundle matches Some(b) && bundle_expired(b, now))
    }

    /// Removes the users whose bundle has expired at `now`, with everything held for them,
    /// drops the records expired at `now` and then the handed-out ids no longer valid;
    /// returns how many bundles went.
    pub fn prune_expired(&mut self, now: u64) -> (r: usize)
        requires
            old(self).wf(),
        ensures
            final(self).wf(),
            forall|u: Seq<char>| #[trigger] final(self).user(u) == expire_user(old(self).user(u), now),
            old(self).expired_users(now).finite(),
            r == old(self).expired_users(now).len(),
    {
        let ghost s = self.users@;
        let ghost p = |st: UserPreKeys| st.bundle matches Some(b) && bundle_expired(b, now);
        let mut removed: usize = 0;
        let mut i: usize = 0;
        while i < self.users.len()
            invariant
                p == |st: UserPreKeys| st.bundle matches Some(b) && bundle_expired(b, now),
                entries_ok(s),
                self.users@.len() == s.len(),
                i <= s.len(),
                removed == count_users(s.take(i as int), p),
                removed <= i,
                forall|k: int| 0 <= k < s.len() ==> (#[trigger] self.users@[k]).user_id@ == s[k].user_id@,
                forall|k: int| 0 <= k < i ==> entry_state(#[trigger] self.users@[k]) == expire_user(entry_state(s[k]), now),
                forall|k: int| i <= k < s.len() ==> #[trigger] self.users@[k] == s[k],
            decreases s.len() - i,
        {
            assert(s.take(i as int + 1).drop_last() =~= s.take(i as int));
            assert(s.take(i as int + 1).last() == s[i as int]);
            let ghost before = self.users@;
            let mut e = self.users.remove(i);
            let expired = e.expire(now);
            self.users.insert(i, e);
            assert(self.users@ =~= before.update(i as int, e));
            assert(p(entry_state(s[i as int])) == expired);
            if expired {
                removed += 1;
            }
            i += 1;
        }
        proof {
            let t = self.users@;
            assert(unique_users(t)) by {
                assert forall|a: int, b: int| 0 <= a < b < t.len() implies (#[trigger] t[a]).user_id@ != (#[trigger] t[b]).user_id@ by {
                    assert(s[a].user_id@ != s[b].user_id@);
                }
            }
            assert forall|u: Seq<char>| #[trigger] user_of(t, u) == expire_user(user_of(s, u), now) by {
                if has_user(s, u) {
                    let k = lemma_user_index(s, u);
                    lemma_user_at(t, k);
                } else {
                    assert forall|k: int| 0 <= k < t.len() implies (#[trigger] t[k]).user_id@ != u by {
                        assert(s[k].user_id@ != u);
                    }
                    lemma_user_absent(t, u);
                }
            }
            assert forall|k: int| 0 <= k < t.len() implies user_ok((#[trigger] t[k]).user_id@, entry_state(t[k])) by {
                lemma_expire_user_ok(s[k].user_id@, entry_state(s[k]), now);
            }
            assert(s.take(s.len() as int) =~= s);
            lemma_users_where(s, p);
            assert(old(self).expired_users(now) =~= users_where(s, p));
        }
        removed
    }
}

impl PreKeyStore {
    /// Expires the store at `now`, then takes the user's bundle with the one-time prekey
    /// `selection` picks (its id, and its record where it has one), counting the key as
    /// handed out where `consume` holds; `None` where the user has no bundle left.
    pub fn take_for_with_selected_one_time_prekey_material_at(&mut self, user_id: &String, consume: bool, now: u64) -> (r: Option<(PreKeyBundle, Option<u32>, Option<SignedOneTimePreKeyRecord>)>)
        requires
            old(self).wf(),
        ensures
            final(self).wf(),
            taken_view(r) == take_user(expire_user(old(self).user(user_id@), now), consume).1,
            forall|v: Seq<char>| #[trigger] final(self).user(v) == if v == user_id@ {
                take_user(expire_user(old(self).user(v), now), consume).0
            } else {
                expire_user(old(self).user(v), now)
            },
    {
        self.prune_expired(now);
        let ghost mid = self.users@;
        assert forall|v: Seq<char>| #[trigger] user_of(mid, v) == expire_user(old(self).user(v), now) by {
            assert(self.user(v) == expire_user(old(self).user(v), now));
        }
        let i = match self.find_user(user_id) {
            None => {
                proof { lemma_user_absent(self.users@, user_id@); }
                return None;
            },
            Some(i) => i,
        };
        proof { lemma_user_at(self.users@, i as int); }
        let (bundle, selected_id, selected_record) = {
            let e = &self.users[i];
            let b = match &e.bundle {
                None => { return None; },
                Some(b) => b,
            };
            let spk = b.signed_prekey_id;
            let ghost rs = e.records@;
            let ghost cs = e.consumed@;
            let mut found: Option<SignedOneTimePreKeyRecord> = None;
            let mut j: usize = 0;
            assert(rs.subrange(0, rs.len() as int) =~= rs);
            while j < e.records.len()
                invariant_except_break
                    found is None,
                    first_fresh_record(rs, spk, cs) == first_fresh_record(rs.subrange(j as int, rs.len() as int), spk, cs),
                invariant
                    rs == e.records@,
                    j <= rs.len(),
                    cs == e.consumed@,
                ensures
                    found == first_fresh_record(rs, spk, cs),
                decreases rs.len() - j,
            {
                assert(rs.subrange(j as int, rs.len() as int)[0] == rs[j as int]);
                assert(rs.subrange(j as int, rs.len() as int).subrange(1, rs.len() - j) =~= rs.subrange(j as int + 1, rs.len() as int));
                if e.records[j].signed_prekey_id == spk && !contains_id(&e.consumed, e.records[j].key_id) {
                    found = Some(e.records[j].duplicate());
                    break;
                }
                j += 1;
                assert(j == rs.len() ==> rs.subrange(j as int, rs.len() as int).len() == 0);
            }
            let id = match &found {
                Some(r) => Some(r.key_id),
                None => if e.records.len() > 0 {
                    None
                } else {
                    let ids = &b.one_time_prekey_ids;
                    let ghost is = ids@;
                    let mut sel: Option<u32> = None;
                    let mut k: usize = 0;
                    assert(is.subrange(0, is.len() as int) =~= is);
                    while k < ids.len()
                        invariant_except_break
                            sel is None,
                            first_fresh_id(is, cs) == first_fresh_id(is.subrange(k as int, is.len() as int), cs),
                        invariant
                            is == ids@,
                            cs == e.consumed@,
                            k <= is.len(),
                        ensures
                            sel == first_fresh_id(is, cs),
                        decreases is.len() - k,
                    {
                        assert(is.subrange(k as int, is.len() as int)[0] == is[k as int]);
                        assert(is.subrange(k as int, is.len() as int).subrange(1, is.len() - k) =~= is.subrange(k as int + 1, is.len() as int));
                        if !contains_id(&e.consumed, ids[k]) {
                            sel = Some(ids[k]);
                            break;
                        }
                        k += 1;
                        assert(k == is.len() ==> is.subrange(k as int, is.len() as int).len() == 0);
                    }
                    sel
                },
            };
            (b.duplicate(), id, found)
        };
        assert((selected_id, selected_record) == selection(entry_state(mid[i as int])));
        if consume {
            if let Some(k) = selected_id {
                let ghost before = self.users@;
                let mut e = self.users.remove(i);
                insert_id_sorted(&mut e.consumed, k);
                self.users.insert(i, e);
                assert(self.users@ =~= before.update(i as int, e));
                proof {
                    lemma_update_entry(before, i as int, e);
                    lemma_take_user_ok(e.user_id@, entry_state(before[i as int]), consume);
                    assert(entry_state(e) == take_user(entry_state(before[i as int]), consume).0);
                    assert forall|a: int| 0 <= a < self.users@.len() implies user_ok((#[trigger] self.users@[a]).user_id@, entry_state(self.users@[a])) by {
                        if a != i {
                            assert(self.users@[a] == before[a]);
                        }
                    }
                }
            }
        }
        Some((bundle, selected_id, selected_record))
    }
}

/// `after` is `before` expired at `now`.
pub open spec fn expire_step(before: PreKeyStore, after: PreKeyStore, now: u64) -> bool {
    forall|v: Seq<char>| #[trigger] after.user(v) == expire_user(before.user(v), now)
}

/// `after` is `before` with its bundles restored from `bs` and then expired at `now`.
pub open spec fn restore_step<FB: Fn(&PreKeyBundle) -> bool>(before: PreKeyStore, after: PreKeyStore, bs: Seq<PreKeyBundle>, verify_bundle: FB, now: u64) -> bool {
    forall|v: Seq<char>| #[trigger] after.user(v)
        == expire_user(bundles_restored(consumed_only(before.user(v)), v, bs, verify_bundle), now)
}

/// `after` is `before` after a take for user `u` at `now` that gave `r`.
pub open spec fn take_step(
    before: PreKeyStore,
    after: PreKeyStore,
    u: Seq<char>,
    consume: bool,
    now: u64,
    r: Option<(BundleView, Option<u32>, Option<SignedOneTimePreKeyRecord>)>,
) -> bool {
    &&& r == take_user(expire_user(before.user(u), now), consume).1
    &&& forall|v: Seq<char>| #[trigger] after.user(v) == if v == u {
        take_user(expire_user(before.user(v), now), consume).0
    } else {
        expire_user(before.user(v), now)
    }
}

/// The bundle of a take's result.
pub open spec fn taken_bundle(r: Option<(BundleView, Option<u32>, Option<SignedOneTimePreKeyRecord>)>) -> Option<BundleView> {
    match r {
        Some((b, _, _)) => Some(b),
        None => None,
    }
}

impl PreKeyStore {
    /// `take_for_with_selected_one_time_prekey_material_at` at the current time.
    pub fn take_for_with_selected_one_time_prekey_material(&mut self, user_id: &String, consume: bool) -> (r: Option<(PreKeyBundle, Option<u32>, Option<SignedOneTimePreKeyRecord>)>)
        requires
            old(self).wf(),
        ensures
            final(self).wf(),
            exists|now: u64| #[trigger] take_step(*old(self), *final(self), user_id@, consume, now, taken_view(r)),
    {
        let now = current_unix_timestamp();
        let r = self.take_for_with_selected_one_time_prekey_material_at(user_id, consume, now);
        assert(take_step(*old(self), *self, user_id@, consume, now, taken_view(r)));
        r
    }

    /// The user's bundle from a take at the current time.
    pub fn take_for(&mut self, user_id: &String, consume: bool) -> (r: Option<PreKeyBundle>)
        requires
            old(self).wf(),
        ensures
            final(self).wf(),
            exists|now: u64, t: Option<(BundleView, Option<u32>, Option<SignedOneTimePreKeyRecord>)>|
                #[trigger] take_step(*old(self), *final(self), user_id@, consume, now, t) && opt_bundle_view(r) == taken_bundle(t),
    {
        let r = self.take_for_with_selected_one_time_prekey_material(user_id, consume);
        match r {
            Some((b, _, _)) => Some(b),
            None => None,
        }
    }

    /// The user's bundle and the selected one-time prekey id from a take at the current time.
    pub fn take_for_with_selected_one_time_prekey(&mut self, user_id: &String, consume: bool) -> (r: Option<(PreKeyBundle, Option<u32>)>)
        requires
            old(self).wf(),
        ensures
            final(self).wf(),
            exists|now: u64, t: Option<(BundleView, Option<u32>, Option<SignedOneTimePreKeyRecord>)>|
                #[trigger] take_step(*old(self), *final(self), user_id@, consume, now, t) && match r {
                    Some((b, id)) => t matches Some((tb, tid, _)) && b@ == tb && id == tid,
                    None => t is None,
                },
    {
        let r = self.take_for_with_selected_one_time_prekey_material(user_id, consume);
        match r {
            Some((b, id, _)) => Some((b, id)),
            None => None,
        }
    }

    /// The user's bundle and the selected signed one-time prekey record from a take at the
    /// current time.
    pub fn take_for_with_selected_one_time_prekey_record(&mut self, user_id: &String, consume: bool) -> (r: Option<(PreKeyBundle, Option<SignedOneTimePreKeyRecord>)>)
        requires
            old(self).wf(),
        ensures
            final(self).wf(),
            exists|now: u64, t: Option<(BundleView, Option<u32>, Option<SignedOneTimePreKeyRecord>)>|
                #[trigger] take_step(*old(self), *final(self), user_id@, consume, now, t) && match r {
                    Some((b, rec)) => t matches Some((tb, _, trec)) && b@ == tb && rec == trec,
                    None => t is None,
                },
    {
        let r = self.take_for_with_selected_one_time_prekey_material(user_id, consume);
        match r {
            Some((b, _, rec)) => Some((b, rec)),
            None => None,
        }
    }

    /// Expires the store at the current time, then gives the user's bundle.
    pub fn get_for(&mut self, user_id: &String) -> (r: Option<PreKeyBundle>)
        requires
            old(self).wf(),
        ensures
            final(self).wf(),
            exists|now: u64| #[trigger] expire_step(*old(self), *final(self), now),
            opt_bundle_view(r) == opt_bundle_view(final(self).user(user_id@).bundle),
    {
        let now = current_unix_timestamp();
        self.prune_expired(now);
        assert(expire_step(*old(self), *self, now));
        self.get_for_unchecked(user_id)
    }
}

impl PreKeyStore {
    /// Installs an accepted bundle with accepted records as `publish_user` says; says
    /// whether the user had a bundle before.
    fn install<FR: Fn(&SignedOneTimePreKeyRecord, &PreKeyBundle) -> bool>(
        &mut self,
        bundle: PreKeyBundle,
        records: &Vec<SignedOneTimePreKeyRecord>,
        verify_record: &FR,
    ) -> (had_bundle: bool)
        requires
            old(self).wf(),
            decides_records(*verify_record),
        ensures
            final(self).wf(),
            had_bundle == old(self).user(bundle.user_id@).bundle is Some,
            forall|v: Seq<char>| #[trigger] final(self).user(v) == if v == bundle.user_id@ {
                publish_user(old(self).user(v), bundle, records@, *verify_record)
            } else {
                old(self).user(v)
            },
    {
        let ghost s = self.users@;
        let ghost u = bundle.user_id@;
        let found = self.find_user(&bundle.user_id);
        let mut had_bundle = false;
        let (mut list, consumed) = match found {
            Some(j) => {
                proof { lemma_user_at(s, j as int); }
                let e = self.users.remove(j);
                had_bundle = e.bundle.is_some();
                let reset = match &e.bundle {
                    Some(b) => b.signed_prekey_id != bundle.signed_prekey_id,
                    None => true,
                };
                if reset { (Vec::new(), Vec::new()) } else { (e.records, e.consumed) }
            },
            None => {
                proof { lemma_user_absent(s, u); }
                (Vec::new(), Vec::new())
            },
        };
        let ghost st = user_of(s, u);
        let ghost reset = match st.bundle {
            Some(b) => b.signed_prekey_id != bundle.signed_prekey_id,
            None => true,
        };
        assert(list@ == (if reset { Seq::<SignedOneTimePreKeyRecord>::empty() } else { st.records }));
        assert(consumed@ == (if reset { Seq::<u32>::empty() } else { st.consumed }));
        let ghost kept = list@;
        let mut k: usize = 0;
        while k < records.len()
            invariant
                k <= records@.len(),
                list@ == merge_records(kept, records@.take(k as int)),
            decreases records@.len() - k,
        {
            assert(records@.take(k as int + 1).drop_last() =~= records@.take(k as int));
            merge_record_into(&mut list, records[k].duplicate());
            k += 1;
        }
        assert(records@.take(k as int) =~= records@);
        let checked = retain_accepted(&list, &bundle, verify_record);
        let mut e = UserEntry { user_id: bundle.user_id.clone(), bundle: Some(bundle), records: checked, consumed };
        e.prune_consumed();
        proof {
            lemma_entries_ok_user(s, u);
            lemma_publish_user_ok(st, bundle, records@, *verify_record);
        }
        assert(entry_state(e) == publish_user(st, bundle, records@, *verify_record));
        match found {
            Some(j) => {
                self.users.insert(j, e);
                proof {
                    assert(self.users@ =~= s.update(j as int, e));
                    lemma_update_entry(s, j as int, e);
                    assert forall|a: int| 0 <= a < self.users@.len() implies user_ok((#[trigger] self.users@[a]).user_id@, entry_state(self.users@[a])) by {
                        if a != j {
                            assert(self.users@[a] == s[a]);
                        }
                    }
                }
            },
            None => {
                self.users.push(e);
                proof {
                    lemma_push_entry(s, e);
                    assert forall|a: int| 0 <= a < self.users@.len() implies user_ok((#[trigger] self.users@[a]).user_id@, entry_state(self.users@[a])) by {
                        if a < s.len() {
                            assert(self.users@[a] == s[a]);
                        }
                    }
                }
            },
        }
        had_bundle
    }
}

impl PreKeyStore {
    /// Publishes a user's bundle with signed one-time prekey records: refused with
    /// `PayloadTooLarge` past `max_one_time_prekeys` records, `InvalidBundle` where
    /// `verify_bundle` does not accept the bundle, `InvalidSignedOneTimePreKeyRecord` where
    /// `verify_record` does not accept a record for it (the store unchanged); else the
    /// user's entry becomes `publish_user` of it, and nothing else changes.
    pub fn publish_verified_with_signed_one_time_prekey_records<FB, FR>(
        &mut self,
        bundle: PreKeyBundle,
        signed_one_time_prekey_records: Vec<SignedOneTimePreKeyRecord>,
        max_one_time_prekeys: usize,
        verify_bundle: &FB,
        verify_record: &FR,
    ) -> (r: Result<(), PreKeyPublishError>)
        where
            FB: Fn(&PreKeyBundle) -> bool,
            FR: Fn(&SignedOneTimePreKeyRecord, &PreKeyBundle) -> bool,
        requires
            old(self).wf(),
            decides_bundles(*verify_bundle),
            decides_records(*verify_record),
        ensures
            final(self).wf(),
            r matches Err(PreKeyPublishError::PayloadTooLarge) <==> signed_one_time_prekey_records@.len() > max_one_time_prekeys,
            r matches Err(PreKeyPublishError::InvalidBundle) <==> (
                signed_one_time_prekey_records@.len() <= max_one_time_prekeys
                && !bundle_accepted(*verify_bundle, bundle)),
            r matches Err(PreKeyPublishError::InvalidSignedOneTimePreKeyRecord) <==> (
                signed_one_time_prekey_records@.len() <= max_one_time_prekeys
                && bundle_accepted(*verify_bundle, bundle)
                && exists|i: int| 0 <= i < signed_one_time_prekey_records@.len()
                    && !record_accepted(*verify_record, #[trigger] signed_one_time_prekey_records@[i], bundle)),
            r is Err ==> forall|v: Seq<char>| #[trigger] final(self).user(v) == old(self).user(v),
            r is Ok ==> forall|v: Seq<char>| #[trigger] final(self).user(v) == if v == bundle.user_id@ {
                publish_user(old(self).user(v), bundle, signed_one_time_prekey_records@, *verify_record)
            } else {
                old(self).user(v)
            },
    {
        let records = signed_one_time_prekey_records;
        if records.len() > max_one_time_prekeys {
            return Err(PreKeyPublishError::PayloadTooLarge);
        }
        assert(call_requires(*verify_bundle, (&bundle,)));
        if !verify_bundle(&bundle) {
            return Err(PreKeyPublishError::InvalidBundle);
        }
        let mut i: usize = 0;
        while i < records.len()
            invariant
                decides_records(*verify_record),
                i <= records@.len(),
                forall|k: int| 0 <= k < i ==> record_accepted(*verify_record, #[trigger] records@[k], bundle),
                self.users@ == old(self).users@,
                old(self).wf(),
                records@ == signed_one_time_prekey_records@,
                records@.len() <= max_one_time_prekeys,
                bundle_accepted(*verify_bundle, bundle),
            decreases records@.len() - i,
        {
            assert(call_requires(*verify_record, (&records@[i as int], &bundle)));
            if !verify_record(&records[i], &bundle) {
                return Err(PreKeyPublishError::InvalidSignedOneTimePreKeyRecord);
            }
            i += 1;
        }
        self.install(bundle, &records, verify_record);
        Ok(())
    }
}

impl PreKeyStore {
    /// Publishes a user's bundle with no new records (the records held for an unchanged
    /// signed prekey are checked against the new bundle).
    pub fn publish_verified<FB, FR>(&mut self, bundle: PreKeyBundle, verify_bundle: &FB, verify_record: &FR) -> (r: Result<(), PreKeyPublishError>)
        where
            FB: Fn(&PreKeyBundle) -> bool,
            FR: Fn(&SignedOneTimePreKeyRecord, &PreKeyBundle) -> bool,
        requires
            old(self).wf(),
            decides_bundles(*verify_bundle),
            decides_records(*verify_record),
        ensures
            final(self).wf(),
            r is Err <==> !bundle_accepted(*verify_bundle, bundle),
            r is Err ==> (r matches Err(PreKeyPublishError::InvalidBundle)),
            r is Err ==> forall|v: Seq<char>| #[trigger] final(self).user(v) == old(self).user(v),
            r is Ok ==> forall|v: Seq<char>| #[trigger] final(self).user(v) == if v == bundle.user_id@ {
                publish_user(old(self).user(v), bundle, Seq::empty(), *verify_record)
            } else {
                old(self).user(v)
            },
    {
        let none: Vec<SignedOneTimePreKeyRecord> = Vec::new();
        let r = self.publish_verified_with_signed_one_time_prekey_records(bundle, none, 0, verify_bundle, verify_record);
        proof {
            if r matches Err(PreKeyPublishError::InvalidSignedOneTimePreKeyRecord) {
                let i = choose|i: int| 0 <= i < none@.len() && !record_accepted(*verify_record, #[trigger] none@[i], bundle);
            }
        }
        r
    }
}

impl PreKeyStore {
    /// Adds the handed-out ids in turn, each to its user, dropping those no longer valid.
    pub fn merge_consumed(&mut self, consumed: Vec<ConsumedOneTimePreKey>)
        requires
            old(self).wf(),
        ensures
            final(self).wf(),
            forall|v: Seq<char>| #[trigger] final(self).user(v) == consumed_merged(old(self).user(v), v, consumed@),
    {
        let mut k: usize = 0;
        while k < consumed.len()
            invariant
                self.wf(),
                k <= consumed@.len(),
                forall|v: Seq<char>| #[trigger] self.user(v) == consumed_merged(old(self).user(v), v, consumed@.take(k as int)),
            decreases consumed@.len() - k,
        {
            let ghost s = self.users@;
            let item = &consumed[k];
            let u = &item.user_id;
            let ghost prefix = consumed@.take(k as int);
            assert(consumed@.take(k as int + 1).drop_last() =~= prefix);
            assert(consumed@.take(k as int + 1).last() == *item);
            assert forall|v: Seq<char>| #[trigger] user_of(s, v) == consumed_merged(old(self).user(v), v, prefix) by {
                assert(self.user(v) == consumed_merged(old(self).user(v), v, prefix));
            }
            let (j, existed, mut e) = match self.find_user(u) {
                Some(j) => {
                    proof { lemma_user_at(s, j as int); }
                    (j, true, self.users.remove(j))
                },
                None => {
                    proof { lemma_user_absent(s, u@); }
                    let j = self.users.len();
                    (j, false, UserEntry { user_id: u.clone(), bundle: None, records: Vec::new(), consumed: Vec::new() })
                },
            };
            let ghost st = entry_state(e);
            assert(st == user_of(s, u@));
            insert_id_sorted(&mut e.consumed, item.key_id);
            e.prune_consumed();
            proof {
                lemma_entries_ok_user(s, u@);
                lemma_insert_id(st.consumed, item.key_id);
                lemma_prune_consumed_ok(u@, UserPreKeys { consumed: insert_id(st.consumed, item.key_id), ..st });
            }
            if existed {
                self.users.insert(j, e);
                proof {
                    assert(self.users@ =~= s.update(j as int, e));
                    lemma_update_entry(s, j as int, e);
                    assert forall|a: int| 0 <= a < self.users@.len() implies user_ok((#[trigger] self.users@[a]).user_id@, entry_state(self.users@[a])) by {
                        if a != j {
                            assert(self.users@[a] == s[a]);
                        }
                    }
                }
            } else {
                self.users.push(e);
                proof {
                    lemma_push_entry(s, e);
                    assert forall|a: int| 0 <= a < self.users@.len() implies user_ok((#[trigger] self.users@[a]).user_id@, entry_state(self.users@[a])) by {
                        if a < s.len() {
                            assert(self.users@[a] == s[a]);
                        }
                    }
                }
            }
            assert forall|v: Seq<char>| #[trigger] self.user(v) == consumed_merged(old(self).user(v), v, consumed@.take(k as int + 1)) by {
                assert(user_of(s, v) == consumed_merged(old(self).user(v), v, prefix));
            }
            k += 1;
        }
        assert(consumed@.take(k as int) =~= consumed@);
    }

    /// Replaces every user's handed-out ids by those given, merged in turn.
    pub fn restore_consumed(&mut self, consumed: Vec<ConsumedOneTimePreKey>)
        requires
            old(self).wf(),
        ensures
            final(self).wf(),
            forall|v: Seq<char>| #[trigger] final(self).user(v)
                == consumed_merged(without_consumed(old(self).user(v)), v, consumed@),
    {
        let ghost s = self.users@;
        let mut i: usize = 0;
        while i < self.users.len()
            invariant
                entries_ok(s),
                self.users@.len() == s.len(),
                i <= s.len(),
                forall|k: int| 0 <= k < i ==> #[trigger] self.users@[k] == (UserEntry { consumed: self.users@[k].consumed, ..s[k] }) && self.users@[k].consumed@.len() == 0,
                forall|k: int| i <= k < s.len() ==> #[trigger] self.users@[k] == s[k],
            decreases s.len() - i,
        {
            let ghost before = self.users@;
            let mut e = self.users.remove(i);
            e.consumed = Vec::new();
            self.users.insert(i, e);
            assert(self.users@ =~= before.update(i as int, e));
            i += 1;
        }
        proof {
            let t = self.users@;
            assert(unique_users(t)) by {
                assert forall|a: int, b: int| 0 <= a < b < t.len() implies (#[trigger] t[a]).user_id@ != (#[trigger] t[b]).user_id@ by {
                    assert(t[a].user_id == s[a].user_id && t[b].user_id == s[b].user_id);
                }
            }
            assert forall|a: int| 0 <= a < t.len() implies user_ok((#[trigger] t[a]).user_id@, entry_state(t[a])) by {
                assert(user_ok(s[a].user_id@, entry_state(s[a])));
                assert(t[a].user_id == s[a].user_id);
            }
            assert forall|v: Seq<char>| #[trigger] user_of(t, v) == without_consumed(user_of(s, v)) by {
                if has_user(s, v) {
                    let k = lemma_user_index(s, v);
                    assert(t[k].user_id == s[k].user_id);
                    lemma_user_at(t, k);
                    assert(entry_state(t[k]).consumed =~= Seq::<u32>::empty());
                } else {
                    assert forall|k: int| 0 <= k < t.len() implies (#[trigger] t[k]).user_id@ != v by {
                        assert(t[k].user_id == s[k].user_id);
                    }
                    lemma_user_absent(t, v);
                    assert(no_prekeys() == without_consumed(no_prekeys()));
                }
            }
        }
        let ghost mid = self.users@;
        self.merge_consumed(consumed);
        assert forall|v: Seq<char>| #[trigger] self.user(v)
            == consumed_merged(without_consumed(old(self).user(v)), v, consumed@) by {
            assert(user_of(mid, v) == without_consumed(user_of(s, v)));
        }
    }
}

impl PreKeyStore {
    /// The users without a bundle that gain one from `bs`.
    pub open spec fn new_bundle_users<FB: Fn(&PreKeyBundle) -> bool>(&self, bs: Seq<PreKeyBundle>, verify_bundle: FB) -> Set<Seq<char>> {
        Set::new(|v: Seq<char>| self.user(v).bundle is None && has_accepted_bundle(bs, v, verify_bundle))
    }

    /// Merges bundles in turn: each that `verify_bundle` accepts is published with no new
    /// records, the others are skipped; returns how many users gained a bundle.
    pub fn merge_bundles<FB, FR>(&mut self, bundles: Vec<PreKeyBundle>, verify_bundle: &FB, verify_record: &FR) -> (r: usize)
        where
            FB: Fn(&PreKeyBundle) -> bool,
            FR: Fn(&SignedOneTimePreKeyRecord, &PreKeyBundle) -> bool,
        requires
            old(self).wf(),
            decides_bundles(*verify_bundle),
            decides_records(*verify_record),
        ensures
            final(self).wf(),
            forall|v: Seq<char>| #[trigger] final(self).user(v)
                == bundles_merged(old(self).user(v), v, bundles@, *verify_bundle, *verify_record),
            old(self).new_bundle_users(bundles@, *verify_bundle).finite(),
            r == old(self).new_bundle_users(bundles@, *verify_bundle).len(),
    {
        let ghost all = bundles@;
        let total = bundles.len();
        let mut rest = bundles;
        let mut inserted: usize = 0;
        let mut k: usize = 0;
        let none: Vec<SignedOneTimePreKeyRecord> = Vec::new();
        assert(all.subrange(0, all.len() as int) =~= all);
        assert(old(self).new_bundle_users(all.take(0), *verify_bundle) =~= Set::empty());
        while rest.len() > 0
            invariant
                self.wf(),
                decides_bundles(*verify_bundle),
                decides_records(*verify_record),
                none@.len() == 0,
                k + rest@.len() == all.len(),
                total == all.len(),
                rest@ == all.subrange(k as int, all.len() as int),
                forall|v: Seq<char>| #[trigger] self.user(v)
                    == bundles_merged(old(self).user(v), v, all.take(k as int), *verify_bundle, *verify_record),
                old(self).new_bundle_users(all.take(k as int), *verify_bundle).finite(),
                inserted == old(self).new_bundle_users(all.take(k as int), *verify_bundle).len(),
                inserted <= k,
            decreases rest@.len(),
        {
            let ghost prefix = all.take(k as int);
            let ghost before_users = self.users@;
            let b = rest.remove(0);
            assert(b == all[k as int]);
            assert(all.take(k as int + 1).drop_last() =~= prefix);
            assert(all.take(k as int + 1).last() == b);
            let ghost u = b.user_id@;
            assert forall|v: Seq<char>| #[trigger] user_of(before_users, v)
                == bundles_merged(old(self).user(v), v, prefix, *verify_bundle, *verify_record) by {
                assert(self.user(v) == bundles_merged(old(self).user(v), v, prefix, *verify_bundle, *verify_record));
            }
            let ghost s_prev = old(self).new_bundle_users(prefix, *verify_bundle);
            let ghost s_next = old(self).new_bundle_users(all.take(k as int + 1), *verify_bundle);
            assert(call_requires(*verify_bundle, (&b,)));
            if verify_bundle(&b) {
                let had = self.install(b, &none, verify_record);
                proof {
                    lemma_bundles_merged_bundle(old(self).user(u), u, prefix, *verify_bundle, *verify_record);
                    assert forall|v: Seq<char>| has_accepted_bundle(all.take(k as int + 1), v, *verify_bundle)
                        == (has_accepted_bundle(prefix, v, *verify_bundle) || v == u) by {
                        let t = all.take(k as int + 1);
                        if has_accepted_bundle(t, v, *verify_bundle) {
                            let i = choose|i: int| 0 <= i < t.len() && (#[trigger] t[i]).user_id@ == v && bundle_accepted(*verify_bundle, t[i]);
                            if i < k {
                                assert(prefix[i] == t[i]);
                            }
                        }
                        if has_accepted_bundle(prefix, v, *verify_bundle) {
                            let i = choose|i: int| 0 <= i < prefix.len() && (#[trigger] prefix[i]).user_id@ == v && bundle_accepted(*verify_bundle, prefix[i]);
                            assert(t[i] == prefix[i]);
                        }
                        if v == u {
                            assert(t[k as int] == b);
                        }
                    }
                    if !had {
                        assert(s_next =~= s_prev.insert(u));
                        assert(!s_prev.contains(u));
                    } else {
                        assert(s_next =~= s_prev);
                    }
                }
                if !had {
                    inserted += 1;
                }
            } else {
                proof {
                    assert forall|v: Seq<char>| has_accepted_bundle(all.take(k as int + 1), v, *verify_bundle)
                        == has_accepted_bundle(prefix, v, *verify_bundle) by {
                        let t = all.take(k as int + 1);
                        if has_accepted_bundle(t, v, *verify_bundle) {
                            let i = choose|i: int| 0 <= i < t.len() && (#[trigger] t[i]).user_id@ == v && bundle_accepted(*verify_bundle, t[i]);
                            if i < k {
                                assert(prefix[i] == t[i]);
                            } else {
                                assert(t[i] == b);
                            }
                        }
                        if has_accepted_bundle(prefix, v, *verify_bundle) {
                            let i = choose|i: int| 0 <= i < prefix.len() && (#[trigger] prefix[i]).user_id@ == v && bundle_accepted(*verify_bundle, prefix[i]);
                            assert(t[i] == prefix[i]);
                        }
                    }
                    assert(s_next =~= s_prev);
                }
            }
            assert forall|v: Seq<char>| #[trigger] self.user(v)
                == bundles_merged(old(self).user(v), v, all.take(k as int + 1), *verify_bundle, *verify_record) by {
                assert(user_of(before_users, v) == bundles_merged(old(self).user(v), v, prefix, *verify_bundle, *verify_record));
            }
            assert(rest@ =~= all.subrange(k as int + 1, all.len() as int));
            k += 1;
        }
        assert(all.take(k as int) =~= all);
        inserted
    }
}

impl PreKeyStore {
    /// Replaces all bundles and records by the bundles given that `verify_bundle` accepts
    /// (handed-out ids stay), then expires the store at `now`.
    pub fn restore_bundles_at<FB: Fn(&PreKeyBundle) -> bool>(&mut self, bundles: Vec<PreKeyBundle>, verify_bundle: &FB, now: u64)
        requires
            old(self).wf(),
            decides_bundles(*verify_bundle),
        ensures
            final(self).wf(),
            forall|v: Seq<char>| #[trigger] final(self).user(v)
                == expire_user(bundles_restored(consumed_only(old(self).user(v)), v, bundles@, *verify_bundle), now),
    {
        let ghost s = self.users@;
        let mut i: usize = 0;
        while i < self.users.len()
            invariant
                entries_ok(s),
                self.users@.len() == s.len(),
                i <= s.len(),
                forall|k: int| 0 <= k < i ==> (#[trigger] self.users@[k]).user_id == s[k].user_id
                    && entry_state(self.users@[k]) == consumed_only(entry_state(s[k])),
                forall|k: int| i <= k < s.len() ==> #[trigger] self.users@[k] == s[k],
            decreases s.len() - i,
        {
            let ghost before = self.users@;
            let mut e = self.users.remove(i);
            e.bundle = None;
            e.records = Vec::new();
            self.users.insert(i, e);
            assert(self.users@ =~= before.update(i as int, e));
            assert(entry_state(e) =~= consumed_only(entry_state(s[i as int])));
            i += 1;
        }
        proof {
            let t = self.users@;
            assert(unique_users(t)) by {
                assert forall|a: int, b: int| 0 <= a < b < t.len() implies (#[trigger] t[a]).user_id@ != (#[trigger] t[b]).user_id@ by {
                    assert(s[a].user_id@ != s[b].user_id@);
                }
            }
            assert forall|a: int| 0 <= a < t.len() implies user_ok((#[trigger] t[a]).user_id@, entry_state(t[a])) by {
                assert(user_ok(s[a].user_id@, entry_state(s[a])));
            }
            assert forall|v: Seq<char>| #[trigger] user_of(t, v) == consumed_only(user_of(s, v)) by {
                if has_user(s, v) {
                    let k = lemma_user_index(s, v);
                    lemma_user_at(t, k);
                } else {
                    assert forall|k: int| 0 <= k < t.len() implies (#[trigger] t[k]).user_id@ != v by {
                        assert(s[k].user_id@ != v);
                    }
                    lemma_user_absent(t, v);
                    assert(consumed_only(no_prekeys()) =~= no_prekeys());
                }
            }
        }
        let ghost all = bundles@;
        let total = bundles.len();
        let mut rest = bundles;
        let mut k: usize = 0;
        assert(all.subrange(0, all.len() as int) =~= all);
        while rest.len() > 0
            invariant
                self.wf(),
                decides_bundles(*verify_bundle),
                k + rest@.len() == all.len(),
                total == all.len(),
                rest@ == all.subrange(k as int, all.len() as int),
                forall|v: Seq<char>| #[trigger] self.user(v)
                    == bundles_restored(consumed_only(old(self).user(v)), v, all.take(k as int), *verify_bundle),
                forall|v: Seq<char>| (#[trigger] self.user(v)).records.len() == 0,
            decreases rest@.len(),
        {
            let ghost prefix = all.take(k as int);
            let ghost su = self.users@;
            let b = rest.remove(0);
            assert(b == all[k as int]);
            assert(all.take(k as int + 1).drop_last() =~= prefix);
            assert(all.take(k as int + 1).last() == b);
            assert forall|v: Seq<char>| #[trigger] user_of(su, v)
                == bundles_restored(consumed_only(old(self).user(v)), v, prefix, *verify_bundle)
                && user_of(su, v).records.len() == 0 by {
                assert(self.user(v) == bundles_restored(consumed_only(old(self).user(v)), v, prefix, *verify_bundle));
                assert(self.user(v).records.len() == 0);
            }
            assert(call_requires(*verify_bundle, (&b,)));
            if verify_bundle(&b) {
                let ghost u = b.user_id@;
                proof {
                    lemma_entries_ok_user(su, u);
                    assert(self.user(u).records.len() == 0);
                }
                match self.find_user(&b.user_id) {
                    Some(j) => {
                        proof { lemma_user_at(su, j as int); }
                        let mut e = self.users.remove(j);
                        e.bundle = Some(b);
                        self.users.insert(j, e);
                        proof {
                            assert(self.users@ =~= su.update(j as int, e));
                            lemma_update_entry(su, j as int, e);
                            assert forall|a: int| 0 <= a < self.users@.len() implies user_ok((#[trigger] self.users@[a]).user_id@, entry_state(self.users@[a])) by {
                                if a != j {
                                    assert(self.users@[a] == su[a]);
                                }
                            }
                        }
                    },
                    None => {
                        proof { lemma_user_absent(su, u); }
                        let e = UserEntry { user_id: b.user_id.clone(), bundle: Some(b), records: Vec::new(), consumed: Vec::new() };
                        self.users.push(e);
                        proof {
                            lemma_push_entry(su, e);
                            assert forall|a: int| 0 <= a < self.users@.len() implies user_ok((#[trigger] self.users@[a]).user_id@, entry_state(self.users@[a])) by {
                                if a < su.len() {
                                    assert(self.users@[a] == su[a]);
                                }
                            }
                        }
                    },
                }
            }
            assert forall|v: Seq<char>| #[trigger] self.user(v)
                == bundles_restored(consumed_only(old(self).user(v)), v, all.take(k as int + 1), *verify_bundle) by {
                assert(user_of(su, v) == bundles_restored(consumed_only(old(self).user(v)), v, prefix, *verify_bundle));
            }
            assert forall|v: Seq<char>| (#[trigger] self.user(v)).records.len() == 0 by {
                assert(user_of(su, v).records.len() == 0);
            }
            assert(rest@ =~= all.subrange(k as int + 1, all.len() as int));
            k += 1;
        }
        assert(all.take(k as int) =~= all);
        let ghost mid = self.users@;
        self.prune_expired(now);
        assert forall|v: Seq<char>| #[trigger] self.user(v)
            == expire_user(bundles_restored(consumed_only(old(self).user(v)), v, all, *verify_bundle), now) by {
            assert(user_of(mid, v) == bundles_restored(consumed_only(old(self).user(v)), v, all, *verify_bundle));
        }
    }

    /// `restore_bundles_at` at the current time.
    pub fn restore_bundles<FB: Fn(&PreKeyBundle) -> bool>(&mut self, bundles: Vec<PreKeyBundle>, verify_bundle: &FB)
        requires
            old(self).wf(),
            decides_bundles(*verify_bundle),
        ensures
            final(self).wf(),
            exists|now: u64| #[trigger] restore_step(*old(self), *final(self), bundles@, *verify_bundle, now),
    {
        let now = current_unix_timestamp();
        let ghost bs = bundles@;
        self.restore_bundles_at(bundles, verify_bundle, now);
        assert(restore_step(*old(self), *self, bs, *verify_bundle, now));
    }
}

impl PreKeyStore {
    /// Merges signed one-time prekey records: each record whose user has a bundle and that
    /// `verify_record` accepts for it is merged into the user's records (a record with the
    /// same key is replaced), the others are skipped; then each user that got records has
    /// the handed-out ids no longer valid dropped. Returns how many keys were new.
    pub fn merge_signed_one_time_prekey_records<FR: Fn(&SignedOneTimePreKeyRecord, &PreKeyBundle) -> bool>(
        &mut self,
        records: Vec<SignedOneTimePreKeyRecord>,
        verify_record: &FR,
    ) -> (r: usize)
        requires
            old(self).wf(),
            decides_records(*verify_record),
        ensures
            final(self).wf(),
            forall|v: Seq<char>| #[trigger] final(self).user(v) == records_merged(old(self).user(v), v, records@, *verify_record),
            r == new_record_count(|v: Seq<char>| old(self).user(v), records@, *verify_record),
    {
        let ghost s = self.users@;
        let ghost f = |v: Seq<char>| old(self).user(v);
        let mut touched: Vec<bool> = Vec::new();
        let mut i: usize = 0;
        while i < self.users.len()
            invariant
                i <= self.users@.len(),
                touched@.len() == i,
                forall|j: int| 0 <= j < i ==> !(#[trigger] touched@[j]),
            decreases self.users@.len() - i,
        {
            touched.push(false);
            i += 1;
        }
        let mut added: usize = 0;
        let mut k: usize = 0;
        while k < records.len()
            invariant
                decides_records(*verify_record),
                entries_ok(s),
                f == |v: Seq<char>| old(self).user(v),
                forall|v: Seq<char>| #[trigger] user_of(s, v) == old(self).user(v),
                self.wf(),
                k <= records@.len(),
                self.users@.len() == s.len(),
                touched@.len() == s.len(),
                added <= k,
                added == new_record_count(f, records@.take(k as int), *verify_record),
                forall|j: int| 0 <= j < s.len() ==> (#[trigger] self.users@[j]).user_id == s[j].user_id
                    && entry_state(self.users@[j]) == records_merged_unpruned(entry_state(s[j]), s[j].user_id@, records@.take(k as int), *verify_record)
                    && touched@[j] == (accepted_records_for(entry_state(s[j]), s[j].user_id@, records@.take(k as int), *verify_record).len() > 0),
            decreases records@.len() - k,
        {
            let ghost prefix = records@.take(k as int);
            let ghost next = records@.take(k as int + 1);
            let rec = &records[k];
            let ghost u = rec.user_id@;
            assert(next.drop_last() =~= prefix);
            assert(next.last() == *rec);
            let ghost su = self.users@;
            let ghost tu = touched@;
            let mut accepted_at: Option<usize> = None;
            match self.find_user(&rec.user_id) {
                None => {
                    proof { lemma_user_absent(su, u); }
                },
                Some(j) => {
                    proof { lemma_user_at(su, j as int); }
                    let ok = match &self.users[j].bundle {
                        None => false,
                        Some(b) => {
                            assert(call_requires(*verify_record, (rec, b)));
                            verify_record(rec, b)
                        },
                    };
                    assert(ok == (entry_state(s[j as int]).bundle matches Some(b) && record_accepted(*verify_record, *rec, b)));
                    if ok {
                        accepted_at = Some(j);
                    }
                },
            }
            // Whether entry `j` is the record's user's and takes the record.
            let ghost takes = |j: int| s[j].user_id@ == u
                && (entry_state(s[j]).bundle matches Some(b) && record_accepted(*verify_record, *rec, b));
            proof {
                assert forall|j: int| 0 <= j < s.len() implies (accepted_at matches Some(x) && x == j) == #[trigger] takes(j) by {
                    assert(su[j].user_id == s[j].user_id);
                    if let Some(x) = accepted_at {
                        if x != j && s[j].user_id@ == u {
                            assert(s[x as int].user_id@ == u);
                            if j < x { assert(s[j].user_id@ != s[x as int].user_id@); } else { assert(s[x as int].user_id@ != s[j].user_id@); }
                        }
                    }
                }
                assert forall|j: int| 0 <= j < s.len() implies
                    accepted_records_for(entry_state(s[j]), s[j].user_id@, next, *verify_record)
                        == if takes(j) {
                            accepted_records_for(entry_state(s[j]), s[j].user_id@, prefix, *verify_record).push(*rec)
                        } else {
                            accepted_records_for(entry_state(s[j]), s[j].user_id@, prefix, *verify_record)
                        } by {
                    let st = entry_state(s[j]);
                    if let Some(b) = st.bundle {
                        let keep = |r: SignedOneTimePreKeyRecord| r.user_id@ == s[j].user_id@ && record_accepted(*verify_record, r, b);
                        assert(filter_records(next, keep) == (if keep(*rec) { filter_records(prefix, keep).push(*rec) } else { filter_records(prefix, keep) }));
                        assert(keep(*rec) == takes(j));
                    }
                }
            }
            match accepted_at {
                None => {},
                Some(j) => {
                    let mut e = self.users.remove(j);
                    proof {
                        lemma_entries_ok_user(su, u);
                        lemma_user_at(su, j as int);
                    }
                    let fresh = merge_record_counting(&mut e.records, rec.duplicate());
                    self.users.insert(j, e);
                    touched.set(j, true);
                    assert(self.users@ =~= su.update(j as int, e));
                    proof {
                        let st = entry_state(s[j as int]);
                        let v = s[j as int].user_id@;
                        let acc = accepted_records_for(st, v, prefix, *verify_record);
                        assert(takes(j as int));
                        assert(accepted_records_for(st, v, next, *verify_record) == acc.push(*rec));
                        assert(acc.push(*rec).drop_last() =~= acc);
                        assert(acc.push(*rec).last() == *rec);
                        assert(entry_state(e) == records_merged_unpruned(st, v, next, *verify_record));
                    }
                    if fresh {
                        added += 1;
                    }
                },
            }
            proof {
                assert forall|j: int| 0 <= j < s.len() implies (#[trigger] self.users@[j]).user_id == s[j].user_id
                    && entry_state(self.users@[j]) == records_merged_unpruned(entry_state(s[j]), s[j].user_id@, next, *verify_record)
                    && touched@[j] == (accepted_records_for(entry_state(s[j]), s[j].user_id@, next, *verify_record).len() > 0) by {
                    if !takes(j) {
                        assert(self.users@[j] == su[j]);
                        assert(touched@[j] == tu[j]);
                    }
                }
                assert(unique_users(self.users@)) by {
                    assert forall|a: int, b: int| 0 <= a < b < self.users@.len() implies (#[trigger] self.users@[a]).user_id@ != (#[trigger] self.users@[b]).user_id@ by {
                        assert(s[a].user_id@ != s[b].user_id@);
                    }
                }
                assert forall|a: int| 0 <= a < self.users@.len() implies user_ok((#[trigger] self.users@[a]).user_id@, entry_state(self.users@[a])) by {
                    lemma_records_merged_ok(entry_state(s[a]), s[a].user_id@, next, *verify_record);
                }
                // The count.
                let st = f(u);
                if has_user(s, u) {
                    let j = lemma_user_index(s, u);
                    assert(st == entry_state(s[j]));
                    assert(takes(j) == (st.bundle matches Some(b) && record_accepted(*verify_record, *rec, b)));
                } else {
                    lemma_user_absent(s, u);
                }
            }
            k += 1;
        }
        assert(records@.take(k as int) =~= records@);
        let ghost mid = self.users@;
        let mut j: usize = 0;
        while j < self.users.len()
            invariant
                entries_ok(s),
                self.users@.len() == s.len(),
                touched@.len() == s.len(),
                mid.len() == s.len(),
                j <= s.len(),
                forall|a: int| 0 <= a < s.len() ==> (#[trigger] self.users@[a]).user_id == s[a].user_id,
                forall|a: int| 0 <= a < j ==> entry_state(#[trigger] self.users@[a]) == records_merged(entry_state(s[a]), s[a].user_id@, records@, *verify_record),
                forall|a: int| j <= a < s.len() ==> #[trigger] self.users@[a] == mid[a],
                forall|a: int| 0 <= a < s.len() ==> entry_state(#[trigger] mid[a]) == records_merged_unpruned(entry_state(s[a]), s[a].user_id@, records@, *verify_record)
                    && touched@[a] == (accepted_records_for(entry_state(s[a]), s[a].user_id@, records@, *verify_record).len() > 0),
            decreases s.len() - j,
        {
            if touched[j] {
                let ghost before = self.users@;
                let mut e = self.users.remove(j);
                e.prune_consumed();
                self.users.insert(j, e);
                assert(self.users@ =~= before.update(j as int, e));
            }
            j += 1;
        }
        proof {
            let t = self.users@;
            assert(unique_users(t)) by {
                assert forall|a: int, b: int| 0 <= a < b < t.len() implies (#[trigger] t[a]).user_id@ != (#[trigger] t[b]).user_id@ by {
                    assert(s[a].user_id@ != s[b].user_id@);
                }
            }
            assert forall|a: int| 0 <= a < t.len() implies user_ok((#[trigger] t[a]).user_id@, entry_state(t[a])) by {
                lemma_records_merged_ok(entry_state(s[a]), s[a].user_id@, records@, *verify_record);
            }
            assert forall|v: Seq<char>| #[trigger] user_of(t, v) == records_merged(old(self).user(v), v, records@, *verify_record) by {
                if has_user(s, v) {
                    let a = lemma_user_index(s, v);
                    lemma_user_at(t, a);
                } else {
                    assert forall|a: int| 0 <= a < t.len() implies (#[trigger] t[a]).user_id@ != v by {
                        assert(s[a].user_id@ != v);
                    }
                    lemma_user_absent(t, v);
                    lemma_user_absent(s, v);
                }
            }
        }
        added
    }

    /// Replaces every user's records by the records given, merged as
    /// `merge_signed_one_time_prekey_records` does.
    pub fn restore_signed_one_time_prekey_records<FR: Fn(&SignedOneTimePreKeyRecord, &PreKeyBundle) -> bool>(
        &mut self,
        records: Vec<SignedOneTimePreKeyRecord>,
        verify_record: &FR,
    )
        requires
            old(self).wf(),
            decides_records(*verify_record),
        ensures
            final(self).wf(),
            forall|v: Seq<char>| #[trigger] final(self).user(v)
                == records_merged(without_records(old(self).user(v)), v, records@, *verify_record),
    {
        let ghost s = self.users@;
        let mut i: usize = 0;
        while i < self.users.len()
            invariant
                entries_ok(s),
                self.users@.len() == s.len(),
                i <= s.len(),
                forall|k: int| 0 <= k < i ==> (#[trigger] self.users@[k]).user_id == s[k].user_id
                    && entry_state(self.users@[k]) == without_records(entry_state(s[k])),
                forall|k: int| i <= k < s.len() ==> #[trigger] self.users@[k] == s[k],
            decreases s.len() - i,
        {
            let ghost before = self.users@;
            let mut e = self.users.remove(i);
            e.records = Vec::new();
            self.users.insert(i, e);
            assert(self.users@ =~= before.update(i as int, e));
            assert(entry_state(e) =~= without_records(entry_state(s[i as int])));
            i += 1;
        }
        proof {
            let t = self.users@;
            assert(unique_users(t)) by {
                assert forall|a: int, b: int| 0 <= a < b < t.len() implies (#[trigger] t[a]).user_id@ != (#[trigger] t[b]).user_id@ by {
                    assert(s[a].user_id@ != s[b].user_id@);
                }
            }
            assert forall|a: int| 0 <= a < t.len() implies user_ok((#[trigger] t[a]).user_id@, entry_state(t[a])) by {
                assert(user_ok(s[a].user_id@, entry_state(s[a])));
            }
            assert forall|v: Seq<char>| #[trigger] user_of(t, v) == without_records(user_of(s, v)) by {
                if has_user(s, v) {
                    let k = lemma_user_index(s, v);
                    lemma_user_at(t, k);
                } else {
                    assert forall|k: int| 0 <= k < t.len() implies (#[trigger] t[k]).user_id@ != v by {
                        assert(s[k].user_id@ != v);
                    }
                    lemma_user_absent(t, v);
                    assert(no_prekeys() =~= without_records(no_prekeys()));
                }
            }
        }
        let ghost mid = self.users@;
        self.merge_signed_one_time_prekey_records(records, verify_record);
        assert forall|v: Seq<char>| #[trigger] self.user(v)
            == records_merged(without_records(old(self).user(v)), v, records@, *verify_record) by {
            assert(user_of(mid, v) == without_records(user_of(s, v)));
        }
    }
}

impl PreKeyStore {
    /// The order in which the store lists its users.
    pub closed spec fn listing(&self) -> Seq<Seq<char>> {
        self.users@.map_values(|e: UserEntry| e.user_id@)
    }

    /// The listing names each user once, and every user the store holds anything for.
    pub proof fn lemma_listing(&self)
        requires
            self.wf(),
        ensures
            forall|i: int, j: int| 0 <= i < j < self.listing().len() ==> #[trigger] self.listing()[i] != #[trigger] self.listing()[j],
            forall|u: Seq<char>| #[trigger] self.user(u) != no_prekeys() ==> self.listing().contains(u),
    {
        assert forall|u: Seq<char>| #[trigger] self.user(u) != no_prekeys() implies self.listing().contains(u) by {
            if has_user(self.users@, u) {
                let i = lemma_user_index(self.users@, u);
                assert(self.listing()[i] == u);
            }
        }
    }

    /// The bundles of all users, in listing order.
    pub fn all_bundles(&self) -> (r: Vec<PreKeyBundle>)
        requires
            self.wf(),
        ensures
            bundle_views(r@) == listed_bundles(|u: Seq<char>| self.user(u), self.listing()),
    {
        let ghost f = |u: Seq<char>| self.user(u);
        let ghost l = self.listing();
        let mut out: Vec<PreKeyBundle> = Vec::new();
        let mut i: usize = 0;
        while i < self.users.len()
            invariant
                self.wf(),
                f == |u: Seq<char>| self.user(u),
                l == self.listing(),
                i <= self.users@.len(),
                bundle_views(out@) == listed_bundles(f, l.take(i as int)),
            decreases self.users@.len() - i,
        {
            proof { lemma_user_at(self.users@, i as int); }
            assert(l.take(i as int + 1).drop_last() =~= l.take(i as int));
            assert(l.take(i as int + 1).last() == self.users@[i as int].user_id@);
            match &self.users[i].bundle {
                Some(b) => {
                    let ghost before = out@;
                    out.push(b.duplicate());
                    assert(bundle_views(out@) =~= bundle_views(before).push(b@));
                },
                None => {},
            }
            i += 1;
        }
        assert(l.take(i as int) =~= l);
        out
    }

    /// The signed one-time prekey records of all users, user after user in listing order.
    pub fn all_signed_one_time_prekey_records(&self) -> (r: Vec<SignedOneTimePreKeyRecord>)
        requires
            self.wf(),
        ensures
            r@ == listed_records(|u: Seq<char>| self.user(u), self.listing()),
    {
        let ghost f = |u: Seq<char>| self.user(u);
        let ghost l = self.listing();
        let mut out: Vec<SignedOneTimePreKeyRecord> = Vec::new();
        let mut i: usize = 0;
        while i < self.users.len()
            invariant
                self.wf(),
                f == |u: Seq<char>| self.user(u),
                l == self.listing(),
                i <= self.users@.len(),
                out@ == listed_records(f, l.take(i as int)),
            decreases self.users@.len() - i,
        {
            proof { lemma_user_at(self.users@, i as int); }
            assert(l.take(i as int + 1).drop_last() =~= l.take(i as int));
            assert(l.take(i as int + 1).last() == self.users@[i as int].user_id@);
            let rs = &self.users[i].records;
            let ghost start = out@;
            let mut k: usize = 0;
            while k < rs.len()
                invariant
                    k <= rs@.len(),
                    out@ == start + rs@.take(k as int),
                decreases rs@.len() - k,
            {
                out.push(rs[k].duplicate());
                assert(rs@.take(k as int + 1) =~= rs@.take(k as int).push(rs@[k as int]));
                assert(start + rs@.take(k as int + 1) =~= (start + rs@.take(k as int)).push(rs@[k as int]));
                k += 1;
            }
            assert(rs@.take(k as int) =~= rs@);
            i += 1;
        }
        assert(l.take(i as int) =~= l);
        out
    }
}

impl Default for PreKeyStore {
    fn default() -> (r: PreKeyStore)
        ensures
            r.wf(),
            forall|u: Seq<char>| #[trigger] r.user(u) == no_prekeys(),
    {
        PreKeyStore::new()
    }
}

} // verus!
