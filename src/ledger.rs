//! The outcome ledger: for each route, the latest recorded outcome of a
//! connection attempt through it, and the delay that a recent failure earns.
use std::collections::HashMap;
use vstd::prelude::*;

verus! {

broadcast use vstd::std_specs::hash::group_hash_axioms;

/// How one attempt through a route ended, and when (in milliseconds on the
/// caller's monotonic clock).
#[derive(Clone, Copy, Debug, PartialEq, Eq, Structural)]
pub struct OutcomeRecord {
    pub finished_at: u64,
    pub success: bool,
}

/// One entry of the batch that an attempt produces: a route's identity and
/// the outcome of trying it.
#[derive(Clone, Copy, Debug, PartialEq, Eq, Structural)]
pub struct OutcomeUpdate {
    pub route: u64,
    pub record: OutcomeRecord,
}

/// How long a failure is held against a route, and the most it may delay
/// the route, both in milliseconds.
#[derive(Clone, Copy, Debug, PartialEq, Eq, Structural)]
pub struct ConnectionOutcomeParams {
    pub age_cutoff: u64,
    pub max_delay: u64,
}

/// `a` replaces `b` as a route's record: it finished later, or at the same
/// moment as a failure where `b` was a success.
pub open spec fn supersedes(a: OutcomeRecord, b: OutcomeRecord) -> bool {
    a.finished_at > b.finished_at || (a.finished_at == b.finished_at && !a.success && b.success)
}

/// `a` is `b` or supersedes it.
pub open spec fn at_least(a: OutcomeRecord, b: OutcomeRecord) -> bool {
    a == b || supersedes(a, b)
}

/// The ledger after one update: the new record is kept unless the route
/// already holds one that it does not supersede.
pub open spec fn apply_one(m: Map<u64, OutcomeRecord>, u: OutcomeUpdate) -> Map<u64, OutcomeRecord> {
    if m.contains_key(u.route) && !supersedes(u.record, m[u.route]) {
        m
    } else {
        m.insert(u.route, u.record)
    }
}

/// The ledger after a batch of updates, applied front to back.
pub open spec fn apply_all(m: Map<u64, OutcomeRecord>, s: Seq<OutcomeUpdate>) -> Map<
    u64,
    OutcomeRecord,
>
    decreases s.len(),
{
    if s.len() == 0 {
        m
    } else {
        apply_one(apply_all(m, s.drop_last()), s.last())
    }
}

/// Time since `finished_at`, or zero where the clock reads earlier.
pub open spec fn elapsed_since(finished_at: u64, now: u64) -> int {
    if now >= finished_at {
        now - finished_at
    } else {
        0
    }
}

/// The delay owed to a route: a failure younger than the age cutoff delays it
/// by the rest of the cutoff, capped at the maximum delay; anything else
/// costs nothing.
pub open spec fn route_delay(
    m: Map<u64, OutcomeRecord>,
    params: ConnectionOutcomeParams,
    route: u64,
    now: u64,
) -> int {
    if m.contains_key(route) && !m[route].success && elapsed_since(m[route].finished_at, now)
        < params.age_cutoff {
        let rest = params.age_cutoff - elapsed_since(m[route].finished_at, now);
        if rest < params.max_delay {
            rest
        } else {
            params.max_delay as int
        }
    } else {
        0
    }
}

/// The per-route record of connection outcomes.
pub struct ConnectionOutcomes {
    params: ConnectionOutcomeParams,
    records: HashMap<u64, OutcomeRecord>,
}

impl View for ConnectionOutcomes {
    type V = Map<u64, OutcomeRecord>;

    closed spec fn view(&self) -> Map<u64, OutcomeRecord> {
        self.records@
    }
}

impl ConnectionOutcomes {
    /// The parameters the ledger was made with.
    pub closed spec fn spec_params(&self) -> ConnectionOutcomeParams {
        self.params
    }

    /// An empty ledger.
    pub fn new(params: ConnectionOutcomeParams) -> (r: Self)
        ensures
            r@ == Map::<u64, OutcomeRecord>::empty(),
            r.spec_params() == params,
    {
        ConnectionOutcomes { params, records: HashMap::new() }
    }

    pub fn params(&self) -> (r: ConnectionOutcomeParams)
        ensures
            r == self.spec_params(),
    {
        self.params
    }

    /// The record held for `route`, if any.
    pub fn record(&self, route: u64) -> (r: Option<OutcomeRecord>)
        ensures
            r == (if self@.contains_key(route) {
                Some(self@[route])
            } else {
                None
            }),
    {
        match self.records.get(&route) {
            Some(rec) => Some(*rec),
            None => None,
        }
    }

    /// Applies one update.
    pub fn apply_outcome_update(&mut self, update: OutcomeUpdate)
        ensures
            final(self)@ == apply_one(old(self)@, update),
            final(self).spec_params() == old(self).spec_params(),
    {
        let keep = match self.records.get(&update.route) {
            Some(rec) => !(update.record.finished_at > rec.finished_at || (
            update.record.finished_at == rec.finished_at && !update.record.success
                && rec.success)),
            None => false,
        };
        if !keep {
            self.records.insert(update.route, update.record);
        }
    }

    /// Applies a batch of updates in order.
    pub fn apply_outcome_updates(&mut self, updates: &Vec<OutcomeUpdate>)
        ensures
            final(self)@ == apply_all(old(self)@, updates@),
            final(self).spec_params() == old(self).spec_params(),
    {
        let ghost start = self@;
        let mut i: usize = 0;
        while i < updates.len()
            invariant
                i <= updates@.len(),
                self@ == apply_all(start, updates@.subrange(0, i as int)),
                self.spec_params() == old(self).spec_params(),
            decreases updates@.len() - i,
        {
            self.apply_outcome_update(updates[i]);
            assert(updates@.subrange(0, i + 1).drop_last() =~= updates@.subrange(0, i as int));
            i = i + 1;
        }
        assert(updates@.subrange(0, i as int) =~= updates@);
    }

    /// The delay owed to `route` at time `now`.
    pub fn delay_for(&self, route: u64, now: u64) -> (r: u64)
        ensures
            r == route_delay(self@, self.spec_params(), route, now),
    {
        match self.records.get(&route) {
            Some(rec) => {
                let elapsed: u64 = if now >= rec.finished_at {
                    now - rec.finished_at
                } else {
                    0
                };
                if !rec.success && elapsed < self.params.age_cutoff {
                    let rest: u64 = self.params.age_cutoff - elapsed;
                    if rest < self.params.max_delay {
                        rest
                    } else {
                        self.params.max_delay
                    }
                } else {
                    0
                }
            },
            None => 0,
        }
    }
}

/// Some update of the batch is for route `k`.
spec fn mentions(s: Seq<OutcomeUpdate>, k: u64) -> bool {
    exists|i: int| 0 <= i < s.len() && s[i].route == k
}

/// Every route that a batch touches ends up in the ledger with a record at
/// least as recent as each one given for it, and each record in the result
/// was either already there or came from the batch.
proof fn lemma_apply_all_keeps_latest(m: Map<u64, OutcomeRecord>, s: Seq<OutcomeUpdate>)
    ensures
        forall|k: u64| #[trigger]
            apply_all(m, s).contains_key(k) <==> (m.contains_key(k) || mentions(s, k)),
        forall|k: u64| #[trigger]
            m.contains_key(k) ==> at_least(apply_all(m, s)[k], m[k]),
        forall|i: int|
            0 <= i < s.len() ==> at_least(apply_all(m, s)[s[i].route], #[trigger] s[i].record),
        forall|k: u64| #[trigger]
            apply_all(m, s).contains_key(k) ==> (m.contains_key(k) && apply_all(m, s)[k] == m[k])
                || exists|i: int|
                0 <= i < s.len() && s[i] == (OutcomeUpdate { route: k, record: apply_all(m, s)[k] }),
    decreases s.len(),
{
    if s.len() > 0 {
        let p = s.drop_last();
        lemma_apply_all_keeps_latest(m, p);
        let r = apply_all(m, s);
        let q = apply_all(m, p);
        assert forall|k: u64| #[trigger] q.contains_key(k) implies r.contains_key(k) && at_least(
            r[k],
            q[k],
        ) by {}
        assert forall|k: u64| #[trigger] r.contains_key(k) <==> (m.contains_key(k) || mentions(s, k)) by {
            if k == s.last().route {
                assert(s[s.len() - 1].route == k);
            } else {
                if mentions(s, k) {
                    let i = choose|i: int| 0 <= i < s.len() && s[i].route == k;
                    assert(p[i].route == k);
                }
                if mentions(p, k) {
                    let i = choose|i: int| 0 <= i < p.len() && p[i].route == k;
                    assert(s[i].route == k);
                }
                assert(q.contains_key(k) == r.contains_key(k));
            }
        }
        assert forall|i: int| 0 <= i < s.len() implies at_least(r[s[i].route], #[trigger] s[i].record) by {
            if i < p.len() {
                assert(p[i] == s[i]);
                assert(mentions(p, p[i].route));
                assert(q.contains_key(s[i].route));
            }
        }
        assert forall|k: u64| #[trigger] r.contains_key(k) implies (m.contains_key(k) && r[k] == m[k])
            || exists|i: int| 0 <= i < s.len() && s[i] == (OutcomeUpdate { route: k, record: r[k] }) by {
            if k == s.last().route && r[k] == s.last().record {
                assert(s[s.len() - 1] == (OutcomeUpdate { route: k, record: r[k] }));
            } else if !(m.contains_key(k) && r[k] == m[k]) {
                assert(q.contains_key(k));
                let i = choose|i: int| 0 <= i < p.len() && p[i] == (OutcomeUpdate { route: k, record: q[k] });
                assert(s[i] == p[i]);
            }
        }
    }
}

/// The order of a batch does not matter: applying any permutation of the same
/// updates leaves the same ledger.
pub proof fn lemma_updates_commute(
    ledger: Map<u64, OutcomeRecord>,
    s1: Seq<OutcomeUpdate>,
    s2: Seq<OutcomeUpdate>,
)
    requires
        s1.to_multiset() == s2.to_multiset(),
    ensures
        apply_all(ledger, s1) == apply_all(ledger, s2),
{
    lemma_apply_all_keeps_latest(ledger, s1);
    lemma_apply_all_keeps_latest(ledger, s2);
    s1.to_multiset_ensures();
    s2.to_multiset_ensures();
    let r1 = apply_all(ledger, s1);
    let r2 = apply_all(ledger, s2);
    assert forall|k: u64| #[trigger] r1.contains_key(k) <==> r2.contains_key(k) by {
        if mentions(s1, k) {
            let i = choose|i: int| 0 <= i < s1.len() && s1[i].route == k;
            assert(s1.contains(s1[i]));
            assert(s2.to_multiset().count(s1[i]) > 0);
            assert(s2.contains(s1[i]));
            let j = choose|j: int| 0 <= j < s2.len() && s2[j] == s1[i];
            assert(s2[j].route == k);
        }
        if mentions(s2, k) {
            let i = choose|i: int| 0 <= i < s2.len() && s2[i].route == k;
            assert(s2.contains(s2[i]));
            assert(s1.to_multiset().count(s2[i]) > 0);
            assert(s1.contains(s2[i]));
            let j = choose|j: int| 0 <= j < s1.len() && s1[j] == s2[i];
            assert(s1[j].route == k);
        }
    }
    assert forall|k: u64| r1.contains_key(k) implies r1[k] == r2[k] by {
        // each side is at least the record that the other kept
        assert(r2.contains_key(k));
        if !(ledger.contains_key(k) && r1[k] == ledger[k]) {
            let i = choose|i: int| 0 <= i < s1.len() && s1[i] == (OutcomeUpdate { route: k, record: r1[k] });
            assert(s1.contains(s1[i]));
            assert(s2.to_multiset().count(s1[i]) > 0);
            assert(s2.contains(s1[i]));
            let j = choose|j: int| 0 <= j < s2.len() && s2[j] == s1[i];
            assert(at_least(r2[s2[j].route], s2[j].record));
        }
        if !(ledger.contains_key(k) && r2[k] == ledger[k]) {
            let i = choose|i: int| 0 <= i < s2.len() && s2[i] == (OutcomeUpdate { route: k, record: r2[k] });
            assert(s2.contains(s2[i]));
            assert(s1.to_multiset().count(s2[i]) > 0);
            assert(s1.contains(s2[i]));
            let j = choose|j: int| 0 <= j < s1.len() && s1[j] == s2[i];
            assert(at_least(r1[s1[j].route], s1[j].record));
        }
    }
    assert(r1 =~= r2);
}

} // verus!
