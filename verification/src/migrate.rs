//! Startup migration sequencing.
//!
//! Before the service listens, one short-lived connection applies every
//! schema migration that storage has not yet recorded as applied, in
//! ascending version order. This module holds the sequencing decisions:
//! which versions are pending against a record of applied versions, and
//! what a full pass records. Running the scripts themselves is outside
//! work; any script failure is fatal to startup and aborts the pass. The
//! law at the end states that a pass is safe to repeat: after one full
//! pass, a second finds nothing pending and records nothing.

use vstd::prelude::*;

verus! {

/// The versions not yet recorded as applied, in the order `available`
/// lists them.
pub open spec fn pending_of(available: Seq<u64>, applied: Seq<u64>) -> Seq<u64> {
    available.filter(|v: u64| !applied.contains(v))
}

/// Whether versions stand in strictly ascending order.
pub open spec fn strictly_ascending(s: Seq<u64>) -> bool {
    forall|i: int, k: int| 0 <= i < k < s.len() ==> (#[trigger] s[i]) < (#[trigger] s[k])
}

/// Storage's record of which migration versions have been applied, in the
/// order they were applied.
pub struct MigrationLog {
    pub applied: Vec<u64>,
}

impl MigrationLog {
    /// The record of a storage no migration has touched.
    pub fn new() -> (log: MigrationLog)
        ensures
            log.applied@.len() == 0,
    {
        MigrationLog { applied: Vec::new() }
    }

    /// Whether one version is already recorded as applied.
    pub fn is_applied(&self, v: u64) -> (r: bool)
        ensures
            r == self.applied@.contains(v),
    {
        let n = self.applied.len();
        let mut i: usize = 0;
        while i < n
            invariant
                n == self.applied@.len(),
                0 <= i <= n,
                forall|k: int| 0 <= k < i ==> (#[trigger] self.applied@[k]) != v,
            decreases n - i,
        {
            if self.applied[i] == v {
                return true;
            }
            i += 1;
        }
        proof {
            if self.applied@.contains(v) {
                let k = choose|k: int| 0 <= k < self.applied@.len() && self.applied@[k] == v;
            }
        }
        false
    }

    /// The versions a pass must apply: those available but not yet
    /// recorded, in the listed order — ascending whenever the available
    /// versions are listed ascending.
    pub fn pending(&self, available: &Vec<u64>) -> (r: Vec<u64>)
        ensures
            r@ == pending_of(available@, self.applied@),
            strictly_ascending(available@) ==> strictly_ascending(r@),
    {
        let n = available.len();
        let mut r: Vec<u64> = Vec::new();
        let mut i: usize = 0;
        proof {
            assert(available@.subrange(0, 0) =~= Seq::<u64>::empty());
            reveal_with_fuel(Seq::<_>::filter, 1);
        }
        while i < n
            invariant
                n == available@.len(),
                0 <= i <= n,
                r@ == pending_of(available@.subrange(0, i as int), self.applied@),
                strictly_ascending(available@) ==> forall|m: int, k: int|
                    0 <= m < r@.len() && i <= k < n ==> (#[trigger] r@[m]) < (
                    #[trigger] available@[k]),
                strictly_ascending(available@) ==> strictly_ascending(r@),
            decreases n - i,
        {
            let v = available[i];
            let ghost pre = available@.subrange(0, i as int);
            proof {
                assert(available@.subrange(0, i + 1) =~= pre.push(v));
                assert(pre.push(v).drop_last() =~= pre);
                reveal_with_fuel(Seq::<_>::filter, 2);
            }
            if !self.is_applied(v) {
                r.push(v);
            }
            i += 1;
        }
        proof {
            assert(available@.subrange(0, n as int) =~= available@);
        }
        r
    }

    /// One full migration pass in which every pending script succeeds:
    /// each pending version is applied and recorded, in the listed order,
    /// after all already-recorded ones. Returns the versions applied by
    /// this pass.
    pub fn run_all(&mut self, available: &Vec<u64>) -> (applied_now: Vec<u64>)
        ensures
            applied_now@ == pending_of(available@, old(self).applied@),
            final(self).applied@ == old(self).applied@ + applied_now@,
    {
        let to_apply = self.pending(available);
        let n = to_apply.len();
        let mut i: usize = 0;
        proof {
            assert(self.applied@ =~= old(self).applied@ + to_apply@.subrange(0, 0));
        }
        while i < n
            invariant
                n == to_apply@.len(),
                0 <= i <= n,
                self.applied@ == old(self).applied@ + to_apply@.subrange(0, i as int),
            decreases n - i,
        {
            self.applied.push(to_apply[i]);
            proof {
                assert(self.applied@ =~= old(self).applied@ + to_apply@.subrange(0, i + 1));
            }
            i += 1;
        }
        proof {
            assert(to_apply@.subrange(0, n as int) =~= to_apply@);
        }
        to_apply
    }
}

/// A sequence filtered by a predicate no element satisfies is empty.
proof fn lemma_filter_all_false(s: Seq<u64>, pred: spec_fn(u64) -> bool)
    requires
        forall|i: int| 0 <= i < s.len() ==> !pred(#[trigger] s[i]),
    ensures
        s.filter(pred) =~= Seq::<u64>::empty(),
    decreases s.len(),
{
    reveal_with_fuel(Seq::<_>::filter, 2);
    if s.len() > 0 {
        assert(forall|i: int| 0 <= i < s.drop_last().len() ==> s.drop_last()[i] == s[i]);
        lemma_filter_all_false(s.drop_last(), pred);
    }
}

/// Migrations are safe to run twice: once a pass has recorded everything
/// that was pending, a second pass against the same available versions
/// finds nothing pending, so it applies nothing and records nothing — no
/// drift and no error on the repeat.
pub proof fn lemma_second_pass_applies_nothing(available: Seq<u64>, applied: Seq<u64>)
    ensures
        pending_of(available, applied + pending_of(available, applied)) =~= Seq::<u64>::empty(),
{
    let first = pending_of(available, applied);
    let applied2 = applied + first;
    assert forall|i: int| 0 <= i < available.len() implies applied2.contains(
        #[trigger] available[i],
    ) by {
        let v = available[i];
        if applied.contains(v) {
            let k = choose|k: int| 0 <= k < applied.len() && applied[k] == v;
            assert(applied2[k] == v);
        } else {
            available.lemma_filter_contains(|x: u64| !applied.contains(x), i);
            let k = choose|k: int| 0 <= k < first.len() && first[k] == v;
            assert(applied2[applied.len() + k] == v);
        }
    }
    lemma_filter_all_false(available, |v: u64| !applied2.contains(v));
}

} // verus!
