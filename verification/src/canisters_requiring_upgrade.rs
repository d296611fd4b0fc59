use vstd::prelude::*;
use std::collections::VecDeque;
use crate::principal::{CanisterId, KeyEq};
use crate::types::Version;

verus! {

/// An upgrade that did not go through.
#[derive(Clone, Copy, Debug)]
pub struct FailedUpgrade {
    pub canister_id: CanisterId,
    pub from_version: Version,
    pub to_version: Version,
}

/// Counts describing the upgrade queue.
#[derive(Clone, Copy, Debug)]
pub struct Metrics {
    pub pending: usize,
    pub upgrade_in_progress: bool,
    pub failed: usize,
}

/// The pending queue, the in-progress flag and the requested canister after taking the next
/// upgrade: nothing is taken while an upgrade is in progress or when nothing is pending;
/// otherwise the oldest pending canister is taken and an upgrade is in progress.
pub open spec fn spec_try_take_next(pending: Seq<CanisterId>, in_progress: bool) -> (Seq<CanisterId>, bool, Option<CanisterId>) {
    if in_progress {
        (pending, true, None)
    } else if pending.len() == 0 {
        (pending, false, None)
    } else {
        (pending.drop_first(), true, Some(pending[0]))
    }
}

/// The canisters whose code is waiting to be upgraded, one at a time.
pub struct CanistersRequiringUpgrade {
    pending: VecDeque<CanisterId>,
    upgrade_in_progress: bool,
    failed: VecDeque<FailedUpgrade>,
}

impl Default for CanistersRequiringUpgrade {
    fn default() -> (c: CanistersRequiringUpgrade)
        ensures
            c.pending() == Seq::<CanisterId>::empty(),
            !c.in_progress(),
            c.failed() == Seq::<FailedUpgrade>::empty(),
    {
        CanistersRequiringUpgrade { pending: VecDeque::new(), upgrade_in_progress: false, failed: VecDeque::new() }
    }
}

impl CanistersRequiringUpgrade {
    /// The canisters waiting for an upgrade, oldest first.
    pub closed spec fn pending(&self) -> Seq<CanisterId> {
        self.pending@
    }

    /// Whether an upgrade is under way.
    pub closed spec fn in_progress(&self) -> bool {
        self.upgrade_in_progress
    }

    /// The upgrades that failed, oldest first.
    pub closed spec fn failed(&self) -> Seq<FailedUpgrade> {
        self.failed@
    }

    /// Queues `canister_id` for an upgrade.
    pub fn enqueue(&mut self, canister_id: CanisterId)
        ensures
            final(self).pending() == old(self).pending().push(canister_id),
            final(self).in_progress() == old(self).in_progress(),
            final(self).failed() == old(self).failed(),
    {
        self.pending.push_back(canister_id);
    }

    /// Takes the oldest pending canister, unless an upgrade is already in progress.
    pub fn try_take_next(&mut self) -> (r: Option<CanisterId>)
        ensures
            (final(self).pending(), final(self).in_progress(), r) == spec_try_take_next(old(self).pending(), old(self).in_progress()),
            final(self).failed() == old(self).failed(),
    {
        if self.upgrade_in_progress {
            None
        } else if let Some(canister_id) = self.pending.pop_front() {
            self.upgrade_in_progress = true;
            assert(self.pending@ =~= old(self).pending().drop_first());
            Some(canister_id)
        } else {
            None
        }
    }

    /// The upgrade under way succeeded.
    pub fn mark_success(&mut self)
        ensures
            final(self).pending() == old(self).pending(),
            !final(self).in_progress(),
            final(self).failed() == old(self).failed(),
    {
        self.upgrade_in_progress = false;
    }

    /// The upgrade under way failed.
    pub fn mark_failure(&mut self, failed_upgrade: FailedUpgrade)
        ensures
            final(self).pending() == old(self).pending(),
            !final(self).in_progress(),
            final(self).failed() == old(self).failed().push(failed_upgrade),
    {
        self.upgrade_in_progress = false;
        self.failed.push_back(failed_upgrade);
    }

    /// Whether an upgrade is under way.
    pub fn upgrade_in_progress(&self) -> (b: bool)
        ensures
            b == self.in_progress(),
    {
        self.upgrade_in_progress
    }

    /// The sizes of the queues and whether an upgrade is under way.
    pub fn metrics(&self) -> (m: Metrics)
        ensures
            m.pending == self.pending().len(),
            m.upgrade_in_progress == self.in_progress(),
            m.failed == self.failed().len(),
    {
        Metrics {
            pending: self.pending.len(),
            upgrade_in_progress: self.upgrade_in_progress,
            failed: self.failed.len(),
        }
    }

    /// Forgets `canister_id`: it leaves the pending queue and the failed upgrades.
    pub fn remove(&mut self, canister_id: &CanisterId)
        ensures
            final(self).pending() == old(self).pending().filter(|id: CanisterId| id != *canister_id),
            final(self).failed() == old(self).failed().filter(|f: FailedUpgrade| f.canister_id != *canister_id),
            final(self).in_progress() == old(self).in_progress(),
    {
        let ghost id = *canister_id;
        let ghost keep_id = |x: CanisterId| x != id;
        let ghost keep_failed = |f: FailedUpgrade| f.canister_id != id;
        let mut pending: VecDeque<CanisterId> = VecDeque::new();
        let n = self.pending.len();
        let mut i: usize = 0;
        while i < n
            invariant
                n == self.pending@.len(),
                i <= n,
                id == *canister_id,
                keep_id == (|x: CanisterId| x != id),
                pending@ == self.pending@.subrange(0, i as int).filter(keep_id),
            decreases n - i,
        {
            let x = self.pending[i];
            proof {
                let s = self.pending@.subrange(0, i as int + 1);
                assert(s.drop_last() =~= self.pending@.subrange(0, i as int));
                assert(s.last() == x);
                reveal(Seq::filter);
            }
            if !x.same(canister_id) {
                pending.push_back(x);
            }
            i = i + 1;
        }
        assert(self.pending@.subrange(0, n as int) =~= self.pending@);
        let mut failed: VecDeque<FailedUpgrade> = VecDeque::new();
        let m = self.failed.len();
        let mut j: usize = 0;
        while j < m
            invariant
                m == self.failed@.len(),
                j <= m,
                id == *canister_id,
                keep_failed == (|f: FailedUpgrade| f.canister_id != id),
                failed@ == self.failed@.subrange(0, j as int).filter(keep_failed),
            decreases m - j,
        {
            let f = self.failed[j];
            proof {
                let s = self.failed@.subrange(0, j as int + 1);
                assert(s.drop_last() =~= self.failed@.subrange(0, j as int));
                assert(s.last() == f);
                reveal(Seq::filter);
            }
            if !f.canister_id.same(canister_id) {
                failed.push_back(f);
            }
            j = j + 1;
        }
        assert(self.failed@.subrange(0, m as int) =~= self.failed@);
        self.pending = pending;
        self.failed = failed;
        assert(self.pending@ == old(self).pending().filter(keep_id));
        assert(self.failed@ == old(self).failed().filter(keep_failed));
        assert(keep_id =~= (|x: CanisterId| x != *canister_id));
        assert(keep_failed =~= (|f: FailedUpgrade| f.canister_id != *canister_id));
    }
}

/// Canisters are upgraded in the order they were queued: once the queue is idle, queueing a
/// canister and then taking the next one hands back the oldest canister queued, which is the
/// new one only when nothing else was waiting.
pub proof fn lemma_first_queued_first_taken(pending: Seq<CanisterId>, canister_id: CanisterId)
    ensures
        spec_try_take_next(pending.push(canister_id), false).2 == Some(
            if pending.len() == 0 { canister_id } else { pending[0] },
        ),
        spec_try_take_next(pending.push(canister_id), false).0 == (if pending.len() == 0 {
            Seq::<CanisterId>::empty()
        } else {
            pending.drop_first().push(canister_id)
        }),
{
    assert(pending.push(canister_id).drop_first() =~= (if pending.len() == 0 {
        Seq::<CanisterId>::empty()
    } else {
        pending.drop_first().push(canister_id)
    }));
}

/// While an upgrade is under way no further upgrade is taken, and the queue is left alone.
pub proof fn lemma_one_upgrade_at_a_time(pending: Seq<CanisterId>)
    ensures
        spec_try_take_next(pending, true) == (pending, true, None::<CanisterId>),
{
}

} // verus!
