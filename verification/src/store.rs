//! The storage model a follower's core works against: the log keyed by
//! index, the applied prefix of the state machine, and the durable hard
//! state. Durability itself lives outside this crate; the model states
//! what each operation does to the stored values.

use vstd::prelude::*;

use crate::log_id::LogId;
use crate::log_id::log_id_lt;
use crate::types::EffectiveMembership;
use crate::types::EffectiveMembershipV;
use crate::types::Entry;
use crate::types::EntryV;
use crate::types::HardState;
use crate::types::PayloadV;

verus! {

/// The log positions a store reports: the last entry present and the
/// last entry removed by compaction (none in this model, which keeps
/// the whole log).
#[derive(Clone, Copy, PartialEq, Eq, Structural, Debug)]
pub struct LogState {
    pub last_purged_log_id: Option<LogId>,
    pub last_log_id: Option<LogId>,
}

/// Entry `k` of the log sits at index `k + 1`: the log is contiguous
/// from index 1.
pub open spec fn log_contiguous(log: Seq<EntryV>) -> bool {
    forall|k: int| 0 <= k < log.len() ==> (#[trigger] log[k].log_id.index) == k + 1
}

/// Log ids grow strictly along the log; with contiguity this says the
/// terms never decrease.
pub open spec fn log_ids_increasing(log: Seq<EntryV>) -> bool {
    forall|j: int, k: int|
        0 <= j < k < log.len() ==> log_id_lt(#[trigger] log[j].log_id, #[trigger] log[k].log_id)
}

/// The id of the last entry, or `None` of an empty log.
pub open spec fn last_of(log: Seq<EntryV>) -> Option<LogId> {
    if log.len() == 0 {
        Option::None
    } else {
        Option::Some(log.last().log_id)
    }
}

/// The last membership entry of the log, if any, as an effective
/// membership.
pub open spec fn last_membership_in(log: Seq<EntryV>) -> Option<EffectiveMembershipV>
    decreases log.len(),
{
    if log.len() == 0 {
        Option::None
    } else {
        match log.last().payload {
            PayloadV::Membership(c) => Option::Some(
                EffectiveMembershipV { log_id: log.last().log_id, config: c },
            ),
            _ => last_membership_in(log.drop_last()),
        }
    }
}

/// The log, the applied prefix of the state machine, and the durable
/// hard state of one node.
#[derive(Debug)]
pub struct LogStore {
    pub log: Vec<Entry>,
    pub applied: Vec<Entry>,
    pub hard: HardState,
}

impl LogStore {
    /// The log as a sequence of entry values.
    pub open spec fn log_view(&self) -> Seq<EntryV> {
        self.log@.map(|i: int, e: Entry| e@)
    }

    /// The entries applied to the state machine so far, in application
    /// order.
    pub open spec fn applied_view(&self) -> Seq<EntryV> {
        self.applied@.map(|i: int, e: Entry| e@)
    }

    /// The store keeps a log contiguous from index 1.
    pub open spec fn wf(&self) -> bool {
        log_contiguous(self.log_view())
    }

    /// An empty store: no log, nothing applied, term 0, no vote.
    pub fn new() -> (r: LogStore)
        ensures
            r.wf(),
            r.log_view() == Seq::<EntryV>::empty(),
            r.applied_view() == Seq::<EntryV>::empty(),
            r.hard == (HardState { current_term: 0, voted_for: Option::<u64>::None }),
    {
        let r = LogStore {
            log: Vec::new(),
            applied: Vec::new(),
            hard: HardState { current_term: 0, voted_for: Option::None },
        };
        proof {
            assert(r.log_view() =~= Seq::<EntryV>::empty());
            assert(r.applied_view() =~= Seq::<EntryV>::empty());
        }
        r
    }

    /// Reports the last log id; this model never purges.
    pub fn get_log_state(&self) -> (r: LogState)
        ensures
            r.last_purged_log_id is None,
            r.last_log_id == last_of(self.log_view()),
    {
        let n = self.log.len();
        if n == 0 {
            LogState { last_purged_log_id: Option::None, last_log_id: Option::None }
        } else {
            LogState {
                last_purged_log_id: Option::None,
                last_log_id: Option::Some(self.log[n - 1].log_id),
            }
        }
    }

    /// Looks an index up in the log; `None` when it is out of range.
    pub fn try_get_log_entry(&self, index: u64) -> (r: Option<Entry>)
        ensures
            (1 <= index && index <= self.log_view().len()) ==> (r is Some && r->Some_0@
                == self.log_view()[index - 1]),
            !(1 <= index && index <= self.log_view().len()) ==> r is None,
    {
        if index >= 1 && index <= self.log.len() as u64 {
            let i = (index - 1) as usize;
            Option::Some(self.log[i].duplicate())
        } else {
            Option::None
        }
    }

    /// Returns the entries at indices `start..=end`, contiguous and
    /// ascending.
    pub fn get_log_entries(&self, start: u64, end: u64) -> (r: Vec<Entry>)
        requires
            1 <= start,
            start <= end + 1,
            end <= self.log_view().len(),
        ensures
            r@.map(|i: int, e: Entry| e@) == self.log_view().subrange(
                start - 1,
                end as int,
            ),
    {
        let mut r: Vec<Entry> = Vec::new();
        let n = self.log.len();
        let lo = (start - 1) as usize;
        let hi = end as usize;
        proof {
            assert(r@.map(|k: int, e: Entry| e@) =~= self.log_view().subrange(lo as int, lo as int));
        }
        let mut i: usize = lo;
        while i < hi
            invariant
                lo <= i,
                i <= hi,
                hi <= self.log_view().len(),
                r@.map(|k: int, e: Entry| e@) == self.log_view().subrange(lo as int, i as int),
            decreases hi - i,
        {
            let ghost pre = r@.map(|k: int, e: Entry| e@);
            let e = self.log[i].duplicate();
            r.push(e);
            proof {
                assert(r@.map(|k: int, e: Entry| e@) =~= pre.push(self.log_view()[i as int]));
                assert(pre.push(self.log_view()[i as int]) =~= self.log_view().subrange(
                    lo as int,
                    i + 1,
                ));
            }
            i = i + 1;
        }
        r
    }

    /// Appends entries at the tail of the log; each must carry exactly
    /// the next index.
    pub fn append_to_log(&mut self, entries: &Vec<Entry>)
        requires
            forall|k: int|
                0 <= k < entries@.len() ==> (#[trigger] entries@[k].log_id.index) as int
                    == old(self).log_view().len() + 1 + k,
        ensures
            final(self).log_view() == old(self).log_view() + entries@.map(
                |i: int, e: Entry| e@,
            ),
            final(self).applied_view() == old(self).applied_view(),
            final(self).hard == old(self).hard,
    {
        let ghost entries_v = entries@.map(|i: int, e: Entry| e@);
        let mut i: usize = 0;
        while i < entries.len()
            invariant
                i <= entries@.len(),
                entries_v == entries@.map(|k: int, e: Entry| e@),
                self.log_view() == old(self).log_view() + entries_v.take(i as int),
                self.applied_view() == old(self).applied_view(),
                self.hard == old(self).hard,
            decreases entries@.len() - i,
        {
            let ghost pre = self.log_view();
            let e = entries[i].duplicate();
            self.log.push(e);
            proof {
                assert(self.log_view() =~= pre.push(entries_v[i as int]));
                assert(pre.push(entries_v[i as int]) =~= old(self).log_view() + entries_v.take(
                    i + 1,
                ));
            }
            i = i + 1;
        }
        proof {
            assert(entries_v.take(entries_v.len() as int) == entries_v);
        }
    }

    /// Removes every entry at and after `start.index`.
    pub fn delete_conflict_logs_since(&mut self, start: LogId)
        requires
            old(self).wf(),
            1 <= start.index,
            start.index <= old(self).log_view().len(),
        ensures
            final(self).log_view() == old(self).log_view().take(start.index - 1),
            final(self).applied_view() == old(self).applied_view(),
            final(self).hard == old(self).hard,
            final(self).wf(),
    {
        let keep = (start.index - 1) as usize;
        self.log.truncate(keep);
        proof {
            assert(self.log_view() =~= old(self).log_view().take(start.index - 1));
        }
    }

    /// Returns the membership as of the current log: its last
    /// membership entry, if any.
    pub fn get_membership(&self) -> (r: Option<EffectiveMembership>)
        ensures
            match last_membership_in(self.log_view()) {
                Option::Some(m) => r is Some && r->Some_0@ == m,
                Option::None => r is None,
            },
    {
        let ghost full = self.log_view();
        let mut i: usize = self.log.len();
        proof {
            assert(full.take(full.len() as int) == full);
        }
        while i > 0
            invariant
                i <= self.log@.len(),
                full == self.log_view(),
                last_membership_in(full.take(i as int)) == last_membership_in(full),
            decreases i,
        {
            let e = &self.log[i - 1];
            match &e.payload {
                crate::types::Payload::Membership(c) => {
                    proof {
                        assert(full.take(i as int).last() == full[i - 1]);
                    }
                    return Option::Some(
                        EffectiveMembership { log_id: e.log_id, config: c.duplicate() },
                    );
                },
                _ => {
                    proof {
                        assert(full.take(i as int).drop_last() =~= full.take(i - 1));
                        assert(full.take(i as int).last() == full[i - 1]);
                    }
                    i = i - 1;
                },
            }
        }
        Option::None
    }

    /// Persists the hard state.
    pub fn save_hard_state(&mut self, hs: HardState)
        ensures
            final(self).hard == hs,
            final(self).log_view() == old(self).log_view(),
            final(self).applied_view() == old(self).applied_view(),
    {
        self.hard = hs;
    }

    /// Applies the entries to the state machine, in order, and returns
    /// one receipt per entry: the index it was applied at.
    pub fn apply_to_state_machine(&mut self, entries: &Vec<Entry>) -> (r: Vec<u64>)
        ensures
            final(self).applied_view() == old(self).applied_view() + entries@.map(
                |i: int, e: Entry| e@,
            ),
            final(self).log_view() == old(self).log_view(),
            final(self).hard == old(self).hard,
            r@.len() == entries@.len(),
            forall|k: int| 0 <= k < r@.len() ==> r@[k] == (#[trigger] entries@[k].log_id.index),
    {
        let ghost entries_v = entries@.map(|i: int, e: Entry| e@);
        let mut r: Vec<u64> = Vec::new();
        let mut i: usize = 0;
        while i < entries.len()
            invariant
                i <= entries@.len(),
                entries_v == entries@.map(|k: int, e: Entry| e@),
                self.applied_view() == old(self).applied_view() + entries_v.take(i as int),
                self.log_view() == old(self).log_view(),
                self.hard == old(self).hard,
                r@.len() == i,
                forall|k: int| 0 <= k < i ==> r@[k] == (#[trigger] entries@[k].log_id.index),
            decreases entries@.len() - i,
        {
            let ghost pre = self.applied_view();
            let e = entries[i].duplicate();
            r.push(e.log_id.index);
            self.applied.push(e);
            proof {
                assert(self.applied_view() =~= pre.push(entries_v[i as int]));
                assert(pre.push(entries_v[i as int]) =~= old(self).applied_view()
                    + entries_v.take(i + 1));
            }
            i = i + 1;
        }
        proof {
            assert(entries_v.take(entries_v.len() as int) == entries_v);
        }
        r
    }
}

} // verus!
