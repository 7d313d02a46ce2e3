//! The follower core: the state one node owns and the AppendEntries
//! handler that reconciles it with a leader's log. Every function
//! computes exactly the transition `crate::model` states for it.

use vstd::prelude::*;

use crate::log_id::LogId;
use crate::log_id::opt_le_ex;
use crate::log_id::opt_max_ex;
use crate::log_id::opt_min_ex;
use crate::log_id::opt_lt_ex;
use crate::model::CoreV;
use crate::model::adopt_term;
use crate::model::append_apply_spec;
use crate::model::append_entries_spec;
use crate::model::apply_task_spec;
use crate::model::batch_consistent;
use crate::model::batch_wf;
use crate::model::commit_candidate_ok;
use crate::model::consistency_ok;
use crate::model::core_wf;
use crate::model::handle_spec;
use crate::model::initial_replicate_spec;
use crate::model::replicate_decision_spec;
use crate::model::req_consistent;
use crate::model::req_wf;
use crate::model::skip_count;
use crate::model::truncate_log_spec;
use crate::model::valid_commit_candidate;
use crate::store::LogStore;
use crate::store::last_of;
use crate::store::log_contiguous;
use crate::types::AppendEntriesRequest;
use crate::types::AppendEntriesResponse;
use crate::types::EffectiveMembership;
use crate::types::Entry;
use crate::types::HardState;
use crate::types::NodeState;
use crate::types::initial_membership;

verus! {

/// The state a follower owns, and the handle to its store. One logical
/// task owns a `RaftCore`; nothing here is shared.
#[derive(Debug)]
pub struct RaftCore {
    /// This node's identifier.
    pub id: u64,
    /// Highest term seen.
    pub current_term: u64,
    /// The vote persisted for `current_term`, if any.
    pub voted_for: Option<u64>,
    /// The node believed to lead `current_term`, if any.
    pub current_leader: Option<u64>,
    /// The role the node is in or transitioning to.
    pub target_state: NodeState,
    /// When to next start an election if no leader contact arrives.
    pub next_election_deadline: u64,
    /// Cached id of the last log entry; `None` of an empty log.
    pub last_log_id: Option<LogId>,
    /// Highest id known committed; never decreases.
    pub committed: Option<LogId>,
    /// Highest id applied to the state machine.
    pub last_applied: Option<LogId>,
    /// The membership currently in force.
    pub effective_membership: EffectiveMembership,
    /// Whether the one-shot catch-up apply after process start ran.
    pub has_completed_initial_replication_to_sm: bool,
    /// The end of the batch handed to the apply pipeline, while a task
    /// is in flight.
    pub pending_apply: Option<LogId>,
    /// The log, state machine and hard state.
    pub storage: LogStore,
}

impl View for RaftCore {
    type V = CoreV;

    open spec fn view(&self) -> CoreV {
        CoreV {
            id: self.id,
            current_term: self.current_term,
            voted_for: self.voted_for,
            current_leader: self.current_leader,
            target_state: self.target_state,
            next_election_deadline: self.next_election_deadline,
            log: self.storage.log_view(),
            last_log_id: self.last_log_id,
            committed: self.committed,
            last_applied: self.last_applied,
            applied: self.storage.applied_view(),
            hard: self.storage.hard,
            membership: self.effective_membership@,
            initial_replication_done: self.has_completed_initial_replication_to_sm,
            pending_apply: self.pending_apply,
        }
    }
}

impl RaftCore {
    /// The node invariant; see `crate::model::core_wf`.
    pub open spec fn wf(&self) -> bool {
        core_wf(self@)
    }

    /// A fresh node: empty log and state machine, term 0, no vote, no
    /// leader, the initial membership of itself alone.
    pub fn new(id: u64) -> (r: RaftCore)
        ensures
            r.wf(),
            r@.log.len() == 0,
            r@.current_term == 0,
            r@.voted_for is None,
            r@.current_leader is None,
            r@.committed is None,
            r@.last_applied is None,
            r@.membership == initial_membership(id),
            r@.id == id,
            !r@.initial_replication_done,
            r@.pending_apply is None,
    {
        let r = RaftCore {
            id,
            current_term: 0,
            voted_for: Option::None,
            current_leader: Option::None,
            target_state: NodeState::Follower,
            next_election_deadline: 0,
            last_log_id: Option::None,
            committed: Option::None,
            last_applied: Option::None,
            effective_membership: EffectiveMembership::new_initial(id),
            has_completed_initial_replication_to_sm: false,
            pending_apply: Option::None,
            storage: LogStore::new(),
        };
        proof {
            assert(r@.applied =~= r@.log.take(0));
        }
        r
    }

    /// Records a newly seen term and resets the vote: the vote is
    /// cleared exactly when the term advances.
    fn update_current_term(&mut self, term: u64)
        ensures
            *final(self) == (RaftCore {
                current_term: term,
                voted_for: Option::<u64>::None,
                ..*old(self)
            }),
    {
        self.current_term = term;
        self.voted_for = Option::None;
    }

    /// Makes the volatile term and vote durable. Must complete before
    /// any response acknowledging that term is sent.
    fn save_hard_state(&mut self)
        ensures
            final(self)@ == (CoreV {
                hard: HardState {
                    current_term: old(self).current_term,
                    voted_for: old(self).voted_for,
                },
                ..old(self)@
            }),
    {
        let hs = HardState { current_term: self.current_term, voted_for: self.voted_for };
        self.storage.save_hard_state(hs);
    }

    /// Installs a membership as the effective one.
    fn update_membership(&mut self, membership: EffectiveMembership)
        ensures
            final(self)@ == (CoreV { membership: membership@, ..old(self)@ }),
    {
        self.effective_membership = membership;
    }

    /// Moves the node toward the given role.
    fn set_target_state(&mut self, state: NodeState)
        ensures
            final(self)@ == (CoreV { target_state: state, ..old(self)@ }),
    {
        self.target_state = state;
    }

    /// Records leader contact: pushes the election deadline out. The
    /// driver supplies the new deadline (its clock plus jitter).
    fn update_next_election_timeout(&mut self, deadline: u64)
        ensures
            final(self)@ == (CoreV { next_election_deadline: deadline, ..old(self)@ }),
    {
        self.next_election_deadline = deadline;
    }

    /// The log-consistency check: returns the mismatching id when the
    /// given predecessor is inconsistent with local storage, `None`
    /// when it is consistent. A committed id is authoritative and
    /// always consistent.
    pub fn does_log_id_match(&self, remote_log_id: Option<LogId>) -> (r: Option<LogId>)
        ensures
            (r is None) == consistency_ok(self@, remote_log_id),
            r is Some ==> remote_log_id == r,
    {
        let log_id = match remote_log_id {
            Option::None => {
                return Option::None;
            },
            Option::Some(x) => x,
        };

        // Committed entries are always safe and are consistent to a valid leader.
        if opt_le_ex(remote_log_id, self.committed) {
            return Option::None;
        }

        let log = self.storage.try_get_log_entry(log_id.index);

        if let Option::Some(local) = log {
            if local.log_id == log_id {
                return Option::None;
            }
        }

        Option::Some(log_id)
    }

    /// Counts the leading request entries that need not be appended
    /// again: each is at or below the committed watermark or identical
    /// to the local entry at its index. The remainder, from the
    /// returned position on, is the suffix to reconcile.
    pub fn skip_matching_entries(&self, entries: &Vec<Entry>) -> (r: usize)
        ensures
            r == skip_count(self@, entries@.map(|i: int, e: Entry| e@)),
            r <= entries@.len(),
    {
        let ghost ev = entries@.map(|i: int, e: Entry| e@);
        let l = entries.len();

        let mut i: usize = 0;
        while i < l
            invariant
                i <= l,
                l == entries@.len(),
                ev == entries@.map(|k: int, e: Entry| e@),
                skip_count(self@, ev) == crate::model::skip_count_from(self@, ev, i as int),
            decreases l - i,
        {
            let log_id = entries[i].log_id;

            if opt_le_ex(Option::Some(log_id), self.committed) {
                i = i + 1;
                continue;
            }

            let log = self.storage.try_get_log_entry(log_id.index);

            if let Option::Some(local) = log {
                if local.log_id == log_id {
                    i = i + 1;
                    continue;
                }
            }

            return i;
        }

        l
    }
}

impl RaftCore {
    /// Deletes every local entry at and after `start.index`, then
    /// refreshes the cached last id and the effective membership from
    /// the shortened log, so crash recovery reconstructs the same
    /// state from durable storage.
    fn delete_conflict_logs_since(&mut self, start: LogId)
        requires
            log_contiguous(old(self)@.log),
            1 <= start.index,
            start.index <= old(self)@.log.len(),
        ensures
            final(self)@ == truncate_log_spec(old(self)@, start),
    {
        self.storage.delete_conflict_logs_since(start);

        self.last_log_id = self.storage.get_log_state().last_log_id;

        let membership = self.storage.get_membership();
        let membership = match membership {
            Option::Some(m) => m,
            Option::None => EffectiveMembership::new_initial(self.id),
        };
        self.update_membership(membership);
    }

    /// The entries given are the still-unmatched suffix of a request:
    /// all of them are inconsistent with the local log. Where the
    /// suffix overlaps the log, the overlapping tail is deleted, so
    /// the append that follows keeps the log contiguous. Skipping the
    /// matching prefix first is what makes this deletion safe: only
    /// genuinely inconsistent entries are ever removed.
    fn find_and_delete_conflict_logs(&mut self, msg_entries: &Vec<Entry>)
        requires
            log_contiguous(old(self)@.log),
            old(self)@.last_log_id == last_of(old(self)@.log),
            msg_entries@.len() > 0 ==> msg_entries@[0].log_id.index >= 1,
        ensures
            final(self)@ == if msg_entries@.len() > 0 {
                truncate_log_spec(old(self)@, msg_entries@[0].log_id)
            } else {
                old(self)@
            },
    {
        let l = msg_entries.len();
        if l == 0 {
            return;
        }

        if let Option::Some(last_log_id) = self.last_log_id {
            proof {
                assert(old(self)@.log[old(self)@.log.len() - 1].log_id.index == old(
                    self,
                )@.log.len());
            }
            if msg_entries[0].log_id.index > last_log_id.index {
                return;
            }
            self.delete_conflict_logs_since(msg_entries[0].log_id);
        }
    }

    /// Appends the given entries to the log and activates the most
    /// recent membership configuration they carry, if any — upon
    /// append, not upon commit, as a follower must.
    fn append_log_entries(&mut self, entries: &Vec<Entry>)
        requires
            forall|k: int|
                0 <= k < entries@.len() ==> (#[trigger] entries@[k].log_id.index) as int == old(
                    self,
                )@.log.len() + 1 + k,
        ensures
            final(self)@ == append_entries_spec(
                old(self)@,
                entries@.map(|i: int, e: Entry| e@),
            ),
    {
        if entries.len() == 0 {
            return;
        }

        // Check the given entries for any config changes and take the most recent.
        let last_conf_change = last_membership_of_batch(entries);

        if let Option::Some(conf) = last_conf_change {
            self.update_membership(conf);
        }

        self.storage.append_to_log(entries);
        let last = entries[entries.len() - 1].log_id;
        self.last_log_id = Option::Some(last);
    }

    /// Hands committed-but-unapplied entries to the apply pipeline.
    /// The first call after process start runs the one-shot catch-up
    /// instead; while a task is in flight nothing new is submitted —
    /// the pipeline picks newly committed entries up by itself. This
    /// must never block the control loop, else a slow state machine
    /// would starve heartbeats and force elections.
    fn replicate_to_state_machine_if_needed(&mut self)
        ensures
            final(self)@ == replicate_decision_spec(old(self)@),
    {
        // Perform initial replication to state machine if needed.
        if !self.has_completed_initial_replication_to_sm {
            self.has_completed_initial_replication_to_sm = true;
            self.initial_replicate_to_state_machine();
            return;
        }

        // If we already have an active replication task, then do nothing.
        match self.pending_apply {
            Option::Some(_) => {
                return;
            },
            Option::None => {},
        }

        // If we don't have any new entries to replicate, then do nothing.
        if opt_le_ex(self.committed, self.last_applied) {
            return;
        }

        match self.committed {
            Option::Some(c) => {
                self.pending_apply = Option::Some(c);
            },
            Option::None => {
                // unreachable: the watermark is above `last_applied`
                // here, so it cannot be absent
                proof {
                    assert(false);
                }
            },
        }
    }

    /// The one-shot catch-up after process start: schedule whatever a
    /// prior run committed but never applied, up to what the log
    /// holds.
    fn initial_replicate_to_state_machine(&mut self)
        ensures
            final(self)@ == initial_replicate_spec(old(self)@),
    {
        // If we already have an active replication task, then do nothing.
        match self.pending_apply {
            Option::Some(_) => {
                return;
            },
            Option::None => {},
        }

        let stop = opt_min_ex(self.committed, self.last_log_id);
        if opt_lt_ex(self.last_applied, stop) {
            if let Option::Some(p) = stop {
                self.pending_apply = Option::Some(p);
            }
        }
    }

    /// Appends and applies a batch whose term has already been
    /// adopted: checks the predecessor, truncates conflicts, appends
    /// the still-missing suffix, advances the commit watermark
    /// monotonically to the clamped candidate `committed`, and hands
    /// apply work off. Returns the response to send.
    fn append_apply_log_entries(
        &mut self,
        prev_log_id: Option<LogId>,
        entries: &Vec<Entry>,
        committed: Option<LogId>,
    ) -> (r: AppendEntriesResponse)
        requires
            core_wf(old(self)@),
            batch_wf(prev_log_id, entries@.map(|i: int, e: Entry| e@)),
            batch_consistent(old(self)@, prev_log_id, entries@.map(|i: int, e: Entry| e@)),
            commit_candidate_ok(
                old(self)@,
                prev_log_id,
                entries@.map(|i: int, e: Entry| e@),
                committed,
            ),
        ensures
            final(self)@ == append_apply_spec(
                old(self)@,
                prev_log_id,
                entries@.map(|i: int, e: Entry| e@),
                committed,
            ).0,
            r == append_apply_spec(
                old(self)@,
                prev_log_id,
                entries@.map(|i: int, e: Entry| e@),
                committed,
            ).1,
            core_wf(final(self)@),
    {
        let ghost s0 = old(self)@;
        let ghost ev = entries@.map(|i: int, e: Entry| e@);
        proof {
            crate::model::lemma_append_apply_wf(s0, prev_log_id, ev, committed);
        }

        let mismatched = self.does_log_id_match(prev_log_id);

        if let Option::Some(mismatched_log_id) = mismatched {
            // prev_log_id mismatches: the logs from its index on are
            // inconsistent and are removed, where any exist
            if let Option::Some(last_log_id) = self.last_log_id {
                proof {
                    assert(s0.log[s0.log.len() - 1].log_id.index == s0.log.len());
                }
                if mismatched_log_id.index <= last_log_id.index {
                    self.delete_conflict_logs_since(mismatched_log_id);
                }
            }

            return AppendEntriesResponse {
                term: self.current_term,
                success: false,
                conflict: true,
            };
        }

        // The leading entries that match local state need not be
        // appended again; what is left is inconsistent or absent.
        let n_matching = self.skip_matching_entries(entries);
        let suffix = tail_copy(entries, n_matching);

        proof {
            crate::model::lemma_success_shape(s0, prev_log_id, ev);
        }

        // Before appending, entries that override inconsistent ones
        // force the tail after them to be deleted first.
        self.find_and_delete_conflict_logs(&suffix);

        proof {
            assert(self@ == crate::model::success_truncated(s0, ev));
            if suffix@.len() > 0 {
                crate::model::lemma_truncate_wf(s0, ev[n_matching as int].log_id);
                assert forall|k: int| 0 <= k < suffix@.len() implies (#[trigger] suffix@[k].log_id.index)
                    as int == self@.log.len() + 1 + k by {
                    assert(suffix@[k]@ == ev.skip(n_matching as int)[k]);
                    assert(ev.skip(n_matching as int)[k] == ev[n_matching + k]);
                }
            }
        }

        self.append_log_entries(&suffix);

        proof {
            assert(self@ == crate::model::success_appended(s0, ev));
        }

        // The commit watermark advances only to what this request
        // validated, and never moves back.
        self.committed = opt_max_ex(self.committed, committed);

        proof {
            assert(self@ == crate::model::success_committed(s0, ev, committed));
        }

        self.replicate_to_state_machine_if_needed();

        AppendEntriesResponse { term: self.current_term, success: true, conflict: false }
    }

    /// The RPC a leader invokes to replicate entries, also used as the
    /// heartbeat. The term gate rejects a stale leader outright; an
    /// accepted request resets the election timer, may adopt a newer
    /// term — persisting hard state before anything else is written —
    /// records the leader, moves the node to follower, and runs the
    /// consistency check and the append/apply phases. The caller
    /// supplies the next election deadline (its clock plus jitter).
    pub fn handle_append_entries_request(
        &mut self,
        msg: AppendEntriesRequest,
        election_deadline: u64,
    ) -> (r: AppendEntriesResponse)
        requires
            core_wf(old(self)@),
            req_wf(msg@),
            msg@.term >= old(self)@.current_term ==> req_consistent(old(self)@, msg@),
        ensures
            final(self)@ == handle_spec(old(self)@, msg@, election_deadline).0,
            r == handle_spec(old(self)@, msg@, election_deadline).1,
            core_wf(final(self)@),
    {
        let ghost s0 = old(self)@;

        // If message's term is less than most recent term, then we do
        // not honor the request.
        if msg.term < self.current_term {
            return AppendEntriesResponse {
                term: self.current_term,
                success: false,
                conflict: false,
            };
        }

        // Update election timeout: before any storage work, so a slow
        // storage path cannot starve the timer.
        self.update_next_election_timeout(election_deadline);

        // The commit index must point at a position this request
        // validates as consistent with the leader; anything beyond
        // waits for a later request.
        let valid_commit_index = if msg.entries.len() == 0 {
            msg.prev_log_id
        } else {
            Option::Some(msg.entries[msg.entries.len() - 1].log_id)
        };
        let valid_committed = opt_min_ex(msg.leader_commit, valid_commit_index);

        proof {
            assert(valid_committed == valid_commit_candidate(
                msg@.prev_log_id,
                msg@.entries,
                msg@.leader_commit,
            ));
        }

        // Update to the latest term and leader; hard state becomes
        // durable before any log entry is written under the new term.
        if msg.term > self.current_term {
            self.update_current_term(msg.term);
            self.save_hard_state();
        }
        self.current_leader = Option::Some(msg.leader_id);

        // Transition to follower state if needed.
        if !self.target_state.is_follower() && !self.target_state.is_learner() {
            self.set_target_state(NodeState::Follower);
        }

        proof {
            assert(self@ == adopt_term(s0, msg@, election_deadline));
            assert(core_wf(self@));
        }

        self.append_apply_log_entries(msg.prev_log_id, &msg.entries, valid_committed)
    }

    /// Runs the apply pipeline's task: applies the pending batch to
    /// the state machine in index order and records how far
    /// application got. The driver calls this for the task it spawned;
    /// completion clears the in-flight marker.
    pub fn run_apply_task(&mut self)
        requires
            core_wf(old(self)@),
        ensures
            final(self)@ == apply_task_spec(old(self)@),
            core_wf(final(self)@),
    {
        proof {
            crate::model::lemma_apply_task_wf(old(self)@);
        }
        let p = match self.pending_apply {
            Option::None => {
                return;
            },
            Option::Some(p) => p,
        };
        proof {
            match self.last_applied {
                Option::Some(a) => {
                    crate::model::lemma_lex_index_order(self@, a, p);
                },
                Option::None => {},
            }
        }
        let start_index = match self.last_applied {
            Option::None => 1u64,
            Option::Some(a) => a.index + 1,
        };
        let entries = self.storage.get_log_entries(start_index, p.index);
        let _responses = self.storage.apply_to_state_machine(&entries);
        self.last_applied = Option::Some(p);
        self.pending_apply = Option::None;
    }
}

impl RaftCore {
    /// Decides whether the local entry at `x.index` carries exactly
    /// the id `x`.
    fn log_id_matches_local(&self, x: LogId) -> (r: bool)
        ensures
            r == crate::model::local_id_match(self@, x),
    {
        match self.storage.try_get_log_entry(x.index) {
            Option::Some(local) => local.log_id == x,
            Option::None => false,
        }
    }

    /// Decides whether a request satisfies everything the handler
    /// assumes of one: the shape any leader produces, and — unless the
    /// term gate will reject it anyway — what a protocol-compliant
    /// leader of the current term guarantees against this node's
    /// state. A driver calls this before handing the request to
    /// `handle_append_entries_request` and refuses what fails it.
    #[verifier::rlimit(50)]
    pub fn check_append_entries_request(&self, msg: &AppendEntriesRequest) -> (r: bool)
        ensures
            r == (req_wf(msg@) && (msg@.term >= self@.current_term ==> req_consistent(
                self@,
                msg@,
            ))),
    {
        if !request_well_formed(msg) {
            return false;
        }
        if msg.term < self.current_term {
            return true;
        }

        let ghost ev = msg.entries@.map(|i: int, e: Entry| e@);
        let ic = match self.committed {
            Option::None => 0u64,
            Option::Some(c) => c.index,
        };
        proof {
            assert(ic as int == crate::log_id::opt_index(self@.committed));
        }

        match msg.prev_log_id {
            Option::Some(p) => {
                if p.index <= ic {
                    if !self.log_id_matches_local(p) {
                        return false;
                    }
                }
                if opt_le_ex(Option::Some(p), self.committed) {
                    if p.index > ic {
                        return false;
                    }
                }
            },
            Option::None => {},
        }

        let l = msg.entries.len();
        let mut i: usize = 0;
        while i < l
            invariant
                i <= l,
                l == msg.entries@.len(),
                ev == msg.entries@.map(|k: int, e: Entry| e@),
                ic as int == crate::log_id::opt_index(self@.committed),
                msg@.term >= self@.current_term,
                forall|k: int|
                    0 <= k < i && (#[trigger] ev[k].log_id.index) <= ic ==> crate::model::local_id_match(
                        self@,
                        ev[k].log_id,
                    ),
                forall|k: int|
                    0 <= k < i && crate::log_id::opt_le(
                        Option::Some(#[trigger] ev[k].log_id),
                        self@.committed,
                    ) ==> ev[k].log_id.index <= ic,
            decreases l - i,
        {
            let id = msg.entries[i].log_id;
            proof {
                assert(ev == msg@.entries);
                assert(ev[i as int].log_id == id);
            }
            if id.index <= ic {
                if !self.log_id_matches_local(id) {
                    proof {
                        assert(!crate::model::batch_consistent(
                            self@,
                            msg@.prev_log_id,
                            msg@.entries,
                        ));
                    }
                    return false;
                }
            }
            if opt_le_ex(Option::Some(id), self.committed) {
                if id.index > ic {
                    proof {
                        assert(!crate::model::batch_consistent(
                            self@,
                            msg@.prev_log_id,
                            msg@.entries,
                        ));
                    }
                    return false;
                }
            }
            i = i + 1;
        }

        let prev_index = match msg.prev_log_id {
            Option::None => 0u64,
            Option::Some(p) => p.index,
        };
        proof {
            assert(prev_index as int == crate::log_id::opt_index(msg@.prev_log_id));
            if l > 0 {
                assert(ev[l - 1] == ev.last());
            }
        }
        let covered = if l == 0 {
            msg.prev_log_id
        } else {
            Option::Some(msg.entries[l - 1].log_id)
        };
        let c = opt_min_ex(msg.leader_commit, covered);
        proof {
            assert(c == crate::model::valid_commit_candidate(
                msg@.prev_log_id,
                msg@.entries,
                msg@.leader_commit,
            ));
        }
        match c {
            Option::None => {},
            Option::Some(cc) => {
                if cc.index < 1 {
                    return false;
                }
                if l > 0 {
                    if cc.index > msg.entries[l - 1].log_id.index {
                        return false;
                    }
                } else {
                    if cc.index > prev_index {
                        return false;
                    }
                }
                let cons_ok = self.does_log_id_match(msg.prev_log_id);
                if cons_ok.is_none() && cc.index <= prev_index {
                    if !self.log_id_matches_local(cc) {
                        return false;
                    }
                }
                if prev_index < cc.index && l > 0 {
                    proof {
                        assert(ev[l - 1].log_id.index as int == prev_index + l);
                    }
                    let pos = (cc.index - prev_index - 1) as usize;
                    let e_id = msg.entries[pos].log_id;
                    proof {
                        assert(ev[pos as int].log_id == e_id);
                    }
                    if !(e_id.term == cc.term && e_id.index == cc.index) {
                        return false;
                    }
                }
            },
        }
        true
    }
}

/// Decides whether a request has the shape any leader, current or
/// stale, sends: entries contiguous right after the predecessor, ids
/// strictly ascending, every carried term at or below the request's.
#[verifier::rlimit(50)]
pub fn request_well_formed(msg: &AppendEntriesRequest) -> (r: bool)
    ensures
        r == req_wf(msg@),
{
    let ghost ev = msg.entries@.map(|i: int, e: Entry| e@);

    match msg.prev_log_id {
        Option::Some(p) => {
            if p.index < 1 || p.term > msg.term {
                return false;
            }
        },
        Option::None => {},
    }
    match msg.leader_commit {
        Option::Some(c) => {
            if c.index < 1 || c.term > msg.term {
                return false;
            }
        },
        Option::None => {},
    }

    let l = msg.entries.len();
    if l == 0 {
        return true;
    }

    let first = msg.entries[0].log_id;
    let prev_index = match msg.prev_log_id {
        Option::None => 0u64,
        Option::Some(p) => p.index,
    };
    proof {
        assert(ev[0].log_id == first);
        assert(prev_index as int == crate::log_id::opt_index(msg@.prev_log_id));
    }
    if first.index < 1 || first.index - 1 != prev_index {
        return false;
    }
    if first.term > msg.term {
        return false;
    }
    if let Option::Some(p) = msg.prev_log_id {
        if !(p.le(first) && !(p.term == first.term && p.index == first.index)) {
            return false;
        }
    }

    let mut i: usize = 1;
    while i < l
        invariant
            1 <= i <= l,
            l == msg.entries@.len(),
            ev == msg.entries@.map(|k: int, e: Entry| e@),
            forall|k: int|
                0 <= k < i ==> (#[trigger] ev[k].log_id.index) as int == prev_index + 1 + k,
            forall|k: int|
                0 < k < i ==> crate::log_id::log_id_lt(
                    ev[k - 1].log_id,
                    (#[trigger] ev[k]).log_id,
                ),
            forall|k: int| 0 <= k < i ==> (#[trigger] ev[k].log_id.term) <= msg@.term,
        decreases l - i,
    {
        let a = msg.entries[i - 1].log_id;
        let b = msg.entries[i].log_id;
        proof {
            assert(ev[i - 1].log_id == a);
            assert(ev[i as int].log_id == b);
        }
        if b.index < 1 || b.index - 1 != a.index {
            return false;
        }
        if !a.le(b) {
            return false;
        }
        if b.term > msg.term {
            return false;
        }
        i = i + 1;
    }

    proof {
        assert forall|j: int, k: int| 0 <= j < k < ev.len() implies crate::log_id::log_id_lt(
            (#[trigger] ev[j]).log_id,
            (#[trigger] ev[k]).log_id,
        ) by {
            crate::model::lemma_lt_chain(ev, j, k);
        }
        assert(req_wf(msg@));
    }
    true
}

/// Returns the most recent membership configuration a batch carries,
/// if any, keyed by the entry that introduced it.
fn last_membership_of_batch(entries: &Vec<Entry>) -> (r: Option<EffectiveMembership>)
    ensures
        match crate::store::last_membership_in(entries@.map(|i: int, e: Entry| e@)) {
            Option::Some(m) => r is Some && r->Some_0@ == m,
            Option::None => r is None,
        },
{
    let ghost full = entries@.map(|i: int, e: Entry| e@);
    let mut i: usize = entries.len();
    proof {
        assert(full.take(full.len() as int) == full);
    }
    while i > 0
        invariant
            i <= entries@.len(),
            full == entries@.map(|k: int, e: Entry| e@),
            crate::store::last_membership_in(full.take(i as int))
                == crate::store::last_membership_in(full),
        decreases i,
    {
        let e = &entries[i - 1];
        match &e.payload {
            crate::types::Payload::Membership(c) => {
                proof {
                    assert(full.take(i as int).last() == full[i - 1]);
                }
                return Option::Some(
                    EffectiveMembership { log_id: e.log_id, config: c.duplicate() },
                );
            },
            _ => {
                proof {
                    assert(full.take(i as int).drop_last() =~= full.take(i - 1));
                    assert(full.take(i as int).last() == full[i - 1]);
                }
                i = i - 1;
            },
        }
    }
    Option::None
}

/// Copies the entries from position `from` on: the suffix a batch
/// leaves after its matching prefix is skipped.
fn tail_copy(entries: &Vec<Entry>, from: usize) -> (r: Vec<Entry>)
    requires
        from <= entries@.len(),
    ensures
        r@.map(|i: int, e: Entry| e@) == entries@.map(|i: int, e: Entry| e@).skip(from as int),
{
    let ghost ev = entries@.map(|i: int, e: Entry| e@);
    let mut r: Vec<Entry> = Vec::new();
    proof {
        assert(r@.map(|i: int, e: Entry| e@) =~= ev.subrange(from as int, from as int));
    }
    let mut i: usize = from;
    while i < entries.len()
        invariant
            from <= i,
            i <= entries@.len(),
            ev == entries@.map(|k: int, e: Entry| e@),
            r@.map(|k: int, e: Entry| e@) == ev.subrange(from as int, i as int),
        decreases entries@.len() - i,
    {
        let ghost pre = r@.map(|k: int, e: Entry| e@);
        let e = entries[i].duplicate();
        r.push(e);
        proof {
            assert(r@.map(|k: int, e: Entry| e@) =~= pre.push(ev[i as int]));
            assert(pre.push(ev[i as int]) =~= ev.subrange(from as int, i + 1));
        }
        i = i + 1;
    }
    proof {
        assert(ev.subrange(from as int, ev.len() as int) =~= ev.skip(from as int));
    }
    r
}

} // verus!

