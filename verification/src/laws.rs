//! The safety laws of the handler, stated and proved over the model
//! transition that `RaftCore::handle_append_entries_request` computes.

use vstd::prelude::*;

use crate::log_id::lemma_opt_le_total;
use crate::log_id::opt_index;
use crate::log_id::opt_le;
use crate::model::CoreV;
use crate::model::adopt_term;
use crate::model::apply_task_spec;
use crate::model::consistency_ok;
use crate::model::core_wf;
use crate::model::handle_spec;
use crate::model::lemma_append_apply_wf;
use crate::model::lemma_apply_task_wf;
use crate::model::local_id_match;
use crate::model::req_consistent;
use crate::model::req_wf;
use crate::model::valid_commit_candidate;
use crate::types::AppendEntriesRequestV;

verus! {

/// Monotone commit: no request, whatever it carries, ever moves the
/// commit watermark back.
pub proof fn lemma_monotone_commit(s: CoreV, req: AppendEntriesRequestV, deadline: u64)
    ensures
        opt_le(s.committed, handle_spec(s, req, deadline).0.committed),
{
    let post = handle_spec(s, req, deadline).0;
    lemma_opt_le_total(s.committed, post.committed, post.committed);
    if req.term >= s.current_term {
        let s1 = adopt_term(s, req, deadline);
        if consistency_ok(s1, req.prev_log_id) {
            let c = valid_commit_candidate(req.prev_log_id, req.entries, req.leader_commit);
            lemma_opt_le_total(s.committed, c, c);
        }
    }
}

/// Committed durability: no entry at or below the committed watermark
/// is ever deleted or replaced, however adversarial the shapes a
/// leader's churn produced — the handler truncates only strictly above
/// it.
pub proof fn lemma_committed_durability(s: CoreV, req: AppendEntriesRequestV, deadline: u64)
    requires
        core_wf(s),
        req_wf(req),
        req.term >= s.current_term ==> req_consistent(s, req),
    ensures
        forall|j: int|
            0 <= j < opt_index(s.committed) ==> handle_spec(s, req, deadline).0.log.len() > j
                && #[trigger] handle_spec(s, req, deadline).0.log[j] == s.log[j],
{
    if req.term >= s.current_term {
        let s1 = adopt_term(s, req, deadline);
        let c = valid_commit_candidate(req.prev_log_id, req.entries, req.leader_commit);
        lemma_append_apply_wf(s1, req.prev_log_id, req.entries, c);
    }
}

/// Term monotonicity: the current term never decreases, and the vote
/// is cleared exactly when the term strictly increases.
pub proof fn lemma_term_monotonicity(s: CoreV, req: AppendEntriesRequestV, deadline: u64)
    ensures
        s.current_term <= handle_spec(s, req, deadline).0.current_term,
        handle_spec(s, req, deadline).0.current_term > s.current_term ==> handle_spec(
            s,
            req,
            deadline,
        ).0.voted_for is None,
        handle_spec(s, req, deadline).0.current_term == s.current_term ==> handle_spec(
            s,
            req,
            deadline,
        ).0.voted_for == s.voted_for,
{
}

/// Prefix property: after an accepted request, the local log holds, at
/// each index the request covered, exactly the id the leader supplied
/// there.
pub proof fn lemma_prefix_property(s: CoreV, req: AppendEntriesRequestV, deadline: u64)
    requires
        core_wf(s),
        req_wf(req),
        req.term >= s.current_term ==> req_consistent(s, req),
        handle_spec(s, req, deadline).1.success,
    ensures
        forall|k: int|
            0 <= k < req.entries.len() ==> local_id_match(
                handle_spec(s, req, deadline).0,
                (#[trigger] req.entries[k]).log_id,
            ),
{
    let s1 = adopt_term(s, req, deadline);
    let c = valid_commit_candidate(req.prev_log_id, req.entries, req.leader_commit);
    lemma_append_apply_wf(s1, req.prev_log_id, req.entries, c);
}

/// The handler itself never touches the state machine: application is
/// the pipeline's alone.
pub proof fn lemma_handler_applies_nothing(s: CoreV, req: AppendEntriesRequestV, deadline: u64)
    ensures
        handle_spec(s, req, deadline).0.applied == s.applied,
        handle_spec(s, req, deadline).0.last_applied == s.last_applied,
{
}

/// Apply ordering: the pipeline's task only ever extends what has been
/// applied — nothing is reapplied — and what stands applied is a
/// contiguous log prefix, in strictly ascending index order: each
/// entry exactly once.
pub proof fn lemma_apply_ordering(s: CoreV)
    requires
        core_wf(s),
    ensures
        apply_task_spec(s).applied.take(s.applied.len() as int) == s.applied,
        forall|j: int, k: int|
            0 <= j < k < apply_task_spec(s).applied.len() ==> #[trigger] apply_task_spec(
                s,
            ).applied[j].log_id.index < #[trigger] apply_task_spec(s).applied[k].log_id.index,
{
    lemma_apply_task_wf(s);
    let t = apply_task_spec(s);
    assert forall|j: int, k: int| 0 <= j < k < t.applied.len() implies #[trigger] t.applied[j].log_id.index
        < #[trigger] t.applied[k].log_id.index by {
        assert(t.applied[j] == t.log.take(opt_index(t.last_applied))[j]);
        assert(t.applied[j].log_id.index == j + 1);
        assert(t.applied[k].log_id.index == k + 1);
    }
}

/// No-op heartbeat idempotence: a repeated identical heartbeat — no
/// entries, same predecessor, same leader commit — finds and leaves
/// exactly the state the first one produced, and gets the same answer.
pub proof fn lemma_heartbeat_idempotence(s: CoreV, req: AppendEntriesRequestV, deadline: u64)
    requires
        core_wf(s),
        req_wf(req),
        req.entries.len() == 0,
        req.term >= s.current_term ==> req_consistent(s, req),
    ensures
        handle_spec(handle_spec(s, req, deadline).0, req, deadline) == handle_spec(
            s,
            req,
            deadline,
        ),
{
    let p1 = handle_spec(s, req, deadline).0;
    let r1 = handle_spec(s, req, deadline).1;
    if req.term < s.current_term {
        // stale the first time, stale again: nothing was touched
    } else {
        let s1 = adopt_term(s, req, deadline);
        let c = valid_commit_candidate(req.prev_log_id, req.entries, req.leader_commit);
        assert(core_wf(s1));
        lemma_append_apply_wf(s1, req.prev_log_id, req.entries, c);
        assert(p1.current_term == req.term);
        // the first acceptance already adopted term, leader, role and
        // deadline, so the second adoption is the identity
        assert(adopt_term(p1, req, deadline) == p1);

        if !consistency_ok(s1, req.prev_log_id) {
            let p = req.prev_log_id->Some_0;
            crate::model::lemma_conflict_branch_wf(s1, p);
            // the first conflict already cut the log below the
            // mismatch: it still mismatches, and there is nothing
            // further to cut
            assert(!local_id_match(p1, p));
            assert(!consistency_ok(p1, req.prev_log_id));
            assert(crate::model::truncate_log_spec(p1, p) == p1);
        } else {
            // an accepted heartbeat appends nothing and deletes
            // nothing: the log is as it was
            assert(crate::model::skip_count(s1, req.entries) == 0);
            assert(req.entries.skip(0) =~= req.entries);
            let s4 = crate::model::success_committed(s1, req.entries, c);
            assert(s4.log == s1.log);
            assert(p1 == crate::model::replicate_decision_spec(s4));
            // the predecessor is still consistent: the log did not
            // change and the watermark only moved up
            match req.prev_log_id {
                Option::None => {},
                Option::Some(p) => {
                    if opt_le(Option::Some(p), s1.committed) {
                        lemma_opt_le_total(Option::Some(p), s1.committed, p1.committed);
                    }
                },
            }
            assert(consistency_ok(p1, req.prev_log_id));
            // the watermark is already at or above the candidate
            lemma_opt_le_total(c, s1.committed, p1.committed);
            assert(crate::log_id::opt_max(p1.committed, c) == p1.committed);
            let q4 = crate::model::success_committed(p1, req.entries, c);
            assert(q4 == p1);
            // and the hand-off finds nothing new to submit
            if p1.pending_apply is None {
                assert(opt_le(s4.committed, s4.last_log_id));
                assert(opt_le(p1.committed, p1.last_applied));
            }
            assert(crate::model::replicate_decision_spec(p1) == p1);
        }
    }
}

/// Hard-state ordering: the term a response acknowledges is durable —
/// the persisted hard state carries that term — before the response
/// exists, and it is never behind the sender's.
pub proof fn lemma_hard_state_ordering(s: CoreV, req: AppendEntriesRequestV, deadline: u64)
    requires
        core_wf(s),
    ensures
        handle_spec(s, req, deadline).1.term == handle_spec(s, req, deadline).0.current_term,
        handle_spec(s, req, deadline).0.hard.current_term == handle_spec(s, req, deadline).1.term,
        handle_spec(s, req, deadline).1.term >= req.term || req.term < s.current_term,
{
}

/// Membership anchoring: the log position that introduced the
/// membership in force never lies beyond the log's tail, so crash
/// recovery can always reconstruct it from the durable log.
pub proof fn lemma_membership_anchored(s: CoreV)
    requires
        core_wf(s),
    ensures
        s.membership.log_id.index <= opt_index(s.last_log_id),
{
    crate::model::lemma_last_membership_is_in_log(s.log);
}

} // verus!
