//! Concrete checks of the handler's safety laws, and of the helper
//! functions around it.

use raft_core::append_entries::RaftCore;
use raft_core::append_entries::request_well_formed;
use raft_core::log_id::LogId;
use raft_core::testing::MemStoreBuilder;
use raft_core::testing::StoreBuilder;
use raft_core::types::AppendEntriesRequest;
use raft_core::types::AppendEntriesResponse;
use raft_core::types::Config;
use raft_core::types::Entry;
use raft_core::types::NodeState;
use raft_core::types::Payload;

fn lid(term: u64, index: u64) -> LogId {
    LogId { term, index }
}

fn blank(term: u64, index: u64) -> Entry {
    Entry { log_id: lid(term, index), payload: Payload::Blank }
}

fn req(
    term: u64,
    leader_id: u64,
    prev_log_id: Option<LogId>,
    entries: Vec<Entry>,
    leader_commit: Option<LogId>,
) -> AppendEntriesRequest {
    AppendEntriesRequest { term, leader_id, prev_log_id, entries, leader_commit }
}

fn ids(core: &RaftCore) -> Vec<(u64, u64)> {
    core.storage.log.iter().map(|e| (e.log_id.term, e.log_id.index)).collect()
}

#[test]
fn commit_is_monotone() {
    let mut core = RaftCore::new(0);
    core.handle_append_entries_request(
        req(1, 1, None, vec![blank(1, 1), blank(1, 2)], Some(lid(1, 2))),
        10,
    );
    assert_eq!(core.committed, Some(lid(1, 2)));
    // a heartbeat carrying no commit watermark must not move it back
    let r = core.handle_append_entries_request(
        req(1, 1, Some(lid(1, 2)), vec![], None),
        20,
    );
    assert!(r.success);
    assert_eq!(core.committed, Some(lid(1, 2)));
}

#[test]
fn committed_prefix_survives_conflict() {
    let mut core = RaftCore::new(0);
    core.handle_append_entries_request(
        req(
            2,
            1,
            None,
            vec![blank(1, 1), blank(1, 2), blank(2, 3)],
            Some(lid(1, 2)),
        ),
        10,
    );
    // a mismatching predecessor above the watermark truncates only the
    // uncommitted tail
    let r = core.handle_append_entries_request(
        req(3, 2, Some(lid(3, 3)), vec![], None),
        20,
    );
    assert_eq!(
        r,
        AppendEntriesResponse { term: 3, success: false, conflict: true }
    );
    assert_eq!(ids(&core), vec![(1, 1), (1, 2)]);
    assert_eq!(core.committed, Some(lid(1, 2)));
}

#[test]
fn term_bump_clears_vote() {
    let mut core = RaftCore::new(0);
    core.handle_append_entries_request(req(3, 1, None, vec![], None), 10);
    core.voted_for = Some(7);
    core.storage.hard.voted_for = Some(7);
    // the same term leaves the vote alone
    core.handle_append_entries_request(req(3, 1, None, vec![], None), 20);
    assert_eq!(core.voted_for, Some(7));
    // a higher term clears it
    core.handle_append_entries_request(req(4, 2, None, vec![], None), 30);
    assert_eq!(core.current_term, 4);
    assert_eq!(core.voted_for, None);
}

#[test]
fn accepted_entries_match_request_exactly() {
    let mut core = RaftCore::new(0);
    let entries = vec![blank(1, 1), blank(1, 2), blank(1, 3)];
    let r = core.handle_append_entries_request(req(1, 1, None, entries, None), 10);
    assert!(r.success);
    for (term, index) in [(1u64, 1u64), (1, 2), (1, 3)] {
        let local = core.storage.try_get_log_entry(index).unwrap();
        assert_eq!(local.log_id, lid(term, index));
    }
}

#[test]
fn applies_ascending_exactly_once() {
    let mut core = RaftCore::new(0);
    core.handle_append_entries_request(
        req(
            2,
            1,
            None,
            vec![blank(1, 1), blank(1, 2), blank(2, 3)],
            Some(lid(1, 2)),
        ),
        10,
    );
    core.run_apply_task();
    let applied_once: Vec<(u64, u64)> =
        core.storage.applied.iter().map(|e| (e.log_id.term, e.log_id.index)).collect();
    assert_eq!(applied_once, vec![(1, 1), (1, 2)]);

    core.handle_append_entries_request(
        req(2, 1, Some(lid(2, 3)), vec![], Some(lid(2, 3))),
        20,
    );
    core.run_apply_task();
    let applied_twice: Vec<(u64, u64)> =
        core.storage.applied.iter().map(|e| (e.log_id.term, e.log_id.index)).collect();
    // strictly ascending, nothing reapplied
    assert_eq!(applied_twice, vec![(1, 1), (1, 2), (2, 3)]);
    assert_eq!(core.last_applied, Some(lid(2, 3)));
}

#[test]
fn repeated_heartbeat_is_idempotent() {
    let mut core = RaftCore::new(0);
    core.handle_append_entries_request(
        req(1, 1, None, vec![blank(1, 1)], None),
        10,
    );
    let heartbeat = |c: &mut RaftCore| {
        c.handle_append_entries_request(
            req(1, 1, Some(lid(1, 1)), vec![], Some(lid(1, 1))),
            50,
        )
    };
    let r1 = heartbeat(&mut core);
    let snapshot = (
        ids(&core),
        core.current_term,
        core.voted_for,
        core.current_leader,
        core.committed,
        core.last_applied,
        core.pending_apply,
        core.next_election_deadline,
        core.has_completed_initial_replication_to_sm,
    );
    let r2 = heartbeat(&mut core);
    let again = (
        ids(&core),
        core.current_term,
        core.voted_for,
        core.current_leader,
        core.committed,
        core.last_applied,
        core.pending_apply,
        core.next_election_deadline,
        core.has_completed_initial_replication_to_sm,
    );
    assert_eq!(r1, r2);
    assert_eq!(snapshot, again);
}

#[test]
fn acknowledged_term_is_durable() {
    let mut core = RaftCore::new(0);
    let r = core.handle_append_entries_request(req(6, 1, None, vec![], None), 10);
    assert_eq!(r.term, 6);
    assert_eq!(core.storage.hard.current_term, 6);
    assert_eq!(core.storage.hard.voted_for, None);
}

#[test]
fn membership_activates_on_append() {
    let mut core = RaftCore::new(0);
    let conf = Entry {
        log_id: lid(1, 1),
        payload: Payload::Membership(Config { members: vec![1, 2, 3] }),
    };
    let r = core.handle_append_entries_request(req(1, 1, None, vec![conf], None), 10);
    assert!(r.success);
    assert_eq!(core.effective_membership.log_id, lid(1, 1));
    assert_eq!(core.effective_membership.config.members, vec![1, 2, 3]);
}

#[test]
fn membership_recomputed_after_truncation() {
    let mut core = RaftCore::new(0);
    let conf = Entry {
        log_id: lid(1, 1),
        payload: Payload::Membership(Config { members: vec![1, 2, 3] }),
    };
    core.handle_append_entries_request(req(1, 1, None, vec![conf], None), 10);
    // a conflict at index 1 removes the membership entry; the
    // effective membership falls back to the initial one
    let r = core.handle_append_entries_request(
        req(2, 2, Some(lid(2, 1)), vec![], None),
        20,
    );
    assert_eq!(
        r,
        AppendEntriesResponse { term: 2, success: false, conflict: true }
    );
    assert_eq!(ids(&core), Vec::<(u64, u64)>::new());
    assert_eq!(core.effective_membership.log_id, lid(0, 0));
    assert_eq!(core.effective_membership.config.members, vec![0]);
}

#[test]
fn learner_stays_learner() {
    let mut core = RaftCore::new(0);
    core.target_state = NodeState::Learner;
    let r = core.handle_append_entries_request(
        req(1, 1, None, vec![blank(1, 1)], None),
        10,
    );
    assert!(r.success);
    assert_eq!(core.target_state, NodeState::Learner);
}

#[test]
fn well_formed_accepts_a_leader_shaped_request() {
    let m = req(
        2,
        1,
        Some(lid(1, 2)),
        vec![blank(1, 3), blank(2, 4)],
        Some(lid(1, 2)),
    );
    assert!(request_well_formed(&m));
}

#[test]
fn well_formed_rejects_an_index_gap() {
    let m = req(2, 1, Some(lid(1, 2)), vec![blank(2, 5)], None);
    assert!(!request_well_formed(&m));
}

#[test]
fn well_formed_rejects_a_term_above_the_senders() {
    let m = req(2, 1, None, vec![blank(3, 1)], None);
    assert!(!request_well_formed(&m));
}

#[test]
fn checker_rejects_disagreement_below_committed() {
    let mut core = RaftCore::new(0);
    core.handle_append_entries_request(
        req(1, 1, None, vec![blank(1, 1), blank(1, 2)], Some(lid(1, 2))),
        10,
    );
    // claims a different entry at an index the follower has committed
    let bad = req(2, 2, Some(lid(2, 2)), vec![], None);
    assert!(!core.check_append_entries_request(&bad));
    // and the honest view of the same position passes
    let good = req(2, 2, Some(lid(1, 2)), vec![], None);
    assert!(core.check_append_entries_request(&good));
}

#[test]
fn consistency_check_positions() {
    let mut core = RaftCore::new(0);
    core.handle_append_entries_request(
        req(
            2,
            1,
            None,
            vec![blank(1, 1), blank(1, 2), blank(2, 3)],
            Some(lid(1, 1)),
        ),
        10,
    );
    // no predecessor
    assert_eq!(core.does_log_id_match(None), None);
    // at or below the committed watermark
    assert_eq!(core.does_log_id_match(Some(lid(1, 1))), None);
    // present and equal
    assert_eq!(core.does_log_id_match(Some(lid(2, 3))), None);
    // present and different
    assert_eq!(core.does_log_id_match(Some(lid(3, 3))), Some(lid(3, 3)));
    // beyond the log
    assert_eq!(core.does_log_id_match(Some(lid(2, 9))), Some(lid(2, 9)));
}

#[test]
fn skip_counts_matching_prefix() {
    let mut core = RaftCore::new(0);
    core.handle_append_entries_request(
        req(1, 1, None, vec![blank(1, 1), blank(1, 2)], Some(lid(1, 1))),
        10,
    );
    let entries = vec![blank(1, 1), blank(1, 2), blank(1, 3)];
    assert_eq!(core.skip_matching_entries(&entries), 2);
    let diverging = vec![blank(2, 2), blank(2, 3)];
    assert_eq!(core.skip_matching_entries(&diverging), 0);
}

#[test]
fn store_builder_is_deterministic() {
    let b = MemStoreBuilder { sample: 42 };
    let s1 = b.build();
    let s2 = b.build();
    assert_eq!(s1.log.len(), 0);
    assert_eq!(s2.log.len(), 0);
    assert_eq!(b.sample_app_data(), b.sample_app_data());
    assert_eq!(b.sample_app_data(), 42);
}
