//! End-to-end scenarios for the AppendEntries handler.

use raft_core::append_entries::RaftCore;
use raft_core::log_id::LogId;
use raft_core::types::AppendEntriesRequest;
use raft_core::types::AppendEntriesResponse;
use raft_core::types::Entry;
use raft_core::types::Payload;

fn lid(term: u64, index: u64) -> LogId {
    LogId { term, index }
}

fn blank(term: u64, index: u64) -> Entry {
    Entry { log_id: lid(term, index), payload: Payload::Blank }
}

fn req(
    term: u64,
    leader_id: u64,
    prev_log_id: Option<LogId>,
    entries: Vec<Entry>,
    leader_commit: Option<LogId>,
) -> AppendEntriesRequest {
    AppendEntriesRequest { term, leader_id, prev_log_id, entries, leader_commit }
}

fn log_ids(core: &RaftCore) -> Vec<(u64, u64)> {
    core.storage.log.iter().map(|e| (e.log_id.term, e.log_id.index)).collect()
}

fn resp(term: u64, success: bool, conflict: bool) -> AppendEntriesResponse {
    AppendEntriesResponse { term, success, conflict }
}

#[test]
fn initial_accept() {
    let mut core = RaftCore::new(0);
    let r = core.handle_append_entries_request(
        req(1, 1, None, vec![blank(1, 1)], None),
        10,
    );
    assert_eq!(r, resp(1, true, false));
    assert_eq!(core.last_log_id, Some(lid(1, 1)));
    assert_eq!(core.current_leader, Some(1));
    assert_eq!(core.committed, None);
}

#[test]
fn heartbeat_with_commit() {
    let mut core = RaftCore::new(0);
    let r1 = core.handle_append_entries_request(
        req(1, 1, None, vec![blank(1, 1)], None),
        10,
    );
    assert_eq!(r1, resp(1, true, false));

    let r2 = core.handle_append_entries_request(
        req(1, 1, Some(lid(1, 1)), vec![], Some(lid(1, 1))),
        20,
    );
    assert_eq!(r2, resp(1, true, false));
    assert_eq!(core.committed, Some(lid(1, 1)));

    core.run_apply_task();
    assert_eq!(core.last_applied, Some(lid(1, 1)));
    assert_eq!(core.storage.applied.len(), 1);
    assert_eq!(core.storage.applied[0].log_id, lid(1, 1));
}

#[test]
fn stale_term() {
    let mut core = RaftCore::new(0);
    let r0 = core.handle_append_entries_request(req(5, 1, None, vec![], None), 10);
    assert_eq!(r0, resp(5, true, false));

    let before_log = log_ids(&core);
    let before_committed = core.committed;
    let before_leader = core.current_leader;
    let before_vote = core.voted_for;
    let before_deadline = core.next_election_deadline;

    let r = core.handle_append_entries_request(
        req(4, 2, None, vec![blank(4, 1)], Some(lid(4, 1))),
        99,
    );
    assert_eq!(r, resp(5, false, false));
    assert_eq!(log_ids(&core), before_log);
    assert_eq!(core.committed, before_committed);
    assert_eq!(core.current_leader, before_leader);
    assert_eq!(core.voted_for, before_vote);
    // a stale request does not even reset the election timer
    assert_eq!(core.next_election_deadline, before_deadline);
}

#[test]
fn consistency_miss_log_too_short() {
    let mut core = RaftCore::new(0);
    let r0 = core.handle_append_entries_request(
        req(2, 1, None, vec![blank(1, 1), blank(1, 2), blank(2, 3)], None),
        10,
    );
    assert_eq!(r0, resp(2, true, false));
    assert_eq!(core.last_log_id, Some(lid(2, 3)));

    let r = core.handle_append_entries_request(
        req(3, 1, Some(lid(2, 5)), vec![], None),
        20,
    );
    assert_eq!(r, resp(3, false, true));
    assert_eq!(core.last_log_id, Some(lid(2, 3)));
    assert_eq!(log_ids(&core), vec![(1, 1), (1, 2), (2, 3)]);
}

#[test]
fn conflict_and_overwrite() {
    let mut core = RaftCore::new(0);
    let r0 = core.handle_append_entries_request(
        req(
            2,
            1,
            None,
            vec![blank(1, 1), blank(1, 2), blank(2, 3)],
            Some(lid(1, 2)),
        ),
        10,
    );
    assert_eq!(r0, resp(2, true, false));
    assert_eq!(core.committed, Some(lid(1, 2)));

    let r = core.handle_append_entries_request(
        req(
            3,
            2,
            Some(lid(1, 2)),
            vec![blank(3, 3), blank(3, 4)],
            Some(lid(3, 3)),
        ),
        20,
    );
    assert_eq!(r, resp(3, true, false));
    assert_eq!(log_ids(&core), vec![(1, 1), (1, 2), (3, 3), (3, 4)]);
    assert_eq!(core.committed, Some(lid(3, 3)));
}

#[test]
fn skip_matching_optimization() {
    let mut core = RaftCore::new(0);
    let r0 = core.handle_append_entries_request(
        req(
            1,
            1,
            None,
            vec![blank(1, 1), blank(1, 2), blank(1, 3)],
            Some(lid(1, 1)),
        ),
        10,
    );
    assert_eq!(r0, resp(1, true, false));
    assert_eq!(core.committed, Some(lid(1, 1)));

    let r = core.handle_append_entries_request(
        req(
            1,
            1,
            Some(lid(1, 1)),
            vec![blank(1, 2), blank(1, 3), blank(1, 4)],
            Some(lid(1, 3)),
        ),
        20,
    );
    assert_eq!(r, resp(1, true, false));
    // entries 2 and 3 matched and were not rewritten; entry 4 appended
    assert_eq!(log_ids(&core), vec![(1, 1), (1, 2), (1, 3), (1, 4)]);
    assert_eq!(core.committed, Some(lid(1, 3)));
}

#[test]
fn conflict_on_empty_log() {
    let mut core = RaftCore::new(0);
    let r = core.handle_append_entries_request(
        req(1, 1, Some(lid(1, 1)), vec![], None),
        10,
    );
    assert_eq!(r, resp(1, false, true));
    assert_eq!(core.last_log_id, None);
    assert_eq!(log_ids(&core), Vec::<(u64, u64)>::new());
}

#[test]
fn heartbeat_commit_clamped_to_validated_position() {
    let mut core = RaftCore::new(0);
    core.handle_append_entries_request(req(1, 1, None, vec![blank(1, 1)], None), 10);
    // the leader's watermark points past what this request covers:
    // the follower clamps to the verified predecessor
    let r = core.handle_append_entries_request(
        req(1, 1, Some(lid(1, 1)), vec![], Some(lid(1, 5))),
        20,
    );
    assert_eq!(r, resp(1, true, false));
    assert_eq!(core.committed, Some(lid(1, 1)));
}
