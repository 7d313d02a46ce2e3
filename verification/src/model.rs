//! The mathematical model of a follower's state and of AppendEntries
//! handling: a well-formedness predicate over the whole node state, the
//! assumptions a protocol-compliant leader's request satisfies, and the
//! transition the handler performs, phase by phase. The executable core
//! proves that it computes exactly this transition.

use vstd::prelude::*;

use crate::log_id::LogId;
use crate::log_id::log_id_le;
use crate::log_id::log_id_lt;
use crate::log_id::opt_index;
use crate::log_id::opt_le;
use crate::log_id::opt_lt;
use crate::log_id::opt_max;
use crate::log_id::opt_min;
use crate::store::last_membership_in;
use crate::store::last_of;
use crate::store::log_contiguous;
use crate::store::log_ids_increasing;
use crate::types::AppendEntriesRequestV;
use crate::types::AppendEntriesResponse;
use crate::types::EffectiveMembershipV;
use crate::types::EntryV;
use crate::types::HardState;
use crate::types::NodeState;
use crate::types::initial_membership;

verus! {

/// The state a follower's core owns, as mathematical values.
pub ghost struct CoreV {
    /// This node's identifier.
    pub id: u64,
    /// Highest term seen.
    pub current_term: u64,
    /// The vote persisted for `current_term`, if any.
    pub voted_for: Option<u64>,
    /// The node believed to lead `current_term`, if any.
    pub current_leader: Option<u64>,
    /// The role the node is in or transitioning to.
    pub target_state: NodeState,
    /// When to next start an election if no leader contact arrives.
    pub next_election_deadline: u64,
    /// The local log, contiguous from index 1.
    pub log: Seq<EntryV>,
    /// The id of the last log entry; `None` of an empty log.
    pub last_log_id: Option<LogId>,
    /// Highest id known committed; never decreases.
    pub committed: Option<LogId>,
    /// Highest id applied to the state machine.
    pub last_applied: Option<LogId>,
    /// The entries applied to the state machine, in order.
    pub applied: Seq<EntryV>,
    /// The durable copy of term and vote.
    pub hard: HardState,
    /// The membership currently in force.
    pub membership: EffectiveMembershipV,
    /// Whether the one-shot catch-up apply after process start ran.
    pub initial_replication_done: bool,
    /// The end of the batch handed to the apply pipeline, while a task
    /// is in flight.
    pub pending_apply: Option<LogId>,
}

/// The membership a log determines: its last membership entry, or the
/// initial one of node `id`.
pub open spec fn membership_of(log: Seq<EntryV>, id: u64) -> EffectiveMembershipV {
    match last_membership_in(log) {
        Option::Some(m) => m,
        Option::None => initial_membership(id),
    }
}

/// `x` names exactly the entry the local log holds at `x.index`.
pub open spec fn local_id_match(s: CoreV, x: LogId) -> bool {
    &&& 1 <= x.index
    &&& x.index <= s.log.len()
    &&& s.log[x.index - 1].log_id == x
}

/// Everything the handler maintains about a follower's state.
pub open spec fn core_wf(s: CoreV) -> bool {
    // the log is contiguous from index 1 and its ids grow strictly
    &&& log_contiguous(s.log)
    &&& log_ids_increasing(s.log)
    &&& s.last_log_id == last_of(s.log)
    // the watermarks name actual log entries and are ordered
    &&& match s.committed {
        Option::None => true,
        Option::Some(c) => local_id_match(s, c),
    }
    &&& match s.last_applied {
        Option::None => true,
        Option::Some(a) => local_id_match(s, a),
    }
    &&& opt_le(s.last_applied, s.committed)
    &&& opt_le(s.committed, s.last_log_id)
    // the state machine holds exactly the log prefix up to `last_applied`
    &&& opt_index(s.last_applied) == s.applied.len()
    &&& s.applied == s.log.take(opt_index(s.last_applied))
    // between operations, the durable hard state mirrors the volatile one
    &&& s.hard == (HardState { current_term: s.current_term, voted_for: s.voted_for })
    // the effective membership is what the log determines
    &&& s.membership == membership_of(s.log, s.id)
    // an in-flight apply batch ends at a committed, not yet applied entry
    &&& match s.pending_apply {
        Option::None => true,
        Option::Some(p) => {
            &&& local_id_match(s, p)
            &&& opt_lt(s.last_applied, Option::Some(p))
            &&& opt_le(Option::Some(p), s.committed)
        },
    }
}

/// Shape of a request batch, as any leader sends it: the entries carry
/// consecutive indices right after `prev_log_id`, their ids grow
/// strictly, and no id is at the reserved index 0.
pub open spec fn batch_wf(prev: Option<LogId>, entries: Seq<EntryV>) -> bool {
    &&& forall|k: int|
        0 <= k < entries.len() ==> (#[trigger] entries[k].log_id.index) as int == opt_index(prev)
            + 1 + k
    &&& forall|j: int, k: int|
        0 <= j < k < entries.len() ==> log_id_lt(
            #[trigger] entries[j].log_id,
            #[trigger] entries[k].log_id,
        )
    &&& match prev {
        Option::None => true,
        Option::Some(p) => {
            &&& 1 <= p.index
            &&& entries.len() > 0 ==> log_id_lt(p, entries[0].log_id)
        },
    }
}

/// Shape of a whole request: a well-formed batch, every carried id from
/// the sender's own term or earlier, and no reserved index.
pub open spec fn req_wf(req: AppendEntriesRequestV) -> bool {
    &&& batch_wf(req.prev_log_id, req.entries)
    &&& forall|k: int|
        0 <= k < req.entries.len() ==> (#[trigger] req.entries[k].log_id.term) <= req.term
    &&& match req.prev_log_id {
        Option::None => true,
        Option::Some(p) => p.term <= req.term,
    }
    &&& match req.leader_commit {
        Option::None => true,
        Option::Some(c) => 1 <= c.index && c.term <= req.term,
    }
}

/// The commit watermark this request can justify: the leader's commit,
/// clamped to the last position the request itself covers. Advancing
/// beyond what this RPC validated must wait for a later RPC.
pub open spec fn valid_commit_candidate(
    prev: Option<LogId>,
    entries: Seq<EntryV>,
    leader_commit: Option<LogId>,
) -> Option<LogId> {
    let covered = if entries.len() > 0 {
        Option::Some(entries.last().log_id)
    } else {
        prev
    };
    opt_min(leader_commit, covered)
}

/// What Raft's election safety and leader completeness guarantee of the
/// ids a current leader's request carries, stated against this
/// follower's state: an id at or below the committed index names the
/// entry the local log already holds there, and an id at or below the
/// committed watermark in `(term, index)` order sits at or below its
/// index. A request from a stale term need not satisfy this; the
/// handler rejects it without reading the log.
pub open spec fn batch_consistent(s: CoreV, prev: Option<LogId>, entries: Seq<EntryV>) -> bool {
    &&& match prev {
        Option::None => true,
        Option::Some(p) => {
            &&& p.index <= opt_index(s.committed) ==> local_id_match(s, p)
            &&& opt_le(Option::Some(p), s.committed) ==> p.index <= opt_index(s.committed)
        },
    }
    &&& forall|k: int|
        0 <= k < entries.len() && (#[trigger] entries[k].log_id.index) <= opt_index(s.committed)
            ==> local_id_match(s, entries[k].log_id)
    &&& forall|k: int|
        0 <= k < entries.len() && opt_le(Option::Some(#[trigger] entries[k].log_id), s.committed)
            ==> entries[k].log_id.index <= opt_index(s.committed)
}

/// What the same guarantees say of the leader's commit watermark `c`
/// (already clamped): it lies within the positions the request covers,
/// and it names the entry that position holds — locally where the
/// position precedes the batch, in the batch where the batch covers it.
pub open spec fn commit_candidate_ok(
    s: CoreV,
    prev: Option<LogId>,
    entries: Seq<EntryV>,
    c: Option<LogId>,
) -> bool {
    match c {
        Option::None => true,
        Option::Some(c) => {
            &&& 1 <= c.index
            &&& entries.len() > 0 ==> c.index <= entries.last().log_id.index
            &&& entries.len() == 0 ==> c.index <= opt_index(prev)
            &&& (consistency_ok(s, prev) && c.index <= opt_index(prev)) ==> local_id_match(s, c)
            &&& (opt_index(prev) < c.index && entries.len() > 0) ==> entries[c.index - (opt_index(
                prev,
            ) + 1)].log_id == c
        },
    }
}

/// The full assumption on a request from a leader of the current term.
pub open spec fn req_consistent(s: CoreV, req: AppendEntriesRequestV) -> bool {
    &&& batch_consistent(s, req.prev_log_id, req.entries)
    &&& commit_candidate_ok(
        s,
        req.prev_log_id,
        req.entries,
        valid_commit_candidate(req.prev_log_id, req.entries, req.leader_commit),
    )
}

/// The log-consistency check on `prev_log_id`: consistent when there is
/// no predecessor, when it is at or below the committed watermark (a
/// committed id is authoritative), or when the local entry at its index
/// carries exactly this id.
pub open spec fn consistency_ok(s: CoreV, prev: Option<LogId>) -> bool {
    match prev {
        Option::None => true,
        Option::Some(p) => opt_le(Option::Some(p), s.committed) || local_id_match(s, p),
    }
}

/// A leading request entry the follower may skip: already committed
/// here, or identical to the local entry at its index.
pub open spec fn entry_matches_local(s: CoreV, e: EntryV) -> bool {
    opt_le(Option::Some(e.log_id), s.committed) || local_id_match(s, e.log_id)
}

/// The first position at or after `i` whose entry does not match
/// locally; `entries.len()` if all do.
pub open spec fn skip_count_from(s: CoreV, entries: Seq<EntryV>, i: int) -> int
    decreases entries.len() - i when 0 <= i <= entries.len()
{
    if i >= entries.len() {
        i
    } else if entry_matches_local(s, entries[i]) {
        skip_count_from(s, entries, i + 1)
    } else {
        i
    }
}

/// How many leading request entries already match the local state.
pub open spec fn skip_count(s: CoreV, entries: Seq<EntryV>) -> int {
    skip_count_from(s, entries, 0)
}

/// Every position before the skip point matches, the skip point itself
/// does not.
pub proof fn lemma_skip_count_from(s: CoreV, entries: Seq<EntryV>, i: int)
    requires
        0 <= i <= entries.len(),
    ensures
        i <= skip_count_from(s, entries, i) <= entries.len(),
        forall|j: int|
            i <= j < skip_count_from(s, entries, i) ==> entry_matches_local(s, #[trigger] entries[j]),
        skip_count_from(s, entries, i) < entries.len() ==> !entry_matches_local(
            s,
            entries[skip_count_from(s, entries, i)],
        ),
    decreases entries.len() - i,
{
    if i < entries.len() && entry_matches_local(s, entries[i]) {
        lemma_skip_count_from(s, entries, i + 1);
    }
}

/// Term and leader adoption, the timer reset, and the role transition:
/// phases two and three.
pub open spec fn adopt_term(s: CoreV, req: AppendEntriesRequestV, deadline: u64) -> CoreV {
    let bumped = req.term > s.current_term;
    let term = if bumped {
        req.term
    } else {
        s.current_term
    };
    let vote = if bumped {
        Option::<u64>::None
    } else {
        s.voted_for
    };
    CoreV {
        current_term: term,
        voted_for: vote,
        hard: HardState { current_term: term, voted_for: vote },
        current_leader: Option::Some(req.leader_id),
        target_state: if s.target_state is Follower || s.target_state is Learner {
            s.target_state
        } else {
            NodeState::Follower
        },
        next_election_deadline: deadline,
        ..s
    }
}

/// Truncation from `start.index` on, with the bookkeeping the store
/// answers afterwards: the new last id and the membership the shorter
/// log determines. A `start` beyond the log leaves it unchanged.
pub open spec fn truncate_log_spec(s: CoreV, start: LogId) -> CoreV {
    if 1 <= start.index && start.index <= s.log.len() {
        let new_log = s.log.take(start.index - 1);
        CoreV {
            log: new_log,
            last_log_id: last_of(new_log),
            membership: membership_of(new_log, s.id),
            ..s
        }
    } else {
        s
    }
}

/// Appending a suffix at the tail, activating the last membership it
/// carries, if any: immediate upon append, not upon commit.
pub open spec fn append_entries_spec(s: CoreV, suffix: Seq<EntryV>) -> CoreV {
    if suffix.len() == 0 {
        s
    } else {
        CoreV {
            log: s.log + suffix,
            last_log_id: Option::Some(suffix.last().log_id),
            membership: match last_membership_in(suffix) {
                Option::Some(m) => m,
                Option::None => s.membership,
            },
            ..s
        }
    }
}

/// The one-shot catch-up after process start: schedule whatever the
/// prior run committed but did not apply, up to what the log holds.
pub open spec fn initial_replicate_spec(s: CoreV) -> CoreV {
    if s.pending_apply is Some {
        s
    } else {
        let stop = opt_min(s.committed, s.last_log_id);
        if opt_lt(s.last_applied, stop) {
            CoreV { pending_apply: Option::Some(stop->Some_0), ..s }
        } else {
            s
        }
    }
}

/// The hand-off to the apply pipeline: run the initial catch-up once;
/// otherwise submit the committed-but-unapplied range, unless a task is
/// already in flight — the pipeline picks new work up by itself.
pub open spec fn replicate_decision_spec(s: CoreV) -> CoreV {
    if !s.initial_replication_done {
        initial_replicate_spec(CoreV { initial_replication_done: true, ..s })
    } else if s.pending_apply is Some {
        s
    } else if opt_le(s.committed, s.last_applied) {
        s
    } else {
        CoreV { pending_apply: Option::Some(s.committed->Some_0), ..s }
    }
}

/// The apply pipeline's task: apply the pending batch to the state
/// machine, in log order, and record how far application got.
pub open spec fn apply_task_spec(s: CoreV) -> CoreV {
    match s.pending_apply {
        Option::None => s,
        Option::Some(p) => CoreV {
            applied: s.applied + s.log.subrange(opt_index(s.last_applied), p.index as int),
            last_applied: Option::Some(p),
            pending_apply: Option::None,
            ..s
        },
    }
}

/// On the accepted path, the state after the conflicting suffix (if
/// any) has been truncated away: only genuinely inconsistent entries
/// go, because the matching prefix was skipped first.
pub open spec fn success_truncated(s: CoreV, entries: Seq<EntryV>) -> CoreV {
    let suffix = entries.skip(skip_count(s, entries));
    if suffix.len() > 0 {
        truncate_log_spec(s, suffix[0].log_id)
    } else {
        s
    }
}

/// The state after the remaining suffix has been appended and any
/// membership it carries activated.
pub open spec fn success_appended(s: CoreV, entries: Seq<EntryV>) -> CoreV {
    append_entries_spec(success_truncated(s, entries), entries.skip(skip_count(s, entries)))
}

/// The state after the commit watermark advanced — monotonically — to
/// the clamped candidate `c`.
pub open spec fn success_committed(s: CoreV, entries: Seq<EntryV>, c: Option<LogId>) -> CoreV {
    let s3 = success_appended(s, entries);
    CoreV { committed: opt_max(s3.committed, c), ..s3 }
}

/// Phases five through ten: the consistency check, the conflict path
/// with its truncation, or the skip–truncate–append path with
/// membership activation, the monotone commit advance, and the apply
/// hand-off. `c` is the clamped commit candidate of phase four.
pub open spec fn append_apply_spec(
    s: CoreV,
    prev: Option<LogId>,
    entries: Seq<EntryV>,
    c: Option<LogId>,
) -> (CoreV, AppendEntriesResponse) {
    if !consistency_ok(s, prev) {
        let s2 = match prev {
            Option::Some(p) => truncate_log_spec(s, p),
            Option::None => s,
        };
        (s2, AppendEntriesResponse { term: s.current_term, success: false, conflict: true })
    } else {
        let s5 = replicate_decision_spec(success_committed(s, entries, c));
        (s5, AppendEntriesResponse { term: s.current_term, success: true, conflict: false })
    }
}

/// The whole handler: the term gate first — a stale term is refused
/// with no state touched — then adoption and the append/apply phases.
pub open spec fn handle_spec(s: CoreV, req: AppendEntriesRequestV, deadline: u64) -> (
    CoreV,
    AppendEntriesResponse,
) {
    if req.term < s.current_term {
        (
            s,
            AppendEntriesResponse { term: s.current_term, success: false, conflict: false },
        )
    } else {
        let s1 = adopt_term(s, req, deadline);
        let c = valid_commit_candidate(req.prev_log_id, req.entries, req.leader_commit);
        append_apply_spec(s1, req.prev_log_id, req.entries, c)
    }
}

/// Within one well-formed log, the `(term, index)` order of two entry
/// ids agrees with the order of their indices.
pub proof fn lemma_lex_index_order(s: CoreV, x: LogId, y: LogId)
    requires
        log_contiguous(s.log),
        log_ids_increasing(s.log),
        local_id_match(s, x),
        local_id_match(s, y),
    ensures
        log_id_le(x, y) <==> x.index <= y.index,
        x.index == y.index ==> x == y,
{
    if x.index < y.index {
        assert(log_id_lt(s.log[x.index - 1].log_id, s.log[y.index - 1].log_id));
    } else if y.index < x.index {
        assert(log_id_lt(s.log[y.index - 1].log_id, s.log[x.index - 1].log_id));
    } else {
        assert(s.log[x.index - 1].log_id == x);
        assert(s.log[y.index - 1].log_id == y);
    }
}

/// Truncating strictly above the committed index preserves the node
/// invariant and leaves the log prefix, the committed watermark and
/// the applied prefix untouched.
pub proof fn lemma_truncate_wf(s: CoreV, p: LogId)
    requires
        core_wf(s),
        1 <= p.index,
        opt_index(s.committed) < p.index,
    ensures
        core_wf(truncate_log_spec(s, p)),
        truncate_log_spec(s, p).log.len() == if p.index <= s.log.len() {
            p.index - 1
        } else {
            s.log.len() as int
        },
        forall|j: int|
            0 <= j < truncate_log_spec(s, p).log.len() ==> #[trigger] truncate_log_spec(
                s,
                p,
            ).log[j] == s.log[j],
{
    let t = truncate_log_spec(s, p);
    if p.index <= s.log.len() {
        assert(t.log == s.log.take(p.index - 1));
        assert(forall|j: int| 0 <= j < t.log.len() ==> #[trigger] t.log[j] == s.log[j]);
        match s.committed {
            Option::Some(c) => {
                assert(t.log[c.index - 1] == s.log[c.index - 1]);
                match s.last_applied {
                    Option::Some(a) => {
                        lemma_lex_index_order(s, a, c);
                        assert(t.log[a.index - 1] == s.log[a.index - 1]);
                    },
                    Option::None => {},
                }
                match s.pending_apply {
                    Option::Some(q) => {
                        lemma_lex_index_order(s, q, c);
                        assert(t.log[q.index - 1] == s.log[q.index - 1]);
                    },
                    Option::None => {},
                }
                // the committed entry still sits at or below the new tail
                let m = t.log.len();
                assert(c.index <= m);
                if c.index < m {
                    assert(log_id_lt(t.log[c.index - 1].log_id, t.log[m - 1].log_id));
                }
            },
            Option::None => {},
        }
        assert(t.applied =~= t.log.take(opt_index(t.last_applied)));
        assert(core_wf(t));
    }
}

/// On a consistency failure the mismatching predecessor lies strictly
/// above the committed index, so the truncation the conflict path may
/// perform keeps the invariant and every committed entry.
pub proof fn lemma_conflict_branch_wf(s: CoreV, p: LogId)
    requires
        core_wf(s),
        1 <= p.index,
        p.index <= opt_index(s.committed) ==> local_id_match(s, p),
        !consistency_ok(s, Option::Some(p)),
    ensures
        opt_index(s.committed) < p.index,
        core_wf(truncate_log_spec(s, p)),
        forall|j: int|
            0 <= j < truncate_log_spec(s, p).log.len() ==> #[trigger] truncate_log_spec(
                s,
                p,
            ).log[j] == s.log[j],
        truncate_log_spec(s, p).log.len() >= opt_index(s.committed),
{
    assert(!local_id_match(s, p));
    lemma_truncate_wf(s, p);
}

/// The hand-off decision preserves the invariant: whatever branch it
/// takes, any batch it submits ends at a committed, unapplied entry.
pub proof fn lemma_replicate_wf(s: CoreV)
    requires
        core_wf(s),
    ensures
        core_wf(replicate_decision_spec(s)),
{
    if !s.initial_replication_done {
        let s1 = CoreV { initial_replication_done: true, ..s };
        assert(core_wf(s1));
        if s1.pending_apply is None {
            let stop = opt_min(s1.committed, s1.last_log_id);
            assert(stop == s1.committed);
            if opt_lt(s1.last_applied, stop) {
                crate::log_id::lemma_opt_le_total(
                    s1.last_applied,
                    s1.committed,
                    s1.committed,
                );
            }
        }
    } else if s.pending_apply is Some {
    } else if opt_le(s.committed, s.last_applied) {
    } else {
        crate::log_id::lemma_opt_le_total(s.last_applied, s.committed, s.committed);
    }
}

/// Running the apply task preserves the invariant; the state machine
/// only ever grows by the next contiguous log slice.
pub proof fn lemma_apply_task_wf(s: CoreV)
    requires
        core_wf(s),
    ensures
        core_wf(apply_task_spec(s)),
        apply_task_spec(s).log == s.log,
        apply_task_spec(s).applied.len() >= s.applied.len(),
        apply_task_spec(s).applied.take(s.applied.len() as int) == s.applied,
{
    let t = apply_task_spec(s);
    match s.pending_apply {
        Option::None => {
            assert(t.applied.take(s.applied.len() as int) =~= s.applied);
        },
        Option::Some(p) => {
            match s.last_applied {
                Option::Some(a) => {
                    lemma_lex_index_order(s, a, p);
                },
                Option::None => {},
            }
            assert(opt_index(s.last_applied) < p.index);
            assert(t.applied =~= s.log.take(p.index as int));
            assert(t.applied.take(s.applied.len() as int) =~= s.applied);
            match s.committed {
                Option::Some(c) => {
                    lemma_lex_index_order(s, p, c);
                },
                Option::None => {},
            }
            assert(core_wf(t));
        },
    }
}

/// Splitting a concatenation: the membership a joined log determines is
/// the suffix's last membership entry, or the prefix's where the suffix
/// carries none.
pub proof fn lemma_last_membership_append(a: Seq<EntryV>, b: Seq<EntryV>)
    ensures
        last_membership_in(a + b) == match last_membership_in(b) {
            Option::Some(m) => Option::Some(m),
            Option::None => last_membership_in(a),
        },
    decreases b.len(),
{
    if b.len() == 0 {
        assert(a + b =~= a);
    } else {
        let ab = a + b;
        assert(ab.last() == b.last());
        match b.last().payload {
            crate::types::PayloadV::Membership(c) => {
                assert(ab.len() > 0);
            },
            _ => {
                assert(ab.drop_last() =~= a + b.drop_last());
                lemma_last_membership_append(a, b.drop_last());
            },
        }
    }
}

/// A membership the log determines is carried by one of its entries.
pub proof fn lemma_last_membership_is_in_log(log: Seq<EntryV>)
    ensures
        match last_membership_in(log) {
            Option::Some(m) => exists|k: int|
                0 <= k < log.len() && (#[trigger] log[k]).log_id == m.log_id,
            Option::None => true,
        },
    decreases log.len(),
{
    if log.len() > 0 {
        match log.last().payload {
            crate::types::PayloadV::Membership(c) => {
                assert(log[log.len() - 1].log_id == log.last().log_id);
            },
            _ => {
                lemma_last_membership_is_in_log(log.drop_last());
                match last_membership_in(log.drop_last()) {
                    Option::Some(m) => {
                        let k = choose|k: int|
                            0 <= k < log.drop_last().len() && (#[trigger] log.drop_last()[k]).log_id
                                == m.log_id;
                        assert(log[k].log_id == m.log_id);
                    },
                    Option::None => {},
                }
            },
        }
    }
}

/// Chaining adjacent comparisons: when each entry's id lies strictly
/// above its predecessor's, every later id lies above every earlier
/// one.
pub proof fn lemma_lt_chain(entries: Seq<EntryV>, j: int, k: int)
    requires
        forall|m: int|
            0 < m < entries.len() ==> log_id_lt(
                entries[m - 1].log_id,
                (#[trigger] entries[m]).log_id,
            ),
        0 <= j < k < entries.len(),
    ensures
        log_id_lt(entries[j].log_id, entries[k].log_id),
    decreases k - j,
{
    if j + 1 < k {
        lemma_lt_chain(entries, j, k - 1);
    }
    assert(log_id_lt(entries[k - 1].log_id, entries[k].log_id));
}

/// Where the skip phase stops on an accepted request: everything
/// before the stop matches locally, and the first entry to reconcile
/// sits strictly above the committed index and at most one past the
/// log's tail — so truncation never touches a committed entry and the
/// append is contiguous.
pub proof fn lemma_success_shape(s: CoreV, prev: Option<LogId>, entries: Seq<EntryV>)
    requires
        core_wf(s),
        batch_wf(prev, entries),
        batch_consistent(s, prev, entries),
        consistency_ok(s, prev),
    ensures
        0 <= skip_count(s, entries) <= entries.len(),
        forall|j: int|
            0 <= j < skip_count(s, entries) ==> entry_matches_local(s, #[trigger] entries[j]),
        skip_count(s, entries) < entries.len() ==> {
            let first = entries[skip_count(s, entries)].log_id;
            &&& first.index == opt_index(prev) + 1 + skip_count(s, entries)
            &&& opt_index(s.committed) < first.index
            &&& first.index <= s.log.len() + 1
        },
        forall|j: int|
            0 <= j < skip_count(s, entries) ==> local_id_match(s, (#[trigger] entries[j]).log_id),
{
    lemma_skip_count_from(s, entries, 0);
    let k = skip_count(s, entries);
    let ic = opt_index(s.committed);

    // every skipped entry in fact names the entry the local log holds
    assert forall|j: int| 0 <= j < k implies local_id_match(s, (#[trigger] entries[j]).log_id) by {
        if opt_le(Option::Some(entries[j].log_id), s.committed) {
            assert(entries[j].log_id.index <= ic);
        }
    }

    if k < entries.len() {
        let first = entries[k].log_id;
        assert(first.index as int == opt_index(prev) + 1 + k);
        assert(!entry_matches_local(s, entries[k]));
        if first.index <= ic {
            assert(local_id_match(s, first));
            assert(false);
        }
        if k > 0 {
            assert(local_id_match(s, entries[k - 1].log_id));
            assert(entries[k - 1].log_id.index as int == opt_index(prev) + k);
        } else {
            match prev {
                Option::None => {},
                Option::Some(p) => {
                    if opt_le(Option::Some(p), s.committed) {
                        assert(p.index <= ic);
                    } else {
                        assert(local_id_match(s, p));
                    }
                },
            }
        }
    }
}

/// Skipping, truncating and appending an accepted batch preserves the
/// node invariant, never touches the committed prefix, and leaves the
/// local log holding every id the batch carried.
#[verifier::rlimit(50)]
pub proof fn lemma_success_appended_wf(s: CoreV, prev: Option<LogId>, entries: Seq<EntryV>)
    requires
        core_wf(s),
        batch_wf(prev, entries),
        batch_consistent(s, prev, entries),
        consistency_ok(s, prev),
    ensures
        core_wf(success_appended(s, entries)),
        success_appended(s, entries).committed == s.committed,
        success_appended(s, entries).log.len() >= opt_index(s.committed),
        forall|j: int|
            0 <= j < opt_index(s.committed) ==> #[trigger] success_appended(s, entries).log[j]
                == s.log[j],
        forall|m: int|
            0 <= m < entries.len() ==> local_id_match(
                success_appended(s, entries),
                (#[trigger] entries[m]).log_id,
            ),
{
    lemma_success_shape(s, prev, entries);
    let k = skip_count(s, entries);
    let suffix = entries.skip(k);
    let ic = opt_index(s.committed);
    let s2 = success_truncated(s, entries);
    let s3 = success_appended(s, entries);

    if suffix.len() == 0 {
        assert(s3 == s);
        assert forall|m: int| 0 <= m < entries.len() implies local_id_match(
            s3,
            (#[trigger] entries[m]).log_id,
        ) by {
            assert(local_id_match(s, entries[m].log_id));
        }
    } else {
        let first = suffix[0].log_id;
        assert(suffix[0] == entries[k]);
        lemma_truncate_wf(s, first);
        assert(s2.log.len() == first.index - 1);
        assert(forall|j: int| 0 <= j < s2.log.len() ==> #[trigger] s2.log[j] == s.log[j]);
        assert(s3.log == s2.log + suffix);

        // the suffix continues the shortened log contiguously
        assert forall|i: int| 0 <= i < suffix.len() implies (#[trigger] suffix[i]).log_id.index
            as int == s2.log.len() + 1 + i by {
            assert(suffix[i] == entries[k + i]);
            assert(entries[k + i].log_id.index as int == opt_index(prev) + 1 + (k + i));
        }
        assert(log_contiguous(s3.log));

        // the boundary: whatever now ends the shortened log sits
        // strictly below the first appended id
        if s2.log.len() > 0 {
            let bpos = first.index - 2;
            assert(s2.log[bpos] == s.log[bpos]);
            if first.index - 1 == ic {
                let c = s.committed->Some_0;
                assert(s.log[bpos].log_id == c);
                assert(!opt_le(Option::Some(first), s.committed));
                assert(log_id_lt(s.log[bpos].log_id, first));
            } else {
                assert(first.index - 1 > ic);
                if k > 0 && entries[k - 1].log_id.index as int == first.index - 1 {
                    assert(local_id_match(s, entries[k - 1].log_id));
                    assert(s.log[bpos].log_id == entries[k - 1].log_id);
                    assert(log_id_lt(entries[k - 1].log_id, first));
                } else {
                    // the position right below the suffix is prev itself
                    assert(k == 0);
                    let p = prev->Some_0;
                    assert(p.index as int == first.index - 1);
                    if opt_le(Option::Some(p), s.committed) {
                        assert(p.index <= ic);
                        assert(false);
                    }
                    assert(local_id_match(s, p));
                    assert(s.log[bpos].log_id == p);
                    assert(log_id_lt(p, first));
                }
            }
        }

        // ids grow strictly across the whole new log
        assert forall|j: int, i: int| 0 <= j < i < s3.log.len() implies log_id_lt(
            #[trigger] s3.log[j].log_id,
            #[trigger] s3.log[i].log_id,
        ) by {
            let n2 = s2.log.len() as int;
            if i < n2 {
                assert(log_id_lt(s2.log[j].log_id, s2.log[i].log_id));
            } else if j >= n2 {
                assert(s3.log[j] == entries[k + (j - n2)]);
                assert(s3.log[i] == entries[k + (i - n2)]);
                assert(log_id_lt(entries[k + (j - n2)].log_id, entries[k + (i - n2)].log_id));
            } else {
                assert(s3.log[j] == s2.log[j]);
                assert(s3.log[i] == suffix[i - n2]);
                if j < n2 - 1 {
                    assert(log_id_lt(s2.log[j].log_id, s2.log[n2 - 1].log_id));
                }
                assert(log_id_lt(s2.log[n2 - 1].log_id, first));
                if i > n2 {
                    assert(log_id_lt(entries[k].log_id, entries[k + (i - n2)].log_id));
                }
            }
        }

        // the watermarks and the applied prefix survive untouched
        assert(s3.committed == s.committed);
        match s.committed {
            Option::Some(c) => {
                assert(ic <= s2.log.len());
                assert(s3.log[c.index - 1] == s.log[c.index - 1]);
                match s.last_applied {
                    Option::Some(a) => {
                        lemma_lex_index_order(s, a, c);
                        assert(s3.log[a.index - 1] == s.log[a.index - 1]);
                    },
                    Option::None => {},
                }
                match s.pending_apply {
                    Option::Some(q) => {
                        lemma_lex_index_order(s, q, c);
                        assert(s3.log[q.index - 1] == s.log[q.index - 1]);
                    },
                    Option::None => {},
                }
                // committed stays at or below the new tail
                let m = s3.log.len() as int;
                assert(c.index < m + 1);
                if c.index < m {
                    assert(log_id_lt(s3.log[c.index - 1].log_id, s3.log[m - 1].log_id));
                }
            },
            Option::None => {},
        }
        assert(s3.applied =~= s3.log.take(opt_index(s3.last_applied)));

        // the membership the longer log determines is what got activated
        lemma_last_membership_append(s2.log, suffix);
        assert(s3.last_log_id == last_of(s3.log));

        assert(core_wf(s3));

        // every id the batch carried is now in the log
        assert forall|m: int| 0 <= m < entries.len() implies local_id_match(
            s3,
            (#[trigger] entries[m]).log_id,
        ) by {
            let idx = entries[m].log_id.index as int;
            assert(idx == opt_index(prev) + 1 + m);
            if m >= k {
                assert(s3.log[s2.log.len() + (m - k)] == suffix[m - k]);
                assert(suffix[m - k] == entries[m]);
            } else {
                assert(local_id_match(s, entries[m].log_id));
                assert(idx < first.index);
                assert(s3.log[idx - 1] == s.log[idx - 1]);
            }
        }
    }
}

/// The whole append/apply phase preserves the node invariant; the
/// commit watermark never moves back, the committed prefix of the log
/// is never deleted or replaced, and on acceptance the log holds every
/// id the batch carried.
pub proof fn lemma_append_apply_wf(
    s: CoreV,
    prev: Option<LogId>,
    entries: Seq<EntryV>,
    c: Option<LogId>,
)
    requires
        core_wf(s),
        batch_wf(prev, entries),
        batch_consistent(s, prev, entries),
        commit_candidate_ok(s, prev, entries, c),
    ensures
        core_wf(append_apply_spec(s, prev, entries, c).0),
        opt_le(s.committed, append_apply_spec(s, prev, entries, c).0.committed),
        append_apply_spec(s, prev, entries, c).0.log.len() >= opt_index(s.committed),
        forall|j: int|
            0 <= j < opt_index(s.committed) ==> #[trigger] append_apply_spec(
                s,
                prev,
                entries,
                c,
            ).0.log[j] == s.log[j],
        consistency_ok(s, prev) ==> forall|m: int|
            0 <= m < entries.len() ==> local_id_match(
                append_apply_spec(s, prev, entries, c).0,
                (#[trigger] entries[m]).log_id,
            ),
        append_apply_spec(s, prev, entries, c).0.applied == s.applied,
        append_apply_spec(s, prev, entries, c).0.last_applied == s.last_applied,
{
    let post = append_apply_spec(s, prev, entries, c).0;
    if !consistency_ok(s, prev) {
        match prev {
            Option::Some(p) => {
                lemma_conflict_branch_wf(s, p);
            },
            Option::None => {},
        }
    } else {
        lemma_success_appended_wf(s, prev, entries);
        let s3 = success_appended(s, entries);
        let s4 = success_committed(s, entries, c);
        let ic = opt_index(s.committed);

        // the advanced watermark names an entry of the new log
        if !opt_le(c, s.committed) {
            crate::log_id::lemma_opt_le_total(c, s.committed, s.committed);
            assert(s4.committed == c);
            let cc = c->Some_0;
            let k = skip_count(s, entries);
            lemma_success_shape(s, prev, entries);
            if cc.index <= opt_index(prev) {
                assert(local_id_match(s, cc));
                if entries.len() > k {
                    let first = entries[k].log_id;
                    assert(cc.index < first.index);
                    assert(s3.log[cc.index - 1] == s.log[cc.index - 1]);
                } else {
                    assert(s3 == s);
                }
                assert(local_id_match(s3, cc));
            } else {
                assert(entries.len() > 0);
                let m = cc.index - (opt_index(prev) + 1);
                assert(entries[m].log_id == cc);
                assert(local_id_match(s3, cc));
            }
            // ordered against what is applied and what ends the log
            crate::log_id::lemma_opt_le_total(s.last_applied, s.committed, c);
            match s3.last_log_id {
                Option::Some(last) => {
                    assert(last_of(s3.log) == s3.last_log_id);
                    assert(local_id_match(s3, last));
                    lemma_lex_index_order(s3, cc, last);
                },
                Option::None => {
                    assert(false);
                },
            }
            match s.pending_apply {
                Option::Some(q) => {
                    crate::log_id::lemma_opt_le_total(
                        Option::Some(q),
                        s.committed,
                        c,
                    );
                },
                Option::None => {},
            }
            assert(core_wf(s4));
        } else {
            assert(s4.committed == s.committed);
            assert(s4 == s3);
        }
        crate::log_id::lemma_opt_le_total(s.committed, c, c);
        lemma_replicate_wf(s4);
        assert(post == replicate_decision_spec(s4));
    }
}

} // verus!
