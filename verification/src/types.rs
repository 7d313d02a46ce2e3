//! Entries, payloads, membership, hard state, and the RPC types.

use vstd::prelude::*;

use crate::log_id::LogId;

verus! {

/// A membership configuration: the set of node identifiers in force.
/// The replication core treats its contents as opaque; it only carries
/// them and records which log entry introduced them.
#[derive(Debug)]
pub struct Config {
    pub members: Vec<u64>,
}

/// Mathematical value of a `Config`.
pub ghost struct ConfigV {
    pub members: Seq<u64>,
}

impl View for Config {
    type V = ConfigV;

    open spec fn view(&self) -> ConfigV {
        ConfigV { members: self.members@ }
    }
}

impl Config {
    /// Returns a value-equal copy of this configuration.
    pub fn duplicate(&self) -> (r: Config)
        ensures
            r@ == self@,
    {
        let mut members: Vec<u64> = Vec::new();
        let mut i: usize = 0;
        while i < self.members.len()
            invariant
                i <= self.members.len(),
                members@ == self.members@.take(i as int),
            decreases self.members.len() - i,
        {
            members.push(self.members[i]);
            i = i + 1;
        }
        proof {
            assert(self.members@.take(self.members@.len() as int) == self.members@);
        }
        Config { members }
    }
}

/// What a log entry carries.
#[derive(Debug)]
pub enum Payload {
    /// A no-op entry, written by a leader at the start of its term.
    Blank,
    /// An application command.
    Normal(u64),
    /// A membership change.
    Membership(Config),
}

/// Mathematical value of a `Payload`.
pub ghost enum PayloadV {
    Blank,
    Normal(u64),
    Membership(ConfigV),
}

impl View for Payload {
    type V = PayloadV;

    open spec fn view(&self) -> PayloadV {
        match self {
            Payload::Blank => PayloadV::Blank,
            Payload::Normal(d) => PayloadV::Normal(*d),
            Payload::Membership(c) => PayloadV::Membership(c@),
        }
    }
}

impl Payload {
    /// Returns a value-equal copy of this payload.
    pub fn duplicate(&self) -> (r: Payload)
        ensures
            r@ == self@,
    {
        match self {
            Payload::Blank => Payload::Blank,
            Payload::Normal(d) => Payload::Normal(*d),
            Payload::Membership(c) => Payload::Membership(c.duplicate()),
        }
    }
}

/// One log entry: its identifier and its payload. Entries are immutable
/// once created.
#[derive(Debug)]
pub struct Entry {
    pub log_id: LogId,
    pub payload: Payload,
}

/// Mathematical value of an `Entry`.
pub ghost struct EntryV {
    pub log_id: LogId,
    pub payload: PayloadV,
}

impl View for Entry {
    type V = EntryV;

    open spec fn view(&self) -> EntryV {
        EntryV { log_id: self.log_id, payload: self.payload@ }
    }
}

impl Entry {
    /// Returns a value-equal copy of this entry.
    pub fn duplicate(&self) -> (r: Entry)
        ensures
            r@ == self@,
    {
        Entry { log_id: self.log_id, payload: self.payload.duplicate() }
    }
}

/// The membership configuration a node believes is in force, together
/// with the log position that introduced it.
#[derive(Debug)]
pub struct EffectiveMembership {
    pub log_id: LogId,
    pub config: Config,
}

/// Mathematical value of an `EffectiveMembership`.
pub ghost struct EffectiveMembershipV {
    pub log_id: LogId,
    pub config: ConfigV,
}

impl View for EffectiveMembership {
    type V = EffectiveMembershipV;

    open spec fn view(&self) -> EffectiveMembershipV {
        EffectiveMembershipV { log_id: self.log_id, config: self.config@ }
    }
}

/// The effective membership a node assumes before any membership entry
/// exists in its log: itself alone, at the reserved position.
pub open spec fn initial_membership(id: u64) -> EffectiveMembershipV {
    EffectiveMembershipV {
        log_id: LogId { term: 0, index: 0 },
        config: ConfigV { members: seq![id] },
    }
}

impl EffectiveMembership {
    /// Builds the initial membership for a node: itself alone.
    pub fn new_initial(id: u64) -> (r: EffectiveMembership)
        ensures
            r@ == initial_membership(id),
    {
        let mut members: Vec<u64> = Vec::new();
        members.push(id);
        proof {
            assert(members@ == seq![id]);
        }
        EffectiveMembership { log_id: LogId { term: 0, index: 0 }, config: Config { members } }
    }

    /// Returns a value-equal copy of this membership.
    pub fn duplicate(&self) -> (r: EffectiveMembership)
        ensures
            r@ == self@,
    {
        EffectiveMembership { log_id: self.log_id, config: self.config.duplicate() }
    }
}

/// The durable part of a node's state: term and vote.
#[derive(Clone, Copy, PartialEq, Eq, Structural, Debug)]
pub struct HardState {
    pub current_term: u64,
    pub voted_for: Option<u64>,
}

/// The role a node is in or is transitioning to.
#[derive(Clone, Copy, PartialEq, Eq, Structural, Debug)]
pub enum NodeState {
    Leader,
    Candidate,
    Follower,
    Learner,
}

impl NodeState {
    /// True of the follower role.
    pub fn is_follower(self) -> (r: bool)
        ensures
            r == (self is Follower),
    {
        match self {
            NodeState::Follower => true,
            _ => false,
        }
    }

    /// True of the learner (non-voter) role.
    pub fn is_learner(self) -> (r: bool)
        ensures
            r == (self is Learner),
    {
        match self {
            NodeState::Learner => true,
            _ => false,
        }
    }
}

/// A leader's replication request: also the heartbeat when `entries`
/// is empty. `prev_log_id` is the id immediately preceding `entries`;
/// `None` asserts the entries begin at the origin.
#[derive(Debug)]
pub struct AppendEntriesRequest {
    pub term: u64,
    pub leader_id: u64,
    pub prev_log_id: Option<LogId>,
    pub entries: Vec<Entry>,
    pub leader_commit: Option<LogId>,
}

/// Mathematical value of an `AppendEntriesRequest`.
pub ghost struct AppendEntriesRequestV {
    pub term: u64,
    pub leader_id: u64,
    pub prev_log_id: Option<LogId>,
    pub entries: Seq<EntryV>,
    pub leader_commit: Option<LogId>,
}

impl View for AppendEntriesRequest {
    type V = AppendEntriesRequestV;

    open spec fn view(&self) -> AppendEntriesRequestV {
        AppendEntriesRequestV {
            term: self.term,
            leader_id: self.leader_id,
            prev_log_id: self.prev_log_id,
            entries: self.entries@.map(|i: int, e: Entry| e@),
            leader_commit: self.leader_commit,
        }
    }
}

/// The follower's answer. `term` is its post-handling term, so a stale
/// leader can step down. `conflict` is meaningful only with
/// `success == false`: it is false for a stale-term rejection and true
/// for a consistency failure.
#[derive(Clone, Copy, PartialEq, Eq, Structural, Debug)]
pub struct AppendEntriesResponse {
    pub term: u64,
    pub success: bool,
    pub conflict: bool,
}

} // verus!
