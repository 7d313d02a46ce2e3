//! Log entry identifiers and their ordering.

use vstd::prelude::*;

verus! {

/// Identifies a log entry by the term in which it was created and its
/// position in the log, ordered lexicographically by `(term, index)`.
/// `index == 0` is reserved to mean "no entry".
#[derive(Clone, Copy, PartialEq, Eq, Structural, Debug)]
pub struct LogId {
    pub term: u64,
    pub index: u64,
}

/// Lexicographic order on `(term, index)`.
pub open spec fn log_id_le(a: LogId, b: LogId) -> bool {
    a.term < b.term || (a.term == b.term && a.index <= b.index)
}

/// Strict lexicographic order on `(term, index)`.
pub open spec fn log_id_lt(a: LogId, b: LogId) -> bool {
    log_id_le(a, b) && a != b
}

/// Order on optional log ids: `None` sorts below any `Some`.
pub open spec fn opt_le(a: Option<LogId>, b: Option<LogId>) -> bool {
    match (a, b) {
        (Option::None, _) => true,
        (Option::Some(_), Option::None) => false,
        (Option::Some(x), Option::Some(y)) => log_id_le(x, y),
    }
}

/// Strict order on optional log ids.
pub open spec fn opt_lt(a: Option<LogId>, b: Option<LogId>) -> bool {
    opt_le(a, b) && a != b
}

/// The smaller of two optional log ids.
pub open spec fn opt_min(a: Option<LogId>, b: Option<LogId>) -> Option<LogId> {
    if opt_le(a, b) {
        a
    } else {
        b
    }
}

/// The larger of two optional log ids.
pub open spec fn opt_max(a: Option<LogId>, b: Option<LogId>) -> Option<LogId> {
    if opt_le(a, b) {
        b
    } else {
        a
    }
}

/// The index a watermark refers to; 0 stands for "no entry".
pub open spec fn opt_index(a: Option<LogId>) -> int {
    match a {
        Option::None => 0,
        Option::Some(x) => x.index as int,
    }
}

impl LogId {
    /// Decides `log_id_le` on concrete ids.
    pub fn le(self, other: LogId) -> (r: bool)
        ensures
            r == log_id_le(self, other),
    {
        self.term < other.term || (self.term == other.term && self.index <= other.index)
    }
}

/// Decides `opt_le` on concrete optional ids.
pub fn opt_le_ex(a: Option<LogId>, b: Option<LogId>) -> (r: bool)
    ensures
        r == opt_le(a, b),
{
    match (a, b) {
        (Option::None, _) => true,
        (Option::Some(_), Option::None) => false,
        (Option::Some(x), Option::Some(y)) => x.le(y),
    }
}

/// Decides `opt_lt` on concrete optional ids.
pub fn opt_lt_ex(a: Option<LogId>, b: Option<LogId>) -> (r: bool)
    ensures
        r == opt_lt(a, b),
{
    match (a, b) {
        (Option::None, Option::None) => false,
        (Option::None, Option::Some(_)) => true,
        (Option::Some(_), Option::None) => false,
        (Option::Some(x), Option::Some(y)) => x.le(y) && !(x.term == y.term && x.index == y.index),
    }
}

/// Returns the smaller of two optional ids, as `opt_min` has it.
pub fn opt_min_ex(a: Option<LogId>, b: Option<LogId>) -> (r: Option<LogId>)
    ensures
        r == opt_min(a, b),
{
    if opt_le_ex(a, b) {
        a
    } else {
        b
    }
}

/// Returns the larger of two optional ids, as `opt_max` has it.
pub fn opt_max_ex(a: Option<LogId>, b: Option<LogId>) -> (r: Option<LogId>)
    ensures
        r == opt_max(a, b),
{
    if opt_le_ex(a, b) {
        b
    } else {
        a
    }
}

/// `opt_le` is a total order on optional log ids.
pub proof fn lemma_opt_le_total(a: Option<LogId>, b: Option<LogId>, c: Option<LogId>)
    ensures
        opt_le(a, b) || opt_le(b, a),
        opt_le(a, b) && opt_le(b, a) ==> a == b,
        opt_le(a, b) && opt_le(b, c) ==> opt_le(a, c),
{
}

} // verus!
