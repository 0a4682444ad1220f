//! Rollup counters derived from event log contents. Rollups for several
//! streams are combined with [`merged`], an associative and commutative
//! operation, so a global rollup can be recomputed from per-chat partial
//! sums in any order.

use crate::ids::TimestampMillis;
use vstd::prelude::*;

verus! {

/// Counter saturating addition: sticks at `u64::MAX` instead of wrapping.
pub open spec fn sat_add(a: u64, b: u64) -> u64 {
    if a + b > u64::MAX {
        u64::MAX
    } else {
        (a + b) as u64
    }
}

/// The larger of two timestamps.
pub open spec fn max_ts(a: TimestampMillis, b: TimestampMillis) -> TimestampMillis {
    if a >= b {
        a
    } else {
        b
    }
}

/// Per-stream rollup counters, recomputed incrementally or on demand.
#[derive(Clone, Copy, PartialEq, Eq, Structural, Debug)]
pub struct ChatMetrics {
    pub messages: u64,
    pub edits: u64,
    pub deletions: u64,
    pub undeletions: u64,
    pub reactions: u64,
    pub last_active: TimestampMillis,
}

/// The rollup of an empty collection of streams: the unit of [`merged`].
pub open spec fn empty_metrics() -> ChatMetrics {
    ChatMetrics {
        messages: 0,
        edits: 0,
        deletions: 0,
        undeletions: 0,
        reactions: 0,
        last_active: 0,
    }
}

/// Combination of two rollups: counters add (saturating) and the
/// last-activity timestamps take their maximum.
pub open spec fn merged(a: ChatMetrics, b: ChatMetrics) -> ChatMetrics {
    ChatMetrics {
        messages: sat_add(a.messages, b.messages),
        edits: sat_add(a.edits, b.edits),
        deletions: sat_add(a.deletions, b.deletions),
        undeletions: sat_add(a.undeletions, b.undeletions),
        reactions: sat_add(a.reactions, b.reactions),
        last_active: max_ts(a.last_active, b.last_active),
    }
}

/// Left fold of [`merged`] over a sequence of rollups.
pub open spec fn fold_merged(s: Seq<ChatMetrics>) -> ChatMetrics
    decreases s.len(),
{
    if s.len() == 0 {
        empty_metrics()
    } else {
        merged(fold_merged(s.drop_last()), s.last())
    }
}

impl ChatMetrics {
    pub fn new() -> (r: ChatMetrics)
        ensures
            r == empty_metrics(),
    {
        ChatMetrics {
            messages: 0,
            edits: 0,
            deletions: 0,
            undeletions: 0,
            reactions: 0,
            last_active: 0,
        }
    }

    /// Fold another rollup into this one.
    pub fn merge(&mut self, other: &ChatMetrics)
        ensures
            *final(self) == merged(*old(self), *other),
    {
        self.messages = self.messages.saturating_add(other.messages);
        self.edits = self.edits.saturating_add(other.edits);
        self.deletions = self.deletions.saturating_add(other.deletions);
        self.undeletions = self.undeletions.saturating_add(other.undeletions);
        self.reactions = self.reactions.saturating_add(other.reactions);
        self.last_active = if self.last_active >= other.last_active {
            self.last_active
        } else {
            other.last_active
        };
    }
}

impl Default for ChatMetrics {
    fn default() -> (r: ChatMetrics)
        ensures
            r == empty_metrics(),
    {
        ChatMetrics::new()
    }
}

/// Law: combining rollups is commutative, so partial sums may arrive in any
/// order.
pub proof fn lemma_merged_commutative(a: ChatMetrics, b: ChatMetrics)
    ensures
        merged(a, b) == merged(b, a),
{
}

/// Law: combining rollups is associative, so partial sums may be grouped in
/// any order.
pub proof fn lemma_merged_associative(a: ChatMetrics, b: ChatMetrics, c: ChatMetrics)
    ensures
        merged(merged(a, b), c) == merged(a, merged(b, c)),
{
}

/// Law: the empty rollup is the unit of [`merged`].
pub proof fn lemma_merged_empty(a: ChatMetrics)
    ensures
        merged(empty_metrics(), a) == a,
        merged(a, empty_metrics()) == a,
{
}

} // verus!
