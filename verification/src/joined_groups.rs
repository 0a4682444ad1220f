//! The downstream side of cross-entity notifications: a user's registry of
//! joined group chats. A group sends a one-way, fire-and-forget "member
//! joined" notification that may be retried, so applying it must be safe to
//! do twice: the registry records a chat only once, and a second application
//! changes nothing at all.

use crate::ids::{ChatId, TimestampMillis};
use vstd::prelude::*;

verus! {

/// One registry row: the chat and when the user joined it.
#[derive(Clone, Copy, PartialEq, Eq, Structural, Debug)]
pub struct JoinedGroup {
    pub chat_id: ChatId,
    pub joined_at: TimestampMillis,
}

/// A user's registry of joined groups.
pub struct JoinedGroups {
    pub groups: Vec<JoinedGroup>,
}

pub open spec fn seq_has_group(s: Seq<JoinedGroup>, chat_id: ChatId) -> bool {
    exists|i: int| 0 <= i < s.len() && s[i].chat_id == chat_id
}

/// The registry contents after one "member joined" notification: unchanged
/// when the chat is already recorded, else one appended row.
pub open spec fn spec_apply_joined(
    s: Seq<JoinedGroup>,
    chat_id: ChatId,
    now: TimestampMillis,
) -> Seq<JoinedGroup> {
    if seq_has_group(s, chat_id) {
        s
    } else {
        s.push(JoinedGroup { chat_id, joined_at: now })
    }
}

/// Law: applying the same "member joined" notification twice yields the same
/// end state as applying it once.
pub proof fn lemma_apply_joined_idempotent(s: Seq<JoinedGroup>, chat_id: ChatId, now: TimestampMillis)
    ensures
        spec_apply_joined(spec_apply_joined(s, chat_id, now), chat_id, now) == spec_apply_joined(
            s,
            chat_id,
            now,
        ),
{
    let once = spec_apply_joined(s, chat_id, now);
    if !seq_has_group(s, chat_id) {
        assert(once[s.len() as int].chat_id == chat_id);
        assert(seq_has_group(once, chat_id));
    }
}

impl JoinedGroups {
    /// One row per chat.
    pub open spec fn inv(&self) -> bool {
        forall|i: int, j: int|
            0 <= i < j < self.groups@.len() ==> self.groups@[i].chat_id != self.groups@[j].chat_id
    }

    pub open spec fn spec_has(&self, chat_id: ChatId) -> bool {
        seq_has_group(self.groups@, chat_id)
    }

    pub fn new() -> (r: JoinedGroups)
        ensures
            r.inv(),
            r.groups@ == Seq::<JoinedGroup>::empty(),
    {
        JoinedGroups { groups: Vec::new() }
    }

    pub fn has(&self, chat_id: ChatId) -> (r: bool)
        ensures
            r == self.spec_has(chat_id),
    {
        let n = self.groups.len();
        for i in 0..n
            invariant
                n == self.groups@.len(),
                forall|j: int| 0 <= j < i ==> self.groups@[j].chat_id != chat_id,
        {
            if self.groups[i].chat_id == chat_id {
                return true;
            }
        }
        false
    }

    pub fn len(&self) -> (r: usize)
        ensures
            r == self.groups@.len(),
    {
        self.groups.len()
    }

    /// Applies one "member joined" notification. Safe to apply twice: the
    /// second application is a no-op, per [`lemma_apply_joined_idempotent`].
    pub fn apply_member_joined(&mut self, chat_id: ChatId, now: TimestampMillis)
        requires
            old(self).inv(),
        ensures
            final(self).inv(),
            final(self).groups@ == spec_apply_joined(old(self).groups@, chat_id, now),
            final(self).spec_has(chat_id),
    {
        if !self.has(chat_id) {
            let ghost olds = self.groups@;
            self.groups.push(JoinedGroup { chat_id, joined_at: now });
            proof {
                let news = self.groups@;
                assert(news[olds.len() as int].chat_id == chat_id);
                assert forall|a: int, b: int|
                    0 <= a < b < news.len() implies news[a].chat_id != news[b].chat_id by {
                    if b < olds.len() {
                        assert(olds[a].chat_id != olds[b].chat_id);
                    } else {
                        assert(news[a] == olds[a]);
                        assert(!seq_has_group(olds, chat_id));
                    }
                }
            }
        }
    }
}

} // verus!
