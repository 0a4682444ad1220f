//! Identifier and timestamp primitives shared by every component.

use vstd::prelude::*;

verus! {

/// A point in time, in milliseconds.
pub type TimestampMillis = u64;

/// Identifies a user.
pub type UserId = u64;

/// Identifies one conversation entity (a direct chat, a group or a channel).
pub type ChatId = u64;

/// Position of an event within one stream: monotonically increasing,
/// never reused.
pub type EventIndex = u64;

/// Position of a message within one stream: a secondary monotonic sequence
/// assigned only to message-producing events.
pub type MessageIndex = u64;

/// A reference to a conversation entity, as stored inside reply contexts.
#[derive(Clone, Copy, PartialEq, Eq, Structural, Debug)]
pub enum ChatRef {
    Direct(ChatId),
    Group(ChatId),
    Channel(ChatId, ChatId),
}

/// The identifier of the direct chat a user holds with a given counterpart.
pub open spec fn chat_id_of_counterpart(them: UserId) -> ChatId {
    them
}

/// Executable form of [`chat_id_of_counterpart`].
pub fn chat_id_from_user(them: UserId) -> (r: ChatId)
    ensures
        r == chat_id_of_counterpart(them),
{
    them
}

/// No identifier occurs twice.
pub open spec fn unique_u64s(s: Seq<u64>) -> bool {
    forall|a: int, b: int| 0 <= a < b < s.len() ==> s[a] != s[b]
}

/// How removing entry `i` changes which identifiers a unique list holds.
pub proof fn lemma_unique_u64s_remove(olds: Seq<u64>, i: int)
    requires
        0 <= i < olds.len(),
        unique_u64s(olds),
    ensures
        unique_u64s(olds.remove(i)),
        forall|u: u64| olds.remove(i).contains(u) ==> olds.contains(u),
        forall|u: u64| u != olds[i] && olds.contains(u) ==> olds.remove(i).contains(u),
        !olds.remove(i).contains(olds[i]),
{
    olds.remove_ensures(i);
    let news = olds.remove(i);
    assert forall|u: u64| news.contains(u) implies olds.contains(u) by {
        let k = choose|k: int| 0 <= k < news.len() && news[k] == u;
        if k < i {
            assert(olds[k] == u);
        } else {
            assert(olds[k + 1] == u);
        }
    }
    assert forall|u: u64| u != olds[i] && olds.contains(u) implies news.contains(u) by {
        let k = choose|k: int| 0 <= k < olds.len() && olds[k] == u;
        if k < i {
            assert(news[k] == u);
        } else {
            assert(news[k - 1] == u);
        }
    }
    assert forall|a: int, b: int| 0 <= a < b < news.len() implies news[a] != news[b] by {
        let oa: int = if a < i {
            a
        } else {
            a + 1
        };
        let ob: int = if b < i {
            b
        } else {
            b + 1
        };
        assert(news[a] == olds[oa]);
        assert(news[b] == olds[ob]);
    }
    if news.contains(olds[i]) {
        let k = choose|k: int| 0 <= k < news.len() && news[k] == olds[i];
        if k < i {
            assert(olds[k] == olds[i]);
        } else {
            assert(olds[k + 1] == olds[i]);
        }
    }
}

} // verus!
