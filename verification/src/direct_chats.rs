//! The per-user registry of direct chats: the live collection, a pinned
//! list stamped as a whole, an aggregate metrics rollup, and an append-only,
//! time-ordered tombstone log of removals. Delta synchronization filters the
//! live collection on last-modified timestamps and walks the tombstone log
//! backwards from its newest entry, so a sync is a bounded reverse scan, not
//! a full scan.

use crate::event_log::{
    is_message, stream_pushed, Event, EventLog, EventPayload, ReplyContext,
};
use crate::ids::{chat_id_from_user, chat_id_of_counterpart, ChatId, ChatRef, MessageIndex, TimestampMillis, UserId};
use crate::metrics::{fold_merged, max_ts, sat_add, ChatMetrics};
use crate::timestamped::Timestamped;
use vstd::prelude::*;

verus! {

/// What a message push needs from the caller.
#[derive(Clone, Copy, PartialEq, Eq, Structural, Debug)]
pub struct PushMessageArgs {
    pub sender: UserId,
    pub message_id: u64,
    pub content: u64,
    pub replies_to: Option<ReplyContext>,
    pub correlation_id: u64,
    pub now: TimestampMillis,
}

/// One direct conversation with a counterpart.
pub struct DirectChat {
    pub them: UserId,
    pub date_created: TimestampMillis,
    pub is_bot: bool,
    pub events: EventLog,
    pub read_by_me_up_to: Timestamped<Option<MessageIndex>>,
    pub read_by_them_up_to: Timestamped<Option<MessageIndex>>,
    pub unread_message_index_map: Vec<(MessageIndex, MessageIndex)>,
    pub metrics: ChatMetrics,
    pub last_updated: TimestampMillis,
}

/// A read-up-to marker advanced to `mi` (markers never move backwards).
pub open spec fn mark_read_spec(
    cur: Timestamped<Option<MessageIndex>>,
    mi: MessageIndex,
    now: TimestampMillis,
) -> Timestamped<Option<MessageIndex>> {
    match cur.value {
        Some(v) => if v < mi {
            Timestamped { value: Some(mi), timestamp: now }
        } else {
            cur
        },
        None => Timestamped { value: Some(mi), timestamp: now },
    }
}

/// A rollup after one more message at `now`.
pub open spec fn metrics_with_message(m: ChatMetrics, now: TimestampMillis) -> ChatMetrics {
    ChatMetrics {
        messages: sat_add(m.messages, 1),
        last_active: max_ts(m.last_active, now),
        ..m
    }
}

impl DirectChat {
    pub open spec fn chat_id(&self) -> ChatId {
        chat_id_of_counterpart(self.them)
    }

    pub open spec fn inv(&self) -> bool {
        self.events.inv()
    }

    pub open spec fn spec_has_updates_since(&self, since: TimestampMillis) -> bool {
        self.last_updated > since
    }

    /// An empty conversation with `them`, created lazily on first message.
    pub fn new(them: UserId, is_bot: bool, now: TimestampMillis) -> (r: DirectChat)
        ensures
            r.inv(),
            r.them == them,
            r.is_bot == is_bot,
            r.date_created == now,
            r.last_updated == now,
            r.events.main.events@ == Seq::<Event>::empty(),
            r.events.main.start_event_index == 0,
            r.events.main.start_message_index == 0,
            r.events.threads@ == Seq::<crate::event_log::ThreadStream>::empty(),
            r.read_by_me_up_to == (Timestamped {
                value: None::<MessageIndex>,
                timestamp: 0u64,
            }),
            r.read_by_them_up_to == (Timestamped {
                value: None::<MessageIndex>,
                timestamp: 0u64,
            }),
            r.unread_message_index_map@ == Seq::<(MessageIndex, MessageIndex)>::empty(),
            r.metrics == crate::metrics::empty_metrics(),
    {
        DirectChat {
            them,
            date_created: now,
            is_bot,
            events: EventLog::new(),
            read_by_me_up_to: Timestamped { value: None, timestamp: 0 },
            read_by_them_up_to: Timestamped { value: None, timestamp: 0 },
            unread_message_index_map: Vec::new(),
            metrics: ChatMetrics::new(),
            last_updated: now,
        }
    }

    pub fn has_updates_since(&self, since: TimestampMillis) -> (r: bool)
        ensures
            r == self.spec_has_updates_since(since),
    {
        self.last_updated > since
    }

    /// Advances the chosen read-up-to marker; markers never move backwards.
    pub fn mark_read_up_to(&mut self, mi: MessageIndex, me: bool, now: TimestampMillis)
        ensures
            me ==> final(self).read_by_me_up_to == mark_read_spec(
                old(self).read_by_me_up_to,
                mi,
                now,
            ) && final(self).read_by_them_up_to == old(self).read_by_them_up_to,
            !me ==> final(self).read_by_them_up_to == mark_read_spec(
                old(self).read_by_them_up_to,
                mi,
                now,
            ) && final(self).read_by_me_up_to == old(self).read_by_me_up_to,
            *final(self) == (DirectChat {
                read_by_me_up_to: final(self).read_by_me_up_to,
                read_by_them_up_to: final(self).read_by_them_up_to,
                ..*old(self)
            }),
    {
        if me {
            let advance: bool = match self.read_by_me_up_to.value {
                Some(v) => v < mi,
                None => true,
            };
            if advance {
                self.read_by_me_up_to = Timestamped { value: Some(mi), timestamp: now };
            }
        } else {
            let advance: bool = match self.read_by_them_up_to.value {
                Some(v) => v < mi,
                None => true,
            };
            if advance {
                self.read_by_them_up_to = Timestamped { value: Some(mi), timestamp: now };
            }
        }
    }
}

/// How a chat changes when one message is pushed into its main stream.
pub open spec fn chat_pushed(
    pre: DirectChat,
    post: DirectChat,
    e: Event,
    sent_by_me: bool,
    their_message_index: Option<MessageIndex>,
    args: PushMessageArgs,
) -> bool {
    &&& stream_pushed(
        pre.events.main,
        post.events.main,
        e,
        EventPayload::Message {
            message_id: args.message_id,
            sender: args.sender,
            content: args.content,
            replies_to: args.replies_to,
        },
        args.correlation_id,
        None,
        args.now,
    )
    &&& post.events.threads@ == pre.events.threads@
    &&& post.them == pre.them
    &&& post.date_created == pre.date_created
    &&& post.is_bot == pre.is_bot
    &&& post.metrics == metrics_with_message(pre.metrics, args.now)
    &&& post.last_updated == args.now
    &&& (sent_by_me ==> post.read_by_me_up_to == mark_read_spec(
        pre.read_by_me_up_to,
        e.message_index->0,
        args.now,
    ) && post.read_by_them_up_to == pre.read_by_them_up_to)
    &&& (!sent_by_me ==> post.read_by_them_up_to == mark_read_spec(
        pre.read_by_them_up_to,
        e.message_index->0,
        args.now,
    ) && post.read_by_me_up_to == pre.read_by_me_up_to)
    &&& (match their_message_index {
        Some(t) => if !sent_by_me {
            post.unread_message_index_map@ == pre.unread_message_index_map@.push(
                (e.message_index->0, t),
            )
        } else {
            post.unread_message_index_map@ == pre.unread_message_index_map@
        },
        None => post.unread_message_index_map@ == pre.unread_message_index_map@,
    })
}

/// Strict time-then-id order on tombstone entries.
pub open spec fn tomb_lt(a: (TimestampMillis, ChatId), b: (TimestampMillis, ChatId)) -> bool {
    a.0 < b.0 || (a.0 == b.0 && a.1 < b.1)
}

/// The identifiers of the chats changed since `since`, in storage order.
pub open spec fn spec_updated_ids(s: Seq<DirectChat>, since: TimestampMillis) -> Seq<ChatId>
    decreases s.len(),
{
    if s.len() == 0 {
        Seq::empty()
    } else {
        spec_updated_ids(s.drop_last(), since) + (if s.last().last_updated > since {
            seq![s.last().chat_id()]
        } else {
            Seq::empty()
        })
    }
}

/// The identifiers whose removal tombstone is newer than `since`, newest
/// first: a reverse walk of the tombstone log that stops at the horizon.
pub open spec fn spec_removed_since(
    s: Seq<(TimestampMillis, ChatId)>,
    since: TimestampMillis,
) -> Seq<ChatId>
    decreases s.len(),
{
    if s.len() == 0 {
        Seq::empty()
    } else if s.last().0 > since {
        seq![s.last().1] + spec_removed_since(s.drop_last(), since)
    } else {
        Seq::empty()
    }
}

/// Law: querying with a later horizon returns a subset: every identifier in
/// `removed_since(ts2)` is in `removed_since(ts1)` whenever `ts1 <= ts2`.
pub proof fn lemma_removed_since_monotone(
    s: Seq<(TimestampMillis, ChatId)>,
    ts1: TimestampMillis,
    ts2: TimestampMillis,
)
    requires
        ts1 <= ts2,
    ensures
        forall|c: ChatId|
            spec_removed_since(s, ts2).contains(c) ==> spec_removed_since(s, ts1).contains(c),
    decreases s.len(),
{
    if s.len() == 0 {
    } else if s.last().0 <= ts2 {
    } else {
        lemma_removed_since_monotone(s.drop_last(), ts1, ts2);
        let r2 = spec_removed_since(s, ts2);
        let r1 = spec_removed_since(s, ts1);
        let q2 = spec_removed_since(s.drop_last(), ts2);
        let q1 = spec_removed_since(s.drop_last(), ts1);
        assert forall|c: ChatId| r2.contains(c) implies r1.contains(c) by {
            let k = choose|k: int| 0 <= k < r2.len() && r2[k] == c;
            if k == 0 {
                assert(r1[0] == c);
            } else {
                assert(q2[k - 1] == c);
                assert(q2.contains(c));
                assert(q1.contains(c));
                let j = choose|j: int| 0 <= j < q1.len() && q1[j] == c;
                assert(r1[j + 1] == c);
            }
        }
    }
}

/// Law: against a tombstone log sorted by time, `removed_since(ts)` returns
/// exactly the identifiers whose tombstone timestamp is strictly greater
/// than `ts`.
pub proof fn lemma_removed_since_complete(
    s: Seq<(TimestampMillis, ChatId)>,
    since: TimestampMillis,
)
    requires
        forall|i: int, j: int| 0 <= i < j < s.len() ==> tomb_lt(s[i], s[j]),
    ensures
        forall|c: ChatId|
            spec_removed_since(s, since).contains(c) <==> exists|i: int|
                0 <= i < s.len() && s[i].1 == c && s[i].0 > since,
    decreases s.len(),
{
    if s.len() == 0 {
    } else {
        assert forall|i: int, j: int|
            0 <= i < j < s.drop_last().len() implies tomb_lt(s.drop_last()[i], s.drop_last()[j]) by {
            assert(tomb_lt(s[i], s[j]));
        }
        lemma_removed_since_complete(s.drop_last(), since);
        let r = spec_removed_since(s, since);
        let q = spec_removed_since(s.drop_last(), since);
        if s.last().0 > since {
            assert forall|c: ChatId| r.contains(c) implies exists|i: int|
                0 <= i < s.len() && s[i].1 == c && s[i].0 > since by {
                let k = choose|k: int| 0 <= k < r.len() && r[k] == c;
                if k == 0 {
                    assert(s[s.len() - 1].1 == c && s[s.len() - 1].0 > since);
                } else {
                    assert(q[k - 1] == c);
                    assert(q.contains(c));
                    let i = choose|i: int|
                        0 <= i < s.drop_last().len() && s.drop_last()[i].1 == c && s.drop_last()[i].0
                            > since;
                    assert(s[i].1 == c && s[i].0 > since);
                }
            }
            assert forall|c: ChatId|
                exists|i: int| 0 <= i < s.len() && s[i].1 == c && s[i].0 > since implies r.contains(
                c,
            ) by {
                let i = choose|i: int| 0 <= i < s.len() && s[i].1 == c && s[i].0 > since;
                if i == s.len() - 1 {
                    assert(r[0] == c);
                } else {
                    assert(s.drop_last()[i].1 == c && s.drop_last()[i].0 > since);
                    assert(q.contains(c));
                    let j = choose|j: int| 0 <= j < q.len() && q[j] == c;
                    assert(r[j + 1] == c);
                }
            }
        } else {
            // The newest tombstone is already at or before the horizon, so by
            // sortedness every entry is.
            assert forall|i: int| 0 <= i < s.len() implies s[i].0 <= since by {
                if i < s.len() - 1 {
                    assert(tomb_lt(s[i], s[s.len() - 1]));
                }
            }
        }
    }
}

/// The roster of direct chats of one user, with its delta-sync surfaces.
pub struct DirectChats {
    pub direct_chats: Vec<DirectChat>,
    pub pinned: Timestamped<Vec<ChatId>>,
    pub metrics: ChatMetrics,
    pub chats_removed: Vec<(TimestampMillis, ChatId)>,
}

/// What a sync query returns when anything changed.
pub struct RegistryUpdates {
    pub updated: Vec<ChatId>,
    pub removed: Vec<ChatId>,
    pub pinned: Option<Vec<ChatId>>,
}

impl DirectChats {
    /// Well-formedness: one chat per counterpart, each chat's log
    /// well-formed, the tombstone log strictly sorted by time then id, and
    /// no duplicate pinned entry.
    pub open spec fn inv(&self) -> bool {
        &&& forall|i: int, j: int|
            0 <= i < j < self.direct_chats@.len() ==> self.direct_chats@[i].them
                != self.direct_chats@[j].them
        &&& forall|i: int| 0 <= i < self.direct_chats@.len() ==> (#[trigger] self.direct_chats@[i]).inv()
        &&& forall|i: int, j: int|
            0 <= i < j < self.chats_removed@.len() ==> tomb_lt(
                self.chats_removed@[i],
                self.chats_removed@[j],
            )
        &&& forall|i: int, j: int|
            0 <= i < j < self.pinned.value@.len() ==> self.pinned.value@[i] != self.pinned.value@[j]
    }

    pub open spec fn spec_has(&self, chat_id: ChatId) -> bool {
        exists|i: int| 0 <= i < self.direct_chats@.len() && self.direct_chats@[i].chat_id() == chat_id
    }

    pub open spec fn spec_any_updated(&self, since: TimestampMillis) -> bool {
        ||| exists|i: int|
            0 <= i < self.direct_chats@.len() && (#[trigger] self.direct_chats@[i]).last_updated
                > since
        ||| self.pinned.timestamp > since
        ||| (self.chats_removed@.len() > 0 && self.chats_removed@.last().0 > since)
    }

    /// An empty registry.
    pub fn new() -> (r: DirectChats)
        ensures
            r.inv(),
            r.direct_chats@ == Seq::<DirectChat>::empty(),
            r.pinned.value@ == Seq::<ChatId>::empty(),
            r.pinned.timestamp == 0,
            r.metrics == crate::metrics::empty_metrics(),
            r.chats_removed@ == Seq::<(TimestampMillis, ChatId)>::empty(),
    {
        DirectChats {
            direct_chats: Vec::new(),
            pinned: Timestamped { value: Vec::new(), timestamp: 0 },
            metrics: ChatMetrics::new(),
            chats_removed: Vec::new(),
        }
    }

    /// Where the chat with this identifier is stored, if present.
    fn index_of(&self, chat_id: ChatId) -> (r: Option<usize>)
        ensures
            r matches Some(i) ==> i < self.direct_chats@.len()
                && self.direct_chats@[i as int].chat_id() == chat_id,
            r is Some <==> self.spec_has(chat_id),
    {
        let n = self.direct_chats.len();
        for i in 0..n
            invariant
                n == self.direct_chats@.len(),
                forall|j: int| 0 <= j < i ==> self.direct_chats@[j].chat_id() != chat_id,
        {
            if self.direct_chats[i].them == chat_id {
                return Some(i);
            }
        }
        None
    }

    pub fn get(&self, chat_id: ChatId) -> (r: Option<&DirectChat>)
        ensures
            r is Some <==> self.spec_has(chat_id),
            r matches Some(c) ==> exists|i: int|
                0 <= i < self.direct_chats@.len() && *c == (#[trigger] self.direct_chats@[i]) && c.chat_id()
                    == chat_id,
    {
        match self.index_of(chat_id) {
            Some(i) => Some(&self.direct_chats[i]),
            None => None,
        }
    }

    /// Mutable access to one chat. The caller sees exactly how the registry
    /// relates to whatever it does through the reference.
    pub fn get_mut(&mut self, chat_id: ChatId) -> (r: Option<&mut DirectChat>)
        ensures
            r is Some <==> old(self).spec_has(chat_id),
            r is None ==> *final(self) == *old(self),
            r matches Some(c) ==> exists|i: int|
                0 <= i < old(self).direct_chats@.len() && *c == old(self).direct_chats@[i]
                    && c.chat_id() == chat_id && final(self).direct_chats@ == old(
                    self,
                ).direct_chats@.update(i, *final(c)) && final(self).pinned == old(self).pinned
                    && final(self).metrics == old(self).metrics && final(self).chats_removed@ == old(
                    self,
                ).chats_removed@,
    {
        match self.index_of(chat_id) {
            Some(i) => Some(&mut self.direct_chats[i]),
            None => None,
        }
    }

    pub fn has(&self, chat_id: ChatId) -> (r: bool)
        ensures
            r == self.spec_has(chat_id),
    {
        self.index_of(chat_id).is_some()
    }

    pub fn len(&self) -> (r: usize)
        ensures
            r == self.direct_chats@.len(),
    {
        self.direct_chats.len()
    }

    /// The chats, in storage order, for callers that walk all of them.
    pub fn iter(&self) -> (r: &Vec<DirectChat>)
        ensures
            *r == self.direct_chats,
    {
        &self.direct_chats
    }

    /// Identifiers of the chats changed since `since`: a filter on
    /// last-modified timestamps, not a diff. Callers fetch full snapshots of
    /// the named chats.
    pub fn updated_since(&self, since: TimestampMillis) -> (r: Vec<ChatId>)
        ensures
            r@ == spec_updated_ids(self.direct_chats@, since),
    {
        let n = self.direct_chats.len();
        let mut out: Vec<ChatId> = Vec::new();
        proof {
            assert(self.direct_chats@.take(0) =~= Seq::<DirectChat>::empty());
        }
        for i in 0..n
            invariant
                n == self.direct_chats@.len(),
                out@ == spec_updated_ids(self.direct_chats@.take(i as int), since),
        {
            if self.direct_chats[i].last_updated > since {
                out.push(self.direct_chats[i].them);
            }
            proof {
                assert(self.direct_chats@.take(i + 1).drop_last() =~= self.direct_chats@.take(
                    i as int,
                ));
                assert(self.direct_chats@.take(i + 1).last() == self.direct_chats@[i as int]);
            }
        }
        proof {
            assert(self.direct_chats@.take(n as int) =~= self.direct_chats@);
        }
        out
    }

    /// Identifiers removed after `since`, newest first: a bounded reverse
    /// scan of the tombstone log. Two queries with the same horizon against
    /// unchanged state return identical results, since the result is a
    /// function of the log and the horizon alone.
    pub fn removed_since(&self, since: TimestampMillis) -> (r: Vec<ChatId>)
        requires
            self.inv(),
        ensures
            r@ == spec_removed_since(self.chats_removed@, since),
    {
        let n = self.chats_removed.len();
        let mut out: Vec<ChatId> = Vec::new();
        let mut j: usize = n;
        proof {
            assert(self.chats_removed@.take(n as int) =~= self.chats_removed@);
            assert(out@ + spec_removed_since(self.chats_removed@.take(j as int), since)
                =~= spec_removed_since(self.chats_removed@, since));
        }
        while j > 0 && self.chats_removed[j - 1].0 > since
            invariant
                self.inv(),
                n == self.chats_removed@.len(),
                j <= n,
                spec_removed_since(self.chats_removed@, since) == out@ + spec_removed_since(
                    self.chats_removed@.take(j as int),
                    since,
                ),
            decreases j,
        {
            let ghost pre_out = out@;
            out.push(self.chats_removed[j - 1].1);
            j = j - 1;
            proof {
                let s = self.chats_removed@;
                assert(s.take(j + 1).drop_last() =~= s.take(j as int));
                assert(s.take(j + 1).last() == s[j as int]);
                assert(spec_removed_since(s.take(j + 1), since) =~= seq![s[j as int].1]
                    + spec_removed_since(s.take(j as int), since));
                assert(pre_out + spec_removed_since(s.take(j + 1), since) =~= out@
                    + spec_removed_since(s.take(j as int), since));
            }
        }
        proof {
            let s = self.chats_removed@;
            if j > 0 {
                assert(s.take(j as int).last() == s[j - 1]);
                assert(spec_removed_since(s.take(j as int), since) =~= Seq::<ChatId>::empty());
            } else {
                assert(s.take(0) =~= Seq::<(TimestampMillis, ChatId)>::empty());
            }
            assert(out@ + Seq::<ChatId>::empty() =~= out@);
        }
        out
    }

    /// The pinned list, in its user-chosen order.
    pub fn pinned(&self) -> (r: &Vec<ChatId>)
        ensures
            *r == self.pinned.value,
    {
        &self.pinned.value
    }

    /// The pinned list, but only if it changed after `since`. The list is
    /// stamped as a whole, since it is small and reordering is common.
    pub fn pinned_if_updated(&self, since: TimestampMillis) -> (r: Option<Vec<ChatId>>)
        ensures
            r is Some <==> self.pinned.timestamp > since,
            r matches Some(v) ==> v@ == self.pinned.value@,
    {
        if self.pinned.timestamp > since {
            Some(copy_ids(&self.pinned.value))
        } else {
            None
        }
    }

    /// Whether anything at all changed since `since`: the cheap signal that
    /// lets a client skip a redundant state merge.
    pub fn any_updated(&self, since: TimestampMillis) -> (r: bool)
        ensures
            r == self.spec_any_updated(since),
    {
        if self.pinned.timestamp > since {
            return true;
        }
        let m = self.chats_removed.len();
        if m > 0 && self.chats_removed[m - 1].0 > since {
            return true;
        }
        let n = self.direct_chats.len();
        for i in 0..n
            invariant
                n == self.direct_chats@.len(),
                forall|j: int| 0 <= j < i ==> (#[trigger] self.direct_chats@[j]).last_updated <= since,
        {
            if self.direct_chats[i].last_updated > since {
                return true;
            }
        }
        false
    }

    /// The whole sync surface in one call: `None` is the cheap "no updates"
    /// signal, distinct from an empty-but-present payload.
    pub fn updates(&self, since: TimestampMillis) -> (r: Option<RegistryUpdates>)
        requires
            self.inv(),
        ensures
            r is Some <==> self.spec_any_updated(since),
            r matches Some(u) ==> u.updated@ == spec_updated_ids(self.direct_chats@, since)
                && u.removed@ == spec_removed_since(self.chats_removed@, since) && (u.pinned
                is Some <==> self.pinned.timestamp > since) && (u.pinned matches Some(p) ==> p@
                == self.pinned.value@),
    {
        if !self.any_updated(since) {
            return None;
        }
        Some(
            RegistryUpdates {
                updated: self.updated_since(since),
                removed: self.removed_since(since),
                pinned: self.pinned_if_updated(since),
            },
        )
    }
}

/// Copies a list of identifiers.
fn copy_ids(v: &Vec<ChatId>) -> (r: Vec<ChatId>)
    ensures
        r@ == v@,
{
    let n = v.len();
    let mut out: Vec<ChatId> = Vec::new();
    for i in 0..n
        invariant
            n == v@.len(),
            out@ == v@.take(i as int),
    {
        out.push(v[i]);
        proof {
            assert(v@.take(i + 1) =~= v@.take(i as int).push(v@[i as int]));
        }
    }
    proof {
        assert(v@.take(n as int) =~= v@);
    }
    out
}

/// The fields a freshly created chat holds (its collections all empty).
pub open spec fn fresh_chat(c: DirectChat, them: UserId, is_bot: bool, now: TimestampMillis) -> bool {
    &&& c.them == them
    &&& c.date_created == now
    &&& c.is_bot == is_bot
    &&& c.last_updated == now
    &&& c.events.main.events@ == Seq::<Event>::empty()
    &&& c.events.main.start_event_index == 0
    &&& c.events.main.start_message_index == 0
    &&& c.events.threads@ == Seq::<crate::event_log::ThreadStream>::empty()
    &&& c.read_by_me_up_to == (Timestamped { value: None::<MessageIndex>, timestamp: 0u64 })
    &&& c.read_by_them_up_to == (Timestamped { value: None::<MessageIndex>, timestamp: 0u64 })
    &&& c.unread_message_index_map@ == Seq::<(MessageIndex, MessageIndex)>::empty()
    &&& c.metrics == crate::metrics::empty_metrics()
}

/// One event rewritten so replies pointing at `from` point at `to`; every
/// other event, and every index and timestamp, is untouched.
pub open spec fn migrate_event(e: Event, from: ChatRef, to: ChatRef) -> Event {
    match e.payload {
        EventPayload::Message { message_id, sender, content, replies_to } => match replies_to {
            Some(rc) => if rc.chat == Some(from) {
                Event {
                    payload: EventPayload::Message {
                        message_id,
                        sender,
                        content,
                        replies_to: Some(ReplyContext { chat: Some(to), ..rc }),
                    },
                    ..e
                }
            } else {
                e
            },
            None => e,
        },
        _ => e,
    }
}

/// Two event sequences with pointwise-matching message flags hold the same
/// number of messages.
proof fn lemma_message_count_congruent(a: Seq<Event>, b: Seq<Event>)
    requires
        a.len() == b.len(),
        forall|i: int| 0 <= i < a.len() ==> is_message(a[i].payload) == is_message(b[i].payload),
    ensures
        crate::event_log::message_count(a) == crate::event_log::message_count(b),
    decreases a.len(),
{
    if a.len() > 0 {
        assert forall|i: int|
            0 <= i < a.drop_last().len() implies is_message(a.drop_last()[i].payload) == is_message(
            b.drop_last()[i].payload,
        ) by {
            assert(is_message(a[i].payload) == is_message(b[i].payload));
        }
        lemma_message_count_congruent(a.drop_last(), b.drop_last());
    }
}

/// How one chat changes when reply references are migrated from one chat
/// identity to another.
pub open spec fn chat_migrated(
    pre: DirectChat,
    post: DirectChat,
    from: ChatRef,
    to: ChatRef,
    now: TimestampMillis,
) -> bool {
    &&& post.events.main.events@.len() == pre.events.main.events@.len()
    &&& forall|j: int|
        0 <= j < pre.events.main.events@.len() ==> post.events.main.events@[j] == migrate_event(
            #[trigger] pre.events.main.events@[j],
            from,
            to,
        )
    &&& post.events.main.start_event_index == pre.events.main.start_event_index
    &&& post.events.main.start_message_index == pre.events.main.start_message_index
    &&& post.events.threads@ == pre.events.threads@
    &&& post.them == pre.them
    &&& post.date_created == pre.date_created
    &&& post.is_bot == pre.is_bot
    &&& post.read_by_me_up_to == pre.read_by_me_up_to
    &&& post.read_by_them_up_to == pre.read_by_them_up_to
    &&& post.unread_message_index_map@ == pre.unread_message_index_map@
    &&& post.metrics == pre.metrics
    &&& post.last_updated == (if exists|j: int|
        0 <= j < pre.events.main.events@.len() && migrate_event(
            #[trigger] pre.events.main.events@[j],
            from,
            to,
        ) != pre.events.main.events@[j] {
        now
    } else {
        pre.last_updated
    })
}

/// Executable form of [`migrate_event`], also reporting whether the event
/// actually changed.
fn migrate_event_exec(e: &Event, from: ChatRef, to: ChatRef) -> (r: (Event, bool))
    ensures
        r.0 == migrate_event(*e, from, to),
        r.1 == (migrate_event(*e, from, to) != *e),
{
    match e.payload {
        EventPayload::Message { message_id, sender, content, replies_to } => {
            match replies_to {
                Some(rc) => {
                    if rc.chat == Some(from) {
                        let rewritten = Event {
                            payload: EventPayload::Message {
                                message_id,
                                sender,
                                content,
                                replies_to: Some(ReplyContext { chat: Some(to), ..rc }),
                            },
                            ..*e
                        };
                        proof {
                            if from != to {
                                assert(rewritten.payload != e.payload);
                            } else {
                                assert(rewritten == *e);
                            }
                        }
                        (rewritten, from != to)
                    } else {
                        (*e, false)
                    }
                },
                None => (*e, false),
            }
        },
        _ => (*e, false),
    }
}

impl DirectChats {
    /// Room in the target chat's main stream for one more message: a machine
    /// limit (a chat that does not exist yet always has room).
    pub open spec fn can_push_message(&self, their_user_id: UserId) -> bool {
        forall|i: int|
            0 <= i < self.direct_chats@.len() && (#[trigger] self.direct_chats@[i]).chat_id()
                == chat_id_of_counterpart(their_user_id) ==> self.direct_chats@[i].events.main.can_push()
    }

    /// Appends one message to the conversation with `their_user_id`, creating
    /// the chat lazily, advancing the sender's read-up-to marker, and (for an
    /// inbound message) recording the unread-index mapping. Returns the
    /// appended event.
    pub fn push_message(
        &mut self,
        sent_by_me: bool,
        their_user_id: UserId,
        their_message_index: Option<MessageIndex>,
        args: PushMessageArgs,
        is_bot: bool,
    ) -> (r: Event)
        requires
            old(self).inv(),
            old(self).can_push_message(their_user_id),
        ensures
            final(self).inv(),
            final(self).pinned == old(self).pinned,
            final(self).metrics == old(self).metrics,
            final(self).chats_removed@ == old(self).chats_removed@,
            is_message(r.payload),
            old(self).spec_has(chat_id_of_counterpart(their_user_id)) ==> exists|i: int|
                0 <= i < old(self).direct_chats@.len() && old(self).direct_chats@[i].chat_id()
                    == chat_id_of_counterpart(their_user_id) && final(self).direct_chats@ == old(
                    self,
                ).direct_chats@.update(i, final(self).direct_chats@[i]) && chat_pushed(
                    old(self).direct_chats@[i],
                    final(self).direct_chats@[i],
                    r,
                    sent_by_me,
                    their_message_index,
                    args,
                ),
            !old(self).spec_has(chat_id_of_counterpart(their_user_id)) ==> final(self).direct_chats@ == old(self).direct_chats@.push(final(self).direct_chats@.last())
                && exists|pre: DirectChat|
                fresh_chat(pre, their_user_id, is_bot, args.now) && chat_pushed(
                    pre,
                    final(self).direct_chats@.last(),
                    r,
                    sent_by_me,
                    their_message_index,
                    args,
                ),
    {
        let chat_id = chat_id_from_user(their_user_id);
        let ghost had_chat = self.spec_has(chat_id);
        let ghost olds = self.direct_chats@;
        let idx: usize = match self.index_of(chat_id) {
            Some(i) => i,
            None => {
                let chat = DirectChat::new(their_user_id, is_bot, args.now);
                let ghost fresh = chat;
                self.direct_chats.push(chat);
                proof {
                    assert(fresh_chat(fresh, their_user_id, is_bot, args.now));
                    assert(self.direct_chats@.last() == fresh);
                }
                self.direct_chats.len() - 1
            },
        };
        let ghost pre_chat = self.direct_chats@[idx as int];
        let c = &mut self.direct_chats[idx];
        let e = c.events.push_main(
            EventPayload::Message {
                message_id: args.message_id,
                sender: args.sender,
                content: args.content,
                replies_to: args.replies_to,
            },
            args.correlation_id,
            None,
            args.now,
        );
        c.metrics.messages = c.metrics.messages.saturating_add(1);
        c.metrics.last_active = if c.metrics.last_active >= args.now {
            c.metrics.last_active
        } else {
            args.now
        };
        c.last_updated = args.now;
        let mi: MessageIndex = match e.message_index {
            Some(m) => m,
            None => unreached(),
        };
        c.mark_read_up_to(mi, sent_by_me, args.now);
        if !sent_by_me {
            match their_message_index {
                Some(t) => {
                    c.unread_message_index_map.push((mi, t));
                },
                None => {},
            }
        }
        proof {
            let post_chat = self.direct_chats@[idx as int];
            assert(chat_pushed(pre_chat, post_chat, e, sent_by_me, their_message_index, args));
            if had_chat {
                assert(self.direct_chats@ =~= olds.update(idx as int, post_chat));
            } else {
                assert(self.direct_chats@ =~= olds.push(post_chat));
                assert(self.direct_chats@.last() == post_chat);
            }
            assert forall|a: int, b: int|
                0 <= a < b < self.direct_chats@.len() implies self.direct_chats@[a].them
                != self.direct_chats@[b].them by {
                if had_chat {
                    assert(self.direct_chats@[a].them == olds[a].them);
                    assert(self.direct_chats@[b].them == olds[b].them);
                } else {
                    if b < olds.len() {
                        assert(self.direct_chats@[a].them == olds[a].them);
                        assert(self.direct_chats@[b].them == olds[b].them);
                    } else {
                        assert(self.direct_chats@[a].them == olds[a].them);
                        assert(!old(self).spec_has(chat_id_of_counterpart(their_user_id)));
                    }
                }
            }
        }
        e
    }

    /// Pins a chat at the front of the pinned list; pinning an already
    /// pinned chat changes nothing, not even the list's timestamp.
    pub fn pin(&mut self, chat_id: ChatId, now: TimestampMillis)
        requires
            old(self).inv(),
        ensures
            final(self).inv(),
            final(self).direct_chats@ == old(self).direct_chats@,
            final(self).metrics == old(self).metrics,
            final(self).chats_removed@ == old(self).chats_removed@,
            old(self).pinned.value@.contains(chat_id) ==> final(self).pinned == old(self).pinned,
            !old(self).pinned.value@.contains(chat_id) ==> final(self).pinned.value@ == seq![
                chat_id,
            ] + old(self).pinned.value@ && final(self).pinned.timestamp == now,
    {
        if !contains_id(&self.pinned.value, chat_id) {
            self.pinned.timestamp = now;
            let ghost olds = self.pinned.value@;
            self.pinned.value.insert(0, chat_id);
            proof {
                olds.insert_ensures(0, chat_id);
                assert(self.pinned.value@ =~= seq![chat_id] + olds);
                assert forall|a: int, b: int|
                    0 <= a < b < self.pinned.value@.len() implies self.pinned.value@[a]
                    != self.pinned.value@[b] by {
                    if a == 0 {
                        assert(self.pinned.value@[b] == olds[b - 1]);
                        assert(olds.contains(olds[b - 1]));
                    } else {
                        assert(self.pinned.value@[a] == olds[a - 1]);
                        assert(self.pinned.value@[b] == olds[b - 1]);
                    }
                }
            }
        }
    }

    /// Unpins a chat; unpinning one that is not pinned changes nothing.
    pub fn unpin(&mut self, chat_id: ChatId, now: TimestampMillis)
        requires
            old(self).inv(),
        ensures
            final(self).inv(),
            final(self).direct_chats@ == old(self).direct_chats@,
            final(self).metrics == old(self).metrics,
            final(self).chats_removed@ == old(self).chats_removed@,
            !old(self).pinned.value@.contains(chat_id) ==> final(self).pinned == old(self).pinned,
            old(self).pinned.value@.contains(chat_id) ==> exists|i: int|
                0 <= i < old(self).pinned.value@.len() && old(self).pinned.value@[i] == chat_id
                    && final(self).pinned.value@ == old(self).pinned.value@.remove(i) && final(self).pinned.timestamp == now,
            !final(self).pinned.value@.contains(chat_id),
    {
        let n = self.pinned.value.len();
        for i in 0..n
            invariant
                old(self).inv(),
                n == old(self).pinned.value@.len(),
                *self == *old(self),
                forall|j: int| 0 <= j < i ==> self.pinned.value@[j] != chat_id,
        {
            if self.pinned.value[i] == chat_id {
                self.pinned.timestamp = now;
                self.pinned.value.remove(i);
                proof {
                    crate::ids::lemma_unique_u64s_remove(old(self).pinned.value@, i as int);
                }
                return ;
            }
        }
    }

    /// Removes a chat from the live collection and inserts a `(now, id)`
    /// tombstone into the time-ordered removal log (as a set: an identical
    /// tombstone is not duplicated). The chat itself is returned, archived,
    /// not destroyed.
    pub fn remove(&mut self, chat_id: ChatId, now: TimestampMillis) -> (r: Option<DirectChat>)
        requires
            old(self).inv(),
        ensures
            final(self).inv(),
            final(self).pinned == old(self).pinned,
            final(self).metrics == old(self).metrics,
            r is Some <==> old(self).spec_has(chat_id),
            r is None ==> *final(self) == *old(self),
            r matches Some(c) ==> exists|i: int|
                0 <= i < old(self).direct_chats@.len() && old(self).direct_chats@[i].chat_id()
                    == chat_id && c == old(self).direct_chats@[i] && final(self).direct_chats@
                    == old(self).direct_chats@.remove(i),
            r is Some ==> (if old(self).chats_removed@.contains((now, chat_id)) {
                final(self).chats_removed@ == old(self).chats_removed@
            } else {
                exists|p: int|
                    0 <= p <= old(self).chats_removed@.len() && final(self).chats_removed@ == old(
                        self,
                    ).chats_removed@.insert(p, (now, chat_id))
            }),
            r is Some ==> final(self).chats_removed@.contains((now, chat_id)),
    {
        let idx = match self.index_of(chat_id) {
            Some(i) => i,
            None => {
                return None;
            },
        };
        let ghost olds = self.direct_chats@;
        let removed = self.direct_chats.remove(idx);
        proof {
            olds.remove_ensures(idx as int);
            assert forall|a: int, b: int|
                0 <= a < b < self.direct_chats@.len() implies self.direct_chats@[a].them
                != self.direct_chats@[b].them by {
                let oa: int = if a < idx {
                    a
                } else {
                    a + 1
                };
                let ob: int = if b < idx {
                    b
                } else {
                    b + 1
                };
                assert(self.direct_chats@[a] == olds[oa]);
                assert(self.direct_chats@[b] == olds[ob]);
            }
            assert forall|a: int|
                0 <= a < self.direct_chats@.len() implies (#[trigger] self.direct_chats@[a]).inv() by {
                if a < idx {
                    assert(olds[a].inv());
                } else {
                    assert(olds[a + 1].inv());
                }
            }
        }
        self.insert_tombstone(now, chat_id);
        Some(removed)
    }

    /// Inserts one tombstone at its sorted position, skipping an exact
    /// duplicate so the log stays a set.
    fn insert_tombstone(&mut self, now: TimestampMillis, chat_id: ChatId)
        requires
            forall|i: int, j: int|
                0 <= i < j < old(self).chats_removed@.len() ==> tomb_lt(
                    old(self).chats_removed@[i],
                    old(self).chats_removed@[j],
                ),
        ensures
            final(self).direct_chats@ == old(self).direct_chats@,
            final(self).pinned == old(self).pinned,
            final(self).metrics == old(self).metrics,
            forall|i: int, j: int|
                0 <= i < j < final(self).chats_removed@.len() ==> tomb_lt(
                    final(self).chats_removed@[i],
                    final(self).chats_removed@[j],
                ),
            old(self).chats_removed@.contains((now, chat_id)) ==> final(self).chats_removed@
                == old(self).chats_removed@,
            !old(self).chats_removed@.contains((now, chat_id)) ==> exists|p: int|
                0 <= p <= old(self).chats_removed@.len() && final(self).chats_removed@ == old(
                    self,
                ).chats_removed@.insert(p, (now, chat_id)),
            final(self).chats_removed@.contains((now, chat_id)),
    {
        let entry = (now, chat_id);
        let n = self.chats_removed.len();
        let mut p: usize = 0;
        while p < n && tomb_lt_exec(self.chats_removed[p], entry)
            invariant
                n == self.chats_removed@.len(),
                *self == *old(self),
                p <= n,
                forall|j: int| 0 <= j < p ==> tomb_lt(self.chats_removed@[j], entry),
            decreases n - p,
        {
            p = p + 1;
        }
        if p < n && self.chats_removed[p].0 == now && self.chats_removed[p].1 == chat_id {
            proof {
                assert(self.chats_removed@[p as int] == entry);
                assert(self.chats_removed@.contains(entry));
            }
            return ;
        }
        let ghost olds = self.chats_removed@;
        self.chats_removed.insert(p, entry);
        proof {
            olds.insert_ensures(p as int, entry);
            let news = self.chats_removed@;
            assert(news[p as int] == entry);
            assert(news.contains(entry));
            // The entry was not already present.
            if olds.contains(entry) {
                let q = choose|q: int| 0 <= q < olds.len() && olds[q] == entry;
                if q < p {
                    assert(tomb_lt(olds[q], entry));
                } else if q > p {
                    assert(p < olds.len());
                    assert(tomb_lt(olds[p as int], olds[q]));
                    assert(!tomb_lt(olds[p as int], entry));
                } else {
                    assert(olds[p as int] == entry);
                    assert(!(p < n && olds[p as int].0 == now && olds[p as int].1 == chat_id));
                }
            }
            assert forall|a: int, b: int|
                0 <= a < b < news.len() implies tomb_lt(news[a], news[b]) by {
                if a < p && b < p {
                    assert(news[a] == olds[a]);
                    assert(news[b] == olds[b]);
                } else if a < p && b == p {
                    assert(news[a] == olds[a]);
                    assert(tomb_lt(olds[a], entry));
                } else if a < p && b > p {
                    assert(news[a] == olds[a]);
                    assert(news[b] == olds[b - 1]);
                    assert(tomb_lt(olds[a], entry));
                    if b - 1 == p as int {
                        assert(!tomb_lt(olds[p as int], entry));
                        assert(olds[p as int] != entry);
                        assert(tomb_lt(entry, olds[p as int]) || entry == olds[p as int]
                            || tomb_lt(olds[p as int], entry)) by {
                        }
                    } else {
                        assert(tomb_lt(olds[p as int], olds[b - 1]));
                    }
                } else if a == p {
                    assert(news[b] == olds[b - 1]);
                    assert(b - 1 >= p);
                    assert(!tomb_lt(olds[p as int], entry));
                    assert(olds[p as int] != entry);
                    if b - 1 > p {
                        assert(tomb_lt(olds[p as int], olds[b - 1]));
                    }
                } else {
                    assert(news[a] == olds[a - 1]);
                    assert(news[b] == olds[b - 1]);
                    assert(tomb_lt(olds[a - 1], olds[b - 1]));
                }
            }
        }
    }

    /// Recomputes the aggregate rollup by folding every chat's rollup with
    /// the associative, commutative merge.
    pub fn aggregate_metrics(&mut self)
        ensures
            *final(self) == (DirectChats {
                metrics: fold_merged(
                    old(self).direct_chats@.map(|i: int, c: DirectChat| c.metrics),
                ),
                ..*old(self)
            }),
    {
        let n = self.direct_chats.len();
        let mut m = ChatMetrics::new();
        proof {
            assert(self.direct_chats@.take(0).map(|i: int, c: DirectChat| c.metrics) =~= Seq::<
                ChatMetrics,
            >::empty());
        }
        for i in 0..n
            invariant
                n == self.direct_chats@.len(),
                *self == *old(self),
                m == fold_merged(
                    self.direct_chats@.take(i as int).map(|i: int, c: DirectChat| c.metrics),
                ),
        {
            m.merge(&self.direct_chats[i].metrics);
            proof {
                let f = |i: int, c: DirectChat| c.metrics;
                let pre = self.direct_chats@.take(i as int).map(f);
                let post = self.direct_chats@.take(i + 1).map(f);
                assert(post.drop_last() =~= pre);
                assert(post.last() == self.direct_chats@[i as int].metrics);
            }
        }
        proof {
            assert(self.direct_chats@.take(n as int) =~= self.direct_chats@);
        }
        self.metrics = m;
    }

    /// The aggregate rollup, as last recomputed.
    pub fn metrics(&self) -> (r: &ChatMetrics)
        ensures
            *r == self.metrics,
    {
        &self.metrics
    }

    /// Rewrites, in every chat's main stream, reply references that point at
    /// `from` so they point at `to`: a one-time identity migration. Indices,
    /// timestamps and all other payloads are untouched; a chat in which
    /// anything changed is stamped with `now`.
    pub fn migrate_replies(&mut self, from: ChatRef, to: ChatRef, now: TimestampMillis)
        requires
            old(self).inv(),
        ensures
            final(self).inv(),
            final(self).pinned == old(self).pinned,
            final(self).metrics == old(self).metrics,
            final(self).chats_removed@ == old(self).chats_removed@,
            final(self).direct_chats@.len() == old(self).direct_chats@.len(),
            forall|i: int|
                0 <= i < old(self).direct_chats@.len() ==> chat_migrated(
                    old(self).direct_chats@[i],
                    #[trigger] final(self).direct_chats@[i],
                    from,
                    to,
                    now,
                ),
    {
        let n = self.direct_chats.len();
        for i in 0..n
            invariant
                n == old(self).direct_chats@.len(),
                self.direct_chats@.len() == n,
                self.pinned == old(self).pinned,
                self.metrics == old(self).metrics,
                self.chats_removed@ == old(self).chats_removed@,
                forall|j: int|
                    i <= j < n ==> #[trigger] self.direct_chats@[j] == old(self).direct_chats@[j],
                forall|j: int|
                    0 <= j < i ==> chat_migrated(
                        old(self).direct_chats@[j],
                        #[trigger] self.direct_chats@[j],
                        from,
                        to,
                        now,
                    ),
                forall|j: int| 0 <= j < n ==> (#[trigger] self.direct_chats@[j]).inv(),
                forall|a: int, b: int|
                    0 <= a < b < n ==> self.direct_chats@[a].them != self.direct_chats@[b].them,
                old(self).inv(),
        {
            let c = &mut self.direct_chats[i];
            migrate_chat(c, from, to, now);
        }
    }
}

/// Executable comparison in the tombstone order.
fn tomb_lt_exec(a: (TimestampMillis, ChatId), b: (TimestampMillis, ChatId)) -> (r: bool)
    ensures
        r == tomb_lt(a, b),
{
    a.0 < b.0 || (a.0 == b.0 && a.1 < b.1)
}

/// Whether the list holds this identifier.
fn contains_id(v: &Vec<ChatId>, id: ChatId) -> (r: bool)
    ensures
        r == v@.contains(id),
{
    let n = v.len();
    for i in 0..n
        invariant
            n == v@.len(),
            forall|j: int| 0 <= j < i ==> v@[j] != id,
    {
        if v[i] == id {
            return true;
        }
    }
    false
}

/// Migrates one chat's reply references; see [`DirectChats::migrate_replies`].
fn migrate_chat(c: &mut DirectChat, from: ChatRef, to: ChatRef, now: TimestampMillis)
    requires
        old(c).inv(),
    ensures
        final(c).inv(),
        chat_migrated(*old(c), *final(c), from, to, now),
        final(c).them == old(c).them,
{
    let n = c.events.main.events.len();
    let mut out: Vec<Event> = Vec::new();
    let mut changed = false;
    for j in 0..n
        invariant
            n == c.events.main.events@.len(),
            *c == *old(c),
            out@.len() == j,
            forall|k: int|
                0 <= k < j ==> out@[k] == migrate_event(
                    #[trigger] c.events.main.events@[k],
                    from,
                    to,
                ),
            changed == exists|k: int|
                0 <= k < j && migrate_event(#[trigger] c.events.main.events@[k], from, to)
                    != c.events.main.events@[k],
    {
        let (e, e_changed) = migrate_event_exec(&c.events.main.events[j], from, to);
        if e_changed {
            changed = true;
        }
        out.push(e);
    }
    let ghost pre = *c;
    c.events.main.events = out;
    if changed {
        c.last_updated = now;
    }
    proof {
        let olds = pre.events.main.events@;
        let news = c.events.main.events@;
        assert forall|i: int|
            0 <= i < news.len() implies is_message((#[trigger] news[i]).payload) == is_message(
            olds[i].payload,
        ) by {
            assert(news[i] == migrate_event(olds[i], from, to));
        }
        lemma_message_count_congruent(news, olds);
        assert forall|i: int|
            0 <= i < news.len() implies crate::event_log::event_ok(
            news,
            c.events.main.start_event_index,
            c.events.main.start_message_index,
            i,
        ) by {
            assert(crate::event_log::event_ok(
                olds,
                pre.events.main.start_event_index,
                pre.events.main.start_message_index,
                i,
            ));
            assert(news[i] == migrate_event(olds[i], from, to));
            assert(news[i].index == olds[i].index);
            assert(news[i].message_index == olds[i].message_index);
            assert forall|k: int|
                0 <= k < news.take(i).len() implies is_message(
                (#[trigger] news.take(i)[k]).payload,
            ) == is_message(olds.take(i)[k].payload) by {
                assert(news.take(i)[k] == news[k]);
                assert(olds.take(i)[k] == olds[k]);
                assert(news[k] == migrate_event(olds[k], from, to));
            }
            lemma_message_count_congruent(news.take(i), olds.take(i));
        }
    }
}

} // verus!
