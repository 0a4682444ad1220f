//! Append-only, monotonically indexed event storage for one conversation
//! entity: one main stream plus zero or more thread streams branching from a
//! root message. Every event is immutable once appended; edits and deletions
//! are new events layered over the original, and readers fold those overlays
//! when materializing a message view. Undeletion is possible exactly because
//! the original payload is retained, never erased.

use crate::ids::{ChatRef, EventIndex, MessageIndex, TimestampMillis, UserId};
use crate::membership::GroupRole;
use vstd::prelude::*;

verus! {

/// What an event or message replies to.
#[derive(Clone, Copy, PartialEq, Eq, Structural, Debug)]
pub struct ReplyContext {
    pub chat: Option<ChatRef>,
    pub event_index: EventIndex,
}

/// The closed set of event payloads. Message content itself is opaque to
/// this core and carried as a plain value.
#[derive(Clone, Copy, PartialEq, Eq, Structural, Debug)]
pub enum EventPayload {
    Message { message_id: u64, sender: UserId, content: u64, replies_to: Option<ReplyContext> },
    MessageEdited { target: MessageIndex, new_content: u64, edited_by: UserId },
    MessageDeleted { target: MessageIndex, deleted_by: UserId },
    MessageUndeleted { target: MessageIndex, undeleted_by: UserId },
    ReactionAdded { target: MessageIndex, reaction: u64, user_id: UserId },
    ReactionRemoved { target: MessageIndex, reaction: u64, user_id: UserId },
    MemberJoined { user_id: UserId, invited_by: Option<UserId> },
    MemberLeft { user_id: UserId },
    MemberUnblocked { user_id: UserId, unblocked_by: UserId },
    RoleChanged { user_id: UserId, changed_by: UserId, new_role: GroupRole },
    MessagePinned { message_index: MessageIndex, pinned_by: UserId },
    MessageUnpinned { message_index: MessageIndex, unpinned_by: UserId },
    RulesAccepted { user_id: UserId, version: u64 },
}

/// Whether a payload produces a message (and so consumes a MessageIndex).
pub open spec fn is_message(p: EventPayload) -> bool {
    p is Message
}

/// One appended event. `message_index` is assigned exactly to
/// message-producing payloads.
#[derive(Clone, Copy, PartialEq, Eq, Structural, Debug)]
pub struct Event {
    pub index: EventIndex,
    pub timestamp: TimestampMillis,
    pub correlation_id: u64,
    pub expires_at: Option<TimestampMillis>,
    pub message_index: Option<MessageIndex>,
    pub payload: EventPayload,
}

/// How many events of `s` are message-producing.
pub open spec fn message_count(s: Seq<Event>) -> nat
    decreases s.len(),
{
    if s.len() == 0 {
        0
    } else {
        message_count(s.drop_last()) + (if is_message(s.last().payload) {
            1nat
        } else {
            0nat
        })
    }
}

pub proof fn lemma_message_count_singleton(e: Event)
    ensures
        message_count(seq![e]) == (if is_message(e.payload) {
            1nat
        } else {
            0nat
        }),
{
    assert(seq![e].len() == 1);
    assert(seq![e].last() == e);
    assert(seq![e].drop_last() =~= Seq::<Event>::empty());
    assert(message_count(Seq::<Event>::empty()) == 0);
}

pub proof fn lemma_message_count_prepend(s: Seq<Event>, e: Event)
    ensures
        message_count(seq![e] + s) == message_count(s) + (if is_message(e.payload) {
            1nat
        } else {
            0nat
        }),
    decreases s.len(),
{
    if s.len() == 0 {
        assert(seq![e] + s =~= seq![e]);
        lemma_message_count_singleton(e);
    } else {
        lemma_message_count_prepend(s.drop_last(), e);
        assert((seq![e] + s).drop_last() =~= seq![e] + s.drop_last());
        assert((seq![e] + s).last() == s.last());
    }
}

/// Position `i` of `s` is well-indexed: the event index is contiguous from
/// `start_event`, and the message index is present exactly on messages and
/// contiguous from `start_msg`.
pub open spec fn event_ok(
    s: Seq<Event>,
    start_event: EventIndex,
    start_msg: MessageIndex,
    i: int,
) -> bool {
    &&& s[i].index == start_event + i
    &&& (s[i].message_index is Some <==> is_message(s[i].payload))
    &&& match s[i].message_index {
        Some(m) => m == start_msg + message_count(s.take(i)),
        None => true,
    }
}

/// One append-only ordered event sequence. `start_event_index` and
/// `start_message_index` are where this stream's allocators began; a thread
/// stream starts at its parent's high-water marks instead of zero, so that
/// numbering continues rather than restarts.
pub struct Stream {
    pub start_event_index: EventIndex,
    pub start_message_index: MessageIndex,
    pub next_message_index: MessageIndex,
    pub events: Vec<Event>,
}

/// How `post` relates to `pre` after appending one event `e` built from the
/// given arguments.
pub open spec fn stream_pushed(
    pre: Stream,
    post: Stream,
    e: Event,
    payload: EventPayload,
    correlation_id: u64,
    expires_at: Option<TimestampMillis>,
    now: TimestampMillis,
) -> bool {
    &&& post.start_event_index == pre.start_event_index
    &&& post.start_message_index == pre.start_message_index
    &&& post.events@ == pre.events@.push(e)
    &&& post.next_event_index_spec() == pre.next_event_index_spec() + 1
    &&& post.next_message_index_spec() == pre.next_message_index_spec() + (if is_message(payload) {
        1int
    } else {
        0int
    })
    &&& e == (Event {
        index: pre.next_event_index_spec() as u64,
        timestamp: now,
        correlation_id,
        expires_at,
        message_index: if is_message(payload) {
            Some(pre.next_message_index_spec() as u64)
        } else {
            None
        },
        payload,
    })
}

impl Stream {
    /// The index the next appended event will receive.
    pub open spec fn next_event_index_spec(&self) -> int {
        self.start_event_index + self.events@.len()
    }

    /// The index the next appended message will receive.
    pub open spec fn next_message_index_spec(&self) -> int {
        self.start_message_index + message_count(self.events@)
    }

    /// Well-formedness: indices fit in their type, the cached next message
    /// index agrees with the events, and every position is well-indexed.
    pub open spec fn wf(&self) -> bool {
        &&& self.next_event_index_spec() <= u64::MAX
        &&& self.next_message_index_spec() <= u64::MAX
        &&& self.next_message_index == self.next_message_index_spec()
        &&& forall|i: int|
            0 <= i < self.events@.len() ==> event_ok(
                self.events@,
                self.start_event_index,
                self.start_message_index,
                i,
            )
    }

    /// Room for one more event: a machine limit, not a design limit.
    pub open spec fn can_push(&self) -> bool {
        &&& self.next_event_index_spec() < u64::MAX
        &&& self.next_message_index_spec() < u64::MAX
    }

    /// An empty stream whose allocators begin at the given values.
    pub fn new(start_event_index: EventIndex, start_message_index: MessageIndex) -> (r: Stream)
        ensures
            r.wf(),
            r.start_event_index == start_event_index,
            r.start_message_index == start_message_index,
            r.events@ == Seq::<Event>::empty(),
    {
        Stream {
            start_event_index,
            start_message_index,
            next_message_index: start_message_index,
            events: Vec::new(),
        }
    }

    pub fn next_event_index(&self) -> (r: EventIndex)
        requires
            self.wf(),
        ensures
            r == self.next_event_index_spec(),
    {
        self.start_event_index + self.events.len() as u64
    }

    pub fn next_message_index(&self) -> (r: MessageIndex)
        requires
            self.wf(),
        ensures
            r == self.next_message_index_spec(),
    {
        self.next_message_index
    }

    pub fn len(&self) -> (r: usize)
        ensures
            r == self.events@.len(),
    {
        self.events.len()
    }

    /// Appends one event, assigning the next event index and, for a
    /// message-producing payload, the next message index.
    pub fn push(
        &mut self,
        payload: EventPayload,
        correlation_id: u64,
        expires_at: Option<TimestampMillis>,
        now: TimestampMillis,
    ) -> (e: Event)
        requires
            old(self).wf(),
            old(self).can_push(),
        ensures
            final(self).wf(),
            stream_pushed(*old(self), *final(self), e, payload, correlation_id, expires_at, now),
    {
        let index = self.start_event_index + self.events.len() as u64;
        let is_msg = payload_is_message(&payload);
        let message_index = if is_msg {
            Some(self.next_message_index)
        } else {
            None
        };
        let e = Event { index, timestamp: now, correlation_id, expires_at, message_index, payload };
        self.events.push(e);
        if is_msg {
            self.next_message_index = self.next_message_index + 1;
        }
        proof {
            let olds = old(self).events@;
            let news = self.events@;
            assert(news.drop_last() =~= olds);
            assert(news.take(olds.len() as int) =~= olds);
            assert forall|i: int|
                0 <= i < news.len() implies event_ok(
                news,
                self.start_event_index,
                self.start_message_index,
                i,
            ) by {
                if i < olds.len() {
                    assert(event_ok(olds, self.start_event_index, self.start_message_index, i));
                    assert(news.take(i) =~= olds.take(i));
                    assert(news[i] == olds[i]);
                } else {
                    assert(news[i] == e);
                    assert(news.take(i) =~= olds);
                }
            }
        }
        e
    }

    /// The stored event with the given index, if it exists.
    pub fn get(&self, index: EventIndex) -> (r: Option<&Event>)
        requires
            self.wf(),
        ensures
            r is Some <==> self.start_event_index <= index < self.next_event_index_spec(),
            r matches Some(e) ==> *e == self.events@[index - self.start_event_index],
    {
        if index >= self.start_event_index {
            let offset = index - self.start_event_index;
            if offset < self.events.len() as u64 {
                return Some(&self.events[offset as usize]);
            }
        }
        None
    }
}

/// Executable test of [`is_message`].
pub fn payload_is_message(p: &EventPayload) -> (r: bool)
    ensures
        r == is_message(*p),
{
    match p {
        EventPayload::Message { .. } => true,
        _ => false,
    }
}

/// Offset into the stream's storage of the first event the caller may see.
pub open spec fn visible_lo(s: Stream, min_visible: EventIndex) -> int {
    if min_visible <= s.start_event_index {
        0
    } else if min_visible - s.start_event_index <= s.events@.len() {
        min_visible - s.start_event_index
    } else {
        s.events@.len() as int
    }
}

/// The storage offset the window grows from: `mid_point` clamped into the
/// visible range.
pub open spec fn clamped_mid(s: Stream, mid_point: EventIndex, min_visible: EventIndex) -> int {
    let lo0 = visible_lo(s, min_visible);
    let len = s.events@.len() as int;
    if mid_point <= s.start_event_index + lo0 {
        lo0
    } else if mid_point - s.start_event_index >= len {
        len - 1
    } else {
        mid_point - s.start_event_index
    }
}

/// The window `r` is the contiguous slice `[lo, hi)` of the stream: within
/// the visible range, within both caps, holding the (clamped) mid point when
/// non-empty, and maximal in the sense that it stopped only at the visible
/// range's edges or at whichever cap was hit first.
pub open spec fn window_ok(
    s: Stream,
    mid_point: EventIndex,
    max_events: u32,
    max_messages: u32,
    min_visible: EventIndex,
    r: Seq<Event>,
    lo: int,
    hi: int,
) -> bool {
    let lo0 = visible_lo(s, min_visible);
    let len = s.events@.len() as int;
    &&& lo0 <= lo <= hi <= len
    &&& r == s.events@.subrange(lo, hi)
    &&& hi - lo <= max_events
    &&& message_count(r) <= max_messages
    &&& ((lo == lo0 && hi == len) || hi - lo == max_events || message_count(r) == max_messages)
    &&& (lo < hi ==> lo <= clamped_mid(s, mid_point, min_visible) < hi)
}

/// Everything [`Stream::read_window`] promises of its result.
pub open spec fn read_window_post(
    s: Stream,
    mid_point: EventIndex,
    max_events: u32,
    max_messages: u32,
    min_visible: EventIndex,
    r: Seq<Event>,
) -> bool {
    &&& exists|lo: int, hi: int|
        window_ok(s, mid_point, max_events, max_messages, min_visible, r, lo, hi)
    &&& forall|i: int| 0 <= i < r.len() ==> (#[trigger] r[i]).index >= min_visible
    &&& (visible_lo(s, min_visible) < s.events@.len() && max_events > 0 && max_messages > 0
        ==> r.len() > 0)
}

/// Which requested indices [`Stream::read_by_index`] returns: those that
/// exist and are within the caller's visibility, in request order; the rest
/// are omitted, not errored.
pub open spec fn spec_read_by_index(
    s: Stream,
    indices: Seq<EventIndex>,
    min_visible: EventIndex,
) -> Seq<Event>
    decreases indices.len(),
{
    if indices.len() == 0 {
        Seq::empty()
    } else {
        let rest = spec_read_by_index(s, indices.drop_last(), min_visible);
        let idx = indices.last();
        if s.start_event_index <= idx && idx < s.start_event_index + s.events@.len() && idx
            >= min_visible {
            rest.push(s.events@[idx - s.start_event_index])
        } else {
            rest
        }
    }
}

impl Stream {
    /// A bounded, contiguous slice of visible events centered on `mid_point`,
    /// capped by whichever of `max_events` / `max_messages` is hit first.
    /// Events before the caller's `min_visible` cutoff are excluded even when
    /// the caps and mid point would otherwise include them.
    pub fn read_window(
        &self,
        mid_point: EventIndex,
        max_events: u32,
        max_messages: u32,
        min_visible: EventIndex,
    ) -> (r: Vec<Event>)
        requires
            self.wf(),
        ensures
            read_window_post(*self, mid_point, max_events, max_messages, min_visible, r@),
    {
        let len = self.events.len();
        let ghost lo0_spec = visible_lo(*self, min_visible);
        let lo0: usize = if min_visible <= self.start_event_index {
            0
        } else {
            let d = min_visible - self.start_event_index;
            if d >= len as u64 {
                len
            } else {
                d as usize
            }
        };
        assert(lo0 == lo0_spec);
        if lo0 >= len || max_events == 0 || max_messages == 0 {
            let out: Vec<Event> = Vec::new();
            proof {
                assert(out@ =~= self.events@.subrange(lo0 as int, lo0 as int));
                assert(window_ok(
                    *self,
                    mid_point,
                    max_events,
                    max_messages,
                    min_visible,
                    out@,
                    lo0 as int,
                    lo0 as int,
                ));
            }
            return out;
        }
        let m: usize = if mid_point <= self.start_event_index + lo0 as u64 {
            lo0
        } else {
            let d = mid_point - self.start_event_index;
            if d >= len as u64 {
                len - 1
            } else {
                d as usize
            }
        };
        assert(m == clamped_mid(*self, mid_point, min_visible));
        let mut lo: usize = m;
        let mut hi: usize = m + 1;
        let mut msgs: u32 = if payload_is_message(&self.events[m].payload) {
            1
        } else {
            0
        };
        proof {
            assert(self.events@.subrange(m as int, m + 1) =~= seq![self.events@[m as int]]);
            lemma_message_count_singleton(self.events@[m as int]);
        }
        while (lo > lo0 || hi < len) && hi - lo < max_events as usize && msgs < max_messages
            invariant
                self.wf(),
                lo0 == visible_lo(*self, min_visible),
                m == clamped_mid(*self, mid_point, min_visible),
                len == self.events@.len(),
                0 <= lo0 <= lo <= m < hi <= len,
                hi - lo <= max_events as usize,
                msgs == message_count(self.events@.subrange(lo as int, hi as int)),
                msgs <= max_messages,
                max_events > 0,
                max_messages > 0,
            decreases (lo - lo0) + (len - hi),
        {
            if hi < len && (hi - m <= m - lo || lo == lo0) {
                let ghost pre = self.events@.subrange(lo as int, hi as int);
                if payload_is_message(&self.events[hi].payload) {
                    msgs = msgs + 1;
                }
                hi = hi + 1;
                proof {
                    let post = self.events@.subrange(lo as int, hi as int);
                    assert(post.drop_last() =~= pre);
                    assert(post.last() == self.events@[hi - 1]);
                }
            } else {
                let ghost pre = self.events@.subrange(lo as int, hi as int);
                if payload_is_message(&self.events[lo - 1].payload) {
                    msgs = msgs + 1;
                }
                lo = lo - 1;
                proof {
                    let post = self.events@.subrange(lo as int, hi as int);
                    assert(post =~= seq![self.events@[lo as int]] + pre);
                    lemma_message_count_prepend(pre, self.events@[lo as int]);
                }
            }
        }
        let mut out: Vec<Event> = Vec::new();
        let mut j: usize = lo;
        proof {
            assert(out@ =~= self.events@.subrange(lo as int, lo as int));
        }
        while j < hi
            invariant
                self.wf(),
                lo <= j <= hi <= self.events@.len(),
                out@ == self.events@.subrange(lo as int, j as int),
            decreases hi - j,
        {
            out.push(self.events[j]);
            j = j + 1;
            proof {
                assert(self.events@.subrange(lo as int, j as int) =~= self.events@.subrange(
                    lo as int,
                    j - 1,
                ).push(self.events@[j - 1]));
            }
        }
        proof {
            assert(window_ok(
                *self,
                mid_point,
                max_events,
                max_messages,
                min_visible,
                out@,
                lo as int,
                hi as int,
            ));
            assert forall|i: int| 0 <= i < out@.len() implies (#[trigger] out@[i]).index
                >= min_visible by {
                assert(out@[i] == self.events@[lo + i]);
                assert(event_ok(
                    self.events@,
                    self.start_event_index,
                    self.start_message_index,
                    lo + i,
                ));
            }
        }
        out
    }

    /// The events among `indices` that exist and lie within the caller's
    /// visibility; missing or forbidden indices are omitted, not errored.
    pub fn read_by_index(&self, indices: &Vec<EventIndex>, min_visible: EventIndex) -> (r: Vec<
        Event,
    >)
        requires
            self.wf(),
        ensures
            r@ == spec_read_by_index(*self, indices@, min_visible),
    {
        let n = indices.len();
        let mut out: Vec<Event> = Vec::new();
        proof {
            assert(indices@.take(0) =~= Seq::<EventIndex>::empty());
        }
        for i in 0..n
            invariant
                self.wf(),
                n == indices@.len(),
                out@ == spec_read_by_index(*self, indices@.take(i as int), min_visible),
        {
            let idx = indices[i];
            if idx >= self.start_event_index && idx >= min_visible {
                let offset = idx - self.start_event_index;
                if offset < self.events.len() as u64 {
                    out.push(self.events[offset as usize]);
                }
            }
            proof {
                assert(indices@.take(i + 1).drop_last() =~= indices@.take(i as int));
                assert(indices@.take(i + 1).last() == indices@[i as int]);
            }
        }
        proof {
            assert(indices@.take(n as int) =~= indices@);
        }
        out
    }
}

/// A message as a reader sees it after folding all overlay events (edits,
/// deletions, undeletions) onto the original.
#[derive(Clone, Copy, PartialEq, Eq, Structural, Debug)]
pub struct MessageView {
    pub message_index: MessageIndex,
    pub message_id: u64,
    pub sender: UserId,
    pub content: u64,
    pub deleted: bool,
    pub last_updated: TimestampMillis,
}

/// One overlay event folded onto a message view. A deleted message keeps its
/// content (tombstoned, not erased), which is what makes undeletion possible.
pub open spec fn apply_overlay(v: MessageView, e: Event) -> MessageView {
    match e.payload {
        EventPayload::MessageEdited { target, new_content, .. } => if target == v.message_index
            && !v.deleted {
            MessageView { content: new_content, last_updated: e.timestamp, ..v }
        } else {
            v
        },
        EventPayload::MessageDeleted { target, .. } => if target == v.message_index && !v.deleted {
            MessageView { deleted: true, last_updated: e.timestamp, ..v }
        } else {
            v
        },
        EventPayload::MessageUndeleted { target, .. } => if target == v.message_index && v.deleted {
            MessageView { deleted: false, last_updated: e.timestamp, ..v }
        } else {
            v
        },
        _ => v,
    }
}

/// The message view for `target` after folding the whole stream in order:
/// the original message event, then every later overlay referencing it.
pub open spec fn spec_materialize(s: Seq<Event>, target: MessageIndex) -> Option<MessageView>
    decreases s.len(),
{
    if s.len() == 0 {
        None
    } else {
        let e = s.last();
        match spec_materialize(s.drop_last(), target) {
            Some(v) => Some(apply_overlay(v, e)),
            None => match e.payload {
                EventPayload::Message { message_id, sender, content, .. } => if e.message_index
                    == Some(target) {
                    Some(
                        MessageView {
                            message_index: target,
                            message_id,
                            sender,
                            content,
                            deleted: false,
                            last_updated: e.timestamp,
                        },
                    )
                } else {
                    None
                },
                _ => None,
            },
        }
    }
}

/// Executable form of [`apply_overlay`].
pub fn apply_overlay_event(v: MessageView, e: &Event) -> (r: MessageView)
    ensures
        r == apply_overlay(v, *e),
{
    match e.payload {
        EventPayload::MessageEdited { target, new_content, .. } => {
            if target == v.message_index && !v.deleted {
                MessageView { content: new_content, last_updated: e.timestamp, ..v }
            } else {
                v
            }
        },
        EventPayload::MessageDeleted { target, .. } => {
            if target == v.message_index && !v.deleted {
                MessageView { deleted: true, last_updated: e.timestamp, ..v }
            } else {
                v
            }
        },
        EventPayload::MessageUndeleted { target, .. } => {
            if target == v.message_index && v.deleted {
                MessageView { deleted: false, last_updated: e.timestamp, ..v }
            } else {
                v
            }
        },
        _ => v,
    }
}

impl Stream {
    /// Folds the stream into the current view of message `target`: `None`
    /// when no such message was ever sent in this stream.
    pub fn materialize(&self, target: MessageIndex) -> (r: Option<MessageView>)
        requires
            self.wf(),
        ensures
            r == spec_materialize(self.events@, target),
    {
        let n = self.events.len();
        let mut acc: Option<MessageView> = None;
        proof {
            assert(self.events@.take(0) =~= Seq::<Event>::empty());
        }
        for i in 0..n
            invariant
                self.wf(),
                n == self.events@.len(),
                acc == spec_materialize(self.events@.take(i as int), target),
        {
            let e = &self.events[i];
            acc = match acc {
                Some(v) => Some(apply_overlay_event(v, e)),
                None => match e.payload {
                    EventPayload::Message { message_id, sender, content, .. } => {
                        if e.message_index == Some(target) {
                            Some(
                                MessageView {
                                    message_index: target,
                                    message_id,
                                    sender,
                                    content,
                                    deleted: false,
                                    last_updated: e.timestamp,
                                },
                            )
                        } else {
                            None
                        }
                    },
                    _ => None,
                },
            };
            proof {
                assert(self.events@.take(i + 1).drop_last() =~= self.events@.take(i as int));
                assert(self.events@.take(i + 1).last() == self.events@[i as int]);
            }
        }
        proof {
            assert(self.events@.take(n as int) =~= self.events@);
        }
        acc
    }
}

/// Why an event log operation can fail.
#[derive(Clone, Copy, PartialEq, Eq, Structural, Debug)]
pub enum EventLogError {
    /// The root message has no associated thread stream (or no such message
    /// exists to branch from).
    ThreadNotFound,
}

/// A thread stream together with the root message it branches from.
pub struct ThreadStream {
    pub root: MessageIndex,
    pub stream: Stream,
}

/// The event log of one entity: the main stream plus the thread streams.
/// Streams are created lazily on first event.
pub struct EventLog {
    pub main: Stream,
    pub threads: Vec<ThreadStream>,
}

impl EventLog {
    /// Well-formedness: every stream is well-formed, each root has at most
    /// one thread stream, and every root names a message that exists in the
    /// main stream.
    pub open spec fn inv(&self) -> bool {
        &&& self.main.wf()
        &&& forall|i: int| 0 <= i < self.threads@.len() ==> (#[trigger] self.threads@[i]).stream.wf()
        &&& forall|i: int, j: int|
            0 <= i < j < self.threads@.len() ==> self.threads@[i].root != self.threads@[j].root
        &&& forall|i: int|
            0 <= i < self.threads@.len() ==> self.main.start_message_index <= (
            #[trigger] self.threads@[i]).root < self.main.next_message_index_spec()
    }

    /// Room for one more event in every stream: a machine limit.
    pub open spec fn can_push(&self) -> bool {
        &&& self.main.can_push()
        &&& forall|i: int| 0 <= i < self.threads@.len() ==> (#[trigger] self.threads@[i]).stream.can_push()
    }

    pub open spec fn spec_has_thread(&self, root: MessageIndex) -> bool {
        exists|i: int| 0 <= i < self.threads@.len() && self.threads@[i].root == root
    }

    /// Whether a message with index `root` exists in the main stream.
    pub open spec fn spec_main_has_message(&self, root: MessageIndex) -> bool {
        self.main.start_message_index <= root < self.main.next_message_index_spec()
    }

    /// An empty log whose allocators begin at zero.
    pub fn new() -> (r: EventLog)
        ensures
            r.inv(),
            r.can_push(),
            r.main.start_event_index == 0,
            r.main.start_message_index == 0,
            r.main.events@ == Seq::<Event>::empty(),
            r.threads@ == Seq::<ThreadStream>::empty(),
    {
        EventLog { main: Stream::new(0, 0), threads: Vec::new() }
    }

    /// Where the thread stream for `root` is stored, if one exists.
    fn thread_index(&self, root: MessageIndex) -> (r: Option<usize>)
        ensures
            r matches Some(i) ==> i < self.threads@.len() && self.threads@[i as int].root == root,
            r is Some <==> self.spec_has_thread(root),
    {
        let n = self.threads.len();
        for i in 0..n
            invariant
                n == self.threads@.len(),
                forall|j: int| 0 <= j < i ==> self.threads@[j].root != root,
        {
            if self.threads[i].root == root {
                return Some(i);
            }
        }
        None
    }

    /// Appends to the main stream.
    pub fn push_main(
        &mut self,
        payload: EventPayload,
        correlation_id: u64,
        expires_at: Option<TimestampMillis>,
        now: TimestampMillis,
    ) -> (e: Event)
        requires
            old(self).inv(),
            old(self).main.can_push(),
        ensures
            final(self).inv(),
            final(self).threads@ == old(self).threads@,
            stream_pushed(
                old(self).main,
                final(self).main,
                e,
                payload,
                correlation_id,
                expires_at,
                now,
            ),
    {
        let e = self.main.push(payload, correlation_id, expires_at, now);
        proof {
            assert(self.main.events@.drop_last() =~= old(self).main.events@);
            assert(old(self).main.next_message_index_spec()
                <= self.main.next_message_index_spec());
        }
        e
    }

    /// Appends to the chosen stream: the main one, or the thread branching
    /// from the given root message. A thread stream is created lazily on its
    /// first event, with allocators continuing from the parent's high-water
    /// marks so numbering never restarts at zero. Fails exactly when a thread
    /// root is given that has no stream and no such message to branch from.
    pub fn push(
        &mut self,
        thread_root: Option<MessageIndex>,
        payload: EventPayload,
        correlation_id: u64,
        expires_at: Option<TimestampMillis>,
        now: TimestampMillis,
    ) -> (r: Result<Event, EventLogError>)
        requires
            old(self).inv(),
            old(self).can_push(),
        ensures
            final(self).inv(),
            r is Err <==> (thread_root matches Some(root) && !old(self).spec_has_thread(root)
                && !old(self).spec_main_has_message(root)),
            r is Err ==> *final(self) == *old(self),
            thread_root is None ==> final(self).threads@ == old(self).threads@ && (r matches Ok(e)
                && stream_pushed(
                old(self).main,
                final(self).main,
                e,
                payload,
                correlation_id,
                expires_at,
                now,
            )),
            thread_root is Some ==> final(self).main == old(self).main,
            thread_root matches Some(root) ==> old(self).spec_has_thread(root) ==> (r matches Ok(
                e,
            ) && exists|i: int|
                0 <= i < old(self).threads@.len() && old(self).threads@[i].root == root && final(self).threads@ == old(self).threads@.update(
                    i,
                    (ThreadStream { root, stream: final(self).threads@[i].stream }),
                ) && stream_pushed(
                    old(self).threads@[i].stream,
                    final(self).threads@[i].stream,
                    e,
                    payload,
                    correlation_id,
                    expires_at,
                    now,
                )),
            thread_root matches Some(root) ==> !old(self).spec_has_thread(root) && old(
                self,
            ).spec_main_has_message(root) ==> (r matches Ok(e) && final(self).threads@.len() == old(
                self,
            ).threads@.len() + 1 && final(self).threads@ == old(self).threads@.push(
                final(self).threads@.last(),
            ) && final(self).threads@.last().root == root && final(self).threads@.last().stream.start_event_index == old(self).main.next_event_index_spec()
                && final(self).threads@.last().stream.start_message_index == old(
                self,
            ).main.next_message_index_spec() && final(self).threads@.last().stream.events@ == seq![e]
                && e == (Event {
                index: old(self).main.next_event_index_spec() as u64,
                timestamp: now,
                correlation_id,
                expires_at,
                message_index: if is_message(payload) {
                    Some(old(self).main.next_message_index_spec() as u64)
                } else {
                    None
                },
                payload,
            })),
    {
        match thread_root {
            None => Ok(self.push_main(payload, correlation_id, expires_at, now)),
            Some(root) => {
                match self.thread_index(root) {
                    Some(i) => {
                        let t = &mut self.threads[i];
                        let e = t.stream.push(payload, correlation_id, expires_at, now);
                        proof {
                            let olds = old(self).threads@;
                            let news = self.threads@;
                            assert(news == olds.update(
                                i as int,
                                (ThreadStream { root, stream: news[i as int].stream }),
                            ));
                            assert forall|a: int, b: int|
                                0 <= a < b < news.len() implies news[a].root != news[b].root by {
                                assert(news[a].root == olds[a].root);
                                assert(news[b].root == olds[b].root);
                            }
                        }
                        Ok(e)
                    },
                    None => {
                        if root >= self.main.start_message_index && root
                            < self.main.next_message_index() {
                            let start_event = self.main.next_event_index();
                            let start_msg = self.main.next_message_index();
                            let mut stream = Stream::new(start_event, start_msg);
                            let e = stream.push(payload, correlation_id, expires_at, now);
                            let ghost olds = self.threads@;
                            self.threads.push(ThreadStream { root, stream });
                            proof {
                                let news = self.threads@;
                                assert(news.last() == news[olds.len() as int]);
                                assert(news.last().stream.events@ =~= seq![e]);
                                assert forall|a: int, b: int|
                                    0 <= a < b < news.len() implies news[a].root != news[b].root by {
                                    if b < olds.len() {
                                        assert(olds[a].root != olds[b].root);
                                    } else {
                                        assert(news[a].root == olds[a].root);
                                        assert(!old(self).spec_has_thread(root));
                                    }
                                }
                            }
                            Ok(e)
                        } else {
                            Err(EventLogError::ThreadNotFound)
                        }
                    },
                }
            },
        }
    }

    /// A window of the chosen stream; see [`Stream::read_window`]. Fails
    /// exactly when a thread root is given that has no stream.
    pub fn read_window(
        &self,
        thread_root: Option<MessageIndex>,
        mid_point: EventIndex,
        max_events: u32,
        max_messages: u32,
        min_visible: EventIndex,
    ) -> (r: Result<Vec<Event>, EventLogError>)
        requires
            self.inv(),
        ensures
            r is Err <==> (thread_root matches Some(root) && !self.spec_has_thread(root)),
            thread_root is None ==> (r matches Ok(v) ==> read_window_post(
                self.main,
                mid_point,
                max_events,
                max_messages,
                min_visible,
                v@,
            )),
            thread_root matches Some(root) ==> (r matches Ok(v) ==> exists|i: int|
                0 <= i < self.threads@.len() && self.threads@[i].root == root && read_window_post(
                    (#[trigger] self.threads@[i]).stream,
                    mid_point,
                    max_events,
                    max_messages,
                    min_visible,
                    v@,
                )),
    {
        match thread_root {
            None => Ok(self.main.read_window(mid_point, max_events, max_messages, min_visible)),
            Some(root) => {
                match self.thread_index(root) {
                    Some(i) => Ok(
                        self.threads[i].stream.read_window(
                            mid_point,
                            max_events,
                            max_messages,
                            min_visible,
                        ),
                    ),
                    None => Err(EventLogError::ThreadNotFound),
                }
            },
        }
    }

    /// A bounded directional read of the chosen stream; see [`Stream::read`].
    /// Fails exactly when a thread root is given that has no stream.
    pub fn read(
        &self,
        thread_root: Option<MessageIndex>,
        start_index: EventIndex,
        ascending: bool,
        max_events: u32,
        max_messages: u32,
        min_visible: EventIndex,
    ) -> (r: Result<Vec<Event>, EventLogError>)
        requires
            self.inv(),
        ensures
            r is Err <==> (thread_root matches Some(root) && !self.spec_has_thread(root)),
            thread_root is None ==> (r matches Ok(v) ==> read_post(
                self.main,
                start_index,
                ascending,
                max_events,
                max_messages,
                min_visible,
                v@,
            )),
            thread_root matches Some(root) ==> (r matches Ok(v) ==> exists|i: int|
                0 <= i < self.threads@.len() && self.threads@[i].root == root && read_post(
                    (#[trigger] self.threads@[i]).stream,
                    start_index,
                    ascending,
                    max_events,
                    max_messages,
                    min_visible,
                    v@,
                )),
    {
        match thread_root {
            None => Ok(
                self.main.read(start_index, ascending, max_events, max_messages, min_visible),
            ),
            Some(root) => {
                match self.thread_index(root) {
                    Some(i) => Ok(
                        self.threads[i].stream.read(
                            start_index,
                            ascending,
                            max_events,
                            max_messages,
                            min_visible,
                        ),
                    ),
                    None => Err(EventLogError::ThreadNotFound),
                }
            },
        }
    }

    /// The requested events of the chosen stream that exist and are visible;
    /// see [`Stream::read_by_index`].
    pub fn read_by_index(
        &self,
        thread_root: Option<MessageIndex>,
        indices: &Vec<EventIndex>,
        min_visible: EventIndex,
    ) -> (r: Result<Vec<Event>, EventLogError>)
        requires
            self.inv(),
        ensures
            r is Err <==> (thread_root matches Some(root) && !self.spec_has_thread(root)),
            thread_root is None ==> (r matches Ok(v) ==> v@ == spec_read_by_index(
                self.main,
                indices@,
                min_visible,
            )),
            thread_root matches Some(root) ==> (r matches Ok(v) ==> exists|i: int|
                0 <= i < self.threads@.len() && self.threads@[i].root == root && v@
                    == spec_read_by_index(
                    (#[trigger] self.threads@[i]).stream,
                    indices@,
                    min_visible,
                )),
    {
        match thread_root {
            None => Ok(self.main.read_by_index(indices, min_visible)),
            Some(root) => {
                match self.thread_index(root) {
                    Some(i) => Ok(self.threads[i].stream.read_by_index(indices, min_visible)),
                    None => Err(EventLogError::ThreadNotFound),
                }
            },
        }
    }

    /// The folded view of message `target` in the chosen stream; see
    /// [`Stream::materialize`].
    pub fn message_view(&self, thread_root: Option<MessageIndex>, target: MessageIndex) -> (r:
        Result<Option<MessageView>, EventLogError>)
        requires
            self.inv(),
        ensures
            r is Err <==> (thread_root matches Some(root) && !self.spec_has_thread(root)),
            thread_root is None ==> (r matches Ok(v) ==> v == spec_materialize(
                self.main.events@,
                target,
            )),
            thread_root matches Some(root) ==> (r matches Ok(v) ==> exists|i: int|
                0 <= i < self.threads@.len() && self.threads@[i].root == root && v
                    == spec_materialize((#[trigger] self.threads@[i]).stream.events@, target)),
    {
        match thread_root {
            None => Ok(self.main.materialize(target)),
            Some(root) => {
                match self.thread_index(root) {
                    Some(i) => Ok(self.threads[i].stream.materialize(target)),
                    None => Err(EventLogError::ThreadNotFound),
                }
            },
        }
    }
}

/// One more position taken in counts one more message exactly when that
/// position holds a message.
pub proof fn lemma_message_count_take_step(s: Seq<Event>, i: int)
    requires
        0 <= i < s.len(),
    ensures
        message_count(s.take(i + 1)) == message_count(s.take(i)) + (if is_message(s[i].payload) {
            1nat
        } else {
            0nat
        }),
{
    assert(s.take(i + 1).drop_last() =~= s.take(i));
    assert(s.take(i + 1).last() == s[i]);
}

/// The message count of a prefix grows with the prefix.
pub proof fn lemma_message_count_take_mono(s: Seq<Event>, i: int, j: int)
    requires
        0 <= i <= j <= s.len(),
    ensures
        message_count(s.take(i)) <= message_count(s.take(j)),
    decreases j - i,
{
    if i < j {
        lemma_message_count_take_mono(s, i, j - 1);
        lemma_message_count_take_step(s, j - 1);
    }
}

/// Law: within one stream, the event indices returned by successive pushes
/// are strictly increasing with no gaps: the i-th stored event has index
/// `start_event_index + i`.
pub proof fn lemma_event_indices_contiguous(s: Stream)
    requires
        s.wf(),
    ensures
        forall|i: int|
            0 <= i < s.events@.len() ==> (#[trigger] s.events@[i]).index == s.start_event_index + i,
        forall|i: int, j: int|
            0 <= i < j < s.events@.len() ==> s.events@[i].index < s.events@[j].index,
{
    assert forall|i: int|
        0 <= i < s.events@.len() implies (#[trigger] s.events@[i]).index == s.start_event_index
        + i by {
        assert(event_ok(s.events@, s.start_event_index, s.start_message_index, i));
    }
}

/// Law: message indices are assigned exactly to message-producing events and
/// are strictly increasing with no gaps, independent of the non-message
/// events interleaved between them: the event holding the k-th message
/// carries message index `start_message_index + k`.
pub proof fn lemma_message_indices_contiguous(s: Stream)
    requires
        s.wf(),
    ensures
        forall|i: int|
            0 <= i < s.events@.len() ==> ((#[trigger] s.events@[i]).message_index is Some
                <==> is_message(s.events@[i].payload)),
        forall|i: int|
            0 <= i < s.events@.len() && is_message((#[trigger] s.events@[i]).payload)
                ==> s.events@[i].message_index == Some(
                (s.start_message_index + message_count(s.events@.take(i))) as MessageIndex,
            ),
        forall|i: int, j: int|
            0 <= i < j < s.events@.len() && is_message(s.events@[i].payload) && is_message(
                s.events@[j].payload,
            ) ==> message_count(s.events@.take(i)) < message_count(s.events@.take(j)),
{
    assert forall|i: int|
        0 <= i < s.events@.len() implies ((#[trigger] s.events@[i]).message_index is Some
        <==> is_message(s.events@[i].payload)) by {
        assert(event_ok(s.events@, s.start_event_index, s.start_message_index, i));
    }
    assert forall|i: int|
        0 <= i < s.events@.len() && is_message((#[trigger] s.events@[i]).payload) implies s.events@[i].message_index
        == Some((s.start_message_index + message_count(s.events@.take(i))) as MessageIndex) by {
        assert(event_ok(s.events@, s.start_event_index, s.start_message_index, i));
        lemma_message_count_take_mono(s.events@, i, s.events@.len() as int);
        assert(s.events@.take(s.events@.len() as int) =~= s.events@);
    }
    assert forall|i: int, j: int|
        0 <= i < j < s.events@.len() && is_message(s.events@[i].payload) && is_message(
            s.events@[j].payload,
        ) implies message_count(s.events@.take(i)) < message_count(s.events@.take(j)) by {
        lemma_message_count_take_step(s.events@, i);
        lemma_message_count_take_mono(s.events@, i + 1, j);
    }
}

/// The storage offset an ascending read begins at: `start_index` clamped
/// into the visible range (the length when nothing at or after it is
/// visible).
pub open spec fn asc_start(s: Stream, start_index: EventIndex, min_visible: EventIndex) -> int {
    let lo0 = visible_lo(s, min_visible);
    let len = s.events@.len() as int;
    if start_index <= s.start_event_index + lo0 {
        lo0
    } else if start_index - s.start_event_index >= len {
        len
    } else {
        start_index - s.start_event_index
    }
}

/// The storage offset a descending read begins at, or `-1` when no visible
/// event lies at or before `start_index`.
pub open spec fn desc_start(s: Stream, start_index: EventIndex, min_visible: EventIndex) -> int {
    let lo0 = visible_lo(s, min_visible);
    let len = s.events@.len() as int;
    if lo0 == len || start_index < s.start_event_index + lo0 {
        -1
    } else if start_index - s.start_event_index >= len {
        len - 1
    } else {
        start_index - s.start_event_index
    }
}

/// Everything [`Stream::read`] promises of its result.
pub open spec fn read_post(
    s: Stream,
    start_index: EventIndex,
    ascending: bool,
    max_events: u32,
    max_messages: u32,
    min_visible: EventIndex,
    r: Seq<Event>,
) -> bool {
    let lo0 = visible_lo(s, min_visible);
    let len = s.events@.len() as int;
    &&& (ascending ==> {
        let p = asc_start(s, start_index, min_visible);
        &&& p + r.len() <= len
        &&& r == s.events@.subrange(p, p + r.len())
        &&& r.len() <= max_events
        &&& message_count(r) <= max_messages
        &&& (p + r.len() == len || r.len() == max_events || message_count(r) == max_messages)
    })
    &&& (!ascending ==> {
        let q = desc_start(s, start_index, min_visible);
        &&& (q == -1 ==> r.len() == 0)
        &&& (q >= 0 ==> {
            &&& r.len() <= q + 1 - lo0
            &&& (forall|i: int| 0 <= i < r.len() ==> r[i] == s.events@[q - i])
            &&& r.len() <= max_events
            &&& message_count(r) <= max_messages
            &&& (q + 1 - r.len() == lo0 || r.len() == max_events || message_count(r)
                == max_messages)
        })
    })
    &&& (forall|i: int| 0 <= i < r.len() ==> (#[trigger] r[i]).index >= min_visible)
}

impl Stream {
    /// A bounded directional read: visible events from `start_index` on,
    /// walking forward or backward, capped by whichever of `max_events` /
    /// `max_messages` is hit first. A descending read returns newest first.
    pub fn read(
        &self,
        start_index: EventIndex,
        ascending: bool,
        max_events: u32,
        max_messages: u32,
        min_visible: EventIndex,
    ) -> (r: Vec<Event>)
        requires
            self.wf(),
        ensures
            read_post(*self, start_index, ascending, max_events, max_messages, min_visible, r@),
    {
        let len = self.events.len();
        let lo0: usize = if min_visible <= self.start_event_index {
            0
        } else {
            let d = min_visible - self.start_event_index;
            if d >= len as u64 {
                len
            } else {
                d as usize
            }
        };
        assert(lo0 == visible_lo(*self, min_visible));
        let mut out: Vec<Event> = Vec::new();
        let mut msgs: u32 = 0;
        if ascending {
            let p: usize = if start_index <= self.start_event_index + lo0 as u64 {
                lo0
            } else {
                let d = start_index - self.start_event_index;
                if d >= len as u64 {
                    len
                } else {
                    d as usize
                }
            };
            assert(p == asc_start(*self, start_index, min_visible));
            let mut j: usize = p;
            proof {
                assert(out@ =~= self.events@.subrange(p as int, p as int));
                assert(message_count(out@) == 0);
            }
            while j < len && out.len() < max_events as usize && msgs < max_messages
                invariant
                    self.wf(),
                    len == self.events@.len(),
                    p == asc_start(*self, start_index, min_visible),
                    lo0 == visible_lo(*self, min_visible),
                    lo0 <= p <= j <= len,
                    out@ == self.events@.subrange(p as int, j as int),
                    out@.len() == j - p,
                    msgs == message_count(out@),
                    msgs <= max_messages,
                    out@.len() <= max_events,
                decreases len - j,
            {
                let ghost pre = out@;
                if payload_is_message(&self.events[j].payload) {
                    msgs = msgs + 1;
                }
                out.push(self.events[j]);
                j = j + 1;
                proof {
                    assert(out@.drop_last() =~= pre);
                    assert(out@ =~= self.events@.subrange(p as int, j as int));
                }
            }
            proof {
                assert forall|i: int| 0 <= i < out@.len() implies (#[trigger] out@[i]).index
                    >= min_visible by {
                    assert(out@[i] == self.events@[p + i]);
                    assert(event_ok(
                        self.events@,
                        self.start_event_index,
                        self.start_message_index,
                        p + i,
                    ));
                }
            }
        } else {
            if lo0 < len && start_index >= self.start_event_index + lo0 as u64 {
                let q: usize = {
                    let d = start_index - self.start_event_index;
                    if d >= len as u64 {
                        len - 1
                    } else {
                        d as usize
                    }
                };
                assert(q == desc_start(*self, start_index, min_visible));
                let mut j: usize = q + 1;
                proof {
                    assert(message_count(out@) == 0);
                }
                while j > lo0 && out.len() < max_events as usize && msgs < max_messages
                    invariant
                        self.wf(),
                        len == self.events@.len(),
                        q == desc_start(*self, start_index, min_visible),
                        lo0 == visible_lo(*self, min_visible),
                        lo0 <= j <= q + 1,
                        q < len,
                        out@.len() == q + 1 - j,
                        forall|i: int| 0 <= i < out@.len() ==> out@[i] == self.events@[q - i],
                        msgs == message_count(out@),
                        msgs <= max_messages,
                        out@.len() <= max_events,
                    decreases j,
                {
                    let ghost pre = out@;
                    j = j - 1;
                    if payload_is_message(&self.events[j].payload) {
                        msgs = msgs + 1;
                    }
                    out.push(self.events[j]);
                    proof {
                        assert(out@.drop_last() =~= pre);
                        assert(out@.last() == self.events@[j as int]);
                    }
                }
                proof {
                    assert forall|i: int| 0 <= i < out@.len() implies (#[trigger] out@[i]).index
                        >= min_visible by {
                        assert(out@[i] == self.events@[q - i]);
                        assert(event_ok(
                            self.events@,
                            self.start_event_index,
                            self.start_message_index,
                            q - i,
                        ));
                    }
                }
            } else {
                proof {
                    assert(desc_start(*self, start_index, min_visible) == -1);
                }
            }
        }
        out
    }
}

/// Folding finds a view exactly when a base message event exists.
proof fn lemma_materialize_some_iff_base(s: Seq<Event>, target: MessageIndex)
    ensures
        spec_materialize(s, target) is Some <==> exists|i: int|
            0 <= i < s.len() && s[i].message_index == Some(target) && is_message(s[i].payload),
    decreases s.len(),
{
    if s.len() > 0 {
        let d = s.drop_last();
        lemma_materialize_some_iff_base(d, target);
        if spec_materialize(s, target) is Some {
            if spec_materialize(d, target) is Some {
                let i = choose|i: int|
                    0 <= i < d.len() && d[i].message_index == Some(target) && is_message(
                        d[i].payload,
                    );
                assert(s[i].message_index == Some(target) && is_message(s[i].payload));
            } else {
                assert(s[s.len() - 1].message_index == Some(target) && is_message(
                    s[s.len() - 1].payload,
                ));
            }
        }
        if exists|i: int|
            0 <= i < s.len() && s[i].message_index == Some(target) && is_message(s[i].payload) {
            let i = choose|i: int|
                0 <= i < s.len() && s[i].message_index == Some(target) && is_message(s[i].payload);
            if i < s.len() - 1 {
                assert(d[i].message_index == Some(target) && is_message(d[i].payload));
                assert(spec_materialize(d, target) is Some);
            } else {
                if !(spec_materialize(d, target) is Some) {
                    assert(s.last() == s[i]);
                    assert(spec_materialize(s, target) is Some);
                }
            }
        }
    }
}

/// A sequence holding more than `k` messages holds a `k`-th one.
proof fn lemma_kth_message_exists(s: Seq<Event>, k: nat)
    requires
        k < message_count(s),
    ensures
        exists|i: int|
            0 <= i < s.len() && is_message(#[trigger] s[i].payload) && message_count(s.take(i))
                == k,
    decreases s.len(),
{
    let d = s.drop_last();
    if is_message(s.last().payload) && message_count(d) == k {
        assert(s.take(s.len() - 1) =~= d);
        assert(0 <= s.len() - 1 < s.len() && is_message(s[s.len() - 1].payload) && message_count(
            s.take(s.len() - 1),
        ) == k);
    } else {
        lemma_kth_message_exists(d, k);
        let i = choose|i: int|
            0 <= i < d.len() && is_message(#[trigger] d[i].payload) && message_count(d.take(i))
                == k;
        assert(s.take(i) =~= d.take(i));
        assert(is_message(s[i].payload));
    }
}

/// Law: folding a well-formed stream yields a message view exactly for the
/// message indices the stream has allocated so far.
pub proof fn lemma_materialize_some_iff_allocated(s: Stream, target: MessageIndex)
    requires
        s.wf(),
    ensures
        spec_materialize(s.events@, target) is Some <==> (s.start_message_index <= target
            < s.next_message_index_spec()),
{
    lemma_materialize_some_iff_base(s.events@, target);
    if spec_materialize(s.events@, target) is Some {
        let i = choose|i: int|
            0 <= i < s.events@.len() && s.events@[i].message_index == Some(target) && is_message(
                s.events@[i].payload,
            );
        assert(event_ok(s.events@, s.start_event_index, s.start_message_index, i));
        lemma_message_count_take_step(s.events@, i);
        lemma_message_count_take_mono(s.events@, i + 1, s.events@.len() as int);
        assert(s.events@.take(s.events@.len() as int) =~= s.events@);
    }
    if s.start_message_index <= target < s.next_message_index_spec() {
        let k = (target - s.start_message_index) as nat;
        lemma_kth_message_exists(s.events@, k);
        let i = choose|i: int|
            0 <= i < s.events@.len() && is_message(#[trigger] s.events@[i].payload)
                && message_count(s.events@.take(i)) == k;
        assert(event_ok(s.events@, s.start_event_index, s.start_message_index, i));
        assert(s.events@[i].message_index == Some(target));
    }
}

} // verus!
