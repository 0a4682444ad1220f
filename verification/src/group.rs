//! One group entity: its event log, membership roster, configuration, and
//! the gated-join admission protocol. The protocol has three phases: a
//! synchronous local validation, a suspension while an external verifier
//! checks the access gate, and a synchronous re-validation and commit. The
//! embedding program drives the suspension; this module owns every decision,
//! and a failed or errored gate check leaves the state untouched.

use crate::access_gate::{
    gate_matches, payment_params, spec_payment_params, AccessGate, CheckGateArgs, GateCheckResult,
};
use crate::event_log::{read_window_post, spec_read_by_index, Event, EventLog, EventPayload};
use crate::ids::{EventIndex, MessageIndex, TimestampMillis, UserId};
use crate::membership::{
    unique_invitation_ids, unique_member_ids, AddMemberArgs, AddResult, GroupRole, Invitation,
    Member, MembershipTable,
};
use vstd::pervasive::unreached;
use vstd::prelude::*;

verus! {

/// A payout queued as a side effect of a committed join through a payment
/// gate. Executing the transfer belongs to the embedding program.
#[derive(Clone, Copy, PartialEq, Eq, Structural, Debug)]
pub struct PendingPayment {
    pub ledger: u64,
    pub amount: u64,
    pub fee: u64,
    pub user_id: UserId,
    pub timestamp: TimestampMillis,
}

/// A join request, already authenticated upstream.
#[derive(Clone, Copy, PartialEq, Eq, Structural, Debug)]
pub struct JoinArgs {
    pub user_id: UserId,
    pub invite_code: Option<u64>,
    pub correlation_id: u64,
    pub is_platform_moderator: bool,
    pub is_bot: bool,
}

/// Every way a join attempt can end.
#[derive(PartialEq, Eq, Debug)]
pub enum JoinResponse {
    Success(Member),
    AlreadyInGroup(Member),
    GateCheckFailed(String),
    InternalError(String),
    ParticipantLimitReached(u32),
    Blocked,
    NotInvited,
    ChatFrozen,
}

/// Phase one's outcome: an early rejection, a suspension on an access
/// gate, or a direct commit when no gate is configured.
pub enum PrepareJoinOutcome {
    Reject(JoinResponse),
    CheckGate(CheckGateArgs),
    Proceed,
}

/// Outcome of a bounded window read on behalf of a caller.
pub enum EventsResult {
    Success(Vec<Event>),
    UserNotInGroup,
    ThreadNotFound,
}

/// The full state of one group entity.
pub struct GroupState {
    pub frozen: bool,
    pub is_public: bool,
    pub invite_code: Option<u64>,
    pub history_visible_to_new_joiners: bool,
    pub min_visible_indexes_for_new_members: Option<(EventIndex, MessageIndex)>,
    pub gate: Option<AccessGate>,
    pub members: MembershipTable,
    pub events: EventLog,
    pub pending_payments: Vec<PendingPayment>,
}

impl GroupState {
    pub open spec fn inv(&self) -> bool {
        &&& self.members.inv()
        &&& self.events.inv()
    }

    /// Whether `user_id` may enter at all: the group is public, or they hold
    /// an invitation, or they present the group's invite code.
    pub open spec fn spec_is_accessible(&self, user_id: UserId, code: Option<u64>) -> bool {
        ||| self.is_public
        ||| self.members.spec_has_invitation(user_id)
        ||| (self.invite_code is Some && code == self.invite_code)
    }

    /// The unique roster row for a member.
    pub open spec fn spec_member_of(&self, user_id: UserId) -> Member {
        choose|m: Member| self.members.members@.contains(m) && m.user_id == user_id
    }

    /// The unique standing invitation, if any.
    pub open spec fn spec_invitation_of(&self, user_id: UserId) -> Option<Invitation> {
        if self.members.spec_has_invitation(user_id) {
            Some(
                choose|inv: Invitation|
                    self.members.invitations@.contains(inv) && inv.user_id == user_id,
            )
        } else {
            None
        }
    }

    /// The visibility pair as the invitation or the group defaults state it,
    /// before clamping.
    pub open spec fn spec_raw_join_visibility(&self, user_id: UserId) -> (
        EventIndex,
        MessageIndex,
    ) {
        match self.spec_invitation_of(user_id) {
            Some(inv) => (inv.min_visible_event_index, inv.min_visible_message_index),
            None => if self.history_visible_to_new_joiners {
                match self.min_visible_indexes_for_new_members {
                    Some(p) => p,
                    None => (0u64, 0u64),
                }
            } else {
                (
                    self.events.main.next_event_index_spec() as u64,
                    self.events.main.next_message_index_spec() as u64,
                )
            },
        }
    }

    /// The visibility pair fixed at join time: from the invitation, from the
    /// group-wide defaults when history is visible, or from "now" (the next
    /// indices) when history is private — clamped so a cutoff never exceeds
    /// the stream's next index at the time of the join.
    pub open spec fn spec_join_visibility(&self, user_id: UserId) -> (EventIndex, MessageIndex) {
        let raw = self.spec_raw_join_visibility(user_id);
        let next_e = self.events.main.next_event_index_spec();
        let next_m = self.events.main.next_message_index_spec();
        (
            if raw.0 <= next_e {
                raw.0
            } else {
                next_e as u64
            },
            if raw.1 <= next_m {
                raw.1
            } else {
                next_m as u64
            },
        )
    }

    /// The roster row a committed join creates.
    pub open spec fn spec_new_member(&self, args: JoinArgs, now: TimestampMillis) -> Member {
        let vis = self.spec_join_visibility(args.user_id);
        Member {
            user_id: args.user_id,
            role: GroupRole::Participant,
            muted: self.is_public,
            joined_at: now,
            min_visible_event_index: vis.0,
            min_visible_message_index: vis.1,
        }
    }

    /// Phase one's local admissibility check: what (if anything) blocks the
    /// join before any access gate is even consulted. Membership is tested
    /// before accessibility, so that replaying an already-committed join
    /// answers the idempotent `AlreadyInGroup` even after the invitation
    /// that admitted the member was consumed.
    pub open spec fn spec_join_obstacle(&self, args: JoinArgs) -> Option<JoinResponse> {
        let u = args.user_id;
        if self.frozen {
            Some(JoinResponse::ChatFrozen)
        } else if self.members.spec_is_member(u) {
            Some(JoinResponse::AlreadyInGroup(self.spec_member_of(u)))
        } else if !self.spec_is_accessible(u, args.invite_code) {
            Some(JoinResponse::NotInvited)
        } else if self.members.spec_limit_reached() {
            Some(JoinResponse::ParticipantLimitReached(self.members.member_limit))
        } else {
            None
        }
    }

    /// Room in the main stream for the (at most two) events a committed join
    /// appends: a machine limit.
    pub open spec fn can_record_join(&self) -> bool {
        &&& self.events.main.next_event_index_spec() + 2 <= u64::MAX
        &&& self.events.main.next_message_index_spec() < u64::MAX
    }
}

/// The event recording that a platform moderator was unblocked on entry.
pub open spec fn spec_unblocked_event(
    pre: GroupState,
    args: JoinArgs,
    now: TimestampMillis,
) -> Event {
    Event {
        index: pre.events.main.next_event_index_spec() as u64,
        timestamp: now,
        correlation_id: args.correlation_id,
        expires_at: None,
        message_index: None,
        payload: EventPayload::MemberUnblocked { user_id: args.user_id, unblocked_by: args.user_id },
    }
}

/// The event recording the committed join, at the given index.
pub open spec fn spec_joined_event(
    pre: GroupState,
    args: JoinArgs,
    now: TimestampMillis,
    index: int,
) -> Event {
    Event {
        index: index as u64,
        timestamp: now,
        correlation_id: args.correlation_id,
        expires_at: None,
        message_index: None,
        payload: EventPayload::MemberJoined {
            user_id: args.user_id,
            invited_by: match pre.spec_invitation_of(args.user_id) {
                Some(inv) => Some(inv.invited_by),
                None => None,
            },
        },
    }
}

/// Everything phase three (re-validate, then commit) promises: exactly one
/// case applies, every rejection leaves the state untouched, a replay of an
/// already-committed join answers `AlreadyInGroup` with the current row and
/// changes nothing, and a success appends the member, consumes the
/// invitation, records the events, and queues the payment payout if a
/// payment gate is configured.
pub open spec fn join_committed(
    pre: GroupState,
    post: GroupState,
    args: JoinArgs,
    now: TimestampMillis,
    r: JoinResponse,
) -> bool {
    let u = args.user_id;
    let accessible = pre.spec_is_accessible(u, args.invite_code);
    let member = pre.members.spec_is_member(u);
    let blocked = pre.members.spec_is_blocked(u);
    let limit = pre.members.spec_limit_reached();
    &&& post.frozen == pre.frozen
    &&& post.is_public == pre.is_public
    &&& post.invite_code == pre.invite_code
    &&& post.history_visible_to_new_joiners == pre.history_visible_to_new_joiners
    &&& post.min_visible_indexes_for_new_members == pre.min_visible_indexes_for_new_members
    &&& post.gate == pre.gate
    &&& post.members.member_limit == pre.members.member_limit
    &&& post.events.threads@ == pre.events.threads@
    &&& post.events.main.start_event_index == pre.events.main.start_event_index
    &&& post.events.main.start_message_index == pre.events.main.start_message_index
    &&& (pre.frozen ==> r == JoinResponse::ChatFrozen && post == pre)
    &&& (!pre.frozen && member ==> r == JoinResponse::AlreadyInGroup(pre.spec_member_of(u)) && post
        == pre)
    &&& (!pre.frozen && !member && !accessible ==> r == JoinResponse::NotInvited && post == pre)
    &&& (!pre.frozen && !member && accessible && blocked && !args.is_platform_moderator ==> r
        == JoinResponse::Blocked && post == pre)
    &&& (!pre.frozen && !member && accessible && (!blocked || args.is_platform_moderator) && limit
        ==> r == JoinResponse::ParticipantLimitReached(pre.members.member_limit) && post == pre)
    &&& (!pre.frozen && !member && accessible && (!blocked || args.is_platform_moderator) && !limit
        ==> {
        &&& r == JoinResponse::Success(pre.spec_new_member(args, now))
        &&& post.members.members@ == pre.members.members@.push(pre.spec_new_member(args, now))
        &&& !post.members.spec_has_invitation(u)
        &&& forall|x: UserId|
            x != u ==> (post.members.spec_has_invitation(x) <==> pre.members.spec_has_invitation(
                x,
            ))
        &&& !post.members.spec_is_blocked(u)
        &&& forall|x: UserId|
            x != u ==> (post.members.spec_is_blocked(x) <==> pre.members.spec_is_blocked(x))
        &&& (blocked ==> post.events.main.events@ == pre.events.main.events@.push(
            spec_unblocked_event(pre, args, now),
        ).push(spec_joined_event(pre, args, now, pre.events.main.next_event_index_spec() + 1)))
        &&& (!blocked ==> post.events.main.events@ == pre.events.main.events@.push(
            spec_joined_event(pre, args, now, pre.events.main.next_event_index_spec()),
        ))
        &&& (match pre.gate {
            Some(g) => match spec_payment_params(g) {
                Some(p) => post.pending_payments@ == pre.pending_payments@.push(
                    (PendingPayment {
                        ledger: p.0,
                        amount: p.1,
                        fee: p.2,
                        user_id: u,
                        timestamp: now,
                    }),
                ),
                None => post.pending_payments@ == pre.pending_payments@,
            },
            None => post.pending_payments@ == pre.pending_payments@,
        })
    })
}

/// Law: the visibility pair fixed at join time never exceeds the stream's
/// next indices at the time of the join.
pub proof fn lemma_join_visibility_bounded(g: GroupState, user_id: UserId)
    requires
        g.events.main.wf(),
    ensures
        g.spec_join_visibility(user_id).0 <= g.events.main.next_event_index_spec(),
        g.spec_join_visibility(user_id).1 <= g.events.main.next_message_index_spec(),
{
}

/// With unique user ids, a roster row is determined by its user.
proof fn lemma_member_det(s: Seq<Member>, m: Member, u: UserId)
    requires
        unique_member_ids(s),
        s.contains(m),
        m.user_id == u,
    ensures
        m == (choose|x: Member| s.contains(x) && x.user_id == u),
{
    assert(s.contains(m) && m.user_id == u);
    let w = choose|x: Member| s.contains(x) && x.user_id == u;
    let i = choose|i: int| 0 <= i < s.len() && s[i] == m;
    let j = choose|j: int| 0 <= j < s.len() && s[j] == w;
    if i != j {
        assert(s[i].user_id != s[j].user_id);
    }
}

/// With unique user ids, an invitation is determined by its user.
proof fn lemma_invitation_det(s: Seq<Invitation>, inv: Invitation, u: UserId)
    requires
        unique_invitation_ids(s),
        s.contains(inv),
        inv.user_id == u,
    ensures
        inv == (choose|x: Invitation| s.contains(x) && x.user_id == u),
{
    assert(s.contains(inv) && inv.user_id == u);
    let w = choose|x: Invitation| s.contains(x) && x.user_id == u;
    let i = choose|i: int| 0 <= i < s.len() && s[i] == inv;
    let j = choose|j: int| 0 <= j < s.len() && s[j] == w;
    if i != j {
        assert(s[i].user_id != s[j].user_id);
    }
}

impl GroupState {
    /// A fresh group with an empty log and roster.
    pub fn new(
        is_public: bool,
        history_visible_to_new_joiners: bool,
        member_limit: u32,
        gate: Option<AccessGate>,
        invite_code: Option<u64>,
    ) -> (r: GroupState)
        ensures
            r.inv(),
            !r.frozen,
            r.is_public == is_public,
            r.history_visible_to_new_joiners == history_visible_to_new_joiners,
            r.members.member_limit == member_limit,
            r.gate == gate,
            r.invite_code == invite_code,
            r.min_visible_indexes_for_new_members is None,
            r.members.members@.len() == 0,
            r.members.blocked@.len() == 0,
            r.members.invitations@.len() == 0,
            r.events.main.events@.len() == 0,
            r.events.main.start_event_index == 0,
            r.events.main.start_message_index == 0,
            r.events.threads@.len() == 0,
            r.pending_payments@.len() == 0,
            r.can_record_join(),
    {
        GroupState {
            frozen: false,
            is_public,
            invite_code,
            history_visible_to_new_joiners,
            min_visible_indexes_for_new_members: None,
            gate,
            members: MembershipTable::new(member_limit),
            events: EventLog::new(),
            pending_payments: Vec::new(),
        }
    }

    /// Executable form of [`GroupState::spec_is_accessible`].
    pub fn is_accessible(&self, user_id: UserId, code: Option<u64>) -> (r: bool)
        ensures
            r == self.spec_is_accessible(user_id, code),
    {
        if self.is_public {
            return true;
        }
        if self.members.get_invitation(user_id).is_some() {
            return true;
        }
        match (self.invite_code, code) {
            (Some(a), Some(b)) => a == b,
            _ => false,
        }
    }

    /// Phase one: validate local admissibility and, if a gate is configured,
    /// snapshot its parameters for the external check. Reads only; phase one
    /// never mutates.
    pub fn prepare_join(&self, args: JoinArgs, now: TimestampMillis) -> (r: PrepareJoinOutcome)
        requires
            self.inv(),
        ensures
            r is Reject <==> self.spec_join_obstacle(args) is Some,
            r matches PrepareJoinOutcome::Reject(resp) ==> Some(resp) == self.spec_join_obstacle(
                args,
            ),
            r is CheckGate <==> (self.spec_join_obstacle(args) is None && self.gate is Some),
            r matches PrepareJoinOutcome::CheckGate(cga) ==> (self.gate matches Some(g)
                && gate_matches(cga.gate, g) && cga.user_id == args.user_id && cga.now == now),
            r is Proceed <==> (self.spec_join_obstacle(args) is None && self.gate is None),
    {
        if self.frozen {
            return PrepareJoinOutcome::Reject(JoinResponse::ChatFrozen);
        }
        match self.members.get(args.user_id) {
            Some(member) => {
                proof {
                    lemma_member_det(self.members.members@, *member, args.user_id);
                }
                return PrepareJoinOutcome::Reject(JoinResponse::AlreadyInGroup(*member));
            },
            None => {},
        }
        if !self.is_accessible(args.user_id, args.invite_code) {
            return PrepareJoinOutcome::Reject(JoinResponse::NotInvited);
        }
        match self.members.user_limit_reached() {
            Some(limit) => {
                return PrepareJoinOutcome::Reject(JoinResponse::ParticipantLimitReached(limit));
            },
            None => {},
        }
        match &self.gate {
            Some(g) => PrepareJoinOutcome::CheckGate(
                CheckGateArgs { gate: g.snapshot(), user_id: args.user_id, now },
            ),
            None => PrepareJoinOutcome::Proceed,
        }
    }

    /// Phase three: re-validate the same local admissibility conditions
    /// against current state (they may have changed during the suspension)
    /// and only then commit: unblock a platform moderator if needed, append
    /// the member, consume the invitation, record the events, and queue the
    /// payment payout. Never commits on pre-suspension state.
    pub fn complete_join(&mut self, args: JoinArgs, now: TimestampMillis) -> (r: JoinResponse)
        requires
            old(self).inv(),
            old(self).can_record_join(),
        ensures
            final(self).inv(),
            join_committed(*old(self), *final(self), args, now, r),
    {
        let u = args.user_id;
        if self.frozen {
            return JoinResponse::ChatFrozen;
        }
        match self.members.get(u) {
            Some(member) => {
                proof {
                    lemma_member_det(self.members.members@, *member, u);
                }
                return JoinResponse::AlreadyInGroup(*member);
            },
            None => {},
        }
        if !self.is_accessible(u, args.invite_code) {
            return JoinResponse::NotInvited;
        }
        let blocked = self.members.is_blocked(u);
        if blocked && !args.is_platform_moderator {
            return JoinResponse::Blocked;
        }
        match self.members.user_limit_reached() {
            Some(limit) => {
                return JoinResponse::ParticipantLimitReached(limit);
            },
            None => {},
        }
        // The visibility pair is fixed from the state seen here, before any
        // event is appended, and clamped so the cutoff never exceeds the
        // stream's next index at the time of the join.
        let raw: (EventIndex, MessageIndex) = match self.members.get_invitation(u) {
            Some(inv) => {
                proof {
                    lemma_invitation_det(self.members.invitations@, *inv, u);
                }
                (inv.min_visible_event_index, inv.min_visible_message_index)
            },
            None => {
                if self.history_visible_to_new_joiners {
                    match self.min_visible_indexes_for_new_members {
                        Some(p) => p,
                        None => (0, 0),
                    }
                } else {
                    (self.events.main.next_event_index(), self.events.main.next_message_index())
                }
            },
        };
        assert(raw == old(self).spec_raw_join_visibility(u));
        let next_e = self.events.main.next_event_index();
        let next_m = self.events.main.next_message_index();
        let vis: (EventIndex, MessageIndex) = (
            if raw.0 <= next_e {
                raw.0
            } else {
                next_e
            },
            if raw.1 <= next_m {
                raw.1
            } else {
                next_m
            },
        );
        assert(vis == old(self).spec_join_visibility(u));
        if blocked {
            // Unblock-and-admit: the elevated path for platform moderators.
            self.members.unblock(u);
            self.events.push_main(
                EventPayload::MemberUnblocked { user_id: u, unblocked_by: u },
                args.correlation_id,
                None,
                now,
            );
            proof {
                assert(self.events.main.events@.drop_last() =~= old(self).events.main.events@);
            }
        }
        let add_result = self.members.add(
            AddMemberArgs {
                user_id: u,
                now,
                min_visible_event_index: vis.0,
                min_visible_message_index: vis.1,
                mute_notifications: self.is_public,
                is_bot: args.is_bot,
            },
        );
        let member: Member = match add_result {
            AddResult::Success(m) => m,
            _ => unreached(),
        };
        let invitation = self.members.remove_invitation(u);
        let invited_by = match invitation {
            Some(inv) => {
                proof {
                    lemma_invitation_det(old(self).members.invitations@, inv, u);
                }
                Some(inv.invited_by)
            },
            None => None,
        };
        self.events.push_main(
            EventPayload::MemberJoined { user_id: u, invited_by },
            args.correlation_id,
            None,
            now,
        );
        let payment: Option<(u64, u64, u64)> = match &self.gate {
            Some(g) => payment_params(g),
            None => None,
        };
        match payment {
            Some(p) => {
                self.pending_payments.push(
                    PendingPayment {
                        ledger: p.0,
                        amount: p.1,
                        fee: p.2,
                        user_id: u,
                        timestamp: now,
                    },
                );
            },
            None => {},
        }
        proof {
            if old(self).members.spec_is_blocked(u) {
                assert(self.events.main.events@ =~= old(self).events.main.events@.push(
                    spec_unblocked_event(*old(self), args, now),
                ).push(
                    spec_joined_event(
                        *old(self),
                        args,
                        now,
                        old(self).events.main.next_event_index_spec() + 1,
                    ),
                ));
            } else {
                assert(self.events.main.events@ =~= old(self).events.main.events@.push(
                    spec_joined_event(
                        *old(self),
                        args,
                        now,
                        old(self).events.main.next_event_index_spec(),
                    ),
                ));
            }
            assert(member == old(self).spec_new_member(args, now));
        }
        JoinResponse::Success(member)
    }

    /// Phase two's resumption: interpret the external verifier's outcome. A
    /// `Failed` or `InternalError` outcome is terminal for this attempt and
    /// leaves the whole state untouched; only `Success` proceeds to the
    /// re-validating commit.
    pub fn resume_join(
        &mut self,
        args: JoinArgs,
        outcome: GateCheckResult,
        now: TimestampMillis,
    ) -> (r: JoinResponse)
        requires
            old(self).inv(),
            old(self).can_record_join(),
        ensures
            final(self).inv(),
            outcome matches GateCheckResult::Failed(reason) ==> *final(self) == *old(self) && r
                == JoinResponse::GateCheckFailed(reason),
            outcome matches GateCheckResult::InternalError(detail) ==> *final(self) == *old(self)
                && r == JoinResponse::InternalError(detail),
            outcome is Success ==> join_committed(*old(self), *final(self), args, now, r),
    {
        match outcome {
            GateCheckResult::Success => self.complete_join(args, now),
            GateCheckResult::Failed(reason) => JoinResponse::GateCheckFailed(reason),
            GateCheckResult::InternalError(detail) => JoinResponse::InternalError(detail),
        }
    }

    /// The requested events, on behalf of `caller`: only those that exist
    /// and lie within the caller's visibility are returned; the rest are
    /// omitted, not errored.
    pub fn events_by_index(
        &self,
        caller: UserId,
        thread_root: Option<MessageIndex>,
        indices: &Vec<EventIndex>,
    ) -> (r: EventsResult)
        requires
            self.inv(),
        ensures
            r is UserNotInGroup <==> !self.members.spec_is_member(caller),
            r is ThreadNotFound <==> (thread_root matches Some(root)
                && self.members.spec_is_member(caller) && !(self.events.spec_has_thread(root)
                && root >= self.spec_member_of(caller).min_visible_message_index)),
            thread_root is None && self.members.spec_is_member(caller) ==> (r
                matches EventsResult::Success(v) && v@ == spec_read_by_index(
                self.events.main,
                indices@,
                self.spec_member_of(caller).min_visible_event_index,
            )),
            thread_root matches Some(root) ==> (self.members.spec_is_member(caller)
                && self.events.spec_has_thread(root) && root >= self.spec_member_of(
                caller,
            ).min_visible_message_index ==> (r matches EventsResult::Success(v) && exists|i: int|
                0 <= i < self.events.threads@.len() && self.events.threads@[i].root == root && v@
                    == spec_read_by_index(
                    (#[trigger] self.events.threads@[i]).stream,
                    indices@,
                    0,
                ))),
    {
        let member = match self.members.get(caller) {
            Some(m) => {
                proof {
                    lemma_member_det(self.members.members@, *m, caller);
                }
                *m
            },
            None => {
                return EventsResult::UserNotInGroup;
            },
        };
        match thread_root {
            None => {
                let v = match self.events.read_by_index(
                    None,
                    indices,
                    member.min_visible_event_index,
                ) {
                    Ok(v) => v,
                    Err(_) => unreached(),
                };
                EventsResult::Success(v)
            },
            Some(root) => {
                if root < member.min_visible_message_index {
                    return EventsResult::ThreadNotFound;
                }
                match self.events.read_by_index(Some(root), indices, 0) {
                    Ok(v) => EventsResult::Success(v),
                    Err(_) => EventsResult::ThreadNotFound,
                }
            },
        }
    }

    /// A bounded window of events around `mid_point`, on behalf of `caller`:
    /// never an event below the caller's visibility cutoff. A thread is
    /// readable only when its root message is itself visible to the caller;
    /// within it, the caller sees every event.
    pub fn events_window(
        &self,
        caller: UserId,
        thread_root: Option<MessageIndex>,
        mid_point: EventIndex,
        max_messages: u32,
        max_events: u32,
    ) -> (r: EventsResult)
        requires
            self.inv(),
        ensures
            r is UserNotInGroup <==> !self.members.spec_is_member(caller),
            r is ThreadNotFound <==> (thread_root matches Some(root)
                && self.members.spec_is_member(caller) && !(self.events.spec_has_thread(root)
                && root >= self.spec_member_of(caller).min_visible_message_index)),
            thread_root is None && self.members.spec_is_member(caller) ==> (r
                matches EventsResult::Success(v) && read_window_post(
                self.events.main,
                mid_point,
                max_events,
                max_messages,
                self.spec_member_of(caller).min_visible_event_index,
                v@,
            )),
            thread_root matches Some(root) ==> (self.members.spec_is_member(caller)
                && self.events.spec_has_thread(root) && root >= self.spec_member_of(
                caller,
            ).min_visible_message_index ==> (r matches EventsResult::Success(v) && exists|i: int|
                0 <= i < self.events.threads@.len() && self.events.threads@[i].root == root
                    && read_window_post(
                    (#[trigger] self.events.threads@[i]).stream,
                    mid_point,
                    max_events,
                    max_messages,
                    0,
                    v@,
                ))),
    {
        let member = match self.members.get(caller) {
            Some(m) => {
                proof {
                    lemma_member_det(self.members.members@, *m, caller);
                }
                *m
            },
            None => {
                return EventsResult::UserNotInGroup;
            },
        };
        match thread_root {
            None => {
                let v = match self.events.read_window(
                    None,
                    mid_point,
                    max_events,
                    max_messages,
                    member.min_visible_event_index,
                ) {
                    Ok(v) => v,
                    Err(_) => unreached(),
                };
                EventsResult::Success(v)
            },
            Some(root) => {
                if root < member.min_visible_message_index {
                    return EventsResult::ThreadNotFound;
                }
                match self.events.read_window(Some(root), mid_point, max_events, max_messages, 0) {
                    Ok(v) => EventsResult::Success(v),
                    Err(_) => EventsResult::ThreadNotFound,
                }
            },
        }
    }
}

} // verus!
