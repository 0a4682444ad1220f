//! The membership roster of one conversation entity: members with roles,
//! mute flags and visibility windows, a block list, and invitations. This
//! component trusts that its callers were authorized upstream; it enforces
//! only the admission rules that depend on its own state.

use crate::ids::{lemma_unique_u64s_remove, unique_u64s, EventIndex, MessageIndex, TimestampMillis, UserId};
use vstd::prelude::*;

verus! {

/// A member's role. Role changes are a simple total-order override; privilege
/// checks belong to the caller.
#[derive(Clone, Copy, PartialEq, Eq, Structural, Debug)]
pub enum GroupRole {
    Owner,
    Admin,
    Moderator,
    Participant,
}

/// One roster row. The visibility pair is fixed at join time and never
/// decreases afterwards.
#[derive(Clone, Copy, PartialEq, Eq, Structural, Debug)]
pub struct Member {
    pub user_id: UserId,
    pub role: GroupRole,
    pub muted: bool,
    pub joined_at: TimestampMillis,
    pub min_visible_event_index: EventIndex,
    pub min_visible_message_index: MessageIndex,
}

/// A standing invitation; consumed (removed) exactly once on successful join.
#[derive(Clone, Copy, PartialEq, Eq, Structural, Debug)]
pub struct Invitation {
    pub user_id: UserId,
    pub invited_by: UserId,
    pub min_visible_event_index: EventIndex,
    pub min_visible_message_index: MessageIndex,
    pub created_at: TimestampMillis,
}

/// Outcome of [`MembershipTable::add`].
pub enum AddResult {
    Success(Member),
    AlreadyInGroup,
    Blocked,
    MemberLimitReached(u32),
}

/// Arguments of [`MembershipTable::add`].
#[derive(Clone, Copy, PartialEq, Eq, Structural, Debug)]
pub struct AddMemberArgs {
    pub user_id: UserId,
    pub now: TimestampMillis,
    pub min_visible_event_index: EventIndex,
    pub min_visible_message_index: MessageIndex,
    pub mute_notifications: bool,
    pub is_bot: bool,
}

/// The roster, block list and invitations of one entity.
pub struct MembershipTable {
    pub members: Vec<Member>,
    pub blocked: Vec<UserId>,
    pub invitations: Vec<Invitation>,
    pub member_limit: u32,
}

pub open spec fn seq_has_member(s: Seq<Member>, user_id: UserId) -> bool {
    exists|i: int| 0 <= i < s.len() && s[i].user_id == user_id
}

pub open spec fn seq_has_invitation(s: Seq<Invitation>, user_id: UserId) -> bool {
    exists|i: int| 0 <= i < s.len() && s[i].user_id == user_id
}

pub open spec fn unique_member_ids(s: Seq<Member>) -> bool {
    forall|a: int, b: int| 0 <= a < b < s.len() ==> s[a].user_id != s[b].user_id
}

pub open spec fn unique_invitation_ids(s: Seq<Invitation>) -> bool {
    forall|a: int, b: int| 0 <= a < b < s.len() ==> s[a].user_id != s[b].user_id
}

/// How removing row `i` changes which users have a roster row.
proof fn lemma_member_remove(olds: Seq<Member>, i: int)
    requires
        0 <= i < olds.len(),
        unique_member_ids(olds),
    ensures
        unique_member_ids(olds.remove(i)),
        forall|u: UserId| seq_has_member(olds.remove(i), u) ==> seq_has_member(olds, u),
        forall|u: UserId|
            u != olds[i].user_id && seq_has_member(olds, u) ==> seq_has_member(olds.remove(i), u),
        !seq_has_member(olds.remove(i), olds[i].user_id),
        forall|a: int| 0 <= a < olds.remove(i).len() ==> olds.contains(#[trigger] olds.remove(i)[a]),
{
    olds.remove_ensures(i);
    let news = olds.remove(i);
    assert forall|u: UserId| seq_has_member(news, u) implies seq_has_member(olds, u) by {
        let k = choose|k: int| 0 <= k < news.len() && news[k].user_id == u;
        if k < i {
            assert(olds[k].user_id == u);
        } else {
            assert(olds[k + 1].user_id == u);
        }
    }
    assert forall|u: UserId|
        u != olds[i].user_id && seq_has_member(olds, u) implies seq_has_member(news, u) by {
        let k = choose|k: int| 0 <= k < olds.len() && olds[k].user_id == u;
        if k < i {
            assert(news[k].user_id == u);
        } else {
            assert(news[k - 1].user_id == u);
        }
    }
    assert forall|a: int, b: int|
        0 <= a < b < news.len() implies news[a].user_id != news[b].user_id by {
        let oa: int = if a < i {
            a
        } else {
            a + 1
        };
        let ob: int = if b < i {
            b
        } else {
            b + 1
        };
        assert(news[a] == olds[oa]);
        assert(news[b] == olds[ob]);
    }
    if seq_has_member(news, olds[i].user_id) {
        let k = choose|k: int| 0 <= k < news.len() && news[k].user_id == olds[i].user_id;
        if k < i {
            assert(olds[k].user_id == olds[i].user_id);
        } else {
            assert(olds[k + 1].user_id == olds[i].user_id);
        }
    }
    assert forall|a: int| 0 <= a < news.len() implies olds.contains(#[trigger] news[a]) by {
        if a < i {
            assert(olds[a] == news[a]);
        } else {
            assert(olds[a + 1] == news[a]);
        }
    }
}

/// How appending a row for a fresh user changes which users have one.
proof fn lemma_member_push(olds: Seq<Member>, m: Member)
    requires
        unique_member_ids(olds),
        !seq_has_member(olds, m.user_id),
    ensures
        unique_member_ids(olds.push(m)),
        forall|u: UserId|
            seq_has_member(olds.push(m), u) <==> (seq_has_member(olds, u) || u == m.user_id),
{
    let news = olds.push(m);
    assert forall|u: UserId|
        seq_has_member(news, u) implies (seq_has_member(olds, u) || u == m.user_id) by {
        let k = choose|k: int| 0 <= k < news.len() && news[k].user_id == u;
        if k < olds.len() {
            assert(olds[k].user_id == u);
        } else {
            assert(news[k] == m);
        }
    }
    assert forall|u: UserId| seq_has_member(olds, u) implies seq_has_member(news, u) by {
        let k = choose|k: int| 0 <= k < olds.len() && olds[k].user_id == u;
        assert(news[k].user_id == u);
    }
    assert(news[olds.len() as int] == m);
    assert forall|a: int, b: int|
        0 <= a < b < news.len() implies news[a].user_id != news[b].user_id by {
        if b < olds.len() {
            assert(olds[a].user_id != olds[b].user_id);
        } else {
            assert(news[a] == olds[a]);
            assert(news[b] == m);
            assert(olds[a].user_id == news[a].user_id);
        }
    }
}

/// How removing row `i` changes which users have an invitation.
proof fn lemma_invitation_remove(olds: Seq<Invitation>, i: int)
    requires
        0 <= i < olds.len(),
        unique_invitation_ids(olds),
    ensures
        unique_invitation_ids(olds.remove(i)),
        forall|u: UserId| seq_has_invitation(olds.remove(i), u) ==> seq_has_invitation(olds, u),
        forall|u: UserId|
            u != olds[i].user_id && seq_has_invitation(olds, u) ==> seq_has_invitation(
                olds.remove(i),
                u,
            ),
        !seq_has_invitation(olds.remove(i), olds[i].user_id),
{
    olds.remove_ensures(i);
    let news = olds.remove(i);
    assert forall|u: UserId| seq_has_invitation(news, u) implies seq_has_invitation(olds, u) by {
        let k = choose|k: int| 0 <= k < news.len() && news[k].user_id == u;
        if k < i {
            assert(olds[k].user_id == u);
        } else {
            assert(olds[k + 1].user_id == u);
        }
    }
    assert forall|u: UserId|
        u != olds[i].user_id && seq_has_invitation(olds, u) implies seq_has_invitation(
        news,
        u,
    ) by {
        let k = choose|k: int| 0 <= k < olds.len() && olds[k].user_id == u;
        if k < i {
            assert(news[k].user_id == u);
        } else {
            assert(news[k - 1].user_id == u);
        }
    }
    assert forall|a: int, b: int|
        0 <= a < b < news.len() implies news[a].user_id != news[b].user_id by {
        let oa: int = if a < i {
            a
        } else {
            a + 1
        };
        let ob: int = if b < i {
            b
        } else {
            b + 1
        };
        assert(news[a] == olds[oa]);
        assert(news[b] == olds[ob]);
    }
    if seq_has_invitation(news, olds[i].user_id) {
        let k = choose|k: int| 0 <= k < news.len() && news[k].user_id == olds[i].user_id;
        if k < i {
            assert(olds[k].user_id == olds[i].user_id);
        } else {
            assert(olds[k + 1].user_id == olds[i].user_id);
        }
    }
}

impl MembershipTable {
    /// Well-formedness: one row per user in each of the three collections,
    /// and nobody is both a member and blocked.
    pub open spec fn inv(&self) -> bool {
        &&& unique_member_ids(self.members@)
        &&& unique_u64s(self.blocked@)
        &&& unique_invitation_ids(self.invitations@)
        &&& forall|i: int|
            0 <= i < self.members@.len() ==> !self.spec_is_blocked(
                (#[trigger] self.members@[i]).user_id,
            )
    }

    pub open spec fn spec_is_member(&self, user_id: UserId) -> bool {
        seq_has_member(self.members@, user_id)
    }

    pub open spec fn spec_is_blocked(&self, user_id: UserId) -> bool {
        self.blocked@.contains(user_id)
    }

    pub open spec fn spec_has_invitation(&self, user_id: UserId) -> bool {
        seq_has_invitation(self.invitations@, user_id)
    }

    pub open spec fn spec_limit_reached(&self) -> bool {
        self.members@.len() >= self.member_limit
    }

    /// An empty roster with the configured member limit.
    pub fn new(member_limit: u32) -> (r: MembershipTable)
        ensures
            r.inv(),
            r.members@ == Seq::<Member>::empty(),
            r.blocked@ == Seq::<UserId>::empty(),
            r.invitations@ == Seq::<Invitation>::empty(),
            r.member_limit == member_limit,
    {
        MembershipTable {
            members: Vec::new(),
            blocked: Vec::new(),
            invitations: Vec::new(),
            member_limit,
        }
    }

    pub fn len(&self) -> (r: usize)
        ensures
            r == self.members@.len(),
    {
        self.members.len()
    }

    /// The member row for `user_id`, if there is one.
    pub fn get(&self, user_id: UserId) -> (r: Option<&Member>)
        ensures
            r is Some <==> self.spec_is_member(user_id),
            r matches Some(m) ==> self.members@.contains(*m) && m.user_id == user_id,
    {
        let n = self.members.len();
        for i in 0..n
            invariant
                n == self.members@.len(),
                forall|j: int| 0 <= j < i ==> self.members@[j].user_id != user_id,
        {
            if self.members[i].user_id == user_id {
                return Some(&self.members[i]);
            }
        }
        None
    }

    pub fn is_blocked(&self, user_id: UserId) -> (r: bool)
        ensures
            r == self.spec_is_blocked(user_id),
    {
        let n = self.blocked.len();
        for i in 0..n
            invariant
                n == self.blocked@.len(),
                forall|j: int| 0 <= j < i ==> self.blocked@[j] != user_id,
        {
            if self.blocked[i] == user_id {
                return true;
            }
        }
        false
    }

    /// The configured limit, if the roster has already reached it.
    pub fn user_limit_reached(&self) -> (r: Option<u32>)
        ensures
            r is Some <==> self.spec_limit_reached(),
            r matches Some(l) ==> l == self.member_limit,
    {
        if self.members.len() >= self.member_limit as usize {
            Some(self.member_limit)
        } else {
            None
        }
    }

    /// Admission: rejects a caller that is already a member (idempotently,
    /// with no state change), a blocked caller, and a full roster; otherwise
    /// appends the new row and returns it.
    pub fn add(&mut self, args: AddMemberArgs) -> (r: AddResult)
        requires
            old(self).inv(),
        ensures
            final(self).inv(),
            final(self).blocked@ == old(self).blocked@,
            final(self).invitations@ == old(self).invitations@,
            final(self).member_limit == old(self).member_limit,
            r is AlreadyInGroup <==> old(self).spec_is_member(args.user_id),
            r is Blocked <==> !old(self).spec_is_member(args.user_id) && old(self).spec_is_blocked(
                args.user_id,
            ),
            r matches AddResult::MemberLimitReached(l) ==> l == old(self).member_limit,
            r is MemberLimitReached <==> !old(self).spec_is_member(args.user_id) && !old(
                self,
            ).spec_is_blocked(args.user_id) && old(self).spec_limit_reached(),
            r is Success <==> !old(self).spec_is_member(args.user_id) && !old(
                self,
            ).spec_is_blocked(args.user_id) && !old(self).spec_limit_reached(),
            r matches AddResult::Success(m) ==> m == (Member {
                user_id: args.user_id,
                role: GroupRole::Participant,
                muted: args.mute_notifications,
                joined_at: args.now,
                min_visible_event_index: args.min_visible_event_index,
                min_visible_message_index: args.min_visible_message_index,
            }) && final(self).members@ == old(self).members@.push(m),
            !(r is Success) ==> final(self).members@ == old(self).members@,
    {
        if self.get(args.user_id).is_some() {
            return AddResult::AlreadyInGroup;
        }
        if self.is_blocked(args.user_id) {
            return AddResult::Blocked;
        }
        if self.members.len() >= self.member_limit as usize {
            return AddResult::MemberLimitReached(self.member_limit);
        }
        let member = Member {
            user_id: args.user_id,
            role: GroupRole::Participant,
            muted: args.mute_notifications,
            joined_at: args.now,
            min_visible_event_index: args.min_visible_event_index,
            min_visible_message_index: args.min_visible_message_index,
        };
        self.members.push(member);
        proof {
            let olds = old(self).members@;
            let news = self.members@;
            lemma_member_push(olds, member);
            assert forall|a: int|
                0 <= a < news.len() implies !self.spec_is_blocked(
                (#[trigger] news[a]).user_id,
            ) by {
                if a < olds.len() {
                    assert(news[a] == olds[a]);
                    assert(!old(self).spec_is_blocked(olds[a].user_id));
                }
            }
        }
        AddResult::Success(member)
    }

    /// Removes the member row, and with it any invitation tied to the same
    /// identity, so that a consumed or stale invitation cannot be replayed.
    pub fn remove(&mut self, user_id: UserId) -> (r: Option<Member>)
        requires
            old(self).inv(),
        ensures
            final(self).inv(),
            final(self).blocked@ == old(self).blocked@,
            final(self).member_limit == old(self).member_limit,
            r is Some <==> old(self).spec_is_member(user_id),
            r matches Some(m) ==> old(self).members@.contains(m) && m.user_id == user_id,
            !final(self).spec_is_member(user_id),
            !final(self).spec_has_invitation(user_id),
            forall|u: UserId|
                u != user_id ==> (final(self).spec_is_member(u) <==> old(self).spec_is_member(u)),
            forall|u: UserId|
                u != user_id ==> (final(self).spec_has_invitation(u) <==> old(
                    self,
                ).spec_has_invitation(u)),
            r is None ==> final(self).members@ == old(self).members@,
    {
        let removed = self.remove_member_row(user_id);
        self.remove_invitation_row(user_id);
        removed
    }

    /// Records an invitation, replacing any earlier one for the same user.
    pub fn add_invitation(&mut self, invitation: Invitation)
        requires
            old(self).inv(),
        ensures
            final(self).inv(),
            final(self).members@ == old(self).members@,
            final(self).blocked@ == old(self).blocked@,
            final(self).member_limit == old(self).member_limit,
            final(self).spec_has_invitation(invitation.user_id),
            final(self).invitations@.contains(invitation),
            forall|u: UserId|
                u != invitation.user_id ==> (final(self).spec_has_invitation(u) <==> old(
                    self,
                ).spec_has_invitation(u)),
    {
        self.remove_invitation_row(invitation.user_id);
        let ghost mids = self.invitations@;
        self.invitations.push(invitation);
        proof {
            let news = self.invitations@;
            assert(news[mids.len() as int] == invitation);
            assert(news.contains(invitation));
            assert forall|u: UserId|
                u != invitation.user_id implies (seq_has_invitation(news, u)
                <==> seq_has_invitation(mids, u)) by {
                if seq_has_invitation(news, u) {
                    let k = choose|k: int| 0 <= k < news.len() && news[k].user_id == u;
                    assert(k < mids.len());
                    assert(mids[k].user_id == u);
                }
                if seq_has_invitation(mids, u) {
                    let k = choose|k: int| 0 <= k < mids.len() && mids[k].user_id == u;
                    assert(news[k].user_id == u);
                }
            }
            assert forall|a: int, b: int|
                0 <= a < b < news.len() implies news[a].user_id != news[b].user_id by {
                if b < mids.len() {
                    assert(mids[a].user_id != mids[b].user_id);
                } else {
                    assert(news[a] == mids[a]);
                    assert(news[b] == invitation);
                    assert(!seq_has_invitation(mids, invitation.user_id));
                }
            }
        }
    }

    /// The standing invitation for `user_id`, if any.
    pub fn get_invitation(&self, user_id: UserId) -> (r: Option<&Invitation>)
        ensures
            r is Some <==> self.spec_has_invitation(user_id),
            r matches Some(inv) ==> self.invitations@.contains(*inv) && inv.user_id == user_id,
    {
        let n = self.invitations.len();
        for i in 0..n
            invariant
                n == self.invitations@.len(),
                forall|j: int| 0 <= j < i ==> self.invitations@[j].user_id != user_id,
        {
            if self.invitations[i].user_id == user_id {
                return Some(&self.invitations[i]);
            }
        }
        None
    }

    /// Consumes the invitation for `user_id`: after this call none is left.
    pub fn remove_invitation(&mut self, user_id: UserId) -> (r: Option<Invitation>)
        requires
            old(self).inv(),
        ensures
            final(self).inv(),
            final(self).members@ == old(self).members@,
            final(self).blocked@ == old(self).blocked@,
            final(self).member_limit == old(self).member_limit,
            r is Some <==> old(self).spec_has_invitation(user_id),
            r matches Some(inv) ==> old(self).invitations@.contains(inv) && inv.user_id == user_id,
            !final(self).spec_has_invitation(user_id),
            forall|u: UserId|
                u != user_id ==> (final(self).spec_has_invitation(u) <==> old(
                    self,
                ).spec_has_invitation(u)),
            r is None ==> final(self).invitations@ == old(self).invitations@,
    {
        self.remove_invitation_row(user_id)
    }

    /// Adds `user_id` to the block list and drops any membership or
    /// invitation they held.
    pub fn block(&mut self, user_id: UserId)
        requires
            old(self).inv(),
        ensures
            final(self).inv(),
            final(self).member_limit == old(self).member_limit,
            final(self).spec_is_blocked(user_id),
            !final(self).spec_is_member(user_id),
            !final(self).spec_has_invitation(user_id),
            forall|u: UserId|
                u != user_id ==> (final(self).spec_is_blocked(u) <==> old(self).spec_is_blocked(u)),
            forall|u: UserId|
                u != user_id ==> (final(self).spec_is_member(u) <==> old(self).spec_is_member(u)),
            forall|u: UserId|
                u != user_id ==> (final(self).spec_has_invitation(u) <==> old(
                    self,
                ).spec_has_invitation(u)),
    {
        self.remove_member_row(user_id);
        self.remove_invitation_row(user_id);
        let ghost s_b = *self;
        if !self.is_blocked(user_id) {
            let ghost mids = self.blocked@;
            self.blocked.push(user_id);
            proof {
                let news = self.blocked@;
                assert(news[mids.len() as int] == user_id);
                assert(news.contains(user_id));
                assert forall|u: UserId|
                    u != user_id implies (news.contains(u) <==> mids.contains(u)) by {
                    if news.contains(u) {
                        let k = choose|k: int| 0 <= k < news.len() && news[k] == u;
                        assert(k < mids.len());
                        assert(mids[k] == u);
                    }
                    if mids.contains(u) {
                        let k = choose|k: int| 0 <= k < mids.len() && mids[k] == u;
                        assert(news[k] == u);
                    }
                }
                assert forall|a: int, b: int|
                    0 <= a < b < news.len() implies news[a] != news[b] by {
                    if b < mids.len() {
                        assert(mids[a] != mids[b]);
                    } else {
                        assert(news[a] == mids[a]);
                        assert(news[b] == user_id);
                        assert(!mids.contains(user_id));
                        assert(mids.contains(mids[a]));
                    }
                }
                assert forall|i: int|
                    0 <= i < self.members@.len() implies !self.spec_is_blocked(
                    (#[trigger] self.members@[i]).user_id,
                ) by {
                    assert(self.members@[i].user_id != user_id);
                }
            }
        }
        proof {
            assert(self.invitations@ == s_b.invitations@);
            assert forall|u: UserId|
                u != user_id implies (self.spec_has_invitation(u) <==> old(
                self,
            ).spec_has_invitation(u)) by {
                assert(s_b.spec_has_invitation(u) <==> old(self).spec_has_invitation(u));
                assert(self.spec_has_invitation(u) == s_b.spec_has_invitation(u));
            }
        }
    }

    /// Privileged unblock, independent of the normal admission path.
    pub fn unblock(&mut self, user_id: UserId)
        requires
            old(self).inv(),
        ensures
            final(self).inv(),
            final(self).members@ == old(self).members@,
            final(self).invitations@ == old(self).invitations@,
            final(self).member_limit == old(self).member_limit,
            !final(self).spec_is_blocked(user_id),
            forall|u: UserId|
                u != user_id ==> (final(self).spec_is_blocked(u) <==> old(self).spec_is_blocked(u)),
    {
        let n = self.blocked.len();
        for i in 0..n
            invariant
                old(self).inv(),
                n == old(self).blocked@.len(),
                *self == *old(self),
                forall|j: int| 0 <= j < i ==> self.blocked@[j] != user_id,
        {
            if self.blocked[i] == user_id {
                self.blocked.remove(i);
                proof {
                    lemma_unique_u64s_remove(old(self).blocked@, i as int);
                    assert forall|k: int|
                        0 <= k < self.members@.len() implies !self.spec_is_blocked(
                        (#[trigger] self.members@[k]).user_id,
                    ) by {
                        assert(!old(self).spec_is_blocked(self.members@[k].user_id));
                    }
                }
                return ;
            }
        }
    }

    /// Overrides the member's role; no transition restrictions apply here.
    pub fn change_role(&mut self, user_id: UserId, new_role: GroupRole) -> (r: bool)
        requires
            old(self).inv(),
        ensures
            final(self).inv(),
            final(self).blocked@ == old(self).blocked@,
            final(self).invitations@ == old(self).invitations@,
            final(self).member_limit == old(self).member_limit,
            r == old(self).spec_is_member(user_id),
            !r ==> final(self).members@ == old(self).members@,
            r ==> exists|i: int|
                0 <= i < old(self).members@.len() && old(self).members@[i].user_id == user_id
                    && final(self).members@ == old(self).members@.update(
                    i,
                    (Member { role: new_role, ..old(self).members@[i] }),
                ),
    {
        let n = self.members.len();
        for i in 0..n
            invariant
                old(self).inv(),
                n == old(self).members@.len(),
                *self == *old(self),
                forall|j: int| 0 <= j < i ==> self.members@[j].user_id != user_id,
        {
            if self.members[i].user_id == user_id {
                let updated = Member { role: new_role, ..self.members[i] };
                self.members.set(i, updated);
                proof {
                    let olds = old(self).members@;
                    let news = self.members@;
                    assert forall|a: int, b: int|
                        0 <= a < b < news.len() implies news[a].user_id != news[b].user_id by {
                        assert(olds[a].user_id != olds[b].user_id);
                        assert(news[a].user_id == olds[a].user_id);
                        assert(news[b].user_id == olds[b].user_id);
                    }
                    assert forall|a: int|
                        0 <= a < news.len() implies !self.spec_is_blocked(
                        (#[trigger] news[a]).user_id,
                    ) by {
                        assert(news[a].user_id == olds[a].user_id);
                        assert(!old(self).spec_is_blocked(olds[a].user_id));
                    }
                    assert(old(self).spec_is_member(user_id));
                }
                return true;
            }
        }
        false
    }

    /// Removes just the member row; shared by `remove` and `block`.
    fn remove_member_row(&mut self, user_id: UserId) -> (r: Option<Member>)
        requires
            old(self).inv(),
        ensures
            final(self).inv(),
            final(self).blocked@ == old(self).blocked@,
            final(self).invitations@ == old(self).invitations@,
            final(self).member_limit == old(self).member_limit,
            r is Some <==> old(self).spec_is_member(user_id),
            r matches Some(m) ==> old(self).members@.contains(m) && m.user_id == user_id,
            !final(self).spec_is_member(user_id),
            forall|u: UserId|
                u != user_id ==> (final(self).spec_is_member(u) <==> old(self).spec_is_member(u)),
            r is None ==> final(self).members@ == old(self).members@,
    {
        let n = self.members.len();
        for i in 0..n
            invariant
                old(self).inv(),
                n == old(self).members@.len(),
                *self == *old(self),
                forall|j: int| 0 <= j < i ==> self.members@[j].user_id != user_id,
        {
            if self.members[i].user_id == user_id {
                let removed = self.members.remove(i);
                proof {
                    let olds = old(self).members@;
                    lemma_member_remove(olds, i as int);
                    assert(olds.contains(olds[i as int]));
                    assert forall|a: int|
                        0 <= a < self.members@.len() implies !self.spec_is_blocked(
                        (#[trigger] self.members@[a]).user_id,
                    ) by {
                        assert(olds.contains(self.members@[a]));
                        let k = choose|k: int| 0 <= k < olds.len() && olds[k] == self.members@[a];
                        assert(!old(self).spec_is_blocked(olds[k].user_id));
                    }
                }
                return Some(removed);
            }
        }
        None
    }

    /// Removes just the invitation row; shared by several paths.
    fn remove_invitation_row(&mut self, user_id: UserId) -> (r: Option<Invitation>)
        requires
            old(self).inv(),
        ensures
            final(self).inv(),
            final(self).members@ == old(self).members@,
            final(self).blocked@ == old(self).blocked@,
            final(self).member_limit == old(self).member_limit,
            r is Some <==> old(self).spec_has_invitation(user_id),
            r matches Some(inv) ==> old(self).invitations@.contains(inv) && inv.user_id == user_id,
            !final(self).spec_has_invitation(user_id),
            forall|u: UserId|
                u != user_id ==> (final(self).spec_has_invitation(u) <==> old(
                    self,
                ).spec_has_invitation(u)),
            r is None ==> final(self).invitations@ == old(self).invitations@,
    {
        let n = self.invitations.len();
        for i in 0..n
            invariant
                old(self).inv(),
                n == old(self).invitations@.len(),
                *self == *old(self),
                forall|j: int| 0 <= j < i ==> self.invitations@[j].user_id != user_id,
        {
            if self.invitations[i].user_id == user_id {
                let removed = self.invitations.remove(i);
                proof {
                    let olds = old(self).invitations@;
                    lemma_invitation_remove(olds, i as int);
                    assert(olds.contains(olds[i as int]));
                }
                return Some(removed);
            }
        }
        None
    }
}

} // verus!
