use chat_core::membership::{AddMemberArgs, AddResult, GroupRole, Invitation, MembershipTable};

fn add_args(user_id: u64, now: u64) -> AddMemberArgs {
    AddMemberArgs {
        user_id,
        now,
        min_visible_event_index: 0,
        min_visible_message_index: 0,
        mute_notifications: false,
        is_bot: false,
    }
}

#[test]
fn add_member_success_and_idempotent_rejection() {
    let mut t = MembershipTable::new(10);
    match t.add(add_args(1, 5)) {
        AddResult::Success(m) => {
            assert_eq!(m.user_id, 1);
            assert_eq!(m.joined_at, 5);
            assert!(matches!(m.role, GroupRole::Participant));
        }
        _ => panic!("first add must succeed"),
    }
    let before = t.len();
    assert!(matches!(t.add(add_args(1, 6)), AddResult::AlreadyInGroup));
    assert_eq!(t.len(), before);
}

#[test]
fn add_member_rejects_blocked() {
    let mut t = MembershipTable::new(10);
    t.block(2);
    assert!(matches!(t.add(add_args(2, 5)), AddResult::Blocked));
    assert_eq!(t.len(), 0);
}

#[test]
fn add_member_rejects_when_limit_reached() {
    let mut t = MembershipTable::new(2);
    assert!(matches!(t.add(add_args(1, 1)), AddResult::Success(_)));
    assert!(matches!(t.add(add_args(2, 2)), AddResult::Success(_)));
    match t.add(add_args(3, 3)) {
        AddResult::MemberLimitReached(limit) => assert_eq!(limit, 2),
        _ => panic!("limit must be enforced"),
    }
    assert_eq!(t.len(), 2);
}

#[test]
fn remove_invalidates_invitation() {
    let mut t = MembershipTable::new(10);
    t.add_invitation(Invitation {
        user_id: 4,
        invited_by: 1,
        min_visible_event_index: 5,
        min_visible_message_index: 2,
        created_at: 0,
    });
    assert!(matches!(t.add(add_args(4, 1)), AddResult::Success(_)));
    let removed = t.remove(4);
    assert!(removed.is_some());
    assert!(t.get(4).is_none());
    assert!(t.get_invitation(4).is_none());
}

#[test]
fn invitation_is_consumed_exactly_once() {
    let mut t = MembershipTable::new(10);
    t.add_invitation(Invitation {
        user_id: 4,
        invited_by: 1,
        min_visible_event_index: 5,
        min_visible_message_index: 2,
        created_at: 0,
    });
    let first = t.remove_invitation(4);
    assert!(first.is_some());
    assert_eq!(first.unwrap().invited_by, 1);
    assert!(t.remove_invitation(4).is_none());
}

#[test]
fn unblock_is_independent_of_admission() {
    let mut t = MembershipTable::new(10);
    t.block(9);
    assert!(t.is_blocked(9));
    t.unblock(9);
    assert!(!t.is_blocked(9));
    assert!(matches!(t.add(add_args(9, 1)), AddResult::Success(_)));
}

#[test]
fn change_role_is_a_total_order_override() {
    let mut t = MembershipTable::new(10);
    assert!(matches!(t.add(add_args(1, 1)), AddResult::Success(_)));
    assert!(t.change_role(1, GroupRole::Owner));
    assert!(matches!(t.get(1).unwrap().role, GroupRole::Owner));
    assert!(t.change_role(1, GroupRole::Participant));
    assert!(matches!(t.get(1).unwrap().role, GroupRole::Participant));
    assert!(!t.change_role(42, GroupRole::Admin));
}

#[test]
fn user_limit_reached_reports_the_configured_limit() {
    let mut t = MembershipTable::new(1);
    assert!(t.user_limit_reached().is_none());
    assert!(matches!(t.add(add_args(1, 1)), AddResult::Success(_)));
    assert_eq!(t.user_limit_reached(), Some(1));
}
