use chat_core::access_gate::{AccessGate, GateCheckResult, SimpleGate};
use chat_core::event_log::EventPayload;
use chat_core::group::{GroupState, JoinArgs, JoinResponse, PrepareJoinOutcome};
use chat_core::group::EventsResult;
use chat_core::membership::Invitation;

fn payment_gate() -> Option<AccessGate> {
    Some(AccessGate::Simple(SimpleGate::Payment { ledger: 11, amount: 1000, fee: 10 }))
}

fn join_args(user_id: u64) -> JoinArgs {
    JoinArgs {
        user_id,
        invite_code: None,
        correlation_id: 0,
        is_platform_moderator: false,
        is_bot: false,
    }
}

#[test]
fn prepare_join_snapshots_gate_parameters() {
    let g = GroupState::new(true, true, 10, payment_gate(), None);
    match g.prepare_join(join_args(1), 50) {
        PrepareJoinOutcome::CheckGate(cga) => {
            assert_eq!(cga.user_id, 1);
            assert_eq!(cga.now, 50);
            assert!(matches!(
                cga.gate,
                AccessGate::Simple(SimpleGate::Payment { ledger: 11, amount: 1000, fee: 10 })
            ));
        }
        _ => panic!("a configured gate must suspend the join"),
    }
}

#[test]
fn prepare_join_proceeds_without_a_gate() {
    let g = GroupState::new(true, true, 10, None, None);
    assert!(matches!(g.prepare_join(join_args(1), 50), PrepareJoinOutcome::Proceed));
}

#[test]
fn prepare_join_rejects_frozen_private_and_full_groups() {
    let mut g = GroupState::new(true, true, 10, None, None);
    g.frozen = true;
    assert!(matches!(
        g.prepare_join(join_args(1), 50),
        PrepareJoinOutcome::Reject(JoinResponse::ChatFrozen)
    ));

    let private = GroupState::new(false, true, 10, None, None);
    assert!(matches!(
        private.prepare_join(join_args(1), 50),
        PrepareJoinOutcome::Reject(JoinResponse::NotInvited)
    ));

    let mut full = GroupState::new(true, true, 1, None, None);
    assert!(matches!(full.complete_join(join_args(9), 1), JoinResponse::Success(_)));
    match full.prepare_join(join_args(1), 50) {
        PrepareJoinOutcome::Reject(JoinResponse::ParticipantLimitReached(limit)) => {
            assert_eq!(limit, 1)
        }
        _ => panic!("a full group must reject the join"),
    }
}

#[test]
fn private_group_admits_by_invite_code() {
    let g = GroupState::new(false, true, 10, None, Some(777));
    let mut args = join_args(1);
    args.invite_code = Some(777);
    assert!(matches!(g.prepare_join(args, 50), PrepareJoinOutcome::Proceed));
    let mut wrong = join_args(1);
    wrong.invite_code = Some(778);
    assert!(matches!(
        g.prepare_join(wrong, 50),
        PrepareJoinOutcome::Reject(JoinResponse::NotInvited)
    ));
}

#[test]
fn failed_gate_check_changes_nothing() {
    // Gate check returns Failed("insufficient balance"): the response is
    // exactly that rejection, member count unchanged, no event appended,
    // no payout queued.
    let mut g = GroupState::new(true, true, 10, payment_gate(), None);
    let members_before = g.members.members.len();
    let events_before = g.events.main.events.len();
    let payments_before = g.pending_payments.len();

    let r = g.resume_join(
        join_args(1),
        GateCheckResult::Failed(String::from("insufficient balance")),
        60,
    );

    match r {
        JoinResponse::GateCheckFailed(reason) => assert_eq!(reason, "insufficient balance"),
        _ => panic!("the rejection must surface verbatim"),
    }
    assert_eq!(g.members.members.len(), members_before);
    assert_eq!(g.events.main.events.len(), events_before);
    assert_eq!(g.pending_payments.len(), payments_before);
    assert!(g.members.get(1).is_none());
}

#[test]
fn errored_gate_check_changes_nothing() {
    let mut g = GroupState::new(true, true, 10, payment_gate(), None);
    let r = g.resume_join(join_args(1), GateCheckResult::InternalError(String::from("timeout")), 60);
    match r {
        JoinResponse::InternalError(detail) => assert_eq!(detail, "timeout"),
        _ => panic!("an infrastructure error is its own outcome"),
    }
    assert_eq!(g.members.members.len(), 0);
    assert_eq!(g.events.main.events.len(), 0);
}

#[test]
fn successful_gated_join_commits_and_queues_payout() {
    let mut g = GroupState::new(true, true, 10, payment_gate(), None);
    let r = g.resume_join(join_args(1), GateCheckResult::Success, 60);
    match r {
        JoinResponse::Success(m) => {
            assert_eq!(m.user_id, 1);
            assert_eq!(m.joined_at, 60);
        }
        _ => panic!("a gated join with a passing check must commit"),
    }
    assert_eq!(g.members.members.len(), 1);
    assert_eq!(g.events.main.events.len(), 1);
    assert!(matches!(
        g.events.main.events[0].payload,
        EventPayload::MemberJoined { user_id: 1, invited_by: None }
    ));
    assert_eq!(g.pending_payments.len(), 1);
    assert_eq!(g.pending_payments[0].amount, 1000);
    assert_eq!(g.pending_payments[0].user_id, 1);
}

#[test]
fn resume_revalidates_against_current_state() {
    // The group froze while the external check was outstanding: the stale
    // phase-one verdict must not be committed.
    let mut g = GroupState::new(true, true, 10, payment_gate(), None);
    assert!(matches!(g.prepare_join(join_args(1), 50), PrepareJoinOutcome::CheckGate(_)));
    g.frozen = true;
    let r = g.resume_join(join_args(1), GateCheckResult::Success, 60);
    assert!(matches!(r, JoinResponse::ChatFrozen));
    assert_eq!(g.members.members.len(), 0);
    assert_eq!(g.events.main.events.len(), 0);
    assert_eq!(g.pending_payments.len(), 0);
}

#[test]
fn join_consumes_invitation_and_fixes_visibility() {
    let mut g = GroupState::new(false, false, 10, None, None);
    for i in 0..6 {
        g.events.push_main(
            EventPayload::Message { message_id: i, sender: 1, content: i, replies_to: None },
            0,
            None,
            i,
        );
    }
    g.members.add_invitation(Invitation {
        user_id: 3,
        invited_by: 8,
        min_visible_event_index: 5,
        min_visible_message_index: 2,
        created_at: 0,
    });
    let r = g.complete_join(join_args(3), 70);
    match r {
        JoinResponse::Success(m) => {
            assert_eq!(m.min_visible_event_index, 5);
            assert_eq!(m.min_visible_message_index, 2);
        }
        _ => panic!("an invited user must be admitted"),
    }
    assert!(g.members.get_invitation(3).is_none());
    assert!(matches!(
        g.events.main.events[6].payload,
        EventPayload::MemberJoined { user_id: 3, invited_by: Some(8) }
    ));
}

#[test]
fn replaying_a_committed_join_is_idempotent_in_a_private_group() {
    // The invitation is consumed by the first join; the identical second
    // join must still answer the idempotent AlreadyInGroup, with nothing
    // added, appended or queued.
    let mut g = GroupState::new(false, false, 10, None, None);
    g.members.add_invitation(Invitation {
        user_id: 3,
        invited_by: 8,
        min_visible_event_index: 0,
        min_visible_message_index: 0,
        created_at: 0,
    });
    let first = g.complete_join(join_args(3), 70);
    let joined = match first {
        JoinResponse::Success(m) => m,
        _ => panic!("an invited user must be admitted"),
    };
    let members_after = g.members.members.len();
    let events_after = g.events.main.events.len();

    match g.complete_join(join_args(3), 71) {
        JoinResponse::AlreadyInGroup(m) => assert_eq!(m, joined),
        other => panic!("a replay must answer AlreadyInGroup, got {other:?}"),
    }
    assert_eq!(g.members.members.len(), members_after);
    assert_eq!(g.events.main.events.len(), events_after);
    assert!(g.members.get_invitation(3).is_none());

    // The same holds for phase one.
    match g.prepare_join(join_args(3), 72) {
        PrepareJoinOutcome::Reject(JoinResponse::AlreadyInGroup(m)) => assert_eq!(m, joined),
        _ => panic!("phase one must also answer AlreadyInGroup on a replay"),
    }
}

#[test]
fn join_visibility_is_clamped_to_the_next_indices() {
    // An invitation pointing past the end of the stream cannot give the
    // member a cutoff beyond the next indices at join time.
    let mut g = GroupState::new(false, false, 10, None, None);
    for i in 0..3 {
        g.events.push_main(
            EventPayload::Message { message_id: i, sender: 1, content: i, replies_to: None },
            0,
            None,
            i,
        );
    }
    g.members.add_invitation(Invitation {
        user_id: 3,
        invited_by: 8,
        min_visible_event_index: 99,
        min_visible_message_index: 99,
        created_at: 0,
    });
    match g.complete_join(join_args(3), 70) {
        JoinResponse::Success(m) => {
            assert_eq!(m.min_visible_event_index, 3);
            assert_eq!(m.min_visible_message_index, 3);
        }
        _ => panic!("an invited user must be admitted"),
    }
}

#[test]
fn private_history_fixes_visibility_at_join_time() {
    let mut g = GroupState::new(true, false, 10, None, None);
    for i in 0..4 {
        g.events.push_main(
            EventPayload::Message { message_id: i, sender: 1, content: i, replies_to: None },
            0,
            None,
            i,
        );
    }
    match g.complete_join(join_args(2), 80) {
        JoinResponse::Success(m) => {
            // History is private: the window starts at the next indices.
            assert_eq!(m.min_visible_event_index, 4);
            assert_eq!(m.min_visible_message_index, 4);
        }
        _ => panic!("the join must commit"),
    }
}

#[test]
fn platform_moderator_is_unblocked_and_admitted() {
    let mut g = GroupState::new(true, true, 10, None, None);
    g.members.block(5);
    // A blocked ordinary user is rejected.
    assert!(matches!(g.complete_join(join_args(5), 90), JoinResponse::Blocked));
    assert_eq!(g.events.main.events.len(), 0);
    // The elevated path unblocks first and records both events.
    let mut moderator = join_args(5);
    moderator.is_platform_moderator = true;
    assert!(matches!(g.complete_join(moderator, 91), JoinResponse::Success(_)));
    assert!(!g.members.is_blocked(5));
    assert_eq!(g.events.main.events.len(), 2);
    assert!(matches!(
        g.events.main.events[0].payload,
        EventPayload::MemberUnblocked { user_id: 5, .. }
    ));
    assert!(matches!(
        g.events.main.events[1].payload,
        EventPayload::MemberJoined { user_id: 5, .. }
    ));
}

#[test]
fn events_window_requires_membership_and_visible_thread_root() {
    let mut g = GroupState::new(true, true, 10, None, None);
    for i in 0..6 {
        g.events.push_main(
            EventPayload::Message { message_id: i, sender: 1, content: i, replies_to: None },
            0,
            None,
            i,
        );
    }
    assert!(matches!(g.events_window(42, None, 0, 10, 10), EventsResult::UserNotInGroup));

    assert!(matches!(g.complete_join(join_args(2), 10), JoinResponse::Success(_)));
    match g.events_window(2, None, 0, 10, 10) {
        EventsResult::Success(v) => assert!(!v.is_empty()),
        _ => panic!("a member reads the window"),
    }
    assert!(matches!(g.events_window(2, Some(3), 0, 10, 10), EventsResult::ThreadNotFound));

    g.events.push(Some(3), EventPayload::Message { message_id: 9, sender: 1, content: 9, replies_to: None }, 0, None, 20)
        .unwrap();
    match g.events_window(2, Some(3), 0, 10, 10) {
        EventsResult::Success(v) => assert_eq!(v.len(), 1),
        _ => panic!("the thread window must be readable"),
    }
}

#[test]
fn events_by_index_omits_what_the_caller_may_not_see() {
    let mut g = GroupState::new(true, true, 10, None, None);
    for i in 0..6 {
        g.events.push_main(
            EventPayload::Message { message_id: i, sender: 1, content: i, replies_to: None },
            0,
            None,
            i,
        );
    }
    assert!(matches!(
        g.events_by_index(42, None, &vec![0, 1]),
        EventsResult::UserNotInGroup
    ));
    // Fix a visibility window by hand: the member may read from index 3 on.
    g.members.add_invitation(Invitation {
        user_id: 2,
        invited_by: 1,
        min_visible_event_index: 3,
        min_visible_message_index: 3,
        created_at: 0,
    });
    assert!(matches!(g.complete_join(join_args(2), 10), JoinResponse::Success(_)));
    match g.events_by_index(2, None, &vec![1, 3, 5, 99]) {
        EventsResult::Success(v) => {
            let indices: Vec<u64> = v.iter().map(|e| e.index).collect();
            assert_eq!(indices, vec![3, 5]);
        }
        _ => panic!("a member reads by index"),
    }
}
