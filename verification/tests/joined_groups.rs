use chat_core::joined_groups::JoinedGroups;

#[test]
fn applying_the_same_notification_twice_equals_applying_it_once() {
    let mut once = JoinedGroups::new();
    once.apply_member_joined(42, 10);

    let mut twice = JoinedGroups::new();
    twice.apply_member_joined(42, 10);
    twice.apply_member_joined(42, 10);

    assert_eq!(once.groups, twice.groups);
    assert_eq!(twice.len(), 1);
    assert_eq!(twice.groups[0].joined_at, 10);
}

#[test]
fn a_retry_with_a_later_timestamp_is_still_a_no_op() {
    let mut reg = JoinedGroups::new();
    reg.apply_member_joined(42, 10);
    reg.apply_member_joined(42, 99);
    assert_eq!(reg.len(), 1);
    assert_eq!(reg.groups[0].joined_at, 10);
}

#[test]
fn distinct_chats_are_recorded_separately() {
    let mut reg = JoinedGroups::new();
    reg.apply_member_joined(1, 10);
    reg.apply_member_joined(2, 20);
    assert!(reg.has(1));
    assert!(reg.has(2));
    assert!(!reg.has(3));
    assert_eq!(reg.len(), 2);
}
