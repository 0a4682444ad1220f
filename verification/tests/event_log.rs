use chat_core::event_log::{Event, EventLog, EventPayload, MessageView};

fn msg(message_id: u64, content: u64) -> EventPayload {
    EventPayload::Message { message_id, sender: 7, content, replies_to: None }
}

#[test]
fn push_assigns_contiguous_event_and_message_indices() {
    // Stream with 0 events; push msg, msg, non-msg, msg.
    let mut log = EventLog::new();
    let e0 = log.push_main(msg(1, 10), 0, None, 100);
    let e1 = log.push_main(msg(2, 20), 0, None, 101);
    let e2 = log.push_main(EventPayload::MemberLeft { user_id: 9 }, 0, None, 102);
    let e3 = log.push_main(msg(3, 30), 0, None, 103);

    assert_eq!(
        vec![e0.index, e1.index, e2.index, e3.index],
        vec![0, 1, 2, 3]
    );
    assert_eq!(e0.message_index, Some(0));
    assert_eq!(e1.message_index, Some(1));
    assert_eq!(e2.message_index, None);
    assert_eq!(e3.message_index, Some(2));
}

#[test]
fn event_timestamps_and_payloads_are_stored_verbatim() {
    let mut log = EventLog::new();
    let e = log.push_main(msg(5, 55), 42, Some(999), 123);
    assert_eq!(e.timestamp, 123);
    assert_eq!(e.correlation_id, 42);
    assert_eq!(e.expires_at, Some(999));
    assert!(matches!(
        e.payload,
        EventPayload::Message { message_id: 5, content: 55, .. }
    ));
    assert_eq!(log.main.events.len(), 1);
    assert_eq!(log.main.events[0], e);
}

#[test]
fn read_window_respects_visibility_cutoff() {
    // Member invited with min_visible_event_index = 5; stream at index 10;
    // a window around mid_point 0 with room for 20 returns only 5..=10.
    let mut log = EventLog::new();
    for i in 0..11 {
        log.push_main(msg(i, i), 0, None, i);
    }
    let window = log.read_window(None, 0, 20, 20, 5).unwrap();
    let indices: Vec<u64> = window.iter().map(|e| e.index).collect();
    assert_eq!(indices, vec![5, 6, 7, 8, 9, 10]);
}

#[test]
fn read_window_caps_on_events() {
    let mut log = EventLog::new();
    for i in 0..10 {
        log.push_main(msg(i, i), 0, None, i);
    }
    let window = log.read_window(None, 5, 3, 20, 0).unwrap();
    assert_eq!(window.len(), 3);
    // The window is contiguous and holds the mid point.
    assert!(window.iter().any(|e| e.index == 5));
    for pair in window.windows(2) {
        assert_eq!(pair[1].index, pair[0].index + 1);
    }
}

#[test]
fn read_window_caps_on_messages() {
    // Alternate messages and non-messages; a message cap of 2 stops growth
    // even though the event cap has room.
    let mut log = EventLog::new();
    for i in 0..6 {
        if i % 2 == 0 {
            log.push_main(msg(i, i), 0, None, i);
        } else {
            log.push_main(EventPayload::MemberLeft { user_id: i }, 0, None, i);
        }
    }
    let window = log.read_window(None, 0, 20, 2, 0).unwrap();
    let n_messages = window
        .iter()
        .filter(|e| matches!(e.payload, EventPayload::Message { .. }))
        .count();
    assert_eq!(n_messages, 2);
}

#[test]
fn read_window_empty_when_nothing_visible() {
    let mut log = EventLog::new();
    log.push_main(msg(1, 1), 0, None, 0);
    let window = log.read_window(None, 0, 10, 10, 50).unwrap();
    assert!(window.is_empty());
}

#[test]
fn read_by_index_omits_missing_and_forbidden() {
    let mut log = EventLog::new();
    for i in 0..5 {
        log.push_main(msg(i, i), 0, None, i);
    }
    // Index 99 does not exist; indices 0 and 1 are below the cutoff of 2.
    let got = log.read_by_index(None, &vec![0, 1, 2, 4, 99], 2).unwrap();
    let indices: Vec<u64> = got.iter().map(|e| e.index).collect();
    assert_eq!(indices, vec![2, 4]);
}

#[test]
fn thread_stream_continues_parent_numbering() {
    let mut log = EventLog::new();
    let root = log.push_main(msg(1, 1), 0, None, 0);
    assert_eq!(root.message_index, Some(0));
    // First event of the thread branching from message 0: numbering carries
    // on from the parent's allocators instead of restarting at zero.
    let t0 = log.push(Some(0), msg(2, 2), 0, None, 1).unwrap();
    assert_eq!(t0.index, 1);
    assert_eq!(t0.message_index, Some(1));
    let t1 = log.push(Some(0), msg(3, 3), 0, None, 2).unwrap();
    assert_eq!(t1.index, 2);
    assert_eq!(t1.message_index, Some(2));
    // The main stream allocator is untouched by thread pushes.
    let e = log.push_main(msg(4, 4), 0, None, 3);
    assert_eq!(e.index, 1);
}

#[test]
fn thread_not_found_for_missing_root() {
    let mut log = EventLog::new();
    log.push_main(EventPayload::MemberLeft { user_id: 1 }, 0, None, 0);
    // No message with index 3 exists to branch from.
    assert!(log.push(Some(3), msg(1, 1), 0, None, 1).is_err());
    assert!(log.read_window(Some(3), 0, 5, 5, 0).is_err());
    assert!(log.read_by_index(Some(3), &vec![0], 0).is_err());
    assert!(log.message_view(Some(3), 0).is_err());
}

#[test]
fn materialize_folds_edit_delete_undelete_overlays() {
    let mut log = EventLog::new();
    log.push_main(msg(1, 5), 0, None, 10);
    let v: MessageView = log.message_view(None, 0).unwrap().unwrap();
    assert_eq!(v.content, 5);
    assert!(!v.deleted);

    log.push_main(
        EventPayload::MessageEdited { target: 0, new_content: 7, edited_by: 7 },
        0,
        None,
        11,
    );
    let v = log.message_view(None, 0).unwrap().unwrap();
    assert_eq!(v.content, 7);
    assert_eq!(v.last_updated, 11);

    log.push_main(EventPayload::MessageDeleted { target: 0, deleted_by: 7 }, 0, None, 12);
    let v = log.message_view(None, 0).unwrap().unwrap();
    assert!(v.deleted);
    // The content is tombstoned, not erased.
    assert_eq!(v.content, 7);

    log.push_main(EventPayload::MessageUndeleted { target: 0, undeleted_by: 7 }, 0, None, 13);
    let v = log.message_view(None, 0).unwrap().unwrap();
    assert!(!v.deleted);
    assert_eq!(v.content, 7);

    // Appending overlays never rewrote the original event.
    let original: &Event = &log.main.events[0];
    assert!(matches!(
        original.payload,
        EventPayload::Message { content: 5, .. }
    ));
}

#[test]
fn materialize_unknown_message_is_none() {
    let mut log = EventLog::new();
    log.push_main(msg(1, 5), 0, None, 10);
    assert!(log.message_view(None, 3).unwrap().is_none());
}

#[test]
fn edit_of_deleted_message_does_not_apply() {
    let mut log = EventLog::new();
    log.push_main(msg(1, 5), 0, None, 10);
    log.push_main(EventPayload::MessageDeleted { target: 0, deleted_by: 7 }, 0, None, 11);
    log.push_main(
        EventPayload::MessageEdited { target: 0, new_content: 9, edited_by: 7 },
        0,
        None,
        12,
    );
    let v = log.message_view(None, 0).unwrap().unwrap();
    assert!(v.deleted);
    assert_eq!(v.content, 5);
}

#[test]
fn read_ascending_from_a_start_index() {
    let mut log = EventLog::new();
    for i in 0..8 {
        log.push_main(msg(i, i), 0, None, i);
    }
    let got = log.read(None, 3, true, 3, 10, 0).unwrap();
    let indices: Vec<u64> = got.iter().map(|e| e.index).collect();
    assert_eq!(indices, vec![3, 4, 5]);
    // The cutoff wins over the requested start.
    let got = log.read(None, 0, true, 10, 10, 5).unwrap();
    let indices: Vec<u64> = got.iter().map(|e| e.index).collect();
    assert_eq!(indices, vec![5, 6, 7]);
}

#[test]
fn read_descending_returns_newest_first_and_respects_cutoff() {
    let mut log = EventLog::new();
    for i in 0..8 {
        log.push_main(msg(i, i), 0, None, i);
    }
    let got = log.read(None, 6, false, 3, 10, 0).unwrap();
    let indices: Vec<u64> = got.iter().map(|e| e.index).collect();
    assert_eq!(indices, vec![6, 5, 4]);
    // Nothing visible at or below the start: an empty result, not an error.
    let got = log.read(None, 2, false, 10, 10, 4).unwrap();
    assert!(got.is_empty());
    // The scan stops at the visibility cutoff.
    let got = log.read(None, 7, false, 10, 10, 5).unwrap();
    let indices: Vec<u64> = got.iter().map(|e| e.index).collect();
    assert_eq!(indices, vec![7, 6, 5]);
}

#[test]
fn read_descending_caps_on_messages() {
    let mut log = EventLog::new();
    for i in 0..6 {
        if i % 2 == 0 {
            log.push_main(msg(i, i), 0, None, i);
        } else {
            log.push_main(EventPayload::MemberLeft { user_id: i }, 0, None, i);
        }
    }
    let got = log.read(None, 5, false, 10, 2, 0).unwrap();
    let n_messages = got
        .iter()
        .filter(|e| matches!(e.payload, EventPayload::Message { .. }))
        .count();
    assert_eq!(n_messages, 2);
    assert_eq!(got[0].index, 5);
}
