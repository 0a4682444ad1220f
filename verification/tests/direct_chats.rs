use chat_core::direct_chats::{DirectChats, PushMessageArgs};
use chat_core::event_log::EventPayload;
use chat_core::ids::ChatRef;
use chat_core::metrics::ChatMetrics;

fn push_args(sender: u64, message_id: u64, content: u64, now: u64) -> PushMessageArgs {
    PushMessageArgs { sender, message_id, content, replies_to: None, correlation_id: 0, now }
}

#[test]
fn push_message_creates_the_chat_lazily() {
    let mut chats = DirectChats::new();
    assert!(!chats.has(7));
    let e = chats.push_message(true, 7, None, push_args(1, 100, 5, 10), false);
    assert_eq!(e.index, 0);
    assert_eq!(e.message_index, Some(0));
    assert!(chats.has(7));
    assert_eq!(chats.len(), 1);

    let chat = chats.get(7).unwrap();
    assert_eq!(chat.them, 7);
    assert_eq!(chat.last_updated, 10);
    assert_eq!(chat.metrics.messages, 1);
    // The sender's own marker advanced to the new message.
    assert_eq!(chat.read_by_me_up_to.value, Some(0));
    assert_eq!(chat.read_by_them_up_to.value, None);
}

#[test]
fn inbound_message_records_unread_index_mapping() {
    let mut chats = DirectChats::new();
    chats.push_message(false, 7, Some(42), push_args(7, 100, 5, 10), false);
    let chat = chats.get(7).unwrap();
    // Their marker advanced, ours did not.
    assert_eq!(chat.read_by_them_up_to.value, Some(0));
    assert_eq!(chat.read_by_me_up_to.value, None);
    assert_eq!(chat.unread_message_index_map, vec![(0, 42)]);
}

#[test]
fn message_indices_grow_within_one_chat() {
    let mut chats = DirectChats::new();
    let e0 = chats.push_message(true, 7, None, push_args(1, 100, 5, 10), false);
    let e1 = chats.push_message(false, 7, None, push_args(7, 101, 6, 11), false);
    let other = chats.push_message(true, 8, None, push_args(1, 102, 7, 12), false);
    assert_eq!((e0.index, e0.message_index), (0, Some(0)));
    assert_eq!((e1.index, e1.message_index), (1, Some(1)));
    // A different chat has its own stream, starting at zero.
    assert_eq!((other.index, other.message_index), (0, Some(0)));
    assert_eq!(chats.len(), 2);
}

#[test]
fn updated_since_filters_on_last_modified() {
    let mut chats = DirectChats::new();
    chats.push_message(true, 7, None, push_args(1, 1, 1, 10), false);
    chats.push_message(true, 8, None, push_args(1, 2, 2, 20), false);
    assert_eq!(chats.updated_since(5), vec![7, 8]);
    assert_eq!(chats.updated_since(15), vec![8]);
    assert_eq!(chats.updated_since(25), Vec::<u64>::new());
}

#[test]
fn removed_since_walks_tombstones_from_the_newest() {
    // Chat removed at t=100: removed_since(50) returns it, removed_since(150)
    // does not.
    let mut chats = DirectChats::new();
    chats.push_message(true, 3, None, push_args(1, 1, 1, 10), false);
    let removed = chats.remove(3, 100);
    assert!(removed.is_some());
    assert!(!chats.has(3));
    assert_eq!(chats.removed_since(50), vec![3]);
    assert_eq!(chats.removed_since(150), Vec::<u64>::new());
    // Idempotent over queries: the same horizon gives the same answer.
    assert_eq!(chats.removed_since(50), chats.removed_since(50));
}

#[test]
fn removed_since_returns_newest_first_and_is_monotone() {
    let mut chats = DirectChats::new();
    for (them, t) in [(3u64, 100u64), (4, 200), (5, 300)] {
        chats.push_message(true, them, None, push_args(1, them, 1, t - 1), false);
        chats.remove(them, t);
    }
    assert_eq!(chats.removed_since(50), vec![5, 4, 3]);
    assert_eq!(chats.removed_since(150), vec![5, 4]);
    assert_eq!(chats.removed_since(250), vec![5]);
    // Later horizons return subsets of earlier ones.
    for c in chats.removed_since(250) {
        assert!(chats.removed_since(150).contains(&c));
    }
}

#[test]
fn pin_and_unpin_stamp_the_list_as_a_whole() {
    let mut chats = DirectChats::new();
    chats.pin(7, 10);
    chats.pin(8, 20);
    // Newest pin goes to the front.
    assert_eq!(chats.pinned(), &vec![8, 7]);
    assert_eq!(chats.pinned_if_updated(15), Some(vec![8, 7]));
    assert_eq!(chats.pinned_if_updated(25), None);
    // Pinning an already pinned chat changes nothing, not even the stamp.
    chats.pin(7, 30);
    assert_eq!(chats.pinned(), &vec![8, 7]);
    assert_eq!(chats.pinned_if_updated(25), None);

    chats.unpin(8, 40);
    assert_eq!(chats.pinned(), &vec![7]);
    assert!(chats.pinned_if_updated(35).is_some());
    // Unpinning an absent chat changes nothing.
    chats.unpin(9, 50);
    assert!(chats.pinned_if_updated(45).is_none());
}

#[test]
fn updates_gives_a_distinct_no_updates_signal() {
    let mut chats = DirectChats::new();
    chats.push_message(true, 7, None, push_args(1, 1, 1, 10), false);
    chats.remove(7, 20);
    chats.pin(9, 30);

    assert!(chats.updates(30).is_none());
    let u = chats.updates(15).unwrap();
    assert_eq!(u.updated, Vec::<u64>::new());
    assert_eq!(u.removed, vec![7]);
    assert_eq!(u.pinned, Some(vec![9]));
    assert!(chats.any_updated(15));
    assert!(!chats.any_updated(30));
}

#[test]
fn aggregate_metrics_folds_per_chat_rollups() {
    let mut chats = DirectChats::new();
    chats.push_message(true, 7, None, push_args(1, 1, 1, 10), false);
    chats.push_message(false, 7, None, push_args(7, 2, 2, 11), false);
    chats.push_message(true, 8, None, push_args(1, 3, 3, 30), false);
    assert_eq!(chats.metrics(), &ChatMetrics::default());
    chats.aggregate_metrics();
    assert_eq!(chats.metrics().messages, 3);
    assert_eq!(chats.metrics().last_active, 30);
}

#[test]
fn migrate_replies_rewrites_only_matching_references() {
    let mut chats = DirectChats::new();
    let from = ChatRef::Group(100);
    let to = ChatRef::Group(200);
    let mut args = push_args(1, 1, 1, 10);
    args.replies_to = Some(chat_core::event_log::ReplyContext { chat: Some(from), event_index: 4 });
    chats.push_message(true, 7, None, args, false);
    let mut other = push_args(1, 2, 2, 11);
    other.replies_to =
        Some(chat_core::event_log::ReplyContext { chat: Some(ChatRef::Group(300)), event_index: 9 });
    chats.push_message(true, 7, None, other, false);

    chats.migrate_replies(from, to, 50);

    let chat = chats.get(7).unwrap();
    match chat.events.main.events[0].payload {
        EventPayload::Message { replies_to: Some(rc), .. } => {
            assert_eq!(rc.chat, Some(to));
            assert_eq!(rc.event_index, 4);
        }
        _ => panic!("the reply reference must be rewritten"),
    }
    match chat.events.main.events[1].payload {
        EventPayload::Message { replies_to: Some(rc), .. } => {
            assert_eq!(rc.chat, Some(ChatRef::Group(300)));
        }
        _ => panic!("other references stay as they were"),
    }
    // Indices and timestamps are untouched; the chat is stamped.
    assert_eq!(chat.events.main.events[0].index, 0);
    assert_eq!(chat.events.main.events[0].timestamp, 10);
    assert_eq!(chat.last_updated, 50);
}

#[test]
fn get_mut_gives_mutable_access_to_one_chat() {
    let mut chats = DirectChats::new();
    chats.push_message(true, 7, None, push_args(1, 1, 1, 10), false);
    {
        let chat = chats.get_mut(7).unwrap();
        chat.mark_read_up_to(0, false, 33);
    }
    assert_eq!(chats.get(7).unwrap().read_by_them_up_to.value, Some(0));
    assert!(chats.get_mut(99).is_none());
}

#[test]
fn removing_an_absent_chat_changes_nothing() {
    let mut chats = DirectChats::new();
    assert!(chats.remove(3, 10).is_none());
    assert_eq!(chats.removed_since(0), Vec::<u64>::new());
}
