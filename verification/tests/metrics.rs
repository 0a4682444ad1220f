use chat_core::metrics::ChatMetrics;

fn m(messages: u64, reactions: u64, last_active: u64) -> ChatMetrics {
    ChatMetrics {
        messages,
        edits: 0,
        deletions: 0,
        undeletions: 0,
        reactions,
        last_active,
    }
}

#[test]
fn merge_adds_counters_and_takes_newest_activity() {
    let mut a = m(3, 1, 100);
    a.merge(&m(4, 2, 50));
    assert_eq!(a, m(7, 3, 100));
}

#[test]
fn merge_is_commutative_on_values() {
    let mut ab = m(3, 1, 100);
    ab.merge(&m(4, 2, 250));
    let mut ba = m(4, 2, 250);
    ba.merge(&m(3, 1, 100));
    assert_eq!(ab, ba);
}

#[test]
fn merge_is_associative_on_values() {
    let (a, b, c) = (m(1, 0, 10), m(2, 5, 30), m(4, 7, 20));
    let mut left = a;
    left.merge(&b);
    left.merge(&c);
    let mut bc = b;
    bc.merge(&c);
    let mut right = a;
    right.merge(&bc);
    assert_eq!(left, right);
}

#[test]
fn merge_saturates_instead_of_wrapping() {
    let mut a = m(u64::MAX - 1, 0, 0);
    a.merge(&m(5, 0, 0));
    assert_eq!(a.messages, u64::MAX);
}

#[test]
fn default_is_the_merge_unit() {
    let mut a = ChatMetrics::default();
    a.merge(&m(3, 2, 9));
    assert_eq!(a, m(3, 2, 9));
    let mut b = m(3, 2, 9);
    b.merge(&ChatMetrics::default());
    assert_eq!(b, m(3, 2, 9));
}
