use event_handlers::channel::Mailbox;

#[test]
fn full_mailbox_evicts_oldest() {
    let mut m: Mailbox<u64> = Mailbox::new(2);
    assert_eq!(m.push(1), None);
    assert_eq!(m.push(2), None);
    assert_eq!(m.len(), 2);
    assert_eq!(m.push(3), Some(1));
    assert_eq!(m.len(), 2);
    assert_eq!(m.evicted(), 1);
    assert_eq!(m.pop(), Some(2));
    assert_eq!(m.pop(), Some(3));
    assert_eq!(m.pop(), None);
    assert!(m.is_empty());
}

#[test]
fn capacity_one_keeps_only_newest() {
    let mut m: Mailbox<&str> = Mailbox::new(1);
    assert_eq!(m.capacity(), 1);
    m.push("x");
    assert_eq!(m.push("y"), Some("x"));
    assert_eq!(m.push("z"), Some("y"));
    assert_eq!(m.evicted(), 2);
    assert_eq!(m.pop(), Some("z"));
}

#[test]
fn push_all_keeps_most_recent() {
    let mut m: Mailbox<u64> = Mailbox::new(3);
    m.push(0);
    m.push_all(vec![1, 2, 3, 4]);
    assert_eq!(m.evicted(), 2);
    assert_eq!(m.pop(), Some(2));
    assert_eq!(m.pop(), Some(3));
    assert_eq!(m.pop(), Some(4));
    assert_eq!(m.pop(), None);
}
