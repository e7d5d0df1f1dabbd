use event_handlers::debounce::{Debouncer, Key};

fn key(buffer: u64, slot: u64) -> Key {
    Key { buffer, slot }
}

#[test]
fn two_events_within_delay_dispatch_last_payload() {
    let mut d: Debouncer<String> = Debouncer::new(250);
    let b = key(1, 0);
    assert!(d.offer(b, "a".to_string(), 0).is_empty());
    assert!(d.offer(b, "b".to_string(), 100).is_empty());
    assert!(d.expire(349).is_empty());
    let out = d.expire(350);
    assert_eq!(out.len(), 1);
    assert_eq!(out[0].key, b);
    assert_eq!(out[0].payload, "b");
    assert_eq!(out[0].deadline, 350);
    assert_eq!(d.pending_count(), 0);
    assert!(d.expire(10_000).is_empty());
}

#[test]
fn isolated_event_dispatches_once() {
    let mut d: Debouncer<u64> = Debouncer::new(40);
    d.accept(key(3, 0), 9, 10);
    assert!(d.expire(49).is_empty());
    let out = d.expire(60);
    assert_eq!(out.len(), 1);
    assert_eq!(out[0].payload, 9);
    assert!(d.expire(100).is_empty());
}

#[test]
fn long_burst_coalesces_to_one_item() {
    let mut d: Debouncer<u64> = Debouncer::new(100);
    let k = key(5, 2);
    let mut t: u64 = 0;
    for p in 0..50u64 {
        assert!(d.offer(k, p, t).is_empty());
        assert_eq!(d.pending_count(), 1);
        t += 99;
    }
    let last = t - 99;
    assert!(d.expire(last + 99).is_empty());
    let out = d.expire(last + 100);
    assert_eq!(out.len(), 1);
    assert_eq!(out[0].payload, 49);
}

#[test]
fn distinct_keys_keep_their_own_timers() {
    let mut d: Debouncer<u64> = Debouncer::new(100);
    d.accept(key(1, 0), 1, 0);
    d.accept(key(2, 0), 2, 50);
    d.accept(key(1, 0), 3, 60);
    // key 2 still fires at 150, key 1 now at 160
    let out = d.expire(150);
    assert_eq!(out.len(), 1);
    assert_eq!(out[0].key, key(2, 0));
    assert_eq!(out[0].payload, 2);
    let out = d.expire(160);
    assert_eq!(out.len(), 1);
    assert_eq!(out[0].key, key(1, 0));
    assert_eq!(out[0].payload, 3);
}

#[test]
fn due_entries_leave_in_order_of_last_event() {
    let mut d: Debouncer<u64> = Debouncer::new(10);
    d.accept(key(1, 0), 1, 0);
    d.accept(key(2, 0), 2, 1);
    d.accept(key(3, 0), 3, 2);
    d.accept(key(1, 0), 4, 3);
    let out = d.expire(100);
    let keys: Vec<u64> = out.iter().map(|e| e.key.buffer).collect();
    assert_eq!(keys, vec![2, 3, 1]);
}

#[test]
fn same_buffer_other_slot_is_another_key() {
    let mut d: Debouncer<u64> = Debouncer::new(10);
    d.accept(key(1, 0), 1, 0);
    d.accept(key(1, 1), 2, 0);
    assert_eq!(d.pending_count(), 2);
    assert_eq!(d.expire(10).len(), 2);
}

#[test]
fn forget_buffer_drops_without_delivery() {
    let mut d: Debouncer<u64> = Debouncer::new(1000);
    d.accept(key(7, 0), 1, 0);
    d.accept(key(7, 3), 2, 0);
    d.accept(key(8, 0), 3, 0);
    d.forget_buffer(7);
    assert_eq!(d.pending_count(), 1);
    let out = d.expire(5000);
    assert_eq!(out.len(), 1);
    assert_eq!(out[0].key, key(8, 0));
}

#[test]
fn deadline_saturates_at_largest_instant() {
    let mut d: Debouncer<u64> = Debouncer::new(10);
    d.accept(key(1, 0), 1, u64::MAX - 3);
    assert!(d.expire(u64::MAX - 1).is_empty());
    let out = d.expire(u64::MAX);
    assert_eq!(out.len(), 1);
    assert_eq!(out[0].deadline, u64::MAX);
}

#[test]
fn zero_delay_is_due_at_once() {
    let mut d: Debouncer<u64> = Debouncer::new(0);
    assert_eq!(d.delay(), 0);
    d.accept(key(1, 0), 5, 20);
    assert_eq!(d.expire(20).len(), 1);
}
