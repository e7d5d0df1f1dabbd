use event_handlers::bus::EventBus;
use event_handlers::debounce::{Key, Pending};
use event_handlers::handler::{
    key_for, revalidate, Config, Event, EventKind, HandlerConfig, HandlerKind,
};
use event_handlers::registry::setup;

fn config() -> Config {
    Config {
        completion: HandlerConfig { enabled: true, delay: 250 },
        signature_help: HandlerConfig { enabled: true, delay: 120 },
        inlay_hints: HandlerConfig { enabled: true, delay: 500 },
        auto_save: HandlerConfig { enabled: true, delay: 1000 },
    }
}

fn event(kind: EventKind, buffer: u64, payload: u64) -> Event {
    Event { kind, buffer, view: 4, session: 9, payload }
}

#[test]
fn bus_invokes_in_registration_order() {
    let mut bus = EventBus::new();
    bus.subscribe(EventKind::DocumentChanged, HandlerKind::AutoSave);
    bus.subscribe(EventKind::ModeChanged, HandlerKind::SignatureHelp);
    bus.subscribe(EventKind::DocumentChanged, HandlerKind::Completion);
    assert_eq!(
        bus.emit(EventKind::DocumentChanged),
        vec![HandlerKind::AutoSave, HandlerKind::Completion]
    );
    assert_eq!(bus.emit(EventKind::ModeChanged), vec![HandlerKind::SignatureHelp]);
    assert!(bus.emit(EventKind::FocusLost).is_empty());
}

#[test]
fn keys_follow_handler_granularity() {
    let ev = event(EventKind::SelectionChanged, 2, 0);
    assert_eq!(key_for(HandlerKind::Completion, &ev), Some(Key { buffer: 2, slot: 9 }));
    assert_eq!(key_for(HandlerKind::SignatureHelp, &ev), Some(Key { buffer: 2, slot: 0 }));
    assert_eq!(key_for(HandlerKind::InlayHints, &ev), Some(Key { buffer: 2, slot: 4 }));
    assert_eq!(key_for(HandlerKind::AutoSave, &ev), None);
    let closed = event(EventKind::BufferClosed, 2, 0);
    assert_eq!(key_for(HandlerKind::Completion, &closed), None);
    let mode = event(EventKind::ModeChanged, 2, 0);
    assert_eq!(key_for(HandlerKind::SignatureHelp, &mode), Some(Key { buffer: 2, slot: 0 }));
    assert_eq!(key_for(HandlerKind::InlayHints, &mode), None);
}

#[test]
fn config_lookup_by_kind() {
    let c = config();
    assert_eq!(c.for_kind(HandlerKind::InlayHints).delay, 500);
    assert_eq!(c.for_kind(HandlerKind::AutoSave).delay, 1000);
}

#[test]
fn autosave_of_closed_buffer_never_writes() {
    let mut h = setup(&config(), 8);
    h.emit(&event(EventKind::DocumentChanged, 11, 1), 0);
    assert_eq!(h.handler(HandlerKind::AutoSave).pending_count(), 1);
    h.emit(&event(EventKind::BufferClosed, 11, 0), 500);
    assert_eq!(h.handler(HandlerKind::AutoSave).pending_count(), 0);
    h.tick(5000);
    assert_eq!(h.handler(HandlerKind::AutoSave).queued_count(), 0);
    assert!(h.next_job(HandlerKind::AutoSave, &vec![11]).is_none());
}

#[test]
fn completion_delivered_after_quiet_period() {
    let mut h = setup(&config(), 8);
    h.emit(&event(EventKind::DocumentChanged, 3, 10), 0);
    h.emit(&event(EventKind::SelectionChanged, 3, 20), 100);
    h.tick(349);
    assert_eq!(h.handler(HandlerKind::Completion).queued_count(), 0);
    h.tick(350);
    assert_eq!(h.handler(HandlerKind::Completion).queued_count(), 1);
    let job = h.next_job(HandlerKind::Completion, &vec![1, 3]).unwrap();
    assert_eq!(job.payload, 20);
    assert_eq!(job.key, Key { buffer: 3, slot: 9 });
    assert_eq!(h.handler(HandlerKind::Completion).queued_count(), 0);
}

#[test]
fn stale_item_is_discarded_by_worker() {
    let mut h = setup(&config(), 8);
    h.emit(&event(EventKind::ModeChanged, 6, 1), 0);
    h.tick(120);
    assert_eq!(h.handler(HandlerKind::SignatureHelp).queued_count(), 1);
    assert!(h.next_job(HandlerKind::SignatureHelp, &vec![1, 2]).is_none());
    assert_eq!(h.handler(HandlerKind::SignatureHelp).queued_count(), 0);
}

#[test]
fn revalidate_checks_open_buffers() {
    let item = Pending { key: Key { buffer: 5, slot: 0 }, payload: 1u64, deadline: 0 };
    assert!(revalidate(item, &vec![4, 5]).is_some());
    let item = Pending { key: Key { buffer: 5, slot: 0 }, payload: 1u64, deadline: 0 };
    assert!(revalidate(item, &vec![]).is_none());
}

#[test]
fn disabled_handler_ignores_events() {
    let mut c = config();
    c.inlay_hints.enabled = false;
    let mut h = setup(&c, 8);
    assert!(!h.handler(HandlerKind::InlayHints).is_enabled());
    h.emit(&event(EventKind::DocumentChanged, 1, 1), 0);
    assert_eq!(h.handler(HandlerKind::InlayHints).pending_count(), 0);
    assert_eq!(h.handler(HandlerKind::Completion).pending_count(), 1);
}

#[test]
fn unsubscribed_event_leaves_handlers_alone() {
    let mut h = setup(&config(), 8);
    h.emit(&event(EventKind::DocumentChanged, 1, 1), 0);
    h.emit(&event(EventKind::FocusLost, 1, 0), 5000);
    for k in [HandlerKind::Completion, HandlerKind::SignatureHelp, HandlerKind::InlayHints, HandlerKind::AutoSave] {
        assert_eq!(h.handler(k).pending_count(), 1);
        assert_eq!(h.handler(k).queued_count(), 0);
        assert_eq!(h.handler(k).kind(), k);
    }
}

#[test]
fn full_outbox_drops_oldest_item() {
    let mut h = setup(&config(), 1);
    h.emit(&event(EventKind::DocumentChanged, 1, 1), 0);
    h.emit(&event(EventKind::DocumentChanged, 2, 2), 0);
    h.tick(1000);
    assert_eq!(h.handler(HandlerKind::AutoSave).queued_count(), 1);
    let job = h.next_job(HandlerKind::AutoSave, &vec![1, 2]).unwrap();
    assert_eq!(job.key.buffer, 2);
}

#[test]
fn reconfigure_changes_delay_for_new_events_only() {
    let mut h = setup(&config(), 8);
    h.emit(&event(EventKind::DocumentChanged, 1, 1), 0);
    let mut c = config();
    c.completion.delay = 10;
    c.auto_save.enabled = false;
    h.reconfigure(&c);
    assert!(!h.handler(HandlerKind::AutoSave).is_enabled());
    // the running completion timer keeps its deadline of 250
    h.tick(100);
    assert_eq!(h.handler(HandlerKind::Completion).queued_count(), 0);
    assert_eq!(h.handler(HandlerKind::AutoSave).pending_count(), 1);
    h.emit(&event(EventKind::DocumentChanged, 2, 2), 100);
    assert_eq!(h.handler(HandlerKind::AutoSave).pending_count(), 1);
    h.tick(110);
    assert_eq!(h.handler(HandlerKind::Completion).queued_count(), 1);
    assert_eq!(h.next_job(HandlerKind::Completion, &vec![2]).unwrap().payload, 2);
    h.tick(250);
    assert_eq!(h.handler(HandlerKind::Completion).queued_count(), 1);
}
