use clipit::watcher::{ChangeWatcher, SignalSlot, WatchEvent};

#[test]
fn an_event_driven_watcher_signals_on_every_broadcast() {
    let mut w = ChangeWatcher::EventDriven;
    assert!(w.observe(WatchEvent::Broadcast));
    assert!(w.observe(WatchEvent::Broadcast));
    assert!(!w.observe(WatchEvent::Tick { counter: None }));
    assert!(!w.observe(WatchEvent::Tick { counter: Some(3) }));
    assert_eq!(w, ChangeWatcher::EventDriven);
}

#[test]
fn a_counting_watcher_signals_when_the_count_moves() {
    let mut w = ChangeWatcher::counting_from(7);
    assert!(!w.observe(WatchEvent::Tick { counter: Some(7) }));
    assert!(w.observe(WatchEvent::Tick { counter: Some(8) }));
    assert!(!w.observe(WatchEvent::Tick { counter: Some(8) }));
    assert!(w.observe(WatchEvent::Tick { counter: Some(5) }));
    assert_eq!(w, ChangeWatcher::ChangeCounter { last: 5 });
    assert!(!w.observe(WatchEvent::Tick { counter: None }));
    assert!(!w.observe(WatchEvent::Broadcast));
    assert_eq!(w, ChangeWatcher::ChangeCounter { last: 5 });
}

#[test]
fn a_blind_watcher_signals_on_every_tick() {
    let mut w = ChangeWatcher::Blind;
    assert!(w.observe(WatchEvent::Tick { counter: None }));
    assert!(w.observe(WatchEvent::Tick { counter: Some(1) }));
    assert!(w.observe(WatchEvent::Tick { counter: Some(1) }));
    assert!(!w.observe(WatchEvent::Broadcast));
}

#[test]
fn signals_raised_in_a_row_wake_the_worker_once() {
    let mut slot = SignalSlot::new();
    assert!(!slot.take());
    assert!(slot.raise());
    assert!(!slot.raise());
    assert!(!slot.raise());
    assert!(slot.take());
    assert!(!slot.take());
    assert!(slot.raise());
    assert!(slot.take());
}
