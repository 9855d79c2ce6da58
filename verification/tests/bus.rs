use hyprbar::bus::{EventBus, RecvOutcome};

fn line(s: &str) -> Vec<u8> {
    s.as_bytes().to_vec()
}

#[test]
fn delivers_in_publish_order() {
    let mut bus: EventBus<Vec<u8>> = EventBus::new(8);
    let a = bus.subscribe(true);
    bus.publish(line("one"));
    bus.publish(line("two"));
    match bus.receive(a) {
        RecvOutcome::Event(e) => assert_eq!(e, &line("one")),
        other => panic!("expected an event, got {:?}", other),
    }
    match bus.receive(a) {
        RecvOutcome::Event(e) => assert_eq!(e, &line("two")),
        other => panic!("expected an event, got {:?}", other),
    }
    assert!(matches!(bus.receive(a), RecvOutcome::Empty));
}

#[test]
fn slow_subscriber_lags_instead_of_blocking_the_publisher() {
    let mut bus: EventBus<Vec<u8>> = EventBus::new(4);
    let slow = bus.subscribe(true);
    for i in 0..6 {
        // publishing is total: it cannot block however far `slow` is behind
        bus.publish(line(&format!("e{}", i)));
    }
    match bus.receive(slow) {
        RecvOutcome::Lagged(n) => assert_eq!(n, 2),
        other => panic!("expected a lag indicator, got {:?}", other),
    }
    // after the lag jump, delivery resumes at the oldest retained event
    match bus.receive(slow) {
        RecvOutcome::Event(e) => assert_eq!(e, &line("e2")),
        other => panic!("expected an event, got {:?}", other),
    }
}

#[test]
fn late_subscriber_sees_no_history() {
    let mut bus: EventBus<Vec<u8>> = EventBus::new(8);
    let early = bus.subscribe(true);
    bus.publish(line("old1"));
    bus.publish(line("old2"));
    bus.publish(line("old3"));
    let late = bus.subscribe(true);
    assert!(matches!(bus.receive(late), RecvOutcome::Empty));
    bus.publish(line("new"));
    match bus.receive(late) {
        RecvOutcome::Event(e) => assert_eq!(e, &line("new")),
        other => panic!("expected an event, got {:?}", other),
    }
    // the early subscriber still drains everything, unaffected
    for expected in ["old1", "old2", "old3", "new"] {
        match bus.receive(early) {
            RecvOutcome::Event(e) => assert_eq!(e, &line(expected)),
            other => panic!("expected an event, got {:?}", other),
        }
    }
}

#[test]
fn inactive_placeholder_activates_from_the_present() {
    let mut bus: EventBus<Vec<u8>> = EventBus::new(8);
    let sub = bus.subscribe(false);
    bus.publish(line("before"));
    assert!(matches!(bus.receive(sub), RecvOutcome::Inactive));
    bus.activate(sub);
    assert!(matches!(bus.receive(sub), RecvOutcome::Empty));
    bus.publish(line("after"));
    match bus.receive(sub) {
        RecvOutcome::Event(e) => assert_eq!(e, &line("after")),
        other => panic!("expected an event, got {:?}", other),
    }
    bus.deactivate(sub);
    assert!(matches!(bus.receive(sub), RecvOutcome::Inactive));
}

#[test]
fn retains_exactly_the_newest_capacity_events() {
    let mut bus: EventBus<u64> = EventBus::new(2);
    let sub = bus.subscribe(true);
    bus.publish(10);
    bus.publish(20);
    bus.publish(30);
    match bus.receive(sub) {
        RecvOutcome::Lagged(n) => assert_eq!(n, 1),
        other => panic!("expected a lag indicator, got {:?}", other),
    }
    match bus.receive(sub) {
        RecvOutcome::Event(e) => assert_eq!(*e, 20),
        other => panic!("expected an event, got {:?}", other),
    }
    match bus.receive(sub) {
        RecvOutcome::Event(e) => assert_eq!(*e, 30),
        other => panic!("expected an event, got {:?}", other),
    }
}
