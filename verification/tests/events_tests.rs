use rtils::events::{EventRequest, EventType, MouseInput, Registry};

#[test]
fn subscribers_take_least_free_slot() {
    let mut r: Registry<&str, u32, u8> = Registry::new();
    let a = r.subscriber_slot(false);
    assert_eq!(a.inner(), 2048);
    r.add_subscriber(a, "a");
    let b = r.subscriber_slot(false);
    assert_eq!(b.inner(), 2049);
    r.add_subscriber(b, "b");
    let hp = r.subscriber_slot(true);
    assert_eq!(hp.inner(), 0);
    r.add_subscriber(hp, "hp");
    assert_eq!(r.subscriber_slot(true).inner(), 1);
    assert_eq!(r.remove_subscriber(a), Some("a"));
    assert_eq!(r.remove_subscriber(a), None);
    assert_eq!(r.subscriber_slot(false).inner(), 2048);
}

#[test]
fn subscribers_are_offered_events_in_id_order() {
    let mut r: Registry<u32, u32, u8> = Registry::new();
    for v in 0..3 {
        let id = r.subscriber_slot(false);
        r.add_subscriber(id, v);
    }
    let first = r.subscriber_slot(true);
    r.add_subscriber(first, 99);
    let ids: Vec<u64> = r.subscriber_ids().iter().map(|i| i.inner()).collect();
    assert_eq!(ids, vec![0, 2048, 2049, 2050]);
    let s = r.subscriber_ids()[1];
    *r.subscriber_mut(s).unwrap() = 7;
    assert_eq!(r.remove_subscriber(s), Some(7));
}

#[test]
fn services_always_start_at_their_slot() {
    let mut r: Registry<u8, &str, u8> = Registry::new();
    let s = r.service_slot(false);
    assert_eq!(s.inner(), 2048);
    r.add_service(s, "web");
    assert_eq!(r.service_slot(true).inner(), 0);
    let ids: Vec<u64> = r.service_ids().iter().map(|i| i.inner()).collect();
    assert_eq!(ids, vec![2048]);
    *r.service_mut(s).unwrap() = "mail";
    assert_eq!(r.remove_service(s), Some("mail"));
    assert!(r.service_ids().is_empty());
}

#[test]
fn daemons_and_objects() {
    let mut r: Registry<u8, u8, String> = Registry::new();
    r.add_daemon(5);
    assert!(r.has_daemon(5));
    r.remove_daemon(5);
    assert!(!r.has_daemon(5));
    r.add_object(9, "x".to_string());
    r.object_mut(9).unwrap().push('y');
    assert!(r.object_mut(8).is_none());
    assert_eq!(r.remove_object(9), Some("xy".to_string()));
    assert_eq!(r.remove_object(9), None);
}

#[test]
fn event_kinds_are_plain_values() {
    assert_eq!(EventRequest::Nothing, EventRequest::Nothing);
    assert_ne!(EventRequest::Shared, EventRequest::Owned);
    assert_ne!(EventType::Message, EventType::FreeObject);
    let m = MouseInput::LeftClick { x: 1, y: 2, is_currently_down: true };
    assert_eq!(m, MouseInput::LeftClick { x: 1, y: 2, is_currently_down: true });
}
