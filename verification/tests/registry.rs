use air_vinyl::address::Address;
use air_vinyl::discovery::{Device, Scanner};
use air_vinyl::events::Event;

fn device(id: &str, name: &str, last: u8) -> Device {
    Device { id: id.to_string(), name: name.to_string(), addr: Address::v4(192, 168, 1, last, 7000) }
}

#[test]
fn new_registry_is_empty() {
    let scanner = Scanner::new();
    assert_eq!(scanner.len(), 0);
    assert!(scanner.read_devices().is_empty());
    assert!(scanner.device("dev1").is_none());
}

#[test]
fn add_then_remove_scenario() {
    let mut scanner = Scanner::new();
    assert!(scanner.apply(Event::Add(device("dev1", "Kitchen", 10))));
    let snapshot = scanner.read_devices();
    assert_eq!(snapshot.len(), 1);
    assert_eq!(snapshot[0].id, "dev1");
    assert_eq!(snapshot[0].name, "Kitchen");
    assert_eq!(snapshot[0].addr, Address::v4(192, 168, 1, 10, 7000));
    assert!(scanner.apply(Event::Remove("dev1".to_string())));
    assert!(scanner.read_devices().is_empty());
    assert_eq!(scanner.len(), 0);
}

#[test]
fn duplicate_add_keeps_first_entry() {
    let mut scanner = Scanner::new();
    assert!(scanner.upsert(device("dev1", "Kitchen", 10)));
    assert!(!scanner.upsert(device("dev1", "Bedroom", 11)));
    assert_eq!(scanner.len(), 1);
    let found = scanner.device("dev1").unwrap();
    assert_eq!(found.name, "Kitchen");
    assert_eq!(found.addr, Address::v4(192, 168, 1, 10, 7000));
}

#[test]
fn remove_of_unknown_id_changes_nothing() {
    let mut scanner = Scanner::new();
    scanner.upsert(device("dev1", "Kitchen", 10));
    assert!(!scanner.remove("dev2"));
    assert_eq!(scanner.len(), 1);
    assert!(scanner.remove("dev1"));
    assert!(!scanner.remove("dev1"));
    assert_eq!(scanner.len(), 0);
}

#[test]
fn remove_keeps_order_of_the_rest() {
    let mut scanner = Scanner::new();
    scanner.upsert(device("a", "A", 1));
    scanner.upsert(device("b", "B", 2));
    scanner.upsert(device("c", "C", 3));
    assert!(scanner.remove("b"));
    let ids: Vec<String> = scanner.read_devices().into_iter().map(|d| d.id).collect();
    assert_eq!(ids, vec!["a".to_string(), "c".to_string()]);
    assert!(scanner.device("b").is_none());
    assert_eq!(scanner.device("c").unwrap().name, "C");
}

#[test]
fn readded_device_takes_new_description() {
    let mut scanner = Scanner::new();
    scanner.upsert(device("dev1", "Kitchen", 10));
    scanner.remove("dev1");
    scanner.upsert(device("dev1", "Bedroom", 11));
    let found = scanner.device("dev1").unwrap();
    assert_eq!(found.name, "Bedroom");
    assert_eq!(found.addr, Address::v4(192, 168, 1, 11, 7000));
}

#[test]
fn replay_gives_net_effect() {
    let events = vec![
        Event::Add(device("a", "first a", 1)),
        Event::Add(device("b", "first b", 2)),
        Event::Add(device("a", "shadowed a", 3)),
        Event::Remove("b".to_string()),
        Event::Remove("zzz".to_string()),
        Event::Add(device("b", "second b", 4)),
        Event::Add(device("c", "c", 5)),
        Event::Remove("c".to_string()),
    ];
    let mut scanner = Scanner::new();
    let changes = scanner.apply_all(&events);
    assert_eq!(changes, 6);
    let snapshot = scanner.read_devices();
    assert_eq!(snapshot.len(), 2);
    assert_eq!(snapshot[0].id, "a");
    assert_eq!(snapshot[0].name, "first a");
    assert_eq!(snapshot[1].id, "b");
    assert_eq!(snapshot[1].name, "second b");
    assert!(scanner.device("c").is_none());
}

#[test]
fn apply_all_equals_one_by_one() {
    let events = vec![
        Event::Add(device("a", "A", 1)),
        Event::Remove("a".to_string()),
        Event::Add(device("a", "A2", 2)),
    ];
    let mut batch = Scanner::new();
    batch.apply_all(&events);
    let mut single = Scanner::new();
    for event in events.iter() {
        single.apply(event.clone());
    }
    let left = batch.read_devices();
    let right = single.read_devices();
    assert_eq!(left.len(), right.len());
    assert_eq!(left[0].name, "A2");
    assert_eq!(right[0].name, "A2");
}

#[test]
fn address_from_octets() {
    let addr = Address::v4(10, 0, 0, 1, 5000);
    assert_eq!(addr.port, 5000);
    assert_eq!(addr, Address { host: air_vinyl::address::Host::V4(0x0a00_0001), port: 5000 });
    assert_eq!(Address::v6(1, 5000).host, air_vinyl::address::Host::V6(1));
}
