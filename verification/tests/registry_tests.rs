use weever_streaming::registry::SubscriberRegistry;

fn targets(r: &SubscriberRegistry<u32>, room: &str) -> Vec<(String, u32)> {
    let mut v: Vec<(String, u32)> = r.notify_targets(room).into_iter().map(|(u, h)| (u, *h)).collect();
    v.sort();
    v
}

#[test]
fn add_replace_and_remove() {
    let mut r: SubscriberRegistry<u32> = SubscriberRegistry::new();
    assert!(r.is_empty());
    r.add_sub_notify("room1", "alice", 1);
    r.add_sub_notify("room1", "bob", 2);
    r.add_sub_notify("room2", "alice", 3);
    assert_eq!(targets(&r, "room1"), vec![("alice".to_string(), 1), ("bob".to_string(), 2)]);
    assert_eq!(targets(&r, "room2"), vec![("alice".to_string(), 3)]);
    r.add_sub_notify("room1", "alice", 4);
    assert_eq!(targets(&r, "room1"), vec![("alice".to_string(), 4), ("bob".to_string(), 2)]);
    r.remove_sub_notify("room1", "alice");
    assert_eq!(targets(&r, "room1"), vec![("bob".to_string(), 2)]);
    r.remove_sub_notify("room9", "nobody");
    r.remove_sub_notify("room1", "bob");
    assert!(targets(&r, "room1").is_empty());
    assert!(!r.is_empty());
    r.remove_sub_notify("room2", "alice");
    assert!(r.is_empty());
}

#[test]
fn add_then_remove_restores() {
    let mut r: SubscriberRegistry<u32> = SubscriberRegistry::new();
    r.add_sub_notify("room", "a", 1);
    r.add_sub_notify("room", "b", 2);
    r.remove_sub_notify("room", "b");
    assert_eq!(targets(&r, "room"), vec![("a".to_string(), 1)]);
    assert!(targets(&r, "elsewhere").is_empty());
}

#[test]
fn rooms_listed_once_each() {
    let mut r: SubscriberRegistry<u32> = SubscriberRegistry::new();
    assert!(r.rooms().is_empty());
    r.add_sub_notify("b", "x", 1);
    r.add_sub_notify("a", "x", 2);
    r.add_sub_notify("b", "y", 3);
    let mut rooms = r.rooms();
    rooms.sort();
    assert_eq!(rooms, vec!["a".to_string(), "b".to_string()]);
    r.remove_sub_notify("a", "x");
    assert_eq!(r.rooms(), vec!["b".to_string()]);
}
