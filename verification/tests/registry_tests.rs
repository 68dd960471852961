use feed_relay::registry::Registry;

#[test]
fn new_registry_is_empty() {
    let reg = Registry::new();
    assert_eq!(reg.count(), 0);
    assert!(!reg.contains(42));
}

#[test]
fn subscribe_twice_leaves_one_entry() {
    let mut reg = Registry::new();
    reg.subscribe(42);
    reg.subscribe(42);
    assert_eq!(reg.count(), 1);
    assert!(reg.contains(42));
}

#[test]
fn unsubscribe_absent_is_a_no_op() {
    let mut reg = Registry::new();
    reg.subscribe(1);
    reg.unsubscribe(2);
    assert_eq!(reg.count(), 1);
    assert!(reg.contains(1));
}

#[test]
fn from_ids_keeps_each_id_once() {
    let reg = Registry::from_ids(vec![5, 5, 9, 5, 9]);
    assert_eq!(reg.count(), 2);
    assert!(reg.contains(5));
    assert!(reg.contains(9));
    assert!(!reg.contains(7));
}

#[test]
fn ids_lists_the_members() {
    let mut reg = Registry::new();
    reg.subscribe(3);
    reg.subscribe(8);
    let ids = reg.ids();
    assert_eq!(ids.len(), 2);
    assert!(ids.contains(&3));
    assert!(ids.contains(&8));
}
