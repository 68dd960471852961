use feed_relay::chat::{chat_cycle, ChatFetch, ChatUpdate, UpdateKind};
use feed_relay::registry::Registry;

fn text_update(update_id: i64, chat_id: i64, text: &str) -> ChatUpdate {
    ChatUpdate {
        update_id,
        kind: UpdateKind::Message {
            chat_id,
            text: Some(text.to_string()),
        },
    }
}

#[test]
fn subscribe_command_registers_acknowledges_and_advances_offset() {
    let mut reg = Registry::new();
    let fetch = ChatFetch::Updates(vec![text_update(10, 42, "/subscribe")]);
    let (offset, acks) = chat_cycle(10, &fetch, &mut reg);
    assert_eq!(offset, 11);
    assert!(reg.contains(42));
    assert_eq!(acks.len(), 1);
    assert_eq!(acks[0].chat_id, 42);
    assert_eq!(acks[0].text, "Subscribed to mechmarket");
}

#[test]
fn subscribing_twice_is_subscribing_once() {
    let mut reg = Registry::new();
    let fetch = ChatFetch::Updates(vec![
        text_update(1, 42, "/subscribe"),
        text_update(2, 42, "/subscribe"),
    ]);
    let (offset, acks) = chat_cycle(1, &fetch, &mut reg);
    assert_eq!(offset, 3);
    assert!(reg.contains(42));
    assert_eq!(reg.count(), 1);
    assert_eq!(acks.len(), 2);
}

#[test]
fn unsubscribing_an_absent_chat_is_a_no_op() {
    let mut reg = Registry::new();
    reg.subscribe(7);
    let fetch = ChatFetch::Updates(vec![text_update(5, 42, "/unsubscribe")]);
    let (offset, acks) = chat_cycle(5, &fetch, &mut reg);
    assert_eq!(offset, 6);
    assert_eq!(reg.count(), 1);
    assert!(reg.contains(7));
    assert!(!reg.contains(42));
    assert_eq!(acks.len(), 1);
    assert_eq!(acks[0].text, "Unsubscribed from mechmarket");
}

#[test]
fn unsubscribe_removes_the_chat() {
    let mut reg = Registry::new();
    let fetch = ChatFetch::Updates(vec![
        text_update(1, 42, "/subscribe"),
        text_update(2, 42, "/unsubscribe"),
    ]);
    let (_, acks) = chat_cycle(1, &fetch, &mut reg);
    assert!(!reg.contains(42));
    assert_eq!(reg.count(), 0);
    assert_eq!(acks.len(), 2);
}

#[test]
fn failed_fetch_keeps_offset_and_registry() {
    let mut reg = Registry::new();
    reg.subscribe(7);
    let (offset, acks) = chat_cycle(123, &ChatFetch::TransientError, &mut reg);
    assert_eq!(offset, 123);
    assert!(acks.is_empty());
    assert_eq!(reg.count(), 1);
}

#[test]
fn unrecognized_text_is_ignored_but_advances_offset() {
    let mut reg = Registry::new();
    let fetch = ChatFetch::Updates(vec![text_update(20, 42, "hello there")]);
    let (offset, acks) = chat_cycle(20, &fetch, &mut reg);
    assert_eq!(offset, 21);
    assert!(acks.is_empty());
    assert!(!reg.contains(42));
}

#[test]
fn non_message_updates_advance_the_offset() {
    let mut reg = Registry::new();
    let fetch = ChatFetch::Updates(vec![ChatUpdate {
        update_id: 30,
        kind: UpdateKind::Other,
    }]);
    let (offset, acks) = chat_cycle(30, &fetch, &mut reg);
    assert_eq!(offset, 31);
    assert!(acks.is_empty());
}

#[test]
fn message_without_text_is_ignored() {
    let mut reg = Registry::new();
    let fetch = ChatFetch::Updates(vec![ChatUpdate {
        update_id: 40,
        kind: UpdateKind::Message {
            chat_id: 42,
            text: None,
        },
    }]);
    let (offset, acks) = chat_cycle(40, &fetch, &mut reg);
    assert_eq!(offset, 41);
    assert!(acks.is_empty());
}

#[test]
fn offset_never_decreases_over_cycles() {
    let mut reg = Registry::new();
    let mut offset = 0i64;
    let batches = vec![
        ChatFetch::Updates(vec![text_update(0, 1, "/subscribe")]),
        ChatFetch::TransientError,
        ChatFetch::Updates(vec![]),
        ChatFetch::Updates(vec![text_update(5, 2, "/subscribe"), text_update(6, 2, "x")]),
    ];
    for fetch in &batches {
        let (next, _) = chat_cycle(offset, fetch, &mut reg);
        assert!(next >= offset);
        offset = next;
    }
    assert_eq!(offset, 7);
}

#[test]
fn empty_batch_keeps_the_offset() {
    let mut reg = Registry::new();
    let (offset, acks) = chat_cycle(9, &ChatFetch::Updates(vec![]), &mut reg);
    assert_eq!(offset, 9);
    assert!(acks.is_empty());
}

#[test]
fn acknowledgements_come_in_command_order() {
    let mut reg = Registry::new();
    reg.subscribe(9);
    let fetch = ChatFetch::Updates(vec![
        text_update(1, 4, "/subscribe"),
        text_update(2, 9, "/unsubscribe"),
    ]);
    let (offset, acks) = chat_cycle(1, &fetch, &mut reg);
    assert_eq!(offset, 3);
    assert_eq!(acks.len(), 2);
    assert_eq!(acks[0].chat_id, 4);
    assert_eq!(acks[0].text, "Subscribed to mechmarket");
    assert_eq!(acks[1].chat_id, 9);
    assert_eq!(acks[1].text, "Unsubscribed from mechmarket");
    assert!(reg.contains(4));
    assert!(!reg.contains(9));
}
