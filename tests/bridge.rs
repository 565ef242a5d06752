use bevy_spacetimedb::{
    EventBridge, MessageKind, ProcedureResultMessage, ReducerResultMessage, Sender, TypeKey,
};

fn key(kind: MessageKind, source: u64) -> TypeKey {
    TypeKey { kind, source }
}

#[test]
fn reducer_result_message_new_keeps_result() {
    let m = ReducerResultMessage::new(41u32);
    assert_eq!(m.result, 41);
}

#[test]
fn procedure_result_message_new_keeps_result() {
    let m = ProcedureResultMessage::new(String::from("done"));
    assert_eq!(m.result, "done");
}

#[test]
fn same_key_gives_same_sender_and_one_channel() {
    let mut b: EventBridge<u32> = EventBridge::new();
    let s1 = b.get_or_create(key(MessageKind::Insert, 7));
    let s2 = b.get_or_create(key(MessageKind::Insert, 7));
    assert_eq!(s1, s2);
    assert_eq!(b.drain_all().len(), 1);
}

#[test]
fn distinct_keys_give_distinct_channels() {
    let mut b: EventBridge<u32> = EventBridge::new();
    let ins = b.get_or_create(key(MessageKind::Insert, 7));
    let del = b.get_or_create(key(MessageKind::Delete, 7));
    let other = b.get_or_create(key(MessageKind::Insert, 8));
    assert_ne!(ins, del);
    assert_ne!(ins, other);
    assert_ne!(del, other);
    assert_eq!(ins, Sender { channel: 0 });
    assert_eq!(del, Sender { channel: 1 });
    assert_eq!(other, Sender { channel: 2 });
    assert_eq!(b.get_or_create(key(MessageKind::Delete, 7)), del);
}

#[test]
fn send_right_after_creation_is_drained() {
    let mut b: EventBridge<u32> = EventBridge::new();
    let s = b.get_or_create(key(MessageKind::ReducerResult, 1));
    assert!(b.send(s, 5));
    assert_eq!(b.drain(s), vec![5]);
    assert_eq!(b.drain(s), Vec::<u32>::new());
}

#[test]
fn sends_are_drained_in_order() {
    let mut b: EventBridge<u32> = EventBridge::new();
    let s = b.get_or_create(key(MessageKind::Update, 3));
    assert!(b.send(s, 1));
    assert!(b.send(s, 2));
    assert!(b.send(s, 3));
    assert_eq!(b.drain(s), vec![1, 2, 3]);
}

#[test]
fn drain_all_takes_every_channel() {
    let mut b: EventBridge<u32> = EventBridge::new();
    let a = b.get_or_create(key(MessageKind::Insert, 1));
    let c = b.get_or_create(key(MessageKind::Delete, 1));
    b.send(c, 9);
    b.send(a, 4);
    b.send(c, 10);
    assert_eq!(b.drain_all(), vec![vec![4], vec![9, 10]]);
    assert_eq!(b.drain_all(), vec![Vec::<u32>::new(), Vec::new()]);
}

#[test]
fn send_after_receiver_torn_down_is_dropped() {
    let mut b: EventBridge<u32> = EventBridge::new();
    let s = b.get_or_create(key(MessageKind::Insert, 2));
    b.send(s, 1);
    b.close_receiver(s);
    assert!(!b.send(s, 2));
    assert_eq!(b.drain(s), Vec::<u32>::new());
    assert_eq!(b.drain_all(), vec![Vec::<u32>::new()]);
}

#[test]
fn teardown_of_one_channel_leaves_others() {
    let mut b: EventBridge<u32> = EventBridge::new();
    let a = b.get_or_create(key(MessageKind::Insert, 2));
    let c = b.get_or_create(key(MessageKind::Delete, 2));
    b.close_receiver(a);
    assert!(b.send(c, 8));
    assert!(!b.send(a, 7));
    assert_eq!(b.drain_all(), vec![Vec::<u32>::new(), vec![8]]);
}
