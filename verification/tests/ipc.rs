use rost::ipc::{Message, MessageQueue};
use rost::process::ProcessId;

fn pid(n: u32) -> ProcessId {
    ProcessId::new(n)
}

fn msg(sender: u32, tag: u64) -> Message {
    let mut m = Message::new(pid(sender));
    m.data[0] = tag;
    m
}

#[test]
fn test_empty_queue() {
    let mut q = MessageQueue::new();
    assert!(q.is_empty());
    assert!(!q.is_full());
    assert_eq!(q.len(), 0);
    assert!(q.receive().is_none());
}

#[test]
fn test_fifo_order() {
    let mut q = MessageQueue::new();
    assert!(q.send(msg(1, 100)));
    assert!(q.send(msg(2, 200)));
    assert!(q.send(msg(3, 300)));

    assert_eq!(q.receive().unwrap().data[0], 100);
    assert_eq!(q.receive().unwrap().data[0], 200);
    assert_eq!(q.receive().unwrap().data[0], 300);
    assert!(q.is_empty());
}

#[test]
fn test_full_queue_rejects_send() {
    let mut q = MessageQueue::new();
    for i in 0..16 {
        assert!(q.send(msg(1, i as u64)), "slot {i} should succeed");
    }
    assert!(q.is_full());
    assert!(!q.send(msg(1, 99)), "17th send must be rejected");
}

#[test]
fn test_wrap_around() {
    let mut q = MessageQueue::new();
    for i in 0..16 {
        q.send(msg(1, i as u64));
    }
    for _ in 0..8 {
        q.receive();
    }
    for i in 16..24 {
        q.send(msg(2, i as u64));
    }
    assert_eq!(q.len(), 16);
    for i in 8..24u64 {
        let got = q.receive().unwrap().data[0];
        assert_eq!(got, i, "expected tag {i}, got {got}");
    }
    assert!(q.is_empty());
}

#[test]
fn test_notification_or_and_consume() {
    let mut q = MessageQueue::new();
    q.notify(0b0001);
    q.notify(0b0110);
    assert_eq!(q.poll_notification(), Some(0b0111));
    assert_eq!(q.poll_notification(), None);
}

#[test]
fn test_notification_empty() {
    let mut q = MessageQueue::new();
    assert_eq!(q.poll_notification(), None);
}

#[test]
fn payload_is_bounded() {
    let mut m = Message::new(pid(7));
    m.set_data(7, 70);
    m.set_data(8, 80);
    assert_eq!(m.get_data(7), 70);
    assert_eq!(m.get_data(8), 0);
    assert_eq!(m.get_data(0), 0);
    assert_eq!(m.sender, pid(7));
}

#[test]
fn messages_and_notifications_do_not_mix() {
    let mut q = MessageQueue::new();
    q.notify(4);
    assert!(q.is_empty());
    assert!(q.send(msg(1, 5)));
    assert_eq!(q.poll_notification(), Some(4));
    assert_eq!(q.len(), 1);
}

#[test]
fn notifications_merge() {
    let mut q = MessageQueue::new();
    q.notify(0b001);
    q.notify(0b100);
    q.notify(0b001);
    assert_eq!(q.poll_notification(), Some(0b101));
    assert_eq!(q.poll_notification(), None);
}
