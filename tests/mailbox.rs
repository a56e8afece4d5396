use termibbl::events::EventQueue;

#[test]
fn immediate_overtakes_normal() {
    let mut q: EventQueue<u32> = EventQueue::new();
    q.sender().send(1);
    q.sender().send_immediate(2);
    assert_eq!(q.try_recv(), Some(2));
    assert_eq!(q.try_recv(), Some(1));
    assert_eq!(q.try_recv(), None);
}

#[test]
fn immediate_first_in_either_order() {
    let mut q: EventQueue<u32> = EventQueue::new();
    q.sender().send_immediate(2);
    q.sender().send(1);
    assert_eq!(q.try_recv(), Some(2));
    assert_eq!(q.try_recv(), Some(1));
}

#[test]
fn normal_messages_keep_their_order() {
    let mut q: EventQueue<u32> = EventQueue::new();
    let s = q.sender().duplicate();
    for i in 0..5 {
        s.send(i);
    }
    for i in 0..5 {
        assert_eq!(q.recv_timeout(10), Some(i));
    }
    assert_eq!(q.recv_timeout(10), None);
}

#[test]
fn timed_message_waits_for_its_instant() {
    let mut q: EventQueue<u32> = EventQueue::new();
    q.sender().send_after(7, 3_600_000);
    q.sender().send_after(8, 0);
    assert_eq!(q.try_recv(), Some(8));
    assert_eq!(q.try_recv(), None);
}

#[test]
fn default_queue_is_empty() {
    let mut q: EventQueue<u8> = EventQueue::default();
    assert_eq!(q.try_recv(), None);
}
