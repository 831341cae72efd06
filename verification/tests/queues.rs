//! The queues and the commands that change them.

use raft_broker::command::{apply_command, check_command, Fault};
use raft_broker::message::{Header, Message, MessageType};
use raft_broker::queue::{is_ready_to_send, MQueue, MQueuePool, MessageQueue};

fn command(msg_type: MessageType, saddr: u32, daddr: u32, id: u32) -> Message {
    Message {
        header: Header { msg_type, saddr, daddr, id },
        payload: vec![id as u8],
    }
}

fn apply(pool: &mut MQueuePool, command: Message) -> Option<Message> {
    assert_eq!(check_command(pool, &command), None);
    apply_command(pool, command)
}

fn ids(queue: &mut MessageQueue) -> Vec<u32> {
    let mut found = vec![];
    while let Some(message) = queue.dequeue() {
        found.push(message.header.id);
    }
    found
}

#[test]
fn queues_are_first_in_first_out() {
    let mut queue = MessageQueue::new();
    assert!(queue.is_empty());
    assert!(queue.dequeue().is_none());
    for id in [3, 1, 2] {
        queue.enqueue(command(MessageType::SendReq, 1, 2, id));
    }
    assert!(!queue.is_empty());
    assert_eq!(ids(&mut queue), vec![3, 1, 2]);
}

#[test]
fn the_first_message_of_a_number_is_taken_out() {
    let mut queue = MessageQueue::new();
    for (id, byte) in [(1, 10), (2, 20), (2, 21), (3, 30)] {
        let mut message = command(MessageType::SendReq, 1, 2, id);
        message.payload = vec![byte];
        queue.enqueue(message);
    }
    assert!(queue.contains_id(2));
    assert_eq!(queue.dequeue_by_id(2).unwrap().payload, vec![20]);
    assert!(queue.contains_id(2));
    assert!(queue.dequeue_by_id(7).is_none());
    assert_eq!(ids(&mut queue), vec![1, 2, 3]);
}

#[test]
fn a_queue_is_ready_when_something_waits() {
    let mut queue = MQueue::new(9);
    assert_eq!(queue.id, 9);
    assert!(!is_ready_to_send(&queue));
    queue.delivered_queue.enqueue(command(MessageType::PushReq, 1, 9, 1));
    assert!(!is_ready_to_send(&queue));
    queue.waiting_queue.enqueue(command(MessageType::SendReq, 1, 9, 1));
    assert!(is_ready_to_send(&queue));
}

#[test]
fn sending_opens_the_queue_of_the_receiver() {
    let mut pool = MQueuePool::new();
    assert!(apply(&mut pool, command(MessageType::SendReq, 1, 100, 5)).is_none());
    assert!(pool.find_by_id(1).is_none());
    let queue = pool.find_by_id(100).unwrap();
    assert_eq!(queue.id, 100);
    assert!(queue.waiting_queue.contains_id(5));
    assert!(queue.delivered_queue.is_empty());
}

#[test]
fn pushing_hands_out_the_oldest_message() {
    let mut pool = MQueuePool::new();
    for id in 1..=3 {
        apply(&mut pool, command(MessageType::SendReq, 1, 100, id));
    }
    for id in 1..=3 {
        let reply = apply(&mut pool, command(MessageType::PushReq, 100, 0, 0)).unwrap();
        assert_eq!(
            reply.header,
            Header { msg_type: MessageType::PushReq, saddr: 1, daddr: 100, id }
        );
        assert_eq!(reply.payload, vec![id as u8]);
    }
    assert!(apply(&mut pool, command(MessageType::PushReq, 100, 0, 0)).is_none());
    let mut queue = pool.take(100).unwrap();
    assert_eq!(ids(&mut queue.waiting_queue), Vec::<u32>::new());
    assert_eq!(ids(&mut queue.delivered_queue), vec![1, 2, 3]);
}

#[test]
fn delivered_messages_are_marked() {
    let mut pool = MQueuePool::new();
    apply(&mut pool, command(MessageType::SendReq, 1, 100, 4));
    apply(&mut pool, command(MessageType::PushReq, 100, 0, 0));
    let mut queue = pool.take(100).unwrap();
    let delivered = queue.delivered_queue.dequeue().unwrap();
    assert_eq!(delivered.header.msg_type, MessageType::PushReq);
    assert_eq!(delivered.header.daddr, 100);
}

#[test]
fn what_comes_goes() {
    let mut pool = MQueuePool::new();
    apply(&mut pool, command(MessageType::HeloReq, 100, 0, 0));
    apply(&mut pool, command(MessageType::SendReq, 1, 100, 8));
    assert_eq!(
        apply(&mut pool, command(MessageType::PushReq, 100, 0, 0)).unwrap().header.id,
        8
    );
    assert!(apply(&mut pool, command(MessageType::FreeReq, 100, 0, 8)).is_none());
    let queue = pool.find_by_id(100).unwrap();
    assert!(queue.waiting_queue.is_empty());
    assert!(queue.delivered_queue.is_empty());
}

#[test]
fn greeting_twice_is_greeting_once() {
    let mut pool = MQueuePool::new();
    apply(&mut pool, command(MessageType::HeloReq, 100, 0, 0));
    assert!(pool.find_by_id(100).is_some());
    apply(&mut pool, command(MessageType::SendReq, 1, 100, 8));
    apply(&mut pool, command(MessageType::HeloReq, 100, 0, 0));
    assert!(pool.find_by_id(100).unwrap().waiting_queue.contains_id(8));
}

#[test]
fn other_clients_keep_their_queues() {
    let mut pool = MQueuePool::new();
    apply(&mut pool, command(MessageType::SendReq, 1, 100, 1));
    apply(&mut pool, command(MessageType::SendReq, 1, 200, 2));
    apply(&mut pool, command(MessageType::PushReq, 100, 0, 0));
    assert!(pool.find_by_id(200).unwrap().waiting_queue.contains_id(2));
    assert!(pool.find_by_id(200).unwrap().delivered_queue.is_empty());
    assert!(pool.find_by_id(100).unwrap().delivered_queue.contains_id(1));
}

#[test]
fn other_types_change_nothing() {
    let mut pool = MQueuePool::new();
    assert!(apply(&mut pool, command(MessageType::Other, 1, 2, 3)).is_none());
    assert!(pool.find_by_id(1).is_none());
    assert!(pool.find_by_id(2).is_none());
}

#[test]
fn clients_without_queues_are_unknown() {
    let pool = MQueuePool::new();
    assert_eq!(
        check_command(&pool, &command(MessageType::PushReq, 100, 0, 0)),
        Some(Fault::UnknownClient)
    );
    assert_eq!(
        check_command(&pool, &command(MessageType::FreeReq, 100, 0, 0)),
        Some(Fault::UnknownClient)
    );
    assert_eq!(check_command(&pool, &command(MessageType::SendReq, 1, 100, 0)), None);
}

#[test]
fn only_delivered_messages_can_be_freed() {
    let mut pool = MQueuePool::new();
    apply(&mut pool, command(MessageType::SendReq, 1, 100, 1));
    let free = command(MessageType::FreeReq, 100, 0, 1);
    assert_eq!(check_command(&pool, &free), Some(Fault::NotDelivered));
    apply(&mut pool, command(MessageType::PushReq, 100, 0, 0));
    assert_eq!(check_command(&pool, &free), None);
    apply(&mut pool, free.clone());
    assert_eq!(check_command(&pool, &free), Some(Fault::NotDelivered));
}

#[test]
fn pools_find_what_was_added() {
    let mut pool = MQueuePool::new();
    pool.add(4, MQueue::new(4));
    assert_eq!(pool.find_by_id(4).unwrap().id, 4);
    assert!(pool.take(5).is_none());
    assert_eq!(pool.take(4).unwrap().id, 4);
    assert!(pool.find_by_id(4).is_none());
}
