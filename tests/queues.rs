use std::collections::VecDeque;

use queues::blocking::{take_after_wait, BlockingQueue, Wakeup};
use queues::share::consumer_share;
use queues::linked::LinkedQueue;
use queues::non_blocking::NonBlockingQueue;

#[test]
fn it_works() {
    let queue: NonBlockingQueue<u32> = NonBlockingQueue::new();

    for i in 1..10 {
        queue.enqueue(i);
    }
    (1..10).for_each(|_| {
        let item = queue.dequeue();
        assert!(item.is_some());
    });

    assert!(queue.dequeue().is_none());
}

#[test]
fn non_blocking_returns_one_to_nine_in_order() {
    let queue: NonBlockingQueue<u32> = NonBlockingQueue::new();
    for i in 1..=9 {
        queue.enqueue(i);
    }
    for i in 1..=9 {
        assert_eq!(queue.dequeue(), Some(i));
    }
    assert_eq!(queue.dequeue(), None);
}

#[test]
fn linked_returns_one_to_nine_in_order() {
    let mut queue: LinkedQueue<u32> = LinkedQueue::new();
    for i in 1..=9 {
        queue.enqueue(i);
    }
    assert_eq!(queue.len(), 9);
    for i in 1..=9 {
        assert_eq!(queue.dequeue(), Some(i));
    }
    assert_eq!(queue.dequeue(), None);
    assert_eq!(queue.len(), 0);
}

#[test]
fn fresh_non_blocking_queue_is_empty() {
    let queue: NonBlockingQueue<String> = NonBlockingQueue::new();
    assert_eq!(queue.dequeue(), None);
    assert_eq!(queue.dequeue(), None);
}

#[test]
fn fresh_linked_queue_is_empty() {
    let mut queue: LinkedQueue<u64> = LinkedQueue::new();
    assert_eq!(queue.len(), 0);
    assert_eq!(queue.dequeue(), None);
}

#[test]
fn single_thread_order_is_kept_for_many_items() {
    let queue: NonBlockingQueue<usize> = NonBlockingQueue::new();
    for i in 0..5000 {
        queue.enqueue(i * 3);
    }
    for i in 0..5000 {
        assert_eq!(queue.dequeue(), Some(i * 3));
    }
    assert_eq!(queue.dequeue(), None);
}

#[test]
fn interleaved_calls_keep_fifo_order() {
    let mut queue: LinkedQueue<&str> = LinkedQueue::new();
    queue.enqueue("a");
    queue.enqueue("b");
    assert_eq!(queue.dequeue(), Some("a"));
    queue.enqueue("c");
    assert_eq!(queue.dequeue(), Some("b"));
    assert_eq!(queue.dequeue(), Some("c"));
    assert_eq!(queue.dequeue(), None);
    queue.enqueue("d");
    assert_eq!(queue.len(), 1);
    assert_eq!(queue.dequeue(), Some("d"));
}

#[test]
fn equal_items_are_all_delivered() {
    let queue: NonBlockingQueue<u8> = NonBlockingQueue::new();
    queue.enqueue(7);
    queue.enqueue(7);
    queue.enqueue(7);
    assert_eq!(queue.dequeue(), Some(7));
    assert_eq!(queue.dequeue(), Some(7));
    assert_eq!(queue.dequeue(), Some(7));
    assert_eq!(queue.dequeue(), None);
}

#[test]
fn blocking_queue_keeps_fifo_order() {
    let queue: BlockingQueue<u32> = BlockingQueue::new();
    for i in 1..=9 {
        queue.enqueue(i);
    }
    for i in 1..=9 {
        assert_eq!(queue.dequeue(), Some(i));
    }
}

#[test]
fn blocking_dequeue_returns_at_once_when_items_wait() {
    let queue: BlockingQueue<String> = BlockingQueue::new();
    queue.enqueue("x".to_string());
    queue.enqueue("y".to_string());
    assert_eq!(queue.dequeue(), Some("x".to_string()));
    queue.enqueue("z".to_string());
    assert_eq!(queue.dequeue(), Some("y".to_string()));
    assert_eq!(queue.dequeue(), Some("z".to_string()));
}

#[test]
fn take_after_ready_wake_removes_the_front_item() {
    let mut items: VecDeque<u32> = VecDeque::from(vec![4, 5, 6]);
    assert_eq!(take_after_wait(&mut items, Wakeup::Ready), Some(4));
    assert_eq!(items, VecDeque::from(vec![5, 6]));
}

#[test]
fn take_after_poisoned_wake_leaves_the_items() {
    let mut items: VecDeque<u32> = VecDeque::from(vec![4, 5]);
    assert_eq!(take_after_wait(&mut items, Wakeup::Poisoned), None);
    assert_eq!(items, VecDeque::from(vec![4, 5]));
    let mut empty: VecDeque<u32> = VecDeque::new();
    assert_eq!(take_after_wait(&mut empty, Wakeup::Poisoned), None);
}

#[test]
fn consumer_share_needs_equal_counts() {
    assert_eq!(consumer_share(40_000, 4, 4), Some(10_000));
    assert_eq!(consumer_share(10, 3, 3), Some(3));
    assert_eq!(consumer_share(0, 2, 2), Some(0));
    assert_eq!(consumer_share(40_000, 4, 2), None);
    assert_eq!(consumer_share(40_000, 0, 0), None);
}
