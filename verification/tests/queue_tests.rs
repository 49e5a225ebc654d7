use note_index::event::EventKind;
use note_index::event::FileChangeEvent;
use note_index::queue::EventQueue;
use note_index::queue::DEFAULT_QUEUE_CAPACITY;

fn event(n: u64) -> FileChangeEvent {
    FileChangeEvent::new(vec![format!("/notes/{}.json", n)], EventKind::Created, n)
}

#[test]
fn overflow_burst_retains_capacity_and_counts_drops() {
    let mut q = EventQueue::new(DEFAULT_QUEUE_CAPACITY);
    let mut accepted: usize = 0;
    for n in 0..150 {
        if q.try_enqueue(event(n)) {
            accepted += 1;
        }
    }
    assert_eq!(accepted, 100);
    assert_eq!(q.len(), 100);
    assert_eq!(q.dropped(), 50);
    // The earliest events survive the burst, in order.
    for n in 0..100 {
        let e = q.dequeue().expect("queue should still hold events");
        assert_eq!(e.observed_at, n);
    }
    assert!(q.dequeue().is_none());
}

#[test]
fn enqueue_within_capacity_drops_nothing() {
    let mut q = EventQueue::new(10);
    for n in 0..10 {
        assert!(q.try_enqueue(event(n)));
    }
    assert_eq!(q.dropped(), 0);
    assert_eq!(q.len(), 10);
    assert!(!q.try_enqueue(event(10)));
    assert_eq!(q.dropped(), 1);
    assert_eq!(q.len(), 10);
}

#[test]
fn dequeue_is_fifo() {
    let mut q = EventQueue::new(4);
    q.try_enqueue(event(3));
    q.try_enqueue(event(1));
    q.try_enqueue(event(2));
    assert_eq!(q.dequeue().unwrap().observed_at, 3);
    assert_eq!(q.dequeue().unwrap().observed_at, 1);
    // Capacity frees up as events are consumed.
    assert!(q.try_enqueue(event(4)));
    assert_eq!(q.dequeue().unwrap().observed_at, 2);
    assert_eq!(q.dequeue().unwrap().observed_at, 4);
    assert!(q.dequeue().is_none());
}

#[test]
fn dequeue_on_empty_queue_returns_none() {
    let mut q = EventQueue::new(1);
    assert!(q.dequeue().is_none());
    assert_eq!(q.dropped(), 0);
}

#[test]
fn event_kinds_classify_indexing_and_deletion() {
    assert!(EventKind::Created.triggers_indexing());
    assert!(EventKind::Modified.triggers_indexing());
    assert!(!EventKind::Removed.triggers_indexing());
    assert!(!EventKind::Other.triggers_indexing());
    assert!(EventKind::Removed.triggers_deletion());
    assert!(!EventKind::Created.triggers_deletion());
    assert!(!EventKind::Modified.triggers_deletion());
    assert!(!EventKind::Other.triggers_deletion());
}
