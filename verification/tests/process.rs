use corewars::load_file::Offset;
use corewars::mars::process::{Entry, Error, Queue};

#[test]
fn queue_multiple_processes() {
    let mut queue = Queue::new();

    assert_eq!(queue.peek().unwrap_err(), Error::NoRemainingProcesses);
    assert_eq!(queue.pop().unwrap_err(), Error::NoRemainingProcesses);

    let starting_offset = Offset::new(10, 8000);

    queue.push(1, starting_offset, None);
    assert_eq!(
        queue.peek().unwrap(),
        &Entry {
            id: 1,
            thread: 0,
            offset: starting_offset
        }
    );
    assert!(queue.thread_count(1) > 0);

    queue.push(2, starting_offset + 5, None);
    assert!(queue.thread_count(2) > 0);

    assert_eq!(
        queue.pop().unwrap(),
        Entry {
            id: 1,
            thread: 0,
            offset: starting_offset
        }
    );
    assert_eq!(
        queue.peek().unwrap(),
        &Entry {
            id: 2,
            thread: 0,
            offset: starting_offset + 5
        }
    );
    assert!(!queue.thread_count(1) > 0);
    assert!(queue.thread_count(2) > 0);

    assert_eq!(
        queue.pop().unwrap(),
        Entry {
            id: 2,
            thread: 0,
            offset: starting_offset + 5
        }
    );
    assert!(!queue.thread_count(1) > 0);
    assert!(!queue.thread_count(2) > 0);

    assert_eq!(queue.peek().unwrap_err(), Error::NoRemainingProcesses);
    assert_eq!(queue.pop().unwrap_err(), Error::NoRemainingProcesses);

    assert!(!queue.thread_count(1) > 0);
    assert!(!queue.thread_count(2) > 0);
}

#[test]
fn queue_single_process() {
    let mut queue = Queue::new();
    let starting_offset = Offset::new(10, 8000);

    queue.push(1, starting_offset, None);
    assert_eq!(
        queue.peek().unwrap(),
        &Entry {
            id: 1,
            thread: 0,
            offset: starting_offset
        }
    );
    assert!(queue.thread_count(1) > 0);

    // should increment the thread id to 1
    queue.push(1, starting_offset, None);
    queue.pop().unwrap();
    assert_eq!(
        queue.peek().unwrap(),
        &Entry {
            id: 1,
            thread: 1,
            offset: starting_offset
        }
    );
    assert!(queue.thread_count(1) > 0);

    queue.push(1, starting_offset, Some(1));
    queue.pop().unwrap();
    assert_eq!(
        queue.peek().unwrap(),
        &Entry {
            id: 1,
            thread: 1,
            offset: starting_offset
        }
    );
    assert!(queue.thread_count(1) > 0);
}

#[test]
fn queue_counts_follow_the_entries() {
    let mut queue = Queue::new();
    let at = Offset::new(0, 100);
    queue.push(0, at, None);
    queue.push(1, at + 1, None);
    queue.push(0, at + 2, None);
    assert_eq!(queue.len(), 3);
    assert_eq!(queue.thread_count(0), 2);
    assert_eq!(queue.thread_count(1), 1);
    assert_eq!(queue.thread_count(0) + queue.thread_count(1), queue.len());

    let first = queue.pop().unwrap();
    assert_eq!((first.id, first.thread, first.offset.value()), (0, 0, 0));
    assert_eq!(queue.thread_count(0), 1);
    let second = queue.pop().unwrap();
    assert_eq!((second.id, second.thread, second.offset.value()), (1, 0, 1));
    assert_eq!(queue.thread_count(1), 0);
    let third = queue.pop().unwrap();
    assert_eq!((third.id, third.thread, third.offset.value()), (0, 1, 2));
    assert_eq!(queue.thread_count(0), 0);
    assert_eq!(queue.len(), 0);
}
