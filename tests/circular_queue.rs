use sensor_log::circular_queue::{CircularQueue, Iter};

fn collect<'a, const N: usize>(mut iter: Iter<'a, i32, N>) -> Vec<&'a i32> {
    let mut out = Vec::new();
    while let Some(x) = iter.next() {
        out.push(x);
    }
    out
}

#[test]
fn test_basic_operations() {
    let mut queue: CircularQueue<i32, 4> = CircularQueue::new();

    assert_eq!(queue.capacity(), 4);
    assert_eq!(queue.len(), 0);
    assert!(queue.is_empty());
    assert!(!queue.is_full());

    assert!(queue.push(1).is_ok());
    assert!(queue.push(2).is_ok());
    assert!(queue.push(3).is_ok());
    assert_eq!(queue.len(), 3);

    assert_eq!(queue.peek(), Some(&1));
    assert_eq!(queue.len(), 3);

    assert_eq!(queue.pop(), Some(1));
    assert_eq!(queue.pop(), Some(2));
    assert_eq!(queue.len(), 1);

    assert_eq!(queue.pop(), Some(3));
    assert!(queue.is_empty());
    assert_eq!(queue.pop(), None);
}

#[test]
fn test_full_queue() {
    let mut queue: CircularQueue<i32, 3> = CircularQueue::new();

    assert!(queue.push(1).is_ok());
    assert!(queue.push(2).is_ok());
    assert!(queue.push(3).is_ok());
    assert!(queue.is_full());

    assert_eq!(queue.push(4), Err(4));
}

#[test]
fn test_push_overwrite() {
    let mut queue: CircularQueue<i32, 3> = CircularQueue::new();

    assert_eq!(queue.push_overwrite(1), None);
    assert_eq!(queue.push_overwrite(2), None);
    assert_eq!(queue.push_overwrite(3), None);

    assert_eq!(queue.push_overwrite(4), Some(1));
    assert_eq!(queue.push_overwrite(5), Some(2));

    assert_eq!(queue.pop(), Some(3));
    assert_eq!(queue.pop(), Some(4));
    assert_eq!(queue.pop(), Some(5));
    assert!(queue.is_empty());
}

#[test]
fn test_circular_behavior() {
    let mut queue: CircularQueue<i32, 3> = CircularQueue::new();

    queue.push(1).unwrap();
    queue.push(2).unwrap();
    queue.push(3).unwrap();

    assert_eq!(queue.pop(), Some(1));
    assert_eq!(queue.pop(), Some(2));

    queue.push(4).unwrap();
    queue.push(5).unwrap();

    assert_eq!(queue.pop(), Some(3));
    assert_eq!(queue.pop(), Some(4));
    assert_eq!(queue.pop(), Some(5));
    assert!(queue.is_empty());
}

#[test]
fn test_iterator() {
    let mut queue: CircularQueue<i32, 5> = CircularQueue::new();

    queue.push(1).unwrap();
    queue.push(2).unwrap();
    queue.push(3).unwrap();

    let values: Vec<&i32> = collect(queue.iter());
    assert_eq!(values, vec![&1, &2, &3]);

    assert_eq!(queue.len(), 3);
    assert_eq!(queue.pop(), Some(1));
}

#[test]
fn test_iterator_after_wrap() {
    let mut queue: CircularQueue<i32, 3> = CircularQueue::new();

    queue.push(1).unwrap();
    queue.push(2).unwrap();
    queue.push(3).unwrap();
    queue.pop();
    queue.pop();

    queue.push(4).unwrap();
    queue.push(5).unwrap();

    let values: Vec<&i32> = collect(queue.iter());
    assert_eq!(values, vec![&3, &4, &5]);
}

#[test]
fn test_clear() {
    let mut queue: CircularQueue<i32, 4> = CircularQueue::new();

    queue.push(1).unwrap();
    queue.push(2).unwrap();
    queue.push(3).unwrap();

    queue.clear();

    assert!(queue.is_empty());
    assert_eq!(queue.len(), 0);
    assert_eq!(queue.pop(), None);
}

#[test]
fn test_get() {
    let mut queue: CircularQueue<i32, 4> = CircularQueue::new();

    queue.push(10).unwrap();
    queue.push(20).unwrap();
    queue.push(30).unwrap();

    assert_eq!(queue.get(0), Some(&10));
    assert_eq!(queue.get(1), Some(&20));
    assert_eq!(queue.get(2), Some(&30));
    assert_eq!(queue.get(3), None);
}

#[test]
fn test_exact_size_iterator() {
    let mut queue: CircularQueue<i32, 5> = CircularQueue::new();

    queue.push(1).unwrap();
    queue.push(2).unwrap();
    queue.push(3).unwrap();

    let mut iter = queue.iter();
    assert_eq!(iter.len(), 3);

    iter.next();
    assert_eq!(iter.len(), 2);

    iter.next();
    assert_eq!(iter.len(), 1);

    iter.next();
    assert_eq!(iter.len(), 0);
}

#[test]
fn peek_mut_changes_front_in_place() {
    let mut queue: CircularQueue<i32, 3> = CircularQueue::new();
    assert_eq!(queue.peek_mut(), None);
    queue.push(7).unwrap();
    queue.push(8).unwrap();
    if let Some(front) = queue.peek_mut() {
        *front = 70;
    }
    assert_eq!(queue.pop(), Some(70));
    assert_eq!(queue.pop(), Some(8));
}

#[test]
fn push_overwrite_after_wrap_keeps_order() {
    let mut queue: CircularQueue<i32, 2> = CircularQueue::new();
    for v in 1..=5 {
        queue.push_overwrite(v);
    }
    assert_eq!(queue.len(), 2);
    assert_eq!(queue.get(0), Some(&4));
    assert_eq!(queue.get(1), Some(&5));
    let (lo, hi) = queue.iter().size_hint();
    assert_eq!((lo, hi), (2, Some(2)));
}

#[test]
fn default_queue_is_empty() {
    let queue: CircularQueue<i32, 4> = Default::default();
    assert!(queue.is_empty());
    assert_eq!(queue.capacity(), 4);
}
