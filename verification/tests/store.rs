use http_queue_lite::store::{StoreError, TaskStore, DEFAULT_CAPACITY};
use std::sync::{Arc, Mutex};
use threadpool::ThreadPool;

#[test]
fn new_store_is_empty_with_default_capacity() {
    let store = TaskStore::new();
    assert_eq!(store.len(), 0);
    assert_eq!(store.capacity(), 10_000_000);
    assert_eq!(DEFAULT_CAPACITY, 10_000_000);
}

#[test]
fn tasks_come_out_in_the_order_they_went_in() {
    let mut store = TaskStore::new();
    let payloads = ["alpha", "beta", "gamma", "delta", "epsilon"];
    for p in payloads.iter() {
        assert_eq!(store.enqueue(p.to_string()), Ok(()));
    }
    assert_eq!(store.len(), 5);
    for p in payloads.iter() {
        assert_eq!(store.dequeue(), Ok(p.to_string()));
    }
    assert_eq!(store.len(), 0);
}

#[test]
fn dequeue_on_empty_store_is_queue_empty_every_time() {
    let mut store = TaskStore::new();
    for _ in 0..10 {
        assert_eq!(store.dequeue(), Err(StoreError::QueueEmpty));
        assert_eq!(store.len(), 0);
    }
    assert_eq!(store.enqueue("once".to_string()), Ok(()));
    assert_eq!(store.dequeue(), Ok("once".to_string()));
    for _ in 0..3 {
        assert_eq!(store.dequeue(), Err(StoreError::QueueEmpty));
    }
}

#[test]
fn capacity_boundary() {
    let mut store = TaskStore::with_capacity(3);
    assert_eq!(store.capacity(), 3);
    assert_eq!(store.enqueue("a".to_string()), Ok(()));
    assert_eq!(store.enqueue("b".to_string()), Ok(()));
    assert_eq!(store.enqueue("c".to_string()), Ok(()));
    assert_eq!(store.len(), 3);
    assert_eq!(store.enqueue("d".to_string()), Err(StoreError::QueueFull));
    assert_eq!(store.len(), 3);
    assert_eq!(store.dequeue(), Ok("a".to_string()));
    assert_eq!(store.enqueue("e".to_string()), Ok(()));
    assert_eq!(store.len(), 3);
    assert_eq!(store.dequeue(), Ok("b".to_string()));
    assert_eq!(store.dequeue(), Ok("c".to_string()));
    assert_eq!(store.dequeue(), Ok("e".to_string()));
    assert_eq!(store.dequeue(), Err(StoreError::QueueEmpty));
}

#[test]
fn store_without_capacity_refuses_every_task() {
    let mut store = TaskStore::with_capacity(0);
    assert_eq!(store.enqueue("a".to_string()), Err(StoreError::QueueFull));
    assert_eq!(store.len(), 0);
    assert_eq!(store.dequeue(), Err(StoreError::QueueEmpty));
}

#[test]
fn concurrent_enqueues_lose_nothing_and_repeat_nothing() {
    let workers = 16;
    let store = Arc::new(Mutex::new(TaskStore::new()));
    let pool = ThreadPool::new(4);
    for i in 0..workers {
        let store = store.clone();
        pool.execute(move || {
            let mut store = store.lock().unwrap();
            assert_eq!(store.enqueue(format!("payload-{}", i)), Ok(()));
        });
    }
    pool.join();
    let mut store = store.lock().unwrap();
    assert_eq!(store.len(), workers);
    let mut seen: Vec<String> = Vec::new();
    for _ in 0..workers {
        let task = store.dequeue().unwrap();
        assert!(!seen.contains(&task));
        seen.push(task);
    }
    assert_eq!(store.dequeue(), Err(StoreError::QueueEmpty));
    for i in 0..workers {
        assert!(seen.contains(&format!("payload-{}", i)));
    }
}
