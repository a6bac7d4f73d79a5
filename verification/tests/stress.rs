use std::sync::atomic::AtomicUsize;
use std::sync::atomic::Ordering;
use std::sync::Arc;
use std::sync::Mutex;

use mailbox_dispatch::dispatcher::Dispatcher;
use mailbox_dispatch::mailbox::DrainStep;

use threadpool::ThreadPool;

/// The drain task as the surrounding program runs it on the worker pool:
/// step the shard's mailbox until it retires, handing every taken item to
/// the recording "processing capability". The per-shard reentrancy counter
/// checks that no two drain tasks are ever active for the same shard.
fn drain_task(
    dispatcher: &Arc<Mutex<Dispatcher>>,
    shard: usize,
    reentrancy: &Arc<Vec<AtomicUsize>>,
    record: &Arc<Mutex<Vec<(usize, String)>>>,
) {
    let depth = reentrancy[shard].fetch_add(1, Ordering::SeqCst);
    assert_eq!(depth, 0, "two drain tasks ran concurrently for one shard");
    loop {
        let mut d = dispatcher.lock().unwrap();
        if !d.shard_scheduled(shard) {
            // Unreachable in practice: the flag stays set until WentIdle.
            reentrancy[shard].fetch_sub(1, Ordering::SeqCst);
            return;
        }
        match d.drain_step(shard) {
            DrainStep::Took(item) => {
                drop(d);
                // The processing capability: record (shard, item) under its
                // own lock, as the shared output writer would.
                record.lock().unwrap().push((shard, item));
            }
            DrainStep::WentIdle => {
                // Retire while still holding the lock that observed the
                // empty queue, so a successor task (spawned by an enqueue
                // that can only run after this critical section) finds the
                // counter back at zero.
                reentrancy[shard].fetch_sub(1, Ordering::SeqCst);
                return;
            }
        }
    }
}

#[test]
fn concurrent_stress_exactly_once_fifo_mutual_exclusion() {
    const SHARDS: usize = 3;
    const ITEMS: usize = 3000;

    let pool = ThreadPool::new(4);
    let dispatcher = Arc::new(Mutex::new(Dispatcher::new(SHARDS)));
    let reentrancy: Arc<Vec<AtomicUsize>> =
        Arc::new((0..SHARDS).map(|_| AtomicUsize::new(0)).collect());
    let record: Arc<Mutex<Vec<(usize, String)>>> = Arc::new(Mutex::new(Vec::new()));

    // The producer submits while drain tasks are running: every enqueue
    // races against a possible retire of the shard's drain task.
    for k in 0..ITEMS {
        let (shard, owes_task) = dispatcher.lock().unwrap().submit(format!("{}", k));
        assert_eq!(shard, k % SHARDS);
        if owes_task {
            let dispatcher = Arc::clone(&dispatcher);
            let reentrancy = Arc::clone(&reentrancy);
            let record = Arc::clone(&record);
            pool.execute(move || drain_task(&dispatcher, shard, &reentrancy, &record));
        }
    }

    // Graceful shutdown: the producer has stopped; wait until every shard
    // has quiesced, then until the pool has retired the drain tasks.
    loop {
        if dispatcher.lock().unwrap().all_quiescent() {
            break;
        }
    }
    pool.join();
    assert_eq!(pool.panic_count(), 0);

    let recorded = record.lock().unwrap();
    // Exactly-once: every submitted item was processed exactly once.
    assert_eq!(recorded.len(), ITEMS);
    let mut seen = vec![false; ITEMS];
    for (shard, item) in recorded.iter() {
        let k: usize = item.parse().unwrap();
        assert!(!seen[k], "item processed twice");
        seen[k] = true;
        assert_eq!(*shard, k % SHARDS, "item processed by the wrong shard");
    }
    // Per-shard FIFO: within each shard, items appear in submission order.
    let mut last: Vec<Option<usize>> = vec![None; SHARDS];
    for (shard, item) in recorded.iter() {
        let k: usize = item.parse().unwrap();
        if let Some(prev) = last[*shard] {
            assert!(prev < k, "shard processed items out of FIFO order");
        }
        last[*shard] = Some(k);
    }
}
