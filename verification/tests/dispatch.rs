use mailbox_dispatch::dispatcher::Dispatcher;
use mailbox_dispatch::mailbox::DrainStep;
use mailbox_dispatch::mailbox::Mailbox;

/// Run the drain task for `shard` to completion, recording every item it
/// takes as `(item, shard)` in arrival order.
fn run_drain(d: &mut Dispatcher, shard: usize, record: &mut Vec<(String, usize)>) {
    loop {
        if !d.shard_scheduled(shard) {
            break;
        }
        match d.drain_step(shard) {
            DrainStep::Took(item) => record.push((item, shard)),
            DrainStep::WentIdle => break,
        }
    }
}

#[test]
fn end_to_end_three_shards() {
    let mut d = Dispatcher::new(3);
    let mut record: Vec<(String, usize)> = Vec::new();
    let mut owed: Vec<usize> = Vec::new();
    for item in ["a", "b", "c", "d", "e"] {
        let (shard, owes_task) = d.submit(item.to_string());
        if owes_task {
            owed.push(shard);
        }
    }
    for shard in owed {
        run_drain(&mut d, shard, &mut record);
    }
    assert!(d.all_quiescent());
    // All five items recorded exactly once.
    assert_eq!(record.len(), 5);
    // Expected round-robin assignment.
    let shard0: Vec<&str> = record
        .iter()
        .filter(|(_, s)| *s == 0)
        .map(|(i, _)| i.as_str())
        .collect();
    let shard1: Vec<&str> = record
        .iter()
        .filter(|(_, s)| *s == 1)
        .map(|(i, _)| i.as_str())
        .collect();
    let shard2: Vec<&str> = record
        .iter()
        .filter(|(_, s)| *s == 2)
        .map(|(i, _)| i.as_str())
        .collect();
    // Within each shard the FIFO order of submission is kept: a before d,
    // b before e.
    assert_eq!(shard0, vec!["a", "d"]);
    assert_eq!(shard1, vec!["b", "e"]);
    assert_eq!(shard2, vec!["c"]);
}

#[test]
fn round_robin_counts() {
    // 10 items over 4 shards: shard i receives ceil((10 - i) / 4) items.
    let mut d = Dispatcher::new(4);
    let mut counts = [0usize; 4];
    for k in 0..10 {
        let (shard, owes_task) = d.submit(format!("item-{}", k));
        assert_eq!(shard, k % 4);
        counts[shard] += 1;
        if owes_task {
            let mut sink: Vec<(String, usize)> = Vec::new();
            run_drain(&mut d, shard, &mut sink);
        }
    }
    assert_eq!(counts, [3, 3, 2, 2]);
}

#[test]
fn round_robin_counts_with_remainder() {
    // 7 items over 3 shards: ceil(7/3) = 3, ceil(6/3) = 2, ceil(5/3) = 2.
    let mut d = Dispatcher::new(3);
    let mut counts = [0usize; 3];
    for k in 0..7 {
        let (shard, _) = d.submit(format!("item-{}", k));
        counts[shard] += 1;
    }
    assert_eq!(counts, [3, 2, 2]);
}

#[test]
fn fifo_within_one_shard() {
    let mut d = Dispatcher::new(1);
    let mut owed = false;
    for k in 0..100 {
        let (shard, owes_task) = d.submit(format!("{}", k));
        assert_eq!(shard, 0);
        owed = owed || owes_task;
    }
    assert!(owed);
    let mut record: Vec<(String, usize)> = Vec::new();
    run_drain(&mut d, 0, &mut record);
    assert!(d.all_quiescent());
    let expected: Vec<String> = (0..100).map(|k| format!("{}", k)).collect();
    let got: Vec<String> = record.into_iter().map(|(i, _)| i).collect();
    assert_eq!(got, expected);
}

#[test]
fn race_window_enqueue_while_draining() {
    // An enqueue lands exactly while the drain task is between taking the
    // last item and observing the queue empty: the mailbox is still
    // scheduled, so no second task is submitted (no double-schedule), and
    // the next drain step takes the new item (no lost wakeup).
    let mut m = Mailbox::new();
    assert!(m.enqueue("x".to_string()));
    match m.drain_step() {
        DrainStep::Took(item) => assert_eq!(item, "x"),
        DrainStep::WentIdle => panic!("an item was pending"),
    }
    // The race window: the queue is empty but the drain task has not yet
    // retired. A concurrent enqueue must not submit a second task ...
    assert!(!m.enqueue("y".to_string()));
    // ... and the drain task, re-checking the queue, keeps draining instead
    // of retiring under the new item.
    match m.drain_step() {
        DrainStep::Took(item) => assert_eq!(item, "y"),
        DrainStep::WentIdle => panic!("item enqueued in the race window was lost"),
    }
    match m.drain_step() {
        DrainStep::Took(_) => panic!("no item was pending"),
        DrainStep::WentIdle => {}
    }
    assert!(m.is_quiescent());
    // Once the task has retired, the next enqueue owes a fresh task.
    assert!(m.enqueue("z".to_string()));
}

#[test]
fn quiescence_reports_drained_state() {
    let mut m = Mailbox::new();
    // A fresh mailbox is already quiescent: completing it waits for nothing.
    assert!(m.is_quiescent());
    m.enqueue("a".to_string());
    // Items pending or a task scheduled: not quiescent yet.
    assert!(!m.is_quiescent());
    match m.drain_step() {
        DrainStep::Took(item) => assert_eq!(item, "a"),
        DrainStep::WentIdle => panic!("an item was pending"),
    }
    // The queue is empty but the drain task is still scheduled.
    assert!(!m.is_quiescent());
    match m.drain_step() {
        DrainStep::Took(_) => panic!("no item was pending"),
        DrainStep::WentIdle => {}
    }
    assert!(m.is_quiescent());
}

#[test]
fn fresh_dispatcher_is_quiescent() {
    // With nothing ever submitted, shutdown has nothing to wait for.
    let d = Dispatcher::new(2);
    assert!(d.all_quiescent());
}

#[test]
fn single_shard_dispatcher_routes_everything_to_shard_zero() {
    let mut d = Dispatcher::new(1);
    for k in 0..5 {
        let (shard, _) = d.submit(format!("{}", k));
        assert_eq!(shard, 0);
    }
    assert_eq!(d.shards(), 1);
    assert!(!d.all_quiescent());
    let mut record: Vec<(String, usize)> = Vec::new();
    run_drain(&mut d, 0, &mut record);
    assert_eq!(record.len(), 5);
    assert!(d.all_quiescent());
}
