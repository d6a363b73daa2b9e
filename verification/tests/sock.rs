use slowloris::connection::{Action, ConnectionEvent, ConnectionState, Report};
use slowloris::error::PoolError;
use slowloris::sock::SocketPool;
use slowloris::thread::Dispatch;

fn target() -> String {
    String::from("127.0.0.1:8080")
}

/// Brings connection `id` up: started, then connected at the first attempt.
fn connect(pool: &mut SocketPool, id: usize) -> Action {
    assert_eq!(pool.step(id, ConnectionEvent::Started), Action::Connect);
    pool.step(id, ConnectionEvent::Connected)
}

#[test]
fn pool_without_connections_is_refused() {
    assert!(matches!(SocketPool::new(0, target()), Err(PoolError::InvalidConfig)));
    assert!(matches!(SocketPool::with_attempts(0, target(), 3), Err(PoolError::InvalidConfig)));
}

#[test]
fn new_pool_has_its_connections_waiting_for_workers() {
    let mut pool = SocketPool::new(3, target()).unwrap();
    assert_eq!(pool.size(), 3);
    assert_eq!(pool.target(), "127.0.0.1:8080");
    assert_eq!(pool.attempts(), 5);
    assert_eq!(pool.backlog(), 0);
    assert!(!pool.is_closed());
    assert!(!pool.is_poisoned());
    for id in 0..3 {
        assert_eq!(pool.state(id), Some(ConnectionState::Pending));
    }
    assert_eq!(pool.state(3), None);
    // The connections were spawned at once: their jobs wait in the task pool.
    assert_eq!(pool.next_task(2), Dispatch::Run(0));
    assert_eq!(pool.next_task(0), Dispatch::Run(1));
    assert_eq!(pool.next_task(1), Dispatch::Run(2));
    assert_eq!(pool.next_task(1), Dispatch::Wait);
    assert_eq!(pool.next_task(3), Dispatch::Exit);
}

#[test]
fn enqueue_puts_payloads_in_line() {
    let mut pool = SocketPool::new(2, target()).unwrap();
    assert_eq!(pool.enqueue(vec![1, 2]), Ok(()));
    assert_eq!(pool.enqueue(vec![3]), Ok(()));
    assert_eq!(pool.backlog(), 2);
    assert_eq!(connect(&mut pool, 1), Action::Write(vec![1, 2]));
    assert_eq!(connect(&mut pool, 0), Action::Write(vec![3]));
    assert_eq!(pool.backlog(), 0);
    assert_eq!(pool.step(1, ConnectionEvent::Written), Action::Wait);
}

#[test]
fn shutdown_sends_one_sentinel_for_each_connection() {
    let mut pool = SocketPool::new(4, target()).unwrap();
    pool.enqueue(vec![7]).unwrap();
    assert_eq!(pool.shutdown(), Ok(()));
    assert!(pool.is_closed());
    assert_eq!(pool.backlog(), 1 + 4);
    // A second call sends nothing.
    assert_eq!(pool.shutdown(), Ok(()));
    assert_eq!(pool.backlog(), 1 + 4);
    assert_eq!(connect(&mut pool, 0), Action::Write(vec![7]));
    assert_eq!(pool.step(0, ConnectionEvent::Written), Action::Stop(Some(Report::Terminated)));
    for id in 1..4 {
        assert_eq!(connect(&mut pool, id), Action::Stop(Some(Report::Terminated)));
    }
    assert_eq!(pool.backlog(), 0);
    for id in 0..4 {
        assert_eq!(pool.state(id), Some(ConnectionState::Closed));
    }
}

#[test]
fn shutdown_tells_the_task_pool_workers_to_leave() {
    let mut pool = SocketPool::new(2, target()).unwrap();
    pool.shutdown().unwrap();
    assert_eq!(pool.next_task(0), Dispatch::Run(0));
    assert_eq!(pool.next_task(0), Dispatch::Run(1));
    assert_eq!(pool.next_task(0), Dispatch::Exit);
    assert_eq!(pool.next_task(1), Dispatch::Exit);
    assert_eq!(pool.next_task(1), Dispatch::Exit);
}

#[test]
fn refusing_target_abandons_every_connection_after_five_attempts() {
    let size = 4;
    let mut pool = SocketPool::new(size, target()).unwrap();
    pool.enqueue(vec![1]).unwrap();
    let mut attempts = vec![0usize; size];
    let mut abandoned = 0;
    let mut actions: Vec<Action> =
        (0..size).map(|id| pool.step(id, ConnectionEvent::Started)).collect();
    let mut live = size;
    while live > 0 {
        // The connections take turns, the last first.
        for id in (0..size).rev() {
            match actions[id] {
                Action::Connect => {
                    attempts[id] += 1;
                    actions[id] = pool.step(id, ConnectionEvent::ConnectFailed);
                    match actions[id] {
                        Action::Stop(Some(Report::ConnectionAbandoned)) => {
                            abandoned += 1;
                            live -= 1;
                        }
                        Action::Connect => {}
                        ref other => panic!("unexpected {:?}", other),
                    }
                }
                _ => {}
            }
        }
    }
    assert_eq!(attempts, vec![5, 5, 5, 5]);
    assert_eq!(abandoned, size);
    for id in 0..size {
        assert_eq!(pool.state(id), Some(ConnectionState::Abandoned));
    }
    assert_eq!(pool.backlog(), 1);
}

#[test]
fn three_pings_reach_three_connections() {
    let mut pool = SocketPool::new(3, target()).unwrap();
    for _ in 0..3 {
        pool.enqueue(b"ping".to_vec()).unwrap();
    }
    let mut written: Vec<Vec<u8>> = Vec::new();
    for id in [2usize, 0, 1] {
        match connect(&mut pool, id) {
            Action::Write(bytes) => written.push(bytes),
            other => panic!("unexpected {:?}", other),
        }
    }
    for id in 0..3 {
        assert_eq!(pool.step(id, ConnectionEvent::Written), Action::Wait);
    }
    assert_eq!(written, vec![b"ping".to_vec(), b"ping".to_vec(), b"ping".to_vec()]);
    assert_eq!(written.iter().map(|w| w.len()).sum::<usize>(), 12);
    assert_eq!(pool.backlog(), 0);
}

#[test]
fn payloads_leave_in_order_whichever_connection_takes_them() {
    let mut pool = SocketPool::new(2, target()).unwrap();
    for i in 0..6u8 {
        pool.enqueue(vec![i]).unwrap();
    }
    let mut written: Vec<u8> = Vec::new();
    let mut next = [connect(&mut pool, 0), connect(&mut pool, 1)];
    // Connection 0 is written to twice as often as connection 1.
    let turns = [0usize, 0, 1, 0];
    let mut seen = 0;
    for turn in 0..4 {
        let id = turns[turn];
        if let Action::Write(ref bytes) = next[id] {
            written.extend_from_slice(bytes);
            seen += 1;
        }
        next[id] = pool.step(id, ConnectionEvent::Written);
    }
    for id in 0..2 {
        if let Action::Write(ref bytes) = next[id] {
            written.extend_from_slice(bytes);
            seen += 1;
        }
    }
    assert_eq!(seen, 6);
    let mut sorted = written.clone();
    sorted.sort();
    assert_eq!(sorted, vec![0, 1, 2, 3, 4, 5]);
    assert_eq!(pool.backlog(), 0);
}

#[test]
fn poisoned_pool_refuses_everything() {
    let mut pool = SocketPool::new(2, target()).unwrap();
    pool.enqueue(vec![1]).unwrap();
    pool.mark_poisoned();
    assert!(pool.is_poisoned());
    assert_eq!(pool.enqueue(vec![2]), Err(PoolError::QueueLockPoisoned));
    assert_eq!(pool.shutdown(), Err(PoolError::QueueLockPoisoned));
    assert_eq!(pool.backlog(), 1);
    assert!(!pool.is_closed());
    assert_eq!(pool.step(0, ConnectionEvent::Started), Action::Stop(None));
    assert_eq!(pool.state(0), Some(ConnectionState::Pending));
    assert_eq!(pool.next_task(0), Dispatch::Exit);
}

#[test]
fn step_of_an_unknown_connection_changes_nothing() {
    let mut pool = SocketPool::new(1, target()).unwrap();
    pool.enqueue(vec![1]).unwrap();
    assert_eq!(pool.step(1, ConnectionEvent::Started), Action::Stop(None));
    assert_eq!(pool.step(usize::MAX, ConnectionEvent::Connected), Action::Stop(None));
    assert_eq!(pool.backlog(), 1);
    assert_eq!(pool.state(0), Some(ConnectionState::Pending));
}

#[test]
fn abandoned_connection_leaves_its_sentinel_to_the_others() {
    let mut pool = SocketPool::with_attempts(2, target(), 1).unwrap();
    assert_eq!(pool.step(0, ConnectionEvent::Started), Action::Connect);
    assert_eq!(
        pool.step(0, ConnectionEvent::ConnectFailed),
        Action::Stop(Some(Report::ConnectionAbandoned))
    );
    assert_eq!(connect(&mut pool, 1), Action::Wait);
    pool.shutdown().unwrap();
    // One order to close for each connection the pool was made with.
    assert_eq!(pool.backlog(), 2);
    assert_eq!(pool.step(1, ConnectionEvent::Idle), Action::Stop(Some(Report::Terminated)));
    assert_eq!(pool.backlog(), 1);
    assert_eq!(pool.step(0, ConnectionEvent::Idle), Action::Stop(None));
    assert_eq!(pool.backlog(), 1);
}
