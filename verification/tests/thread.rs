use slowloris::error::PoolError;
use slowloris::thread::{Dispatch, TaskMessage, ThreadPool, Worker};
use std::cell::Cell;
use std::rc::Rc;

type Job = Box<dyn FnOnce()>;

fn counting_job(counter: &Rc<Cell<usize>>) -> Job {
    let counter = Rc::clone(counter);
    Box::new(move || counter.set(counter.get() + 1))
}

/// Lets the workers take turns, in the order given, until all have left.
fn drain(pool: &mut ThreadPool<Job>, order: &[usize]) -> usize {
    let mut turns = 0;
    while pool.live_workers() > 0 {
        for &w in order {
            match pool.next_task(w) {
                Dispatch::Run(job) => job(),
                Dispatch::Wait => {}
                Dispatch::Exit => {}
            }
            turns += 1;
        }
        assert!(turns < 10_000);
    }
    turns
}

#[test]
fn pool_without_workers_is_refused() {
    let r: Result<ThreadPool<u32>, PoolError> = ThreadPool::new(0);
    assert!(matches!(r, Err(PoolError::InvalidConfig)));
}

#[test]
fn new_pool_has_its_workers_and_nothing_to_do() {
    let pool: ThreadPool<u32> = ThreadPool::new(4).unwrap();
    assert_eq!(pool.size(), 4);
    assert_eq!(pool.live_workers(), 4);
    assert_eq!(pool.backlog(), 0);
    assert!(!pool.is_shut_down());
}

#[test]
fn every_job_runs_once_for_each_pool_size() {
    for size in 1..=8usize {
        let counter = Rc::new(Cell::new(0usize));
        let mut pool: ThreadPool<Job> = ThreadPool::new(size).unwrap();
        for _ in 0..size {
            pool.execute(counting_job(&counter));
        }
        pool.shutdown();
        let order: Vec<usize> = (0..size).collect();
        drain(&mut pool, &order);
        assert_eq!(counter.get(), size);
        assert_eq!(pool.live_workers(), 0);
        assert_eq!(pool.backlog(), 0);
    }
}

#[test]
fn every_job_runs_once_when_one_worker_is_fastest() {
    let counter = Rc::new(Cell::new(0usize));
    let mut pool: ThreadPool<Job> = ThreadPool::new(3).unwrap();
    for _ in 0..7 {
        pool.execute(counting_job(&counter));
    }
    pool.shutdown();
    // Worker 2 gets five turns for each turn of the others.
    drain(&mut pool, &[2, 2, 2, 2, 2, 0, 1]);
    assert_eq!(counter.get(), 7);
    assert_eq!(pool.live_workers(), 0);
    assert_eq!(pool.backlog(), 0);
}

#[test]
fn shutdown_sends_one_terminate_for_each_worker() {
    let mut pool: ThreadPool<u32> = ThreadPool::new(5).unwrap();
    pool.execute(10);
    pool.execute(20);
    assert_eq!(pool.backlog(), 2);
    pool.shutdown();
    assert!(pool.is_shut_down());
    assert_eq!(pool.backlog(), 2 + 5);
    // The jobs come first, in their order, then exactly five orders to leave.
    assert_eq!(pool.next_task(0), Dispatch::Run(10));
    assert_eq!(pool.next_task(0), Dispatch::Run(20));
    let mut exits = 0;
    for w in 0..5 {
        assert_eq!(pool.live_workers(), 5 - w);
        assert_eq!(pool.next_task(w), Dispatch::Exit);
        exits += 1;
    }
    assert_eq!(exits, 5);
    assert_eq!(pool.backlog(), 0);
    assert_eq!(pool.live_workers(), 0);
}

#[test]
fn second_shutdown_sends_nothing() {
    let mut pool: ThreadPool<u32> = ThreadPool::new(3).unwrap();
    pool.shutdown();
    assert_eq!(pool.backlog(), 3);
    pool.shutdown();
    assert_eq!(pool.backlog(), 3);
    assert!(pool.is_shut_down());
}

#[test]
fn worker_waits_while_the_channel_is_empty() {
    let mut pool: ThreadPool<u32> = ThreadPool::new(2).unwrap();
    assert_eq!(pool.next_task(0), Dispatch::Wait);
    assert_eq!(pool.next_task(1), Dispatch::Wait);
    pool.execute(1);
    assert_eq!(pool.next_task(1), Dispatch::Run(1));
    assert_eq!(pool.next_task(0), Dispatch::Wait);
    assert_eq!(pool.live_workers(), 2);
}

#[test]
fn worker_that_left_takes_no_more_messages() {
    let mut pool: ThreadPool<u32> = ThreadPool::new(2).unwrap();
    pool.shutdown();
    assert_eq!(pool.next_task(0), Dispatch::Exit);
    assert_eq!(pool.backlog(), 1);
    // Worker 0 has left: the order meant for worker 1 stays where it is.
    assert_eq!(pool.next_task(0), Dispatch::Exit);
    assert_eq!(pool.backlog(), 1);
    assert_eq!(pool.live_workers(), 1);
    assert_eq!(pool.next_task(1), Dispatch::Exit);
    assert_eq!(pool.backlog(), 0);
    assert_eq!(pool.live_workers(), 0);
}

#[test]
fn jobs_are_handed_out_in_the_order_of_submission() {
    let mut pool: ThreadPool<u32> = ThreadPool::new(3).unwrap();
    for job in 0..9u32 {
        pool.execute(job);
    }
    let mut handed: Vec<u32> = Vec::new();
    for turn in 0..9usize {
        match pool.next_task((turn * 2) % 3) {
            Dispatch::Run(job) => handed.push(job),
            other => panic!("unexpected {:?}", other),
        }
    }
    assert_eq!(handed, vec![0, 1, 2, 3, 4, 5, 6, 7, 8]);
}

#[test]
fn worker_runs_jobs_until_told_to_leave() {
    let mut w = Worker::new(3);
    assert_eq!(w.id(), 3);
    assert!(w.is_running());
    assert_eq!(w.on_message(TaskMessage::Execute(5u8)), Dispatch::Run(5u8));
    assert!(w.is_running());
    assert_eq!(w.on_message(TaskMessage::<u8>::Terminate), Dispatch::Exit);
    assert!(!w.is_running());
    assert_eq!(w.id(), 3);
}

#[test]
fn pool_for_no_counted_processor_has_one_worker() {
    let pool: ThreadPool<u32> = ThreadPool::with_cpus(0);
    assert_eq!(pool.size(), 1);
    let pool: ThreadPool<u32> = ThreadPool::with_cpus(6);
    assert_eq!(pool.size(), 6);
    assert_eq!(pool.live_workers(), 6);
}

#[test]
fn default_pool_has_a_worker() {
    let pool: ThreadPool<u32> = ThreadPool::default();
    assert!(pool.size() >= 1);
    assert_eq!(pool.live_workers(), pool.size());
    assert_eq!(pool.backlog(), 0);
    assert!(!pool.is_shut_down());
}

#[test]
fn shut_down_pool_hands_the_job_back() {
    let mut pool: ThreadPool<u32> = ThreadPool::new(2).unwrap();
    assert_eq!(pool.try_execute(1), Ok(()));
    assert_eq!(pool.backlog(), 1);
    pool.shutdown();
    assert_eq!(pool.try_execute(2), Err(2));
    assert_eq!(pool.backlog(), 3);
    assert_eq!(pool.next_task(0), Dispatch::Run(1));
}

#[test]
fn worker_that_the_pool_does_not_have_is_told_to_leave() {
    let mut pool: ThreadPool<u32> = ThreadPool::new(2).unwrap();
    pool.execute(1);
    assert_eq!(pool.next_task(2), Dispatch::Exit);
    assert_eq!(pool.next_task(usize::MAX), Dispatch::Exit);
    assert_eq!(pool.backlog(), 1);
    assert_eq!(pool.live_workers(), 2);
}
