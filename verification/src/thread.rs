//! The task pool: a fixed number of workers that compete for the messages of
//! one channel, run the jobs it carries and leave when told to.

use crate::error::PoolError;
use crate::queue::Queue;
use vstd::prelude::*;

verus! {

/// What travels over the channel of a task pool.
#[derive(Debug, PartialEq, Eq)]
pub enum TaskMessage<J> {
    /// A job to run, once, by whichever worker takes the message.
    Execute(J),
    /// The order to leave, taken by one worker.
    Terminate,
}

/// What a worker does after it has looked at the channel.
#[derive(Debug, PartialEq, Eq)]
pub enum Dispatch<J> {
    /// Run this job, then look again.
    Run(J),
    /// Nothing waits: look again later.
    Wait,
    /// Leave: the worker has been told to, now or before.
    Exit,
}

/// One worker of a task pool.
pub struct Worker {
    id: usize,
    running: bool,
}

impl Worker {
    /// The worker's place in its pool.
    pub closed spec fn spec_id(&self) -> usize {
        self.id
    }

    /// Whether the worker still takes messages.
    pub closed spec fn spec_is_running(&self) -> bool {
        self.running
    }

    /// A worker that takes messages, at place `id` of its pool.
    pub fn new(id: usize) -> (w: Worker)
        ensures
            w.spec_id() == id,
            w.spec_is_running(),
    {
        Worker { id, running: true }
    }

    #[verifier::when_used_as_spec(spec_id)]
    pub fn id(&self) -> (id: usize)
        ensures
            id == self.spec_id(),
    {
        self.id
    }

    #[verifier::when_used_as_spec(spec_is_running)]
    pub fn is_running(&self) -> (b: bool)
        ensures
            b == self.spec_is_running(),
    {
        self.running
    }

    /// One turn of the worker's loop: a job is handed back to be run, the
    /// order to leave ends the worker.
    pub fn on_message<J>(&mut self, message: TaskMessage<J>) -> (next: Dispatch<J>)
        requires
            old(self).is_running(),
        ensures
            final(self).id() == old(self).id(),
            match message {
                TaskMessage::Execute(job) => next == Dispatch::Run(job) && final(self).is_running(),
                TaskMessage::Terminate => next == Dispatch::<J>::Exit && !final(self).is_running(),
            },
    {
        match message {
            TaskMessage::Execute(job) => Dispatch::Run(job),
            TaskMessage::Terminate => {
                self.running = false;
                Dispatch::Exit
            },
        }
    }
}

/// A task pool as contracts see it.
pub struct PoolView<J> {
    /// The messages that wait in the channel, the oldest first.
    pub channel: Seq<TaskMessage<J>>,
    /// For each worker, whether it still takes messages.
    pub running: Seq<bool>,
    /// Whether the workers have been told to leave.
    pub shut_down: bool,
}

/// How many workers still take messages.
pub open spec fn count_running(running: Seq<bool>) -> nat
    decreases running.len(),
{
    if running.len() == 0 {
        0
    } else {
        count_running(running.drop_last()) + if running.last() {
            1nat
        } else {
            0nat
        }
    }
}

/// Where every worker runs, as many run as there are.
pub proof fn lemma_count_all(running: Seq<bool>)
    requires
        forall|w: int| 0 <= w < running.len() ==> running[w],
    ensures
        count_running(running) == running.len(),
    decreases running.len(),
{
    if running.len() > 0 {
        lemma_count_all(running.drop_last());
    }
}

/// No worker runs exactly where the count is zero.
pub proof fn lemma_count_none(running: Seq<bool>)
    ensures
        count_running(running) == 0 <==> forall|w: int| 0 <= w < running.len() ==> !running[w],
    decreases running.len(),
{
    if running.len() > 0 {
        lemma_count_none(running.drop_last());
        if count_running(running) == 0 {
            assert forall|w: int| 0 <= w < running.len() implies !running[w] by {
                if w < running.len() - 1 {
                    assert(running.drop_last()[w] == running[w]);
                }
            }
        } else if forall|w: int| 0 <= w < running.len() ==> !running[w] {
            let rest = running.drop_last();
            assert forall|w: int| 0 <= w < rest.len() implies !rest[w] by {
                assert(rest[w] == running[w]);
            }
        }
    }
}

/// A running worker that leaves lowers the count by one.
pub proof fn lemma_count_leave(running: Seq<bool>, w: int)
    requires
        0 <= w < running.len(),
        running[w],
    ensures
        count_running(running.update(w, false)) + 1 == count_running(running),
    decreases running.len(),
{
    let after = running.update(w, false);
    if w == running.len() - 1 {
        assert(after.drop_last() =~= running.drop_last());
    } else {
        lemma_count_leave(running.drop_last(), w);
        assert(after.drop_last() =~= running.drop_last().update(w, false));
    }
}

/// `n` orders to leave.
pub open spec fn terminates<J>(n: nat) -> Seq<TaskMessage<J>> {
    Seq::new(n, |i: int| TaskMessage::Terminate)
}

/// The jobs that wait in a channel, the oldest first.
pub open spec fn pending_jobs<J>(channel: Seq<TaskMessage<J>>) -> Seq<J>
    decreases channel.len(),
{
    if channel.len() == 0 {
        Seq::empty()
    } else {
        match channel.first() {
            TaskMessage::Execute(job) => seq![job] + pending_jobs(channel.drop_first()),
            TaskMessage::Terminate => pending_jobs(channel.drop_first()),
        }
    }
}

impl<J> PoolView<J> {
    /// How many orders to leave the channel owes the workers: one for each
    /// worker that still runs once the pool is shut down, none before.
    pub open spec fn owed(self) -> nat {
        if self.shut_down {
            count_running(self.running)
        } else {
            0
        }
    }

    /// The protocol of the pool. Until it is shut down every worker runs and
    /// the channel carries jobs only. From then on the channel ends in one
    /// order to leave for each worker that still runs, and carries jobs
    /// before them only; once a worker has left, no job is left.
    pub open spec fn inv(self) -> bool {
        &&& self.running.len() > 0
        &&& !self.shut_down ==> forall|w: int| 0 <= w < self.running.len() ==> self.running[w]
        &&& self.owed() <= self.channel.len()
        &&& self.shut_down && count_running(self.running) < self.running.len()
            ==> self.channel.len() == self.owed()
        &&& forall|i: int|
            0 <= i < self.channel.len() ==> (#[trigger] self.channel[i] is Terminate <==> i
                >= self.channel.len() - self.owed())
    }

    /// A pool of `size` workers that has nothing to do yet.
    pub open spec fn fresh(size: nat) -> PoolView<J> {
        PoolView { channel: Seq::empty(), running: Seq::new(size, |w: int| true), shut_down: false }
    }

    /// The pool after `jobs` were submitted, the first first.
    pub open spec fn submit(self, jobs: Seq<J>) -> PoolView<J> {
        PoolView {
            channel: self.channel + jobs.map_values(|job: J| TaskMessage::Execute(job)),
            ..self
        }
    }

    /// The pool after `job` was submitted.
    pub open spec fn execute(self, job: J) -> PoolView<J> {
        PoolView { channel: self.channel.push(TaskMessage::Execute(job)), ..self }
    }

    /// The pool after it was shut down: one order to leave for each worker,
    /// once.
    pub open spec fn shutdown(self) -> PoolView<J> {
        if self.shut_down {
            self
        } else {
            PoolView {
                channel: self.channel + terminates(self.running.len()),
                running: self.running,
                shut_down: true,
            }
        }
    }

    /// The pool after worker `w` has looked at the channel.
    pub open spec fn take(self, w: int) -> PoolView<J> {
        if !(0 <= w < self.running.len()) || !self.running[w] || self.channel.len() == 0 {
            self
        } else {
            match self.channel.first() {
                TaskMessage::Execute(_) => PoolView { channel: self.channel.drop_first(), ..self },
                TaskMessage::Terminate => PoolView {
                    channel: self.channel.drop_first(),
                    running: self.running.update(w, false),
                    shut_down: self.shut_down,
                },
            }
        }
    }

    /// What worker `w` is told when it looks at the channel.
    pub open spec fn told(self, w: int) -> Dispatch<J> {
        if !(0 <= w < self.running.len()) || !self.running[w] {
            Dispatch::Exit
        } else if self.channel.len() == 0 {
            Dispatch::Wait
        } else {
            match self.channel.first() {
                TaskMessage::Execute(job) => Dispatch::Run(job),
                TaskMessage::Terminate => Dispatch::Exit,
            }
        }
    }
}

/// `num_cpus::get`: the number of processors that the machine offers this
/// process. It depends on the machine, so nothing is claimed of it.
#[verifier::external_body]
fn cpu_count() -> usize {
    num_cpus::get()
}

/// A task pool: its workers, and the channel that they share.
pub struct ThreadPool<J> {
    workers: Vec<Worker>,
    channel: Queue<TaskMessage<J>>,
    shut_down: bool,
}

impl<J> View for ThreadPool<J> {
    type V = PoolView<J>;

    closed spec fn view(&self) -> PoolView<J> {
        PoolView {
            channel: self.channel@,
            running: Seq::new(self.workers@.len(), |w: int| self.workers@[w].running),
            shut_down: self.shut_down,
        }
    }
}

impl<J> ThreadPool<J> {
    /// What holds of every pool: each worker knows its place, and the pool
    /// keeps to its protocol.
    pub closed spec fn wf(&self) -> bool {
        &&& forall|w: int| 0 <= w < self.workers@.len() ==> (#[trigger] self.workers@[w]).id == w
        &&& self@.inv()
    }

    /// A pool of `size` workers, of which there is at least one.
    fn with_workers(size: usize) -> (pool: ThreadPool<J>)
        requires
            size > 0,
        ensures
            pool.wf(),
            pool@ == PoolView::<J>::fresh(size as nat),
    {
        let mut workers: Vec<Worker> = Vec::with_capacity(size);
        let mut id: usize = 0;
        while id < size
            invariant
                id <= size,
                workers@.len() == id,
                forall|w: int|
                    0 <= w < id ==> (#[trigger] workers@[w]).id == w && workers@[w].running,
            decreases size - id,
        {
            workers.push(Worker::new(id));
            id = id + 1;
        }
        let pool = ThreadPool { workers, channel: Queue::new(), shut_down: false };
        assert(pool@.running =~= PoolView::<J>::fresh(size as nat).running);
        pool
    }

    /// A pool of `size` workers. A pool without workers is refused.
    pub fn new(size: usize) -> (r: Result<ThreadPool<J>, PoolError>)
        ensures
            size == 0 ==> r == Err::<ThreadPool<J>, PoolError>(PoolError::InvalidConfig),
            size > 0 ==> r is Ok && r->Ok_0.wf() && r->Ok_0@ == PoolView::<J>::fresh(size as nat),
    {
        if size == 0 {
            Err(PoolError::InvalidConfig)
        } else {
            Ok(ThreadPool::with_workers(size))
        }
    }

    /// A pool with one worker for each of `cpus` processors, and one worker
    /// where no processor was counted.
    pub fn with_cpus(cpus: usize) -> (pool: ThreadPool<J>)
        ensures
            pool.wf(),
            pool@ == PoolView::<J>::fresh(
                if cpus == 0 {
                    1
                } else {
                    cpus as nat
                },
            ),
    {
        if cpus == 0 {
            ThreadPool::with_workers(1)
        } else {
            ThreadPool::with_workers(cpus)
        }
    }

    /// The number of workers, which never changes.
    pub fn size(&self) -> (n: usize)
        ensures
            n == self@.running.len(),
    {
        self.workers.len()
    }

    /// Whether the workers have been told to leave.
    pub fn is_shut_down(&self) -> (b: bool)
        ensures
            b == self@.shut_down,
    {
        self.shut_down
    }

    /// The number of messages that wait in the channel.
    pub fn backlog(&self) -> (n: usize)
        ensures
            n == self@.channel.len(),
    {
        self.channel.len()
    }

    /// The number of workers that still take messages.
    pub fn live_workers(&self) -> (n: usize)
        ensures
            n == count_running(self@.running),
    {
        let mut n: usize = 0;
        let mut w: usize = 0;
        while w < self.workers.len()
            invariant
                w <= self.workers@.len(),
                n == count_running(self@.running.take(w as int)),
                n <= w,
            decreases self.workers@.len() - w,
        {
            proof {
                assert(self@.running.take(w + 1).drop_last() =~= self@.running.take(w as int));
            }
            if self.workers[w].is_running() {
                n = n + 1;
            }
            w = w + 1;
        }
        proof {
            assert(self@.running.take(w as int) =~= self@.running);
        }
        n
    }

    /// Submits `job`: it waits behind everything submitted before it. The
    /// caller is never held up.
    pub fn execute(&mut self, job: J)
        requires
            old(self).wf(),
            !old(self)@.shut_down,
        ensures
            final(self).wf(),
            final(self)@ == old(self)@.execute(job),
    {
        self.channel.push(TaskMessage::Execute(job));
        proof {
            assert(self@.running =~= old(self)@.running);
        }
    }

    /// Submits `job` where the pool still takes jobs, and hands it back
    /// where the pool is shut down.
    pub fn try_execute(&mut self, job: J) -> (r: Result<(), J>)
        requires
            old(self).wf(),
        ensures
            final(self).wf(),
            old(self)@.shut_down ==> r == Err::<(), J>(job) && final(self)@ == old(self)@,
            !old(self)@.shut_down ==> r == Ok::<(), J>(()) && final(self)@ == old(self)@.execute(
                job,
            ),
    {
        if self.shut_down {
            Err(job)
        } else {
            self.execute(job);
            Ok(())
        }
    }

    /// Tells the workers to leave: one order for each worker goes behind the
    /// jobs that wait, so that every job submitted before is run first. A
    /// second call does nothing.
    pub fn shutdown(&mut self)
        requires
            old(self).wf(),
        ensures
            final(self).wf(),
            final(self)@ == old(self)@.shutdown(),
    {
        if self.shut_down {
            return ;
        }
        let size = self.workers.len();
        let mut sent: usize = 0;
        while sent < size
            invariant
                sent <= size,
                size == self.workers@.len(),
                self.workers == old(self).workers,
                self.shut_down == old(self).shut_down,
                self.channel@ == old(self).channel@ + terminates::<J>(sent as nat),
            decreases size - sent,
        {
            self.channel.push(TaskMessage::Terminate);
            sent = sent + 1;
        }
        self.shut_down = true;
        proof {
            assert(self@.running =~= old(self)@.running);
            lemma_count_all(self@.running);
        }
    }

    /// Worker `worker` looks at the channel. A worker that runs takes the
    /// oldest message: a job is handed to it to be run, the order to leave
    /// ends it. A worker that finds nothing is told to wait. One that has
    /// left, or that the pool does not have, is told to leave and takes
    /// nothing.
    pub fn next_task(&mut self, worker: usize) -> (next: Dispatch<J>)
        requires
            old(self).wf(),
        ensures
            final(self).wf(),
            final(self)@ == old(self)@.take(worker as int),
            next == old(self)@.told(worker as int),
    {
        if worker >= self.workers.len() || !self.workers[worker].is_running() {
            return Dispatch::Exit;
        }
        match self.channel.pop() {
            None => Dispatch::Wait,
            Some(message) => {
                let next = self.workers[worker].on_message(message);
                proof {
                    assert(self@.running =~= old(self)@.take(worker as int).running);
                    if message is Terminate {
                        lemma_count_leave(old(self)@.running, worker as int);
                    }
                }
                next
            },
        }
    }
}

impl<J> Default for ThreadPool<J> {
    /// A pool with one worker for each processor of the machine.
    fn default() -> (pool: ThreadPool<J>)
        ensures
            pool.wf(),
            pool@.running.len() > 0,
            pool@ == PoolView::<J>::fresh(pool@.running.len()),
    {
        ThreadPool::with_cpus(cpu_count())
    }
}

} // verus!
