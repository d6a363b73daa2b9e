//! The connection pool: the connections to one target, the outbound queue
//! that they share, and the task pool that runs them.

use crate::connection::{
    message_views, Action, ActionView, Connection, ConnectionEvent, ConnectionState, DataMessage,
    MessageView, MAX_CONNECT_ATTEMPTS,
};
use crate::error::PoolError;
use crate::queue::Queue;
use crate::thread::{Dispatch, PoolView, ThreadPool};
use crate::thread_laws::{lemma_submit_one_more, lemma_submit_pending};
use vstd::prelude::*;

verus! {

/// A connection pool as contracts see it.
pub struct SocketPoolView {
    /// The address that the connections reach for.
    pub target: Seq<char>,
    /// How often a connection tries to connect before it gives up.
    pub limit: usize,
    /// Where each connection stands.
    pub connections: Seq<ConnectionState>,
    /// The messages that wait in the outbound queue, the oldest first.
    pub outbound: Seq<MessageView>,
    /// The task pool that runs the connections' jobs.
    pub tasks: PoolView<usize>,
    /// Whether the shared state was found damaged.
    pub poisoned: bool,
    /// Whether the pool was shut down.
    pub closed: bool,
}

/// `n` orders to close.
pub open spec fn sentinels(n: nat) -> Seq<MessageView> {
    Seq::new(n, |i: int| MessageView::Terminate)
}

/// Pieces of payload as the messages that carry them, in their order.
pub open spec fn as_messages(pieces: Seq<Seq<u8>>) -> Seq<MessageView> {
    pieces.map_values(|piece: Seq<u8>| MessageView::Data(piece))
}

/// The jobs of the first `n` connections of a pool, in their order.
pub open spec fn connection_jobs(n: nat) -> Seq<usize> {
    Seq::new(n, |i: int| i as usize)
}

impl SocketPoolView {
    /// A pool as it is made: every connection's job waits in the task pool,
    /// and the outbound queue is empty.
    pub open spec fn fresh(size: usize, target: Seq<char>, limit: usize) -> SocketPoolView {
        SocketPoolView {
            target,
            limit,
            connections: Seq::new(size as nat, |i: int| ConnectionState::Pending),
            outbound: Seq::empty(),
            tasks: PoolView::fresh(size as nat).submit(connection_jobs(size as nat)),
            poisoned: false,
            closed: false,
        }
    }

    /// The pool after `bytes` were handed to it.
    pub open spec fn enqueue(self, bytes: Seq<u8>) -> SocketPoolView {
        if self.poisoned {
            self
        } else {
            SocketPoolView { outbound: self.outbound.push(MessageView::Data(bytes)), ..self }
        }
    }

    /// The pool after each of `pieces` was handed to it, the first first.
    pub open spec fn enqueue_all(self, pieces: Seq<Seq<u8>>) -> SocketPoolView {
        if self.poisoned {
            self
        } else {
            SocketPoolView { outbound: self.outbound + as_messages(pieces), ..self }
        }
    }

    /// The pool after it was shut down: one order to close for each
    /// connection it was made with, once, and the task pool shut down. The
    /// orders are counted by the connections that the pool was made with,
    /// not by those that still live: where a connection was abandoned or
    /// lost, its order stays in the queue or closes another connection.
    pub open spec fn shutdown(self) -> SocketPoolView {
        if self.poisoned || self.closed {
            self
        } else {
            SocketPoolView {
                outbound: self.outbound + sentinels(self.connections.len()),
                tasks: self.tasks.shutdown(),
                closed: true,
                ..self
            }
        }
    }

    /// Whether connection `id` takes a step when asked to.
    pub open spec fn steps(self, id: int) -> bool {
        !self.poisoned && 0 <= id < self.connections.len()
    }

    /// The pool after connection `id` has taken the step that `event` asks
    /// for.
    pub open spec fn step(self, id: int, event: ConnectionEvent) -> SocketPoolView {
        if self.steps(id) {
            let step = self.connections[id].step(event, self.limit, self.outbound);
            SocketPoolView {
                connections: self.connections.update(id, step.state),
                outbound: step.outbound,
                ..self
            }
        } else {
            self
        }
    }

    /// What connection `id` is told to do next.
    pub open spec fn answer(self, id: int, event: ConnectionEvent) -> ActionView {
        if self.steps(id) {
            self.connections[id].step(event, self.limit, self.outbound).action
        } else {
            ActionView::Stop(None)
        }
    }
}

/// A pool of connections to one target. It owns the connections, the
/// outbound queue that they share, and the task pool that runs them.
pub struct SocketPool {
    target: String,
    limit: usize,
    connections: Vec<Connection>,
    queue: Queue<DataMessage>,
    pool: ThreadPool<usize>,
    poisoned: bool,
    closed: bool,
}

impl View for SocketPool {
    type V = SocketPoolView;

    closed spec fn view(&self) -> SocketPoolView {
        SocketPoolView {
            target: self.target@,
            limit: self.limit,
            connections: Seq::new(
                self.connections@.len(),
                |i: int| self.connections@[i].spec_state(),
            ),
            outbound: message_views(self.queue@),
            tasks: self.pool@,
            poisoned: self.poisoned,
            closed: self.closed,
        }
    }
}

impl SocketPool {
    /// What holds of every pool: each connection knows its place, the task
    /// pool has a worker for each connection and keeps to its protocol, and
    /// it is shut down when the pool is.
    pub closed spec fn wf(&self) -> bool {
        &&& self.connections@.len() > 0
        &&& forall|i: int|
            0 <= i < self.connections@.len() ==> (#[trigger] self.connections@[i]).spec_id() == i
        &&& self.pool.wf()
        &&& self.pool@.running.len() == self.connections@.len()
        &&& self.pool@.shut_down == self.closed
    }

    /// A pool of `size` connections to `target`, each of which tries to
    /// connect at most `limit` times. The connections' jobs are handed to
    /// the task pool at once. A pool without connections is refused.
    pub fn with_attempts(size: usize, target: String, limit: usize) -> (r: Result<
        SocketPool,
        PoolError,
    >)
        ensures
            size == 0 ==> r == Err::<SocketPool, PoolError>(PoolError::InvalidConfig),
            size > 0 ==> r is Ok && r->Ok_0.wf() && r->Ok_0@ == SocketPoolView::fresh(
                size,
                target@,
                limit,
            ),
    {
        let mut pool: ThreadPool<usize> = match ThreadPool::new(size) {
            Ok(pool) => pool,
            Err(refused) => {
                return Err(refused);
            },
        };
        let mut connections: Vec<Connection> = Vec::with_capacity(size);
        let mut id: usize = 0;
        while id < size
            invariant
                id <= size,
                connections@.len() == id,
                forall|i: int|
                    0 <= i < id ==> (#[trigger] connections@[i]).spec_id() == i
                        && connections@[i].spec_state() == ConnectionState::Pending,
                pool.wf(),
                pool@ == PoolView::<usize>::fresh(size as nat).submit(connection_jobs(id as nat)),
                PoolView::<usize>::fresh(size as nat).inv(),
            decreases size - id,
        {
            proof {
                lemma_submit_pending(
                    PoolView::<usize>::fresh(size as nat),
                    connection_jobs(id as nat),
                );
                lemma_submit_one_more(
                    PoolView::<usize>::fresh(size as nat),
                    connection_jobs(id as nat),
                    id,
                );
                assert(connection_jobs((id + 1) as nat) =~= connection_jobs(id as nat).push(id));
            }
            connections.push(Connection::new(id, &mut pool));
            id = id + 1;
        }
        proof {
            lemma_submit_pending(
                PoolView::<usize>::fresh(size as nat),
                connection_jobs(size as nat),
            );
        }
        let made = SocketPool {
            target,
            limit,
            connections,
            queue: Queue::new(),
            pool,
            poisoned: false,
            closed: false,
        };
        proof {
            assert(made@.connections =~= SocketPoolView::fresh(size, target@, limit).connections);
            assert(made@.outbound =~= Seq::<MessageView>::empty());
        }
        Ok(made)
    }

    /// A pool of `size` connections to `target`, each of which tries to
    /// connect at most `MAX_CONNECT_ATTEMPTS` times.
    pub fn new(size: usize, target: String) -> (r: Result<SocketPool, PoolError>)
        ensures
            size == 0 ==> r == Err::<SocketPool, PoolError>(PoolError::InvalidConfig),
            size > 0 ==> r is Ok && r->Ok_0.wf() && r->Ok_0@ == SocketPoolView::fresh(
                size,
                target@,
                MAX_CONNECT_ATTEMPTS,
            ),
    {
        SocketPool::with_attempts(size, target, MAX_CONNECT_ATTEMPTS)
    }

    /// The number of connections that the pool was made with.
    pub fn size(&self) -> (n: usize)
        ensures
            n == self@.connections.len(),
    {
        self.connections.len()
    }

    /// The address that the connections reach for.
    pub fn target(&self) -> (target: &str)
        ensures
            target@ == self@.target,
    {
        self.target.as_str()
    }

    /// How often a connection tries to connect before it gives up.
    pub fn attempts(&self) -> (limit: usize)
        ensures
            limit == self@.limit,
    {
        self.limit
    }

    /// Whether the shared state was found damaged.
    pub fn is_poisoned(&self) -> (b: bool)
        ensures
            b == self@.poisoned,
    {
        self.poisoned
    }

    /// Whether the pool was shut down.
    pub fn is_closed(&self) -> (b: bool)
        ensures
            b == self@.closed,
    {
        self.closed
    }

    /// The number of messages that wait in the outbound queue.
    pub fn backlog(&self) -> (n: usize)
        ensures
            n == self@.outbound.len(),
    {
        self.queue.len()
    }

    /// Where connection `id` stands, if the pool has such a connection.
    pub fn state(&self, id: usize) -> (state: Option<ConnectionState>)
        ensures
            state == if id < self@.connections.len() {
                Some(self@.connections[id as int])
            } else {
                None
            },
    {
        if id < self.connections.len() {
            Some(self.connections[id].state())
        } else {
            None
        }
    }

    /// Records that the shared state was found damaged. From then on the
    /// pool refuses every request, and nothing in it changes any more.
    pub fn mark_poisoned(&mut self)
        requires
            old(self).wf(),
        ensures
            final(self).wf(),
            final(self)@ == (SocketPoolView { poisoned: true, ..old(self)@ }),
    {
        self.poisoned = true;
    }

    /// Hands `buf` to the connections: it waits behind everything handed
    /// over before it, for whichever connection looks at the queue first.
    /// Only a pool whose shared state is damaged refuses.
    pub fn enqueue(&mut self, buf: Vec<u8>) -> (r: Result<(), PoolError>)
        requires
            old(self).wf(),
        ensures
            final(self).wf(),
            final(self)@ == old(self)@.enqueue(buf@),
            old(self)@.poisoned ==> r == Err::<(), PoolError>(PoolError::QueueLockPoisoned),
            !old(self)@.poisoned ==> r == Ok::<(), PoolError>(()),
    {
        if self.poisoned {
            return Err(PoolError::QueueLockPoisoned);
        }
        self.queue.push(DataMessage::Data(buf));
        proof {
            assert(message_views(self.queue@) =~= message_views(old(self).queue@).push(
                MessageView::Data(buf@),
            ));
            assert(self@.connections =~= old(self)@.connections);
        }
        Ok(())
    }

    /// Shuts the pool down: exactly one order to close for each connection
    /// that the pool was made with goes behind what waits in the outbound
    /// queue, and the task pool is shut down. A second call does nothing.
    /// Only a pool whose shared state is damaged refuses.
    pub fn shutdown(&mut self) -> (r: Result<(), PoolError>)
        requires
            old(self).wf(),
        ensures
            final(self).wf(),
            final(self)@ == old(self)@.shutdown(),
            old(self)@.poisoned ==> r == Err::<(), PoolError>(PoolError::QueueLockPoisoned),
            !old(self)@.poisoned ==> r == Ok::<(), PoolError>(()),
    {
        if self.poisoned {
            return Err(PoolError::QueueLockPoisoned);
        }
        if self.closed {
            return Ok(());
        }
        let size = self.connections.len();
        let mut sent: usize = 0;
        while sent < size
            invariant
                sent <= size,
                size == self.connections@.len(),
                self.connections == old(self).connections,
                self.pool == old(self).pool,
                self.target == old(self).target,
                self.limit == old(self).limit,
                self.poisoned == old(self).poisoned,
                self.closed == old(self).closed,
                message_views(self.queue@) == message_views(old(self).queue@) + sentinels(
                    sent as nat,
                ),
            decreases size - sent,
        {
            let ghost before = self.queue@;
            self.queue.push(DataMessage::Terminate);
            sent = sent + 1;
            proof {
                assert(message_views(self.queue@) =~= message_views(before).push(
                    MessageView::Terminate,
                ));
                assert(message_views(self.queue@) =~= message_views(old(self).queue@) + sentinels(
                    sent as nat,
                ));
            }
        }
        self.pool.shutdown();
        self.closed = true;
        proof {
            assert(self@.connections =~= old(self)@.connections);
        }
        Ok(())
    }

    /// Worker `worker` of the task pool looks for a job: it is handed the
    /// place of the connection to run, told to wait, or told to leave. A
    /// pool whose shared state is damaged, and a worker that the pool does
    /// not have, are told to leave.
    pub fn next_task(&mut self, worker: usize) -> (next: Dispatch<usize>)
        requires
            old(self).wf(),
        ensures
            final(self).wf(),
            old(self)@.steps(worker as int) ==> final(self)@ == (SocketPoolView {
                tasks: old(self)@.tasks.take(worker as int),
                ..old(self)@
            }) && next == old(self)@.tasks.told(worker as int),
            !old(self)@.steps(worker as int) ==> final(self)@ == old(self)@ && next
                == Dispatch::<usize>::Exit,
    {
        if self.poisoned || worker >= self.connections.len() {
            return Dispatch::Exit;
        }
        let next = self.pool.next_task(worker);
        proof {
            assert(self@.connections =~= old(self)@.connections);
        }
        next
    }

    /// Connection `id` takes the step that `event` asks for, and is told
    /// what to do next. A connection that looks at the outbound queue takes
    /// the oldest message, whichever connection it is. A pool whose shared
    /// state is damaged, and a connection that the pool does not have, are
    /// told to stop, and nothing changes.
    pub fn step(&mut self, id: usize, event: ConnectionEvent) -> (action: Action)
        requires
            old(self).wf(),
        ensures
            final(self).wf(),
            final(self)@ == old(self)@.step(id as int, event),
            action@ == old(self)@.answer(id as int, event),
    {
        if self.poisoned || id >= self.connections.len() {
            return Action::Stop(None);
        }
        let action = self.connections[id].step(event, self.limit, &mut self.queue);
        proof {
            assert(self@.connections =~= old(self)@.step(id as int, event).connections);
        }
        action
    }
}

} // verus!
