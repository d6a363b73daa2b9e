//! What the connection pool guarantees, whatever the order in which its
//! connections get their turn.

use crate::connection::{
    lemma_refused_gives_up, refused, ActionView, ConnectionEvent, ConnectionState, MessageView,
    Report,
};
use crate::sock::{sentinels, SocketPoolView};
use vstd::prelude::*;

verus! {

/// The message that an action shows to have left the outbound queue: bytes
/// that are to be written, or the order to close that ended a connection.
pub open spec fn message_of(action: ActionView) -> Seq<MessageView> {
    match action {
        ActionView::Write(bytes) => seq![MessageView::Data(bytes)],
        ActionView::Stop(Some(Report::Terminated)) => seq![MessageView::Terminate],
        _ => Seq::empty(),
    }
}

impl SocketPoolView {
    /// The pool after the steps of `schedule`, each the place of a
    /// connection and what has happened to it, one after the other.
    pub open spec fn run(self, schedule: Seq<(int, ConnectionEvent)>) -> SocketPoolView
        decreases schedule.len(),
    {
        if schedule.len() == 0 {
            self
        } else {
            self.step(schedule.first().0, schedule.first().1).run(schedule.drop_first())
        }
    }

    /// The messages that the connections were handed during `schedule`, in
    /// the order in which they were handed out.
    pub open spec fn taken(self, schedule: Seq<(int, ConnectionEvent)>) -> Seq<MessageView>
        decreases schedule.len(),
    {
        if schedule.len() == 0 {
            Seq::empty()
        } else {
            message_of(self.answer(schedule.first().0, schedule.first().1)) + self.step(
                schedule.first().0,
                schedule.first().1,
            ).taken(schedule.drop_first())
        }
    }

    /// The pool after connection `id` was started and has then seen
    /// `failures` attempts to connect fail.
    pub open spec fn refuse(self, id: int, failures: nat) -> SocketPoolView
        decreases failures,
    {
        if failures == 0 {
            self.step(id, ConnectionEvent::Started)
        } else {
            self.refuse(id, (failures - 1) as nat).step(id, ConnectionEvent::ConnectFailed)
        }
    }

    /// The pool after each of its first `n` connections was started and
    /// has seen as many attempts fail as the pool allows.
    pub open spec fn refuse_all(self, n: nat) -> SocketPoolView
        decreases n,
    {
        if n == 0 {
            self
        } else {
            self.refuse_all((n - 1) as nat).refuse(n - 1, self.limit as nat)
        }
    }
}

/// One step takes at most the oldest message out of the outbound queue, and
/// its answer shows which: the message taken, followed by what is left, is
/// what waited.
pub proof fn lemma_step_is_fifo(pool: SocketPoolView, id: int, event: ConnectionEvent)
    ensures
        message_of(pool.answer(id, event)) + pool.step(id, event).outbound == pool.outbound,
{
    assert(message_of(pool.answer(id, event)) + pool.step(id, event).outbound =~= pool.outbound);
}

/// The outbound queue is first in, first out over all connections: whatever
/// the order in which the connections get their turn, the messages that
/// they are handed, followed by those that still wait, are the messages
/// that waited, in their order. None is lost, none is handed out twice.
pub proof fn lemma_pool_is_fifo(pool: SocketPoolView, schedule: Seq<(int, ConnectionEvent)>)
    ensures
        pool.taken(schedule) + pool.run(schedule).outbound == pool.outbound,
    decreases schedule.len(),
{
    if schedule.len() == 0 {
        assert(pool.taken(schedule) + pool.outbound =~= pool.outbound);
    } else {
        let id = schedule.first().0;
        let event = schedule.first().1;
        let rest = schedule.drop_first();
        lemma_step_is_fifo(pool, id, event);
        lemma_pool_is_fifo(pool.step(id, event), rest);
        assert(pool.taken(schedule) + pool.run(schedule).outbound =~= message_of(
            pool.answer(id, event),
        ) + (pool.step(id, event).taken(rest) + pool.step(id, event).run(rest).outbound));
    }
}

/// A connection whose target refuses it gives up after exactly as many
/// attempts as the pool allows, and it touches neither the outbound queue
/// nor any other connection.
pub proof fn lemma_refused_connection(pool: SocketPoolView, id: int, failures: nat)
    requires
        pool.steps(id),
        pool.connections[id] == ConnectionState::Pending,
    ensures
        pool.refuse(id, failures) == (SocketPoolView {
            connections: pool.connections.update(id, refused(pool.limit, failures).state),
            ..pool
        }),
        failures >= pool.limit ==> pool.refuse(id, failures).connections[id]
            == ConnectionState::Abandoned,
    decreases failures,
{
    lemma_refused_gives_up(pool.limit, failures);
    if failures == 0 {
        assert(pool.refuse(id, failures).connections =~= pool.connections.update(
            id,
            refused(pool.limit, failures).state,
        ));
    } else {
        lemma_refused_connection(pool, id, (failures - 1) as nat);
        lemma_refused_gives_up(pool.limit, (failures - 1) as nat);
        let before = pool.refuse(id, (failures - 1) as nat);
        assert(before.connections[id] == refused(pool.limit, (failures - 1) as nat).state);
        assert(pool.refuse(id, failures).connections =~= pool.connections.update(
            id,
            refused(pool.limit, failures).state,
        ));
    }
}

/// A pool whose target refuses every connection abandons every one of
/// them, each after exactly as many attempts as the pool allows, and its
/// outbound queue is never touched.
pub proof fn lemma_refused_pool(size: usize, target: Seq<char>, limit: usize, n: nat)
    requires
        n <= size,
    ensures
        SocketPoolView::fresh(size, target, limit).refuse_all(n) == (SocketPoolView {
            connections: Seq::new(
                size as nat,
                |i: int|
                    if i < n {
                        ConnectionState::Abandoned
                    } else {
                        ConnectionState::Pending
                    },
            ),
            ..SocketPoolView::fresh(size, target, limit)
        }),
    decreases n,
{
    let fresh = SocketPoolView::fresh(size, target, limit);
    if n == 0 {
        assert(fresh.connections =~= Seq::new(
            size as nat,
            |i: int|
                if i < n {
                    ConnectionState::Abandoned
                } else {
                    ConnectionState::Pending
                },
        ));
    } else {
        lemma_refused_pool(size, target, limit, (n - 1) as nat);
        let before = fresh.refuse_all((n - 1) as nat);
        lemma_refused_connection(before, n - 1, limit as nat);
        assert(fresh.refuse_all(n).connections =~= Seq::new(
            size as nat,
            |i: int|
                if i < n {
                    ConnectionState::Abandoned
                } else {
                    ConnectionState::Pending
                },
        ));
    }
}

/// Shutting a pool down sends exactly one order to close for each
/// connection that the pool was made with, behind everything that waits,
/// and a second call sends none.
pub proof fn lemma_shutdown_sends_one_each(pool: SocketPoolView)
    requires
        !pool.poisoned,
    ensures
        pool.shutdown().closed,
        !pool.closed ==> pool.shutdown().outbound == pool.outbound + sentinels(
            pool.connections.len(),
        ),
        pool.shutdown().shutdown() == pool.shutdown(),
{
}

} // verus!
