//! One connection of a pool: the decisions of its life, from the first
//! attempt to connect to the message that ends it.

use crate::queue::Queue;
use crate::thread::ThreadPool;
use vstd::prelude::*;

verus! {

/// How often a connection tries to reach its target before it gives up.
pub const MAX_CONNECT_ATTEMPTS: usize = 5;

/// What waits in the outbound queue.
#[derive(Debug, PartialEq, Eq)]
pub enum DataMessage {
    /// Bytes to write to a socket.
    Data(Vec<u8>),
    /// The order to close, taken by one connection.
    Terminate,
}

/// An outbound message as contracts see it.
pub enum MessageView {
    Data(Seq<u8>),
    Terminate,
}

impl View for DataMessage {
    type V = MessageView;

    open spec fn view(&self) -> MessageView {
        match *self {
            DataMessage::Data(bytes) => MessageView::Data(bytes@),
            DataMessage::Terminate => MessageView::Terminate,
        }
    }
}

/// The messages of an outbound queue as contracts see them.
pub open spec fn message_views(waiting: Seq<DataMessage>) -> Seq<MessageView> {
    waiting.map_values(|m: DataMessage| m@)
}

/// Where a connection stands.
#[derive(Clone, Copy, Debug, PartialEq, Eq, Structural)]
pub enum ConnectionState {
    /// Its job waits for a worker.
    Pending,
    /// It tries to reach the target, and has failed `failed` times so far.
    Connecting { failed: usize },
    /// It is connected and has nothing to write.
    Draining,
    /// It is connected and a write is under way.
    Writing,
    /// It gave up on the target and never touched the queue.
    Abandoned,
    /// A write failed and took the connection with it.
    Lost,
    /// It took an order to close.
    Closed,
}

/// What has happened to a connection since it was last asked what to do.
#[derive(Clone, Copy, Debug, PartialEq, Eq, Structural)]
pub enum ConnectionEvent {
    /// A worker has taken up the connection's job.
    Started,
    /// The attempt to connect failed.
    ConnectFailed,
    /// The attempt to connect succeeded.
    Connected,
    /// The connection has waited and looks at the queue again.
    Idle,
    /// The write went through.
    Written,
    /// The write failed.
    WriteFailed,
}

/// How a connection ended, told once, at the step that ends it.
#[derive(Clone, Copy, Debug, PartialEq, Eq, Structural)]
pub enum Report {
    /// Every attempt to connect failed.
    ConnectionAbandoned,
    /// A write to the established connection failed.
    ConnectionLost,
    /// The connection took an order to close.
    Terminated,
}

/// What a connection is to do next.
#[derive(Debug, PartialEq, Eq)]
pub enum Action {
    /// Try to reach the target.
    Connect,
    /// Write these bytes to the socket.
    Write(Vec<u8>),
    /// Nothing waits: look again later.
    Wait,
    /// Stop. The report is there if this step ended the connection; it is
    /// missing if the step changed nothing.
    Stop(Option<Report>),
}

/// An action as contracts see it.
pub enum ActionView {
    Connect,
    Write(Seq<u8>),
    Wait,
    Stop(Option<Report>),
}

impl View for Action {
    type V = ActionView;

    open spec fn view(&self) -> ActionView {
        match *self {
            Action::Connect => ActionView::Connect,
            Action::Write(bytes) => ActionView::Write(bytes@),
            Action::Wait => ActionView::Wait,
            Action::Stop(report) => ActionView::Stop(report),
        }
    }
}

/// One step of a connection: where it stands afterwards, what is left in the
/// outbound queue, and what it does next.
pub struct Step {
    pub state: ConnectionState,
    pub outbound: Seq<MessageView>,
    pub action: ActionView,
}

impl ConnectionState {
    /// Whether the connection has ended.
    pub open spec fn is_over(self) -> bool {
        self is Abandoned || self is Lost || self is Closed
    }

    /// Whether a connection in this state looks at the outbound queue when
    /// `event` reaches it: when it has just connected, when a write went
    /// through, and when it has waited for something to write.
    pub open spec fn looks(self, event: ConnectionEvent) -> bool {
        ||| self is Connecting && event is Connected
        ||| self is Draining && event is Idle
        ||| self is Writing && event is Written
    }

    /// A look at the outbound queue: the oldest message is taken, bytes are
    /// written, the order to close is obeyed.
    pub open spec fn look(outbound: Seq<MessageView>) -> Step {
        if outbound.len() == 0 {
            Step { state: ConnectionState::Draining, outbound, action: ActionView::Wait }
        } else {
            match outbound.first() {
                MessageView::Data(bytes) => Step {
                    state: ConnectionState::Writing,
                    outbound: outbound.drop_first(),
                    action: ActionView::Write(bytes),
                },
                MessageView::Terminate => Step {
                    state: ConnectionState::Closed,
                    outbound: outbound.drop_first(),
                    action: ActionView::Stop(Some(Report::Terminated)),
                },
            }
        }
    }

    /// The step of a connection that has seen `failed` attempts fail, of at
    /// most `limit`: it tries again while an attempt is left, and gives up
    /// for good when none is.
    pub open spec fn attempt(failed: int, limit: usize, outbound: Seq<MessageView>) -> Step {
        if failed >= limit {
            Step {
                state: ConnectionState::Abandoned,
                outbound,
                action: ActionView::Stop(Some(Report::ConnectionAbandoned)),
            }
        } else {
            Step {
                state: ConnectionState::Connecting { failed: failed as usize },
                outbound,
                action: ActionView::Connect,
            }
        }
    }

    /// The step that `event` makes a connection take, with at most `limit`
    /// attempts to connect and `outbound` waiting in the queue. An event
    /// that the state does not wait for changes nothing and stops the
    /// caller.
    pub open spec fn step(
        self,
        event: ConnectionEvent,
        limit: usize,
        outbound: Seq<MessageView>,
    ) -> Step {
        if self.looks(event) {
            Self::look(outbound)
        } else if self is Pending && event is Started {
            Self::attempt(0, limit, outbound)
        } else if self is Connecting && event is ConnectFailed {
            Self::attempt(self->failed + 1, limit, outbound)
        } else if self is Writing && event is WriteFailed {
            Step {
                state: ConnectionState::Lost,
                outbound,
                action: ActionView::Stop(Some(Report::ConnectionLost)),
            }
        } else {
            Step { state: self, outbound, action: ActionView::Stop(None) }
        }
    }
}

/// How many attempts to connect an action asks for.
pub open spec fn attempts_of(action: ActionView) -> nat {
    if action is Connect {
        1
    } else {
        0
    }
}

/// The reports that an action carries.
pub open spec fn reports_of(action: ActionView) -> Seq<Report> {
    match action {
        ActionView::Stop(Some(report)) => seq![report],
        _ => Seq::empty(),
    }
}

/// The life of a connection whose target refuses it.
pub struct Refused {
    /// Where the connection stands.
    pub state: ConnectionState,
    /// How many attempts to connect it was told to make.
    pub attempts: nat,
    /// What it has reported.
    pub reports: Seq<Report>,
}

/// A connection that was started and has then seen `failures` attempts to
/// connect fail, with at most `limit` attempts allowed.
pub open spec fn refused(limit: usize, failures: nat) -> Refused
    decreases failures,
{
    if failures == 0 {
        let first = ConnectionState::Pending.step(ConnectionEvent::Started, limit, Seq::empty());
        Refused {
            state: first.state,
            attempts: attempts_of(first.action),
            reports: reports_of(first.action),
        }
    } else {
        let before = refused(limit, (failures - 1) as nat);
        let next = before.state.step(ConnectionEvent::ConnectFailed, limit, Seq::empty());
        Refused {
            state: next.state,
            attempts: before.attempts + attempts_of(next.action),
            reports: before.reports + reports_of(next.action),
        }
    }
}

/// Only a look at the queue takes anything out of it, and a look takes at
/// most the oldest message. A connection that is still connecting, or that
/// has ended, leaves the queue as it is.
pub proof fn lemma_step_leaves_queue(
    state: ConnectionState,
    event: ConnectionEvent,
    limit: usize,
    outbound: Seq<MessageView>,
)
    ensures
        !state.looks(event) ==> state.step(event, limit, outbound).outbound == outbound,
        state.looks(event) && outbound.len() > 0 ==> state.step(event, limit, outbound).outbound
            == outbound.drop_first(),
        state.is_over() ==> state.step(event, limit, outbound).state == state && state.step(
            event,
            limit,
            outbound,
        ).action == ActionView::Stop(None),
{
}

/// A connection whose target always refuses it makes exactly `limit`
/// attempts, one after the other, then gives up for good and reports so
/// once. Until then it reports nothing.
pub proof fn lemma_refused_gives_up(limit: usize, failures: nat)
    ensures
        failures < limit ==> refused(limit, failures) == (Refused {
            state: ConnectionState::Connecting { failed: failures as usize },
            attempts: failures + 1,
            reports: Seq::empty(),
        }),
        failures >= limit ==> refused(limit, failures) == (Refused {
            state: ConnectionState::Abandoned,
            attempts: limit as nat,
            reports: seq![Report::ConnectionAbandoned],
        }),
    decreases failures,
{
    if failures > 0 {
        lemma_refused_gives_up(limit, (failures - 1) as nat);
        let before = refused(limit, (failures - 1) as nat);
        let next = before.state.step(ConnectionEvent::ConnectFailed, limit, Seq::empty());
        assert(before.reports + reports_of(next.action) =~= if failures == limit {
            seq![Report::ConnectionAbandoned]
        } else {
            before.reports
        });
    } else {
        let first = ConnectionState::Pending.step(ConnectionEvent::Started, limit, Seq::empty());
        assert(reports_of(first.action) =~= if limit == 0 {
            seq![Report::ConnectionAbandoned]
        } else {
            Seq::empty()
        });
    }
}

/// A connection of a pool. It is no socket: it stands for the job that
/// connects, writes what the outbound queue hands it, and closes.
pub struct Connection {
    id: usize,
    state: ConnectionState,
}

impl Connection {
    /// The connection's place in its pool.
    pub closed spec fn spec_id(&self) -> usize {
        self.id
    }

    /// Where the connection stands.
    pub closed spec fn spec_state(&self) -> ConnectionState {
        self.state
    }

    /// A connection at place `id` of its pool. Its job is handed to `pool`
    /// at once, behind the jobs that wait there.
    pub fn new(id: usize, pool: &mut ThreadPool<usize>) -> (c: Connection)
        requires
            old(pool).wf(),
            !old(pool)@.shut_down,
        ensures
            final(pool).wf(),
            final(pool)@ == old(pool)@.execute(id),
            c.id() == id,
            c.state() == ConnectionState::Pending,
    {
        pool.execute(id);
        Connection { id, state: ConnectionState::Pending }
    }

    #[verifier::when_used_as_spec(spec_id)]
    pub fn id(&self) -> (id: usize)
        ensures
            id == self.spec_id(),
    {
        self.id
    }

    #[verifier::when_used_as_spec(spec_state)]
    pub fn state(&self) -> (state: ConnectionState)
        ensures
            state == self.spec_state(),
    {
        self.state
    }

    /// Takes the step that `event` asks for. Only a connected connection
    /// with nothing under way touches `queue`, and it takes at most the
    /// oldest message.
    pub fn step(
        &mut self,
        event: ConnectionEvent,
        limit: usize,
        queue: &mut Queue<DataMessage>,
    ) -> (action: Action)
        ensures
            final(self).id() == old(self).id(),
            ({
                let step = old(self).state().step(event, limit, message_views(old(queue)@));
                &&& final(self).state() == step.state
                &&& message_views(final(queue)@) == step.outbound
                &&& action@ == step.action
            }),
            !old(self).state().looks(event) ==> final(queue)@ == old(queue)@,
    {
        let looks = match (self.state, event) {
            (ConnectionState::Connecting { .. }, ConnectionEvent::Connected) => true,
            (ConnectionState::Draining, ConnectionEvent::Idle) => true,
            (ConnectionState::Writing, ConnectionEvent::Written) => true,
            _ => false,
        };
        if looks {
            proof {
                let waiting = old(queue)@;
                if waiting.len() > 0 {
                    assert(message_views(waiting).first() == waiting.first()@);
                    assert(message_views(waiting.drop_first()) =~= message_views(
                        waiting,
                    ).drop_first());
                }
            }
            match queue.pop() {
                None => {
                    self.state = ConnectionState::Draining;
                    Action::Wait
                },
                Some(DataMessage::Data(bytes)) => {
                    self.state = ConnectionState::Writing;
                    Action::Write(bytes)
                },
                Some(DataMessage::Terminate) => {
                    self.state = ConnectionState::Closed;
                    Action::Stop(Some(Report::Terminated))
                },
            }
        } else {
            match (self.state, event) {
                (ConnectionState::Pending, ConnectionEvent::Started) => {
                    if limit == 0 {
                        self.state = ConnectionState::Abandoned;
                        Action::Stop(Some(Report::ConnectionAbandoned))
                    } else {
                        self.state = ConnectionState::Connecting { failed: 0 };
                        Action::Connect
                    }
                },
                (ConnectionState::Connecting { failed }, ConnectionEvent::ConnectFailed) => {
                    if failed >= limit || limit - failed <= 1 {
                        self.state = ConnectionState::Abandoned;
                        Action::Stop(Some(Report::ConnectionAbandoned))
                    } else {
                        self.state = ConnectionState::Connecting { failed: failed + 1 };
                        Action::Connect
                    }
                },
                (ConnectionState::Writing, ConnectionEvent::WriteFailed) => {
                    self.state = ConnectionState::Lost;
                    Action::Stop(Some(Report::ConnectionLost))
                },
                _ => Action::Stop(None),
            }
        }
    }
}

} // verus!
