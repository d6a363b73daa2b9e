//! What the protocol of the task pool guarantees, whatever the order in
//! which the workers get their turn.

use crate::thread::{
    count_running, lemma_count_all, lemma_count_leave, lemma_count_none, pending_jobs, terminates,
    Dispatch, PoolView, TaskMessage,
};
use vstd::prelude::*;

verus! {

/// The job that a worker is handed, if it is handed one.
pub open spec fn job_of<J>(next: Dispatch<J>) -> Seq<J> {
    match next {
        Dispatch::Run(job) => seq![job],
        _ => Seq::empty(),
    }
}

impl<J> PoolView<J> {
    /// The pool after the workers named in `schedule` have looked at the
    /// channel, one after the other.
    pub open spec fn run(self, schedule: Seq<int>) -> PoolView<J>
        decreases schedule.len(),
    {
        if schedule.len() == 0 {
            self
        } else {
            self.take(schedule.first()).run(schedule.drop_first())
        }
    }

    /// The jobs that were handed to workers during `schedule`, in the order
    /// in which they were handed out.
    pub open spec fn handed(self, schedule: Seq<int>) -> Seq<J>
        decreases schedule.len(),
    {
        if schedule.len() == 0 {
            Seq::empty()
        } else {
            job_of(self.told(schedule.first())) + self.take(schedule.first()).handed(
                schedule.drop_first(),
            )
        }
    }

    /// Whether every worker has left.
    pub open spec fn all_exited(self) -> bool {
        forall|w: int| 0 <= w < self.running.len() ==> !self.running[w]
    }
}

/// A new pool keeps to the protocol.
pub proof fn lemma_fresh_keeps_protocol<J>(size: nat)
    requires
        size > 0,
    ensures
        PoolView::<J>::fresh(size).inv(),
{
}

/// Submitting a job to a pool that is not shut down keeps the protocol.
pub proof fn lemma_execute_keeps_protocol<J>(pool: PoolView<J>, job: J)
    requires
        pool.inv(),
        !pool.shut_down,
    ensures
        pool.execute(job).inv(),
        !pool.execute(job).shut_down,
{
}

/// Shutting a pool down keeps the protocol, and sends exactly one order to
/// leave for each worker the first time, none after that.
pub proof fn lemma_shutdown_keeps_protocol<J>(pool: PoolView<J>)
    requires
        pool.inv(),
    ensures
        pool.shutdown().inv(),
        pool.shutdown().shut_down,
        !pool.shut_down ==> pool.shutdown().channel == pool.channel + terminates::<J>(
            pool.running.len(),
        ),
        pool.shutdown().shutdown() == pool.shutdown(),
{
    if !pool.shut_down {
        lemma_count_all(pool.running);
    }
}

/// A worker's look at the channel keeps the protocol.
pub proof fn lemma_take_keeps_protocol<J>(pool: PoolView<J>, w: int)
    requires
        pool.inv(),
    ensures
        pool.take(w).inv(),
        pool.take(w).shut_down == pool.shut_down,
        pool.take(w).running.len() == pool.running.len(),
{
    let after = pool.take(w);
    if after != pool {
        if pool.channel.first() is Terminate {
            lemma_count_leave(pool.running, w);
        }
    }
}

/// Any number of looks at the channel keep the protocol.
pub proof fn lemma_run_keeps_protocol<J>(pool: PoolView<J>, schedule: Seq<int>)
    requires
        pool.inv(),
    ensures
        pool.run(schedule).inv(),
        pool.run(schedule).shut_down == pool.shut_down,
        pool.run(schedule).running.len() == pool.running.len(),
    decreases schedule.len(),
{
    if schedule.len() > 0 {
        lemma_take_keeps_protocol(pool, schedule.first());
        lemma_run_keeps_protocol(pool.take(schedule.first()), schedule.drop_first());
    }
}

/// A job that joins the channel joins the jobs that wait, behind them; an
/// order to leave does not.
pub proof fn lemma_pending_push<J>(channel: Seq<TaskMessage<J>>, message: TaskMessage<J>)
    ensures
        pending_jobs(channel.push(message)) == match message {
            TaskMessage::Execute(job) => pending_jobs(channel).push(job),
            TaskMessage::Terminate => pending_jobs(channel),
        },
    decreases channel.len(),
{
    let longer = channel.push(message);
    if channel.len() == 0 {
        assert(longer.drop_first() =~= Seq::<TaskMessage<J>>::empty());
        assert(pending_jobs(longer.drop_first()) =~= Seq::<J>::empty());
        match message {
            TaskMessage::Execute(job) => {
                assert(pending_jobs(longer) =~= pending_jobs(channel).push(job));
            },
            TaskMessage::Terminate => {},
        }
    } else {
        lemma_pending_push(channel.drop_first(), message);
        assert(longer.drop_first() =~= channel.drop_first().push(message));
        match message {
            TaskMessage::Execute(job) => {
                assert(pending_jobs(longer) =~= pending_jobs(channel).push(job));
            },
            TaskMessage::Terminate => {},
        }
    }
}

/// Orders to leave add nothing to the jobs that wait.
pub proof fn lemma_pending_terminates<J>(channel: Seq<TaskMessage<J>>, n: nat)
    ensures
        pending_jobs(channel + terminates::<J>(n)) == pending_jobs(channel),
    decreases n,
{
    if n == 0 {
        assert(channel + terminates::<J>(n) =~= channel);
    } else {
        lemma_pending_terminates(channel, (n - 1) as nat);
        lemma_pending_push(channel + terminates::<J>((n - 1) as nat), TaskMessage::Terminate);
        assert(channel + terminates::<J>(n) =~= (channel + terminates::<J>((n - 1) as nat)).push(
            TaskMessage::Terminate,
        ));
    }
}

/// Submitting jobs one after the other is submitting them as a run.
pub proof fn lemma_submit_one_more<J>(pool: PoolView<J>, jobs: Seq<J>, job: J)
    ensures
        pool.submit(jobs.push(job)) == pool.submit(jobs).execute(job),
        pool.submit(Seq::empty()) == pool,
{
    assert(pool.submit(jobs.push(job)).channel =~= pool.submit(jobs).execute(job).channel);
    assert(pool.submit(Seq::empty()).channel =~= pool.channel);
}

/// Jobs submitted to a pool that is not shut down wait behind those that
/// waited before, in the order of their submission.
pub proof fn lemma_submit_pending<J>(pool: PoolView<J>, jobs: Seq<J>)
    requires
        pool.inv(),
        !pool.shut_down,
    ensures
        pool.submit(jobs).inv(),
        !pool.submit(jobs).shut_down,
        pool.submit(jobs).running == pool.running,
        pending_jobs(pool.submit(jobs).channel) == pending_jobs(pool.channel) + jobs,
    decreases jobs.len(),
{
    if jobs.len() == 0 {
        lemma_submit_one_more(pool, jobs, arbitrary());
        assert(jobs =~= Seq::<J>::empty());
        assert(pending_jobs(pool.channel) + jobs =~= pending_jobs(pool.channel));
    } else {
        let before = pool.submit(jobs.drop_last());
        lemma_submit_pending(pool, jobs.drop_last());
        lemma_submit_one_more(pool, jobs.drop_last(), jobs.last());
        assert(jobs.drop_last().push(jobs.last()) =~= jobs);
        lemma_execute_keeps_protocol(before, jobs.last());
        lemma_pending_push(before.channel, TaskMessage::Execute(jobs.last()));
        assert((pending_jobs(pool.channel) + jobs.drop_last()).push(jobs.last()) =~= pending_jobs(
            pool.channel,
        ) + jobs);
    }
}

/// No job is lost and none is run twice: the jobs handed out during a
/// schedule, followed by those that still wait, are the jobs that waited
/// before, in their order.
pub proof fn lemma_jobs_conserved<J>(pool: PoolView<J>, schedule: Seq<int>)
    ensures
        pool.handed(schedule) + pending_jobs(pool.run(schedule).channel) == pending_jobs(
            pool.channel,
        ),
    decreases schedule.len(),
{
    if schedule.len() == 0 {
        assert(pool.handed(schedule) + pending_jobs(pool.channel) =~= pending_jobs(pool.channel));
    } else {
        let w = schedule.first();
        let rest = schedule.drop_first();
        lemma_jobs_conserved(pool.take(w), rest);
        assert(job_of(pool.told(w)) + pending_jobs(pool.take(w).channel) =~= pending_jobs(
            pool.channel,
        ));
        assert(pool.handed(schedule) + pending_jobs(pool.run(schedule).channel) =~= job_of(
            pool.told(w),
        ) + (pool.take(w).handed(rest) + pending_jobs(pool.take(w).run(rest).channel)));
    }
}

/// Once a pool is shut down and its channel is empty, every worker has
/// left.
pub proof fn lemma_drained_pool_is_done<J>(pool: PoolView<J>)
    requires
        pool.inv(),
        pool.shut_down,
        pool.channel.len() == 0,
    ensures
        pool.all_exited(),
        count_running(pool.running) == 0,
{
    lemma_count_none(pool.running);
}

/// While a pool that is shut down has messages left, a worker is left to
/// take the next one.
pub proof fn lemma_shut_down_pool_moves<J>(pool: PoolView<J>) -> (w: int)
    requires
        pool.inv(),
        pool.shut_down,
        pool.channel.len() > 0,
    ensures
        0 <= w < pool.running.len(),
        pool.running[w],
        pool.take(w).channel == pool.channel.drop_first(),
{
    lemma_count_none(pool.running);
    choose|w: int| 0 <= w < pool.running.len() && pool.running[w]
}

/// A pool that is shut down can always finish: some schedule, one turn for
/// each message left, empties the channel and ends every worker.
pub proof fn lemma_shut_down_pool_finishes<J>(pool: PoolView<J>) -> (schedule: Seq<int>)
    requires
        pool.inv(),
        pool.shut_down,
    ensures
        schedule.len() == pool.channel.len(),
        pool.run(schedule).channel.len() == 0,
        pool.run(schedule).all_exited(),
    decreases pool.channel.len(),
{
    if pool.channel.len() == 0 {
        lemma_drained_pool_is_done(pool);
        Seq::empty()
    } else {
        let w = lemma_shut_down_pool_moves(pool);
        lemma_take_keeps_protocol(pool, w);
        let rest = lemma_shut_down_pool_finishes(pool.take(w));
        let schedule = seq![w] + rest;
        assert(schedule.drop_first() =~= rest);
        schedule
    }
}

/// The whole life of a pool. A pool of `size` workers is given `jobs` and
/// then shut down. Whatever the order in which the workers get their turn,
/// once the channel is empty every job has been handed to a worker exactly
/// once, in the order of submission, and every worker has left.
pub proof fn lemma_every_job_runs_once<J>(size: nat, jobs: Seq<J>, schedule: Seq<int>)
    requires
        size > 0,
        PoolView::<J>::fresh(size).submit(jobs).shutdown().run(schedule).channel.len() == 0,
    ensures
        PoolView::<J>::fresh(size).submit(jobs).shutdown().handed(schedule) == jobs,
        PoolView::<J>::fresh(size).submit(jobs).shutdown().run(schedule).all_exited(),
        PoolView::<J>::fresh(size).submit(jobs).shutdown().channel
            == PoolView::<J>::fresh(size).submit(jobs).channel + terminates::<J>(size),
{
    let fresh = PoolView::<J>::fresh(size);
    let loaded = fresh.submit(jobs);
    let closing = loaded.shutdown();
    let done = closing.run(schedule);
    lemma_fresh_keeps_protocol::<J>(size);
    lemma_submit_pending(fresh, jobs);
    lemma_shutdown_keeps_protocol(loaded);
    lemma_pending_terminates(loaded.channel, size);
    lemma_run_keeps_protocol(closing, schedule);
    lemma_jobs_conserved(closing, schedule);
    lemma_drained_pool_is_done(done);
    assert(pending_jobs(fresh.channel) =~= Seq::<J>::empty());
    assert(pending_jobs(done.channel) =~= Seq::<J>::empty());
    assert(closing.handed(schedule) =~= closing.handed(schedule) + pending_jobs(done.channel));
    assert(pending_jobs(fresh.channel) + jobs =~= jobs);
}

} // verus!
