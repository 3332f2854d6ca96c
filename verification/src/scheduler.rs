use std::collections::VecDeque;
use vstd::prelude::*;

verus! {

/// The context a task is executed in: which tenant it belongs to.
#[derive(Clone, Copy, Debug, PartialEq, Eq)]
pub struct Ctx {
    pub tenant: u8,
}

impl Default for Ctx {
    fn default() -> (ctx: Self)
        ensures
            ctx.tenant == 0,
    {
        Ctx { tenant: 0 }
    }
}

/// A request to execute transactions for a tenant.
pub struct AddTask<T> {
    pub tenant_id: u8,
    pub transactions: Vec<T>,
}

impl<T> Default for AddTask<T> {
    fn default() -> (task: Self)
        ensures
            task.tenant_id == 0,
            task.transactions@ == Seq::<T>::empty(),
    {
        AddTask { tenant_id: 0, transactions: Vec::new() }
    }
}

/// A task as the worker threads see it: the execution context, the transactions,
/// and where its result is to be sent.
pub struct WorkerTask<T, R> {
    pub ctx: Ctx,
    pub transactions: Vec<T>,
    pub result: R,
}

/// The worker task for `task`, whose result goes to `result`. It runs in the
/// context of the task's tenant.
pub fn worker_task<T, R>(task: AddTask<T>, result: R) -> (worker_task: WorkerTask<T, R>)
    ensures
        worker_task.ctx.tenant == task.tenant_id,
        worker_task.transactions@ == task.transactions@,
        worker_task.result == result,
{
    WorkerTask { ctx: Ctx { tenant: task.tenant_id }, transactions: task.transactions, result }
}

/// The pending tasks after `task` is queued: new tasks go in at the front.
pub open spec fn queue_after_push<T>(pending: Seq<T>, task: T) -> Seq<T> {
    seq![task] + pending
}

/// The order in which the tasks of `pending` are taken: from the back.
pub open spec fn service_order<T>(pending: Seq<T>) -> Seq<T>
    decreases pending.len(),
{
    if pending.len() == 0 {
        Seq::empty()
    } else {
        seq![pending.last()] + service_order(pending.drop_last())
    }
}

/// The tasks waiting for a worker thread.
pub struct TaskQueue<T> {
    tasks: VecDeque<T>,
}

impl<T> TaskQueue<T> {
    /// The waiting tasks, the most recently queued first.
    pub closed spec fn pending(&self) -> Seq<T> {
        self.tasks@
    }

    pub fn new() -> (queue: Self)
        ensures
            queue.pending() == Seq::<T>::empty(),
    {
        TaskQueue { tasks: VecDeque::new() }
    }

    /// Queues `task` behind all the waiting ones.
    pub fn push(&mut self, task: T)
        ensures
            final(self).pending() == queue_after_push(old(self).pending(), task),
    {
        self.tasks.push_front(task);
    }

    /// Takes the task that has waited longest, if any.
    pub fn pop(&mut self) -> (task: Option<T>)
        ensures
            old(self).pending().len() == 0 ==> task is None && final(self).pending() == old(
                self,
            ).pending(),
            old(self).pending().len() > 0 ==> task == Some(old(self).pending().last())
                && final(self).pending() == old(self).pending().drop_last(),
    {
        self.tasks.pop_back()
    }
}

/// First in, first out: a task queued now is taken after every task already
/// waiting, and the waiting ones keep their order.
pub proof fn law_fifo<T>(pending: Seq<T>, task: T)
    ensures
        service_order(queue_after_push(pending, task)) == service_order(pending).push(task),
    decreases pending.len(),
{
    let q = queue_after_push(pending, task);
    if pending.len() == 0 {
        assert(q.drop_last() =~= Seq::<T>::empty());
        assert(q.last() == task);
        assert(service_order(q.drop_last()) == Seq::<T>::empty());
        assert(service_order(q) =~= seq![task]);
    } else {
        assert(q.drop_last() =~= queue_after_push(pending.drop_last(), task));
        law_fifo(pending.drop_last(), task);
        assert(service_order(q) =~= service_order(pending).push(task));
    }
}

/// The idle worker threads, waiting to be woken.
pub struct WorkerPool<W> {
    idle: Vec<W>,
}

impl<W> WorkerPool<W> {
    /// The idle workers, in the order they went idle.
    pub closed spec fn idle(&self) -> Seq<W> {
        self.idle@
    }

    pub fn new() -> (pool: Self)
        ensures
            pool.idle() == Seq::<W>::empty(),
    {
        WorkerPool { idle: Vec::new() }
    }

    /// Records that `worker` has run out of tasks and waits.
    pub fn park(&mut self, worker: W)
        ensures
            final(self).idle() == old(self).idle().push(worker),
    {
        self.idle.push(worker);
    }

    /// Takes the worker that went idle last, to be woken; none when all are busy.
    pub fn wake(&mut self) -> (worker: Option<W>)
        ensures
            old(self).idle().len() == 0 ==> worker is None && final(self).idle() == old(
                self,
            ).idle(),
            old(self).idle().len() > 0 ==> worker == Some(old(self).idle().last())
                && final(self).idle() == old(self).idle().drop_last(),
    {
        self.idle.pop()
    }
}

/// A worker that has just gone idle is the one woken next, and waking it leaves the
/// other idle workers as they were.
pub proof fn law_park_then_wake<W>(idle: Seq<W>, worker: W)
    ensures
        idle.push(worker).last() == worker,
        idle.push(worker).drop_last() == idle,
{
    assert(idle.push(worker).drop_last() =~= idle);
}

} // verus!
