use std::collections::HashMap;
use vstd::prelude::*;

use crate::block::BlockEnv;

verus! {

broadcast use vstd::std_specs::hash::group_hash_axioms;

/// A request to mine a block for a tenant from the output of an execution.
pub struct Request<O> {
    pub tenant: u8,
    pub env: BlockEnv,
    pub execution_output: O,
}

/// The tasks of `tasks` whose flag in `pending` is set, in their order.
pub open spec fn still_pending<F>(tasks: Seq<F>, pending: Seq<bool>) -> Seq<F>
    decreases tasks.len(),
{
    if tasks.len() == 0 {
        Seq::empty()
    } else {
        let rest = still_pending(tasks.drop_first(), pending.drop_first());
        if pending[0] {
            seq![tasks[0]] + rest
        } else {
            rest
        }
    }
}

/// The next move of the service's poll.
#[derive(Clone, Copy, Debug, PartialEq, Eq, Structural)]
pub enum PollOutcome {
    /// The request channel is closed: the service is done.
    Ready,
    /// Nothing is under way: wait to be woken.
    Pending,
    /// Tasks are under way: receive, handle and poll again.
    Again,
}

/// `s` with its last element moved to the front.
pub open spec fn rotate_last_to_front<F>(s: Seq<F>) -> Seq<F> {
    if s.len() == 0 {
        s
    } else {
        seq![s.last()] + s.drop_last()
    }
}

/// The order in which a sweep over `tasks` leaves the pending ones: it takes the
/// tasks out from the last one down, each by moving the last task into its place,
/// and puts a task back at the end when its flag in `pending` is set.
pub open spec fn swept<F>(tasks: Seq<F>, pending: Seq<bool>) -> Seq<F>
    decreases tasks.len(),
{
    if tasks.len() == 0 {
        Seq::empty()
    } else {
        let rest = rotate_last_to_front(swept(tasks.drop_first(), pending.drop_first()));
        if pending[0] {
            rest.push(tasks[0])
        } else {
            rest
        }
    }
}

/// A sweep keeps exactly the tasks that are still pending, each once, and drops
/// every finished one.
pub proof fn law_sweep_keeps_pending<F>(tasks: Seq<F>, pending: Seq<bool>)
    requires
        pending.len() == tasks.len(),
    ensures
        swept(tasks, pending).to_multiset() == still_pending(tasks, pending).to_multiset(),
    decreases tasks.len(),
{
    broadcast use vstd::seq_lib::group_to_multiset_ensures;

    if tasks.len() > 0 {
        let inner = swept(tasks.drop_first(), pending.drop_first());
        let rest = still_pending(tasks.drop_first(), pending.drop_first());
        law_sweep_keeps_pending(tasks.drop_first(), pending.drop_first());
        let rotated = rotate_last_to_front(inner);
        assert(rotated.to_multiset() == inner.to_multiset()) by {
            if inner.len() > 0 {
                vstd::seq_lib::lemma_seq_union_to_multiset_commutative(
                    seq![inner.last()],
                    inner.drop_last(),
                );
                assert(inner.drop_last() + seq![inner.last()] =~= inner);
            }
        }
        if pending[0] {
            vstd::seq_lib::lemma_seq_union_to_multiset_commutative(seq![tasks[0]], rest);
            assert(rest + seq![tasks[0]] =~= rest.push(tasks[0]));
        }
    }
}

/// The state of the block production service: the backend of each tenant, the
/// mining tasks under way, and the requests that have not been turned into tasks.
pub struct BlockProducerService<B, F, O> {
    backends: HashMap<u8, B>,
    ongoing_tasks: Vec<F>,
    queued_requests: Vec<Request<O>>,
}

impl<B, F, O> BlockProducerService<B, F, O> {
    pub closed spec fn backends(&self) -> Map<u8, B> {
        self.backends@
    }

    /// The mining tasks under way.
    pub closed spec fn ongoing(&self) -> Seq<F> {
        self.ongoing_tasks@
    }

    /// The requests received and not yet handled, oldest first.
    pub closed spec fn queued(&self) -> Seq<Request<O>> {
        self.queued_requests@
    }

    /// A service for the tenants of `backends`, with nothing to do yet.
    pub fn new(backends: HashMap<u8, B>) -> (service: Self)
        ensures
            service.backends() == backends@,
            service.ongoing() == Seq::<F>::empty(),
            service.queued() == Seq::<Request<O>>::empty(),
    {
        BlockProducerService { backends, ongoing_tasks: Vec::new(), queued_requests: Vec::new() }
    }

    /// Queues a request that has arrived.
    pub fn enqueue(&mut self, request: Request<O>)
        ensures
            final(self).queued() == old(self).queued().push(request),
            final(self).ongoing() == old(self).ongoing(),
            final(self).backends() == old(self).backends(),
    {
        self.queued_requests.push(request);
    }

    /// Whether `tenant` has a backend to mine its blocks.
    pub fn has_backend(&self, tenant: u8) -> (found: bool)
        ensures
            found == self.backends().contains_key(tenant),
    {
        self.backends.contains_key(&tenant)
    }

    /// Whether every queued request names a tenant that has a backend.
    pub fn queued_backends_known(&self) -> (known: bool)
        ensures
            known == forall|i: int|
                0 <= i < self.queued().len() ==> self.backends().contains_key(
                    #[trigger] self.queued()[i].tenant,
                ),
    {
        let mut i: usize = 0;
        while i < self.queued_requests.len()
            invariant
                i <= self.queued_requests@.len(),
                forall|j: int|
                    0 <= j < i ==> self.backends@.contains_key(
                        #[trigger] self.queued_requests@[j].tenant,
                    ),
            decreases self.queued_requests@.len() - i,
        {
            if !self.backends.contains_key(&self.queued_requests[i].tenant) {
                assert(!self.backends@.contains_key(self.queued_requests@[i as int].tenant));
                assert(!self.backends().contains_key(self.queued()[i as int].tenant));
                return false;
            }
            i = i + 1;
        }
        true
    }

    /// Turns every queued request into a mining task with `spawn`, the request
    /// queued last first, each on the backend of its tenant; afterwards nothing is
    /// queued.
    pub fn handle_queued<S>(&mut self, spawn: S) where
        S: Fn(&B, Request<O>) -> F,
        requires
            forall|i: int|
                0 <= i < old(self).queued().len() ==> old(self).backends().contains_key(
                    #[trigger] old(self).queued()[i].tenant,
                ),
            forall|backend: &B, request: Request<O>| call_requires(spawn, (backend, request)),
        ensures
            final(self).queued() == Seq::<Request<O>>::empty(),
            final(self).backends() == old(self).backends(),
            final(self).ongoing().len() == old(self).ongoing().len() + old(self).queued().len(),
            final(self).ongoing().take(old(self).ongoing().len() as int) == old(self).ongoing(),
            forall|i: int|
                0 <= i < old(self).queued().len() ==> {
                    let request = #[trigger] old(self).queued()[old(self).queued().len() - 1 - i];
                    call_ensures(
                        spawn,
                        (&old(self).backends()[request.tenant], request),
                        final(self).ongoing()[old(self).ongoing().len() + i],
                    )
                },
    {
        let ghost queued = self.queued_requests@;
        let ghost ongoing = self.ongoing_tasks@;
        let ghost backends = self.backends@;
        assert forall|i: int| 0 <= i < queued.len() implies backends.contains_key(
            #[trigger] queued[i].tenant,
        ) by {
            assert(old(self).queued()[i] == queued[i]);
        }
        assert(self.queued_requests@ =~= queued.take(queued.len() as int));
        assert(self.ongoing_tasks@.take(ongoing.len() as int) =~= ongoing);
        while self.queued_requests.len() > 0
            invariant
                self.backends@ == backends,
                self.queued_requests@.len() <= queued.len(),
                self.queued_requests@ == queued.take(self.queued_requests@.len() as int),
                self.ongoing_tasks@.len() == ongoing.len() + queued.len()
                    - self.queued_requests@.len(),
                self.ongoing_tasks@.take(ongoing.len() as int) == ongoing,
                forall|i: int|
                    0 <= i < queued.len() ==> backends.contains_key(#[trigger] queued[i].tenant),
                forall|backend: &B, request: Request<O>|
                    call_requires(spawn, (backend, request)),
                forall|i: int|
                    0 <= i < queued.len() - self.queued_requests@.len() ==> {
                        let request = #[trigger] queued[queued.len() - 1 - i];
                        call_ensures(
                            spawn,
                            (&backends[request.tenant], request),
                            self.ongoing_tasks@[ongoing.len() + i],
                        )
                    },
            decreases self.queued_requests@.len(),
        {
            let ghost before = self.ongoing_tasks@;
            let ghost left = self.queued_requests@.len();
            let request = match self.queued_requests.pop() {
                Some(request) => request,
                None => {
                    assert(false);
                    return;
                },
            };
            assert(request == queued[left - 1]);
            let task = match self.backends.get(&request.tenant) {
                Some(backend) => spawn(backend, request),
                None => {
                    assert(false);
                    return;
                },
            };
            self.ongoing_tasks.push(task);
            assert(self.queued_requests@ =~= queued.take(self.queued_requests@.len() as int));
            assert(self.ongoing_tasks@.take(ongoing.len() as int) =~= before.take(
                ongoing.len() as int,
            ));
            assert forall|i: int|
                0 <= i < queued.len() - self.queued_requests@.len() implies {
                let request = #[trigger] queued[queued.len() - 1 - i];
                call_ensures(
                    spawn,
                    (&backends[request.tenant], request),
                    self.ongoing_tasks@[ongoing.len() + i],
                )
            } by {
                if i < queued.len() - left {
                    assert(self.ongoing_tasks@[ongoing.len() + i] == before[ongoing.len() + i]);
                }
            }
        }
    }

    /// Starts mining the block of `request` with `spawn`, on the backend of the
    /// request's tenant, and records the task as under way.
    pub fn handle_request<S>(&mut self, request: Request<O>, spawn: S) where
        S: FnOnce(&B, Request<O>) -> F,
        requires
            old(self).backends().contains_key(request.tenant),
            call_requires(spawn, (&old(self).backends()[request.tenant], request)),
        ensures
            final(self).ongoing().len() == old(self).ongoing().len() + 1,
            final(self).ongoing().drop_last() == old(self).ongoing(),
            call_ensures(
                spawn,
                (&old(self).backends()[request.tenant], request),
                final(self).ongoing().last(),
            ),
            final(self).queued() == old(self).queued(),
            final(self).backends() == old(self).backends(),
    {
        let tenant = request.tenant;
        let task = match self.backends.get(&tenant) {
            Some(backend) => spawn(backend, request),
            None => {
                assert(false);
                return;
            },
        };
        self.ongoing_tasks.push(task);
        assert(self.ongoing_tasks@.drop_last() =~= old(self).ongoing_tasks@);
    }

    /// Drops the tasks that have finished and keeps the others: `pending[i]` tells
    /// whether the task at `i` was still pending when polled. The tasks are taken
    /// out from the last one down, each by moving the last task into its place, and
    /// put back at the end when still pending.
    pub fn retain_pending(&mut self, pending: &Vec<bool>)
        requires
            pending@.len() == old(self).ongoing().len(),
        ensures
            final(self).ongoing() == swept(old(self).ongoing(), pending@),
            final(self).ongoing().to_multiset() == still_pending(
                old(self).ongoing(),
                pending@,
            ).to_multiset(),
            final(self).queued() == old(self).queued(),
            final(self).backends() == old(self).backends(),
    {
        let ghost tasks = self.ongoing_tasks@;
        let ghost mut kept: Seq<F> = Seq::empty();
        let mut n = self.ongoing_tasks.len();
        assert(tasks.skip(n as int) =~= Seq::<F>::empty());
        assert(self.ongoing_tasks@ =~= tasks.take(n as int) + kept);
        while n > 0
            invariant
                n <= tasks.len(),
                pending@.len() == tasks.len(),
                self.ongoing_tasks@ == tasks.take(n as int) + kept,
                kept == swept(tasks.skip(n as int), pending@.skip(n as int)),
                self.queued_requests == old(self).queued_requests,
                self.backends == old(self).backends,
            decreases n,
        {
            n = n - 1;
            let task = self.ongoing_tasks.swap_remove(n);
            assert(task == tasks[n as int]);
            let ghost rotated = rotate_last_to_front(kept);
            assert(self.ongoing_tasks@ =~= tasks.take(n as int) + rotated);
            assert(tasks.skip(n as int).drop_first() =~= tasks.skip(n + 1));
            assert(pending@.skip(n as int).drop_first() =~= pending@.skip(n + 1));
            if pending[n] {
                self.ongoing_tasks.push(task);
                proof {
                    kept = rotated.push(task);
                    assert(self.ongoing_tasks@ =~= tasks.take(n as int) + kept);
                }
            } else {
                proof {
                    kept = rotated;
                }
            }
        }
        assert(tasks.skip(0) =~= tasks);
        assert(pending@.skip(0) =~= pending@);
        assert(self.ongoing_tasks@ =~= kept);
        proof {
            law_sweep_keeps_pending(tasks, pending@);
        }
    }

    /// The mining tasks under way.
    pub fn ongoing_tasks(&self) -> (tasks: &Vec<F>)
        ensures
            tasks@ == self.ongoing(),
    {
        &self.ongoing_tasks
    }

    /// The mining tasks under way, to be polled in place.
    pub fn ongoing_tasks_mut(&mut self) -> (tasks: &mut Vec<F>)
        ensures
            tasks@ == old(self).ongoing(),
            final(self).ongoing() == final(tasks)@,
            final(self).queued() == old(self).queued(),
            final(self).backends() == old(self).backends(),
    {
        &mut self.ongoing_tasks
    }

    /// What the service's poll does next: finish once its channel is closed, wait
    /// for a wake-up when no mining task is under way, and otherwise go round again.
    pub fn poll_outcome(&self, closed: bool) -> (outcome: PollOutcome)
        ensures
            closed ==> outcome == PollOutcome::Ready,
            !closed && self.ongoing().len() == 0 ==> outcome == PollOutcome::Pending,
            !closed && self.ongoing().len() > 0 ==> outcome == PollOutcome::Again,
    {
        if closed {
            PollOutcome::Ready
        } else if self.ongoing_tasks.len() == 0 {
            PollOutcome::Pending
        } else {
            PollOutcome::Again
        }
    }
}

} // verus!
