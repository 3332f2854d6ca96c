use bladeworks::block::{executable_block, next_block, next_block_env, BlockEnv, Felt, GasPrices};
use bladeworks::executor::Executor;
use bladeworks::producer::{BlockProducerService, PollOutcome, Request};
use bladeworks::scheduler::{worker_task, AddTask, Ctx, TaskQueue, WorkerPool};
use std::collections::HashMap;

fn env(number: u64) -> BlockEnv {
    BlockEnv {
        number,
        timestamp: 1_000,
        l1_gas_prices: GasPrices { eth: 7, strk: 9 },
        sequencer_address: Felt { bytes: [3; 32] },
    }
}

#[test]
fn tasks_are_taken_first_in_first_out() {
    let mut queue = TaskQueue::new();
    assert_eq!(queue.pop(), None::<u32>);
    queue.push(1);
    queue.push(2);
    queue.push(3);
    assert_eq!(queue.pop(), Some(1));
    queue.push(4);
    assert_eq!(queue.pop(), Some(2));
    assert_eq!(queue.pop(), Some(3));
    assert_eq!(queue.pop(), Some(4));
    assert_eq!(queue.pop(), None);
}

#[test]
fn last_idle_worker_is_woken_first() {
    let mut pool = WorkerPool::new();
    assert_eq!(pool.wake(), None::<&str>);
    pool.park("a");
    pool.park("b");
    assert_eq!(pool.wake(), Some("b"));
    assert_eq!(pool.wake(), Some("a"));
    assert_eq!(pool.wake(), None);
}

#[test]
fn spawned_task_runs_in_its_tenants_context() {
    let task = AddTask { tenant_id: 3, transactions: vec![10u8, 11] };
    let worker = worker_task(task, "reply");
    assert_eq!(worker.ctx, Ctx { tenant: 3 });
    assert_eq!(worker.transactions, vec![10, 11]);
    assert_eq!(worker.result, "reply");
}

#[test]
fn default_add_task_is_empty() {
    let task: AddTask<u8> = AddTask::default();
    assert_eq!(task.tenant_id, 0);
    assert!(task.transactions.is_empty());
    assert_eq!(Ctx::default().tenant, 0);
}

#[test]
fn next_block_env_advances_number_and_time() {
    let latest = env(41);
    let next = next_block_env(&latest, 5_000);
    assert_eq!(next.number, 42);
    assert_eq!(next.timestamp, 5_000);
    assert_eq!(next.l1_gas_prices, latest.l1_gas_prices);
    assert_eq!(next.sequencer_address, latest.sequencer_address);
}

#[test]
fn executable_block_takes_header_from_env() {
    let e = env(42);
    let parent = Felt { bytes: [1; 32] };
    let block = executable_block(vec!["tx1", "tx2"], parent, &e, "0.13.1".to_string());
    assert_eq!(block.body, vec!["tx1", "tx2"]);
    assert_eq!(block.header.parent_hash, parent);
    assert_eq!(block.header.number, 42);
    assert_eq!(block.header.timestamp, 1_000);
    assert_eq!(block.header.version, "0.13.1");
    assert_eq!(block.header.gas_prices, GasPrices { eth: 7, strk: 9 });
    assert_eq!(block.header.sequencer_address, Felt { bytes: [3; 32] });
}

#[test]
fn executor_accepts_everything() {
    let mut executor = Executor;
    let block = executable_block(vec![1u8], Felt { bytes: [0; 32] }, &env(1), String::new());
    assert_eq!(executor.execute_block(&block), Ok(()));
    assert_eq!(executor.execute_transactions(&vec![1u8, 2]), Ok(()));
}

fn request(tenant: u8, output: &'static str) -> Request<&'static str> {
    Request { tenant, env: env(1), execution_output: output }
}

fn service() -> BlockProducerService<String, (String, &'static str), &'static str> {
    let mut backends = HashMap::new();
    backends.insert(0u8, "backend-0".to_string());
    backends.insert(1u8, "backend-1".to_string());
    BlockProducerService::new(backends)
}

fn mine(backend: &String, request: Request<&'static str>) -> (String, &'static str) {
    (backend.clone(), request.execution_output)
}

#[test]
fn queued_requests_are_handled_last_first() {
    let mut svc = service();
    svc.handle_queued(mine);
    assert!(svc.ongoing_tasks().is_empty());
    svc.enqueue(request(0, "a"));
    svc.enqueue(request(1, "b"));
    assert!(svc.queued_backends_known());
    svc.handle_queued(mine);
    assert_eq!(
        svc.ongoing_tasks(),
        &vec![("backend-1".to_string(), "b"), ("backend-0".to_string(), "a")]
    );
    // nothing is left queued
    svc.handle_queued(mine);
    assert_eq!(svc.ongoing_tasks().len(), 2);
}

#[test]
fn unknown_tenant_in_queue_is_detected() {
    let mut svc = service();
    svc.enqueue(request(0, "a"));
    svc.enqueue(request(7, "b"));
    assert!(!svc.queued_backends_known());
}

#[test]
fn handled_request_runs_on_its_tenants_backend() {
    let mut svc = service();
    assert_eq!(svc.poll_outcome(false), PollOutcome::Pending);
    assert!(svc.has_backend(1));
    assert!(!svc.has_backend(2));
    svc.handle_request(request(1, "out"), mine);
    assert_eq!(svc.poll_outcome(false), PollOutcome::Again);
    assert_eq!(svc.ongoing_tasks(), &vec![("backend-1".to_string(), "out")]);
    // the one task under way is dropped once it has finished
    svc.retain_pending(&vec![false]);
    assert_eq!(svc.poll_outcome(false), PollOutcome::Pending);
}

#[test]
fn finished_tasks_are_dropped_and_pending_ones_kept() {
    let mut svc = service();
    for (tenant, out) in [(0, "a"), (1, "b"), (0, "c"), (1, "d"), (0, "e")] {
        svc.handle_request(request(tenant, out), mine);
    }
    // tasks a, c, e have finished; b and d are still pending
    svc.retain_pending(&vec![false, true, false, true, false]);
    let left: Vec<&str> = svc.ongoing_tasks().iter().map(|t| t.1).collect();
    assert_eq!(left, vec!["b", "d"]);
    assert!(svc.ongoing_tasks().iter().all(|t| t.0 == "backend-1"));
    svc.retain_pending(&vec![true, true]);
    assert_eq!(svc.poll_outcome(false), PollOutcome::Again);
    svc.retain_pending(&vec![false, false]);
    assert_eq!(svc.poll_outcome(false), PollOutcome::Pending);
}

#[test]
fn sweep_leaves_pending_tasks_in_its_own_order() {
    let mut svc = service();
    for (tenant, out) in [(0, "a"), (1, "b"), (0, "c")] {
        svc.handle_request(request(tenant, out), mine);
    }
    svc.retain_pending(&vec![true, true, true]);
    let left: Vec<&str> = svc.ongoing_tasks().iter().map(|t| t.1).collect();
    assert_eq!(left, vec!["b", "c", "a"]);
    svc.retain_pending(&vec![false, true, true]);
    let left: Vec<&str> = svc.ongoing_tasks().iter().map(|t| t.1).collect();
    assert_eq!(left, vec!["c", "a"]);
}

#[test]
fn closed_channel_finishes_the_service() {
    let mut svc = service();
    assert_eq!(svc.poll_outcome(true), PollOutcome::Ready);
    svc.handle_request(request(0, "a"), mine);
    assert_eq!(svc.poll_outcome(true), PollOutcome::Ready);
    assert_eq!(svc.poll_outcome(false), PollOutcome::Again);
}

#[test]
fn next_block_builds_on_the_latest_block() {
    let latest = env(41);
    let hash = Felt { bytes: [5; 32] };
    let (next, block) = next_block(hash, &latest, 2_000, vec![1u8, 2, 3], "0.13.1".to_string());
    assert_eq!(next.number, 42);
    assert_eq!(next.timestamp, 2_000);
    assert_eq!(next.l1_gas_prices, latest.l1_gas_prices);
    assert_eq!(next.sequencer_address, latest.sequencer_address);
    assert_eq!(block.body, vec![1, 2, 3]);
    assert_eq!(block.header.parent_hash, hash);
    assert_eq!(block.header.number, 42);
    assert_eq!(block.header.timestamp, 2_000);
    assert_eq!(block.header.version, "0.13.1");
    assert_eq!(block.header.gas_prices, latest.l1_gas_prices);
    assert_eq!(block.header.sequencer_address, latest.sequencer_address);
}
