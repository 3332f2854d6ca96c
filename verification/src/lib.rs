//! A multi-tenant execution runtime: the tenant database registry and its key
//! layout, the task queue and worker pool of the runtime, the block environment of
//! each new block, and the bookkeeping of the block production service.

pub mod block;
pub mod codec;
pub mod executor;
pub mod producer;
pub mod scheduler;
pub mod tenants;
