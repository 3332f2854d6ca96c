use vstd::prelude::*;

use crate::block::ExecutableBlock;

verus! {

/// What can go wrong while executing transactions.
#[derive(Debug, Clone, PartialEq, Eq)]
pub enum ExecutorError {
    Other(String),
}

/// The executor that the runtime hands blocks to. It accepts every block and every
/// batch of transactions without changing any state.
pub struct Executor;

impl Executor {
    /// Executes `block`: it always succeeds.
    pub fn execute_block<T>(&mut self, block: &ExecutableBlock<T>) -> (res: Result<(), ExecutorError>)
        ensures
            res == Ok::<(), ExecutorError>(()),
    {
        Ok(())
    }

    /// Executes `transactions` outside of a block: it always succeeds.
    pub fn execute_transactions<T>(&mut self, transactions: &Vec<T>) -> (res: Result<(), ExecutorError>)
        ensures
            res == Ok::<(), ExecutorError>(()),
    {
        Ok(())
    }
}

} // verus!
