use vstd::prelude::*;

verus! {

/// A field element, as its 32 big-endian bytes: block hashes and contract
/// addresses are such elements.
#[derive(Clone, Copy, Debug, PartialEq, Eq)]
pub struct Felt {
    pub bytes: [u8; 32],
}

/// The L1 gas prices, in wei and in fri.
#[derive(Clone, Copy, Debug, PartialEq, Eq)]
pub struct GasPrices {
    pub eth: u128,
    pub strk: u128,
}

/// The environment a block is executed in.
#[derive(Clone, Copy, Debug, PartialEq, Eq)]
pub struct BlockEnv {
    pub number: u64,
    pub timestamp: u64,
    pub l1_gas_prices: GasPrices,
    pub sequencer_address: Felt,
}

/// The header of a block that has not been executed yet.
#[derive(Clone, Debug)]
pub struct PartialHeader {
    pub parent_hash: Felt,
    pub number: u64,
    pub timestamp: u64,
    pub version: String,
    pub gas_prices: GasPrices,
    pub sequencer_address: Felt,
}

/// A block ready to be executed: its header and its transactions.
pub struct ExecutableBlock<T> {
    pub header: PartialHeader,
    pub body: Vec<T>,
}

/// The environment of the block that follows the one of `latest`, opened at time
/// `now`: the next number, the new time, the same prices and sequencer.
pub fn next_block_env(latest: &BlockEnv, now: u64) -> (env: BlockEnv)
    requires
        latest.number < u64::MAX,
    ensures
        env.number == latest.number + 1,
        env.timestamp == now,
        env.l1_gas_prices == latest.l1_gas_prices,
        env.sequencer_address == latest.sequencer_address,
{
    let mut env = *latest;
    env.number = env.number + 1;
    env.timestamp = now;
    env
}

/// The block of `transactions` to execute in `env`, on top of the block `parent_hash`.
pub fn executable_block<T>(transactions: Vec<T>, parent_hash: Felt, env: &BlockEnv, version: String) -> (block: ExecutableBlock<T>)
    ensures
        block.body@ == transactions@,
        block.header.parent_hash == parent_hash,
        block.header.number == env.number,
        block.header.timestamp == env.timestamp,
        block.header.version@ == version@,
        block.header.gas_prices == env.l1_gas_prices,
        block.header.sequencer_address == env.sequencer_address,
{
    ExecutableBlock {
        body: transactions,
        header: PartialHeader {
            parent_hash,
            number: env.number,
            timestamp: env.timestamp,
            version,
            gas_prices: env.l1_gas_prices,
            sequencer_address: env.sequencer_address,
        },
    }
}

/// What a worker builds to run `transactions` on top of the latest block of a
/// tenant, whose hash is `latest_hash` and whose environment is `latest`: the
/// environment of the next block, opened at `now`, and the block itself, which
/// names the latest block as its parent. The environment is what the block
/// producer is handed along with the execution output.
pub fn next_block<T>(
    latest_hash: Felt,
    latest: &BlockEnv,
    now: u64,
    transactions: Vec<T>,
    version: String,
) -> (next: (BlockEnv, ExecutableBlock<T>))
    requires
        latest.number < u64::MAX,
    ensures
        next.0.number == latest.number + 1,
        next.0.timestamp == now,
        next.0.l1_gas_prices == latest.l1_gas_prices,
        next.0.sequencer_address == latest.sequencer_address,
        next.1.body@ == transactions@,
        next.1.header.parent_hash == latest_hash,
        next.1.header.number == latest.number + 1,
        next.1.header.timestamp == now,
        next.1.header.version@ == version@,
        next.1.header.gas_prices == latest.l1_gas_prices,
        next.1.header.sequencer_address == latest.sequencer_address,
{
    let env = next_block_env(latest, now);
    let block = executable_block(transactions, latest_hash, &env, version);
    (env, block)
}

} // verus!
