use vstd::prelude::*;
use crate::codec::{
    decimal_text, u128_to_big_decimal, u256_to_big_decimal, ConversionError, DecimalValue, U256,
};

verus! {

/// A decoded block.
pub struct Block {
    pub number: u64,
    pub hash: Vec<u8>,
    pub parent_hash: Vec<u8>,
    pub gas_limit: u128,
    pub gas_used: u128,
    /// Seconds since the Unix epoch.
    pub timestamp: i64,
    pub miner: Vec<u8>,
    pub size: u64,
}

/// A decoded transaction of a block.
pub struct Transaction {
    pub gw_tx_hash: Vec<u8>,
    /// The secondary hash derived from the transaction's contents.
    pub eth_tx_hash: Vec<u8>,
    pub block_number: u64,
    pub block_hash: Vec<u8>,
    pub transaction_index: u32,
    pub from_address: Vec<u8>,
    pub to_address: Option<Vec<u8>>,
    pub value: U256,
    pub nonce: u32,
    pub gas_limit: u128,
    pub gas_price: u128,
    pub data: Vec<u8>,
    pub v: u64,
    pub r: Vec<u8>,
    pub s: Vec<u8>,
    pub cumulative_gas_used: u128,
    pub gas_used: u128,
    pub contract_address: Option<Vec<u8>>,
    pub exit_code: u8,
}

/// A decoded log emitted by a transaction.
pub struct Log {
    pub transaction_hash: Vec<u8>,
    pub transaction_index: u32,
    pub block_number: u64,
    pub block_hash: Vec<u8>,
    pub address: Vec<u8>,
    pub data: Vec<u8>,
    pub log_index: u32,
    pub topics: Vec<Vec<u8>>,
}

/// The row stored for a block.
#[derive(Debug)]
pub struct DbBlock {
    pub number: u64,
    pub hash: Vec<u8>,
    pub parent_hash: Vec<u8>,
    pub gas_limit: DecimalValue,
    pub gas_used: DecimalValue,
    pub timestamp: i64,
    pub miner: Vec<u8>,
    pub size: u64,
}

/// The row stored for a transaction.
#[derive(Debug)]
pub struct DbTransaction {
    pub hash: Vec<u8>,
    pub eth_tx_hash: Vec<u8>,
    pub block_number: u64,
    pub block_hash: Vec<u8>,
    pub transaction_index: u32,
    pub from_address: Vec<u8>,
    pub to_address: Option<Vec<u8>>,
    pub value: DecimalValue,
    pub nonce: u32,
    pub gas_limit: DecimalValue,
    pub gas_price: DecimalValue,
    pub input: Vec<u8>,
    pub v: u64,
    pub r: Vec<u8>,
    pub s: Vec<u8>,
    pub cumulative_gas_used: DecimalValue,
    pub gas_used: DecimalValue,
    pub contract_address: Option<Vec<u8>>,
    pub exit_code: u8,
}

/// The row stored for a log. Before the transactions are inserted, `transaction_id`
/// holds the batch position of the parent transaction; afterwards, its stored identifier.
#[derive(Debug, Clone, PartialEq, Eq)]
pub struct DbLog {
    pub transaction_id: i64,
    pub transaction_hash: Vec<u8>,
    pub transaction_index: u32,
    pub block_number: u64,
    pub block_hash: Vec<u8>,
    pub address: Vec<u8>,
    pub data: Vec<u8>,
    pub log_index: u32,
    pub topics: Vec<Vec<u8>>,
}

/// `d` is the exact decimal of `n`.
pub open spec fn decimal_of(d: DecimalValue, n: nat) -> bool {
    d.text() == decimal_text(n) && d.value() == n
}

/// `row` is the stored form of `block`.
pub open spec fn block_row_of(block: Block, row: DbBlock) -> bool {
    &&& row.number == block.number
    &&& row.hash == block.hash
    &&& row.parent_hash == block.parent_hash
    &&& decimal_of(row.gas_limit, block.gas_limit as nat)
    &&& decimal_of(row.gas_used, block.gas_used as nat)
    &&& row.timestamp == block.timestamp
    &&& row.miner == block.miner
    &&& row.size == block.size
}

/// `row` is the stored form of `tx`.
pub open spec fn transaction_row_of(tx: Transaction, row: DbTransaction) -> bool {
    &&& row.hash == tx.gw_tx_hash
    &&& row.eth_tx_hash == tx.eth_tx_hash
    &&& row.block_number == tx.block_number
    &&& row.block_hash == tx.block_hash
    &&& row.transaction_index == tx.transaction_index
    &&& row.from_address == tx.from_address
    &&& row.to_address == tx.to_address
    &&& decimal_of(row.value, tx.value.value())
    &&& row.nonce == tx.nonce
    &&& decimal_of(row.gas_limit, tx.gas_limit as nat)
    &&& decimal_of(row.gas_price, tx.gas_price as nat)
    &&& row.input == tx.data
    &&& row.v == tx.v
    &&& row.r == tx.r
    &&& row.s == tx.s
    &&& decimal_of(row.cumulative_gas_used, tx.cumulative_gas_used as nat)
    &&& decimal_of(row.gas_used, tx.gas_used as nat)
    &&& row.contract_address == tx.contract_address
    &&& row.exit_code == tx.exit_code
}

/// The stored form of `log`, linked to the transaction `transaction_id`.
pub open spec fn log_row(log: Log, transaction_id: i64) -> DbLog {
    DbLog {
        transaction_id,
        transaction_hash: log.transaction_hash,
        transaction_index: log.transaction_index,
        block_number: log.block_number,
        block_hash: log.block_hash,
        address: log.address,
        data: log.data,
        log_index: log.log_index,
        topics: log.topics,
    }
}

impl DbBlock {
    /// Maps a block to its row.
    pub fn try_from(block: Block) -> (r: Result<DbBlock, ConversionError>)
        ensures
            r matches Ok(row) && block_row_of(block, row),
    {
        let gas_limit = match u128_to_big_decimal(&block.gas_limit) {
            Ok(d) => d,
            Err(e) => return Err(e),
        };
        let gas_used = match u128_to_big_decimal(&block.gas_used) {
            Ok(d) => d,
            Err(e) => return Err(e),
        };
        Ok(DbBlock {
            number: block.number,
            hash: block.hash,
            parent_hash: block.parent_hash,
            gas_limit,
            gas_used,
            timestamp: block.timestamp,
            miner: block.miner,
            size: block.size,
        })
    }
}

impl DbTransaction {
    /// Maps a transaction to its row.
    pub fn try_from(tx: Transaction) -> (r: Result<DbTransaction, ConversionError>)
        ensures
            r matches Ok(row) && transaction_row_of(tx, row),
    {
        let value = match u256_to_big_decimal(&tx.value) {
            Ok(d) => d,
            Err(e) => return Err(e),
        };
        let gas_limit = match u128_to_big_decimal(&tx.gas_limit) {
            Ok(d) => d,
            Err(e) => return Err(e),
        };
        let gas_price = match u128_to_big_decimal(&tx.gas_price) {
            Ok(d) => d,
            Err(e) => return Err(e),
        };
        let cumulative_gas_used = match u128_to_big_decimal(&tx.cumulative_gas_used) {
            Ok(d) => d,
            Err(e) => return Err(e),
        };
        let gas_used = match u128_to_big_decimal(&tx.gas_used) {
            Ok(d) => d,
            Err(e) => return Err(e),
        };
        Ok(DbTransaction {
            hash: tx.gw_tx_hash,
            eth_tx_hash: tx.eth_tx_hash,
            block_number: tx.block_number,
            block_hash: tx.block_hash,
            transaction_index: tx.transaction_index,
            from_address: tx.from_address,
            to_address: tx.to_address,
            value,
            nonce: tx.nonce,
            gas_limit,
            gas_price,
            input: tx.data,
            v: tx.v,
            r: tx.r,
            s: tx.s,
            cumulative_gas_used,
            gas_used,
            contract_address: tx.contract_address,
            exit_code: tx.exit_code,
        })
    }
}

impl DbLog {
    /// Maps a log to its row, linked to the transaction `transaction_id`.
    pub fn try_from_log(log: Log, transaction_id: i64) -> (r: Result<DbLog, ConversionError>)
        ensures
            r == Ok::<DbLog, ConversionError>(log_row(log, transaction_id)),
    {
        Ok(
            DbLog {
                transaction_id,
                transaction_hash: log.transaction_hash,
                transaction_index: log.transaction_index,
                block_number: log.block_number,
                block_hash: log.block_hash,
                address: log.address,
                data: log.data,
                log_index: log.log_index,
                topics: log.topics,
            },
        )
    }
}

} // verus!
