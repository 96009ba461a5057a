use indexer::codec::U256;
use indexer::engine::{
    plan_log_inserts, prepare_txs_and_logs, InsertError, TransactionWithLogs,
    INSERT_LOGS_BATCH_SIZE,
};
use indexer::rows::{Block, DbBlock, DbLog, DbTransaction, Log, Transaction};

fn tx(index: u32) -> Transaction {
    Transaction {
        gw_tx_hash: vec![index as u8; 32],
        eth_tx_hash: vec![0xee, index as u8],
        block_number: 7,
        block_hash: vec![0xbb; 32],
        transaction_index: index,
        from_address: vec![0x11; 20],
        to_address: if index % 2 == 0 { Some(vec![0x22; 20]) } else { None },
        value: U256::from_u128(1_000_000_000_000_000_000),
        nonce: index + 3,
        gas_limit: 21000,
        gas_price: 5,
        data: vec![1, 2, 3],
        v: 27,
        r: vec![0x33; 32],
        s: vec![0x44; 32],
        cumulative_gas_used: 42000,
        gas_used: 21000,
        contract_address: None,
        exit_code: 0,
    }
}

fn log(tx_index: u32, log_index: u32, topics: Vec<Vec<u8>>) -> Log {
    Log {
        transaction_hash: vec![tx_index as u8; 32],
        transaction_index: tx_index,
        block_number: 7,
        block_hash: vec![0xbb; 32],
        address: vec![0x55; 20],
        data: vec![log_index as u8],
        log_index,
        topics,
    }
}

fn batch_with_log_counts(counts: &[u32]) -> Vec<TransactionWithLogs> {
    let mut batch = Vec::new();
    let mut next_log = 0u32;
    for (i, n) in counts.iter().enumerate() {
        let mut logs = Vec::new();
        for _ in 0..*n {
            logs.push(log(i as u32, next_log, vec![vec![9u8; 32]]));
            next_log += 1;
        }
        batch.push(TransactionWithLogs { tx: tx(i as u32), logs });
    }
    batch
}

fn digits(d: &indexer::codec::DecimalValue) -> String {
    String::from_utf8(d.digits().clone()).unwrap()
}

#[test]
fn block_row_keeps_fields() {
    let block = Block {
        number: 12,
        hash: vec![1; 32],
        parent_hash: vec![2; 32],
        gas_limit: u128::MAX,
        gas_used: 0,
        timestamp: 1_650_000_000,
        miner: vec![3; 20],
        size: 999,
    };
    let row = DbBlock::try_from(block).unwrap();
    assert_eq!(row.number, 12);
    assert_eq!(row.hash, vec![1; 32]);
    assert_eq!(row.parent_hash, vec![2; 32]);
    assert_eq!(digits(&row.gas_limit), "340282366920938463463374607431768211455");
    assert_eq!(digits(&row.gas_used), "0");
    assert_eq!(row.timestamp, 1_650_000_000);
    assert_eq!(row.miner, vec![3; 20]);
    assert_eq!(row.size, 999);
}

#[test]
fn transaction_row_keeps_fields() {
    let row = DbTransaction::try_from(tx(2)).unwrap();
    assert_eq!(row.hash, vec![2; 32]);
    assert_eq!(row.eth_tx_hash, vec![0xee, 2]);
    assert_eq!(row.transaction_index, 2);
    assert_eq!(row.to_address, Some(vec![0x22; 20]));
    assert_eq!(digits(&row.value), "1000000000000000000");
    assert_eq!(digits(&row.gas_limit), "21000");
    assert_eq!(digits(&row.gas_price), "5");
    assert_eq!(digits(&row.cumulative_gas_used), "42000");
    assert_eq!(digits(&row.gas_used), "21000");
    assert_eq!(row.nonce, 5);
    assert_eq!(row.input, vec![1, 2, 3]);
    assert_eq!(row.contract_address, None);
}

#[test]
fn log_row_keeps_fields_and_key() {
    let row = DbLog::try_from_log(log(4, 9, vec![vec![1; 32], vec![2; 32]]), 4).unwrap();
    assert_eq!(row.transaction_id, 4);
    assert_eq!(row.log_index, 9);
    assert_eq!(row.topics, vec![vec![1; 32], vec![2; 32]]);
    assert_eq!(row.data, vec![9]);
}

#[test]
fn empty_batch_gives_no_rows_and_no_statements() {
    let p = prepare_txs_and_logs(Vec::new()).unwrap();
    assert_eq!(p.transactions.len(), 0);
    assert_eq!(p.logs.len(), 0);
    let chunks = plan_log_inserts(p.logs, &Vec::new(), 0, INSERT_LOGS_BATCH_SIZE).unwrap();
    assert_eq!(chunks.len(), 0);
}

#[test]
fn batch_without_logs_gives_no_log_statements() {
    let p = prepare_txs_and_logs(batch_with_log_counts(&[0, 0, 0])).unwrap();
    assert_eq!(p.transactions.len(), 3);
    let chunks = plan_log_inserts(p.logs, &vec![10, 11, 12], 3, INSERT_LOGS_BATCH_SIZE).unwrap();
    assert_eq!(chunks.len(), 0);
}

#[test]
fn two_transactions_second_with_three_logs() {
    let t1 = vec![0xa1u8; 32];
    let t2 = vec![0xa2u8; 32];
    let batch = vec![
        TransactionWithLogs { tx: tx(0), logs: vec![] },
        TransactionWithLogs {
            tx: tx(1),
            logs: vec![
                log(1, 0, vec![t1.clone()]),
                log(1, 1, vec![t1.clone(), t2.clone()]),
                log(1, 2, vec![]),
            ],
        },
    ];
    let p = prepare_txs_and_logs(batch).unwrap();
    assert_eq!(p.transactions.len(), 2);
    assert_eq!(p.transactions[0].transaction_index, 0);
    assert_eq!(p.transactions[1].transaction_index, 1);
    assert_eq!(p.logs.len(), 3);
    assert!(p.logs.iter().all(|l| l.transaction_id == 1));
    let ids: Vec<i64> = vec![501, 502];
    let txs_len = p.transactions.len();
    let logs_len = p.logs.len();
    let chunks = plan_log_inserts(p.logs, &ids, txs_len, INSERT_LOGS_BATCH_SIZE).unwrap();
    assert_eq!(chunks.len(), 1);
    let rows = &chunks[0];
    assert_eq!(rows.len(), 3);
    assert!(rows.iter().all(|l| l.transaction_id == 502));
    assert_eq!(rows[0].topics, vec![t1.clone()]);
    assert_eq!(rows[1].topics, vec![t1.clone(), t2.clone()]);
    assert_eq!(rows[2].topics, Vec::<Vec<u8>>::new());
    assert_eq!((txs_len, logs_len), (2, 3));
}

#[test]
fn twelve_thousand_logs_make_three_statements() {
    let p = prepare_txs_and_logs(batch_with_log_counts(&[5000, 0, 4000, 3000])).unwrap();
    assert_eq!(p.logs.len(), 12000);
    let ids: Vec<i64> = vec![100, 200, 300, 400];
    let chunks = plan_log_inserts(p.logs, &ids, 4, INSERT_LOGS_BATCH_SIZE).unwrap();
    let sizes: Vec<usize> = chunks.iter().map(|c| c.len()).collect();
    assert_eq!(sizes, vec![5000, 5000, 2000]);
    let rows: Vec<&DbLog> = chunks.iter().flatten().collect();
    assert_eq!(rows.len(), 12000);
    for (k, row) in rows.iter().enumerate() {
        assert_eq!(row.log_index as usize, k);
        let expected = if k < 5000 { 100 } else if k < 9000 { 300 } else { 400 };
        assert_eq!(row.transaction_id, expected);
        assert_eq!(row.transaction_index as i64 * 100 + 100, expected);
    }
}

#[test]
fn interleaved_empty_transactions_keep_correlation() {
    let p = prepare_txs_and_logs(batch_with_log_counts(&[0, 2, 0, 0, 1, 3, 0])).unwrap();
    let ids: Vec<i64> = vec![70, 71, 72, 73, 74, 75, 76];
    let chunks = plan_log_inserts(p.logs, &ids, 7, 2).unwrap();
    let sizes: Vec<usize> = chunks.iter().map(|c| c.len()).collect();
    assert_eq!(sizes, vec![2, 2, 2]);
    let keys: Vec<i64> = chunks.iter().flatten().map(|l| l.transaction_id).collect();
    assert_eq!(keys, vec![71, 71, 74, 75, 75, 75]);
}

#[test]
fn chunk_size_does_not_change_rows() {
    let ids: Vec<i64> = vec![8, 9, 10];
    let mut flattened: Vec<Vec<DbLog>> = Vec::new();
    for size in [1usize, 5000, 100_000] {
        let p = prepare_txs_and_logs(batch_with_log_counts(&[3, 0, 4])).unwrap();
        let chunks = plan_log_inserts(p.logs, &ids, 3, size).unwrap();
        if size == 1 {
            assert_eq!(chunks.len(), 7);
        } else {
            assert_eq!(chunks.len(), 1);
        }
        flattened.push(chunks.into_iter().flatten().collect());
    }
    assert_eq!(flattened[0], flattened[1]);
    assert_eq!(flattened[1], flattened[2]);
    assert_eq!(flattened[0].len(), 7);
}

#[test]
fn id_count_mismatch_is_an_error() {
    let p = prepare_txs_and_logs(batch_with_log_counts(&[1, 1])).unwrap();
    let r = plan_log_inserts(p.logs, &vec![1], 2, INSERT_LOGS_BATCH_SIZE);
    assert!(matches!(r, Err(InsertError::IdCountMismatch { expected: 2, returned: 1 })));
}

#[test]
fn unknown_correlation_key_is_an_error() {
    let row = DbLog::try_from_log(log(0, 0, vec![]), 5).unwrap();
    let r = plan_log_inserts(vec![row], &vec![1, 2], 2, INSERT_LOGS_BATCH_SIZE);
    assert!(matches!(r, Err(InsertError::UnknownTransaction { key: 5 })));
    let negative = DbLog::try_from_log(log(0, 0, vec![]), -1).unwrap();
    let r = plan_log_inserts(vec![negative], &vec![1, 2], 2, INSERT_LOGS_BATCH_SIZE);
    assert!(matches!(r, Err(InsertError::UnknownTransaction { key: -1 })));
}
