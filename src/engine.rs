use vstd::prelude::*;
use rayon::prelude::{IndexedParallelIterator, IntoParallelIterator, ParallelIterator};
use itertools::Itertools;
use crate::codec::ConversionError;
use crate::rows::{log_row, transaction_row_of, DbLog, DbTransaction, Log, Transaction};

verus! {

/// How many log rows one insert statement carries at most.
pub const INSERT_LOGS_BATCH_SIZE: usize = 5000;

/// A transaction together with the logs it emitted, in order.
pub struct TransactionWithLogs {
    pub tx: Transaction,
    pub logs: Vec<Log>,
}

/// Why a batch could not be written.
#[derive(Debug)]
pub enum InsertError {
    /// A wide integer could not be turned into a decimal.
    Conversion(ConversionError),
    /// The store returned another number of identifiers than transactions were inserted.
    IdCountMismatch { expected: usize, returned: usize },
    /// A log names a batch position for which no identifier was returned.
    UnknownTransaction { key: i64 },
}

/// The rows of one batch, ready to insert. Each log row holds, as its
/// `transaction_id`, the batch position of its transaction.
pub struct PreparedBatch {
    pub transactions: Vec<DbTransaction>,
    pub logs: Vec<DbLog>,
}

/// The logs of a batch in order, each with the batch position of its transaction.
pub open spec fn keyed_logs(batch: Seq<TransactionWithLogs>) -> Seq<(Log, int)>
    decreases batch.len(),
{
    if batch.len() == 0 {
        Seq::empty()
    } else {
        let i = batch.len() - 1;
        keyed_logs(batch.drop_last()) + batch[i].logs@.map_values(|l: Log| (l, i))
    }
}

/// `logs` are the log rows of `batch`, in order, each keyed by its transaction's position.
pub open spec fn logs_of_batch(batch: Seq<TransactionWithLogs>, logs: Seq<DbLog>) -> bool {
    &&& logs.len() == keyed_logs(batch).len()
    &&& forall|k: int|
        0 <= k < logs.len() ==> #[trigger] logs[k] == log_row(
            keyed_logs(batch)[k].0,
            keyed_logs(batch)[k].1 as i64,
        )
}

/// `p` holds the rows of `batch`: one transaction row per transaction in batch order,
/// and the keyed log rows.
pub open spec fn prepared_from(batch: Seq<TransactionWithLogs>, p: PreparedBatch) -> bool {
    &&& p.transactions@.len() == batch.len()
    &&& forall|i: int|
        0 <= i < batch.len() ==> transaction_row_of(
            #[trigger] batch[i].tx,
            p.transactions@[i],
        )
    &&& logs_of_batch(batch, p.logs@)
}

/// What mapping one entry at batch position `index` gives.
pub open spec fn entry_mapped(
    entry: TransactionWithLogs,
    index: int,
    r: Result<(DbTransaction, Vec<DbLog>), ConversionError>,
) -> bool {
    r matches Ok((t, ls)) && transaction_row_of(entry.tx, t) && ls@ =~= entry.logs@.map_values(
        |l: Log| log_row(l, index as i64),
    )
}

/// What mapping one log for the transaction `transaction_id` gives.
pub open spec fn log_mapped(log: Log, transaction_id: i64, r: Result<DbLog, ConversionError>) -> bool {
    r == Ok::<DbLog, ConversionError>(log_row(log, transaction_id))
}

/// `chunks` split `s` into consecutive non-empty groups of `size`, the last one
/// possibly shorter.
pub open spec fn chunked<T>(s: Seq<T>, size: nat, chunks: Seq<Seq<T>>) -> bool {
    &&& chunks.flatten() == s
    &&& forall|i: int|
        0 <= i < chunks.len() ==> 0 < #[trigger] chunks[i].len() <= size && (i < chunks.len() - 1
            ==> chunks[i].len() == size)
}

/// The views of a sequence of vectors.
pub open spec fn views<T>(v: Seq<Vec<T>>) -> Seq<Seq<T>> {
    v.map_values(|c: Vec<T>| c@)
}

/// Every log row names a batch position below `n`.
pub open spec fn keys_below(logs: Seq<DbLog>, n: nat) -> bool {
    forall|k: int| 0 <= k < logs.len() ==> 0 <= #[trigger] logs[k].transaction_id < n
}

/// The log row `row` with its batch position replaced by the identifier found there in `ids`.
pub open spec fn resolved(row: DbLog, ids: Seq<i64>) -> DbLog {
    DbLog { transaction_id: ids[row.transaction_id as int], ..row }
}

/// `chunks` are the statements for `logs` once `ids` are known: the resolved rows, in order,
/// split by `size`.
pub open spec fn log_plan(logs: Seq<DbLog>, ids: Seq<i64>, size: nat, chunks: Seq<Seq<DbLog>>) -> bool {
    &&& chunked(logs.map_values(|l: DbLog| resolved(l, ids)), size, chunks)
}

/// Relies on rayon's indexed parallel iterator: every entry is mapped with its position, and
/// collecting into a `Vec` keeps the input order.
#[verifier::external_body]
fn par_map_entries(batch: Vec<TransactionWithLogs>) -> (r: Vec<
    Result<(DbTransaction, Vec<DbLog>), ConversionError>,
>)
    requires
        batch@.len() <= i64::MAX,
    ensures
        r@.len() == batch@.len(),
        forall|i: int| 0 <= i < batch@.len() ==> entry_mapped(batch@[i], i, #[trigger] r@[i]),
{
    batch.into_par_iter().enumerate().map(|(i, entry)| map_entry(entry, i)).collect()
}

/// Relies on rayon's indexed parallel iterator: every log is mapped, and collecting into a
/// `Vec` keeps the input order.
#[verifier::external_body]
fn par_map_logs(logs: Vec<Log>, transaction_id: i64) -> (r: Vec<Result<DbLog, ConversionError>>)
    ensures
        r@.len() == logs@.len(),
        forall|k: int| 0 <= k < r@.len() ==> log_mapped(logs@[k], transaction_id, #[trigger] r@[k]),
{
    logs.into_par_iter().map(|l| DbLog::try_from_log(l, transaction_id)).collect()
}

/// Relies on itertools' `chunks`: consecutive groups of `size` items in order, the last
/// possibly shorter, none empty. It panics on a size of zero.
#[verifier::external_body]
fn chunk_rows(rows: Vec<DbLog>, size: usize) -> (r: Vec<Vec<DbLog>>)
    requires
        size > 0,
    ensures
        chunked(rows@, size as nat, views(r@)),
{
    rows.into_iter().chunks(size).into_iter().map(|chunk| chunk.collect()).collect()
}

/// The items of `v` in reverse order.
fn reversed<T>(v: Vec<T>) -> (r: Vec<T>)
    ensures
        r@ == v@.reverse(),
{
    let ghost orig = v@;
    let mut v = v;
    let mut r: Vec<T> = Vec::new();
    while v.len() > 0
        invariant
            v@ == orig.take(v@.len() as int),
            r@ == orig.skip(v@.len() as int).reverse(),
            v@.len() <= orig.len(),
        decreases v.len(),
    {
        let ghost n = v@.len() as int;
        let x = v.pop().unwrap();
        r.push(x);
        assert(orig.skip(n - 1) =~= seq![orig[n - 1]] + orig.skip(n));
        assert(orig.skip(n - 1).reverse() =~= orig.skip(n).reverse().push(orig[n - 1]));
        assert(v@ =~= orig.take(n - 1));
    }
    assert(orig.skip(0) =~= orig);
    r
}

/// Maps one transaction and its logs; each log row is linked to the batch position `index`.
fn map_entry(entry: TransactionWithLogs, index: usize) -> (r: Result<
    (DbTransaction, Vec<DbLog>),
    ConversionError,
>)
    requires
        index <= i64::MAX,
    ensures
        entry_mapped(entry, index as int, r),
{
    let tx = match DbTransaction::try_from(entry.tx) {
        Ok(t) => t,
        Err(e) => return Err(e),
    };
    let ghost src = entry.logs@;
    let mapped = par_map_logs(entry.logs, index as i64);
    let ghost m = mapped@;
    let mut rest = reversed(mapped);
    let mut rows: Vec<DbLog> = Vec::new();
    while rest.len() > 0
        invariant
            m.len() == src.len(),
            forall|k: int| 0 <= k < src.len() ==> log_mapped(src[k], index as i64, #[trigger] m[k]),
            rest@.len() + rows@.len() == src.len(),
            forall|k: int| 0 <= k < rest@.len() ==> #[trigger] rest@[k] == m[m.len() - 1 - k],
            rows@ =~= src.take(rows@.len() as int).map_values(|l: Log| log_row(l, index as i64)),
        decreases rest.len(),
    {
        let ghost j = rows@.len() as int;
        let mapped_log = rest.pop().unwrap();
        assert(mapped_log == m[j]);
        let row = match mapped_log {
            Ok(row) => row,
            Err(e) => return Err(e),
        };
        rows.push(row);
        assert(src.take(j + 1) =~= src.take(j).push(src[j]));
    }
    assert(src.take(src.len() as int) =~= src);
    Ok((tx, rows))
}

proof fn lemma_keyed_logs_step(batch: Seq<TransactionWithLogs>, i: int)
    requires
        0 <= i < batch.len(),
    ensures
        keyed_logs(batch.take(i + 1)) == keyed_logs(batch.take(i)) + batch[i].logs@.map_values(
            |l: Log| (l, i),
        ),
{
    assert(batch.take(i + 1).drop_last() =~= batch.take(i));
}

/// Maps a batch to its rows. The transactions keep their batch order, and each log row
/// carries the batch position of its transaction.
pub fn prepare_txs_and_logs(batch: Vec<TransactionWithLogs>) -> (r: Result<
    PreparedBatch,
    InsertError,
>)
    requires
        batch@.len() <= i64::MAX,
    ensures
        r matches Ok(p) && prepared_from(batch@, p),
{
    let ghost src = batch@;
    let mapped = par_map_entries(batch);
    let mut rest = reversed(mapped);
    let ghost m = rest@.reverse();
    assert(m =~= rest@.reverse());
    let mut transactions: Vec<DbTransaction> = Vec::new();
    let mut logs: Vec<DbLog> = Vec::new();
    assert(src.take(0) =~= Seq::<TransactionWithLogs>::empty());
    while rest.len() > 0
        invariant
            m.len() == src.len(),
            forall|i: int| 0 <= i < src.len() ==> entry_mapped(src[i], i, #[trigger] m[i]),
            rest@.len() + transactions@.len() == src.len(),
            forall|k: int| 0 <= k < rest@.len() ==> #[trigger] rest@[k] == m[m.len() - 1 - k],
            forall|i: int|
                0 <= i < transactions@.len() ==> transaction_row_of(
                    #[trigger] src[i].tx,
                    transactions@[i],
                ),
            logs_of_batch(src.take(transactions@.len() as int), logs@),
        decreases rest.len(),
    {
        let ghost i = transactions@.len() as int;
        let entry = rest.pop().unwrap();
        assert(entry == m[i]);
        assert(entry_mapped(src[i], i, m[i]));
        let (tx, mut rows) = match entry {
            Ok(pair) => pair,
            Err(e) => return Err(InsertError::Conversion(e)),
        };
        let ghost before = logs@;
        let ghost added = rows@;
        transactions.push(tx);
        logs.append(&mut rows);
        proof {
            lemma_keyed_logs_step(src, i);
            let kl = keyed_logs(src.take(i + 1));
            let prev = keyed_logs(src.take(i));
            assert(logs@ =~= before + added);
            assert forall|k: int| 0 <= k < logs@.len() implies #[trigger] logs@[k] == log_row(
                kl[k].0,
                kl[k].1 as i64,
            ) by {
                if k < before.len() {
                    assert(kl[k] == prev[k]);
                } else {
                    assert(kl[k] == (src[i].logs@[k - before.len()], i));
                }
            }
        }
    }
    assert(src.take(src.len() as int) =~= src);
    Ok(PreparedBatch { transactions, logs })
}

/// Replaces each log row's batch position with the identifier at that position in `ids`.
fn resolve_transaction_ids(logs: Vec<DbLog>, ids: &Vec<i64>) -> (r: Result<
    Vec<DbLog>,
    InsertError,
>)
    ensures
        keys_below(logs@, ids@.len()) <==> r is Ok,
        r matches Ok(v) ==> v@ == logs@.map_values(|l: DbLog| resolved(l, ids@)),
        r matches Err(e) ==> e is UnknownTransaction,
{
    let ghost src = logs@;
    let mut rest = reversed(logs);
    let mut out: Vec<DbLog> = Vec::new();
    while rest.len() > 0
        invariant
            rest@.len() + out@.len() == src.len(),
            forall|k: int| 0 <= k < rest@.len() ==> #[trigger] rest@[k] == src[src.len() - 1 - k],
            out@ =~= src.take(out@.len() as int).map_values(|l: DbLog| resolved(l, ids@)),
            keys_below(src.take(out@.len() as int), ids@.len()),
            src == logs@,
        decreases rest.len(),
    {
        let ghost j = out@.len() as int;
        let mut row = rest.pop().unwrap();
        assert(row == src[j]);
        let key = row.transaction_id;
        if key < 0 || key as u64 >= ids.len() as u64 {
            assert(!keys_below(src, ids@.len())) by {
                assert(src[j].transaction_id == key);
                assert(!(0 <= src[j].transaction_id < ids@.len()));
            }
            return Err(InsertError::UnknownTransaction { key });
        }
        row.transaction_id = ids[key as usize];
        out.push(row);
        assert(src.take(j + 1) =~= src.take(j).push(src[j]));
        assert(row == resolved(src[j], ids@));
        assert(keys_below(src.take(j + 1), ids@.len())) by {
            assert forall|k: int| 0 <= k < j + 1 implies 0 <= #[trigger] src.take(j + 1)[k].transaction_id < ids@.len() by {
                if k < j {
                    assert(src.take(j + 1)[k] == src.take(j)[k]);
                }
            }
        }
    }
    assert(src.take(src.len() as int) =~= src);
    Ok(out)
}

/// Builds the log insert statements once the transactions have been inserted: `ids` are the
/// identifiers that the store returned, in insertion order. Each log row gets the identifier
/// of its transaction, and the rows are split into groups of `chunk_size`. With no logs,
/// there is no statement.
pub fn plan_log_inserts(
    logs: Vec<DbLog>,
    ids: &Vec<i64>,
    transaction_count: usize,
    chunk_size: usize,
) -> (r: Result<Vec<Vec<DbLog>>, InsertError>)
    requires
        chunk_size > 0,
    ensures
        ids@.len() != transaction_count ==> r == Err::<Vec<Vec<DbLog>>, InsertError>(
            InsertError::IdCountMismatch { expected: transaction_count, returned: ids.len() },
        ),
        ids@.len() == transaction_count ==> (keys_below(logs@, ids@.len()) <==> r is Ok),
        r matches Err(e) ==> (e is IdCountMismatch || e is UnknownTransaction),
        r matches Ok(chunks) ==> log_plan(logs@, ids@, chunk_size as nat, views(chunks@)),
        r matches Ok(chunks) ==> (chunks@.len() == 0 <==> logs@.len() == 0),
{
    if ids.len() != transaction_count {
        return Err(InsertError::IdCountMismatch { expected: transaction_count, returned: ids.len() });
    }
    let empty = logs.len() == 0;
    let ghost src = logs@;
    let rows = match resolve_transaction_ids(logs, ids) {
        Ok(rows) => rows,
        Err(e) => return Err(e),
    };
    if empty {
        let chunks: Vec<Vec<DbLog>> = Vec::new();
        assert(views(chunks@) =~= Seq::<Seq<DbLog>>::empty());
        assert(rows@ =~= Seq::<DbLog>::empty());
        return Ok(chunks);
    }
    let chunks = chunk_rows(rows, chunk_size);
    proof {
        assert(src.len() > 0);
        assert(views(chunks@).len() == chunks@.len());
        assert(rows@.len() == logs@.len());
        if chunks@.len() == 0 {
            assert(views(chunks@) =~= Seq::<Seq<DbLog>>::empty());
            assert(views(chunks@).flatten() =~= Seq::<DbLog>::empty());
        }
    }
    Ok(chunks)
}

/// Every log of a batch is keyed by the position of a transaction of that batch.
pub proof fn lemma_keys_in_batch(batch: Seq<TransactionWithLogs>)
    ensures
        forall|k: int|
            0 <= k < keyed_logs(batch).len() ==> 0 <= #[trigger] keyed_logs(batch)[k].1
                < batch.len(),
    decreases batch.len(),
{
    if batch.len() > 0 {
        let prev = batch.drop_last();
        lemma_keys_in_batch(prev);
        let i = batch.len() - 1;
        let tail = batch[i].logs@.map_values(|l: Log| (l, i));
        assert forall|k: int| 0 <= k < keyed_logs(batch).len() implies 0
            <= #[trigger] keyed_logs(batch)[k].1 < batch.len() by {
            if k < keyed_logs(prev).len() {
                assert(keyed_logs(batch)[k] == keyed_logs(prev)[k]);
            } else {
                assert(keyed_logs(batch)[k] == tail[k - keyed_logs(prev).len()]);
            }
        }
    }
}

/// An empty batch has no rows, and a batch without logs gives no log statement.
pub proof fn lemma_empty_batch(
    batch: Seq<TransactionWithLogs>,
    p: PreparedBatch,
    ids: Seq<i64>,
    size: nat,
    chunks: Seq<Seq<DbLog>>,
)
    requires
        prepared_from(batch, p),
        log_plan(p.logs@, ids, size, chunks),
    ensures
        batch.len() == 0 ==> p.transactions@.len() == 0 && p.logs@.len() == 0,
        keyed_logs(batch).len() == 0 ==> chunks.len() == 0,
{
    if keyed_logs(batch).len() == 0 && chunks.len() > 0 {
        let resolved_rows = p.logs@.map_values(|l: DbLog| resolved(l, ids));
        assert(resolved_rows.len() == 0);
        chunks.lemma_flatten_length_ge_single_element_length(0);
    }
}

/// After the transactions are inserted and `ids` returned in their order, every log row that
/// reaches the store carries the identifier of the transaction at its batch position, and
/// holds that log's fields.
pub proof fn lemma_correlation(
    batch: Seq<TransactionWithLogs>,
    logs: Seq<DbLog>,
    ids: Seq<i64>,
    size: nat,
    chunks: Seq<Seq<DbLog>>,
)
    requires
        batch.len() <= i64::MAX,
        logs_of_batch(batch, logs),
        ids.len() == batch.len(),
        log_plan(logs, ids, size, chunks),
    ensures
        keys_below(logs, ids.len()),
        chunks.flatten().len() == keyed_logs(batch).len(),
        forall|k: int|
            0 <= k < keyed_logs(batch).len() ==> #[trigger] chunks.flatten()[k] == log_row(
                keyed_logs(batch)[k].0,
                ids[keyed_logs(batch)[k].1],
            ),
{
    lemma_keys_in_batch(batch);
    let kl = keyed_logs(batch);
    assert forall|k: int| 0 <= k < logs.len() implies 0 <= #[trigger] logs[k].transaction_id
        < ids.len() by {
        assert(0 <= kl[k].1 < batch.len());
    }
    assert forall|k: int| 0 <= k < kl.len() implies #[trigger] chunks.flatten()[k] == log_row(
        kl[k].0,
        ids[kl[k].1],
    ) by {
        assert(0 <= kl[k].1 < batch.len());
        assert(logs[k] == log_row(kl[k].0, kl[k].1 as i64));
        assert(chunks.flatten()[k] == resolved(logs[k], ids));
    }
}

/// The rows that reach the store do not depend on the chunk size.
pub proof fn lemma_chunking_transparent(
    logs: Seq<DbLog>,
    ids: Seq<i64>,
    size_a: nat,
    size_b: nat,
    chunks_a: Seq<Seq<DbLog>>,
    chunks_b: Seq<Seq<DbLog>>,
)
    requires
        log_plan(logs, ids, size_a, chunks_a),
        log_plan(logs, ids, size_b, chunks_b),
    ensures
        chunks_a.flatten() == chunks_b.flatten(),
        chunks_a.flatten() == logs.map_values(|l: DbLog| resolved(l, ids)),
{
}

} // verus!
