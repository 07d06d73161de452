//! What a worker asks of the pool.

use crate::tx_pool::tx_table::{TxPool, TX};
use vstd::prelude::*;

verus! {

/// Whether no transaction waits.
pub fn is_pool_empty(pool: &TxPool) -> (empty: bool)
    ensures
        empty == (pool@.waiting.len() == 0),
{
    pool.len() == 0
}

/// A copy of the transaction that a worker is to take next, with its key.
/// The pool must not be empty.
pub fn get_latest_tx(pool: &TxPool) -> (latest: (TX, String))
    requires
        pool@.waiting.len() > 0,
    ensures
        latest.0@ == pool@.waiting.last().tx,
        latest.1@ == pool@.waiting.last().key,
{
    let (tx, key) = pool.get_one();
    (tx.clone(), key)
}

/// Removes from the pool the transaction that a worker took.
pub fn delete_latest_tx(pool: &mut TxPool, key: &str)
    ensures
        final(pool)@ == old(pool)@.delete(key@),
        old(pool)@.wf() ==> final(pool)@.wf(),
{
    pool.delete(key);
}

} // verus!
