//! The transaction pool and the turns of its workers.

pub mod req_handler;
pub mod tx_table;
pub mod worker;

use crate::http::message_for;
use crate::http::message_text;
use crate::http::receiver::RequestHeaders;
use crate::seqs::lemma_filter_one_out;
use crate::tx_pool::tx_table::{pool_has, pool_kept, pooled_key, PoolView, TxPool, TxView, TX};
use vstd::prelude::*;

verus! {

/// Puts a request into the pool, behind those that wait. The pool must
/// have room for it; see [`TxPool::has_room`].
pub fn add_tx(pool: &mut TxPool, req: &str, head: RequestHeaders, body: &str, to: &str)
    requires
        old(pool)@.issued < u128::MAX,
    ensures
        final(pool)@ == old(pool)@.insert(TxView { req: req@, head: head@, body: body@, to: to@ }),
        old(pool)@.wf() ==> final(pool)@.wf(),
        old(pool)@.wf() ==> !pool_has(old(pool)@.waiting, old(pool)@.next_key()),
{
    let tx = TX { req: req.to_string(), head, body: body.to_string(), to: to.to_string() };
    pool.insert(tx);
}

/// What a worker does on its turn.
#[derive(Debug)]
pub enum Turn {
    /// No transaction waits: sleep, then look again.
    Sleep,
    /// Carry out this transaction, which has left the pool.
    Serve(TX),
}

/// The transaction that a pool gives a worker: the one that came in last.
pub open spec fn turn_of(pool: PoolView) -> Option<TxView> {
    if pool.waiting.len() == 0 {
        None
    } else {
        Some(pool.waiting.last().tx)
    }
}

/// One turn of a worker: if a transaction waits, the worker takes the one
/// that came last out of the pool, in one step; if none waits, it is to
/// sleep.
pub fn worker(pool: &mut TxPool) -> (turn: Turn)
    ensures
        match turn {
            Turn::Sleep => turn_of(old(pool)@) is None && final(pool)@ == old(pool)@,
            Turn::Serve(tx) => {
                &&& turn_of(old(pool)@) == Some(tx@)
                &&& final(pool)@ == old(pool)@.delete(old(pool)@.waiting.last().key)
                &&& old(pool)@.wf() ==> final(pool)@.waiting == old(pool)@.waiting.drop_last()
            },
        },
        old(pool)@.wf() ==> final(pool)@.wf(),
{
    proof {
        let before = pool@.waiting;
        if pool@.wf() && before.len() > 0 {
            let end = before.len() - 1;
            let keep = pool_kept(before[end].key);
            assert forall|i: int| 0 <= i < before.len() implies (keep(#[trigger] before[i]) <==> i
                != end) by {
                if i < end {
                    assert(pooled_key()(before[i]) != pooled_key()(before[end]));
                }
            }
            lemma_filter_one_out(before, keep, end);
            assert(before.remove(end) == before.drop_last());
        }
    }
    if worker::is_pool_empty(pool) {
        return Turn::Sleep;
    }
    let (tx, key) = worker::get_latest_tx(pool);
    worker::delete_latest_tx(pool, key.as_str());
    Turn::Serve(tx)
}

/// What of a handler's outcome goes back to the connection: the text,
/// whether the handler succeeded or failed.
pub open spec fn payload_of(reply: Result<Seq<char>, Seq<char>>) -> Seq<char> {
    match reply {
        Ok(data) => data,
        Err(why) => why,
    }
}

/// The message that answers a request: the correlation id of the request
/// and the text of the handler's outcome, of a failure as of a success.
pub fn reply_message(rud: &str, reply: Result<String, String>) -> (message: String)
    ensures
        message@ == message_text(
            rud@,
            match reply {
                Ok(data) => data@,
                Err(why) => why@,
            },
        ),
{
    match reply {
        Ok(data) => message_for(rud, data.as_str()),
        Err(why) => message_for(rud, why.as_str()),
    }
}

} // verus!
