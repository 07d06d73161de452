//! The pool of transactions that wait for a worker.

use crate::db::names_view;
use crate::http::receiver::{HeadersView, RequestHeaders};
use crate::seqs::{
    distinct_by, lemma_filter_keeps_distinct, lemma_filter_members, lemma_filter_step,
};
use crate::text::{decimal, decimal_text, lemma_decimal_one_to_one, same};
use vstd::prelude::*;

verus! {

/// One request that waits to be carried out.
#[derive(Debug)]
pub struct TX {
    /// The kind of the request.
    pub req: String,
    /// The headers of the request.
    pub head: RequestHeaders,
    /// The body of the request.
    pub body: String,
    /// The connection that the reply goes to.
    pub to: String,
}

/// A transaction as plain text values.
pub struct TxView {
    pub req: Seq<char>,
    pub head: HeadersView,
    pub body: Seq<char>,
    pub to: Seq<char>,
}

impl View for TX {
    type V = TxView;

    open spec fn view(&self) -> TxView {
        TxView { req: self.req@, head: self.head@, body: self.body@, to: self.to@ }
    }
}

impl Clone for TX {
    fn clone(&self) -> (copy: Self)
        ensures
            copy@ == self@,
    {
        TX {
            req: self.req.clone(),
            head: self.head.clone(),
            body: self.body.clone(),
            to: self.to.clone(),
        }
    }
}

/// A transaction in the pool: the number it was given when it came in,
/// the key it waits under, and the transaction.
struct Pooled {
    number: u128,
    key: String,
    tx: TX,
}

/// A transaction in the pool, as plain values.
pub struct PooledView {
    pub number: nat,
    pub key: Seq<char>,
    pub tx: TxView,
}

/// The transactions that wait, in the order in which they came in, and the
/// count of those that ever came in.
pub struct TxPool {
    data: Vec<Pooled>,
    issued: u128,
}

/// A pool as plain values.
pub struct PoolView {
    /// The transactions that wait, in the order in which they came in.
    pub waiting: Seq<PooledView>,
    /// How many transactions ever came in: the number that the next one
    /// is given.
    pub issued: nat,
}

spec fn waiting_view(data: Seq<Pooled>) -> Seq<PooledView> {
    Seq::new(
        data.len(),
        |i: int| PooledView { number: data[i].number as nat, key: data[i].key@, tx: data[i].tx@ },
    )
}

impl View for TxPool {
    type V = PoolView;

    closed spec fn view(&self) -> PoolView {
        PoolView { waiting: waiting_view(self.data@), issued: self.issued as nat }
    }
}

/// Whether a transaction waits under `key`.
pub open spec fn pool_has(waiting: Seq<PooledView>, key: Seq<char>) -> bool {
    exists|i: int| 0 <= i < waiting.len() && waiting[i].key == key
}

/// The transactions under other keys.
pub open spec fn pool_kept(key: Seq<char>) -> spec_fn(PooledView) -> bool {
    |pooled: PooledView| pooled.key != key
}

/// The key of a pooled transaction.
pub open spec fn pooled_key() -> spec_fn(PooledView) -> Seq<char> {
    |pooled: PooledView| pooled.key
}

impl PoolView {
    /// What holds of a pool between any two of its operations: every
    /// transaction waits under its number written in decimal digits, the
    /// numbers are below the count of those that ever came in, and no key
    /// holds two transactions.
    pub open spec fn wf(self) -> bool {
        &&& forall|i: int|
            0 <= i < self.waiting.len() ==> (#[trigger] self.waiting[i]).number < self.issued
        &&& forall|i: int|
            0 <= i < self.waiting.len() ==> (#[trigger] self.waiting[i]).key == decimal_text(
                self.waiting[i].number,
            )
        &&& distinct_by(self.waiting, pooled_key())
    }

    /// The key that the next transaction is given: the count of those that
    /// ever came in, written in decimal digits.
    pub open spec fn next_key(self) -> Seq<char> {
        decimal_text(self.issued)
    }

    /// The pool after a transaction came in: it waits behind the others
    /// under the next key, and the count goes up by one.
    pub open spec fn insert(self, tx: TxView) -> PoolView {
        PoolView {
            waiting: self.waiting.push(
                PooledView { number: self.issued, key: self.next_key(), tx },
            ),
            issued: self.issued + 1,
        }
    }

    /// The pool without the transaction that waits under `key`.
    pub open spec fn delete(self, key: Seq<char>) -> PoolView {
        PoolView { waiting: self.waiting.filter(pool_kept(key)), ..self }
    }

    /// The pool with nothing waiting. The count stays, so that a key is
    /// never given twice.
    pub open spec fn cleared(self) -> PoolView {
        PoolView { waiting: Seq::empty(), ..self }
    }
}

/// An empty pool into which nothing ever came.
pub open spec fn empty_pool() -> PoolView {
    PoolView { waiting: Seq::empty(), issued: 0 }
}

/// The next key is fresh: no transaction waits under it.
pub proof fn lemma_next_key_is_fresh(pool: PoolView)
    requires
        pool.wf(),
    ensures
        !pool_has(pool.waiting, pool.next_key()),
{
    if pool_has(pool.waiting, pool.next_key()) {
        let i = choose|i: int| 0 <= i < pool.waiting.len() && pool.waiting[i].key == pool.next_key();
        assert(pool.waiting[i].number < pool.issued);
        lemma_decimal_one_to_one(pool.waiting[i].number, pool.issued);
    }
}

/// Taking a transaction in loses none: every transaction that waited still
/// waits under its key, the new one waits under a key that none waited
/// under, and the pool stays well formed.
pub proof fn lemma_insert_keeps_all(pool: PoolView, tx: TxView)
    requires
        pool.wf(),
    ensures
        pool.insert(tx).wf(),
        pool.insert(tx).waiting.len() == pool.waiting.len() + 1,
        forall|i: int|
            0 <= i < pool.waiting.len() ==> pool.insert(tx).waiting[i] == pool.waiting[i],
        pool.insert(tx).waiting.last().tx == tx,
        !pool_has(pool.waiting, pool.insert(tx).waiting.last().key),
{
    lemma_next_key_is_fresh(pool);
    let after = pool.insert(tx);
    assert forall|i: int, j: int| 0 <= i < j < after.waiting.len() implies pooled_key()(
        after.waiting[i],
    ) != pooled_key()(after.waiting[j]) by {
        if j < pool.waiting.len() {
            assert(pooled_key()(pool.waiting[i]) != pooled_key()(pool.waiting[j]));
        } else {
            assert(pool.waiting[i].key != pool.next_key());
        }
    }
    assert forall|i: int| 0 <= i < after.waiting.len() implies (
    #[trigger] after.waiting[i]).number < after.issued by {
        if i < pool.waiting.len() {
            assert(pool.waiting[i].number < pool.issued);
        }
    }
    assert forall|i: int| 0 <= i < after.waiting.len() implies (
    #[trigger] after.waiting[i]).key == decimal_text(after.waiting[i].number) by {
        if i < pool.waiting.len() {
            assert(pool.waiting[i].key == decimal_text(pool.waiting[i].number));
        }
    }
}

/// Removing a key keeps a pool well formed.
pub proof fn lemma_delete_keeps_wf(pool: PoolView, key: Seq<char>)
    requires
        pool.wf(),
    ensures
        pool.delete(key).wf(),
{
    let after = pool.delete(key);
    lemma_filter_keeps_distinct(pool.waiting, pool_kept(key), pooled_key());
    lemma_filter_members(pool.waiting, pool_kept(key));
    assert forall|i: int| 0 <= i < after.waiting.len() implies (
    #[trigger] after.waiting[i]).number < after.issued && after.waiting[i].key == decimal_text(
        after.waiting[i].number,
    ) by {
        let one = after.waiting[i];
        assert(after.waiting.contains(one));
        assert(pool.waiting.contains(one));
        let j = choose|j: int| 0 <= j < pool.waiting.len() && pool.waiting[j] == one;
        assert(pool.waiting[j].number < pool.issued);
        assert(pool.waiting[j].key == decimal_text(pool.waiting[j].number));
    }
}

impl TxPool {
    /// An empty pool.
    pub fn new() -> (pool: Self)
        ensures
            pool@ == empty_pool(),
            pool@.wf(),
    {
        let pool = TxPool { data: Vec::new(), issued: 0 };
        assert(pool@.waiting == Seq::<PooledView>::empty());
        pool
    }

    /// The number of transactions that wait.
    pub fn len(&self) -> (n: usize)
        ensures
            n == self@.waiting.len(),
    {
        self.data.len()
    }

    /// Whether the pool can take one more transaction: whether the count of
    /// those that ever came in can still go up.
    pub fn has_room(&self) -> (room: bool)
        ensures
            room == (self@.issued < u128::MAX),
    {
        self.issued < u128::MAX
    }

    /// The transaction that a worker is to take next, with its key: the
    /// one that came in last. The pool must not be empty.
    pub fn get_one(&self) -> (one: (&TX, String))
        requires
            self@.waiting.len() > 0,
        ensures
            one.0@ == self@.waiting.last().tx,
            one.1@ == self@.waiting.last().key,
    {
        let latest = &self.data[self.data.len() - 1];
        (&latest.tx, latest.key.clone())
    }

    /// Takes in a transaction behind those that wait and returns how many
    /// waited. The transaction is given the next key, under which none
    /// waits, so that none is lost; in a pool from which nothing was ever
    /// removed that key is the returned number in decimal digits.
    pub fn insert(&mut self, event: TX) -> (index: usize)
        requires
            old(self)@.issued < u128::MAX,
        ensures
            index == old(self)@.waiting.len(),
            final(self)@ == old(self)@.insert(event@),
            old(self)@.wf() ==> final(self)@.wf(),
            old(self)@.wf() ==> !pool_has(old(self)@.waiting, old(self)@.next_key()),
    {
        proof {
            if self@.wf() {
                lemma_insert_keeps_all(self@, event@);
            }
        }
        let index = self.data.len();
        let number = self.issued;
        let key = decimal(number);
        let ghost pooled = PooledView { number: number as nat, key: key@, tx: event@ };
        self.data.push(Pooled { number, key, tx: event });
        self.issued = number + 1;
        assert(self@.waiting == old(self)@.waiting.push(pooled));
        index
    }

    /// The keys of the transactions that wait.
    pub fn keys(&self) -> (keys: Vec<String>)
        ensures
            names_view(keys@) == self@.waiting.map_values(pooled_key()),
    {
        let mut keys: Vec<String> = Vec::new();
        let mut i: usize = 0;
        while i < self.data.len()
            invariant
                i <= self.data.len(),
                names_view(keys@) == self@.waiting.map_values(pooled_key()).take(i as int),
            decreases self.data.len() - i,
        {
            let ghost before = names_view(keys@);
            keys.push(self.data[i].key.clone());
            assert(names_view(keys@) == before.push(self.data@[i as int].key@));
            i += 1;
        }
        assert(self@.waiting.map_values(pooled_key()).take(i as int) == self@.waiting.map_values(
            pooled_key(),
        ));
        keys
    }

    /// Empties the pool.
    pub fn clear(&mut self)
        ensures
            final(self)@ == old(self)@.cleared(),
            old(self)@.wf() ==> final(self)@.wf(),
    {
        self.data.clear();
        assert(self@.waiting == Seq::<PooledView>::empty());
    }

    /// Removes the transaction that waits under `key`, if there is one.
    pub fn delete(&mut self, key: &str)
        ensures
            final(self)@ == old(self)@.delete(key@),
            old(self)@.wf() ==> final(self)@.wf(),
    {
        proof {
            if self@.wf() {
                lemma_delete_keeps_wf(self@, key@);
            }
        }
        let ghost before = self@.waiting;
        let ghost keep = pool_kept(key@);
        let ghost mut seen: int = 0;
        let mut i: usize = 0;
        proof {
            reveal(Seq::filter);
            assert(before.take(0).filter(keep) == Seq::<PooledView>::empty());
            assert(before.skip(0) == before);
        }
        while i < self.data.len()
            invariant
                0 <= seen <= before.len(),
                i <= self.data.len(),
                keep == pool_kept(key@),
                self@.issued == old(self)@.issued,
                i == before.take(seen).filter(keep).len(),
                self@.waiting == before.take(seen).filter(keep) + before.skip(seen),
            decreases before.len() - seen,
        {
            let ghost now = self@.waiting;
            proof {
                assert(now.len() == i + before.skip(seen).len());
                assert(now[i as int] == before.skip(seen)[0]);
                lemma_filter_step(before, keep, seen);
            }
            let covered = same(self.data[i].key.as_str(), key);
            proof {
                assert(covered == !keep(before[seen]));
            }
            if covered {
                self.data.remove(i);
                proof {
                    assert(self@.waiting == now.remove(i as int));
                    assert(before.skip(seen + 1) == before.skip(seen).drop_first());
                }
            } else {
                proof {
                    assert(before.skip(seen + 1) == before.skip(seen).drop_first());
                }
                i += 1;
            }
            proof {
                seen = seen + 1;
            }
        }
        proof {
            assert(self@.waiting.len() == i + before.skip(seen).len());
            assert(before.take(seen) == before);
        }
    }
}

} // verus!
