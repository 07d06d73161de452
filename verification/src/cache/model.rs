//! The cache as plain values: what each operation makes of it.

use crate::cache::key::{cache_key, decompose, is_cache_string};
use crate::db::model::{read_outcome, RowId, StorageView};
use crate::record::{encode_row, RowView};
use crate::seqs::distinct_by;
use vstd::prelude::*;
use vstd::utf8::encode_utf8;

verus! {

/// A cached row under its cache key.
pub struct CachedView {
    pub key: Seq<char>,
    pub row: RowView,
}

/// When the entry under a cache key was last used, and how many bytes its
/// value counts for.
pub struct TimedView {
    pub key: Seq<char>,
    pub last_accessed: u128,
    pub data_length: usize,
}

/// The rows a cache holds, what it knows of their use, and its budget.
pub struct CacheView {
    pub data: Seq<CachedView>,
    pub time_data: Seq<TimedView>,
    pub max_data_size: nat,
    pub current_data_size: nat,
}

/// The bytes that a list of entries counts for.
pub open spec fn total_length(entries: Seq<TimedView>) -> nat
    decreases entries.len(),
{
    if entries.len() == 0 {
        0
    } else {
        total_length(entries.drop_last()) + entries.last().data_length as nat
    }
}

/// Whether `i` is the first place in `data` that holds a row under `key`.
pub open spec fn is_first_cached(data: Seq<CachedView>, key: Seq<char>, i: int) -> bool {
    &&& 0 <= i < data.len()
    &&& data[i].key == key
    &&& forall|j: int| 0 <= j < i ==> data[j].key != key
}

/// Whether `i` is the first place in `entries` that speaks of `key`.
pub open spec fn is_first_timed(entries: Seq<TimedView>, key: Seq<char>, i: int) -> bool {
    &&& 0 <= i < entries.len()
    &&& entries[i].key == key
    &&& forall|j: int| 0 <= j < i ==> entries[j].key != key
}

/// Whether `i` is the place of the entry to evict: none was used earlier,
/// and of those used at the same time it stands first.
pub open spec fn is_victim(entries: Seq<TimedView>, i: int) -> bool {
    &&& 0 <= i < entries.len()
    &&& forall|j: int|
        0 <= j < entries.len() ==> entries[i].last_accessed <= (#[trigger] entries[j]).last_accessed
    &&& forall|j: int|
        0 <= j < i ==> entries[i].last_accessed < (#[trigger] entries[j]).last_accessed
}

/// Which cache keys a removal covers.
pub enum Doomed {
    /// The one key.
    Key(Seq<char>),
    /// Every key that decomposes to the database and the table.
    Table(Seq<char>, Seq<char>),
    /// Every key that decomposes to the database.
    Database(Seq<char>),
}

/// Whether a removal covers `key`.
pub open spec fn is_doomed(which: Doomed, key: Seq<char>) -> bool {
    match which {
        Doomed::Key(k) => key == k,
        Doomed::Table(db, table) => {
            &&& is_cache_string(key)
            &&& decompose(key).db == db
            &&& decompose(key).table == table
        },
        Doomed::Database(db) => is_cache_string(key) && decompose(key).db == db,
    }
}

/// The rows that a removal leaves.
pub open spec fn data_kept(which: Doomed) -> spec_fn(CachedView) -> bool {
    |cached: CachedView| !is_doomed(which, cached.key)
}

/// The entries that a removal leaves.
pub open spec fn time_kept(which: Doomed) -> spec_fn(TimedView) -> bool {
    |entry: TimedView| !is_doomed(which, entry.key)
}

/// The key of a cached row.
pub open spec fn key_of() -> spec_fn(CachedView) -> Seq<char> {
    |cached: CachedView| cached.key
}

/// The key that an entry speaks of.
pub open spec fn timed_key() -> spec_fn(TimedView) -> Seq<char> {
    |entry: TimedView| entry.key
}

impl CacheView {
    /// Whether a row is cached under `key`.
    pub open spec fn has_row(self, key: Seq<char>) -> bool {
        exists|i: int| 0 <= i < self.data.len() && self.data[i].key == key
    }

    /// The first place that holds a row under `key`.
    pub open spec fn row_at(self, key: Seq<char>) -> int {
        choose|i: int| is_first_cached(self.data, key, i)
    }

    /// The row cached under `key`, if any.
    pub open spec fn row_of(self, key: Seq<char>) -> Option<RowView> {
        if self.has_row(key) {
            Some(self.data[self.row_at(key)].row)
        } else {
            None
        }
    }

    /// Whether the cache keeps time for `key`.
    pub open spec fn has_time(self, key: Seq<char>) -> bool {
        exists|i: int| 0 <= i < self.time_data.len() && self.time_data[i].key == key
    }

    /// The first place that speaks of `key`.
    pub open spec fn time_at(self, key: Seq<char>) -> int {
        choose|i: int| is_first_timed(self.time_data, key, i)
    }

    /// The running size is the sum over the entries.
    pub open spec fn sized(self) -> bool {
        self.current_data_size == total_length(self.time_data)
    }

    /// Rows and entries speak of the same keys.
    pub open spec fn paired(self) -> bool {
        forall|key: Seq<char>| self.has_row(key) <==> self.has_time(key)
    }

    /// No key has two rows, and none has two entries.
    pub open spec fn distinct(self) -> bool {
        distinct_by(self.data, key_of()) && distinct_by(self.time_data, timed_key())
    }

    /// What holds of a cache between any two of its operations.
    pub open spec fn wf(self) -> bool {
        self.sized() && self.paired() && self.distinct()
    }

    /// The cache with `row` under `key`, in place of the row that was
    /// there if there was one.
    pub open spec fn put_row(self, key: Seq<char>, row: RowView) -> CacheView {
        let cached = CachedView { key, row };
        if self.has_row(key) {
            CacheView { data: self.data.update(self.row_at(key), cached), ..self }
        } else {
            CacheView { data: self.data.push(cached), ..self }
        }
    }

    /// The cache with a new entry for `key`, in place of the entry that was
    /// there if there was one; the running size follows.
    pub open spec fn put_time(self, key: Seq<char>, last_accessed: u128, data_length: usize)
        -> CacheView {
        let entry = TimedView { key, last_accessed, data_length };
        if self.has_time(key) {
            let i = self.time_at(key);
            CacheView {
                time_data: self.time_data.update(i, entry),
                current_data_size: (self.current_data_size - self.time_data[i].data_length
                    + data_length) as nat,
                ..self
            }
        } else {
            CacheView {
                time_data: self.time_data.push(entry),
                current_data_size: self.current_data_size + data_length as nat,
                ..self
            }
        }
    }

    /// The cache without the keys that a removal covers: neither a row nor
    /// an entry is left of them, and the running size is the sum over the
    /// entries that stay.
    pub open spec fn without(self, which: Doomed) -> CacheView {
        let time_data = self.time_data.filter(time_kept(which));
        CacheView {
            data: self.data.filter(data_kept(which)),
            time_data,
            current_data_size: total_length(time_data),
            ..self
        }
    }

    /// The place of the entry to evict.
    pub open spec fn victim(self) -> int {
        choose|i: int| is_victim(self.time_data, i)
    }

    /// The cache after one eviction: the key that was used longest ago is
    /// gone. An empty cache stays as it is.
    pub open spec fn evict(self) -> CacheView {
        if self.time_data.len() == 0 {
            self
        } else {
            self.without(Doomed::Key(self.time_data[self.victim()].key))
        }
    }

    /// The cache after an entry was inserted with care for the budget: if
    /// the entry does not fit, one eviction makes room first, whether or
    /// not that is room enough.
    pub open spec fn safe_time_insert(
        self,
        key: Seq<char>,
        last_accessed: u128,
        data_length: usize,
    ) -> CacheView {
        if self.current_data_size + data_length <= self.max_data_size {
            self.put_time(key, last_accessed, data_length)
        } else {
            self.evict().put_time(key, last_accessed, data_length)
        }
    }

    /// The cache after `key` was used at time `now`. A key that the cache
    /// keeps no time for changes nothing.
    pub open spec fn touch(self, key: Seq<char>, now: u128) -> CacheView {
        if self.has_time(key) {
            let i = self.time_at(key);
            CacheView {
                time_data: self.time_data.update(
                    i,
                    TimedView { last_accessed: now, ..self.time_data[i] },
                ),
                ..self
            }
        } else {
            self
        }
    }

    /// The cache with nothing in it.
    pub open spec fn cleared(self) -> CacheView {
        CacheView {
            data: Seq::empty(),
            time_data: Seq::empty(),
            current_data_size: 0,
            ..self
        }
    }

    /// The cache keys, in the order in which their rows came in.
    pub open spec fn keys(self) -> Seq<Seq<char>> {
        self.data.map_values(key_of())
    }
}

/// The cache and the storage behind it.
pub struct StoreView {
    pub cache: CacheView,
    pub storage: StorageView,
}

/// The cache key of a row.
pub open spec fn key_for(id: RowId) -> Seq<char> {
    cache_key(id.db, id.table, id.key)
}

/// The bytes that a value counts for in the cache: its length in UTF-8.
pub open spec fn value_length(value: Seq<char>) -> usize {
    encode_utf8(value).len() as usize
}

/// Reply of a successful delete.
pub open spec fn deleted_text(key: Seq<char>) -> Seq<char> {
    "Row with key "@ + key + " was deleted"@
}

/// Reply of a delete that found no row.
pub open spec fn not_deleted_text(key: Seq<char>) -> Seq<char> {
    "Cant delete row with key "@ + key
}

impl StoreView {
    /// Whether an add is turned down: a row is cached under the key.
    pub open spec fn add_refused(self, id: RowId) -> bool {
        self.cache.has_row(key_for(id))
    }

    /// The store after an add at time `now`. An add that is turned down
    /// changes nothing; otherwise the row is cached, its time entry is
    /// inserted with care for the budget, and the row is written to
    /// storage.
    pub open spec fn add(self, id: RowId, value: Seq<char>, type_: Seq<char>, now: u128)
        -> StoreView {
        if self.add_refused(id) {
            self
        } else {
            let row = RowView { value, type_ };
            StoreView {
                cache: self.cache.put_row(key_for(id), row).safe_time_insert(
                    key_for(id),
                    now,
                    value_length(value),
                ),
                storage: self.storage.add_row(id, encode_row(row)),
            }
        }
    }

    /// What a get returns: the cached row, else the row read from storage,
    /// else the reply `0`.
    pub open spec fn get_result(self, id: RowId) -> Result<RowView, Seq<char>> {
        match self.cache.row_of(key_for(id)) {
            Some(row) => Ok(row),
            None => match read_outcome(self.storage, id) {
                Ok(row) => Ok(row),
                Err(_) => Err("0"@),
            },
        }
    }

    /// The store after a get at time `now`. A hit notes the use of the
    /// key; a miss that storage answers caches the row as an add would; a
    /// miss that storage cannot answer changes nothing.
    pub open spec fn get(self, id: RowId, now: u128) -> StoreView {
        if self.cache.has_row(key_for(id)) {
            StoreView { cache: self.cache.touch(key_for(id), now), ..self }
        } else {
            match read_outcome(self.storage, id) {
                Ok(row) => StoreView {
                    cache: self.cache.put_row(key_for(id), row).safe_time_insert(
                        key_for(id),
                        now,
                        value_length(row.value),
                    ),
                    ..self
                },
                Err(_) => self,
            }
        }
    }

    /// The store after a delete: the key leaves the cache whether or not
    /// it was there, and the row is deleted from storage.
    pub open spec fn delete(self, id: RowId) -> StoreView {
        StoreView {
            cache: self.cache.without(Doomed::Key(key_for(id))),
            storage: self.storage.delete_row(id),
        }
    }

    /// What a delete returns: whether storage had the row, in words.
    pub open spec fn delete_result(self, id: RowId) -> Result<Seq<char>, Seq<char>> {
        if self.storage.row_state(id) is Present {
            Ok(deleted_text(id.key))
        } else {
            Err(not_deleted_text(id.key))
        }
    }

    /// The store after a table was deleted: storage first; if it had the
    /// table, every cache key that decomposes to the table goes too.
    pub open spec fn delete_table(self, db: Seq<char>, table: Seq<char>) -> StoreView {
        StoreView {
            cache: if self.storage.has_table(db, table) {
                self.cache.without(Doomed::Table(db, table))
            } else {
                self.cache
            },
            storage: self.storage.delete_table(db, table),
        }
    }

    /// The store after a database was deleted: storage first; if it had
    /// the database, every cache key that decomposes to it goes too.
    pub open spec fn delete_db(self, db: Seq<char>) -> StoreView {
        StoreView {
            cache: if self.storage.has_db(db) {
                self.cache.without(Doomed::Database(db))
            } else {
                self.cache
            },
            storage: self.storage.delete_db(db),
        }
    }
}

/// A fresh cache with the given budget in bytes.
pub open spec fn empty_cache(max_data_size: nat) -> CacheView {
    CacheView {
        data: Seq::empty(),
        time_data: Seq::empty(),
        max_data_size,
        current_data_size: 0,
    }
}

/// The first place that holds a row under a key is the place that `row_at`
/// names.
pub proof fn lemma_first_cached(cache: CacheView, key: Seq<char>, i: int)
    requires
        is_first_cached(cache.data, key, i),
    ensures
        cache.has_row(key),
        cache.row_at(key) == i,
        cache.row_of(key) == Some(cache.data[i].row),
{
    let chosen = cache.row_at(key);
    assert(is_first_cached(cache.data, key, chosen));
    if chosen < i {
        assert(cache.data[chosen].key != key);
    }
    if i < chosen {
        assert(cache.data[i].key != key);
    }
}

/// The first place that speaks of a key is the place that `time_at` names.
pub proof fn lemma_first_timed(cache: CacheView, key: Seq<char>, i: int)
    requires
        is_first_timed(cache.time_data, key, i),
    ensures
        cache.has_time(key),
        cache.time_at(key) == i,
{
    let chosen = cache.time_at(key);
    assert(is_first_timed(cache.time_data, key, chosen));
    if chosen < i {
        assert(cache.time_data[chosen].key != key);
    }
    if i < chosen {
        assert(cache.time_data[i].key != key);
    }
}

/// There is one place to evict in a list of entries that is not empty.
pub proof fn lemma_victim(cache: CacheView, i: int)
    requires
        is_victim(cache.time_data, i),
    ensures
        cache.victim() == i,
{
    let chosen = cache.victim();
    assert(is_victim(cache.time_data, chosen));
    if chosen < i {
        assert(cache.time_data[i].last_accessed < cache.time_data[chosen].last_accessed);
        assert(cache.time_data[chosen].last_accessed <= cache.time_data[i].last_accessed);
    }
    if i < chosen {
        assert(cache.time_data[chosen].last_accessed < cache.time_data[i].last_accessed);
        assert(cache.time_data[i].last_accessed <= cache.time_data[chosen].last_accessed);
    }
}

/// One more entry adds its length to the sum.
pub proof fn lemma_total_push(entries: Seq<TimedView>, entry: TimedView)
    ensures
        total_length(entries.push(entry)) == total_length(entries) + entry.data_length,
{
    assert(entries.push(entry).drop_last() == entries);
}

/// Replacing an entry changes the sum by the difference of the lengths,
/// and no entry is longer than the sum.
pub proof fn lemma_total_update(entries: Seq<TimedView>, i: int, entry: TimedView)
    requires
        0 <= i < entries.len(),
    ensures
        entries[i].data_length <= total_length(entries),
        total_length(entries.update(i, entry)) == total_length(entries) - entries[i].data_length
            + entry.data_length,
    decreases entries.len(),
{
    let changed = entries.update(i, entry);
    if i == entries.len() - 1 {
        assert(changed.drop_last() == entries.drop_last());
    } else {
        lemma_total_update(entries.drop_last(), i, entry);
        assert(changed.drop_last() == entries.drop_last().update(i, entry));
    }
}

/// The sum is at most the number of entries times the largest length.
pub proof fn lemma_total_bound(entries: Seq<TimedView>)
    ensures
        total_length(entries) <= entries.len() * usize::MAX,
    decreases entries.len(),
{
    if entries.len() > 0 {
        lemma_total_bound(entries.drop_last());
        assert((entries.len() - 1) * usize::MAX + usize::MAX == entries.len() * usize::MAX)
            by (nonlinear_arith);
    }
}

} // verus!
