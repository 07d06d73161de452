//! The cache itself: rows under cache keys, the time each key was last
//! used, and a budget in bytes.

use crate::cache::facts::{
    lemma_put_row_keeps_distinct, lemma_put_time_keeps_distinct, lemma_touch_keeps_distinct,
    lemma_without_keeps_distinct,
};
use crate::cache::key::split_cache_string;
use crate::cache::model::{
    data_kept, empty_cache, is_doomed, is_first_cached, is_first_timed, is_victim,
    lemma_first_cached, lemma_first_timed, lemma_total_bound, lemma_total_push,
    lemma_total_update, lemma_victim, time_kept, total_length, CacheView, CachedView, Doomed,
    TimedView,
};
use crate::seqs::lemma_filter_step;
use crate::db::names_view;
use crate::record::Row;
use crate::text::same;
use vstd::prelude::*;

verus! {

/// When a cache entry was last used, and how long its value is.
#[derive(Clone, Copy, Debug)]
pub struct TimeCache {
    /// Time of the last use, in microseconds since the Unix epoch.
    pub last_accessed: u128,
    /// Length of the value in bytes.
    pub data_length: usize,
}

/// A row under its cache key.
struct CachedRow {
    key: String,
    row: Row,
}

/// What the cache knows of the use of a key.
struct TimedKey {
    key: String,
    time: TimeCache,
}

/// A cache of rows with a budget in bytes.
pub struct Cache {
    data: Vec<CachedRow>,
    time_data: Vec<TimedKey>,
    max_data_size: u128,
    current_data_size: u128,
}

spec fn data_view(data: Seq<CachedRow>) -> Seq<CachedView> {
    Seq::new(data.len(), |i: int| CachedView { key: data[i].key@, row: data[i].row@ })
}

spec fn time_view(entries: Seq<TimedKey>) -> Seq<TimedView> {
    Seq::new(
        entries.len(),
        |i: int|
            TimedView {
                key: entries[i].key@,
                last_accessed: entries[i].time.last_accessed,
                data_length: entries[i].time.data_length,
            },
    )
}

impl View for Cache {
    type V = CacheView;

    closed spec fn view(&self) -> CacheView {
        CacheView {
            data: data_view(self.data@),
            time_data: time_view(self.time_data@),
            max_data_size: self.max_data_size as nat,
            current_data_size: self.current_data_size as nat,
        }
    }
}

/// Which cache keys a removal covers.
enum Selector<'a> {
    /// The one key.
    Key(&'a str),
    /// Every key that decomposes to the database and the table.
    Table(&'a str, &'a str),
    /// Every key that decomposes to the database.
    Database(&'a str),
}

impl<'a> View for Selector<'a> {
    type V = Doomed;

    closed spec fn view(&self) -> Doomed {
        match self {
            Selector::Key(key) => Doomed::Key(key@),
            Selector::Table(db, table) => Doomed::Table(db@, table@),
            Selector::Database(db) => Doomed::Database(db@),
        }
    }
}

/// Whether the removal covers `key`.
fn selects(which: &Selector, key: &str) -> (r: bool)
    ensures
        r == is_doomed(which@, key@),
{
    match which {
        Selector::Key(k) => same(key, k),
        Selector::Table(db, table) => match split_cache_string(key) {
            Some(parts) => same(parts.db.as_str(), db) && same(parts.table.as_str(), table),
            None => false,
        },
        Selector::Database(db) => match split_cache_string(key) {
            Some(parts) => same(parts.db.as_str(), db),
            None => false,
        },
    }
}

/// The first place in `data` that holds a row under `key`, if any.
fn find_cached(data: &Vec<CachedRow>, key: &str) -> (at: Option<usize>)
    ensures
        match at {
            Some(i) => is_first_cached(data_view(data@), key@, i as int),
            None => forall|j: int| 0 <= j < data@.len() ==> (#[trigger] data_view(data@)[j]).key != key@,
        },
{
    let mut i: usize = 0;
    while i < data.len()
        invariant
            i <= data.len(),
            forall|j: int| 0 <= j < i ==> (#[trigger] data_view(data@)[j]).key != key@,
        decreases data.len() - i,
    {
        if same(data[i].key.as_str(), key) {
            assert(data_view(data@)[i as int].key == key@);
            return Some(i);
        }
        assert(data_view(data@)[i as int].key != key@);
        i += 1;
    }
    None
}

/// The first place in `entries` that speaks of `key`, if any.
fn find_timed(entries: &Vec<TimedKey>, key: &str) -> (at: Option<usize>)
    ensures
        match at {
            Some(i) => is_first_timed(time_view(entries@), key@, i as int),
            None => forall|j: int|
                0 <= j < entries@.len() ==> (#[trigger] time_view(entries@)[j]).key != key@,
        },
{
    let mut i: usize = 0;
    while i < entries.len()
        invariant
            i <= entries.len(),
            forall|j: int| 0 <= j < i ==> (#[trigger] time_view(entries@)[j]).key != key@,
        decreases entries.len() - i,
    {
        if same(entries[i].key.as_str(), key) {
            assert(time_view(entries@)[i as int].key == key@);
            return Some(i);
        }
        assert(time_view(entries@)[i as int].key != key@);
        i += 1;
    }
    None
}

/// Removes the rows that a removal covers.
fn drop_cached(data: &mut Vec<CachedRow>, which: &Selector)
    ensures
        data_view(final(data)@) == data_view(old(data)@).filter(data_kept(which@)),
{
    let ghost before = data_view(data@);
    let ghost keep = data_kept(which@);
    let ghost mut seen: int = 0;
    let mut i: usize = 0;
    proof {
        reveal(Seq::filter);
        assert(before.take(0).filter(keep) == Seq::<CachedView>::empty());
        assert(before.skip(0) == before);
    }
    while i < data.len()
        invariant
            0 <= seen <= before.len(),
            i <= data.len(),
            keep == data_kept(which@),
            i == before.take(seen).filter(keep).len(),
            data_view(data@) == before.take(seen).filter(keep) + before.skip(seen),
        decreases before.len() - seen,
    {
        let ghost now = data_view(data@);
        proof {
            assert(now.len() == i + before.skip(seen).len());
            assert(now[i as int] == before.skip(seen)[0]);
            lemma_filter_step(before, keep, seen);
        }
        let covered = selects(which, data[i].key.as_str());
        proof {
            assert(covered == !keep(before[seen]));
        }
        if covered {
            data.remove(i);
            proof {
                assert(data_view(data@) == now.remove(i as int));
                assert(before.skip(seen + 1) == before.skip(seen).drop_first());
            }
        } else {
            proof {
                assert(before.skip(seen + 1) == before.skip(seen).drop_first());
            }
            i += 1;
        }
        proof {
            seen = seen + 1;
        }
    }
    proof {
        assert(data_view(data@).len() == i + before.skip(seen).len());
        assert(before.take(seen) == before);
    }
}

/// Removes the entries that a removal covers and returns the bytes that
/// the entries which stay count for.
fn drop_timed(entries: &mut Vec<TimedKey>, which: &Selector) -> (left: u128)
    ensures
        time_view(final(entries)@) == time_view(old(entries)@).filter(time_kept(which@)),
        left == total_length(time_view(final(entries)@)),
{
    let ghost before = time_view(entries@);
    let ghost keep = time_kept(which@);
    let ghost mut seen: int = 0;
    let mut i: usize = 0;
    let mut left: u128 = 0;
    proof {
        reveal(Seq::filter);
        assert(before.take(0).filter(keep) == Seq::<TimedView>::empty());
        assert(before.skip(0) == before);
    }
    while i < entries.len()
        invariant
            0 <= seen <= before.len(),
            i <= entries.len(),
            keep == time_kept(which@),
            i == before.take(seen).filter(keep).len(),
            time_view(entries@) == before.take(seen).filter(keep) + before.skip(seen),
            left == total_length(before.take(seen).filter(keep)),
        decreases before.len() - seen,
    {
        let ghost now = time_view(entries@);
        let ghost kept = before.take(seen).filter(keep);
        proof {
            assert(now.len() == i + before.skip(seen).len());
            assert(now[i as int] == before.skip(seen)[0]);
            lemma_filter_step(before, keep, seen);
            lemma_total_bound(kept);
            lemma_total_push(kept, before[seen]);
            assert(kept.len() * usize::MAX <= usize::MAX * usize::MAX) by (nonlinear_arith)
                requires
                    kept.len() <= usize::MAX,
            ;
        }
        let covered = selects(which, entries[i].key.as_str());
        proof {
            assert(covered == !keep(before[seen]));
        }
        if covered {
            entries.remove(i);
            proof {
                assert(time_view(entries@) == now.remove(i as int));
                assert(before.skip(seen + 1) == before.skip(seen).drop_first());
            }
        } else {
            proof {
                assert(before.skip(seen + 1) == before.skip(seen).drop_first());
            }
            left = left + entries[i].time.data_length as u128;
            i += 1;
        }
        proof {
            seen = seen + 1;
        }
    }
    proof {
        assert(time_view(entries@).len() == i + before.skip(seen).len());
        assert(before.take(seen) == before);
    }
    left
}

/// The place of the entry to evict; `entries` must not be empty.
fn find_victim(entries: &Vec<TimedKey>) -> (at: usize)
    requires
        entries@.len() > 0,
    ensures
        is_victim(time_view(entries@), at as int),
{
    let mut at: usize = 0;
    let mut i: usize = 1;
    while i < entries.len()
        invariant
            1 <= i <= entries.len(),
            at < i,
            forall|j: int|
                0 <= j < i ==> time_view(entries@)[at as int].last_accessed <= (#[trigger] time_view(
                    entries@,
                )[j]).last_accessed,
            forall|j: int|
                0 <= j < at ==> time_view(entries@)[at as int].last_accessed < (#[trigger] time_view(
                    entries@,
                )[j]).last_accessed,
        decreases entries.len() - i,
    {
        if entries[i].time.last_accessed < entries[at].time.last_accessed {
            at = i;
        }
        i += 1;
    }
    at
}

impl Cache {
    /// An empty cache with a budget of `size_limit_mb` megabytes.
    pub fn new(size_limit_mb: usize) -> (cache: Cache)
        ensures
            cache@ == empty_cache((size_limit_mb * 1024 * 1024) as nat),
            cache@.wf(),
    {
        let cache = Cache {
            data: Vec::new(),
            time_data: Vec::new(),
            max_data_size: (size_limit_mb as u128) * 1048576,
            current_data_size: 0,
        };
        assert(cache@.data == Seq::<CachedView>::empty());
        assert(cache@.time_data == Seq::<TimedView>::empty());
        cache
    }

    /// The budget in bytes.
    pub fn max_data_size(&self) -> (size: u128)
        ensures
            size == self@.max_data_size,
    {
        self.max_data_size
    }

    /// The bytes that the cached values count for.
    pub fn current_data_size(&self) -> (size: u128)
        ensures
            size == self@.current_data_size,
    {
        self.current_data_size
    }

    /// The row cached under `key`, if any.
    pub fn get(&self, key: &str) -> (row: Option<&Row>)
        ensures
            match row {
                Some(row) => self@.row_of(key@) == Some(row@),
                None => self@.row_of(key@) is None,
            },
    {
        match find_cached(&self.data, key) {
            Some(i) => {
                proof {
                    lemma_first_cached(self@, key@, i as int);
                }
                Some(&self.data[i].row)
            },
            None => None,
        }
    }

    /// Whether a row is cached under `key`.
    pub fn contains_key(&self, key: &str) -> (found: bool)
        ensures
            found == self@.has_row(key@),
    {
        let at = find_cached(&self.data, key);
        proof {
            if let Some(i) = at {
                lemma_first_cached(self@, key@, i as int);
            }
        }
        at.is_some()
    }

    /// Caches `event` under `key`, in place of the row that was there if
    /// there was one. The time entries are left alone.
    pub fn insert(&mut self, key: String, event: Row)
        ensures
            final(self)@ == old(self)@.put_row(key@, event@),
            old(self)@.distinct() ==> final(self)@.distinct(),
    {
        proof {
            if self@.distinct() {
                lemma_put_row_keeps_distinct(self@, key@, event@);
            }
        }
        let ghost cached = CachedView { key: key@, row: event@ };
        match find_cached(&self.data, key.as_str()) {
            Some(i) => {
                proof {
                    lemma_first_cached(self@, key@, i as int);
                }
                self.data.set(i, CachedRow { key, row: event });
                assert(data_view(self.data@) == old(self)@.data.update(i as int, cached));
            },
            None => {
                self.data.push(CachedRow { key, row: event });
                assert(data_view(self.data@) == old(self)@.data.push(cached));
            },
        }
    }

    /// The cache keys, in the order in which their rows came in.
    pub fn keys(&self) -> (keys: Vec<String>)
        ensures
            names_view(keys@) == self@.keys(),
    {
        let mut keys: Vec<String> = Vec::new();
        let mut i: usize = 0;
        while i < self.data.len()
            invariant
                i <= self.data.len(),
                names_view(keys@) == self@.keys().take(i as int),
            decreases self.data.len() - i,
        {
            let ghost before = names_view(keys@);
            keys.push(self.data[i].key.clone());
            assert(names_view(keys@) == before.push(self.data@[i as int].key@));
            i += 1;
        }
        assert(self@.keys().take(i as int) == self@.keys());
        keys
    }

    /// Empties the cache: rows, time entries and running size.
    pub fn clear(&mut self)
        ensures
            final(self)@ == old(self)@.cleared(),
            final(self)@.wf(),
    {
        self.data.clear();
        self.time_data.clear();
        self.current_data_size = 0;
        assert(self@.data == Seq::<CachedView>::empty());
        assert(self@.time_data == Seq::<TimedView>::empty());
    }

    /// Records an entry for `key`, in place of the entry that was there if
    /// there was one, and keeps the running size in step.
    fn put_time(&mut self, key: &str, time_h: TimeCache)
        requires
            old(self)@.sized(),
        ensures
            final(self)@ == old(self)@.put_time(key@, time_h.last_accessed, time_h.data_length),
            final(self)@.sized(),
            old(self)@.distinct() ==> final(self)@.distinct(),
    {
        proof {
            if self@.distinct() {
                lemma_put_time_keeps_distinct(
                    self@,
                    key@,
                    time_h.last_accessed,
                    time_h.data_length,
                );
            }
        }
        let ghost entry = TimedView {
            key: key@,
            last_accessed: time_h.last_accessed,
            data_length: time_h.data_length,
        };
        let ghost before = self@.time_data;
        let count = self.time_data.len();
        proof {
            assert(before.len() == count);
            lemma_total_bound(before);
            assert(before.len() * usize::MAX <= usize::MAX * usize::MAX) by (nonlinear_arith)
                requires
                    before.len() <= usize::MAX,
            ;
        }
        match find_timed(&self.time_data, key) {
            Some(i) => {
                proof {
                    lemma_first_timed(self@, key@, i as int);
                    lemma_total_update(before, i as int, entry);
                }
                let was = self.time_data[i].time.data_length as u128;
                self.time_data.set(i, TimedKey { key: key.to_string(), time: time_h });
                self.current_data_size = self.current_data_size - was + time_h.data_length as u128;
                assert(time_view(self.time_data@) == before.update(i as int, entry));
            },
            None => {
                proof {
                    lemma_total_push(before, entry);
                }
                self.time_data.push(TimedKey { key: key.to_string(), time: time_h });
                self.current_data_size = self.current_data_size + time_h.data_length as u128;
                assert(time_view(self.time_data@) == before.push(entry));
            },
        }
    }

    /// Records an entry for `key` with care for the budget.
    ///
    /// If the value fits under the budget with what is cached, the entry
    /// is recorded. If not, the key that was used longest ago is evicted
    /// first, with its row; the entry is then recorded even if the budget
    /// is still exceeded.
    pub fn safe_time_insert(&mut self, key: &str, time_h: TimeCache)
        requires
            old(self)@.sized(),
        ensures
            final(self)@ == old(self)@.safe_time_insert(
                key@,
                time_h.last_accessed,
                time_h.data_length,
            ),
            final(self)@.sized(),
            old(self)@.distinct() ==> final(self)@.distinct(),
    {
        let count = self.time_data.len();
        proof {
            assert(self@.time_data.len() == count);
            lemma_total_bound(self@.time_data);
            assert(self@.time_data.len() * usize::MAX <= usize::MAX * usize::MAX)
                by (nonlinear_arith)
                requires
                    self@.time_data.len() <= usize::MAX,
            ;
        }
        if self.current_data_size + time_h.data_length as u128 <= self.max_data_size {
            self.put_time(key, time_h);
        } else {
            expand_cache(self);
            self.put_time(key, time_h);
        }
    }

    /// Notes that `key` was used at time `now`. A key that the cache keeps
    /// no time for changes nothing.
    pub fn update_last_accessed(&mut self, key: &str, now: u128)
        ensures
            final(self)@ == old(self)@.touch(key@, now),
            old(self)@.sized() ==> final(self)@.sized(),
            old(self)@.distinct() ==> final(self)@.distinct(),
    {
        proof {
            if self@.distinct() {
                lemma_touch_keeps_distinct(self@, key@, now);
            }
        }
        let ghost before = self@.time_data;
        match find_timed(&self.time_data, key) {
            Some(i) => {
                let length = self.time_data[i].time.data_length;
                let ghost entry = TimedView { last_accessed: now, ..before[i as int] };
                proof {
                    lemma_first_timed(self@, key@, i as int);
                    lemma_total_update(before, i as int, entry);
                }
                self.time_data.set(
                    i,
                    TimedKey {
                        key: key.to_string(),
                        time: TimeCache { last_accessed: now, data_length: length },
                    },
                );
                assert(time_view(self.time_data@) == before.update(i as int, entry));
            },
            None => {
                assert(!self@.has_time(key@));
            },
        }
    }

    /// Removes `key` from the cache: its row, its time entry and its share
    /// of the running size.
    pub fn delete(&mut self, key: &str)
        ensures
            final(self)@ == old(self)@.without(Doomed::Key(key@)),
            final(self)@.sized(),
            old(self)@.distinct() ==> final(self)@.distinct(),
    {
        proof {
            if self@.distinct() {
                lemma_without_keeps_distinct(self@, Doomed::Key(key@));
            }
        }
        let which = Selector::Key(key);
        drop_cached(&mut self.data, &which);
        self.current_data_size = drop_timed(&mut self.time_data, &which);
    }

    /// Removes every key that decomposes to the database and the table,
    /// each with its row, its time entry and its share of the running size.
    pub fn delete_table(&mut self, db: &str, table: &str)
        ensures
            final(self)@ == old(self)@.without(Doomed::Table(db@, table@)),
            final(self)@.sized(),
            old(self)@.distinct() ==> final(self)@.distinct(),
    {
        proof {
            if self@.distinct() {
                lemma_without_keeps_distinct(self@, Doomed::Table(db@, table@));
            }
        }
        let which = Selector::Table(db, table);
        drop_cached(&mut self.data, &which);
        self.current_data_size = drop_timed(&mut self.time_data, &which);
    }

    /// Removes every key that decomposes to the database, each with its
    /// row, its time entry and its share of the running size.
    pub fn delete_db(&mut self, db: &str)
        ensures
            final(self)@ == old(self)@.without(Doomed::Database(db@)),
            final(self)@.sized(),
            old(self)@.distinct() ==> final(self)@.distinct(),
    {
        proof {
            if self@.distinct() {
                lemma_without_keeps_distinct(self@, Doomed::Database(db@));
            }
        }
        let which = Selector::Database(db);
        drop_cached(&mut self.data, &which);
        self.current_data_size = drop_timed(&mut self.time_data, &which);
    }
}

/// Makes room by one eviction: the key that was used longest ago goes,
/// with its row. An empty cache stays as it is.
fn expand_cache(cache: &mut Cache)
    ensures
        final(cache)@ == old(cache)@.evict(),
        old(cache)@.sized() ==> final(cache)@.sized(),
        old(cache)@.distinct() ==> final(cache)@.distinct(),
{
    if cache.time_data.len() == 0 {
        return ;
    }
    let at = find_victim(&cache.time_data);
    proof {
        lemma_victim(cache@, at as int);
    }
    let lowest_key = cache.time_data[at].key.clone();
    cache.delete(lowest_key.as_str());
}

} // verus!
