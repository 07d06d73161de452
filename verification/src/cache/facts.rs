//! What holds of the cache and of the store, whatever they hold.

use crate::cache::key::{cache_key, lemma_decompose_cache_key, plain};
use crate::cache::model::{
    data_kept, is_doomed, is_first_cached, is_first_timed, is_victim, key_for, key_of,
    lemma_first_cached, lemma_total_push, time_kept, timed_key, total_length, value_length,
    CacheView, CachedView, Doomed, StoreView, TimedView,
};
use crate::db::facts::{lemma_delete_table, lemma_read_after_delete_row};
use crate::db::model::{read_outcome, RowId};
use crate::record::RowView;
use crate::seqs::{lemma_filter_keeps_distinct, lemma_filter_members, lemma_filter_one_out};
use vstd::prelude::*;

verus! {

/// Up to a place that holds a row under a key there is a first such place.
pub proof fn lemma_least_cached(data: Seq<CachedView>, key: Seq<char>, n: int) -> (i: int)
    requires
        0 <= n < data.len(),
        data[n].key == key,
    ensures
        is_first_cached(data, key, i),
    decreases n,
{
    if exists|j: int| 0 <= j < n && data[j].key == key {
        let j = choose|j: int| 0 <= j < n && data[j].key == key;
        lemma_least_cached(data, key, j)
    } else {
        n
    }
}

/// Up to a place that speaks of a key there is a first such place.
pub proof fn lemma_least_timed(entries: Seq<TimedView>, key: Seq<char>, n: int) -> (i: int)
    requires
        0 <= n < entries.len(),
        entries[n].key == key,
    ensures
        is_first_timed(entries, key, i),
    decreases n,
{
    if exists|j: int| 0 <= j < n && entries[j].key == key {
        let j = choose|j: int| 0 <= j < n && entries[j].key == key;
        lemma_least_timed(entries, key, j)
    } else {
        n
    }
}

/// A key with a cached row has a first place, and `row_at` names it.
pub proof fn lemma_row_at(cache: CacheView, key: Seq<char>)
    requires
        cache.has_row(key),
    ensures
        is_first_cached(cache.data, key, cache.row_at(key)),
{
    let n = choose|i: int| 0 <= i < cache.data.len() && cache.data[i].key == key;
    let i = lemma_least_cached(cache.data, key, n);
}

/// A key with a time entry has a first place, and `time_at` names it.
pub proof fn lemma_time_at(cache: CacheView, key: Seq<char>)
    requires
        cache.has_time(key),
    ensures
        is_first_timed(cache.time_data, key, cache.time_at(key)),
{
    let n = choose|i: int| 0 <= i < cache.time_data.len() && cache.time_data[i].key == key;
    let i = lemma_least_timed(cache.time_data, key, n);
}

/// A list of entries that is not empty has a place to evict.
pub proof fn lemma_has_victim(entries: Seq<TimedView>) -> (i: int)
    requires
        entries.len() > 0,
    ensures
        is_victim(entries, i),
    decreases entries.len(),
{
    if entries.len() == 1 {
        0
    } else {
        let front = entries.drop_last();
        let best = lemma_has_victim(front);
        let last = entries.last();
        if last.last_accessed < front[best].last_accessed {
            let i = entries.len() - 1;
            assert forall|j: int| 0 <= j < entries.len() implies entries[i].last_accessed <= (
            #[trigger] entries[j]).last_accessed by {
                if j < i {
                    assert(front[best].last_accessed <= front[j].last_accessed);
                }
            }
            assert forall|j: int| 0 <= j < i implies entries[i].last_accessed < (
            #[trigger] entries[j]).last_accessed by {
                assert(front[best].last_accessed <= front[j].last_accessed);
            }
            i
        } else {
            assert forall|j: int| 0 <= j < entries.len() implies entries[best].last_accessed <= (
            #[trigger] entries[j]).last_accessed by {
                if j < entries.len() - 1 {
                    assert(front[best].last_accessed <= front[j].last_accessed);
                }
            }
            assert forall|j: int| 0 <= j < best implies entries[best].last_accessed < (
            #[trigger] entries[j]).last_accessed by {
                assert(front[best].last_accessed < front[j].last_accessed);
            }
            best
        }
    }
}

/// After a row was put under a key, the key holds that row, and the cache
/// holds rows under the keys it held rows under before and under that key.
pub proof fn lemma_put_row(cache: CacheView, key: Seq<char>, row: RowView)
    ensures
        cache.put_row(key, row).row_of(key) == Some(row),
        forall|k: Seq<char>| #[trigger]
            cache.put_row(key, row).has_row(k) <==> cache.has_row(k) || k == key,
        forall|k: Seq<char>| #[trigger]
            cache.put_row(key, row).has_time(k) <==> cache.has_time(k),
{
    let after = cache.put_row(key, row);
    let cached = CachedView { key, row };
    assert(after.time_data == cache.time_data);
    assert forall|k: Seq<char>| #[trigger] after.has_time(k) <==> cache.has_time(k) by {}
    if cache.has_row(key) {
        lemma_row_at(cache, key);
        let i = cache.row_at(key);
        assert(is_first_cached(after.data, key, i));
        lemma_first_cached(after, key, i);
        assert forall|k: Seq<char>| #[trigger] after.has_row(k) <==> cache.has_row(k) || k
            == key by {
            if after.has_row(k) {
                let j = choose|j: int| 0 <= j < after.data.len() && after.data[j].key == k;
                assert(cache.data[j].key == k);
            }
            if cache.has_row(k) {
                let j = choose|j: int| 0 <= j < cache.data.len() && cache.data[j].key == k;
                assert(after.data[j].key == k);
            }
        }
    } else {
        let n = cache.data.len() as int;
        assert(after.data == cache.data.push(cached));
        assert forall|j: int| 0 <= j < n implies after.data[j].key != key by {
            assert(cache.data[j].key != key);
        }
        assert(is_first_cached(after.data, key, n));
        lemma_first_cached(after, key, n);
        assert forall|k: Seq<char>| #[trigger] after.has_row(k) <==> cache.has_row(k) || k
            == key by {
            if after.has_row(k) {
                let j = choose|j: int| 0 <= j < after.data.len() && after.data[j].key == k;
                if j < n {
                    assert(cache.data[j].key == k);
                }
            }
            if cache.has_row(k) {
                let j = choose|j: int| 0 <= j < cache.data.len() && cache.data[j].key == k;
                assert(after.data[j].key == k);
            }
        }
    }
}

/// After an entry was put for a key, the cache keeps time for the keys it
/// kept time for before and for that key; its rows are as they were.
pub proof fn lemma_put_time(cache: CacheView, key: Seq<char>, last_accessed: u128, length: usize)
    ensures
        cache.put_time(key, last_accessed, length).data == cache.data,
        forall|k: Seq<char>| #[trigger]
            cache.put_time(key, last_accessed, length).has_time(k) <==> cache.has_time(k) || k
                == key,
{
    let after = cache.put_time(key, last_accessed, length);
    let entry = TimedView { key, last_accessed, data_length: length };
    if cache.has_time(key) {
        lemma_time_at(cache, key);
        let i = cache.time_at(key);
        assert(after.time_data[i].key == key);
        assert forall|k: Seq<char>| #[trigger] after.has_time(k) <==> cache.has_time(k) || k
            == key by {
            if after.has_time(k) {
                let j = choose|j: int|
                    0 <= j < after.time_data.len() && after.time_data[j].key == k;
                assert(cache.time_data[j].key == k);
            }
            if cache.has_time(k) {
                let j = choose|j: int|
                    0 <= j < cache.time_data.len() && cache.time_data[j].key == k;
                assert(after.time_data[j].key == k);
            }
        }
    } else {
        let n = cache.time_data.len() as int;
        assert(after.time_data == cache.time_data.push(entry));
        assert(after.time_data[n].key == key);
        assert forall|k: Seq<char>| #[trigger] after.has_time(k) <==> cache.has_time(k) || k
            == key by {
            if after.has_time(k) {
                let j = choose|j: int|
                    0 <= j < after.time_data.len() && after.time_data[j].key == k;
                if j < n {
                    assert(cache.time_data[j].key == k);
                }
            }
            if cache.has_time(k) {
                let j = choose|j: int|
                    0 <= j < cache.time_data.len() && cache.time_data[j].key == k;
                assert(after.time_data[j].key == k);
            }
        }
    }
}

/// After a removal the cache holds, of what it held, exactly what the
/// removal does not cover.
pub proof fn lemma_without(cache: CacheView, which: Doomed)
    ensures
        forall|k: Seq<char>| #[trigger]
            cache.without(which).has_row(k) <==> cache.has_row(k) && !is_doomed(which, k),
        forall|k: Seq<char>| #[trigger]
            cache.without(which).has_time(k) <==> cache.has_time(k) && !is_doomed(which, k),
        cache.without(which).sized(),
{
    let after = cache.without(which);
    lemma_filter_members(cache.data, data_kept(which));
    lemma_filter_members(cache.time_data, time_kept(which));
    assert forall|k: Seq<char>| #[trigger]
        after.has_row(k) <==> cache.has_row(k) && !is_doomed(which, k) by {
        if after.has_row(k) {
            let i = choose|i: int| 0 <= i < after.data.len() && after.data[i].key == k;
            let x = after.data[i];
            assert(after.data.contains(x));
            assert(cache.data.contains(x));
            let j = choose|j: int| 0 <= j < cache.data.len() && cache.data[j] == x;
            assert(cache.data[j].key == k);
        }
        if cache.has_row(k) && !is_doomed(which, k) {
            let j = choose|j: int| 0 <= j < cache.data.len() && cache.data[j].key == k;
            let x = cache.data[j];
            assert(cache.data.contains(x));
            assert(data_kept(which)(x));
            assert(after.data.contains(x));
            let i = choose|i: int| 0 <= i < after.data.len() && after.data[i] == x;
            assert(after.data[i].key == k);
        }
    }
    assert forall|k: Seq<char>| #[trigger]
        after.has_time(k) <==> cache.has_time(k) && !is_doomed(which, k) by {
        if after.has_time(k) {
            let i = choose|i: int| 0 <= i < after.time_data.len() && after.time_data[i].key == k;
            let x = after.time_data[i];
            assert(after.time_data.contains(x));
            assert(cache.time_data.contains(x));
            let j = choose|j: int| 0 <= j < cache.time_data.len() && cache.time_data[j] == x;
            assert(cache.time_data[j].key == k);
        }
        if cache.has_time(k) && !is_doomed(which, k) {
            let j = choose|j: int| 0 <= j < cache.time_data.len() && cache.time_data[j].key == k;
            let x = cache.time_data[j];
            assert(cache.time_data.contains(x));
            assert(time_kept(which)(x));
            assert(after.time_data.contains(x));
            let i = choose|i: int| 0 <= i < after.time_data.len() && after.time_data[i] == x;
            assert(after.time_data[i].key == k);
        }
    }
}

/// A removal that does not cover a key leaves the row under it as it is.
pub proof fn lemma_without_keeps_row(cache: CacheView, which: Doomed, key: Seq<char>)
    requires
        !is_doomed(which, key),
    ensures
        cache.without(which).row_of(key) == cache.row_of(key),
    decreases cache.data.len(),
{
    reveal(Seq::filter);
    lemma_without(cache, which);
    let after = cache.without(which);
    if cache.has_row(key) {
        lemma_row_at(cache, key);
        let i = cache.row_at(key);
        let n = cache.data.len() as int;
        let front = CacheView { data: cache.data.drop_last(), ..cache };
        let kept = front.data.filter(data_kept(which));
        lemma_without(front, which);
        if i == n - 1 {
            assert(!front.has_row(key)) by {
                if front.has_row(key) {
                    let j = choose|j: int| 0 <= j < front.data.len() && front.data[j].key == key;
                    assert(cache.data[j].key == key);
                }
            }
            assert(after.data == kept.push(cache.data[i]));
            assert forall|j: int| 0 <= j < kept.len() implies after.data[j].key != key by {
                if kept[j].key == key {
                    assert(front.without(which).data[j].key == key);
                    assert(front.without(which).has_row(key));
                }
            }
            assert(is_first_cached(after.data, key, kept.len() as int));
            lemma_first_cached(after, key, kept.len() as int);
        } else {
            assert(is_first_cached(front.data, key, i));
            lemma_first_cached(front, key, i);
            lemma_without_keeps_row(front, which, key);
            let back = front.without(which);
            lemma_row_at(back, key);
            let at = back.row_at(key);
            assert(back.data == kept);
            assert(after.data.len() >= kept.len());
            assert forall|j: int| 0 <= j < kept.len() implies after.data[j] == kept[j] by {}
            assert(is_first_cached(after.data, key, at));
            lemma_first_cached(after, key, at);
        }
    }
}

/// An eviction takes nothing from a key that the cache keeps no time for.
pub proof fn lemma_evict(cache: CacheView, key: Seq<char>)
    requires
        !cache.has_time(key),
    ensures
        cache.evict().row_of(key) == cache.row_of(key),
        cache.evict().has_row(key) == cache.has_row(key),
        !cache.evict().has_time(key),
        forall|k: Seq<char>|
            k != key ==> (#[trigger] cache.evict().has_row(k) <==> cache.evict().has_time(k)) || !(
            cache.has_row(k) <==> cache.has_time(k)),
{
    if cache.time_data.len() > 0 {
        let at = lemma_has_victim(cache.time_data);
        crate::cache::model::lemma_victim(cache, at);
        let gone = cache.time_data[at].key;
        assert(cache.has_time(gone));
        lemma_without(cache, Doomed::Key(gone));
        lemma_without_keeps_row(cache, Doomed::Key(gone), key);
    }
}

/// An insertion with care for the budget keeps rows and entries paired if
/// the row of the new key is cached and its entry is not yet.
pub proof fn lemma_insert_keeps_paired(
    cache: CacheView,
    key: Seq<char>,
    row: RowView,
    now: u128,
    length: usize,
)
    requires
        cache.paired(),
        !cache.has_row(key),
    ensures
        cache.put_row(key, row).safe_time_insert(key, now, length).paired(),
        cache.put_row(key, row).safe_time_insert(key, now, length).row_of(key) == Some(row),
{
    let with_row = cache.put_row(key, row);
    lemma_put_row(cache, key, row);
    assert(!with_row.has_time(key));
    let after = with_row.safe_time_insert(key, now, length);
    let base = if with_row.current_data_size + length <= with_row.max_data_size {
        with_row
    } else {
        with_row.evict()
    };
    lemma_evict(with_row, key);
    lemma_put_time(base, key, now, length);
    assert(after == base.put_time(key, now, length));
    assert(base.row_of(key) == Some(row));
    assert(base.has_row(key));
    assert forall|k: Seq<char>| after.has_row(k) <==> after.has_time(k) by {
        if k != key {
            assert(cache.has_row(k) <==> cache.has_time(k));
            assert(with_row.has_row(k) <==> with_row.has_time(k));
            if base != with_row {
                assert(base.has_row(k) <==> base.has_time(k));
            }
        }
    }
    assert(after.has_row(key));
    lemma_row_at(base, key);
    assert(is_first_cached(after.data, key, base.row_at(key)));
    lemma_first_cached(after, key, base.row_at(key));
}

/// Noting the use of a key leaves the keys of the cache as they are.
pub proof fn lemma_touch(cache: CacheView, key: Seq<char>, now: u128)
    ensures
        cache.touch(key, now).data == cache.data,
        forall|k: Seq<char>| #[trigger] cache.touch(key, now).has_time(k) <==> cache.has_time(k),
{
    let after = cache.touch(key, now);
    if cache.has_time(key) {
        lemma_time_at(cache, key);
        assert forall|k: Seq<char>| #[trigger] after.has_time(k) <==> cache.has_time(k) by {
            if after.has_time(k) {
                let j = choose|j: int|
                    0 <= j < after.time_data.len() && after.time_data[j].key == k;
                assert(cache.time_data[j].key == k);
            }
            if cache.has_time(k) {
                let j = choose|j: int|
                    0 <= j < cache.time_data.len() && cache.time_data[j].key == k;
                assert(after.time_data[j].key == k);
            }
        }
    }
}

/// Putting a row under a key keeps the keys distinct.
pub proof fn lemma_put_row_keeps_distinct(cache: CacheView, key: Seq<char>, row: RowView)
    requires
        cache.distinct(),
    ensures
        cache.put_row(key, row).distinct(),
{
    let after = cache.put_row(key, row);
    if cache.has_row(key) {
        lemma_row_at(cache, key);
        assert forall|i: int, j: int| 0 <= i < j < after.data.len() implies key_of()(
            after.data[i],
        ) != key_of()(after.data[j]) by {
            assert(key_of()(cache.data[i]) != key_of()(cache.data[j]));
        }
    } else {
        assert forall|i: int, j: int| 0 <= i < j < after.data.len() implies key_of()(
            after.data[i],
        ) != key_of()(after.data[j]) by {
            if j < cache.data.len() {
                assert(key_of()(cache.data[i]) != key_of()(cache.data[j]));
            } else {
                assert(cache.data[i].key != key);
            }
        }
    }
}

/// Putting an entry for a key keeps the keys distinct.
pub proof fn lemma_put_time_keeps_distinct(
    cache: CacheView,
    key: Seq<char>,
    last_accessed: u128,
    length: usize,
)
    requires
        cache.distinct(),
    ensures
        cache.put_time(key, last_accessed, length).distinct(),
{
    let after = cache.put_time(key, last_accessed, length);
    if cache.has_time(key) {
        lemma_time_at(cache, key);
        assert forall|i: int, j: int| 0 <= i < j < after.time_data.len() implies timed_key()(
            after.time_data[i],
        ) != timed_key()(after.time_data[j]) by {
            assert(timed_key()(cache.time_data[i]) != timed_key()(cache.time_data[j]));
        }
    } else {
        assert forall|i: int, j: int| 0 <= i < j < after.time_data.len() implies timed_key()(
            after.time_data[i],
        ) != timed_key()(after.time_data[j]) by {
            if j < cache.time_data.len() {
                assert(timed_key()(cache.time_data[i]) != timed_key()(cache.time_data[j]));
            } else {
                assert(cache.time_data[i].key != key);
            }
        }
    }
}

/// A removal keeps the keys distinct.
pub proof fn lemma_without_keeps_distinct(cache: CacheView, which: Doomed)
    requires
        cache.distinct(),
    ensures
        cache.without(which).distinct(),
        cache.evict().distinct(),
{
    lemma_filter_keeps_distinct(cache.data, data_kept(which), key_of());
    lemma_filter_keeps_distinct(cache.time_data, time_kept(which), timed_key());
    if cache.time_data.len() > 0 {
        let gone = Doomed::Key(cache.time_data[cache.victim()].key);
        lemma_filter_keeps_distinct(cache.data, data_kept(gone), key_of());
        lemma_filter_keeps_distinct(cache.time_data, time_kept(gone), timed_key());
    }
}

/// Noting the use of a key keeps the keys distinct.
pub proof fn lemma_touch_keeps_distinct(cache: CacheView, key: Seq<char>, now: u128)
    requires
        cache.distinct(),
    ensures
        cache.touch(key, now).distinct(),
{
    let after = cache.touch(key, now);
    if cache.has_time(key) {
        lemma_time_at(cache, key);
        assert forall|i: int, j: int| 0 <= i < j < after.time_data.len() implies timed_key()(
            after.time_data[i],
        ) != timed_key()(after.time_data[j]) by {
            assert(timed_key()(cache.time_data[i]) != timed_key()(cache.time_data[j]));
        }
    }
}

/// An add keeps rows and entries paired.
pub proof fn lemma_add_keeps_paired(
    store: StoreView,
    id: RowId,
    value: Seq<char>,
    type_: Seq<char>,
    now: u128,
)
    requires
        store.cache.paired(),
    ensures
        store.add(id, value, type_, now).cache.paired(),
{
    if !store.add_refused(id) {
        lemma_insert_keeps_paired(
            store.cache,
            key_for(id),
            RowView { value, type_ },
            now,
            value_length(value),
        );
    }
}

/// A get keeps rows and entries paired.
pub proof fn lemma_get_keeps_paired(store: StoreView, id: RowId, now: u128)
    requires
        store.cache.paired(),
    ensures
        store.get(id, now).cache.paired(),
{
    let after = store.get(id, now).cache;
    if store.cache.has_row(key_for(id)) {
        lemma_touch(store.cache, key_for(id), now);
        assert forall|k: Seq<char>| after.has_row(k) <==> after.has_time(k) by {
            assert(store.cache.has_row(k) <==> store.cache.has_time(k));
            assert(after.has_row(k) <==> store.cache.has_row(k));
        }
    } else if let Ok(row) = read_outcome(store.storage, id) {
        lemma_insert_keeps_paired(store.cache, key_for(id), row, now, value_length(row.value));
    }
}

/// A removal keeps rows and entries paired, and the running size right.
pub proof fn lemma_without_keeps_paired(cache: CacheView, which: Doomed)
    requires
        cache.paired(),
    ensures
        cache.without(which).paired(),
        cache.without(which).sized(),
{
    lemma_without(cache, which);
    let after = cache.without(which);
    assert forall|k: Seq<char>| after.has_row(k) <==> after.has_time(k) by {
        assert(cache.has_row(k) <==> cache.has_time(k));
    }
}

/// A row that was added stays: a second add under the same database,
/// table and key is turned down and changes nothing, neither in the cache
/// nor in storage.
pub proof fn lemma_second_add_refused(
    store: StoreView,
    id: RowId,
    value: Seq<char>,
    type_: Seq<char>,
    now: u128,
    value2: Seq<char>,
    type2: Seq<char>,
    now2: u128,
)
    requires
        store.cache.paired(),
        !store.add_refused(id),
    ensures
        store.add(id, value, type_, now).add_refused(id),
        store.add(id, value, type_, now).add(id, value2, type2, now2) == store.add(
            id,
            value,
            type_,
            now,
        ),
{
    lemma_insert_keeps_paired(
        store.cache,
        key_for(id),
        RowView { value, type_ },
        now,
        value_length(value),
    );
}

/// A get that follows a delete of the same row finds nothing.
pub proof fn lemma_get_after_delete(store: StoreView, id: RowId)
    ensures
        store.delete(id).get_result(id) == Err::<RowView, Seq<char>>("0"@),
{
    lemma_without(store.cache, Doomed::Key(key_for(id)));
    lemma_read_after_delete_row(store.storage, id);
}

/// A get that follows an add of the same row returns the value and the
/// type that were written, whether or not the add evicted another key.
pub proof fn lemma_get_after_add(
    store: StoreView,
    id: RowId,
    value: Seq<char>,
    type_: Seq<char>,
    now: u128,
)
    requires
        store.cache.paired(),
        !store.add_refused(id),
    ensures
        store.add(id, value, type_, now).get_result(id) == Ok::<RowView, Seq<char>>(
            RowView { value, type_ },
        ),
{
    lemma_insert_keeps_paired(
        store.cache,
        key_for(id),
        RowView { value, type_ },
        now,
        value_length(value),
    );
}

/// An insertion under a new key that does not fit the budget evicts the
/// key that was used longest ago: no entry was used earlier than the one
/// that goes, the entries that stay are followed by the new one, and the
/// running size is the sum over those that stay plus the new length.
pub proof fn lemma_insert_over_budget(cache: CacheView, key: Seq<char>, now: u128, length: usize)
    requires
        cache.wf(),
        cache.time_data.len() > 0,
        cache.current_data_size + length > cache.max_data_size,
        !cache.has_time(key),
    ensures
        ({
            let gone = cache.time_data[cache.victim()];
            let left = cache.time_data.remove(cache.victim());
            let after = cache.safe_time_insert(key, now, length);
            &&& 0 <= cache.victim() < cache.time_data.len()
            &&& forall|j: int|
                0 <= j < cache.time_data.len() ==> gone.last_accessed <= (
                #[trigger] cache.time_data[j]).last_accessed
            &&& forall|j: int| 0 <= j < left.len() ==> (#[trigger] left[j]).key != gone.key
            &&& !after.has_row(gone.key)
            &&& after.time_data == left.push(TimedView { key, last_accessed: now, data_length: length })
            &&& after.current_data_size == total_length(left) + length
            &&& after.sized()
        }),
{
    let at = lemma_has_victim(cache.time_data);
    crate::cache::model::lemma_victim(cache, at);
    let gone = cache.time_data[at];
    let which = Doomed::Key(gone.key);
    let left = cache.time_data.filter(time_kept(which));
    let evicted = cache.evict();
    lemma_without(cache, which);
    lemma_evict(cache, key);
    lemma_filter_members(cache.time_data, time_kept(which));
    assert forall|j: int| 0 <= j < left.len() implies (#[trigger] left[j]).key != gone.key by {
        assert(left.contains(left[j]));
    }
    assert forall|i: int| 0 <= i < cache.time_data.len() implies (time_kept(which)(
        #[trigger] cache.time_data[i],
    ) <==> i != at) by {
        if i < at {
            assert(timed_key()(cache.time_data[i]) != timed_key()(cache.time_data[at]));
        }
        if at < i {
            assert(timed_key()(cache.time_data[at]) != timed_key()(cache.time_data[i]));
        }
    }
    lemma_filter_one_out(cache.time_data, time_kept(which), at);
    let entry = TimedView { key, last_accessed: now, data_length: length };
    lemma_total_push(left, entry);
    lemma_put_time(evicted, key, now, length);
    let after = cache.safe_time_insert(key, now, length);
    assert(after.data == evicted.data);
    assert(!evicted.has_row(gone.key));
    assert(!after.has_row(gone.key)) by {
        if after.has_row(gone.key) {
            let j = choose|j: int| 0 <= j < after.data.len() && after.data[j].key == gone.key;
            assert(evicted.data[j].key == gone.key);
        }
    }
}

/// After a table was deleted, the cache holds nothing under a key that
/// decomposes to the table. If neither the database's name nor the table's
/// holds a bar, a get of any row of the table finds nothing.
pub proof fn lemma_get_after_delete_table(
    store: StoreView,
    db: Seq<char>,
    table: Seq<char>,
    key: Seq<char>,
)
    requires
        store.storage.has_table(db, table),
    ensures
        forall|k: Seq<char>|
            is_doomed(Doomed::Table(db, table), k) ==> !(#[trigger] store.delete_table(
                db,
                table,
            ).cache.has_row(k)),
        forall|k: Seq<char>|
            is_doomed(Doomed::Table(db, table), k) ==> !(#[trigger] store.delete_table(
                db,
                table,
            ).cache.has_time(k)),
        plain(db) && plain(table) ==> store.delete_table(db, table).get_result(
            RowId { db, table, key },
        ) == Err::<RowView, Seq<char>>("0"@),
{
    lemma_without(store.cache, Doomed::Table(db, table));
    lemma_delete_table(store.storage, db, table, key);
    if plain(db) && plain(table) {
        lemma_decompose_cache_key(db, table, key);
        assert(is_doomed(Doomed::Table(db, table), cache_key(db, table, key)));
    }
}

} // verus!
