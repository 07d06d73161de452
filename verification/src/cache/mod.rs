//! The cache in front of storage.
//!
//! Every operation here works on a [`Cache`] and on the [`Storage`] behind
//! it: reads are answered from the cache where it holds the row, writes go
//! through to storage.

pub mod cache_db;
pub mod cache_table;
pub mod facts;
pub mod key;
pub mod model;

use crate::cache::cache_table::{Cache, TimeCache};
use crate::cache::facts::{lemma_add_keeps_paired, lemma_get_keeps_paired, lemma_without_keeps_paired};
use crate::cache::model::Doomed;
use crate::cache::key::to_cache_string;
use crate::cache::model::{CacheView, StoreView};
use crate::db::model::RowId;
use crate::db::{names_view, Storage};
use crate::record::{Row, RowView};
use crate::text::join;
use vstd::prelude::*;

verus! {

/// The cache and the storage as one value.
pub open spec fn store_of(cache: CacheView, storage: crate::db::model::StorageView) -> StoreView {
    StoreView { cache, storage }
}

/// Adds a row at time `now`, to the cache and to storage.
///
/// Returns `false`, and changes nothing, if a row is cached under the same
/// database, table and key. Storage is not asked: a row that is stored but
/// not cached is added to.
pub fn add(
    cache: &mut Cache,
    storage: &mut Storage,
    db: &str,
    table: &str,
    key: &str,
    value: &str,
    _type: &str,
    now: u128,
) -> (added: bool)
    requires
        old(cache)@.sized(),
    ensures
        added == !store_of(old(cache)@, old(storage)@).add_refused(
            RowId { db: db@, table: table@, key: key@ },
        ),
        store_of(final(cache)@, final(storage)@) == store_of(old(cache)@, old(storage)@).add(
            RowId { db: db@, table: table@, key: key@ },
            value@,
            _type@,
            now,
        ),
        final(cache)@.sized(),
        old(cache)@.paired() ==> final(cache)@.paired(),
        old(cache)@.distinct() ==> final(cache)@.distinct(),
        old(storage)@.wf() ==> final(storage)@.wf(),
{
    proof {
        if cache@.paired() {
            lemma_add_keeps_paired(
                store_of(cache@, storage@),
                RowId { db: db@, table: table@, key: key@ },
                value@,
                _type@,
                now,
            );
        }
    }
    let cache_key = to_cache_string(db, table, key);
    if cache.contains_key(cache_key.as_str()) {
        return false;
    }
    let mut row = Row::new();
    row.set_value(value.to_string());
    row.set_type(_type.to_string());
    assert(row@ == (RowView { value: value@, type_: _type@ }));
    cache.insert(cache_key.clone(), row.clone());
    cache.safe_time_insert(
        cache_key.as_str(),
        TimeCache { last_accessed: now, data_length: value.as_bytes().len() },
    );
    crate::db::row::add_row(storage, db, table, key, &mut row);
    true
}

/// Gets a row at time `now`: from the cache if it holds the row, else from
/// storage. A row read from storage is cached. Fails with the reply `0` if
/// neither has the row.
pub fn get(cache: &mut Cache, storage: &Storage, db: &str, table: &str, key: &str, now: u128) -> (r:
    Result<Row, String>)
    requires
        old(cache)@.sized(),
    ensures
        match r {
            Ok(row) => store_of(old(cache)@, storage@).get_result(
                RowId { db: db@, table: table@, key: key@ },
            ) == Ok::<_, Seq<char>>(row@),
            Err(why) => store_of(old(cache)@, storage@).get_result(
                RowId { db: db@, table: table@, key: key@ },
            ) == Err::<RowView, _>(why@),
        },
        store_of(final(cache)@, storage@) == store_of(old(cache)@, storage@).get(
            RowId { db: db@, table: table@, key: key@ },
            now,
        ),
        final(cache)@.sized(),
        old(cache)@.paired() ==> final(cache)@.paired(),
        old(cache)@.distinct() ==> final(cache)@.distinct(),
{
    proof {
        if cache@.paired() {
            lemma_get_keeps_paired(
                store_of(cache@, storage@),
                RowId { db: db@, table: table@, key: key@ },
                now,
            );
        }
    }
    let cache_key = to_cache_string(db, table, key);
    let hit = match cache.get(cache_key.as_str()) {
        Some(row) => Some(row.clone()),
        None => None,
    };
    if let Some(row) = hit {
        cache.update_last_accessed(cache_key.as_str(), now);
        return Ok(row);
    }
    match crate::db::row::read_row(storage, db, table, key) {
        Ok(row) => {
            let length = row.value().as_bytes().len();
            cache.insert(cache_key.clone(), row.clone());
            cache.safe_time_insert(
                cache_key.as_str(),
                TimeCache { last_accessed: now, data_length: length },
            );
            Ok(row)
        },
        Err(_) => Err("0".to_string()),
    }
}

/// Deletes a row from the cache and from storage. The reply says whether
/// storage had the row.
pub fn delete(cache: &mut Cache, storage: &mut Storage, db: &str, table: &str, key: &str) -> (r:
    Result<String, String>)
    ensures
        match r {
            Ok(text) => store_of(old(cache)@, old(storage)@).delete_result(
                RowId { db: db@, table: table@, key: key@ },
            ) == Ok::<_, Seq<char>>(text@),
            Err(why) => store_of(old(cache)@, old(storage)@).delete_result(
                RowId { db: db@, table: table@, key: key@ },
            ) == Err::<Seq<char>, _>(why@),
        },
        store_of(final(cache)@, final(storage)@) == store_of(old(cache)@, old(storage)@).delete(
            RowId { db: db@, table: table@, key: key@ },
        ),
        final(cache)@.sized(),
        old(cache)@.paired() ==> final(cache)@.paired(),
        old(cache)@.distinct() ==> final(cache)@.distinct(),
        old(storage)@.wf() ==> final(storage)@.wf(),
{
    let cache_key = to_cache_string(db, table, key);
    proof {
        if cache@.paired() {
            lemma_without_keeps_paired(cache@, Doomed::Key(cache_key@));
        }
    }
    cache.delete(cache_key.as_str());
    let status = crate::db::row::delete_row(storage, db, table, key);
    if status {
        let mut text = join("Row with key ", key);
        text.append(" was deleted");
        Ok(text)
    } else {
        Err(join("Cant delete row with key ", key))
    }
}

/// The keys that the cache holds rows under.
pub fn keys(cache: &Cache) -> (keys: Vec<String>)
    ensures
        names_view(keys@) == cache@.keys(),
{
    cache.keys()
}

/// Empties the cache. Storage is left alone.
pub fn clear(cache: &mut Cache)
    ensures
        final(cache)@ == old(cache)@.cleared(),
        final(cache)@.wf(),
{
    cache.clear();
}

/// Deletes a table from storage and, if storage had it, every row of it
/// from the cache. Returns whether storage had the table.
pub fn delete_table(cache: &mut Cache, storage: &mut Storage, db: &str, name: &str) -> (deleted:
    bool)
    ensures
        deleted == old(storage)@.has_table(db@, name@),
        store_of(final(cache)@, final(storage)@) == store_of(
            old(cache)@,
            old(storage)@,
        ).delete_table(db@, name@),
        old(cache)@.sized() ==> final(cache)@.sized(),
        old(cache)@.paired() ==> final(cache)@.paired(),
        old(cache)@.distinct() ==> final(cache)@.distinct(),
        old(storage)@.wf() ==> final(storage)@.wf(),
{
    proof {
        if cache@.paired() {
            lemma_without_keeps_paired(cache@, Doomed::Table(db@, name@));
        }
    }
    let status = crate::db::table::delete_table(storage, db, name);
    if !status {
        return false;
    }
    cache.delete_table(db, name);
    true
}

} // verus!
