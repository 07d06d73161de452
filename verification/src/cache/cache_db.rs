//! Deleting a database through the cache.

use crate::cache::cache_table::Cache;
use crate::cache::facts::lemma_without_keeps_paired;
use crate::cache::model::Doomed;
use crate::cache::store_of;
use crate::db::db::no_such_db;
use crate::db::Storage;
use vstd::prelude::*;

verus! {

/// Reply of a successful database delete.
pub open spec fn db_deleted_text() -> Seq<char> {
    "{\"code\": 200, \"message\": \"DB was delete\"}"@
}

/// Deletes a database from storage and, if storage had it, every row of it
/// from the cache. Fails, and changes nothing, if there is no such
/// database.
pub fn delete_db(cache: &mut Cache, storage: &mut Storage, name: &str) -> (r: Result<
    String,
    String,
>)
    ensures
        match r {
            Ok(text) => old(storage)@.has_db(name@) && text@ == db_deleted_text(),
            Err(why) => !old(storage)@.has_db(name@) && why@ == no_such_db(),
        },
        store_of(final(cache)@, final(storage)@) == store_of(old(cache)@, old(storage)@).delete_db(
            name@,
        ),
        old(cache)@.sized() ==> final(cache)@.sized(),
        old(cache)@.paired() ==> final(cache)@.paired(),
        old(cache)@.distinct() ==> final(cache)@.distinct(),
        old(storage)@.wf() ==> final(storage)@.wf(),
{
    proof {
        if cache@.paired() {
            lemma_without_keeps_paired(cache@, Doomed::Database(name@));
        }
    }
    if let Err(err) = crate::db::db::delete(storage, name) {
        return Err(err);
    }
    cache.delete_db(name);
    Ok("{\"code\": 200, \"message\": \"DB was delete\"}".to_string())
}

} // verus!
