//! Request handlers for databases.

use crate::cache::cache_db::{db_deleted_text, delete_db};
use crate::cache::cache_table::Cache;
use crate::cache::store_of;
use crate::db::db::no_such_db;
use crate::db::Storage;
use crate::http::receiver::RequestHeaders;
use vstd::prelude::*;

verus! {

/// Deletes the database that the request speaks of, from storage and from
/// the cache. Fails if there is no such database.
pub fn delete(cache: &mut Cache, storage: &mut Storage, req: &RequestHeaders) -> (r: Result<
    String,
    String,
>)
    ensures
        match r {
            Ok(text) => old(storage)@.has_db(req@.db) && text@ == db_deleted_text(),
            Err(why) => !old(storage)@.has_db(req@.db) && why@ == no_such_db(),
        },
        store_of(final(cache)@, final(storage)@) == store_of(old(cache)@, old(storage)@).delete_db(
            req@.db,
        ),
        old(cache)@.sized() ==> final(cache)@.sized(),
        old(cache)@.paired() ==> final(cache)@.paired(),
        old(cache)@.distinct() ==> final(cache)@.distinct(),
        old(storage)@.wf() ==> final(storage)@.wf(),
{
    delete_db(cache, storage, req.db.as_str())
}

} // verus!
