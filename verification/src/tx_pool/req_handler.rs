//! From the kind of a request to the handler that carries it out.

use crate::cache::cache_db::db_deleted_text;
use crate::cache::cache_table::Cache;
use crate::cache::model::StoreView;
use crate::cache::store_of;
use crate::db::db::no_such_db;
use crate::db::model::BunchView;
use crate::db::Storage;
use crate::http::receiver::{HeadersView, RequestHeaders};
use crate::http::row_methods::{
    add_reply, add_store, batch_added, bunches_view, delete_reply, get_reply, row_of_request,
    Bunch,
};
use crate::http::table_methods::{keys_reply, rows_reply};
use crate::http::{db_methods, row_methods, table_methods};
use crate::text::same;
use vstd::prelude::*;

verus! {

/// The kinds of request.
#[derive(Clone, Copy, Debug, PartialEq, Eq, Structural)]
pub enum RequestKind {
    GetRow,
    AddRow,
    DeleteRow,
    AddBunch,
    GetTable,
    GetTableData,
    AddTable,
    DeleteTable,
    DeleteDb,
    /// Any request that is not known: it is answered, and nothing is done.
    NoAction,
}

/// The kind that the name of a request stands for.
pub open spec fn kind_of(path: Seq<char>) -> RequestKind {
    if path == "get_row"@ {
        RequestKind::GetRow
    } else if path == "add_row"@ {
        RequestKind::AddRow
    } else if path == "delete_row"@ {
        RequestKind::DeleteRow
    } else if path == "add_bunch"@ {
        RequestKind::AddBunch
    } else if path == "get_table"@ {
        RequestKind::GetTable
    } else if path == "get_table_data"@ {
        RequestKind::GetTableData
    } else if path == "add_table"@ {
        RequestKind::AddTable
    } else if path == "delete_table"@ {
        RequestKind::DeleteTable
    } else if path == "delete_db"@ {
        RequestKind::DeleteDb
    } else {
        RequestKind::NoAction
    }
}

/// The kind that the name of a request stands for.
pub fn request_kind(path: &str) -> (kind: RequestKind)
    ensures
        kind == kind_of(path@),
{
    if same(path, "get_row") {
        RequestKind::GetRow
    } else if same(path, "add_row") {
        RequestKind::AddRow
    } else if same(path, "delete_row") {
        RequestKind::DeleteRow
    } else if same(path, "add_bunch") {
        RequestKind::AddBunch
    } else if same(path, "get_table") {
        RequestKind::GetTable
    } else if same(path, "get_table_data") {
        RequestKind::GetTableData
    } else if same(path, "add_table") {
        RequestKind::AddTable
    } else if same(path, "delete_table") {
        RequestKind::DeleteTable
    } else if same(path, "delete_db") {
        RequestKind::DeleteDb
    } else {
        RequestKind::NoAction
    }
}

/// Whether a request carries a batch of rows in its body, which the caller
/// is to read before the request is handled.
pub fn wants_batch(path: &str) -> (wanted: bool)
    ensures
        wanted == (kind_of(path@) is AddBunch),
{
    match request_kind(path) {
        RequestKind::AddBunch => true,
        _ => false,
    }
}

/// The batch of a request as plain values.
pub open spec fn batch_view(batch: Option<Vec<Bunch>>) -> Option<Seq<BunchView>> {
    match batch {
        Some(list) => Some(bunches_view(list@)),
        None => None,
    }
}

/// The store after a request of the given kind was handled at time `now`.
pub open spec fn store_after(
    kind: RequestKind,
    store: StoreView,
    head: HeadersView,
    body: Seq<char>,
    batch: Option<Seq<BunchView>>,
    now: u128,
) -> StoreView {
    match kind {
        RequestKind::GetRow => store.get(row_of_request(head), now),
        RequestKind::AddRow => add_store(store, head, body, now),
        RequestKind::DeleteRow => store.delete(row_of_request(head)),
        RequestKind::AddBunch => match batch {
            Some(items) => StoreView {
                storage: batch_added(store.storage, head.db, head.table, items),
                ..store
            },
            None => store,
        },
        RequestKind::GetTable => store,
        RequestKind::GetTableData => store,
        RequestKind::AddTable => StoreView {
            storage: store.storage.create_table(head.db, head.table),
            ..store
        },
        RequestKind::DeleteTable => store.delete_table(head.db, head.table),
        RequestKind::DeleteDb => store.delete_db(head.db),
        RequestKind::NoAction => store,
    }
}

/// What a request of the given kind is answered with.
pub open spec fn reply_of(
    kind: RequestKind,
    store: StoreView,
    head: HeadersView,
    body: Seq<char>,
    batch: Option<Seq<BunchView>>,
) -> Result<Seq<char>, Seq<char>> {
    match kind {
        RequestKind::GetRow => get_reply(store, head),
        RequestKind::AddRow => add_reply(store, head, body),
        RequestKind::DeleteRow => Ok(delete_reply(store, head)),
        RequestKind::AddBunch => Ok(
            if batch is Some {
                "bunch was add"@
            } else {
                "0"@
            },
        ),
        RequestKind::GetTable => Ok(keys_reply(store.storage, head)),
        RequestKind::GetTableData => Ok(rows_reply(store.storage, head)),
        RequestKind::AddTable => Ok("1"@),
        RequestKind::DeleteTable => Ok(
            if store.storage.has_table(head.db, head.table) {
                "1"@
            } else {
                "0"@
            },
        ),
        RequestKind::DeleteDb => if store.storage.has_db(head.db) {
            Ok(db_deleted_text())
        } else {
            Err(no_such_db())
        },
        RequestKind::NoAction => Ok("no action"@),
    }
}

/// A reply as plain text values.
pub open spec fn reply_view(reply: Result<String, String>) -> Result<Seq<char>, Seq<char>> {
    match reply {
        Ok(text) => Ok(text@),
        Err(why) => Err(why@),
    }
}

/// Handles a request at time `now`: carries out what its kind asks for and
/// returns the reply. A request of an unknown kind is answered with
/// `no action`. `batch` is the body read as a batch of rows; it is looked
/// at only for a request that adds a batch.
pub fn handle_request(
    cache: &mut Cache,
    storage: &mut Storage,
    path: &str,
    head: &RequestHeaders,
    body: &str,
    batch: &Option<Vec<Bunch>>,
    now: u128,
) -> (reply: Result<String, String>)
    requires
        old(cache)@.sized(),
    ensures
        reply_view(reply) == reply_of(
            kind_of(path@),
            store_of(old(cache)@, old(storage)@),
            head@,
            body@,
            batch_view(*batch),
        ),
        store_of(final(cache)@, final(storage)@) == store_after(
            kind_of(path@),
            store_of(old(cache)@, old(storage)@),
            head@,
            body@,
            batch_view(*batch),
            now,
        ),
        final(cache)@.sized(),
        old(cache)@.paired() ==> final(cache)@.paired(),
        old(cache)@.distinct() ==> final(cache)@.distinct(),
        old(storage)@.wf() ==> final(storage)@.wf(),
{
    match request_kind(path) {
        RequestKind::GetRow => row_methods::get(cache, storage, head, now),
        RequestKind::AddRow => row_methods::add(cache, storage, head, body, now),
        RequestKind::DeleteRow => row_methods::delete(cache, storage, head),
        RequestKind::AddBunch => row_methods::bunch(storage, head, batch),
        RequestKind::GetTable => table_methods::get(storage, head),
        RequestKind::GetTableData => table_methods::get_with_keys(storage, head),
        RequestKind::AddTable => table_methods::create(storage, head),
        RequestKind::DeleteTable => table_methods::delete(cache, storage, head),
        RequestKind::DeleteDb => db_methods::delete(cache, storage, head),
        RequestKind::NoAction => Ok("no action".to_string()),
    }
}

} // verus!
