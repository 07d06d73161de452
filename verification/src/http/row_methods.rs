//! Request handlers for single rows and for batches of rows.

use crate::cache::cache_table::Cache;
use crate::cache::model::StoreView;
use crate::cache::store_of;
use crate::db::model::{BunchView, RowId, StorageView};
use crate::db::Storage;
use crate::http::receiver::{HeadersView, RequestHeaders};
use crate::record::{encode_row, Row, RowView};
use crate::text::join;
use crate::types::{fault_of, is_valid_data};
use vstd::prelude::*;

verus! {

/// A key with the value and the type of its row.
#[derive(Debug)]
pub struct Bunch {
    pub key: String,
    pub value: String,
    pub _type: String,
}

impl View for Bunch {
    type V = BunchView;

    open spec fn view(&self) -> BunchView {
        BunchView { key: self.key@, value: self.value@, _type: self._type@ }
    }
}

/// The entries of a list, as plain text values.
pub open spec fn bunches_view(list: Seq<Bunch>) -> Seq<BunchView> {
    Seq::new(list.len(), |i: int| list[i]@)
}

/// The row that a request speaks of.
pub open spec fn row_of_request(req: HeadersView) -> RowId {
    RowId { db: req.db, table: req.table, key: req.key }
}

/// Reply to a get that found the row: the value, a line feed, the type.
pub open spec fn row_text(row: RowView) -> Seq<char> {
    row.value + "\n"@ + row.type_
}

/// Reply that wraps a message in a status of 400.
pub open spec fn refusal_text(why: Seq<char>) -> Seq<char> {
    "{\"code\": 400, \"message\": \""@ + why + "\"}\njson"@
}

/// Reply to an add that went through.
pub open spec fn added_text() -> Seq<char> {
    "{\"code\": 200, \"message\": \"New value was add\"}\njson"@
}

/// Reply to a delete that went through.
pub open spec fn row_deleted_text() -> Seq<char> {
    "{\"code\": 200, \"message\": \"Row was delete\"}\njson"@
}

/// What a get replies.
pub open spec fn get_reply(store: StoreView, req: HeadersView) -> Result<Seq<char>, Seq<char>> {
    match store.get_result(row_of_request(req)) {
        Ok(row) => Ok(row_text(row)),
        Err(why) => Err(why),
    }
}

/// What an add replies: the refusal of the type check if the value does
/// not go with its type, else whether the cache took the row.
pub open spec fn add_reply(store: StoreView, req: HeadersView, value: Seq<char>) -> Result<
    Seq<char>,
    Seq<char>,
> {
    match fault_of(value, req._type) {
        Some(why) => Err(refusal_text(why)),
        None => if store.add_refused(row_of_request(req)) {
            Err("0"@)
        } else {
            Ok(added_text())
        },
    }
}

/// The store after an add: as it was if the type check refused the value,
/// else what the cache makes of the add.
pub open spec fn add_store(store: StoreView, req: HeadersView, value: Seq<char>, now: u128)
    -> StoreView {
    if fault_of(value, req._type) is Some {
        store
    } else {
        store.add(row_of_request(req), value, req._type, now)
    }
}

/// What a delete replies: always `Ok`, with the status in the text.
pub open spec fn delete_reply(store: StoreView, req: HeadersView) -> Seq<char> {
    match store.delete_result(row_of_request(req)) {
        Ok(_) => row_deleted_text(),
        Err(why) => refusal_text(why),
    }
}

/// Storage after the rows of a batch were added in order.
pub open spec fn batch_added(
    storage: StorageView,
    db: Seq<char>,
    table: Seq<char>,
    items: Seq<BunchView>,
) -> StorageView
    decreases items.len(),
{
    if items.len() == 0 {
        storage
    } else {
        let item = items.last();
        batch_added(storage, db, table, items.drop_last()).add_row(
            RowId { db, table, key: item.key },
            encode_row(RowView { value: item.value, type_: item._type }),
        )
    }
}

/// Gets the row that the request speaks of, at time `now`. Replies with
/// the value, a line feed and the type.
pub fn get(cache: &mut Cache, storage: &Storage, req: &RequestHeaders, now: u128) -> (r: Result<
    String,
    String,
>)
    requires
        old(cache)@.sized(),
    ensures
        match r {
            Ok(text) => get_reply(store_of(old(cache)@, storage@), req@) == Ok::<_, Seq<char>>(
                text@,
            ),
            Err(why) => get_reply(store_of(old(cache)@, storage@), req@) == Err::<Seq<char>, _>(
                why@,
            ),
        },
        store_of(final(cache)@, storage@) == store_of(old(cache)@, storage@).get(
            row_of_request(req@),
            now,
        ),
        final(cache)@.sized(),
        old(cache)@.paired() ==> final(cache)@.paired(),
        old(cache)@.distinct() ==> final(cache)@.distinct(),
{
    let data = crate::cache::get(
        cache,
        storage,
        req.db.as_str(),
        req.table.as_str(),
        req.key.as_str(),
        now,
    );
    match data {
        Ok(row) => {
            let mut text = join(row.value(), "\n");
            text.append(row.type_());
            Ok(text)
        },
        Err(err) => Err(err),
    }
}

/// Adds the row that the request speaks of, at time `now`. A value that
/// does not go with the type of the request is refused before the cache
/// or storage is touched.
pub fn add(
    cache: &mut Cache,
    storage: &mut Storage,
    req: &RequestHeaders,
    value: &str,
    now: u128,
) -> (r: Result<String, String>)
    requires
        old(cache)@.sized(),
    ensures
        match r {
            Ok(text) => add_reply(store_of(old(cache)@, old(storage)@), req@, value@) == Ok::<
                _,
                Seq<char>,
            >(text@),
            Err(why) => add_reply(store_of(old(cache)@, old(storage)@), req@, value@) == Err::<
                Seq<char>,
                _,
            >(why@),
        },
        store_of(final(cache)@, final(storage)@) == add_store(
            store_of(old(cache)@, old(storage)@),
            req@,
            value@,
            now,
        ),
        final(cache)@.sized(),
        old(cache)@.paired() ==> final(cache)@.paired(),
        old(cache)@.distinct() ==> final(cache)@.distinct(),
        old(storage)@.wf() ==> final(storage)@.wf(),
{
    match is_valid_data(value, req._type.as_str()) {
        Ok(_) => {},
        Err(err) => {
            let mut text = join("{\"code\": 400, \"message\": \"", err.as_str());
            text.append("\"}\njson");
            return Err(text);
        },
    }
    let status = crate::cache::add(
        cache,
        storage,
        req.db.as_str(),
        req.table.as_str(),
        req.key.as_str(),
        value,
        req._type.as_str(),
        now,
    );
    if status {
        Ok("{\"code\": 200, \"message\": \"New value was add\"}\njson".to_string())
    } else {
        Err("0".to_string())
    }
}

/// Adds a batch of rows to the table that the request speaks of, straight
/// to storage. `items` is the batch as it was read from the body of the
/// request, `None` if the body could not be read as a batch.
pub fn bunch(storage: &mut Storage, req: &RequestHeaders, items: &Option<Vec<Bunch>>) -> (r: Result<
    String,
    String,
>)
    ensures
        r is Ok,
        match items {
            Some(list) => r->Ok_0@ == "bunch was add"@ && final(storage)@ == batch_added(
                old(storage)@,
                req@.db,
                req@.table,
                bunches_view(list@),
            ),
            None => r->Ok_0@ == "0"@ && final(storage)@ == old(storage)@,
        },
        old(storage)@.wf() ==> final(storage)@.wf(),
{
    let list = match items {
        Some(list) => list,
        None => {
            return Ok("0".to_string());
        },
    };
    let ghost all = bunches_view(list@);
    let mut status = true;
    let mut i: usize = 0;
    while i < list.len()
        invariant
            i <= list.len(),
            status,
            old(storage)@.wf() ==> storage@.wf(),
            all == bunches_view(list@),
            storage@ == batch_added(old(storage)@, req@.db, req@.table, all.take(i as int)),
        decreases list.len() - i,
    {
        let elem = &list[i];
        let mut row = Row::new();
        row.set_value(elem.value.clone());
        row.set_type(elem._type.clone());
        proof {
            assert(all.take(i + 1).drop_last() == all.take(i as int));
            assert(all.take(i + 1).last() == elem@);
            assert(row@ == (RowView { value: elem@.value, type_: elem@._type }));
        }
        status = crate::db::row::add_row(
            storage,
            req.db.as_str(),
            req.table.as_str(),
            elem.key.as_str(),
            &mut row,
        );
        i += 1;
    }
    proof {
        assert(all.take(i as int) == all);
    }
    if status {
        Ok("bunch was add".to_string())
    } else {
        Ok("can't add bunch".to_string())
    }
}

/// Deletes the row that the request speaks of. The reply is always `Ok`;
/// its text says whether storage had the row.
pub fn delete(cache: &mut Cache, storage: &mut Storage, req: &RequestHeaders) -> (r: Result<
    String,
    String,
>)
    ensures
        r is Ok,
        r->Ok_0@ == delete_reply(store_of(old(cache)@, old(storage)@), req@),
        store_of(final(cache)@, final(storage)@) == store_of(old(cache)@, old(storage)@).delete(
            row_of_request(req@),
        ),
        final(cache)@.sized(),
        old(cache)@.paired() ==> final(cache)@.paired(),
        old(cache)@.distinct() ==> final(cache)@.distinct(),
        old(storage)@.wf() ==> final(storage)@.wf(),
{
    let status = crate::cache::delete(
        cache,
        storage,
        req.db.as_str(),
        req.table.as_str(),
        req.key.as_str(),
    );
    match status {
        Ok(_) => Ok("{\"code\": 200, \"message\": \"Row was delete\"}\njson".to_string()),
        Err(err) => {
            let mut text = join("{\"code\": 400, \"message\": \"", err.as_str());
            text.append("\"}\njson");
            Ok(text)
        },
    }
}

} // verus!
