//! Request handlers for tables.

use crate::cache::cache_table::Cache;
use crate::cache::store_of;
use crate::db::model::{table_rows, BunchView, StorageView};
use crate::db::table::no_such_table;
use crate::db::{names_view, Storage};
use crate::http::receiver::{HeadersView, RequestHeaders};
use crate::http::row_methods::{bunches_view, Bunch};
use crate::text::{
    comma_joined, join, json_list, json_of_text, text_json, texts_as_json, texts_json,
};
use vstd::prelude::*;

verus! {

/// A text with the mark that tells the reader it is JSON.
pub open spec fn marked_json(json: Seq<char>) -> Seq<char> {
    json + "\njson"@
}

/// A row with its key as a JSON object.
pub open spec fn bunch_json(one: BunchView) -> Seq<char> {
    "{\"key\":"@ + json_of_text(one.key) + ",\"value\":"@ + json_of_text(one.value)
        + ",\"_type\":"@ + json_of_text(one._type) + "}"@
}

/// Each row as a JSON object.
pub open spec fn rows_as_json(rows: Seq<BunchView>) -> Seq<Seq<char>> {
    Seq::new(rows.len(), |i: int| bunch_json(rows[i]))
}

/// What listing the keys of a table replies: the keys as a JSON list, or a
/// refusal if the table does not exist.
pub open spec fn keys_reply(storage: StorageView, req: HeadersView) -> Seq<char> {
    if storage.has_table(req.db, req.table) {
        marked_json(json_list(texts_as_json(storage.table_keys(req.db, req.table))))
    } else {
        no_such_table()
    }
}

/// What listing the rows of a table replies: the rows as a JSON list of
/// objects, or a refusal if the table does not exist.
pub open spec fn rows_reply(storage: StorageView, req: HeadersView) -> Seq<char> {
    if storage.has_table(req.db, req.table) {
        marked_json(json_list(rows_as_json(table_rows(storage, req.db, req.table))))
    } else {
        no_such_table()
    }
}

/// Adds one more item to a comma-joined text.
fn push_joined(joined: &mut String, count: usize, item: &str, Ghost(items): Ghost<Seq<Seq<char>>>)
    requires
        count == items.len(),
        old(joined)@ == comma_joined(items),
    ensures
        final(joined)@ == comma_joined(items.push(item@)),
{
    proof {
        assert(items.push(item@).drop_last() == items);
    }
    if count > 0 {
        joined.append(",");
    }
    joined.append(item);
    proof {
        reveal_strlit(",");
        if count == 0 {
            assert(comma_joined(items) == Seq::<char>::empty());
            assert(joined@ == item@);
        }
    }
}

/// The keys as a JSON list: `[` and `]` around the keys, each as JSON,
/// with commas between them.
fn keys_to_json(keys: &Vec<String>) -> (json: String)
    ensures
        json@ == json_list(texts_as_json(names_view(keys@))),
{
    texts_json(keys).unwrap()
}

/// One row with its key as a JSON object with the members `key`, `value`
/// and `_type`, in that order.
fn bunch_to_json(one: &Bunch) -> (json: String)
    ensures
        json@ == bunch_json(one@),
{
    let key = text_json(one.key.as_str()).unwrap();
    let value = text_json(one.value.as_str()).unwrap();
    let type_ = text_json(one._type.as_str()).unwrap();
    let mut json = join("{\"key\":", key.as_str());
    json.append(",\"value\":");
    json.append(value.as_str());
    json.append(",\"_type\":");
    json.append(type_.as_str());
    json.append("}");
    json
}

/// The rows as a JSON list: `[` and `]` around the rows, each as a JSON
/// object, with commas between them.
fn rows_to_json(rows: &Vec<Bunch>) -> (json: String)
    ensures
        json@ == json_list(rows_as_json(bunches_view(rows@))),
{
    let ghost all = rows_as_json(bunches_view(rows@));
    let mut joined = String::new();
    let mut i: usize = 0;
    while i < rows.len()
        invariant
            i <= rows.len(),
            all == rows_as_json(bunches_view(rows@)),
            joined@ == comma_joined(all.take(i as int)),
        decreases rows.len() - i,
    {
        let item = bunch_to_json(&rows[i]);
        push_joined(&mut joined, i, item.as_str(), Ghost(all.take(i as int)));
        proof {
            assert(all.take(i + 1) == all.take(i as int).push(item@));
        }
        i += 1;
    }
    proof {
        assert(all.take(i as int) == all);
    }
    let mut json = join("[", joined.as_str());
    json.append("]");
    json
}

/// Lists the keys of the table that the request speaks of, as JSON. A
/// table that does not exist is answered with a refusal, in an `Ok` too.
pub fn get(storage: &Storage, req: &RequestHeaders) -> (r: Result<String, String>)
    ensures
        r is Ok,
        r->Ok_0@ == keys_reply(storage@, req@),
{
    match crate::db::table::get_table(storage, req.db.as_str(), req.table.as_str()) {
        Ok(keys) => {
            let mut json = keys_to_json(&keys);
            json.append("\njson");
            Ok(json)
        },
        Err(err) => Ok(err),
    }
}

/// Lists the rows of the table that the request speaks of with their
/// keys, as JSON. A table that does not exist is answered with a refusal,
/// in an `Ok` too.
pub fn get_with_keys(storage: &Storage, req: &RequestHeaders) -> (r: Result<String, String>)
    ensures
        r is Ok,
        r->Ok_0@ == rows_reply(storage@, req@),
{
    match crate::db::table::get_table_with_keys(storage, req.db.as_str(), req.table.as_str()) {
        Ok(rows) => {
            let mut json = rows_to_json(&rows);
            json.append("\njson");
            Ok(json)
        },
        Err(err) => Ok(err),
    }
}

/// Creates the table that the request speaks of. Replies `1`.
pub fn create(storage: &mut Storage, req: &RequestHeaders) -> (r: Result<String, String>)
    ensures
        r is Ok,
        r->Ok_0@ == "1"@,
        final(storage)@ == old(storage)@.create_table(req@.db, req@.table),
        old(storage)@.wf() ==> final(storage)@.wf(),
{
    let status = crate::db::table::create_table(storage, req.db.as_str(), req.table.as_str());
    if status {
        Ok("1".to_string())
    } else {
        Ok("0".to_string())
    }
}

/// Deletes the table that the request speaks of, from storage and from the
/// cache. Replies `1` if storage had the table, `0` if not.
pub fn delete(cache: &mut Cache, storage: &mut Storage, req: &RequestHeaders) -> (r: Result<
    String,
    String,
>)
    ensures
        r is Ok,
        r->Ok_0@ == if old(storage)@.has_table(req@.db, req@.table) {
            "1"@
        } else {
            "0"@
        },
        store_of(final(cache)@, final(storage)@) == store_of(
            old(cache)@,
            old(storage)@,
        ).delete_table(req@.db, req@.table),
        old(cache)@.sized() ==> final(cache)@.sized(),
        old(cache)@.paired() ==> final(cache)@.paired(),
        old(cache)@.distinct() ==> final(cache)@.distinct(),
        old(storage)@.wf() ==> final(storage)@.wf(),
{
    let status = crate::cache::delete_table(cache, storage, req.db.as_str(), req.table.as_str());
    if status {
        Ok("1".to_string())
    } else {
        Ok("0".to_string())
    }
}

} // verus!
