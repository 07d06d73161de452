//! Tables on storage: creating, listing, deleting.

use crate::db::model::{bunch_at, table_rows, BunchView};
use crate::seqs::lemma_filter_map_step;
use crate::db::{names_view, Storage};
use crate::http::row_methods::{bunches_view, Bunch};
use vstd::prelude::*;

verus! {

/// Reply when a table that is to be listed does not exist.
pub open spec fn no_such_table() -> Seq<char> {
    "{\"code\": 400, \"message\": \"no such table\"}\njson"@
}

/// The keys of the rows in a table. Fails if the table does not exist.
pub fn get_table(storage: &Storage, db: &str, name: &str) -> (r: Result<Vec<String>, String>)
    ensures
        match r {
            Ok(keys) => storage@.has_table(db@, name@) && names_view(keys@) == storage@.table_keys(
                db@,
                name@,
            ),
            Err(why) => !storage@.has_table(db@, name@) && why@ == no_such_table(),
        },
{
    if !storage.has_table(db, name) {
        return Err("{\"code\": 400, \"message\": \"no such table\"}\njson".to_string());
    }
    Ok(storage.keys_in(db, name))
}

/// The rows of a table with their keys. A row that cannot be read is left
/// out. Fails if the table does not exist.
pub fn get_table_with_keys(storage: &Storage, db: &str, name: &str) -> (r: Result<
    Vec<Bunch>,
    String,
>)
    ensures
        match r {
            Ok(rows) => storage@.has_table(db@, name@) && bunches_view(rows@) == table_rows(
                storage@,
                db@,
                name@,
            ),
            Err(why) => !storage@.has_table(db@, name@) && why@ == no_such_table(),
        },
{
    if !storage.has_table(db, name) {
        return Err("{\"code\": 400, \"message\": \"no such table\"}\njson".to_string());
    }
    let keys = storage.keys_in(db, name);
    let ghost all = names_view(keys@);
    let ghost pick = bunch_at(storage@, db@, name@);
    let mut rows: Vec<Bunch> = Vec::new();
    let mut i: usize = 0;
    assert(all.take(0).filter_map(pick) == Seq::<BunchView>::empty());
    while i < keys.len()
        invariant
            i <= keys.len(),
            all == names_view(keys@),
            pick == bunch_at(storage@, db@, name@),
            bunches_view(rows@) == all.take(i as int).filter_map(pick),
        decreases keys.len() - i,
    {
        proof {
            lemma_filter_map_step(all, pick, i as int);
        }
        let key = &keys[i];
        match crate::db::row::read_row(storage, db, name, key.as_str()) {
            Ok(row) => {
                let ghost before = bunches_view(rows@);
                let one = Bunch {
                    key: key.clone(),
                    value: row.value().to_string(),
                    _type: row.type_().to_string(),
                };
                rows.push(one);
                assert(bunches_view(rows@) == before.push(one@));
            },
            Err(_) => {},
        }
        i += 1;
    }
    assert(all.take(i as int) == all);
    Ok(rows)
}

/// Creates a table, and its database if that is missing. A table that
/// exists is left as it is. Returns `true`: in this picture of the file
/// system a directory can always be made.
pub fn create_table(storage: &mut Storage, db: &str, name: &str) -> (created: bool)
    ensures
        created,
        final(storage)@ == old(storage)@.create_table(db@, name@),
        old(storage)@.wf() ==> final(storage)@.wf(),
{
    proof {
        if storage@.wf() {
            crate::db::facts::lemma_create_table_keeps_wf(storage@, db@, name@);
        }
    }
    if !storage.has_db(db) {
        crate::db::create_db(storage, db);
    }
    if !storage.has_table(db, name) {
        storage.push_table(db, name);
    }
    true
}

/// Deletes a table with every row in it. Its database is made if it is
/// missing. Returns whether there was a table to delete.
pub fn delete_table(storage: &mut Storage, db: &str, name: &str) -> (deleted: bool)
    ensures
        deleted == old(storage)@.has_table(db@, name@),
        final(storage)@ == old(storage)@.delete_table(db@, name@),
        old(storage)@.wf() ==> final(storage)@.wf(),
{
    proof {
        if storage@.wf() {
            crate::db::facts::lemma_delete_table_keeps_wf(storage@, db@, name@);
        }
    }
    if !storage.has_db(db) {
        crate::db::create_db(storage, db);
    }
    if !storage.has_table(db, name) {
        return false;
    }
    storage.remove_tables(db, Some(name));
    storage.remove_rows(db, Some(name), None);
    let path = crate::db::table_path_of(storage.db_path(), db, name);
    storage.note(crate::db::FsEffect::RemoveDirAll(path));
    true
}

/// Whether the database holds a table of this name.
pub fn is_table_exist(storage: &Storage, db: &str, name: &str) -> (found: bool)
    ensures
        found == storage@.has_table(db@, name@),
{
    storage.has_table(db, name)
}

} // verus!
