//! Rows on storage: adding, reading, deleting.

use crate::db::model::{read_outcome, RowId, RowState};
use crate::db::Storage;
use crate::record::{encode_row, Row};
use vstd::prelude::*;

verus! {

/// Adds a row: makes its database and its table if they are missing and
/// appends the row's record to its file.
///
/// A file that exists is not replaced: the record is appended to what it
/// holds, so that reading gives the row added last.
pub fn add_row(storage: &mut Storage, db: &str, table: &str, key: &str, row: &mut Row) -> (added:
    bool)
    ensures
        added,
        final(row)@ == old(row)@,
        final(storage)@ == old(storage)@.add_row(
            RowId { db: db@, table: table@, key: key@ },
            encode_row(old(row)@),
        ),
        old(storage)@.wf() ==> final(storage)@.wf(),
{
    let bytes = row.encode();
    storage.append_row_bytes(db, table, key, bytes.as_slice());
    true
}

/// Reads a row. Fails if its database, its table or its file is missing,
/// or if the file does not hold a record.
pub fn read_row(storage: &Storage, db: &str, table: &str, key: &str) -> (r: Result<Row, String>)
    ensures
        match r {
            Ok(row) => read_outcome(storage@, RowId { db: db@, table: table@, key: key@ }) == Ok::<
                _,
                Seq<char>,
            >(row@),
            Err(why) => read_outcome(storage@, RowId { db: db@, table: table@, key: key@ })
                == Err::<crate::record::RowView, _>(why@),
        },
{
    if !storage.has_db(db) {
        return Err("[ ERROR ] Row: DB is not exist".to_string());
    }
    if !storage.has_table(db, table) {
        return Err("[ ERROR ] Row: Table is not exist".to_string());
    }
    match storage.row_bytes(db, table, key) {
        None => Err("0".to_string()),
        Some(bytes) => match Row::decode(bytes.as_slice()) {
            Some(row) => Ok(row),
            None => Err("[ ERROR ] Row: Can not merge from bytes".to_string()),
        },
    }
}

/// Deletes a row. Returns whether there was one to delete: its database,
/// its table and its file must all exist.
pub fn delete_row(storage: &mut Storage, db: &str, table: &str, key: &str) -> (deleted: bool)
    ensures
        deleted == (old(storage)@.row_state(RowId { db: db@, table: table@, key: key@ })
            is Present),
        final(storage)@ == old(storage)@.delete_row(RowId { db: db@, table: table@, key: key@ }),
        old(storage)@.wf() ==> final(storage)@.wf(),
{
    proof {
        if storage@.wf() {
            crate::db::facts::lemma_delete_row_keeps_wf(
                storage@,
                RowId { db: db@, table: table@, key: key@ },
            );
        }
    }
    match is_row_exist(storage, db, table, key) {
        Ok(_) => {},
        Err(_) => {
            return false;
        },
    }
    storage.remove_rows(db, Some(table), Some(key));
    let path = crate::db::row_path_of(storage.db_path(), db, table, key);
    storage.note(crate::db::FsEffect::RemoveFile(path));
    true
}

/// Whether a row exists; if not, which of its database, its table and its
/// file is the first to be missing.
pub fn is_row_exist(storage: &Storage, db: &str, table: &str, key: &str) -> (r: Result<
    (),
    String,
>)
    ensures
        match storage@.row_state(RowId { db: db@, table: table@, key: key@ }) {
            RowState::NoDatabase => r is Err && r->Err_0@ == "[ ERROR ] Row: DB is not exist"@,
            RowState::NoTable => r is Err && r->Err_0@ == "[ ERROR ] Row: Table is not exist"@,
            RowState::NoRow => r is Err && r->Err_0@ == "[ ERROR ] Row: is not exist"@,
            RowState::Present => r is Ok,
        },
{
    if !storage.has_db(db) {
        return Err("[ ERROR ] Row: DB is not exist".to_string());
    }
    if !storage.has_table(db, table) {
        return Err("[ ERROR ] Row: Table is not exist".to_string());
    }
    if !storage.has_row(db, table, key) {
        return Err("[ ERROR ] Row: is not exist".to_string());
    }
    Ok(())
}

} // verus!
