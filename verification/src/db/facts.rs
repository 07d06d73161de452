//! What holds of the storage engine, whatever it holds.

use crate::db::model::{db_name, row_id, table_id};
use crate::db::model::{
    dbs_kept, is_first_row, lemma_first_row, lemma_row_at, read_outcome, rows_kept,
    tables_kept, RowFileView, RowId, StorageView, TableId,
};
use crate::record::{decode_row, empty_row, encodable, encode_row, lemma_decode_appended, RowView};
use crate::seqs::{lemma_filter_keeps_distinct, lemma_filter_members};
use vstd::prelude::*;

verus! {

/// Whether the file of a row, if there is one, holds a record.
pub open spec fn file_is_sound(storage: StorageView, id: RowId) -> bool {
    storage.has_row(id) ==> decode_row(storage.stored(id)->0) is Some
}

/// Making a database leaves tables and rows alone, keeps the databases
/// that were there, and the database exists afterwards.
pub proof fn lemma_create_db(storage: StorageView, db: Seq<char>)
    ensures
        storage.create_db(db).has_db(db),
        storage.create_db(db).tables == storage.tables,
        storage.create_db(db).rows == storage.rows,
        forall|other: Seq<char>| storage.has_db(other) ==> storage.create_db(other).has_db(other),
        forall|other: Seq<char>|
            #[trigger] storage.create_db(db).has_db(other) <==> storage.has_db(other) || other
                == db,
{
    let after = storage.create_db(db);
    if !storage.has_db(db) {
        assert(after.dbs == storage.dbs.push(db));
        assert(after.dbs[storage.dbs.len() as int] == db);
        assert forall|other: Seq<char>| #[trigger]
            after.has_db(other) <==> storage.has_db(other) || other == db by {
            if storage.has_db(other) {
                let i = choose|i: int| 0 <= i < storage.dbs.len() && storage.dbs[i] == other;
                assert(after.dbs[i] == other);
            }
            if after.has_db(other) {
                let i = choose|i: int| 0 <= i < after.dbs.len() && after.dbs[i] == other;
                if i < storage.dbs.len() {
                    assert(storage.dbs[i] == other);
                }
            }
        }
    }
}

/// Making a table leaves rows alone, and the table and its database exist
/// afterwards.
pub proof fn lemma_create_table(storage: StorageView, db: Seq<char>, table: Seq<char>)
    ensures
        storage.create_table(db, table).has_db(db),
        storage.create_table(db, table).has_table(db, table),
        storage.create_table(db, table).rows == storage.rows,
{
    lemma_create_db(storage, db);
    let with_db = if storage.has_db(db) {
        storage
    } else {
        storage.create_db(db)
    };
    let after = storage.create_table(db, table);
    if !with_db.has_table(db, table) {
        assert(after.tables == with_db.tables.push(TableId { db, name: table }));
        assert(after.tables[with_db.tables.len() as int] == (TableId { db, name: table }));
    }
}

/// After bytes were written to a row's file, the file holds what it held
/// before, if anything, and then those bytes.
pub proof fn lemma_write_row(storage: StorageView, id: RowId, bytes: Seq<u8>)
    ensures
        storage.write_row(id, bytes).has_row(id),
        storage.write_row(id, bytes).stored(id) == Some(
            if storage.has_row(id) {
                storage.stored(id)->0 + bytes
            } else {
                bytes
            },
        ),
        storage.write_row(id, bytes).dbs == storage.dbs,
        storage.write_row(id, bytes).tables == storage.tables,
{
    let after = storage.write_row(id, bytes);
    if storage.has_row(id) {
        let i = storage.row_at(id);
        lemma_row_at(storage, id);
        assert(is_first_row(after.rows, id, i));
        lemma_first_row(after, id, i);
    } else {
        let n = storage.rows.len() as int;
        assert(after.rows == storage.rows.push(RowFileView { id, bytes }));
        assert forall|j: int| 0 <= j < n implies after.rows[j].id != id by {
            assert(storage.rows[j].id != id);
        }
        assert(is_first_row(after.rows, id, n));
        lemma_first_row(after, id, n);
    }
}

/// A row that was added can be read back. The file must have been absent
/// or have held a record before; the row that is read is the one added.
pub proof fn lemma_read_after_add_row(storage: StorageView, id: RowId, row: RowView)
    requires
        encodable(row),
        file_is_sound(storage, id),
    ensures
        read_outcome(storage.add_row(id, encode_row(row)), id) == Ok::<RowView, Seq<char>>(row),
{
    lemma_create_db(storage, id.db);
    let with_db = if storage.has_db(id.db) {
        storage
    } else {
        storage.create_db(id.db)
    };
    lemma_create_table(with_db, id.db, id.table);
    let with_table = if with_db.has_table(id.db, id.table) {
        with_db
    } else {
        with_db.create_table(id.db, id.table)
    };
    assert(with_table.rows == storage.rows);
    assert(with_table.has_row(id) == storage.has_row(id));
    assert(with_table.row_at(id) == storage.row_at(id));
    lemma_write_row(with_table, id, encode_row(row));
    let after = storage.add_row(id, encode_row(row));
    if storage.has_row(id) {
        lemma_decode_appended(empty_row(), storage.stored(id)->0, row);
    } else {
        lemma_decode_appended(empty_row(), Seq::empty(), row);
        assert(Seq::<u8>::empty() + encode_row(row) == encode_row(row));
    }
}

/// A row that was deleted cannot be read.
pub proof fn lemma_read_after_delete_row(storage: StorageView, id: RowId)
    ensures
        read_outcome(storage.delete_row(id), id) is Err,
{
    let after = storage.delete_row(id);
    if storage.row_state(id) is Present {
        let keep = rows_kept(id.db, Some(id.table), Some(id.key));
        lemma_filter_members(storage.rows, keep);
        if after.has_row(id) {
            let i = choose|i: int| 0 <= i < after.rows.len() && after.rows[i].id == id;
            assert(after.rows.contains(after.rows[i]));
            assert(keep(after.rows[i]));
        }
    }
}

/// A table that was deleted is gone, and no row of it can be read.
pub proof fn lemma_delete_table(
    storage: StorageView,
    db: Seq<char>,
    table: Seq<char>,
    key: Seq<char>,
)
    ensures
        !storage.delete_table(db, table).has_table(db, table),
        read_outcome(storage.delete_table(db, table), RowId { db, table, key }) is Err,
{
    lemma_create_db(storage, db);
    let with_db = if storage.has_db(db) {
        storage
    } else {
        storage.create_db(db)
    };
    let after = storage.delete_table(db, table);
    if with_db.has_table(db, table) {
        let keep = tables_kept(db, Some(table));
        lemma_filter_members(with_db.tables, keep);
        if after.has_table(db, table) {
            assert(after.tables.contains(TableId { db, name: table }));
            assert(keep(TableId { db, name: table }));
        }
    }
}

/// Making a database keeps a storage well formed.
pub proof fn lemma_create_db_keeps_wf(storage: StorageView, db: Seq<char>)
    requires
        storage.wf(),
    ensures
        storage.create_db(db).wf(),
        storage.init().wf(),
{
    lemma_create_db(storage, db);
    let after = storage.create_db(db);
    assert forall|i: int, j: int| 0 <= i < j < after.dbs.len() implies db_name()(after.dbs[i])
        != db_name()(after.dbs[j]) by {
        if j < storage.dbs.len() {
            assert(db_name()(storage.dbs[i]) != db_name()(storage.dbs[j]));
        } else {
            assert(storage.dbs.contains(storage.dbs[i]));
        }
    }
    assert forall|i: int| 0 <= i < after.tables.len() implies after.has_db(
        (#[trigger] after.tables[i]).db,
    ) by {
        assert(storage.has_db(storage.tables[i].db));
    }
    assert forall|i: int| 0 <= i < after.rows.len() implies after.has_table(
        (#[trigger] after.rows[i]).id.db,
        after.rows[i].id.table,
    ) by {
        assert(storage.has_table(storage.rows[i].id.db, storage.rows[i].id.table));
    }
}

/// Making a table keeps a storage well formed.
pub proof fn lemma_create_table_keeps_wf(storage: StorageView, db: Seq<char>, table: Seq<char>)
    requires
        storage.wf(),
    ensures
        storage.create_table(db, table).wf(),
{
    lemma_create_db_keeps_wf(storage, db);
    lemma_create_db(storage, db);
    let with_db = if storage.has_db(db) {
        storage
    } else {
        storage.create_db(db)
    };
    let after = storage.create_table(db, table);
    if !with_db.has_table(db, table) {
        let n = with_db.tables.len() as int;
        assert(after.tables == with_db.tables.push(TableId { db, name: table }));
        assert forall|i: int, j: int| 0 <= i < j < after.tables.len() implies table_id()(
            after.tables[i],
        ) != table_id()(after.tables[j]) by {
            if j < n {
                assert(table_id()(with_db.tables[i]) != table_id()(with_db.tables[j]));
            } else {
                assert(with_db.tables.contains(with_db.tables[i]));
            }
        }
        assert forall|i: int| 0 <= i < after.tables.len() implies after.has_db(
            (#[trigger] after.tables[i]).db,
        ) by {
            if i < n {
                assert(with_db.has_db(with_db.tables[i].db));
            }
        }
        assert forall|i: int| 0 <= i < after.rows.len() implies after.has_table(
            (#[trigger] after.rows[i]).id.db,
            after.rows[i].id.table,
        ) by {
            let wanted = TableId { db: with_db.rows[i].id.db, name: with_db.rows[i].id.table };
            assert(with_db.tables.contains(wanted));
            let j = choose|j: int| 0 <= j < n && with_db.tables[j] == wanted;
            assert(after.tables[j] == wanted);
        }
    }
}

/// Adding a row keeps a storage well formed.
pub proof fn lemma_add_row_keeps_wf(storage: StorageView, id: RowId, bytes: Seq<u8>)
    requires
        storage.wf(),
    ensures
        storage.add_row(id, bytes).wf(),
{
    lemma_create_db_keeps_wf(storage, id.db);
    lemma_create_db(storage, id.db);
    let with_db = if storage.has_db(id.db) {
        storage
    } else {
        storage.create_db(id.db)
    };
    lemma_create_table_keeps_wf(with_db, id.db, id.table);
    lemma_create_table(with_db, id.db, id.table);
    let with_table = if with_db.has_table(id.db, id.table) {
        with_db
    } else {
        with_db.create_table(id.db, id.table)
    };
    let after = with_table.write_row(id, bytes);
    assert(after.tables == with_table.tables);
    assert(after.dbs == with_table.dbs);
    if with_table.has_row(id) {
        lemma_row_at(with_table, id);
    }
    assert forall|i: int, j: int| 0 <= i < j < after.rows.len() implies row_id()(after.rows[i])
        != row_id()(after.rows[j]) by {
        if j < with_table.rows.len() {
            assert(row_id()(with_table.rows[i]) != row_id()(with_table.rows[j]));
        } else {
            assert(with_table.rows[i].id != id);
        }
    }
    assert forall|i: int| 0 <= i < after.rows.len() implies after.has_table(
        (#[trigger] after.rows[i]).id.db,
        after.rows[i].id.table,
    ) by {
        if i < with_table.rows.len() && after.rows[i].id == with_table.rows[i].id {
            assert(with_table.has_table(with_table.rows[i].id.db, with_table.rows[i].id.table));
        }
    }
    assert forall|i: int| 0 <= i < after.tables.len() implies after.has_db(
        (#[trigger] after.tables[i]).db,
    ) by {
        assert(with_table.has_db(with_table.tables[i].db));
    }
}

/// Deleting a row keeps a storage well formed.
pub proof fn lemma_delete_row_keeps_wf(storage: StorageView, id: RowId)
    requires
        storage.wf(),
    ensures
        storage.delete_row(id).wf(),
{
    let after = storage.delete_row(id);
    if storage.row_state(id) is Present {
        lemma_filter_members(storage.rows, rows_kept(id.db, Some(id.table), Some(id.key)));
        lemma_filter_keeps_distinct(
            storage.rows,
            rows_kept(id.db, Some(id.table), Some(id.key)),
            row_id(),
        );
        assert forall|i: int| 0 <= i < after.rows.len() implies after.has_table(
            (#[trigger] after.rows[i]).id.db,
            after.rows[i].id.table,
        ) by {
            let row = after.rows[i];
            assert(after.rows.contains(row));
            assert(storage.rows.contains(row));
            let j = choose|j: int| 0 <= j < storage.rows.len() && storage.rows[j] == row;
            assert(storage.has_table(storage.rows[j].id.db, storage.rows[j].id.table));
        }
        assert forall|i: int| 0 <= i < after.tables.len() implies after.has_db(
            (#[trigger] after.tables[i]).db,
        ) by {
            assert(storage.has_db(storage.tables[i].db));
        }
    }
}

/// Deleting a table keeps a storage well formed.
pub proof fn lemma_delete_table_keeps_wf(storage: StorageView, db: Seq<char>, table: Seq<char>)
    requires
        storage.wf(),
    ensures
        storage.delete_table(db, table).wf(),
{
    lemma_create_db_keeps_wf(storage, db);
    let with_db = if storage.has_db(db) {
        storage
    } else {
        storage.create_db(db)
    };
    let after = storage.delete_table(db, table);
    if with_db.has_table(db, table) {
        lemma_filter_members(with_db.tables, tables_kept(db, Some(table)));
        lemma_filter_members(with_db.rows, rows_kept(db, Some(table), None));
        lemma_filter_keeps_distinct(with_db.tables, tables_kept(db, Some(table)), table_id());
        lemma_filter_keeps_distinct(with_db.rows, rows_kept(db, Some(table), None), row_id());
        assert forall|i: int| 0 <= i < after.tables.len() implies after.has_db(
            (#[trigger] after.tables[i]).db,
        ) by {
            let one = after.tables[i];
            assert(after.tables.contains(one));
            assert(with_db.tables.contains(one));
            let j = choose|j: int| 0 <= j < with_db.tables.len() && with_db.tables[j] == one;
            assert(with_db.has_db(with_db.tables[j].db));
        }
        assert forall|i: int| 0 <= i < after.rows.len() implies after.has_table(
            (#[trigger] after.rows[i]).id.db,
            after.rows[i].id.table,
        ) by {
            let row = after.rows[i];
            assert(after.rows.contains(row));
            assert(with_db.rows.contains(row));
            let j = choose|j: int| 0 <= j < with_db.rows.len() && with_db.rows[j] == row;
            assert(with_db.has_table(with_db.rows[j].id.db, with_db.rows[j].id.table));
            let wanted = TableId { db: row.id.db, name: row.id.table };
            assert(with_db.tables.contains(wanted));
            assert(tables_kept(db, Some(table))(wanted));
            assert(after.tables.contains(wanted));
        }
    }
}

/// Deleting a database keeps a storage well formed.
pub proof fn lemma_delete_db_keeps_wf(storage: StorageView, db: Seq<char>)
    requires
        storage.wf(),
    ensures
        storage.delete_db(db).wf(),
{
    let after = storage.delete_db(db);
    if storage.has_db(db) {
        lemma_filter_members(storage.dbs, dbs_kept(db));
        lemma_filter_members(storage.tables, tables_kept(db, None));
        lemma_filter_members(storage.rows, rows_kept(db, None, None));
        lemma_filter_keeps_distinct(storage.dbs, dbs_kept(db), db_name());
        lemma_filter_keeps_distinct(storage.tables, tables_kept(db, None), table_id());
        lemma_filter_keeps_distinct(storage.rows, rows_kept(db, None, None), row_id());
        assert forall|i: int| 0 <= i < after.tables.len() implies after.has_db(
            (#[trigger] after.tables[i]).db,
        ) by {
            let one = after.tables[i];
            assert(after.tables.contains(one));
            assert(storage.tables.contains(one));
            let j = choose|j: int| 0 <= j < storage.tables.len() && storage.tables[j] == one;
            assert(storage.has_db(storage.tables[j].db));
            assert(dbs_kept(db)(one.db));
            assert(after.dbs.contains(one.db));
        }
        assert forall|i: int| 0 <= i < after.rows.len() implies after.has_table(
            (#[trigger] after.rows[i]).id.db,
            after.rows[i].id.table,
        ) by {
            let row = after.rows[i];
            assert(after.rows.contains(row));
            assert(storage.rows.contains(row));
            let j = choose|j: int| 0 <= j < storage.rows.len() && storage.rows[j] == row;
            assert(storage.has_table(storage.rows[j].id.db, storage.rows[j].id.table));
            let wanted = TableId { db: row.id.db, name: row.id.table };
            assert(storage.tables.contains(wanted));
            assert(tables_kept(db, None)(wanted));
            assert(after.tables.contains(wanted));
        }
    }
}

} // verus!
