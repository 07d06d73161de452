//! The storage engine as plain values: what each operation makes of what
//! lies under the storage root.

use crate::record::{decode_row, RowView};
use crate::seqs::distinct_by;
use vstd::prelude::*;

verus! {

/// A key with the value and the type of its row, as plain text values.
pub struct BunchView {
    pub key: Seq<char>,
    pub value: Seq<char>,
    pub _type: Seq<char>,
}

/// Where a row lies.
pub struct RowId {
    pub db: Seq<char>,
    pub table: Seq<char>,
    pub key: Seq<char>,
}

/// Where a table lies.
pub struct TableId {
    pub db: Seq<char>,
    pub name: Seq<char>,
}

/// A row file: where it lies and the bytes it holds.
pub struct RowFileView {
    pub id: RowId,
    pub bytes: Seq<u8>,
}

/// One step on the file system, as plain values.
pub enum EffectView {
    CreateDir(Seq<char>),
    RemoveDirAll(Seq<char>),
    AppendFile(Seq<char>, Seq<u8>),
    RemoveFile(Seq<char>),
}

/// The path of a database directory.
pub open spec fn dir_path(root: Seq<char>, db: Seq<char>) -> Seq<char> {
    root + "/"@ + db
}

/// The path of a table directory.
pub open spec fn table_path(root: Seq<char>, db: Seq<char>, table: Seq<char>) -> Seq<char> {
    dir_path(root, db) + "/"@ + table
}

/// The path of a row file.
pub open spec fn row_path(
    root: Seq<char>,
    db: Seq<char>,
    table: Seq<char>,
    key: Seq<char>,
) -> Seq<char> {
    table_path(root, db, table) + "/"@ + key + ".el"@
}

/// What lies under the storage root, in the order in which it was made,
/// and the file-system steps that have not been carried out yet.
pub struct StorageView {
    pub db_path: Seq<char>,
    pub root: bool,
    pub dbs: Seq<Seq<char>>,
    pub tables: Seq<TableId>,
    pub rows: Seq<RowFileView>,
    pub journal: Seq<EffectView>,
}

/// A storage of which nothing exists yet.
pub open spec fn fresh_storage(db_path: Seq<char>) -> StorageView {
    StorageView {
        db_path,
        root: false,
        dbs: Seq::empty(),
        tables: Seq::empty(),
        rows: Seq::empty(),
        journal: Seq::empty(),
    }
}

/// Whether `i` is the first place in `rows` that holds a file for `id`.
pub open spec fn is_first_row(rows: Seq<RowFileView>, id: RowId, i: int) -> bool {
    &&& 0 <= i < rows.len()
    &&& rows[i].id == id
    &&& forall|j: int| 0 <= j < i ==> rows[j].id != id
}

/// Which rows a removal covers: those of a database, of one of its tables
/// if `table` is given, and at one key of that table if `key` is given too.
pub open spec fn row_covered(
    id: RowId,
    db: Seq<char>,
    table: Option<Seq<char>>,
    key: Option<Seq<char>>,
) -> bool {
    &&& id.db == db
    &&& table is Some ==> id.table == table->0
    &&& key is Some ==> id.key == key->0
}

/// The rows that a removal leaves.
pub open spec fn rows_kept(
    db: Seq<char>,
    table: Option<Seq<char>>,
    key: Option<Seq<char>>,
) -> spec_fn(RowFileView) -> bool {
    |row: RowFileView| !row_covered(row.id, db, table, key)
}

/// Which tables a removal covers: those of a database, or the one of that
/// name if `name` is given.
pub open spec fn table_covered(id: TableId, db: Seq<char>, name: Option<Seq<char>>) -> bool {
    &&& id.db == db
    &&& name is Some ==> id.name == name->0
}

/// The tables that a removal leaves.
pub open spec fn tables_kept(db: Seq<char>, name: Option<Seq<char>>) -> spec_fn(TableId) -> bool {
    |table: TableId| !table_covered(table, db, name)
}

/// The databases other than the given one.
pub open spec fn dbs_kept(db: Seq<char>) -> spec_fn(Seq<char>) -> bool {
    |name: Seq<char>| name != db
}

/// The key of a row if it lies in the table.
pub open spec fn key_in_table(db: Seq<char>, table: Seq<char>) -> spec_fn(RowFileView) -> Option<
    Seq<char>,
> {
    |row: RowFileView|
        if row.id.db == db && row.id.table == table {
            Some(row.id.key)
        } else {
            None
        }
}

/// Where a row file lies.
pub open spec fn row_id() -> spec_fn(RowFileView) -> RowId {
    |row: RowFileView| row.id
}

/// A table as it is.
pub open spec fn table_id() -> spec_fn(TableId) -> TableId {
    |table: TableId| table
}

/// A name as it is.
pub open spec fn db_name() -> spec_fn(Seq<char>) -> Seq<char> {
    |name: Seq<char>| name
}

/// Where a row stands: what is missing on the way to it, if anything.
pub enum RowState {
    NoDatabase,
    NoTable,
    NoRow,
    Present,
}

impl StorageView {
    /// Whether a database of this name exists.
    pub open spec fn has_db(self, db: Seq<char>) -> bool {
        self.dbs.contains(db)
    }

    /// Whether the database holds a table of this name.
    pub open spec fn has_table(self, db: Seq<char>, table: Seq<char>) -> bool {
        self.tables.contains(TableId { db, name: table })
    }

    /// Whether a file exists for the row.
    pub open spec fn has_row(self, id: RowId) -> bool {
        exists|i: int| 0 <= i < self.rows.len() && self.rows[i].id == id
    }

    /// The first place that holds a file for the row.
    pub open spec fn row_at(self, id: RowId) -> int {
        choose|i: int| is_first_row(self.rows, id, i)
    }

    /// The bytes of the row's file, if it exists.
    pub open spec fn stored(self, id: RowId) -> Option<Seq<u8>> {
        if self.has_row(id) {
            Some(self.rows[self.row_at(id)].bytes)
        } else {
            None
        }
    }

    /// The same storage with one more step noted.
    pub open spec fn effect(self, step: EffectView) -> StorageView {
        StorageView { journal: self.journal.push(step), ..self }
    }

    /// The storage once its root directory is made sure of.
    pub open spec fn init(self) -> StorageView {
        if self.root {
            self
        } else {
            (StorageView { root: true, ..self }).effect(EffectView::CreateDir(self.db_path))
        }
    }

    /// The storage with a new database directory.
    pub open spec fn add_db(self, db: Seq<char>) -> StorageView {
        (StorageView { dbs: self.dbs.push(db), ..self }).effect(
            EffectView::CreateDir(dir_path(self.db_path, db)),
        )
    }

    /// The storage with a new table directory.
    pub open spec fn add_table(self, db: Seq<char>, table: Seq<char>) -> StorageView {
        (StorageView { tables: self.tables.push(TableId { db, name: table }), ..self }).effect(
            EffectView::CreateDir(table_path(self.db_path, db, table)),
        )
    }

    /// The storage after a database was asked for: the root is made sure
    /// of, and the database is made unless it exists.
    pub open spec fn create_db(self, db: Seq<char>) -> StorageView {
        let ready = self.init();
        if ready.has_db(db) {
            ready
        } else {
            ready.add_db(db)
        }
    }

    /// The storage after a table was asked for: its database is made if it
    /// is missing, and the table is made unless it exists.
    pub open spec fn create_table(self, db: Seq<char>, table: Seq<char>) -> StorageView {
        let with_db = if self.has_db(db) {
            self
        } else {
            self.create_db(db)
        };
        if with_db.has_table(db, table) {
            with_db
        } else {
            with_db.add_table(db, table)
        }
    }

    /// What holds of a storage between any two of its operations: nothing
    /// exists twice, no table lies outside a database, and no row outside
    /// a table.
    pub open spec fn wf(self) -> bool {
        &&& distinct_by(self.dbs, db_name())
        &&& distinct_by(self.tables, table_id())
        &&& distinct_by(self.rows, row_id())
        &&& forall|i: int|
            0 <= i < self.tables.len() ==> self.has_db((#[trigger] self.tables[i]).db)
        &&& forall|i: int|
            0 <= i < self.rows.len() ==> self.has_table(
                (#[trigger] self.rows[i]).id.db,
                self.rows[i].id.table,
            )
    }

    /// Whether a directory exists at `path`, taken from the storage root:
    /// the directory of a database, or that of a table written as the
    /// database, a slash and the table.
    pub open spec fn dir_exists(self, path: Seq<char>) -> bool {
        ||| self.has_db(path)
        ||| exists|i: int|
            0 <= i < self.tables.len() && #[trigger] self.tables[i].db + "/"@
                + self.tables[i].name == path
    }

    /// Where the row stands.
    pub open spec fn row_state(self, id: RowId) -> RowState {
        if !self.has_db(id.db) {
            RowState::NoDatabase
        } else if !self.has_table(id.db, id.table) {
            RowState::NoTable
        } else if !self.has_row(id) {
            RowState::NoRow
        } else {
            RowState::Present
        }
    }

    /// The storage with `bytes` appended to the row's file, which is made
    /// if it does not exist.
    pub open spec fn write_row(self, id: RowId, bytes: Seq<u8>) -> StorageView {
        let rows = if self.has_row(id) {
            let i = self.row_at(id);
            self.rows.update(i, RowFileView { id, bytes: self.rows[i].bytes + bytes })
        } else {
            self.rows.push(RowFileView { id, bytes })
        };
        (StorageView { rows, ..self }).effect(
            EffectView::AppendFile(row_path(self.db_path, id.db, id.table, id.key), bytes),
        )
    }

    /// The storage after a row was added: its database and its table are
    /// made if they are missing, then the bytes are appended to its file.
    pub open spec fn add_row(self, id: RowId, bytes: Seq<u8>) -> StorageView {
        let with_db = if self.has_db(id.db) {
            self
        } else {
            self.create_db(id.db)
        };
        let with_table = if with_db.has_table(id.db, id.table) {
            with_db
        } else {
            with_db.create_table(id.db, id.table)
        };
        with_table.write_row(id, bytes)
    }

    /// The storage after a row was deleted. Nothing changes unless the
    /// database, the table and the file all exist.
    pub open spec fn delete_row(self, id: RowId) -> StorageView {
        if self.row_state(id) is Present {
            (StorageView {
                rows: self.rows.filter(rows_kept(id.db, Some(id.table), Some(id.key))),
                ..self
            }).effect(EffectView::RemoveFile(row_path(self.db_path, id.db, id.table, id.key)))
        } else {
            self
        }
    }

    /// The storage after a table was deleted: its database is made if it is
    /// missing; the table, if it exists, goes with every row in it.
    pub open spec fn delete_table(self, db: Seq<char>, table: Seq<char>) -> StorageView {
        let with_db = if self.has_db(db) {
            self
        } else {
            self.create_db(db)
        };
        if with_db.has_table(db, table) {
            (StorageView {
                tables: with_db.tables.filter(tables_kept(db, Some(table))),
                rows: with_db.rows.filter(rows_kept(db, Some(table), None)),
                ..with_db
            }).effect(EffectView::RemoveDirAll(table_path(self.db_path, db, table)))
        } else {
            with_db
        }
    }

    /// The storage after a database was deleted: if it exists, it goes with
    /// every table and every row in it.
    pub open spec fn delete_db(self, db: Seq<char>) -> StorageView {
        if self.has_db(db) {
            (StorageView {
                dbs: self.dbs.filter(dbs_kept(db)),
                tables: self.tables.filter(tables_kept(db, None)),
                rows: self.rows.filter(rows_kept(db, None, None)),
                ..self
            }).effect(EffectView::RemoveDirAll(dir_path(self.db_path, db)))
        } else {
            self
        }
    }

    /// The keys of the rows in a table, in the order in which their files
    /// were made.
    pub open spec fn table_keys(self, db: Seq<char>, table: Seq<char>) -> Seq<Seq<char>> {
        self.rows.filter_map(key_in_table(db, table))
    }
}

/// What reading a row gives: the row that its file decodes to, or the
/// reason why there is none.
pub open spec fn read_outcome(storage: StorageView, id: RowId) -> Result<RowView, Seq<char>> {
    match storage.row_state(id) {
        RowState::NoDatabase => Err("[ ERROR ] Row: DB is not exist"@),
        RowState::NoTable => Err("[ ERROR ] Row: Table is not exist"@),
        RowState::NoRow => Err("0"@),
        RowState::Present => match decode_row(storage.stored(id)->0) {
            Some(row) => Ok(row),
            None => Err("[ ERROR ] Row: Can not merge from bytes"@),
        },
    }
}

/// The entry that listing a table gives for a key: its row, if one can be
/// read.
pub open spec fn bunch_at(storage: StorageView, db: Seq<char>, table: Seq<char>) -> spec_fn(
    Seq<char>,
) -> Option<BunchView> {
    |key: Seq<char>|
        match read_outcome(storage, RowId { db, table, key }) {
            Ok(row) => Some(BunchView { key, value: row.value, _type: row.type_ }),
            Err(_) => None,
        }
}

/// The rows of a table that can be read, each with its key.
pub open spec fn table_rows(storage: StorageView, db: Seq<char>, table: Seq<char>) -> Seq<
    BunchView,
> {
    storage.table_keys(db, table).filter_map(bunch_at(storage, db, table))
}

/// Up to a place that holds a file for a row there is a first such place.
pub proof fn lemma_least_row(rows: Seq<RowFileView>, id: RowId, n: int) -> (i: int)
    requires
        0 <= n < rows.len(),
        rows[n].id == id,
    ensures
        is_first_row(rows, id, i),
    decreases n,
{
    if exists|j: int| 0 <= j < n && rows[j].id == id {
        let j = choose|j: int| 0 <= j < n && rows[j].id == id;
        lemma_least_row(rows, id, j)
    } else {
        n
    }
}

/// A row that has a file has a first place, and `row_at` names it.
pub proof fn lemma_row_at(storage: StorageView, id: RowId)
    requires
        storage.has_row(id),
    ensures
        is_first_row(storage.rows, id, storage.row_at(id)),
{
    let n = choose|i: int| 0 <= i < storage.rows.len() && storage.rows[i].id == id;
    let i = lemma_least_row(storage.rows, id, n);
}

/// The first place that holds a file for a row is the place that `row_at`
/// names, and the row is there.
pub proof fn lemma_first_row(storage: StorageView, id: RowId, i: int)
    requires
        is_first_row(storage.rows, id, i),
    ensures
        storage.has_row(id),
        storage.row_at(id) == i,
        storage.stored(id) == Some(storage.rows[i].bytes),
{
    let chosen = storage.row_at(id);
    assert(is_first_row(storage.rows, id, chosen));
    if chosen < i {
        assert(storage.rows[chosen].id != id);
    }
    if i < chosen {
        assert(storage.rows[i].id != id);
    }
}

} // verus!
