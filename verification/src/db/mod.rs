//! The storage engine: databases, tables and row files.
//!
//! A [`Storage`] holds what lies under the storage root: the database
//! directories, the table directories and the bytes of every row file. Each
//! operation changes that picture and notes, in a journal, the file-system
//! step that carries the change to disk. The owner of the storage takes the
//! journal with [`Storage::take_effects`] and performs the steps.

pub mod db;
pub mod facts;
pub mod model;
pub mod row;
pub mod table;

use crate::db::model::{
    dbs_kept, dir_path, fresh_storage, is_first_row, key_in_table, lemma_first_row, row_path,
    rows_kept, table_path, tables_kept, EffectView, RowFileView, RowId, StorageView, TableId,
};
use crate::db::facts::{lemma_add_row_keeps_wf, lemma_create_db_keeps_wf};
use crate::seqs::{lemma_filter_map_step, lemma_filter_step};
use crate::text::{join, same};
use vstd::prelude::*;
use vstd::slice::slice_to_vec;

verus! {

/// One step on the file system.
#[derive(Debug)]
pub enum FsEffect {
    /// Create the directory at this path.
    CreateDir(String),
    /// Remove the directory at this path with all it holds.
    RemoveDirAll(String),
    /// Append the bytes to the file at this path, creating it if absent.
    AppendFile(String, Vec<u8>),
    /// Remove the file at this path.
    RemoveFile(String),
}

impl View for FsEffect {
    type V = EffectView;

    open spec fn view(&self) -> EffectView {
        match self {
            FsEffect::CreateDir(path) => EffectView::CreateDir(path@),
            FsEffect::RemoveDirAll(path) => EffectView::RemoveDirAll(path@),
            FsEffect::AppendFile(path, bytes) => EffectView::AppendFile(path@, bytes@),
            FsEffect::RemoveFile(path) => EffectView::RemoveFile(path@),
        }
    }
}

/// A table directory: the database it lies in and its name.
struct TableDir {
    db: String,
    name: String,
}

/// A row file: where it lies and what it holds.
struct RowFile {
    db: String,
    table: String,
    key: String,
    bytes: Vec<u8>,
}

impl RowFile {
    spec fn id(self) -> RowId {
        RowId { db: self.db@, table: self.table@, key: self.key@ }
    }
}

/// What lies under the storage root, and the steps not yet carried out.
pub struct Storage {
    db_path: String,
    root: bool,
    dbs: Vec<String>,
    tables: Vec<TableDir>,
    rows: Vec<RowFile>,
    journal: Vec<FsEffect>,
}

/// The names in a list of strings.
pub open spec fn names_view(names: Seq<String>) -> Seq<Seq<char>> {
    Seq::new(names.len(), |i: int| names[i]@)
}

spec fn tables_view(tables: Seq<TableDir>) -> Seq<TableId> {
    Seq::new(tables.len(), |i: int| TableId { db: tables[i].db@, name: tables[i].name@ })
}

spec fn rows_view(rows: Seq<RowFile>) -> Seq<RowFileView> {
    Seq::new(rows.len(), |i: int| RowFileView { id: rows[i].id(), bytes: rows[i].bytes@ })
}

spec fn journal_view(journal: Seq<FsEffect>) -> Seq<EffectView> {
    Seq::new(journal.len(), |i: int| journal[i]@)
}

/// The text of an optional string.
pub open spec fn opt_text(text: Option<&str>) -> Option<Seq<char>> {
    match text {
        Some(t) => Some(t@),
        None => None,
    }
}

impl View for Storage {
    type V = StorageView;

    closed spec fn view(&self) -> StorageView {
        StorageView {
            db_path: self.db_path@,
            root: self.root,
            dbs: names_view(self.dbs@),
            tables: tables_view(self.tables@),
            rows: rows_view(self.rows@),
            journal: journal_view(self.journal@),
        }
    }
}

/// Whether `text` is the one that `wanted` asks for; `None` asks for none
/// in particular.
fn fits(text: &str, wanted: Option<&str>) -> (r: bool)
    ensures
        r == (wanted is Some ==> text@ == wanted->0@),
{
    match wanted {
        Some(w) => same(text, w),
        None => true,
    }
}

/// The first place in `rows` that holds a file for the row, if any.
fn find_row(rows: &Vec<RowFile>, db: &str, table: &str, key: &str) -> (at: Option<usize>)
    ensures
        match at {
            Some(i) => is_first_row(
                rows_view(rows@),
                RowId { db: db@, table: table@, key: key@ },
                i as int,
            ),
            None => forall|j: int|
                0 <= j < rows@.len() ==> (#[trigger] rows_view(rows@)[j]).id != (RowId {
                    db: db@,
                    table: table@,
                    key: key@,
                }),
        },
{
    let ghost id = RowId { db: db@, table: table@, key: key@ };
    let mut i: usize = 0;
    while i < rows.len()
        invariant
            i <= rows.len(),
            id == (RowId { db: db@, table: table@, key: key@ }),
            forall|j: int| 0 <= j < i ==> (#[trigger] rows_view(rows@)[j]).id != id,
        decreases rows.len() - i,
    {
        let row = &rows[i];
        if same(row.db.as_str(), db) && same(row.table.as_str(), table) && same(
            row.key.as_str(),
            key,
        ) {
            assert(rows_view(rows@)[i as int].id == id);
            return Some(i);
        }
        assert(rows_view(rows@)[i as int].id != id);
        i += 1;
    }
    None
}

/// Removes the rows that a removal covers.
fn drop_rows(rows: &mut Vec<RowFile>, db: &str, table: Option<&str>, key: Option<&str>)
    ensures
        rows_view(final(rows)@) == rows_view(old(rows)@).filter(
            rows_kept(db@, opt_text(table), opt_text(key)),
        ),
{
    let ghost before = rows_view(rows@);
    let ghost keep = rows_kept(db@, opt_text(table), opt_text(key));
    let ghost mut seen: int = 0;
    let mut i: usize = 0;
    proof {
        reveal(Seq::filter);
        assert(before.take(0).filter(keep) == Seq::<RowFileView>::empty());
        assert(before.skip(0) == before);
    }
    while i < rows.len()
        invariant
            0 <= seen <= before.len(),
            i <= rows.len(),
            keep == rows_kept(db@, opt_text(table), opt_text(key)),
            i == before.take(seen).filter(keep).len(),
            rows_view(rows@) == before.take(seen).filter(keep) + before.skip(seen),
        decreases before.len() - seen,
    {
        let ghost now = rows_view(rows@);
        proof {
            assert(now.len() == i + before.skip(seen).len());
            assert(now[i as int] == before.skip(seen)[0]);
            lemma_filter_step(before, keep, seen);
        }
        let row = &rows[i];
        let covered = same(row.db.as_str(), db) && fits(row.table.as_str(), table) && fits(
            row.key.as_str(),
            key,
        );
        proof {
            assert(covered == !keep(before[seen]));
        }
        if covered {
            rows.remove(i);
            proof {
                assert(rows_view(rows@) == now.remove(i as int));
                assert(before.skip(seen + 1) == before.skip(seen).drop_first());
            }
        } else {
            proof {
                assert(before.skip(seen + 1) == before.skip(seen).drop_first());
            }
            i += 1;
        }
        proof {
            seen = seen + 1;
        }
    }
    proof {
        assert(rows_view(rows@).len() == i + before.skip(seen).len());
        assert(before.take(seen) == before);
    }
}

/// Removes the tables that a removal covers.
fn drop_tables(tables: &mut Vec<TableDir>, db: &str, name: Option<&str>)
    ensures
        tables_view(final(tables)@) == tables_view(old(tables)@).filter(
            tables_kept(db@, opt_text(name)),
        ),
{
    let ghost before = tables_view(tables@);
    let ghost keep = tables_kept(db@, opt_text(name));
    let ghost mut seen: int = 0;
    let mut i: usize = 0;
    proof {
        reveal(Seq::filter);
        assert(before.take(0).filter(keep) == Seq::<TableId>::empty());
        assert(before.skip(0) == before);
    }
    while i < tables.len()
        invariant
            0 <= seen <= before.len(),
            i <= tables.len(),
            keep == tables_kept(db@, opt_text(name)),
            i == before.take(seen).filter(keep).len(),
            tables_view(tables@) == before.take(seen).filter(keep) + before.skip(seen),
        decreases before.len() - seen,
    {
        let ghost now = tables_view(tables@);
        proof {
            assert(now.len() == i + before.skip(seen).len());
            assert(now[i as int] == before.skip(seen)[0]);
            lemma_filter_step(before, keep, seen);
        }
        let dir = &tables[i];
        let covered = same(dir.db.as_str(), db) && fits(dir.name.as_str(), name);
        proof {
            assert(covered == !keep(before[seen]));
        }
        if covered {
            tables.remove(i);
            proof {
                assert(tables_view(tables@) == now.remove(i as int));
                assert(before.skip(seen + 1) == before.skip(seen).drop_first());
            }
        } else {
            proof {
                assert(before.skip(seen + 1) == before.skip(seen).drop_first());
            }
            i += 1;
        }
        proof {
            seen = seen + 1;
        }
    }
    proof {
        assert(tables_view(tables@).len() == i + before.skip(seen).len());
        assert(before.take(seen) == before);
    }
}

/// Removes every occurrence of a name.
fn drop_name(names: &mut Vec<String>, name: &str)
    ensures
        names_view(final(names)@) == names_view(old(names)@).filter(dbs_kept(name@)),
{
    let ghost before = names_view(names@);
    let ghost keep = dbs_kept(name@);
    let ghost mut seen: int = 0;
    let mut i: usize = 0;
    proof {
        reveal(Seq::filter);
        assert(before.take(0).filter(keep) == Seq::<Seq<char>>::empty());
        assert(before.skip(0) == before);
    }
    while i < names.len()
        invariant
            0 <= seen <= before.len(),
            i <= names.len(),
            keep == dbs_kept(name@),
            i == before.take(seen).filter(keep).len(),
            names_view(names@) == before.take(seen).filter(keep) + before.skip(seen),
        decreases before.len() - seen,
    {
        let ghost now = names_view(names@);
        proof {
            assert(now.len() == i + before.skip(seen).len());
            assert(now[i as int] == before.skip(seen)[0]);
            lemma_filter_step(before, keep, seen);
        }
        let covered = same(names[i].as_str(), name);
        proof {
            assert(covered == !keep(before[seen]));
        }
        if covered {
            names.remove(i);
            proof {
                assert(names_view(names@) == now.remove(i as int));
                assert(before.skip(seen + 1) == before.skip(seen).drop_first());
            }
        } else {
            proof {
                assert(before.skip(seen + 1) == before.skip(seen).drop_first());
            }
            i += 1;
        }
        proof {
            seen = seen + 1;
        }
    }
    proof {
        assert(names_view(names@).len() == i + before.skip(seen).len());
        assert(before.take(seen) == before);
    }
}

/// The key of the row that a file in a table directory holds: the name of
/// the file without the ending `.el`. `None` if the name ends otherwise.
pub fn row_key_of(file_name: &str) -> (key: Option<String>)
    ensures
        match key {
            Some(key) => file_name@ == key@ + ".el"@,
            None => forall|any: Seq<char>| file_name@ != any + ".el"@,
        },
{
    proof {
        reveal_strlit(".el");
    }
    let chars = crate::text::chars_of(file_name);
    let n = chars.len();
    if n >= 3 && chars[n - 3] == '.' && chars[n - 2] == 'e' && chars[n - 1] == 'l' {
        let key = crate::text::slice_of(file_name, 0, n - 3);
        assert(file_name@ == key@ + ".el"@);
        Some(key)
    } else {
        assert forall|any: Seq<char>| file_name@ != any + ".el"@ by {
            let joined = any + ".el"@;
            if file_name@ == joined {
                assert(joined[joined.len() - 3] == '.');
                assert(joined[joined.len() - 2] == 'e');
                assert(joined[joined.len() - 1] == 'l');
            }
        }
        None
    }
}

/// The path of a database directory.
pub fn dir_path_of(root: &str, db: &str) -> (path: String)
    ensures
        path@ == dir_path(root@, db@),
{
    let mut path = join(root, "/");
    path.append(db);
    path
}

/// The path of a table directory.
pub fn table_path_of(root: &str, db: &str, table: &str) -> (path: String)
    ensures
        path@ == table_path(root@, db@, table@),
{
    let mut path = dir_path_of(root, db);
    path.append("/");
    path.append(table);
    path
}

/// The path of a row file.
pub fn row_path_of(root: &str, db: &str, table: &str, key: &str) -> (path: String)
    ensures
        path@ == row_path(root@, db@, table@, key@),
{
    let mut path = table_path_of(root, db, table);
    path.append("/");
    path.append(key);
    path.append(".el");
    path
}

impl Storage {
    /// A storage rooted at `db_path` of which nothing exists yet, not even
    /// the root directory.
    pub fn new(db_path: &str) -> (storage: Storage)
        ensures
            storage@ == fresh_storage(db_path@),
            storage@.wf(),
    {
        let storage = Storage {
            db_path: db_path.to_string(),
            root: false,
            dbs: Vec::new(),
            tables: Vec::new(),
            rows: Vec::new(),
            journal: Vec::new(),
        };
        assert(storage@.dbs == Seq::<Seq<char>>::empty());
        assert(storage@.tables == Seq::<TableId>::empty());
        assert(storage@.rows == Seq::<RowFileView>::empty());
        assert(storage@.journal == Seq::<EffectView>::empty());
        storage
    }

    /// The directory under which every database lies.
    pub fn db_path(&self) -> (path: &str)
        ensures
            path@ == self@.db_path,
    {
        self.db_path.as_str()
    }

    /// Hands out the steps noted since the last call, oldest first, and
    /// empties the journal.
    pub fn take_effects(&mut self) -> (steps: Vec<FsEffect>)
        ensures
            steps@.len() == old(self)@.journal.len(),
            forall|i: int| 0 <= i < steps@.len() ==> steps@[i]@ == old(self)@.journal[i],
            final(self)@ == (StorageView { journal: Seq::empty(), ..old(self)@ }),
            old(self)@.wf() ==> final(self)@.wf(),
    {
        let mut steps: Vec<FsEffect> = Vec::new();
        steps.append(&mut self.journal);
        assert(self@.journal == Seq::<EffectView>::empty());
        assert(self@.dbs == old(self)@.dbs);
        assert(self@.tables == old(self)@.tables);
        assert(self@.rows == old(self)@.rows);
        steps
    }

    /// Notes one step in the journal.
    fn note(&mut self, step: FsEffect)
        ensures
            final(self)@ == old(self)@.effect(step@),
    {
        self.journal.push(step);
        assert(self@.journal == old(self)@.journal.push(step@));
        assert(self@.dbs == old(self)@.dbs);
        assert(self@.tables == old(self)@.tables);
        assert(self@.rows == old(self)@.rows);
    }

    /// Whether a database of this name exists.
    fn has_db(&self, name: &str) -> (found: bool)
        ensures
            found == self@.has_db(name@),
    {
        let mut i: usize = 0;
        while i < self.dbs.len()
            invariant
                i <= self.dbs.len(),
                forall|j: int| 0 <= j < i ==> self@.dbs[j] != name@,
            decreases self.dbs.len() - i,
        {
            if same(self.dbs[i].as_str(), name) {
                assert(self@.dbs[i as int] == name@);
                return true;
            }
            i += 1;
        }
        false
    }

    /// Whether the database holds a table of this name.
    fn has_table(&self, db: &str, name: &str) -> (found: bool)
        ensures
            found == self@.has_table(db@, name@),
    {
        let mut i: usize = 0;
        while i < self.tables.len()
            invariant
                i <= self.tables.len(),
                forall|j: int| 0 <= j < i ==> self@.tables[j] != (TableId { db: db@, name: name@ }),
            decreases self.tables.len() - i,
        {
            if same(self.tables[i].db.as_str(), db) && same(self.tables[i].name.as_str(), name) {
                assert(self@.tables[i as int] == (TableId { db: db@, name: name@ }));
                return true;
            }
            i += 1;
        }
        false
    }

    /// Whether a file exists for the row.
    fn has_row(&self, db: &str, table: &str, key: &str) -> (found: bool)
        ensures
            found == self@.has_row(RowId { db: db@, table: table@, key: key@ }),
    {
        let at = find_row(&self.rows, db, table, key);
        proof {
            if let Some(i) = at {
                lemma_first_row(self@, RowId { db: db@, table: table@, key: key@ }, i as int);
            }
        }
        at.is_some()
    }

    /// The bytes of the row's file, if it exists.
    fn row_bytes(&self, db: &str, table: &str, key: &str) -> (bytes: Option<&Vec<u8>>)
        ensures
            match bytes {
                Some(b) => self@.stored(RowId { db: db@, table: table@, key: key@ }) == Some(b@),
                None => self@.stored(RowId { db: db@, table: table@, key: key@ }) is None,
            },
    {
        match find_row(&self.rows, db, table, key) {
            Some(i) => {
                proof {
                    lemma_first_row(self@, RowId { db: db@, table: table@, key: key@ }, i as int);
                }
                Some(&self.rows[i].bytes)
            },
            None => None,
        }
    }

    /// Appends bytes to the row's file, which is made if it does not exist.
    fn write_row(&mut self, db: &str, table: &str, key: &str, bytes: &[u8])
        ensures
            final(self)@ == old(self)@.write_row(
                RowId { db: db@, table: table@, key: key@ },
                bytes@,
            ),
    {
        let ghost id = RowId { db: db@, table: table@, key: key@ };
        match find_row(&self.rows, db, table, key) {
            Some(i) => {
                proof {
                    lemma_first_row(self@, id, i as int);
                }
                let ghost before = self.rows@;
                let mut row = self.rows.remove(i);
                assert(rows_view(before)[i as int].id == id);
                row.bytes.extend_from_slice(bytes);
                let ghost changed = row;
                self.rows.insert(i, row);
                assert(self.rows@ == before.remove(i as int).insert(i as int, changed));
                assert(changed.id() == id);
                assert(changed.bytes@ == before[i as int].bytes@ + bytes@);
                assert(old(self)@.rows == rows_view(before));
                assert(self.rows@.len() == before.len());
                assert forall|j: int| 0 <= j < before.len() implies #[trigger] self.rows@[j] == (if j
                    == i {
                    changed
                } else {
                    before[j]
                }) by {}
                assert(rows_view(self.rows@) =~= old(self)@.rows.update(
                    i as int,
                    RowFileView { id, bytes: old(self)@.rows[i as int].bytes + bytes@ },
                ));
            },
            None => {
                self.rows.push(
                    RowFile {
                        db: db.to_string(),
                        table: table.to_string(),
                        key: key.to_string(),
                        bytes: slice_to_vec(bytes),
                    },
                );
                assert(rows_view(self.rows@) == old(self)@.rows.push(
                    RowFileView { id, bytes: bytes@ },
                ));
            },
        }
        let path = row_path_of(self.db_path.as_str(), db, table, key);
        self.note(FsEffect::AppendFile(path, slice_to_vec(bytes)));
    }

    /// Appends bytes to the file of a row as they are, and makes the
    /// database and the table of the row if they are missing. This is how
    /// what lies on disk already is brought into the picture.
    pub fn append_row_bytes(&mut self, db: &str, table: &str, key: &str, bytes: &[u8])
        ensures
            final(self)@ == old(self)@.add_row(
                RowId { db: db@, table: table@, key: key@ },
                bytes@,
            ),
            old(self)@.wf() ==> final(self)@.wf(),
    {
        proof {
            if self@.wf() {
                lemma_add_row_keeps_wf(self@, RowId { db: db@, table: table@, key: key@ }, bytes@);
            }
        }
        if !self.has_db(db) {
            create_db(self, db);
        }
        if !self.has_table(db, table) {
            crate::db::table::create_table(self, db, table);
        }
        self.write_row(db, table, key, bytes);
    }

    /// Removes the rows that a removal covers.
    fn remove_rows(&mut self, db: &str, table: Option<&str>, key: Option<&str>)
        ensures
            final(self)@ == (StorageView {
                rows: old(self)@.rows.filter(rows_kept(db@, opt_text(table), opt_text(key))),
                ..old(self)@
            }),
    {
        drop_rows(&mut self.rows, db, table, key);
    }

    /// Removes the tables that a removal covers.
    fn remove_tables(&mut self, db: &str, name: Option<&str>)
        ensures
            final(self)@ == (StorageView {
                tables: old(self)@.tables.filter(tables_kept(db@, opt_text(name))),
                ..old(self)@
            }),
    {
        drop_tables(&mut self.tables, db, name);
    }

    /// Removes a database's own directory entry.
    fn remove_db(&mut self, name: &str)
        ensures
            final(self)@ == (StorageView {
                dbs: old(self)@.dbs.filter(dbs_kept(name@)),
                ..old(self)@
            }),
    {
        drop_name(&mut self.dbs, name);
    }

    /// The keys of the rows in a table.
    fn keys_in(&self, db: &str, table: &str) -> (keys: Vec<String>)
        ensures
            names_view(keys@) == self@.table_keys(db@, table@),
    {
        let ghost all = self@.rows;
        let ghost pick = key_in_table(db@, table@);
        let mut keys: Vec<String> = Vec::new();
        let mut i: usize = 0;
        assert(all.take(0).filter_map(pick) == Seq::<Seq<char>>::empty());
        while i < self.rows.len()
            invariant
                i <= self.rows.len(),
                all == self@.rows,
                pick == key_in_table(db@, table@),
                names_view(keys@) == all.take(i as int).filter_map(pick),
            decreases self.rows.len() - i,
        {
            proof {
                lemma_filter_map_step(all, pick, i as int);
            }
            let row = &self.rows[i];
            if same(row.db.as_str(), db) && same(row.table.as_str(), table) {
                let ghost before = names_view(keys@);
                keys.push(row.key.clone());
                assert(names_view(keys@) == before.push(row.key@));
            }
            i += 1;
        }
        assert(all.take(i as int) == all);
        keys
    }

    /// Whether a directory exists at `path`, taken from the storage root.
    fn dir_exists(&self, path: &str) -> (found: bool)
        ensures
            found == self@.dir_exists(path@),
    {
        if self.has_db(path) {
            return true;
        }
        let mut i: usize = 0;
        while i < self.tables.len()
            invariant
                i <= self.tables.len(),
                forall|j: int|
                    0 <= j < i ==> (#[trigger] self@.tables[j]).db + "/"@ + self@.tables[j].name
                        != path@,
            decreases self.tables.len() - i,
        {
            let dir = &self.tables[i];
            let mut full = join(dir.db.as_str(), "/");
            full.append(dir.name.as_str());
            if same(full.as_str(), path) {
                assert(self@.tables[i as int].db + "/"@ + self@.tables[i as int].name == path@);
                return true;
            }
            i += 1;
        }
        false
    }

    /// Makes sure the root directory exists.
    fn ensure_root(&mut self)
        ensures
            final(self)@ == old(self)@.init(),
    {
        if !self.root {
            self.root = true;
            assert(self@ == (StorageView { root: true, ..old(self)@ }));
            self.note(FsEffect::CreateDir(self.db_path.clone()));
        }
    }

    /// Adds a database directory that is known to be absent.
    fn push_db(&mut self, name: &str)
        ensures
            final(self)@ == old(self)@.add_db(name@),
    {
        self.dbs.push(name.to_string());
        assert(self@.dbs == old(self)@.dbs.push(name@));
        assert(self@.tables == old(self)@.tables);
        assert(self@.rows == old(self)@.rows);
        assert(self@.journal == old(self)@.journal);
        self.note(FsEffect::CreateDir(dir_path_of(self.db_path.as_str(), name)));
    }

    /// Adds a table directory that is known to be absent.
    fn push_table(&mut self, db: &str, name: &str)
        ensures
            final(self)@ == old(self)@.add_table(db@, name@),
    {
        self.tables.push(TableDir { db: db.to_string(), name: name.to_string() });
        assert(self@.tables == old(self)@.tables.push(TableId { db: db@, name: name@ }));
        assert(self@.dbs == old(self)@.dbs);
        assert(self@.rows == old(self)@.rows);
        assert(self@.journal == old(self)@.journal);
        self.note(FsEffect::CreateDir(table_path_of(self.db_path.as_str(), db, name)));
    }
}

/// Creates the storage root if it is absent. Returns `true`: in this
/// picture of the file system a directory can always be made.
pub fn init(storage: &mut Storage) -> (ready: bool)
    ensures
        ready,
        final(storage)@ == old(storage)@.init(),
        old(storage)@.wf() ==> final(storage)@.wf(),
{
    proof {
        if storage@.wf() {
            lemma_create_db_keeps_wf(storage@, Seq::empty());
        }
    }
    storage.ensure_root();
    true
}

/// Creates a database. Returns whether it was newly created; a database
/// that exists is left as it is.
pub fn create_db(storage: &mut Storage, name: &str) -> (created: bool)
    ensures
        created == !old(storage)@.has_db(name@),
        final(storage)@ == old(storage)@.create_db(name@),
        old(storage)@.wf() ==> final(storage)@.wf(),
{
    proof {
        if storage@.wf() {
            lemma_create_db_keeps_wf(storage@, name@);
        }
    }
    storage.ensure_root();
    if storage.has_db(name) {
        return false;
    }
    storage.push_db(name);
    true
}

/// Whether a directory exists at `path`, taken from the storage root: the
/// directory of a database, or that of a table written as the database, a
/// slash and the table.
pub fn is_dir_exist(storage: &Storage, path: &str) -> (found: bool)
    ensures
        found == storage@.dir_exists(path@),
{
    storage.dir_exists(path)
}

/// The keys of the rows in a table of a database. Fails if the table does
/// not exist.
pub fn get_db(storage: &Storage, db: &str, name: &str) -> (r: Result<Vec<String>, String>)
    ensures
        match r {
            Ok(keys) => storage@.has_table(db@, name@) && names_view(keys@) == storage@.table_keys(
                db@,
                name@,
            ),
            Err(why) => !storage@.has_table(db@, name@) && why@ == crate::db::table::no_such_table(),
        },
{
    crate::db::table::get_table(storage, db, name)
}

/// Whether a database of this name exists.
pub fn is_db_exist(storage: &Storage, name: &str) -> (found: bool)
    ensures
        found == storage@.has_db(name@),
{
    storage.has_db(name)
}

} // verus!
