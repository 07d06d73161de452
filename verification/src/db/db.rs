//! Databases on storage: deleting.

use crate::db::Storage;
use vstd::prelude::*;

verus! {

/// Reply when a database that is to be deleted does not exist.
pub open spec fn no_such_db() -> Seq<char> {
    "{\"code\": 400, \"message\": \"DataBase not exist\"}"@
}

/// Deletes a database with every table and every row in it. Fails if the
/// database does not exist; succeeds with an empty text otherwise.
pub fn delete(storage: &mut Storage, name: &str) -> (r: Result<String, String>)
    ensures
        final(storage)@ == old(storage)@.delete_db(name@),
        match r {
            Ok(text) => old(storage)@.has_db(name@) && text@ == Seq::<char>::empty(),
            Err(why) => !old(storage)@.has_db(name@) && why@ == no_such_db(),
        },
        old(storage)@.wf() ==> final(storage)@.wf(),
{
    proof {
        if storage@.wf() {
            crate::db::facts::lemma_delete_db_keeps_wf(storage@, name@);
        }
    }
    if !storage.has_db(name) {
        return Err("{\"code\": 400, \"message\": \"DataBase not exist\"}".to_string());
    }
    storage.remove_db(name);
    storage.remove_tables(name, None);
    storage.remove_rows(name, None, None);
    let path = crate::db::dir_path_of(storage.db_path(), name);
    storage.note(crate::db::FsEffect::RemoveDirAll(path));
    Ok(String::new())
}

} // verus!
