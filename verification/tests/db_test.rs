use rdb::db::row::{add_row, delete_row, is_row_exist, read_row};
use rdb::db::table::{
    create_table, delete_table, get_table, get_table_with_keys, is_table_exist,
};
use rdb::db::{create_db, get_db, init, is_db_exist, is_dir_exist, FsEffect, Storage};
use rdb::record::Row;

fn row_of(value: &str, type_: &str) -> Row {
    let mut row = Row::new();
    row.set_value(value.to_string());
    row.set_type(type_.to_string());
    row
}

#[test]
fn is_dir_exist_test() {
    let storage = Storage::new("db");
    assert_eq!(is_dir_exist(&storage, "table"), false);
}

#[test]
fn create_db_test() {
    let mut storage = Storage::new("db");
    assert_eq!(create_db(&mut storage, "new_test_db"), true);
}

#[test]
fn is_db_exist_test() {
    let storage = Storage::new("db");
    assert_eq!(is_db_exist(&storage, "zaz"), false);
}

#[test]
fn create_table_test() {
    let mut storage = Storage::new("db");
    assert_eq!(create_table(&mut storage, "test_db", "sass"), true);
}

#[test]
fn is_table_exist_test() {
    let mut storage = Storage::new("db");
    create_db(&mut storage, "test_db");
    assert_eq!(is_table_exist(&storage, "test_db", "ttt"), false);
}

#[test]
fn delete_table_test() {
    let mut storage = Storage::new("db");
    create_table(&mut storage, "test_db", "sass");
    assert_eq!(delete_table(&mut storage, "test_db", "sass"), true);
}

#[test]
fn add_row_test() {
    let mut storage = Storage::new("db");
    let mut row = row_of("ar", "string");
    assert_eq!(add_row(&mut storage, "test_db", "sass", "test", &mut row), true);
}

#[test]
fn read_row_test() {
    let mut storage = Storage::new("db");
    let res = read_row(&storage, "test_db", "table", "sass");

    match res {
        Ok(_) => {}
        Err(_) => {
            assert_eq!(true, true)
        }
    }

    let mut row = row_of("{\"id\": \"1\"}", "json");
    assert_eq!(add_row(&mut storage, "test_db", "table", "sass", &mut row), true);
    let res = read_row(&storage, "test_db", "table", "sass");

    match res {
        Ok(row) => {
            assert_eq!(row.type_(), "json")
        }
        Err(_) => panic!("the row was added"),
    }
}

#[test]
fn delete_row_test() {
    let mut storage = Storage::new("db");
    assert_eq!(delete_row(&mut storage, "test_db", "table", "kvas"), false);
    let mut row = row_of("{\"id\": \"1\"}", "json");
    assert_eq!(add_row(&mut storage, "test_db", "table", "kvas", &mut row), true);
    assert_eq!(delete_row(&mut storage, "test_db", "table", "kvas"), true);
}

#[test]
fn is_row_exist_test() {
    let mut storage = Storage::new("db");
    let row = is_row_exist(&storage, "row_test", "row_table", "asdf");

    match row {
        Ok(_) => panic!("nothing exists yet"),
        Err(msg) => {
            assert_eq!(msg, "[ ERROR ] Row: DB is not exist")
        }
    }

    create_db(&mut storage, "row_test");

    let row = is_row_exist(&storage, "row_test", "row_table", "asdf");

    match row {
        Ok(_) => panic!("the table does not exist yet"),
        Err(msg) => {
            assert_eq!(msg, "[ ERROR ] Row: Table is not exist")
        }
    }

    create_table(&mut storage, "row_test", "row_table");

    let row = is_row_exist(&storage, "row_test", "row_table", "asdf");

    match row {
        Ok(_) => panic!("the row does not exist yet"),
        Err(msg) => {
            assert_eq!(msg, "[ ERROR ] Row: is not exist")
        }
    }

    let mut zero = row_of("0", "int");
    add_row(&mut storage, "row_test", "row_table", "asdf", &mut zero);

    let row = is_row_exist(&storage, "row_test", "row_table", "asdf");

    match row {
        Ok(data) => assert_eq!(data, ()),
        Err(_) => panic!("the row was added"),
    }
}

#[test]
fn init_makes_the_root_once() {
    let mut storage = Storage::new("db");
    assert_eq!(init(&mut storage), true);
    assert_eq!(init(&mut storage), true);
    let steps = storage.take_effects();
    assert_eq!(steps.len(), 1);
    assert!(matches!(&steps[0], FsEffect::CreateDir(path) if path == "db"));
    assert_eq!(storage.take_effects().len(), 0);
}

#[test]
fn create_db_is_refused_the_second_time() {
    let mut storage = Storage::new("db");
    assert_eq!(create_db(&mut storage, "shop"), true);
    assert_eq!(create_db(&mut storage, "shop"), false);
    assert_eq!(is_db_exist(&storage, "shop"), true);
    assert_eq!(is_dir_exist(&storage, "shop"), true);
}

#[test]
fn create_table_makes_its_database() {
    let mut storage = Storage::new("root");
    assert_eq!(create_table(&mut storage, "shop", "orders"), true);
    assert_eq!(create_table(&mut storage, "shop", "orders"), true);
    assert_eq!(is_db_exist(&storage, "shop"), true);
    assert_eq!(is_table_exist(&storage, "shop", "orders"), true);
    assert_eq!(is_dir_exist(&storage, "shop/orders"), true);
    assert_eq!(is_dir_exist(&storage, "shop/other"), false);
    let steps = storage.take_effects();
    assert_eq!(steps.len(), 3);
    assert!(matches!(&steps[0], FsEffect::CreateDir(path) if path == "root"));
    assert!(matches!(&steps[1], FsEffect::CreateDir(path) if path == "root/shop"));
    assert!(matches!(&steps[2], FsEffect::CreateDir(path) if path == "root/shop/orders"));
}

#[test]
fn add_row_notes_the_file_and_its_bytes() {
    let mut storage = Storage::new("root");
    let mut row = row_of("42", "int");
    add_row(&mut storage, "shop", "orders", "1", &mut row);
    let steps = storage.take_effects();
    assert_eq!(steps.len(), 4);
    match &steps[3] {
        FsEffect::AppendFile(path, bytes) => {
            assert_eq!(path, "root/shop/orders/1.el");
            assert_eq!(bytes, &row.encode());
        }
        _ => panic!("the last step appends to the row file"),
    }
}

#[test]
fn add_row_twice_appends_and_the_last_record_wins() {
    let mut storage = Storage::new("root");
    let mut first = row_of("42", "int");
    let mut second = row_of("forty-three", "string");
    add_row(&mut storage, "shop", "orders", "1", &mut first);
    add_row(&mut storage, "shop", "orders", "1", &mut second);
    let read = read_row(&storage, "shop", "orders", "1").unwrap();
    assert_eq!(read.value(), "forty-three");
    assert_eq!(read.type_(), "string");
    assert_eq!(get_table(&storage, "shop", "orders").unwrap(), vec!["1".to_string()]);
}

#[test]
fn read_row_tells_what_is_missing() {
    let mut storage = Storage::new("root");
    assert_eq!(
        read_row(&storage, "shop", "orders", "1").unwrap_err(),
        "[ ERROR ] Row: DB is not exist"
    );
    create_db(&mut storage, "shop");
    assert_eq!(
        read_row(&storage, "shop", "orders", "1").unwrap_err(),
        "[ ERROR ] Row: Table is not exist"
    );
    create_table(&mut storage, "shop", "orders");
    assert_eq!(read_row(&storage, "shop", "orders", "1").unwrap_err(), "0");
}

#[test]
fn delete_row_removes_the_file() {
    let mut storage = Storage::new("root");
    let mut row = row_of("42", "int");
    add_row(&mut storage, "shop", "orders", "1", &mut row);
    storage.take_effects();
    assert_eq!(delete_row(&mut storage, "shop", "orders", "1"), true);
    assert_eq!(read_row(&storage, "shop", "orders", "1").unwrap_err(), "0");
    assert_eq!(delete_row(&mut storage, "shop", "orders", "1"), false);
    let steps = storage.take_effects();
    assert_eq!(steps.len(), 1);
    assert!(matches!(&steps[0], FsEffect::RemoveFile(path) if path == "root/shop/orders/1.el"));
}

#[test]
fn delete_table_takes_its_rows_and_makes_a_missing_database() {
    let mut storage = Storage::new("root");
    let mut row = row_of("42", "int");
    add_row(&mut storage, "shop", "orders", "1", &mut row);
    add_row(&mut storage, "shop", "clients", "7", &mut row);
    assert_eq!(delete_table(&mut storage, "shop", "orders"), true);
    assert_eq!(is_table_exist(&storage, "shop", "orders"), false);
    assert_eq!(
        read_row(&storage, "shop", "orders", "1").unwrap_err(),
        "[ ERROR ] Row: Table is not exist"
    );
    assert_eq!(read_row(&storage, "shop", "clients", "7").unwrap().value(), "42");
    assert_eq!(delete_table(&mut storage, "other", "orders"), false);
    assert_eq!(is_db_exist(&storage, "other"), true);
}

#[test]
fn delete_database_takes_everything_in_it() {
    let mut storage = Storage::new("root");
    let mut row = row_of("42", "int");
    add_row(&mut storage, "shop", "orders", "1", &mut row);
    add_row(&mut storage, "bank", "orders", "1", &mut row);
    assert_eq!(
        rdb::db::db::delete(&mut storage, "none").unwrap_err(),
        "{\"code\": 400, \"message\": \"DataBase not exist\"}"
    );
    storage.take_effects();
    assert_eq!(rdb::db::db::delete(&mut storage, "shop").unwrap(), "");
    assert_eq!(is_db_exist(&storage, "shop"), false);
    assert_eq!(is_table_exist(&storage, "shop", "orders"), false);
    assert_eq!(read_row(&storage, "bank", "orders", "1").unwrap().value(), "42");
    let steps = storage.take_effects();
    assert_eq!(steps.len(), 1);
    assert!(matches!(&steps[0], FsEffect::RemoveDirAll(path) if path == "root/shop"));
}

#[test]
fn listing_a_table_gives_keys_and_rows() {
    let mut storage = Storage::new("root");
    let mut a = row_of("1", "int");
    let mut b = row_of("two", "string");
    add_row(&mut storage, "shop", "orders", "a", &mut a);
    add_row(&mut storage, "shop", "orders", "b", &mut b);
    add_row(&mut storage, "shop", "clients", "c", &mut a);
    assert_eq!(
        get_table(&storage, "shop", "orders").unwrap(),
        vec!["a".to_string(), "b".to_string()]
    );
    assert_eq!(
        get_db(&storage, "shop", "orders").unwrap(),
        vec!["a".to_string(), "b".to_string()]
    );
    let rows = get_table_with_keys(&storage, "shop", "orders").unwrap();
    assert_eq!(rows.len(), 2);
    assert_eq!(rows[1].key, "b");
    assert_eq!(rows[1].value, "two");
    assert_eq!(rows[1]._type, "string");
    assert_eq!(
        get_table(&storage, "shop", "none").unwrap_err(),
        "{\"code\": 400, \"message\": \"no such table\"}\njson"
    );
    assert_eq!(
        get_table_with_keys(&storage, "shop", "none").unwrap_err(),
        "{\"code\": 400, \"message\": \"no such table\"}\njson"
    );
}

#[test]
fn listing_passes_over_a_file_that_holds_no_record() {
    let mut storage = Storage::new("root");
    let mut a = row_of("1", "int");
    add_row(&mut storage, "shop", "orders", "a", &mut a);
    storage.append_row_bytes("shop", "orders", "broken", &[9, 9, 9]);
    assert_eq!(get_table(&storage, "shop", "orders").unwrap().len(), 2);
    let rows = get_table_with_keys(&storage, "shop", "orders").unwrap();
    assert_eq!(rows.len(), 1);
    assert_eq!(rows[0].key, "a");
    assert_eq!(
        read_row(&storage, "shop", "orders", "broken").unwrap_err(),
        "[ ERROR ] Row: Can not merge from bytes"
    );
}
