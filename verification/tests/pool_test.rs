use rdb::cache::cache_table::Cache;
use rdb::config::{with_settings, Config, ConfigError};
use rdb::db::Storage;
use rdb::http::receiver::RequestHeaders;
use rdb::http::row_methods::Bunch;
use rdb::http::{db_methods, row_methods, table_methods};
use rdb::text::decimal;
use rdb::tx_pool::req_handler::{handle_request, request_kind, wants_batch, RequestKind};
use rdb::tx_pool::tx_table::{TxPool, TX};
use rdb::tx_pool::worker::{delete_latest_tx, get_latest_tx, is_pool_empty};
use rdb::tx_pool::{add_tx, reply_message, worker, Turn};

fn head(rud: &str, db: &str, table: &str, key: &str, type_: &str) -> RequestHeaders {
    RequestHeaders {
        rud: rud.to_string(),
        db: db.to_string(),
        table: table.to_string(),
        key: key.to_string(),
        _type: type_.to_string(),
    }
}

fn tx(req: &str, to: &str) -> TX {
    TX {
        req: req.to_string(),
        head: head("r", "d", "t", "k", "string"),
        body: "b".to_string(),
        to: to.to_string(),
    }
}

#[test]
fn the_defaults_of_the_settings() {
    let conf = Config::default();
    assert_eq!(conf.db_path, "db");
    assert_eq!(conf.ip, "127.0.0.1");
    assert_eq!(conf.port, 3000);
    assert_eq!(conf.cache_size, 10);
    assert_eq!(conf.workers_count, 4);
}

#[test]
fn numbers_in_decimal_digits() {
    assert_eq!(decimal(0), "0");
    assert_eq!(decimal(7), "7");
    assert_eq!(decimal(10), "10");
    assert_eq!(decimal(1234567890), "1234567890");
    assert_eq!(decimal(99), "99");
    assert_eq!(decimal(100), "100");
    assert_eq!(decimal(u128::MAX), u128::MAX.to_string());
}

#[test]
fn the_pool_keys_a_transaction_by_the_count_of_those_waiting() {
    let mut pool = TxPool::new();
    assert_eq!(pool.insert(tx("a", "1")), 0);
    assert_eq!(pool.insert(tx("b", "2")), 1);
    assert_eq!(pool.insert(tx("c", "3")), 2);
    assert_eq!(pool.keys(), vec!["0".to_string(), "1".to_string(), "2".to_string()]);
    pool.delete("0");
    assert_eq!(pool.keys(), vec!["1".to_string(), "2".to_string()]);
    assert_eq!(pool.insert(tx("d", "4")), 2);
    assert_eq!(pool.keys(), vec!["1".to_string(), "2".to_string(), "3".to_string()]);
    let (one, key) = pool.get_one();
    assert_eq!(key, "3");
    assert_eq!(one.req, "d");
    pool.delete("3");
    let (one, key) = pool.get_one();
    assert_eq!(key, "2");
    assert_eq!(one.req, "c");
    pool.delete("none");
    assert_eq!(pool.len(), 2);
    pool.clear();
    assert_eq!(pool.len(), 0);
    assert_eq!(pool.has_room(), true);
    assert_eq!(pool.insert(tx("e", "5")), 0);
    assert_eq!(pool.keys(), vec!["4".to_string()]);
}

#[test]
fn no_waiting_transaction_is_lost_to_a_new_one() {
    let mut pool = TxPool::new();
    assert_eq!(pool.insert(tx("a", "")), 0);
    assert_eq!(pool.insert(tx("b", "")), 1);
    pool.delete("0");
    pool.insert(tx("c", ""));
    assert_eq!(pool.len(), 2);
    let keys = pool.keys();
    assert_eq!(keys, vec!["1".to_string(), "2".to_string()]);
    let (last, _) = pool.get_one();
    assert_eq!(last.req, "c");
    pool.delete("2");
    let (left, key) = pool.get_one();
    assert_eq!(left.req, "b");
    assert_eq!(key, "1");
}

#[test]
fn the_reply_carries_the_outcome_of_a_failure_as_of_a_success() {
    assert_eq!(reply_message("X", Ok("42\nint".to_string())), "rud: X\n42\nint");
    assert_eq!(reply_message("X", Err("0".to_string())), "rud: X\n0");
    assert_eq!(reply_message("", Err(String::new())), "rud: \n");
}

#[test]
fn a_worker_takes_what_waits_or_sleeps() {
    let mut pool = TxPool::new();
    assert_eq!(is_pool_empty(&pool), true);
    assert!(matches!(worker(&mut pool), Turn::Sleep));
    add_tx(&mut pool, "get_row", head("r1", "d", "t", "k", ""), "", "client-1");
    add_tx(&mut pool, "add_row", head("r2", "d", "t", "k", "int"), "5", "client-2");
    assert_eq!(is_pool_empty(&pool), false);
    let (latest, key) = get_latest_tx(&pool);
    assert_eq!(key, "1");
    assert_eq!(latest.to, "client-2");
    match worker(&mut pool) {
        Turn::Serve(tx) => {
            assert_eq!(tx.req, "add_row");
            assert_eq!(tx.head.rud, "r2");
            assert_eq!(tx.body, "5");
            assert_eq!(tx.to, "client-2");
        }
        Turn::Sleep => panic!("a transaction waits"),
    }
    assert_eq!(pool.keys(), vec!["0".to_string()]);
    delete_latest_tx(&mut pool, "0");
    assert_eq!(is_pool_empty(&pool), true);
}

#[test]
fn request_kinds_by_name() {
    assert_eq!(request_kind("get_row"), RequestKind::GetRow);
    assert_eq!(request_kind("add_row"), RequestKind::AddRow);
    assert_eq!(request_kind("delete_row"), RequestKind::DeleteRow);
    assert_eq!(request_kind("add_bunch"), RequestKind::AddBunch);
    assert_eq!(request_kind("get_table"), RequestKind::GetTable);
    assert_eq!(request_kind("get_table_data"), RequestKind::GetTableData);
    assert_eq!(request_kind("add_table"), RequestKind::AddTable);
    assert_eq!(request_kind("delete_table"), RequestKind::DeleteTable);
    assert_eq!(request_kind("delete_db"), RequestKind::DeleteDb);
    assert_eq!(request_kind("edit_row"), RequestKind::NoAction);
    assert_eq!(request_kind(""), RequestKind::NoAction);
    assert_eq!(wants_batch("add_bunch"), true);
    assert_eq!(wants_batch("add_row"), false);
}

#[test]
fn a_value_of_the_wrong_type_touches_nothing() {
    let mut storage = Storage::new("db");
    let mut cache = Cache::new(10);
    let req = head("r", "shop", "orders", "1", "int");
    let reply = row_methods::add(&mut cache, &mut storage, &req, "abc", 1);
    assert_eq!(
        reply.unwrap_err(),
        "{\"code\": 400, \"message\": \"invalid digit found in string\"}\njson"
    );
    assert_eq!(cache.keys().len(), 0);
    assert_eq!(cache.current_data_size(), 0);
    assert_eq!(rdb::db::is_db_exist(&storage, "shop"), false);
    assert_eq!(storage.take_effects().len(), 0);
    let reply = handle_request(&mut cache, &mut storage, "add_row", &req, "abc", &None, 2);
    assert!(reply.is_err());
    assert_eq!(storage.take_effects().len(), 0);
}

#[test]
fn rows_through_the_handlers() {
    let mut storage = Storage::new("db");
    let mut cache = Cache::new(10);
    let req = head("r", "shop", "orders", "1", "int");
    assert_eq!(
        row_methods::add(&mut cache, &mut storage, &req, "42", 1).unwrap(),
        "{\"code\": 200, \"message\": \"New value was add\"}\njson"
    );
    assert_eq!(row_methods::add(&mut cache, &mut storage, &req, "43", 2).unwrap_err(), "0");
    assert_eq!(row_methods::get(&mut cache, &storage, &req, 3).unwrap(), "42\nint");
    assert_eq!(
        row_methods::delete(&mut cache, &mut storage, &req).unwrap(),
        "{\"code\": 200, \"message\": \"Row was delete\"}\njson"
    );
    assert_eq!(
        row_methods::delete(&mut cache, &mut storage, &req).unwrap(),
        "{\"code\": 400, \"message\": \"Cant delete row with key 1\"}\njson"
    );
    assert_eq!(row_methods::get(&mut cache, &storage, &req, 4).unwrap_err(), "0");
}

#[test]
fn tables_through_the_handlers() {
    let mut storage = Storage::new("db");
    let mut cache = Cache::new(10);
    let req = head("r", "shop", "orders", "", "");
    assert_eq!(
        table_methods::get(&storage, &req).unwrap(),
        "{\"code\": 400, \"message\": \"no such table\"}\njson"
    );
    assert_eq!(table_methods::create(&mut storage, &req).unwrap(), "1");
    assert_eq!(table_methods::get(&storage, &req).unwrap(), "[]\njson");
    assert_eq!(table_methods::get_with_keys(&storage, &req).unwrap(), "[]\njson");
    let first = head("r", "shop", "orders", "a\"b", "string");
    let second = head("r", "shop", "orders", "c", "json");
    row_methods::add(&mut cache, &mut storage, &first, "line\nfeed", 1).unwrap();
    row_methods::add(&mut cache, &mut storage, &second, "{\"id\": 1}", 2).unwrap();
    assert_eq!(table_methods::get(&storage, &req).unwrap(), "[\"a\\\"b\",\"c\"]\njson");
    let keys: Vec<String> = vec!["a\"b".to_string(), "c".to_string()];
    assert_eq!(
        table_methods::get(&storage, &req).unwrap(),
        simd_json::to_string(&keys).unwrap() + "\njson"
    );
    assert_eq!(
        table_methods::get_with_keys(&storage, &req).unwrap(),
        "[{\"key\":\"a\\\"b\",\"value\":\"line\\nfeed\",\"_type\":\"string\"},{\"key\":\"c\",\"value\":\"{\\\"id\\\": 1}\",\"_type\":\"json\"}]\njson"
    );
    assert_eq!(table_methods::delete(&mut cache, &mut storage, &req).unwrap(), "1");
    assert_eq!(table_methods::delete(&mut cache, &mut storage, &req).unwrap(), "0");
    assert_eq!(cache.keys().len(), 0);
    assert_eq!(
        db_methods::delete(&mut cache, &mut storage, &req).unwrap(),
        "{\"code\": 200, \"message\": \"DB was delete\"}"
    );
    assert_eq!(
        db_methods::delete(&mut cache, &mut storage, &req).unwrap_err(),
        "{\"code\": 400, \"message\": \"DataBase not exist\"}"
    );
}

#[test]
fn a_batch_goes_straight_to_storage() {
    let mut storage = Storage::new("db");
    let req = head("r", "shop", "orders", "", "");
    let items = vec![
        Bunch { key: "a".to_string(), value: "1".to_string(), _type: "int".to_string() },
        Bunch { key: "b".to_string(), value: "\"x\"".to_string(), _type: "string".to_string() },
    ];
    assert_eq!(row_methods::bunch(&mut storage, &req, &Some(items)).unwrap(), "bunch was add");
    assert_eq!(
        rdb::db::table::get_table(&storage, "shop", "orders").unwrap(),
        vec!["a".to_string(), "b".to_string()]
    );
    assert_eq!(rdb::db::row::read_row(&storage, "shop", "orders", "b").unwrap().value(), "\"x\"");
    storage.take_effects();
    assert_eq!(row_methods::bunch(&mut storage, &req, &None).unwrap(), "0");
    assert_eq!(storage.take_effects().len(), 0);
    assert_eq!(row_methods::bunch(&mut storage, &req, &Some(Vec::new())).unwrap(), "bunch was add");
}

#[test]
fn every_kind_of_request_is_answered() {
    let mut storage = Storage::new("db");
    let mut cache = Cache::new(10);
    let req = head("r", "shop", "orders", "1", "uint");
    let none = None;
    assert_eq!(
        handle_request(&mut cache, &mut storage, "add_table", &req, "", &none, 1).unwrap(),
        "1"
    );
    assert_eq!(
        handle_request(&mut cache, &mut storage, "add_row", &req, "42", &none, 2).unwrap(),
        "{\"code\": 200, \"message\": \"New value was add\"}\njson"
    );
    assert_eq!(
        handle_request(&mut cache, &mut storage, "get_row", &req, "", &none, 3).unwrap(),
        "42\nuint"
    );
    assert_eq!(
        handle_request(&mut cache, &mut storage, "get_table", &req, "", &none, 4).unwrap(),
        "[\"1\"]\njson"
    );
    assert_eq!(
        handle_request(&mut cache, &mut storage, "get_table_data", &req, "", &none, 5).unwrap(),
        "[{\"key\":\"1\",\"value\":\"42\",\"_type\":\"uint\"}]\njson"
    );
    let batch = Some(vec![Bunch {
        key: "2".to_string(),
        value: "7".to_string(),
        _type: "uint".to_string(),
    }]);
    assert_eq!(
        handle_request(&mut cache, &mut storage, "add_bunch", &req, "[]", &batch, 6).unwrap(),
        "bunch was add"
    );
    assert_eq!(
        handle_request(&mut cache, &mut storage, "add_bunch", &req, "x", &none, 7).unwrap(),
        "0"
    );
    assert_eq!(
        handle_request(&mut cache, &mut storage, "delete_row", &req, "", &none, 8).unwrap(),
        "{\"code\": 200, \"message\": \"Row was delete\"}\njson"
    );
    assert_eq!(
        handle_request(&mut cache, &mut storage, "delete_table", &req, "", &none, 9).unwrap(),
        "1"
    );
    assert_eq!(
        handle_request(&mut cache, &mut storage, "delete_db", &req, "", &none, 10).unwrap(),
        "{\"code\": 200, \"message\": \"DB was delete\"}"
    );
    assert_eq!(
        handle_request(&mut cache, &mut storage, "edit_row", &req, "", &none, 11).unwrap(),
        "no action"
    );
    assert_eq!(
        handle_request(&mut cache, &mut storage, "", &req, "", &none, 12).unwrap(),
        "no action"
    );
}

#[test]
fn settings_replace_the_defaults_one_by_one() {
    let conf = with_settings(
        Some("data".to_string()),
        None,
        Some(8080),
        None,
        Some(0),
    )
    .unwrap();
    assert_eq!(conf.db_path, "data");
    assert_eq!(conf.ip, "127.0.0.1");
    assert_eq!(conf.port, 8080);
    assert_eq!(conf.cache_size, 10);
    assert_eq!(conf.workers_count, 0);
    let all = with_settings(None, Some("::1".to_string()), None, Some(65535), None)
        .unwrap();
    assert_eq!(all.db_path, "db");
    assert_eq!(all.ip, "::1");
    assert_eq!(all.port, 3000);
    assert_eq!(all.cache_size, 65535);
    assert_eq!(all.workers_count, 4);
}

#[test]
fn a_number_that_does_not_fit_its_setting_is_refused() {
    match with_settings(None, None, Some(65536), Some(-1), None) {
        Err(ConfigError::OutOfRange(which)) => assert_eq!(which, "PORT"),
        _ => panic!("the port does not fit"),
    }
    match with_settings(None, None, Some(1), Some(-1), Some(70000)) {
        Err(ConfigError::OutOfRange(which)) => assert_eq!(which, "CACHE_SIZE"),
        _ => panic!("the cache size does not fit"),
    }
    match with_settings(None, None, None, None, Some(70000)) {
        Err(ConfigError::OutOfRange(which)) => assert_eq!(which, "WORKERS_COUNT"),
        _ => panic!("the worker count does not fit"),
    }
}
