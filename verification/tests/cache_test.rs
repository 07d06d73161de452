use rdb::cache::cache_db::delete_db;
use rdb::cache::cache_table::{Cache, TimeCache};
use rdb::cache::key::{from_cache_string, split_cache_string, to_cache_string};
use rdb::cache::{add, clear, delete, delete_table, get, keys};
use rdb::db::row::read_row;
use rdb::db::table::create_table;
use rdb::db::{create_db, Storage};
use rdb::record::Row;

fn row_of(value: &str, type_: &str) -> Row {
    let mut row = Row::new();
    row.set_value(value.to_string());
    row.set_type(type_.to_string());
    row
}

#[test]
fn shop_orders_scenario() {
    let mut storage = Storage::new("db");
    let mut cache = Cache::new(10);
    assert_eq!(create_db(&mut storage, "shop"), true);
    assert_eq!(create_table(&mut storage, "shop", "orders"), true);
    assert_eq!(add(&mut cache, &mut storage, "shop", "orders", "1", "42", "int", 100), true);
    let row = get(&mut cache, &storage, "shop", "orders", "1", 101).unwrap();
    assert_eq!(row.value(), "42");
    assert_eq!(row.type_(), "int");
    assert_eq!(add(&mut cache, &mut storage, "shop", "orders", "1", "43", "int", 102), false);
    let again = get(&mut cache, &storage, "shop", "orders", "1", 103).unwrap();
    assert_eq!(again.value(), "42");
    assert_eq!(read_row(&storage, "shop", "orders", "1").unwrap().value(), "42");
    assert_eq!(
        delete(&mut cache, &mut storage, "shop", "orders", "1").unwrap(),
        "Row with key 1 was deleted"
    );
    assert_eq!(get(&mut cache, &storage, "shop", "orders", "1", 104).unwrap_err(), "0");
}

#[test]
fn delete_of_a_missing_row_says_so() {
    let mut storage = Storage::new("db");
    let mut cache = Cache::new(10);
    assert_eq!(
        delete(&mut cache, &mut storage, "shop", "orders", "9").unwrap_err(),
        "Cant delete row with key 9"
    );
}

#[test]
fn add_makes_database_and_table_and_counts_bytes() {
    let mut storage = Storage::new("db");
    let mut cache = Cache::new(1);
    assert_eq!(cache.max_data_size(), 1024 * 1024);
    assert_eq!(add(&mut cache, &mut storage, "d", "t", "k", "héllo", "string", 5), true);
    assert_eq!(cache.current_data_size(), 6);
    assert_eq!(keys(&cache), vec!["d|rdb|t|rdb|k".to_string()]);
    assert_eq!(read_row(&storage, "d", "t", "k").unwrap().value(), "héllo");
}

#[test]
fn get_caches_a_row_that_only_storage_has() {
    let mut storage = Storage::new("db");
    let mut cache = Cache::new(1);
    let mut row = row_of("abc", "string");
    rdb::db::row::add_row(&mut storage, "d", "t", "k", &mut row);
    assert_eq!(keys(&cache).len(), 0);
    let read = get(&mut cache, &storage, "d", "t", "k", 7).unwrap();
    assert_eq!(read.value(), "abc");
    assert_eq!(keys(&cache), vec!["d|rdb|t|rdb|k".to_string()]);
    assert_eq!(cache.current_data_size(), 3);
    assert_eq!(add(&mut cache, &mut storage, "d", "t", "k", "x", "string", 8), false);
}

#[test]
fn the_key_used_longest_ago_is_evicted() {
    let mut cache = Cache::new(0);
    cache.insert("a".to_string(), row_of("aaaa", "string"));
    cache.safe_time_insert("a", TimeCache { last_accessed: 30, data_length: 4 });
    assert_eq!(cache.current_data_size(), 4);
    cache.insert("b".to_string(), row_of("bb", "string"));
    cache.safe_time_insert("b", TimeCache { last_accessed: 10, data_length: 2 });
    assert_eq!(cache.keys(), vec!["b".to_string()]);
    assert_eq!(cache.current_data_size(), 2);
    assert!(cache.get("a").is_none());
}

#[test]
fn eviction_takes_the_smallest_time_and_only_one_entry() {
    let mut storage = Storage::new("db");
    let mut cache = Cache::new(1);
    let big = "x".repeat(400 * 1024);
    assert_eq!(add(&mut cache, &mut storage, "d", "t", "first", &big, "string", 20), true);
    assert_eq!(add(&mut cache, &mut storage, "d", "t", "second", &big, "string", 10), true);
    assert_eq!(cache.current_data_size(), 800 * 1024);
    assert_eq!(add(&mut cache, &mut storage, "d", "t", "third", &big, "string", 30), true);
    assert_eq!(
        keys(&cache),
        vec!["d|rdb|t|rdb|first".to_string(), "d|rdb|t|rdb|third".to_string()]
    );
    assert_eq!(cache.current_data_size(), 800 * 1024);
    assert_eq!(get(&mut cache, &storage, "d", "t", "first", 40).unwrap().value(), big);
    let huge = "y".repeat(2 * 1024 * 1024);
    assert_eq!(add(&mut cache, &mut storage, "d", "t", "fourth", &huge, "string", 50), true);
    assert_eq!(
        keys(&cache),
        vec!["d|rdb|t|rdb|first".to_string(), "d|rdb|t|rdb|fourth".to_string()]
    );
    assert_eq!(cache.current_data_size(), 400 * 1024 + 2 * 1024 * 1024);
}

#[test]
fn a_get_refreshes_the_time_of_a_key() {
    let mut storage = Storage::new("db");
    let mut cache = Cache::new(1);
    let big = "x".repeat(400 * 1024);
    add(&mut cache, &mut storage, "d", "t", "first", &big, "string", 10);
    add(&mut cache, &mut storage, "d", "t", "second", &big, "string", 20);
    get(&mut cache, &storage, "d", "t", "first", 30).unwrap();
    add(&mut cache, &mut storage, "d", "t", "third", &big, "string", 40);
    assert_eq!(
        keys(&cache),
        vec!["d|rdb|t|rdb|first".to_string(), "d|rdb|t|rdb|third".to_string()]
    );
}

#[test]
fn delete_table_empties_cache_and_storage_of_it() {
    let mut storage = Storage::new("db");
    let mut cache = Cache::new(10);
    add(&mut cache, &mut storage, "shop", "orders", "1", "a", "string", 1);
    add(&mut cache, &mut storage, "shop", "orders", "2", "b", "string", 2);
    add(&mut cache, &mut storage, "shop", "clients", "1", "c", "string", 3);
    assert_eq!(delete_table(&mut cache, &mut storage, "shop", "none"), false);
    assert_eq!(keys(&cache).len(), 3);
    assert_eq!(delete_table(&mut cache, &mut storage, "shop", "orders"), true);
    assert_eq!(keys(&cache), vec!["shop|rdb|clients|rdb|1".to_string()]);
    assert_eq!(cache.current_data_size(), 1);
    assert_eq!(get(&mut cache, &storage, "shop", "orders", "1", 4).unwrap_err(), "0");
    assert_eq!(get(&mut cache, &storage, "shop", "orders", "2", 5).unwrap_err(), "0");
    assert_eq!(get(&mut cache, &storage, "shop", "clients", "1", 6).unwrap().value(), "c");
}

#[test]
fn delete_db_empties_cache_and_storage_of_it() {
    let mut storage = Storage::new("db");
    let mut cache = Cache::new(10);
    add(&mut cache, &mut storage, "shop", "orders", "1", "a", "string", 1);
    add(&mut cache, &mut storage, "bank", "orders", "1", "b", "string", 2);
    assert_eq!(
        delete_db(&mut cache, &mut storage, "none").unwrap_err(),
        "{\"code\": 400, \"message\": \"DataBase not exist\"}"
    );
    assert_eq!(
        delete_db(&mut cache, &mut storage, "shop").unwrap(),
        "{\"code\": 200, \"message\": \"DB was delete\"}"
    );
    assert_eq!(keys(&cache), vec!["bank|rdb|orders|rdb|1".to_string()]);
    assert_eq!(get(&mut cache, &storage, "shop", "orders", "1", 3).unwrap_err(), "0");
}

#[test]
fn clear_empties_the_cache_only() {
    let mut storage = Storage::new("db");
    let mut cache = Cache::new(10);
    add(&mut cache, &mut storage, "shop", "orders", "1", "a", "string", 1);
    clear(&mut cache);
    assert_eq!(keys(&cache).len(), 0);
    assert_eq!(cache.current_data_size(), 0);
    assert_eq!(get(&mut cache, &storage, "shop", "orders", "1", 2).unwrap().value(), "a");
}

#[test]
fn cache_methods_on_their_own() {
    let mut cache = Cache::new(1);
    assert!(cache.get("k").is_none());
    cache.insert("k".to_string(), row_of("v", "string"));
    cache.insert("k".to_string(), row_of("w", "string"));
    assert_eq!(cache.get("k").unwrap().value(), "w");
    assert_eq!(cache.contains_key("k"), true);
    cache.safe_time_insert("k", TimeCache { last_accessed: 1, data_length: 1 });
    cache.safe_time_insert("k", TimeCache { last_accessed: 2, data_length: 5 });
    assert_eq!(cache.current_data_size(), 5);
    cache.update_last_accessed("k", 9);
    cache.update_last_accessed("none", 9);
    assert_eq!(cache.current_data_size(), 5);
    cache.delete("none");
    assert_eq!(cache.keys().len(), 1);
    cache.delete("k");
    assert_eq!(cache.keys().len(), 0);
    assert_eq!(cache.current_data_size(), 0);
    cache.insert("d|rdb|t|rdb|1".to_string(), row_of("v", "string"));
    cache.safe_time_insert("d|rdb|t|rdb|1", TimeCache { last_accessed: 1, data_length: 1 });
    cache.delete_table("d", "u");
    assert_eq!(cache.keys().len(), 1);
    cache.delete_db("d");
    assert_eq!(cache.keys().len(), 0);
    cache.clear();
    assert_eq!(cache.current_data_size(), 0);
}

#[test]
fn cache_keys_compose_and_decompose() {
    assert_eq!(to_cache_string("shop", "orders", "1"), "shop|rdb|orders|rdb|1");
    let parts = from_cache_string("shop|rdb|orders|rdb|1".to_string());
    assert_eq!(parts.db, "shop");
    assert_eq!(parts.table, "orders");
    assert_eq!(parts.key, "1");
    let more = split_cache_string("a|rdb|b|rdb|c|rdb|d").unwrap();
    assert_eq!(more.db, "a");
    assert_eq!(more.table, "b");
    assert_eq!(more.key, "c");
    let empty = split_cache_string("|rdb||rdb|").unwrap();
    assert_eq!(empty.db, "");
    assert_eq!(empty.table, "");
    assert_eq!(empty.key, "");
    assert!(split_cache_string("shop|rdb|orders").is_none());
    assert!(split_cache_string("shop").is_none());
    assert!(split_cache_string("").is_none());
    let bar = split_cache_string("a|rdb|rdb|t|rdb|k").unwrap();
    assert_eq!(bar.db, "a");
    assert_eq!(bar.table, "rdb|t");
}

#[test]
fn a_key_that_was_evicted_can_be_added_again() {
    let mut storage = Storage::new("db");
    let mut cache = Cache::new(0);
    assert_eq!(add(&mut cache, &mut storage, "d", "t", "k", "one", "string", 1), true);
    assert_eq!(add(&mut cache, &mut storage, "d", "t", "other", "x", "string", 2), true);
    assert_eq!(keys(&cache), vec!["d|rdb|t|rdb|other".to_string()]);
    assert_eq!(add(&mut cache, &mut storage, "d", "t", "k", "two", "string", 3), true);
    assert_eq!(read_row(&storage, "d", "t", "k").unwrap().value(), "two");
    assert_eq!(get(&mut cache, &storage, "d", "t", "k", 4).unwrap().value(), "two");
}

#[test]
fn a_name_with_a_separator_in_it_escapes_the_table() {
    let mut storage = Storage::new("db");
    let mut cache = Cache::new(10);
    assert_eq!(add(&mut cache, &mut storage, "a|rdb", "t", "k", "v", "string", 1), true);
    assert_eq!(delete_table(&mut cache, &mut storage, "a|rdb", "t"), true);
    assert_eq!(keys(&cache), vec!["a|rdb|rdb|t|rdb|k".to_string()]);
    assert_eq!(get(&mut cache, &storage, "a|rdb", "t", "k", 2).unwrap().value(), "v");
}
