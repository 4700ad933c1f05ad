use std::collections::BTreeMap;

use bytes::Bytes;
use etcd_store::config::EtcdConfig;
use etcd_store::error::{DbError, Error};
use etcd_store::etcd::{create_table, Etcd, Stats};
use etcd_store::request::{DeleteRequest, GetRequest, KeyValue, PutRequest, Range};

type Store = BTreeMap<Vec<u8>, Vec<u8>>;

fn is_about(key: &str, range: Range, stored: &[u8]) -> bool {
    match range {
        Range::Exact => stored == key.as_bytes(),
        Range::Prefix => stored.starts_with(key.as_bytes()),
        Range::FromKey => stored >= key.as_bytes(),
        Range::All => true,
    }
}

fn put(store: &mut Store, request: PutRequest) {
    store.insert(request.key.into_bytes(), request.value.to_vec());
}

fn delete(store: &mut Store, request: DeleteRequest) {
    store.retain(|stored, _| !is_about(&request.key, request.range, stored));
}

fn count(store: &Store, request: &GetRequest) -> i64 {
    assert!(request.count_only);
    store
        .keys()
        .filter(|stored| is_about(&request.key, request.range, stored))
        .count() as i64
}

fn kvs(store: &Store, request: &GetRequest) -> Vec<KeyValue> {
    assert!(!request.count_only);
    let mut found: Vec<KeyValue> = store
        .iter()
        .filter(|(stored, _)| is_about(&request.key, request.range, stored))
        .map(|(key, value)| KeyValue {
            key: key.clone(),
            value: value.clone(),
        })
        .collect();
    if request.limit > 0 {
        found.truncate(request.limit as usize);
    }
    found
}

fn config(prefix: &str) -> EtcdConfig {
    EtcdConfig {
        addr: "localhost:2379".to_string(),
        prefix: prefix.to_string(),
        connect_timeout: 5,
        command_timeout: 10,
        lock_wait_timeout: 60,
        user: String::new(),
        password: String::new(),
        cert_auth: false,
        ca_file: String::new(),
        cert_file: String::new(),
        key_file: String::new(),
        domain_name: String::new(),
        load_page_size: 100,
    }
}

#[test]
fn test_etcd_prefix() {
    let client = Etcd::default(&config("/zinc/observe/"));
    assert_eq!(client.prefix(), "/zinc/observe".to_string());
}

#[test]
fn test_etcd_count() {
    let mut store = Store::new();
    let client = Etcd::default(&config("/zinc/observe/"));
    put(
        &mut store,
        client.put("/test/count/1", bytes::Bytes::from("1"), false),
    );
    put(
        &mut store,
        client.put("/test/count/2", bytes::Bytes::from("2"), false),
    );
    put(
        &mut store,
        client.put("/test/count/3", bytes::Bytes::from("3"), false),
    );
    let count = count(&store, &client.count("/test/count"));
    assert_eq!(count, 3);
}

#[test]
fn slashes_at_the_end_of_the_prefix_are_dropped() {
    assert_eq!(Etcd::new("/a/b").prefix(), "/a/b");
    assert_eq!(Etcd::new("/a/b/").prefix(), "/a/b");
    assert_eq!(Etcd::new("/a/b///").prefix(), "/a/b");
    assert_eq!(Etcd::new("//").prefix(), "");
    assert_eq!(Etcd::new("").prefix(), "");
    assert_eq!(Etcd::new("/größe//").prefix(), "/größe");
}

#[test]
fn the_settings_name_the_prefix_of_the_store() {
    assert_eq!(Etcd::default(&config("/x/y/")).prefix(), "/x/y");
    assert_eq!(Etcd::default(&config("/other")).prefix(), "/other");
    assert_eq!(Etcd::default(&config("")).prefix(), "");
}

#[test]
fn keys_stand_behind_the_prefix() {
    let client = Etcd::new("/base/");
    assert_eq!(client.key("/user/1"), "/base/user/1");
    assert_eq!(
        client.get("/user/1"),
        GetRequest {
            key: "/base/user/1".to_string(),
            range: Range::Exact,
            ascending: false,
            limit: 0,
            count_only: false,
        }
    );
    assert_eq!(
        client.count("/user"),
        GetRequest {
            key: "/base/user".to_string(),
            range: Range::Prefix,
            ascending: false,
            limit: 0,
            count_only: true,
        }
    );
    assert_eq!(
        client.stats(),
        GetRequest {
            key: String::new(),
            range: Range::All,
            ascending: false,
            limit: 0,
            count_only: true,
        }
    );
    assert_eq!(
        client.delete("/user", true, false),
        DeleteRequest {
            key: "/base/user".to_string(),
            range: Range::Prefix,
        }
    );
    assert_eq!(
        client.delete("/user", false, true),
        DeleteRequest {
            key: "/base/user".to_string(),
            range: Range::Exact,
        }
    );
    assert_eq!(
        client.put("/user/1", Bytes::from("v"), true),
        PutRequest {
            key: "/base/user/1".to_string(),
            value: Bytes::from("v"),
        }
    );
}

#[test]
fn a_get_finds_what_was_put_last() {
    let mut store = Store::new();
    let client = Etcd::new("/base");
    put(&mut store, client.put("/k", Bytes::from("one"), false));
    put(&mut store, client.put("/other", Bytes::from("two"), false));
    put(&mut store, client.put("/k", Bytes::from("three"), false));
    let value = client.get_reply("/k", &kvs(&store, &client.get("/k")));
    assert_eq!(value, Ok(Bytes::from("three")));
    let value = client.get_reply("/other", &kvs(&store, &client.get("/other")));
    assert_eq!(value, Ok(Bytes::from("two")));
}

#[test]
fn a_missing_key_is_named_as_the_store_knows_it() {
    let client = Etcd::new("/base");
    let value = client.get_reply("/k", &Vec::new());
    assert_eq!(
        value,
        Err(Error::DbError(DbError::KeyNotExists("/base/k".to_string())))
    );
}

#[test]
fn the_first_pair_of_a_reply_counts() {
    let client = Etcd::new("/base");
    let reply = vec![
        KeyValue {
            key: b"/base/k".to_vec(),
            value: vec![0, 255],
        },
        KeyValue {
            key: b"/base/l".to_vec(),
            value: vec![1],
        },
    ];
    assert_eq!(client.get_reply("/k", &reply), Ok(Bytes::from(vec![0, 255])));
}

#[test]
fn a_delete_removes_the_key_or_everything_that_begins_with_it() {
    let client = Etcd::new("/base");
    let mut store = Store::new();
    for key in ["/a", "/a/1", "/a/2", "/b"] {
        put(&mut store, client.put(key, Bytes::from("v"), false));
    }
    delete(&mut store, client.delete("/a", false, false));
    assert!(client
        .get_reply("/a", &kvs(&store, &client.get("/a")))
        .is_err());
    assert!(client
        .get_reply("/a/1", &kvs(&store, &client.get("/a/1")))
        .is_ok());
    delete(&mut store, client.delete("/a", true, false));
    assert!(client
        .get_reply("/a/1", &kvs(&store, &client.get("/a/1")))
        .is_err());
    assert!(client
        .get_reply("/b", &kvs(&store, &client.get("/b")))
        .is_ok());
    assert_eq!(count(&store, &client.count("")), 1);
}

#[test]
fn statistics_are_taken_over() {
    let mut store = Store::new();
    let client = Etcd::new("/base");
    put(&mut store, client.put("/k", Bytes::from("v"), false));
    store.insert(b"elsewhere".to_vec(), Vec::new());
    let keys = count(&store, &client.stats());
    assert_eq!(
        client.stats_reply(4096, keys),
        Stats {
            bytes_len: 4096,
            keys_count: 2,
        }
    );
}

#[test]
fn tables_need_no_preparation() {
    assert_eq!(create_table(), Ok(()));
    assert_eq!(Etcd::default(&config("/zinc/observe/")).create_table(), Ok(()));
    assert_eq!(Etcd::default(&config("/zinc/observe/")).close(), Ok(()));
}
