use std::collections::BTreeMap;

use bytes::Bytes;
use etcd_store::etcd::Etcd;
use etcd_store::request::{GetRequest, KeyValue, Range};

fn pair(key: &str, value: &str) -> KeyValue {
    KeyValue {
        key: key.as_bytes().to_vec(),
        value: value.as_bytes().to_vec(),
    }
}

fn answer(store: &BTreeMap<Vec<u8>, Vec<u8>>, request: &GetRequest) -> Vec<KeyValue> {
    assert!(request.ascending);
    let mut found: Vec<KeyValue> = store
        .iter()
        .filter(|(stored, _)| match request.range {
            Range::Exact => stored.as_slice() == request.key.as_bytes(),
            Range::Prefix => stored.starts_with(request.key.as_bytes()),
            Range::FromKey => stored.as_slice() >= request.key.as_bytes(),
            Range::All => true,
        })
        .map(|(key, value)| KeyValue {
            key: key.clone(),
            value: value.clone(),
        })
        .collect();
    if request.limit > 0 {
        found.truncate(request.limit as usize);
    }
    found
}

fn sample() -> BTreeMap<Vec<u8>, Vec<u8>> {
    let mut store = BTreeMap::new();
    store.insert(b"/base/A".to_vec(), b"before".to_vec());
    for i in 0..7 {
        store.insert(
            format!("/base/k/{i}").into_bytes(),
            format!("v{i}").into_bytes(),
        );
    }
    store.insert(b"/base/l".to_vec(), b"behind".to_vec());
    store.insert(b"/other/k/0".to_vec(), b"elsewhere".to_vec());
    store
}

fn keys(store: &BTreeMap<Vec<u8>, Vec<u8>>, prefix: &str, page_size: i64) -> (Vec<String>, usize) {
    let mut listing = Etcd::new("/base").list_keys(prefix, page_size);
    let mut pages = 0;
    while !listing.is_done() {
        let page = answer(store, &listing.request());
        assert!(listing.accepts(&page));
        listing.read(&page);
        pages += 1;
        assert!(pages < 100);
    }
    (listing.finish(), pages)
}

fn wanted() -> Vec<String> {
    (0..7).map(|i| format!("/k/{i}")).collect()
}

#[test]
fn every_page_size_finds_the_same_keys() {
    let store = sample();
    for page_size in 2..12 {
        assert_eq!(keys(&store, "/k/", page_size).0, wanted());
    }
    assert_eq!(keys(&store, "/k/", 0).0, wanted());
    assert_eq!(keys(&store, "/k/", 100), (wanted(), 1));
    assert_eq!(keys(&store, "/k/", 7), (wanted(), 2));
    assert_eq!(keys(&store, "/none", 1), (Vec::new(), 1));
}

#[test]
fn the_end_of_the_store_ends_a_listing() {
    let mut store = sample();
    store.remove(b"/base/l".as_slice());
    store.remove(b"/other/k/0".as_slice());
    for page_size in 2..12 {
        assert_eq!(keys(&store, "/k/", page_size).0, wanted());
    }
}

#[test]
fn values_come_in_the_order_of_their_keys() {
    let store = sample();
    let mut listing = Etcd::new("/base").list_values("/k", 3);
    while !listing.is_done() {
        let page = answer(&store, &listing.request());
        listing.read(&page);
    }
    let values: Vec<Bytes> = (0..7).map(|i| Bytes::from(format!("v{i}"))).collect();
    assert_eq!(listing.finish(), values);
}

#[test]
fn a_map_leads_from_each_key_to_its_value() {
    let store = sample();
    let mut listing = Etcd::new("/base").list("", 4);
    while !listing.is_done() {
        let page = answer(&store, &listing.request());
        assert!(listing.accepts(&page));
        listing.read(&page);
    }
    let map = listing.finish();
    assert_eq!(map.len(), 9);
    assert_eq!(map["/A"], Bytes::from("before"));
    assert_eq!(map["/k/3"], Bytes::from("v3"));
    assert_eq!(map["/l"], Bytes::from("behind"));
    assert!(!map.contains_key("/other/k/0"));
}

#[test]
fn the_first_page_is_asked_for_by_prefix_and_the_next_from_the_last_key() {
    let mut listing = Etcd::new("/base/").list_keys("/k", 2);
    assert_eq!(
        listing.request(),
        GetRequest {
            key: "/base/k".to_string(),
            range: Range::Prefix,
            ascending: true,
            limit: 2,
            count_only: false,
        }
    );
    listing.read(&vec![pair("/base/k1", "1"), pair("/base/k2", "2")]);
    assert!(!listing.is_done());
    assert_eq!(
        listing.request(),
        GetRequest {
            key: "/base/k2".to_string(),
            range: Range::FromKey,
            ascending: true,
            limit: 2,
            count_only: false,
        }
    );
    listing.read(&vec![pair("/base/k2", "2"), pair("/base/l", "3")]);
    assert!(listing.is_done());
    assert_eq!(
        listing.finish(),
        vec!["1".to_string(), "2".to_string()]
            .iter()
            .map(|s| format!("/k{s}"))
            .collect::<Vec<String>>()
    );
}

#[test]
fn a_page_of_one_key_never_ends() {
    let mut listing = Etcd::new("/base").list_keys("/k", 1);
    for _ in 0..10 {
        listing.read(&vec![pair("/base/k1", "1")]);
        assert!(!listing.is_done());
    }
    assert_eq!(listing.finish(), vec!["/k1".to_string()]);
}

#[test]
fn pages_that_cannot_be_read_are_told_apart() {
    let listing = Etcd::new("/base").list_keys("/k", 5);
    let bad = KeyValue {
        key: vec![0xff, 0xfe],
        value: Vec::new(),
    };
    assert!(listing.accepts(&Vec::new()));
    assert!(listing.accepts(&vec![pair("/base/k1", "1")]));
    assert!(!listing.accepts(&vec![
        pair("/base/k1", "1"),
        KeyValue {
            key: bad.key.clone(),
            value: Vec::new(),
        }
    ]));
    // what stands behind the first key outside the prefix is not looked at
    assert!(listing.accepts(&vec![pair("/base/k1", "1"), pair("/base/l", "2"), bad]));
    // without a limit there has to be a key to go on from
    let listing = Etcd::new("/base").list_keys("/k", 0);
    assert!(!listing.accepts(&Vec::new()));
}

#[test]
fn keys_beyond_ascii_are_listed() {
    let mut store = BTreeMap::new();
    for key in ["/base/ä/1", "/base/ä/2", "/base/ä/€", "/base/å"] {
        store.insert(key.as_bytes().to_vec(), b"v".to_vec());
    }
    assert_eq!(
        keys(&store, "/ä", 2).0,
        vec!["/ä/1".to_string(), "/ä/2".to_string(), "/ä/€".to_string()]
    );
}

#[test]
fn keys_come_in_ascending_order_as_callers_name_them() {
    let mut store = BTreeMap::new();
    for key in ["", "/b", "/ab", "/ä", "/a", "/a/1", "/B", "/€", "/a!"] {
        store.insert(format!("/base{key}").into_bytes(), b"v".to_vec());
    }
    let found = keys(&store, "/", 3).0;
    assert_eq!(found, ["/B", "/a", "/a!", "/a/1", "/ab", "/b", "/ä", "/€"]);
    for i in 1..found.len() {
        assert!(found[i - 1].as_bytes() < found[i].as_bytes());
    }
}
