use bytes::Bytes;
use etcd_store::etcd::Etcd;
use etcd_store::request::{KeyValue, Range, WatchRequest};
use etcd_store::watch::{Event, EventData, EventType, StoreEvent, WatchAction, WatchSignal};

fn change(event_type: EventType, key: &[u8], value: &str) -> StoreEvent {
    StoreEvent {
        event_type,
        kv: Some(KeyValue {
            key: key.to_vec(),
            value: value.as_bytes().to_vec(),
        }),
    }
}

#[test]
fn changes_are_told_under_the_names_that_callers_use() {
    let watch = Etcd::new("/base/").watch("/user");
    let seen = watch.events(&vec![
        change(EventType::Put, b"/base/user/1", "v"),
        change(EventType::Delete, b"/base/user/2", "ignored"),
    ]);
    assert_eq!(
        seen,
        vec![
            Event::Put(EventData {
                key: "/user/1".to_string(),
                value: Some(Bytes::from("v")),
            }),
            Event::Delete(EventData {
                key: "/user/2".to_string(),
                value: None,
            }),
        ]
    );
}

#[test]
fn changes_that_cannot_be_told_are_told_apart() {
    let watch = Etcd::new("/base/").watch("/user");
    assert!(watch.deliverable(&change(EventType::Put, b"/base/user/1", "v")));
    assert!(watch.deliverable(&change(EventType::Put, b"/base", "v")));
    assert!(!watch.deliverable(&change(EventType::Put, b"/bas", "v")));
    assert!(!watch.deliverable(&change(EventType::Put, b"/base/\xff", "v")));
    assert!(!watch.deliverable(&StoreEvent {
        event_type: EventType::Put,
        kv: None,
    }));
    let seen = watch.events(&vec![
        change(EventType::Put, b"/base/user/1", "v"),
        change(EventType::Put, b"/other", "v"),
        change(EventType::Put, b"/base/user/2", "v"),
    ]);
    assert_eq!(seen.len(), 1);
}

#[test]
fn a_watch_goes_on_until_the_node_is_offline() {
    let mut watch = Etcd::new("/base/").watch("/user");
    assert_eq!(watch.action(), WatchAction::AskOffline);
    watch.step(WatchSignal::Offline(false));
    assert_eq!(
        watch.action(),
        WatchAction::Open(WatchRequest {
            key: "/base/user".to_string(),
            range: Range::Prefix,
        })
    );
    watch.step(WatchSignal::Opened(false));
    assert_eq!(watch.action(), WatchAction::Pause(1));
    watch.step(WatchSignal::Paused);
    assert_eq!(watch.action(), WatchAction::AskOffline);
    watch.step(WatchSignal::Offline(false));
    watch.step(WatchSignal::Opened(true));
    assert_eq!(watch.action(), WatchAction::Read);
    watch.step(WatchSignal::Read(true));
    assert_eq!(watch.action(), WatchAction::Read);
    watch.step(WatchSignal::Read(false));
    assert_eq!(watch.action(), WatchAction::AskOffline);
    watch.step(WatchSignal::Offline(true));
    assert_eq!(watch.action(), WatchAction::Stop);
}
