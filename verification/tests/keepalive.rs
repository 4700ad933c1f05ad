use etcd_store::config::EtcdConfig;
use etcd_store::error::Error;
use etcd_store::keepalive::{
    keepalive_connection, keepalive_interval, keepalive_lease_id, ConnectionAction,
    ConnectionSignal, LeaseAction, LeaseSignal,
};
use etcd_store::request::{GetRequest, Range};

fn config() -> EtcdConfig {
    EtcdConfig {
        addr: "localhost:2379".to_string(),
        prefix: "/zinc/observe/".to_string(),
        connect_timeout: 5,
        command_timeout: 10,
        lock_wait_timeout: 60,
        user: String::new(),
        password: String::new(),
        cert_auth: false,
        ca_file: String::new(),
        cert_file: String::new(),
        key_file: String::new(),
        domain_name: String::new(),
        load_page_size: 100,
    }
}

#[test]
fn the_interval_is_half_the_time_to_live_but_ten_seconds_at_most() {
    for ttl in [
        i64::MIN,
        -1000,
        -3,
        -2,
        -1,
        0,
        1,
        2,
        3,
        5,
        19,
        20,
        21,
        1000,
        i64::MAX,
    ] {
        assert_eq!(keepalive_interval(ttl), std::cmp::min(10, (ttl / 2) as u64));
    }
    assert_eq!(keepalive_interval(10), 5);
    assert_eq!(keepalive_interval(-1), 0);
    assert_eq!(keepalive_interval(-2), 10);
}

#[test]
fn a_lease_is_kept_alive_until_it_shall_stop() {
    let mut upkeep = keepalive_lease_id(7, 12);
    assert_eq!(upkeep.action(), LeaseAction::AskStop);
    upkeep.step(LeaseSignal::Stop(false));
    assert_eq!(upkeep.action(), LeaseAction::Open(7));
    upkeep.step(LeaseSignal::Opened(true));
    for _ in 0..3 {
        assert_eq!(upkeep.action(), LeaseAction::AskStop);
        upkeep.step(LeaseSignal::Stop(false));
        assert_eq!(upkeep.action(), LeaseAction::Sleep(6));
        upkeep.step(LeaseSignal::Slept);
        assert_eq!(upkeep.action(), LeaseAction::Send);
        upkeep.step(LeaseSignal::Sent(true));
        assert_eq!(upkeep.action(), LeaseAction::Receive);
        upkeep.step(LeaseSignal::Received(Some(12)));
    }
    upkeep.step(LeaseSignal::Stop(true));
    assert_eq!(upkeep.action(), LeaseAction::AskStop);
    upkeep.step(LeaseSignal::Stop(true));
    assert_eq!(upkeep.action(), LeaseAction::Finish(Ok(())));
}

#[test]
fn a_lease_without_time_left_is_gone() {
    let mut upkeep = keepalive_lease_id(7, 12);
    upkeep.step(LeaseSignal::Stop(false));
    upkeep.step(LeaseSignal::Opened(true));
    upkeep.step(LeaseSignal::Stop(false));
    upkeep.step(LeaseSignal::Slept);
    upkeep.step(LeaseSignal::Sent(true));
    upkeep.step(LeaseSignal::Received(Some(0)));
    assert_eq!(
        upkeep.action(),
        LeaseAction::Finish(Err(Error::LeaseKeepAliveError(
            "lease expired or revoked".to_string()
        )))
    );
}

#[test]
fn a_failure_makes_the_next_sign_of_life_come_after_a_second() {
    for fails_at_sending in [true, false] {
        let mut upkeep = keepalive_lease_id(7, 12);
        upkeep.step(LeaseSignal::Stop(false));
        upkeep.step(LeaseSignal::Opened(true));
        upkeep.step(LeaseSignal::Stop(false));
        upkeep.step(LeaseSignal::Slept);
        if fails_at_sending {
            upkeep.step(LeaseSignal::Sent(false));
        } else {
            upkeep.step(LeaseSignal::Sent(true));
            upkeep.step(LeaseSignal::Received(None));
        }
        assert_eq!(upkeep.action(), LeaseAction::AskStop);
        upkeep.step(LeaseSignal::Stop(false));
        assert_eq!(upkeep.action(), LeaseAction::Open(7));
        upkeep.step(LeaseSignal::Opened(false));
        assert_eq!(upkeep.action(), LeaseAction::Sleep(1));
        upkeep.step(LeaseSignal::Slept);
        assert_eq!(upkeep.action(), LeaseAction::AskStop);
        upkeep.step(LeaseSignal::Stop(false));
        upkeep.step(LeaseSignal::Opened(true));
        upkeep.step(LeaseSignal::Stop(false));
        assert_eq!(upkeep.action(), LeaseAction::Sleep(1));
        upkeep.step(LeaseSignal::Slept);
        upkeep.step(LeaseSignal::Sent(true));
        upkeep.step(LeaseSignal::Received(Some(12)));
        upkeep.step(LeaseSignal::Stop(false));
        assert_eq!(upkeep.action(), LeaseAction::Sleep(6));
    }
}

#[test]
fn the_connection_is_kept_alive_by_reading_every_minute() {
    let mut upkeep = keepalive_connection(&config());
    assert_eq!(upkeep.action(), ConnectionAction::AskOffline);
    upkeep.step(ConnectionSignal::Offline(false));
    assert_eq!(
        upkeep.action(),
        ConnectionAction::Write {
            key: "/zinc/observe/healthz".to_string(),
            value: "OK".to_string(),
        }
    );
    upkeep.step(ConnectionSignal::Written(true));
    assert_eq!(upkeep.action(), ConnectionAction::StartClock(60));
    upkeep.step(ConnectionSignal::Started);
    for _ in 0..3 {
        assert_eq!(upkeep.action(), ConnectionAction::Tick);
        upkeep.step(ConnectionSignal::Ticked);
        assert_eq!(
            upkeep.action(),
            ConnectionAction::Read(GetRequest {
                key: "/zinc/observe/healthz".to_string(),
                range: Range::Exact,
                ascending: false,
                limit: 0,
                count_only: false,
            })
        );
        upkeep.step(ConnectionSignal::Read(true));
    }
    upkeep.step(ConnectionSignal::Ticked);
    upkeep.step(ConnectionSignal::Read(false));
    assert_eq!(upkeep.action(), ConnectionAction::AskOffline);
    upkeep.step(ConnectionSignal::Offline(true));
    assert_eq!(upkeep.action(), ConnectionAction::Stop);
}

#[test]
fn a_sign_of_life_that_cannot_be_written_ends_the_upkeep() {
    let mut upkeep = keepalive_connection(&config());
    upkeep.step(ConnectionSignal::Offline(false));
    upkeep.step(ConnectionSignal::Written(false));
    assert_eq!(upkeep.action(), ConnectionAction::Fail);
}
