use etcd_store::config::EtcdConfig;
use etcd_store::error::Error;
use etcd_store::lock::{LockAttempt, LockState, LockStep, Locker};

fn config(command_timeout: u64, lock_wait_timeout: u64) -> EtcdConfig {
    EtcdConfig {
        addr: "localhost:2379".to_string(),
        prefix: "/zinc/observe/".to_string(),
        connect_timeout: 5,
        command_timeout,
        lock_wait_timeout,
        user: String::new(),
        password: String::new(),
        cert_auth: false,
        ca_file: String::new(),
        cert_file: String::new(),
        key_file: String::new(),
        domain_name: String::new(),
        load_page_size: 100,
    }
}

const TIMEOUT: &str = "grpc request error: status: Cancelled, message: \"Timeout expired\"";

#[test]
fn a_lock_has_a_key_of_its_own() {
    let locker = Locker::new(&config(10, 60), "compact/1");
    assert_eq!(locker.key(), "/zinc/observe/lock/compact/1");
    assert_eq!(locker.state(), LockState::Init);
    assert_eq!(locker.unlock(), None);
}

#[test]
fn the_time_to_wait_sets_the_number_of_attempts() {
    let locker = Locker::new(&config(10, 60), "k");
    assert_eq!(locker.lock(0, &config(10, 60)), LockAttempt { remaining: 6 });
    assert_eq!(locker.lock(35, &config(10, 60)), LockAttempt { remaining: 3 });
    assert_eq!(locker.lock(9, &config(10, 60)), LockAttempt { remaining: 1 });
    assert_eq!(locker.lock(10, &config(10, 60)), LockAttempt { remaining: 1 });
    assert_eq!(locker.lock(0, &config(10, 0)), LockAttempt { remaining: 1 });
}

#[test]
fn a_granted_lock_is_held_and_given_back_once() {
    let mut locker = Locker::new(&config(10, 60), "k");
    let attempt = locker.lock(0, &config(10, 60));
    let step = locker.lock_reply(attempt, Ok(b"/zinc/observe/lock/k/694d".to_vec()));
    assert_eq!(step, LockStep::Done(Ok(())));
    assert_eq!(locker.state(), LockState::Locking);
    assert_eq!(locker.unlock(), Some("/zinc/observe/lock/k/694d"));
    assert_eq!(locker.unlock_reply(Ok(())), Ok(()));
    assert_eq!(locker.state(), LockState::Release);
    assert_eq!(locker.unlock(), None);
}

#[test]
fn the_name_of_a_lock_need_not_be_text() {
    let mut locker = Locker::new(&config(10, 60), "k");
    locker.lock_reply(LockAttempt { remaining: 1 }, Ok(vec![b'a', 0xff, b'b']));
    assert_eq!(locker.unlock(), Some("a\u{fffd}b"));
}

#[test]
fn a_request_out_of_time_is_repeated_while_attempts_are_left() {
    let mut locker = Locker::new(&config(10, 60), "k");
    let mut attempt = locker.lock(30, &config(10, 60));
    for remaining in [2, 1] {
        match locker.lock_reply(attempt, Err(TIMEOUT.to_string())) {
            LockStep::Retry(next) => {
                assert_eq!(next.remaining, remaining);
                attempt = next;
            }
            LockStep::Done(_) => panic!("there are attempts left"),
        }
    }
    let step = locker.lock_reply(attempt, Err(TIMEOUT.to_string()));
    assert_eq!(
        step,
        LockStep::Done(Err(Error::Message(format!("etcd lock error: {TIMEOUT}"))))
    );
    assert_eq!(locker.state(), LockState::Init);
    assert_eq!(locker.unlock(), None);
}

#[test]
fn any_other_error_ends_the_attempt() {
    let mut locker = Locker::new(&config(10, 60), "k");
    let attempt = locker.lock(0, &config(10, 60));
    let step = locker.lock_reply(attempt, Err("permission denied".to_string()));
    assert_eq!(
        step,
        LockStep::Done(Err(Error::Message(
            "etcd lock error: permission denied".to_string()
        )))
    );
}

#[test]
fn a_later_grant_is_taken() {
    let mut locker = Locker::new(&config(10, 60), "k");
    let attempt = locker.lock(0, &config(10, 60));
    let next = match locker.lock_reply(attempt, Err(TIMEOUT.to_string())) {
        LockStep::Retry(next) => next,
        LockStep::Done(_) => panic!("there are attempts left"),
    };
    assert_eq!(
        locker.lock_reply(next, Ok(b"id".to_vec())),
        LockStep::Done(Ok(()))
    );
    assert_eq!(locker.unlock(), Some("id"));
}

#[test]
fn a_lock_that_could_not_be_given_back_is_still_held() {
    let mut locker = Locker::new(&config(10, 60), "k");
    locker.lock_reply(LockAttempt { remaining: 1 }, Ok(b"id".to_vec()));
    assert_eq!(
        locker.unlock_reply(Err("no connection".to_string())),
        Err(Error::Message("etcd unlock error".to_string()))
    );
    assert_eq!(locker.state(), LockState::Locking);
    assert_eq!(locker.unlock(), Some("id"));
}

#[test]
fn the_name_of_a_lock_that_is_text_is_kept() {
    for name in ["/lock/k/1", "/lock/größe/€", ""] {
        let mut locker = Locker::new(&config(10, 60), "k");
        locker.lock_reply(LockAttempt { remaining: 1 }, Ok(name.as_bytes().to_vec()));
        assert_eq!(locker.unlock(), Some(name));
    }
}
