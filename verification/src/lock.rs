//! A lock that is held in the store.

use crate::config::EtcdConfig;
use crate::error::Error;
use crate::outside::{from_utf8_lossy, utf8_lossy};
use crate::text::{concatenated, contains, lemma_occurs_in, occurs_in};
use vstd::prelude::*;
use vstd::utf8::*;

verus! {

/// What has become of a lock.
#[derive(Debug, Clone, Copy, PartialEq, Eq, Structural)]
pub enum LockState {
    /// It has not been taken yet.
    Init,
    /// It is held.
    Locking,
    /// It has been given back.
    Release,
}

/// A lock that is held in the store.
pub struct Locker {
    key: String,
    lock_id: String,
    state: LockState,
}

/// What a [`Locker`] knows of its lock.
pub struct LockerSpec {
    /// The name of the lock in the store.
    pub key: Seq<char>,
    /// The name under which the store gives the lock back; empty before it was taken.
    pub lock_id: Seq<char>,
    pub state: LockState,
}

impl View for Locker {
    type V = LockerSpec;

    closed spec fn view(&self) -> LockerSpec {
        LockerSpec { key: self.key@, lock_id: self.lock_id@, state: self.state }
    }
}

/// How often a lock may be asked for yet.
#[derive(Debug, PartialEq, Eq)]
pub struct LockAttempt {
    pub remaining: u64,
}

/// What follows the reply to a request for a lock.
#[derive(Debug, PartialEq, Eq)]
pub enum LockStep {
    /// The lock is to be asked for once more.
    Retry(LockAttempt),
    /// It is decided whether the lock is held.
    Done(Result<(), Error>),
}

/// How often a lock is asked for: as often as the time to wait holds the time that one
/// request may take, but at least once.
pub open spec fn attempts(timeout: u64, lock_wait_timeout: u64, command_timeout: u64) -> int {
    let wait = if timeout == 0 {
        lock_wait_timeout
    } else {
        timeout
    };
    if wait < command_timeout {
        1
    } else {
        wait as int / command_timeout as int
    }
}

/// Whether a failed request ran out of time.
pub open spec fn timed_out(error: Seq<char>) -> bool {
    occurs_in("Timeout expired"@, error)
}

/// The reply to a request for a lock.
pub enum LockReply {
    /// The lock is held under a name.
    Granted(Seq<u8>),
    /// The request failed, for a reason in words.
    Refused(Seq<char>),
}

/// What a reply holds.
pub open spec fn reply_of(reply: Result<Vec<u8>, String>) -> LockReply {
    match reply {
        Ok(id) => LockReply::Granted(id@),
        Err(error) => LockReply::Refused(error@),
    }
}

/// How far the taking of a lock has come.
pub enum LockProgress {
    /// The lock may be asked for so many times yet.
    Asking(int),
    /// It is held under a name.
    Held(Seq<u8>),
    /// It could not be taken, for a reason in words.
    Failed(Seq<char>),
}

/// What follows a reply where the lock may be asked for so many times, this one included.
pub open spec fn lock_next(remaining: int, reply: LockReply) -> LockProgress {
    match reply {
        LockReply::Granted(id) => LockProgress::Held(id),
        LockReply::Refused(error) => if timed_out(error) && remaining > 1 {
            LockProgress::Asking(remaining - 1)
        } else {
            LockProgress::Failed("etcd lock error: "@ + error)
        },
    }
}

impl LockerSpec {
    /// Whether the lock is held.
    pub open spec fn is_held(self) -> bool {
        self.state == LockState::Locking
    }

    /// The lock once it is held under a name.
    pub open spec fn locked(self, id: Seq<u8>) -> LockerSpec {
        LockerSpec { key: self.key, lock_id: utf8_lossy(id), state: LockState::Locking }
    }

    /// The lock once the store has replied to the request to give it back.
    pub open spec fn unlocked(self, given_back: bool) -> LockerSpec {
        if given_back {
            LockerSpec { state: LockState::Release, ..self }
        } else {
            self
        }
    }
}

/// The name of a lock in the store.
pub open spec fn lock_key(prefix: Seq<char>, key: Seq<char>) -> Seq<char> {
    prefix + "lock/"@ + key
}

impl Locker {
    /// A lock of the given name, which is not held.
    pub fn new(config: &EtcdConfig, key: &str) -> (locker: Locker)
        ensures
            locker@ == (LockerSpec {
                key: lock_key(config.prefix@, key@),
                lock_id: Seq::empty(),
                state: LockState::Init,
            }),
            locker@.key == config.prefix@ + "lock/"@ + key@,
    {
        Locker {
            key: concatenated(concatenated(config.prefix.as_str(), "lock/").as_str(), key),
            lock_id: String::new(),
            state: LockState::Init,
        }
    }

    /// The name of the lock in the store.
    pub fn key(&self) -> (key: &str)
        ensures
            key@ == self@.key,
    {
        self.key.as_str()
    }

    /// What has become of the lock.
    pub fn state(&self) -> (state: LockState)
        ensures
            state == self@.state,
    {
        self.state
    }

    /// Starts to take the lock. `timeout` is in seconds; zero stands for the time that the
    /// settings name. The lock is then asked for under [`Locker::key`].
    pub fn lock(&self, timeout: u64, config: &EtcdConfig) -> (attempt: LockAttempt)
        requires
            config.command_timeout > 0,
        ensures
            attempt.remaining == attempts(timeout, config.lock_wait_timeout, config.command_timeout),
    {
        let wait: u64 = if timeout == 0 {
            config.lock_wait_timeout
        } else {
            timeout
        };
        let mut n: u64 = wait / config.command_timeout;
        proof {
            let w = wait as int;
            let c = config.command_timeout as int;
            if w < c {
                vstd::arithmetic::div_mod::lemma_basic_div(w, c);
            } else {
                vstd::arithmetic::div_mod::lemma_div_is_ordered(c, w, c);
                vstd::arithmetic::div_mod::lemma_div_by_self(c);
            }
        }
        if n < 1 {
            n = 1;
        }
        LockAttempt { remaining: n }
    }

    /// Takes the reply to a request for the lock: the name under which the lock is held, or
    /// the error in words. A name that is text is kept as it is. A request that ran out of time,
    /// which is one whose error says so, is repeated while attempts are left.
    pub fn lock_reply(
        &mut self,
        attempt: LockAttempt,
        reply: Result<Vec<u8>, String>,
    ) -> (step: LockStep)
        ensures
            match lock_next(attempt.remaining as int, reply_of(reply)) {
                LockProgress::Asking(n) => {
                    &&& step matches LockStep::Retry(next)
                    &&& next.remaining == n
                    &&& final(self)@ == old(self)@
                },
                LockProgress::Held(id) => {
                    &&& step matches LockStep::Done(Ok(_))
                    &&& final(self)@ == old(self)@.locked(id)
                    &&& valid_utf8(id) ==> encode_utf8(final(self)@.lock_id) == id
                },
                LockProgress::Failed(reason) => {
                    &&& step matches LockStep::Done(Err(Error::Message(message)))
                    &&& message@ == reason
                    &&& final(self)@ == old(self)@
                },
            },
            match reply {
                Ok(id) => {
                    &&& step matches LockStep::Done(Ok(_))
                    &&& final(self)@.key == old(self)@.key
                    &&& final(self)@.lock_id == utf8_lossy(id@)
                    &&& final(self)@.state == LockState::Locking
                },
                Err(error) => {
                    &&& final(self)@ == old(self)@
                    &&& if attempt.remaining > 1 && exists|a: Seq<char>, b: Seq<char>|
                        error@ == #[trigger] (a + "Timeout expired"@ + b) {
                        &&& step matches LockStep::Retry(next)
                        &&& next.remaining == attempt.remaining - 1
                    } else {
                        &&& step matches LockStep::Done(Err(Error::Message(message)))
                        &&& message@ == "etcd lock error: "@ + error@
                    }
                },
            },
    {
        match reply {
            Ok(id) => {
                self.lock_id = from_utf8_lossy(id.as_slice());
                self.state = LockState::Locking;
                LockStep::Done(Ok(()))
            },
            Err(error) => {
                proof {
                    lemma_occurs_in("Timeout expired"@, error@);
                }
                if contains(error.as_str(), "Timeout expired") && attempt.remaining > 1 {
                    LockStep::Retry(LockAttempt { remaining: attempt.remaining - 1 })
                } else {
                    LockStep::Done(
                        Err(Error::Message(concatenated("etcd lock error: ", error.as_str()))),
                    )
                }
            },
        }
    }

    /// Starts to give the lock back: the name to give back, if the lock is held. If it is not,
    /// nothing is to be done.
    pub fn unlock(&self) -> (id: Option<&str>)
        ensures
            match id {
                Some(name) => self@.is_held() && name@ == self@.lock_id,
                None => !self@.is_held(),
            },
            id is Some <==> self@.state == LockState::Locking,
    {
        if self.state != LockState::Locking {
            return None;
        }
        Some(self.lock_id.as_str())
    }

    /// Takes the reply to the request that [`Locker::unlock`] asked for. A lock that could not
    /// be given back is still held.
    pub fn unlock_reply(&mut self, reply: Result<(), String>) -> (done: Result<(), Error>)
        ensures
            final(self)@ == old(self)@.unlocked(reply is Ok),
            final(self)@.key == old(self)@.key,
            final(self)@.lock_id == old(self)@.lock_id,
            final(self)@.state == (if reply is Ok {
                LockState::Release
            } else {
                old(self)@.state
            }),
            match done {
                Ok(_) => reply is Ok,
                Err(error) => {
                    &&& reply is Err
                    &&& error matches Error::Message(message)
                    &&& message@ == "etcd unlock error"@
                },
            },
    {
        match reply {
            Ok(_) => {
                self.state = LockState::Release;
                Ok(())
            },
            Err(_) => Err(Error::Message("etcd unlock error".to_owned())),
        }
    }
}

} // verus!
