//! A lock is asked for as long as there is hope, and given back once.

use crate::config::EtcdConfig;
use crate::error::Error;
use crate::lock::{
    attempts, lock_key, lock_next, reply_of, LockAttempt, LockProgress, LockReply, LockState,
    LockStep, Locker, LockerSpec,
};
use crate::outside::utf8_lossy;
use crate::text::lemma_occurs_in;
use vstd::prelude::*;
use vstd::utf8::*;

verus! {

/// How far the taking of a lock comes with some replies.
pub open spec fn lock_run(remaining: int, replies: Seq<LockReply>) -> LockProgress
    decreases replies.len(),
{
    if replies.len() == 0 {
        LockProgress::Asking(remaining)
    } else {
        match lock_next(remaining, replies[0]) {
            LockProgress::Asking(n) => lock_run(n, replies.drop_first()),
            decided => decided,
        }
    }
}

/// Whether an error says somewhere that the time is over.
pub open spec fn says_timeout(error: Seq<char>) -> bool {
    exists|a: Seq<char>, b: Seq<char>| error == #[trigger] (a + "Timeout expired"@ + b)
}

/// Whether a request ran out of time.
pub open spec fn is_timeout(reply: LockReply) -> bool {
    reply matches LockReply::Refused(error) && says_timeout(error)
}

/// A lock that is granted is held under the name that was granted. A refused request is repeated
/// exactly if its error says somewhere that the time is over and another attempt is left, and
/// then one attempt less is left; any other refusal is handed on with the whole error.
pub proof fn law_reply_to_a_lock_request(remaining: int, reply: Result<Vec<u8>, String>)
    ensures
        match reply {
            Ok(id) => lock_next(remaining, reply_of(reply)) == LockProgress::Held(id@),
            Err(error) => lock_next(remaining, reply_of(reply)) == (if says_timeout(error@) && remaining
                > 1 {
                LockProgress::Asking(remaining - 1)
            } else {
                LockProgress::Failed("etcd lock error: "@ + error@)
            }),
        },
{
    if let Err(error) = reply {
        lemma_occurs_in("Timeout expired"@, error@);
    }
}

/// Whatever stands around the words, an error that says that the time is over is no end while
/// another attempt is left; an error without the words is one, however many are left.
pub proof fn law_timeouts_are_repeated(remaining: int, a: Seq<char>, b: Seq<char>, other: Seq<char>)
    requires
        remaining > 1,
    ensures
        lock_next(remaining, LockReply::Refused(a + "Timeout expired"@ + b)) == LockProgress::Asking(
            remaining - 1,
        ),
        !says_timeout(other) ==> lock_next(remaining, LockReply::Refused(other))
            == LockProgress::Failed("etcd lock error: "@ + other),
{
    lemma_occurs_in("Timeout expired"@, a + "Timeout expired"@ + b);
    lemma_occurs_in("Timeout expired"@, other);
}

/// A lock is asked for at least once, and otherwise as often as the time to wait allows and no
/// more often, whatever the time to wait and the time for one request.
pub proof fn law_lock_attempts(timeout: u64, lock_wait_timeout: u64, command_timeout: u64)
    requires
        command_timeout > 0,
    ensures
        attempts(timeout, lock_wait_timeout, command_timeout) >= 1,
        attempts(timeout, lock_wait_timeout, command_timeout) > 1 ==> attempts(
            timeout,
            lock_wait_timeout,
            command_timeout,
        ) * command_timeout <= (if timeout == 0 {
            lock_wait_timeout
        } else {
            timeout
        }),
        (attempts(timeout, lock_wait_timeout, command_timeout) + 1) * command_timeout > (if timeout
            == 0 {
            lock_wait_timeout
        } else {
            timeout
        }),
        attempts(0, lock_wait_timeout, command_timeout) == attempts(
            lock_wait_timeout,
            lock_wait_timeout,
            command_timeout,
        ),
{
    let wait = (if timeout == 0 {
        lock_wait_timeout
    } else {
        timeout
    }) as int;
    let c = command_timeout as int;
    if wait >= c {
        vstd::arithmetic::div_mod::lemma_div_is_ordered(c, wait, c);
        vstd::arithmetic::div_mod::lemma_div_by_self(c);
        vstd::arithmetic::div_mod::lemma_fundamental_div_mod(wait, c);
        vstd::arithmetic::mul::lemma_mul_is_commutative(c, wait / c);
        vstd::arithmetic::mul::lemma_mul_is_distributive_add_other_way(c, wait / c, 1);
    }
}

/// The first reply that is not a request out of time decides: the lock is held if the reply
/// grants it, and not taken if the reply refuses it.
pub proof fn law_first_other_reply_decides(remaining: int, replies: Seq<LockReply>, k: int)
    requires
        0 <= k < replies.len(),
        k < remaining,
        forall|i: int| 0 <= i < k ==> is_timeout(#[trigger] replies[i]),
        !is_timeout(replies[k]),
    ensures
        lock_run(remaining, replies) == (match replies[k] {
            LockReply::Granted(id) => LockProgress::Held(id),
            LockReply::Refused(error) => LockProgress::Failed("etcd lock error: "@ + error),
        }),
    decreases k,
{
    if let LockReply::Refused(error) = replies[0] {
        lemma_occurs_in("Timeout expired"@, error);
    }
    if k > 0 {
        assert(is_timeout(replies[0]));
        let rest = replies.drop_first();
        assert forall|i: int| 0 <= i < k - 1 implies is_timeout(#[trigger] rest[i]) by {
            assert(rest[i] == replies[i + 1]);
        }
        law_first_other_reply_decides(remaining - 1, rest, k - 1);
    }
}

/// Where every attempt runs out of time, the lock is not taken, and the reason is the last
/// error.
pub proof fn law_lock_gives_up(remaining: int, replies: Seq<LockReply>)
    requires
        1 <= remaining <= replies.len(),
        forall|i: int| 0 <= i < remaining ==> is_timeout(#[trigger] replies[i]),
    ensures
        lock_run(remaining, replies) == LockProgress::Failed(
            "etcd lock error: "@ + replies[remaining - 1]->Refused_0,
        ),
    decreases remaining,
{
    assert(is_timeout(replies[0]));
    lemma_occurs_in("Timeout expired"@, replies[0]->Refused_0);
    if remaining > 1 {
        let rest = replies.drop_first();
        assert forall|i: int| 0 <= i < remaining - 1 implies is_timeout(#[trigger] rest[i]) by {
            assert(rest[i] == replies[i + 1]);
        }
        law_lock_gives_up(remaining - 1, rest);
    }
}

/// After as many replies as there are attempts it is decided whether the lock is held.
pub proof fn law_lock_is_decided(remaining: int, replies: Seq<LockReply>)
    requires
        1 <= remaining <= replies.len(),
    ensures
        !(lock_run(remaining, replies) is Asking),
    decreases replies.len(),
{
    if lock_next(remaining, replies[0]) is Asking {
        law_lock_is_decided(remaining - 1, replies.drop_first());
    }
}

/// A lock that was granted is held under the text of the name that was granted, and is still the
/// same lock; once it is given back it is not, so that giving it back
/// again asks nothing of the store. A lock that could not be given back is still held under
/// its name.
pub proof fn law_lock_is_given_back_once(locker: LockerSpec, id: Seq<u8>)
    ensures
        locker.locked(id).is_held(),
        locker.locked(id).lock_id == utf8_lossy(id),
        locker.locked(id).key == locker.key,
        locker.locked(id).unlocked(true).key == locker.key,
        !locker.locked(id).unlocked(true).is_held(),
        locker.locked(id).unlocked(false) == locker.locked(id),
        locker.is_held() <==> locker.state == LockState::Locking,
        locker.unlocked(true).state == LockState::Release,
        locker.unlocked(false) == locker,
{
}

/// A lock lies under the prefix of the settings, among the locks, under its own name; locks of
/// different names are different in the store.
pub proof fn law_locks_are_kept_apart(prefix: Seq<char>, a: Seq<char>, b: Seq<char>)
    ensures
        lock_key(prefix, a) == lock_key(prefix, b) <==> a == b,
        (prefix + "lock/"@).is_prefix_of(lock_key(prefix, a)),
        lock_key(prefix, a).skip((prefix + "lock/"@).len() as int) == a,
{
    let n = (prefix + "lock/"@).len() as int;
    assert(lock_key(prefix, a).skip(n) =~= a);
    assert(lock_key(prefix, b).skip(n) =~= b);
    assert(prefix + "lock/"@ =~= lock_key(prefix, a).subrange(0, n));
}

/// A lock lies in the store under its name, among the locks, behind the prefix of the settings.
/// At first it is not held, so that giving it back asks nothing of the store.
pub proof fn law_new_lock(
    config: EtcdConfig,
    name: &str,
    locker: Locker,
    key: &str,
    state: LockState,
    id: Option<&str>,
)
    requires
        call_ensures(Locker::new, (&config, name), locker),
        call_ensures(Locker::key, (&locker,), key),
        call_ensures(Locker::state, (&locker,), state),
        call_ensures(Locker::unlock, (&locker,), id),
    ensures
        key@ == config.prefix@ + "lock/"@ + name@,
        state == LockState::Init,
        id is None,
{
}

/// A lock is asked for as often as the time to wait, which is the one that is named or else that
/// of the settings, holds the time for one request, but at least once.
pub proof fn law_lock_is_asked_for_as_time_allows(
    locker: Locker,
    timeout: u64,
    config: EtcdConfig,
    attempt: LockAttempt,
)
    requires
        config.command_timeout > 0,
        call_ensures(Locker::lock, (&locker, timeout, &config), attempt),
    ensures
        ({
            let wait = if timeout == 0 {
                config.lock_wait_timeout
            } else {
                timeout
            };
            &&& attempt.remaining >= 1
            &&& attempt.remaining > 1 ==> attempt.remaining * config.command_timeout <= wait
            &&& wait < (attempt.remaining + 1) * config.command_timeout
        }),
{
    law_lock_attempts(timeout, config.lock_wait_timeout, config.command_timeout);
}

/// A granted lock is held, and the name that is given back is the one that was granted. A refused
/// request is repeated exactly if its error says somewhere that the time is over and another
/// attempt is left; any other refusal is handed on with the whole error. A refusal changes
/// nothing about the lock.
pub proof fn law_lock_follows_the_reply(
    locker: &mut Locker,
    attempt: LockAttempt,
    reply: Result<Vec<u8>, String>,
    step: LockStep,
    key: &str,
    key_after: &str,
    id: Option<&str>,
    id_after: Option<&str>,
)
    requires
        call_ensures(Locker::key, (&*old(locker),), key),
        call_ensures(Locker::unlock, (&*old(locker),), id),
        call_ensures(Locker::lock_reply, (locker, attempt, reply), step),
        call_ensures(Locker::key, (&*final(locker),), key_after),
        call_ensures(Locker::unlock, (&*final(locker),), id_after),
    ensures
        key_after@ == key@,
        match reply {
            Ok(granted) => {
                &&& step matches LockStep::Done(Ok(_))
                &&& id_after matches Some(name)
                &&& name@ == utf8_lossy(granted@)
                &&& valid_utf8(granted@) ==> encode_utf8(name@) == granted@
            },
            Err(error) => {
                &&& id_after is Some <==> id is Some
                &&& id matches Some(name) ==> id_after->0@ == name@
                &&& if says_timeout(error@) && attempt.remaining > 1 {
                    step matches LockStep::Retry(next) && next.remaining == attempt.remaining - 1
                } else {
                    step matches LockStep::Done(Err(Error::Message(message))) && message@
                        == "etcd lock error: "@ + error@
                }
            },
        },
{
}

/// A lock that was given back is held no longer; one that could not be given back is still held
/// under its name, and the caller learns that it could not.
pub proof fn law_unlock_follows_the_reply(
    locker: &mut Locker,
    reply: Result<(), String>,
    done: Result<(), Error>,
    key: &str,
    key_after: &str,
    id: Option<&str>,
    id_after: Option<&str>,
)
    requires
        call_ensures(Locker::key, (&*old(locker),), key),
        call_ensures(Locker::unlock, (&*old(locker),), id),
        call_ensures(Locker::unlock_reply, (locker, reply), done),
        call_ensures(Locker::key, (&*final(locker),), key_after),
        call_ensures(Locker::unlock, (&*final(locker),), id_after),
    ensures
        key_after@ == key@,
        reply is Ok ==> done is Ok && id_after is None,
        reply is Err ==> {
            &&& done matches Err(Error::Message(message))
            &&& message@ == "etcd unlock error"@
            &&& id_after is Some <==> id is Some
            &&& id matches Some(name) ==> id_after->0@ == name@
        },
{
}

} // verus!
