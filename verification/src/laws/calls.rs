//! What the operations give to their callers, call by call and from one call to the next.
//!
//! `call_ensures(f, arguments, result)` says that a call of `f` with the arguments may give the
//! result.

use crate::config::EtcdConfig;
use crate::connect::{connect_etcd, ConnectPlan};
use crate::error::{DbError, Error};
use crate::etcd::{create_table, Etcd, Stats};
use crate::keepalive::{
    keepalive_connection, keepalive_interval, keepalive_lease_id, ConnectionAction,
    ConnectionKeepAlive, ConnectionSignal, LeaseAction, LeaseKeepAlive, LeaseSignal,
};
use crate::laws::data::{
    law_trailing_slashes_do_not_count, law_watch_after_put, law_watch_hands_on_what_is_its_own,
    law_watch_tells_what_was_put, law_watch_tells_what_was_removed,
};
use crate::laws::upkeep::{
    connected, connection_run, law_connection_actions, law_endpoints_make_up_the_address,
    law_interval, law_lease_actions, law_lease_is_the_one_named, law_lease_wait, law_watch_actions,
    law_watch_end, lease_run, lease_told, shaken, watch_run,
};
use crate::outside::bytes_of;
use crate::request::{DeleteRequest, GetRequest, KeyValue, PutRequest, Range};
use crate::text::join_with;
use crate::watch::{
    lemma_leading_deliverable, Event, EventType, StoreEvent, Watch, WatchAction, WatchSignal,
};
use bytes::Bytes;
use vstd::prelude::*;
use vstd::utf8::*;

verus! {

// ---------------------------------------------------------------------------------------
// The store
// ---------------------------------------------------------------------------------------

/// A store lies under the prefix that it was made with, but for the slashes at its end; nothing
/// else is dropped.
pub proof fn law_store_lies_under_its_prefix(prefix: &str, etcd: Etcd, shown: &str)
    requires
        call_ensures(Etcd::new, (prefix,), etcd),
        call_ensures(Etcd::prefix, (&etcd,), shown),
    ensures
        shown@.is_prefix_of(prefix@),
        shown@.len() > 0 ==> shown@.last() != '/',
        forall|i: int| shown@.len() <= i < prefix@.len() ==> prefix@[i] == '/',
{
    law_trailing_slashes_do_not_count(prefix@);
}

/// The store of the settings is the store under the prefix of the settings.
pub proof fn law_store_of_the_settings(
    config: EtcdConfig,
    prefix: &str,
    etcd: Etcd,
    other: Etcd,
    shown: &str,
    other_shown: &str,
)
    requires
        prefix@ == config.prefix@,
        call_ensures(Etcd::default, (&config,), etcd),
        call_ensures(Etcd::new, (prefix,), other),
        call_ensures(Etcd::prefix, (&etcd,), shown),
        call_ensures(Etcd::prefix, (&other,), other_shown),
    ensures
        shown@ == other_shown@,
{
}

/// Every request about a key names the key behind the prefix of the store, and nothing in
/// between.
pub proof fn law_requests_name_the_key_behind_the_prefix(
    etcd: Etcd,
    shown: &str,
    key: &str,
    value: Bytes,
    with_prefix: bool,
    need_watch: bool,
    full: String,
    get: GetRequest,
    put: PutRequest,
    delete: DeleteRequest,
    count: GetRequest,
)
    requires
        call_ensures(Etcd::prefix, (&etcd,), shown),
        call_ensures(Etcd::key, (&etcd, key), full),
        call_ensures(Etcd::get, (&etcd, key), get),
        call_ensures(Etcd::put, (&etcd, key, value, need_watch), put),
        call_ensures(Etcd::delete, (&etcd, key, with_prefix, need_watch), delete),
        call_ensures(Etcd::count, (&etcd, key), count),
    ensures
        full@ == shown@ + key@,
        get.key@ == shown@ + key@,
        put.key@ == shown@ + key@,
        delete.key@ == shown@ + key@,
        count.key@ == shown@ + key@,
{
}

/// A get is about the one key and brings its value, a count about every key that begins with it
/// and brings none. A put carries the value as it is. A delete is about the one key, or about
/// every key that begins with it where that is wanted. Whether a watch is needed changes nothing.
pub proof fn law_requests_ask_for_what_is_wanted(
    etcd: Etcd,
    key: &str,
    value: Bytes,
    with_prefix: bool,
    need_watch: bool,
    get: GetRequest,
    put: PutRequest,
    delete: DeleteRequest,
    count: GetRequest,
    stats: GetRequest,
)
    requires
        call_ensures(Etcd::get, (&etcd, key), get),
        call_ensures(Etcd::put, (&etcd, key, value, need_watch), put),
        call_ensures(Etcd::delete, (&etcd, key, with_prefix, need_watch), delete),
        call_ensures(Etcd::count, (&etcd, key), count),
        call_ensures(Etcd::stats, (&etcd,), stats),
    ensures
        get.range == Range::Exact && get.limit == 0 && !get.count_only,
        put.value == value,
        delete.range == Range::Prefix <==> with_prefix,
        delete.range == Range::Exact <==> !with_prefix,
        count.range == Range::Prefix && count.limit == 0 && count.count_only,
        stats.range == Range::All && stats.limit == 0 && stats.count_only && stats.key@.len() == 0,
{
}

/// A get gives exactly the bytes of the first pair of the reply, and where the reply has no pair,
/// the error that names the key that was looked up.
pub proof fn law_get_gives_the_first_value(
    etcd: Etcd,
    key: &str,
    request: GetRequest,
    kvs: Vec<KeyValue>,
    value: Result<Bytes, Error>,
)
    requires
        call_ensures(Etcd::get, (&etcd, key), request),
        call_ensures(Etcd::get_reply, (&etcd, key, &kvs), value),
    ensures
        kvs@.len() > 0 ==> (value matches Ok(bytes) && bytes_of(bytes) == kvs@[0].value@),
        kvs@.len() == 0 ==> (value matches Err(Error::DbError(DbError::KeyNotExists(missing)))
            && missing@ == request.key@),
{
}

/// The statistics are the two numbers that the store replied.
pub proof fn law_stats_are_as_replied(etcd: Etcd, db_size: i64, count: i64, stats: Stats)
    requires
        call_ensures(Etcd::stats_reply, (&etcd, db_size, count), stats),
    ensures
        stats.bytes_len == db_size,
        stats.keys_count == count,
{
}

/// Preparing the store and taking leave of it never fail.
pub proof fn law_nothing_to_prepare(
    etcd: Etcd,
    prepared: Result<(), Error>,
    table: Result<(), Error>,
    closed: Result<(), Error>,
)
    requires
        call_ensures(create_table, (), prepared),
        call_ensures(Etcd::create_table, (&etcd,), table),
        call_ensures(Etcd::close, (&etcd,), closed),
    ensures
        prepared is Ok,
        table is Ok,
        closed is Ok,
{
}

// ---------------------------------------------------------------------------------------
// The connection
// ---------------------------------------------------------------------------------------

/// The servers are those between the commas of the address, every one as it stands there; the
/// times are those of the settings, each in its place; a user is shown exactly if one is set, and
/// certificates exactly if they are asked for, and both are those of the settings.
pub proof fn law_connection_follows_the_settings(config: EtcdConfig, plan: ConnectPlan)
    requires
        call_ensures(connect_etcd, (&config,), plan),
    ensures
        plan.endpoints@.len() >= 1,
        forall|i: int| 0 <= i < plan.endpoints@.len() ==> !(#[trigger] plan.endpoints@[i])@.contains(','),
        join_with(Seq::new(plan.endpoints@.len(), |i: int| plan.endpoints@[i]@), ',') == config.addr@,
        plan.timeout == config.command_timeout,
        plan.connect_timeout == config.connect_timeout,
        plan.credentials is Some <==> config.user@.len() > 0,
        plan.credentials matches Some(shown) ==> shown.user@ == config.user@ && shown.password@
            == config.password@,
        plan.tls is Some <==> config.cert_auth,
        plan.tls matches Some(files) ==> {
            &&& files.ca_file@ == config.ca_file@
            &&& files.cert_file@ == config.cert_file@
            &&& files.key_file@ == config.key_file@
            &&& files.domain_name@ == config.domain_name@
        },
{
    law_endpoints_make_up_the_address(config.addr@);
    let parts = crate::text::split_on(config.addr@, ',');
    let shown = Seq::new(plan.endpoints@.len(), |i: int| plan.endpoints@[i]@);
    assert(crate::text::texts(plan.endpoints@).len() == plan.endpoints@.len());
    assert(shown =~= parts);
    assert forall|i: int| 0 <= i < plan.endpoints@.len() implies !(
    #[trigger] plan.endpoints@[i])@.contains(',') by {
        assert(parts[i] == plan.endpoints@[i]@);
    }
}

/// Whatever the upkeep of the connection was told since it started, it writes and reads one key,
/// which is `healthz` behind the prefix of the settings.
pub proof fn law_sign_of_life_lies_under_the_prefix(
    config: EtcdConfig,
    first: ConnectionKeepAlive,
    signals: Seq<ConnectionSignal>,
    upkeep: ConnectionKeepAlive,
    action: ConnectionAction,
)
    requires
        call_ensures(keepalive_connection, (&config,), first),
        upkeep@ == connection_run(first@, signals),
        call_ensures(ConnectionKeepAlive::action, (&upkeep,), action),
    ensures
        action matches ConnectionAction::Write { key, value } ==> key@ == config.prefix@ + "healthz"@
            && value@ == "OK"@,
        action matches ConnectionAction::Read(request) ==> request.key@ == config.prefix@
            + "healthz"@ && request.range == Range::Exact && !request.count_only,
        action matches ConnectionAction::StartClock(seconds) ==> seconds == 60,
        signals.len() == 0 ==> action is AskOffline,
{
    law_connection_actions(config.prefix@, signals, action);
}

/// Telling the upkeep of the connection one more thing is one more signal in its run.
pub proof fn law_connection_steps(
    first: ConnectionKeepAlive,
    signals: Seq<ConnectionSignal>,
    upkeep: &mut ConnectionKeepAlive,
    signal: ConnectionSignal,
)
    requires
        old(upkeep)@ == connection_run(first@, signals),
        call_ensures(ConnectionKeepAlive::step, (upkeep, signal), ()),
    ensures
        final(upkeep)@ == connection_run(first@, signals.push(signal)),
{
    assert(signals.push(signal).drop_last() =~= signals);
}

// ---------------------------------------------------------------------------------------
// Leases
// ---------------------------------------------------------------------------------------

/// The seconds between two signs of life are half the time to live, in whole seconds, but ten at
/// most; a time to live below minus one leaves ten.
pub proof fn law_interval_is_half_the_time_to_live(ttl: i64, seconds: u64)
    requires
        call_ensures(keepalive_interval, (ttl,), seconds),
    ensures
        seconds <= 10,
        0 <= ttl ==> 2 * seconds <= ttl && (seconds < 10 ==> ttl < 2 * (seconds + 1)),
        ttl == -1 ==> seconds == 0,
        ttl < -1 ==> seconds == 10,
{
    law_interval(ttl as int);
}

/// Whatever the upkeep of a lease was told since it started, it has the store take signs of life
/// for the lease that its caller named, and for no other. It waits a second, or the interval of
/// the lease.
pub proof fn law_lease_is_kept_alive(
    id: i64,
    ttl: i64,
    first: LeaseKeepAlive,
    signals: Seq<LeaseSignal>,
    action: LeaseAction,
    seconds: u64,
)
    requires
        call_ensures(keepalive_lease_id, (id, ttl), first),
        call_ensures(LeaseKeepAlive::action, (&lease_run(first, signals),), action),
        call_ensures(keepalive_interval, (ttl,), seconds),
    ensures
        action matches LeaseAction::Open(lease) ==> lease == id,
        action matches LeaseAction::Sleep(wait) ==> wait == 1 || wait == seconds,
        signals.len() == 0 ==> action is AskStop,
{
    law_lease_is_the_one_named(id, ttl, signals, action);
    law_lease_wait(id, ttl, signals);
}

/// What the upkeep of a lease does with what it was told last: it connects for the lease that its
/// caller named, sends a sign of life once the time is over, and ends well or with an error.
pub proof fn law_lease_goes_on_as_told(
    id: i64,
    ttl: i64,
    first: LeaseKeepAlive,
    signals: Seq<LeaseSignal>,
    action: LeaseAction,
    seconds: u64,
)
    requires
        call_ensures(keepalive_lease_id, (id, ttl), first),
        lease_told(first, signals),
        signals.len() > 0,
        call_ensures(LeaseKeepAlive::action, (&lease_run(first, signals),), action),
        call_ensures(keepalive_interval, (ttl,), seconds),
    ensures
        ({
            let up = connected(signals.drop_last());
            match signals.last() {
                LeaseSignal::Stop(true) => if up {
                    action is AskStop
                } else {
                    action matches LeaseAction::Finish(Ok(_))
                },
                LeaseSignal::Stop(false) => if up {
                    action matches LeaseAction::Sleep(wait) && wait == (if shaken(signals) {
                        1
                    } else {
                        seconds
                    })
                } else {
                    action matches LeaseAction::Open(lease) && lease == id
                },
                LeaseSignal::Opened(true) => action is AskStop,
                LeaseSignal::Opened(false) => action matches LeaseAction::Sleep(wait) && wait == 1,
                LeaseSignal::Slept => if up {
                    action is Send
                } else {
                    action is AskStop
                },
                LeaseSignal::Sent(true) => action is Receive,
                LeaseSignal::Sent(false) => action is AskStop,
                LeaseSignal::Received(None) => action is AskStop,
                LeaseSignal::Received(Some(left)) => if left == 0 {
                    &&& action matches LeaseAction::Finish(Err(Error::LeaseKeepAliveError(reason)))
                    &&& reason@ == "lease expired or revoked"@
                } else {
                    action is AskStop
                },
            }
        }),
{
    law_lease_actions(id, ttl, signals, action);
}

/// Telling the upkeep of a lease one more thing is one more signal in its run.
pub proof fn law_lease_steps(
    first: LeaseKeepAlive,
    signals: Seq<LeaseSignal>,
    upkeep: &mut LeaseKeepAlive,
    signal: LeaseSignal,
)
    requires
        *old(upkeep) == lease_run(first, signals),
        call_ensures(LeaseKeepAlive::step, (upkeep, signal), ()),
    ensures
        *final(upkeep) == lease_run(first, signals.push(signal)),
{
    assert(signals.push(signal).drop_last() =~= signals);
}

// ---------------------------------------------------------------------------------------
// Watches
// ---------------------------------------------------------------------------------------

/// Whatever a watch was told since it started, it has the store follow every key that begins with
/// the watched prefix behind the prefix of the store, and pauses for a second.
pub proof fn law_watch_follows_its_prefix(
    etcd: Etcd,
    shown: &str,
    prefix: &str,
    first: Watch,
    signals: Seq<WatchSignal>,
    watch: Watch,
    action: WatchAction,
)
    requires
        call_ensures(Etcd::prefix, (&etcd,), shown),
        call_ensures(Etcd::watch, (&etcd, prefix), first),
        watch@ == watch_run(first@, signals),
        call_ensures(Watch::action, (&watch,), action),
    ensures
        action matches WatchAction::Open(request) ==> request.key@ == shown@ + prefix@
            && request.range == Range::Prefix,
        action matches WatchAction::Pause(seconds) ==> seconds == 1,
        action is Stop ==> signals.len() > 0 && signals.last() == WatchSignal::Offline(true),
        signals.len() == 0 ==> action is AskOffline,
{
    law_watch_actions(etcd@, prefix@, signals, action);
    law_watch_end(etcd@, prefix@, signals);
}

/// Telling a watch one more thing is one more signal in its run.
pub proof fn law_watch_steps(
    first: Watch,
    signals: Seq<WatchSignal>,
    watch: &mut Watch,
    signal: WatchSignal,
)
    requires
        old(watch)@ == watch_run(first@, signals),
        call_ensures(Watch::step, (watch, signal), ()),
    ensures
        final(watch)@ == watch_run(first@, signals.push(signal)),
{
    assert(signals.push(signal).drop_last() =~= signals);
}

/// Whether callers are told of a change as the store reports it: put as put, with exactly the
/// bytes of the value, and removal as removal, without a value; either under the key that lies
/// behind the prefix of the store.
pub open spec fn told_as_reported(prefix: Seq<char>, event: StoreEvent, seen: Event) -> bool {
    match seen {
        Event::Put(data) => {
            &&& event.event_type == EventType::Put
            &&& event.kv->0.key@ == encode_utf8(prefix + data.key@)
            &&& data.value matches Some(bytes)
            &&& bytes_of(bytes) == event.kv->0.value@
        },
        Event::Delete(data) => {
            &&& event.event_type == EventType::Delete
            &&& event.kv->0.key@ == encode_utf8(prefix + data.key@)
            &&& data.value is None
        },
    }
}

/// Whether a change is about a key behind the prefix of the store.
pub open spec fn concerns(prefix: Seq<char>, event: StoreEvent) -> bool {
    event.kv is Some && exists|key: Seq<char>|
        event.kv->0.key@ == encode_utf8(#[trigger] (prefix + key))
}

/// Whatever a watch was told, it can hand on exactly the changes of keys behind the prefix of
/// the store, and tells of each as the store reports it.
pub proof fn law_watch_tells_as_reported(
    etcd: Etcd,
    shown: &str,
    prefix: &str,
    first: Watch,
    signals: Seq<WatchSignal>,
    watch: Watch,
    event: StoreEvent,
    ok: bool,
    seen: Event,
)
    requires
        call_ensures(Etcd::prefix, (&etcd,), shown),
        call_ensures(Etcd::watch, (&etcd, prefix), first),
        watch@ == watch_run(first@, signals),
        call_ensures(Watch::deliverable, (&watch, &event), ok),
        call_ensures(Watch::event, (&watch, &event), seen),
    ensures
        ok <==> concerns(shown@, event),
        ok ==> told_as_reported(shown@, event, seen),
{
    law_watch_end(etcd@, prefix@, signals);
    law_watch_hands_on_what_is_its_own(event, shown@);
    if ok {
        lemma_told(shown@, event, seen);
    }
}

/// An event that tells of a change tells of it as the store reports it.
proof fn lemma_told(prefix: Seq<char>, event: StoreEvent, seen: Event)
    requires
        event.deliverable(prefix),
        seen.tells(event, prefix),
    ensures
        told_as_reported(prefix, event, seen),
{
    law_watch_hands_on_what_is_its_own(event, prefix);
    let key = choose|key: Seq<char>| event.kv->0.key@ == encode_utf8(#[trigger] (prefix + key));
    match event.event_type {
        EventType::Put => law_watch_tells_what_was_put(event, seen, prefix, key),
        EventType::Delete => law_watch_tells_what_was_removed(event, seen, prefix, key),
    }
}

/// The changes of a message are told in their order, each as the store reports it, up to the
/// first one that is not about a key behind the prefix of the store.
pub proof fn law_watch_tells_every_change(
    etcd: Etcd,
    shown: &str,
    prefix: &str,
    first: Watch,
    signals: Seq<WatchSignal>,
    watch: Watch,
    events: Vec<StoreEvent>,
    seen: Vec<Event>,
)
    requires
        call_ensures(Etcd::prefix, (&etcd,), shown),
        call_ensures(Etcd::watch, (&etcd, prefix), first),
        watch@ == watch_run(first@, signals),
        call_ensures(Watch::events, (&watch, &events), seen),
    ensures
        seen@.len() <= events@.len(),
        forall|i: int|
            0 <= i < seen@.len() ==> told_as_reported(shown@, events@[i], #[trigger] seen@[i]),
        forall|i: int| 0 <= i < seen@.len() ==> concerns(shown@, #[trigger] events@[i]),
        seen@.len() < events@.len() ==> !concerns(shown@, events@[seen@.len() as int]),
{
    law_watch_end(etcd@, prefix@, signals);
    lemma_leading_deliverable(events@, shown@);
    assert forall|i: int| 0 <= i < seen@.len() implies told_as_reported(
        shown@,
        events@[i],
        #[trigger] seen@[i],
    ) by {
        assert(events@[i].deliverable(shown@));
        lemma_told(shown@, events@[i], seen@[i]);
    }
    assert forall|i: int| 0 <= i < seen@.len() implies concerns(shown@, #[trigger] events@[i]) by {
        assert(events@[i].deliverable(shown@));
        law_watch_hands_on_what_is_its_own(events@[i], shown@);
    }
    if seen@.len() < events@.len() {
        law_watch_hands_on_what_is_its_own(events@[seen@.len() as int], shown@);
    }
}

/// Behind a put, where the store reports what it was asked to store, the watcher is told of the
/// key and the value that were put, whatever they are.
pub proof fn law_watcher_is_told_what_was_put(
    etcd: Etcd,
    key: &str,
    value: Bytes,
    need_watch: bool,
    request: PutRequest,
    prefix: &str,
    watch: Watch,
    event: StoreEvent,
    seen: Event,
)
    requires
        call_ensures(Etcd::put, (&etcd, key, value, need_watch), request),
        call_ensures(Etcd::watch, (&etcd, prefix), watch),
        event.event_type == EventType::Put,
        event.kv matches Some(kv) && kv.key@ == encode_utf8(request.key@) && kv.value@ == bytes_of(
            request.value,
        ),
        call_ensures(Watch::event, (&watch, &event), seen),
    ensures
        ({
            &&& seen matches Event::Put(data)
            &&& data.key@ == key@
            &&& data.value matches Some(bytes)
            &&& bytes_of(bytes) == bytes_of(value)
        }),
{
    law_watch_after_put(request, event, seen, etcd@, key@);
}

} // verus!
