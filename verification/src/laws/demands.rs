//! What the operations demand of their callers: no more than that a call answers what was asked
//! for.
//!
//! `call_requires(f, arguments)` says that `f` may be called with the arguments.

use crate::config::EtcdConfig;
use crate::connect::connect_etcd;
use crate::etcd::{create_table, Etcd};
use crate::keepalive::{
    keepalive_connection, keepalive_interval, keepalive_lease_id, ConnectionAction,
    ConnectionKeepAlive, ConnectionSignal, LeaseAction, LeaseKeepAlive, LeaseSignal,
};
use crate::laws::upkeep::{
    connection_answers, law_connection_takes_answers, law_lease_takes_answers,
    law_watch_takes_answers, lease_answers, watch_answers,
};
use crate::listing::{KeyListing, Listing, ValueListing};
use crate::lock::{LockAttempt, Locker};
use crate::request::KeyValue;
use crate::watch::{StoreEvent, Watch, WatchAction, WatchSignal};
use bytes::Bytes;
use vstd::prelude::*;

verus! {

/// A store can be made under any prefix, and asked for anything under any key.
pub proof fn law_store_takes_every_call(
    prefix: &str,
    config: EtcdConfig,
    etcd: Etcd,
    key: &str,
    value: Bytes,
    yes: bool,
    need_watch: bool,
    kvs: Vec<KeyValue>,
    number: i64,
    other_number: i64,
)
    ensures
        call_requires(Etcd::new, (prefix,)),
        call_requires(Etcd::default, (&config,)),
        call_requires(Etcd::prefix, (&etcd,)),
        call_requires(Etcd::key, (&etcd, key)),
        call_requires(create_table, ()),
        call_requires(Etcd::create_table, (&etcd,)),
        call_requires(Etcd::close, (&etcd,)),
        call_requires(Etcd::stats, (&etcd,)),
        call_requires(Etcd::stats_reply, (&etcd, number, other_number)),
        call_requires(Etcd::get, (&etcd, key)),
        call_requires(Etcd::get_reply, (&etcd, key, &kvs)),
        call_requires(Etcd::put, (&etcd, key, value, need_watch)),
        call_requires(Etcd::delete, (&etcd, key, yes, need_watch)),
        call_requires(Etcd::list, (&etcd, key, number)),
        call_requires(Etcd::list_keys, (&etcd, key, number)),
        call_requires(Etcd::list_values, (&etcd, key, number)),
        call_requires(Etcd::watch, (&etcd, key)),
        call_requires(Etcd::count, (&etcd, key)),
        call_requires(connect_etcd, (&config,)),
{
}

/// A lock can be made under any name, asked for wherever a request may take some time, and told
/// any reply.
pub proof fn law_lock_takes_every_call(
    config: EtcdConfig,
    name: &str,
    locker: Locker,
    changed: &mut Locker,
    timeout: u64,
    attempt: LockAttempt,
    reply: Result<Vec<u8>, String>,
    given_back: Result<(), String>,
)
    ensures
        call_requires(Locker::new, (&config, name)),
        call_requires(Locker::key, (&locker,)),
        call_requires(Locker::state, (&locker,)),
        config.command_timeout > 0 ==> call_requires(Locker::lock, (&locker, timeout, &config)),
        call_requires(Locker::lock_reply, (changed, attempt, reply)),
        call_requires(Locker::unlock, (&locker,)),
        call_requires(Locker::unlock_reply, (changed, given_back)),
{
}

/// The upkeep of a lease can be started for any lease, and told every answer to what it wants
/// done.
pub proof fn law_lease_takes_every_answer(
    id: i64,
    ttl: i64,
    upkeep: &mut LeaseKeepAlive,
    action: LeaseAction,
    signal: LeaseSignal,
)
    requires
        call_ensures(LeaseKeepAlive::action, (&*old(upkeep),), action),
        lease_answers(action, signal),
    ensures
        call_requires(keepalive_interval, (ttl,)),
        call_requires(keepalive_lease_id, (id, ttl)),
        call_requires(LeaseKeepAlive::action, (&*old(upkeep),)),
        call_requires(LeaseKeepAlive::step, (upkeep, signal)),
{
    law_lease_takes_answers(*old(upkeep), action, signal);
}

/// The upkeep of the connection can be started with any settings, and told every answer to what
/// it wants done.
pub proof fn law_connection_takes_every_answer(
    config: EtcdConfig,
    upkeep: &mut ConnectionKeepAlive,
    action: ConnectionAction,
    signal: ConnectionSignal,
)
    requires
        call_ensures(ConnectionKeepAlive::action, (&*old(upkeep),), action),
        connection_answers(action, signal),
    ensures
        call_requires(keepalive_connection, (&config,)),
        call_requires(ConnectionKeepAlive::action, (&*old(upkeep),)),
        call_requires(ConnectionKeepAlive::step, (upkeep, signal)),
{
    law_connection_takes_answers(old(upkeep)@, action, signal);
}

/// A watch can be told every answer to what it wants done, and asked to tell of every change that
/// it says it can hand on, and of every message.
pub proof fn law_watch_takes_every_answer(
    watch: &mut Watch,
    action: WatchAction,
    signal: WatchSignal,
    event: StoreEvent,
    ok: bool,
    events: Vec<StoreEvent>,
)
    requires
        call_ensures(Watch::action, (&*old(watch),), action),
        watch_answers(action, signal),
        call_ensures(Watch::deliverable, (&*old(watch), &event), ok),
    ensures
        call_requires(Watch::action, (&*old(watch),)),
        call_requires(Watch::step, (watch, signal)),
        call_requires(Watch::deliverable, (&*old(watch), &event)),
        ok ==> call_requires(Watch::event, (&*old(watch), &event)),
        call_requires(Watch::events, (&*old(watch), &events)),
{
    law_watch_takes_answers(old(watch)@, action, signal);
}

/// A listing that is sound and not over can read every page that it says it can read, is sound
/// behind it, and gives what it has read.
pub proof fn law_listings_take_every_page(
    listing: &mut Listing,
    keys: &mut KeyListing,
    values: &mut ValueListing,
    page: Vec<KeyValue>,
)
    requires
        old(listing).wf(),
        old(keys).wf(),
        old(values).wf(),
        call_ensures(Listing::is_done, (&*old(listing),), false),
        call_ensures(KeyListing::is_done, (&*old(keys),), false),
        call_ensures(ValueListing::is_done, (&*old(values),), false),
        call_ensures(Listing::accepts, (&*old(listing), &page), true),
        call_ensures(KeyListing::accepts, (&*old(keys), &page), true),
        call_ensures(ValueListing::accepts, (&*old(values), &page), true),
    ensures
        call_requires(Listing::read, (listing, &page)),
        call_requires(KeyListing::read, (keys, &page)),
        call_requires(ValueListing::read, (values, &page)),
        call_ensures(Listing::read, (listing, &page), ()) ==> final(listing).wf(),
        call_ensures(KeyListing::read, (keys, &page), ()) ==> final(keys).wf(),
        call_ensures(ValueListing::read, (values, &page), ()) ==> final(values).wf(),
        call_requires(Listing::finish, (*old(listing),)),
        call_requires(KeyListing::finish, (*old(keys),)),
        call_requires(ValueListing::finish, (*old(values),)),
{
}

/// A listing that was just started is sound.
pub proof fn law_listings_start_sound(
    etcd: Etcd,
    prefix: &str,
    page_size: i64,
    listing: Listing,
    keys: KeyListing,
    values: ValueListing,
)
    requires
        call_ensures(Etcd::list, (&etcd, prefix, page_size), listing),
        call_ensures(Etcd::list_keys, (&etcd, prefix, page_size), keys),
        call_ensures(Etcd::list_values, (&etcd, prefix, page_size), values),
    ensures
        listing.wf(),
        keys.wf(),
        values.wf(),
{
}

} // verus!
