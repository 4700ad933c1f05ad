//! What keeps the connection, the leases and the watches going, and what ends them.

use crate::error::Error;
use crate::keepalive::{
    interval, ConnectionAction, ConnectionPhase, ConnectionSignal, ConnectionSpec, LeaseAction,
    LeaseKeepAlive, LeasePhase, LeaseSignal,
};
use crate::request::Range;
use crate::text::{join_with, lemma_split_on, split_on};
use crate::watch::{WatchAction, WatchPhase, WatchSignal, WatchSpec};
use vstd::prelude::*;

verus! {

// ---------------------------------------------------------------------------------------
// Leases
// ---------------------------------------------------------------------------------------

/// The upkeep of a lease behind some signals.
pub open spec fn lease_run(upkeep: LeaseKeepAlive, signals: Seq<LeaseSignal>) -> LeaseKeepAlive
    decreases signals.len(),
{
    if signals.len() == 0 {
        upkeep
    } else {
        lease_run(upkeep, signals.drop_last()).next(signals.last())
    }
}

/// Whatever happens, the upkeep is about the same lease, and the next sign of life comes after
/// the interval of the lease or, behind a failure, after a second; ten seconds at most.
pub proof fn law_lease_wait(id: i64, ttl: i64, signals: Seq<LeaseSignal>)
    ensures
        ({
            let upkeep = lease_run(LeaseKeepAlive::start(id, ttl), signals);
            &&& upkeep.id == id
            &&& upkeep.ttl == ttl
            &&& upkeep.wait == interval(ttl as int) || upkeep.wait == 1
            &&& upkeep.wait <= 10
        }),
    decreases signals.len(),
{
    if signals.len() > 0 {
        law_lease_wait(id, ttl, signals.drop_last());
    }
}

/// Signs of life come twice within the time to live of a lease, but not more than ten seconds
/// apart, in whole seconds. A time to live below minus one leaves them ten seconds apart.
pub proof fn law_interval(ttl: int)
    ensures
        0 <= interval(ttl) <= 10,
        0 <= ttl ==> 2 * interval(ttl) <= ttl,
        0 <= ttl && interval(ttl) < 10 ==> ttl < 2 * (interval(ttl) + 1),
        ttl == -1 ==> interval(ttl) == 0,
        ttl < -1 ==> interval(ttl) == 10,
{
}

/// Whether a signal is an answer to an action.
pub open spec fn lease_answers(action: LeaseAction, signal: LeaseSignal) -> bool {
    match signal {
        LeaseSignal::Stop(_) => action is AskStop,
        LeaseSignal::Opened(_) => action is Open,
        LeaseSignal::Slept => action is Sleep,
        LeaseSignal::Sent(_) => action is Send,
        LeaseSignal::Received(_) => action is Receive,
    }
}

/// The upkeep of a lease takes every answer to what it wants done, and nothing else.
pub proof fn law_lease_takes_answers(
    upkeep: LeaseKeepAlive,
    action: LeaseAction,
    signal: LeaseSignal,
)
    requires
        upkeep.wants(action),
    ensures
        upkeep.expects(signal) <==> lease_answers(action, signal),
{
}

/// Whether every signal comes where it is waited for.
pub open spec fn lease_told(upkeep: LeaseKeepAlive, signals: Seq<LeaseSignal>) -> bool
    decreases signals.len(),
{
    signals.len() > 0 ==> {
        &&& lease_told(upkeep, signals.drop_last())
        &&& lease_run(upkeep, signals.drop_last()).expects(signals.last())
    }
}

/// Whether the store takes signs of life, as far as the signals tell: it does from the time it
/// says so until something fails or the upkeep is told to stop.
pub open spec fn connected(signals: Seq<LeaseSignal>) -> bool
    decreases signals.len(),
{
    signals.len() > 0 && match signals.last() {
        LeaseSignal::Opened(opened) => opened,
        LeaseSignal::Received(reply) => reply is Some,
        LeaseSignal::Stop(true) | LeaseSignal::Sent(false) => false,
        _ => connected(signals.drop_last()),
    }
}

/// Whether the last sign of life failed, in being sent or in being replied to.
pub open spec fn shaken(signals: Seq<LeaseSignal>) -> bool
    decreases signals.len(),
{
    signals.len() > 0 && match signals.last() {
        LeaseSignal::Sent(false) => true,
        LeaseSignal::Received(reply) => reply is None,
        _ => shaken(signals.drop_last()),
    }
}

/// What the upkeep of a lease waits for behind some signals.
proof fn lemma_lease_phase(id: i64, ttl: i64, signals: Seq<LeaseSignal>)
    requires
        lease_told(LeaseKeepAlive::start(id, ttl), signals),
    ensures
        ({
            let upkeep = lease_run(LeaseKeepAlive::start(id, ttl), signals);
            let before = signals.drop_last();
            &&& upkeep.id == id
            &&& upkeep.ttl == ttl
            &&& upkeep.phase != LeasePhase::Expired ==> upkeep.wait == (if shaken(signals) {
                1
            } else {
                interval(ttl as int)
            })
            &&& upkeep.phase == (if signals.len() == 0 {
                LeasePhase::Asking
            } else {
                match signals.last() {
                    LeaseSignal::Stop(true) => if connected(before) {
                        LeasePhase::Asking
                    } else {
                        LeasePhase::Stopped
                    },
                    LeaseSignal::Stop(false) => if connected(before) {
                        LeasePhase::Waiting
                    } else {
                        LeasePhase::Opening
                    },
                    LeaseSignal::Opened(true) => LeasePhase::AskingAgain,
                    LeaseSignal::Opened(false) => LeasePhase::Pausing,
                    LeaseSignal::Slept => if connected(before) {
                        LeasePhase::Sending
                    } else {
                        LeasePhase::Asking
                    },
                    LeaseSignal::Sent(true) => LeasePhase::Receiving,
                    LeaseSignal::Sent(false) => LeasePhase::Asking,
                    LeaseSignal::Received(None) => LeasePhase::Asking,
                    LeaseSignal::Received(Some(left)) => if left == 0 {
                        LeasePhase::Expired
                    } else {
                        LeasePhase::AskingAgain
                    },
                }
            })
        }),
    decreases signals.len(),
{
    reveal_with_fuel(connected, 2);
    if signals.len() > 0 {
        lemma_lease_phase(id, ttl, signals.drop_last());
    }
}

/// What the upkeep of a lease wants done, whatever it was told. While the store takes no signs
/// of life, it asks whether it shall stop, ends well if it shall, and otherwise has the store
/// take signs of life for the very lease that it was started for, again and again with a second
/// between. While the store takes them, it asks whether it shall stop, waits for the interval of
/// the lease, or for a second if the last sign of life failed, sends one and reads the reply. A
/// reply that no time is left is the end, with an error.
pub proof fn law_lease_actions(id: i64, ttl: i64, signals: Seq<LeaseSignal>, action: LeaseAction)
    requires
        lease_told(LeaseKeepAlive::start(id, ttl), signals),
        lease_run(LeaseKeepAlive::start(id, ttl), signals).wants(action),
    ensures
        signals.len() == 0 ==> action is AskStop,
        signals.len() > 0 ==> match signals.last() {
            LeaseSignal::Stop(true) => if connected(signals.drop_last()) {
                action is AskStop
            } else {
                action matches LeaseAction::Finish(Ok(_))
            },
            LeaseSignal::Stop(false) => if connected(signals.drop_last()) {
                action matches LeaseAction::Sleep(seconds) && seconds == (if shaken(signals) {
                    1
                } else {
                    interval(ttl as int)
                })
            } else {
                action matches LeaseAction::Open(lease) && lease == id
            },
            LeaseSignal::Opened(true) => action is AskStop,
            LeaseSignal::Opened(false) => action matches LeaseAction::Sleep(seconds) && seconds == 1,
            LeaseSignal::Slept => if connected(signals.drop_last()) {
                action is Send
            } else {
                action is AskStop
            },
            LeaseSignal::Sent(true) => action is Receive,
            LeaseSignal::Sent(false) => action is AskStop,
            LeaseSignal::Received(None) => action is AskStop,
            LeaseSignal::Received(Some(left)) => if left == 0 {
                &&& action matches LeaseAction::Finish(Err(Error::LeaseKeepAliveError(reason)))
                &&& reason@ == "lease expired or revoked"@
            } else {
                action is AskStop
            },
        },
{
    lemma_lease_phase(id, ttl, signals);
}

/// Whatever happens, where the store is to take signs of life, they are for the lease that the
/// upkeep was started for.
pub proof fn law_lease_is_the_one_named(
    id: i64,
    ttl: i64,
    signals: Seq<LeaseSignal>,
    action: LeaseAction,
)
    requires
        lease_run(LeaseKeepAlive::start(id, ttl), signals).wants(action),
    ensures
        action matches LeaseAction::Open(lease) ==> lease == id,
{
    law_lease_wait(id, ttl, signals);
}

/// The upkeep ends well only because it was told to stop, and as expired only because the store
/// replied that no time is left; no failure of the connection ends it.
pub proof fn law_lease_end(id: i64, ttl: i64, signals: Seq<LeaseSignal>)
    ensures
        ({
            let upkeep = lease_run(LeaseKeepAlive::start(id, ttl), signals);
            &&& upkeep.phase == LeasePhase::Stopped ==> signals.len() > 0 && signals.last()
                == LeaseSignal::Stop(true)
            &&& upkeep.phase == LeasePhase::Expired ==> signals.len() > 0 && signals.last()
                == LeaseSignal::Received(Some(0))
        }),
{
}

/// Told to stop twice, the upkeep ends wherever it asks; told once, it ends unless it was about
/// to send a sign of life, and then it asks again.
pub proof fn law_lease_stops(upkeep: LeaseKeepAlive)
    requires
        upkeep.expects(LeaseSignal::Stop(true)),
    ensures
        upkeep.phase == LeasePhase::Asking ==> upkeep.next(LeaseSignal::Stop(true)).phase
            == LeasePhase::Stopped,
        upkeep.phase != LeasePhase::Asking ==> upkeep.next(LeaseSignal::Stop(true)).next(
            LeaseSignal::Stop(true),
        ).phase == LeasePhase::Stopped,
{
}

// ---------------------------------------------------------------------------------------
// The connection
// ---------------------------------------------------------------------------------------

/// The upkeep of the connection behind some signals.
pub open spec fn connection_run(
    upkeep: ConnectionSpec,
    signals: Seq<ConnectionSignal>,
) -> ConnectionSpec
    decreases signals.len(),
{
    if signals.len() == 0 {
        upkeep
    } else {
        connection_run(upkeep, signals.drop_last()).next(signals.last())
    }
}

/// Whatever happens, the sign of life stays under the same key. The upkeep ends well only
/// because this node is offline, and badly only because the sign of life could not be written;
/// a failure to read it ends nothing.
pub proof fn law_connection_end(prefix: Seq<char>, signals: Seq<ConnectionSignal>)
    ensures
        ({
            let upkeep = connection_run(ConnectionSpec::start(prefix), signals);
            &&& upkeep.key == prefix + "healthz"@
            &&& upkeep.phase == ConnectionPhase::Stopped ==> signals.len() > 0 && signals.last()
                == ConnectionSignal::Offline(true)
            &&& upkeep.phase == ConnectionPhase::Failed ==> signals.len() > 0 && signals.last()
                == ConnectionSignal::Written(false)
        }),
    decreases signals.len(),
{
    if signals.len() > 0 {
        law_connection_end(prefix, signals.drop_last());
    }
}

/// Whether a signal is an answer to an action.
pub open spec fn connection_answers(action: ConnectionAction, signal: ConnectionSignal) -> bool {
    match signal {
        ConnectionSignal::Offline(_) => action is AskOffline,
        ConnectionSignal::Written(_) => action is Write,
        ConnectionSignal::Started => action is StartClock,
        ConnectionSignal::Ticked => action is Tick,
        ConnectionSignal::Read(_) => action is Read,
    }
}

/// The upkeep of the connection takes every answer to what it wants done, and nothing else.
pub proof fn law_connection_takes_answers(
    upkeep: ConnectionSpec,
    action: ConnectionAction,
    signal: ConnectionSignal,
)
    requires
        upkeep.wants(action),
    ensures
        upkeep.phase.expects(signal) <==> connection_answers(action, signal),
{
}

/// What the upkeep of the connection wants done, whatever it was told: it asks whether this node
/// is offline and ends well if it is; otherwise it writes `OK` under `healthz` behind the prefix
/// of the settings, and reads that key at every tick of a clock that ticks every minute. Where
/// reading fails it starts over, and where writing fails it ends with the error.
pub proof fn law_connection_actions(
    prefix: Seq<char>,
    signals: Seq<ConnectionSignal>,
    action: ConnectionAction,
)
    requires
        connection_run(ConnectionSpec::start(prefix), signals).wants(action),
    ensures
        signals.len() == 0 ==> action is AskOffline,
        signals.len() > 0 ==> match signals.last() {
            ConnectionSignal::Offline(true) => action is Stop,
            ConnectionSignal::Offline(false) => action is Write,
            ConnectionSignal::Written(true) => {
                action matches ConnectionAction::StartClock(seconds) && seconds == 60
            },
            ConnectionSignal::Written(false) => action is Fail,
            ConnectionSignal::Started => action is Tick,
            ConnectionSignal::Ticked => action is Read,
            ConnectionSignal::Read(true) => action is Tick,
            ConnectionSignal::Read(false) => action is AskOffline,
        },
        action matches ConnectionAction::Write { key, value } ==> key@ == prefix + "healthz"@
            && value@ == "OK"@,
        action matches ConnectionAction::Read(request) ==> {
            &&& request.key@ == prefix + "healthz"@
            &&& request.range == Range::Exact
            &&& request.limit == 0
            &&& !request.count_only
        },
{
    law_connection_end(prefix, signals);
}

// ---------------------------------------------------------------------------------------
// Watches
// ---------------------------------------------------------------------------------------

/// A watch behind some signals.
pub open spec fn watch_run(watch: WatchSpec, signals: Seq<WatchSignal>) -> WatchSpec
    decreases signals.len(),
{
    if signals.len() == 0 {
        watch
    } else {
        watch_run(watch, signals.drop_last()).next(signals.last())
    }
}

/// Whatever happens, a watch is about the same prefix, and it ends only because this node is
/// offline.
pub proof fn law_watch_end(base: Seq<char>, prefix: Seq<char>, signals: Seq<WatchSignal>)
    ensures
        ({
            let watch = watch_run(WatchSpec::start(base, prefix), signals);
            &&& watch.prefix == base
            &&& watch.key == base + prefix
            &&& watch.phase == WatchPhase::Stopped ==> signals.len() > 0 && signals.last()
                == WatchSignal::Offline(true)
        }),
    decreases signals.len(),
{
    if signals.len() > 0 {
        law_watch_end(base, prefix, signals.drop_last());
    }
}

/// Whether a signal is an answer to an action.
pub open spec fn watch_answers(action: WatchAction, signal: WatchSignal) -> bool {
    match signal {
        WatchSignal::Offline(_) => action is AskOffline,
        WatchSignal::Opened(_) => action is Open,
        WatchSignal::Paused => action is Pause,
        WatchSignal::Read(_) => action is Read,
    }
}

/// A watch takes every answer to what it wants done, and nothing else.
pub proof fn law_watch_takes_answers(watch: WatchSpec, action: WatchAction, signal: WatchSignal)
    requires
        watch.wants(action),
    ensures
        watch.phase.expects(signal) <==> watch_answers(action, signal),
{
}

/// What a watch wants done, whatever it was told: it asks whether this node is offline and is
/// over if it is; otherwise it has the store follow every key that begins with the watched
/// prefix behind the prefix of the store, and reads message after message. Where the store does
/// not follow, it starts over after a second, and where no message can be read, at once.
pub proof fn law_watch_actions(
    base: Seq<char>,
    prefix: Seq<char>,
    signals: Seq<WatchSignal>,
    action: WatchAction,
)
    requires
        watch_run(WatchSpec::start(base, prefix), signals).wants(action),
    ensures
        signals.len() == 0 ==> action is AskOffline,
        signals.len() > 0 ==> match signals.last() {
            WatchSignal::Offline(true) => action is Stop,
            WatchSignal::Offline(false) => action is Open,
            WatchSignal::Opened(true) => action is Read,
            WatchSignal::Opened(false) => {
                action matches WatchAction::Pause(seconds) && seconds == 1
            },
            WatchSignal::Paused => action is AskOffline,
            WatchSignal::Read(true) => action is Read,
            WatchSignal::Read(false) => action is AskOffline,
        },
        action matches WatchAction::Open(request) ==> request.key@ == base + prefix && request.range
            == Range::Prefix,
{
    law_watch_end(base, prefix, signals);
}

// ---------------------------------------------------------------------------------------
// Addresses
// ---------------------------------------------------------------------------------------

/// There is at least one server, no address holds a comma, and the addresses with commas
/// between them are the setting again.
pub proof fn law_endpoints_make_up_the_address(addr: Seq<char>)
    ensures
        split_on(addr, ',').len() >= 1,
        forall|i: int|
            0 <= i < split_on(addr, ',').len() ==> !(#[trigger] split_on(addr, ',')[i]).contains(','),
        join_with(split_on(addr, ','), ',') == addr,
{
    lemma_split_on(addr, ',');
}

} // verus!
