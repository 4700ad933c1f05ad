//! Keeping the connection and leases alive.

use crate::config::EtcdConfig;
use crate::error::Error;
use crate::request::{GetRequest, GetSpec, Range};
use crate::text::concatenated;
use vstd::prelude::*;

verus! {

// ---------------------------------------------------------------------------------------
// The connection
// ---------------------------------------------------------------------------------------

/// What the upkeep of the connection waits for.
#[derive(Debug, Clone, Copy, PartialEq, Eq, Structural)]
pub enum ConnectionPhase {
    /// To learn whether this node is offline.
    Asking,
    /// For the sign of life to be written.
    Writing,
    /// For the clock to run.
    Starting,
    /// For the next tick of the clock.
    Ticking,
    /// For the sign of life to be read.
    Reading,
    /// For nothing: this node is offline.
    Stopped,
    /// For nothing: the sign of life could not be written.
    Failed,
}

/// What the upkeep of the connection is told.
#[derive(Debug, Clone, Copy, PartialEq, Eq, Structural)]
pub enum ConnectionSignal {
    /// Whether this node is offline.
    Offline(bool),
    /// Whether the sign of life was written.
    Written(bool),
    /// The clock runs and its first tick, which comes at once, is over.
    Started,
    /// The clock ticked.
    Ticked,
    /// Whether the sign of life could be asked for.
    Read(bool),
}

/// What the upkeep of the connection wants done.
#[derive(Debug, PartialEq, Eq)]
pub enum ConnectionAction {
    /// Find out whether this node is offline.
    AskOffline,
    /// Write a value under a key.
    Write { key: String, value: String },
    /// Start a clock that ticks at once and then every so many seconds, and let it tick once.
    StartClock(u64),
    /// Wait for the next tick.
    Tick,
    /// Ask for a key.
    Read(GetRequest),
    /// End well.
    Stop,
    /// End with the error that the writing met.
    Fail,
}

impl ConnectionPhase {
    /// Whether a signal answers what is waited for.
    pub open spec fn expects(self, signal: ConnectionSignal) -> bool {
        match signal {
            ConnectionSignal::Offline(_) => self == ConnectionPhase::Asking,
            ConnectionSignal::Written(_) => self == ConnectionPhase::Writing,
            ConnectionSignal::Started => self == ConnectionPhase::Starting,
            ConnectionSignal::Ticked => self == ConnectionPhase::Ticking,
            ConnectionSignal::Read(_) => self == ConnectionPhase::Reading,
        }
    }

    /// What is waited for behind a signal.
    pub open spec fn next(self, signal: ConnectionSignal) -> ConnectionPhase {
        match signal {
            ConnectionSignal::Offline(true) => ConnectionPhase::Stopped,
            ConnectionSignal::Offline(false) => ConnectionPhase::Writing,
            ConnectionSignal::Written(true) => ConnectionPhase::Starting,
            ConnectionSignal::Written(false) => ConnectionPhase::Failed,
            ConnectionSignal::Started => ConnectionPhase::Ticking,
            ConnectionSignal::Ticked => ConnectionPhase::Reading,
            ConnectionSignal::Read(true) => ConnectionPhase::Ticking,
            ConnectionSignal::Read(false) => ConnectionPhase::Asking,
        }
    }
}

/// Keeps the connection alive: writes a sign of life and reads it every minute. Where reading
/// fails, it starts over; it ends where this node is offline or writing fails.
pub struct ConnectionKeepAlive {
    key: String,
    phase: ConnectionPhase,
}

/// What a [`ConnectionKeepAlive`] stands for.
pub struct ConnectionSpec {
    /// The key of the sign of life.
    pub key: Seq<char>,
    pub phase: ConnectionPhase,
}

impl View for ConnectionKeepAlive {
    type V = ConnectionSpec;

    closed spec fn view(&self) -> ConnectionSpec {
        ConnectionSpec { key: self.key@, phase: self.phase }
    }
}

impl ConnectionSpec {
    /// The upkeep as it starts.
    pub open spec fn start(prefix: Seq<char>) -> ConnectionSpec {
        ConnectionSpec { key: prefix + "healthz"@, phase: ConnectionPhase::Asking }
    }

    /// The upkeep behind a signal.
    pub open spec fn next(self, signal: ConnectionSignal) -> ConnectionSpec {
        ConnectionSpec { phase: self.phase.next(signal), ..self }
    }

    /// Whether an action is what the upkeep wants done.
    pub open spec fn wants(self, action: ConnectionAction) -> bool {
        match self.phase {
            ConnectionPhase::Asking => action is AskOffline,
            ConnectionPhase::Writing => {
                &&& action matches ConnectionAction::Write { key, value }
                &&& key@ == self.key
                &&& value@ == "OK"@
            },
            ConnectionPhase::Starting => {
                action matches ConnectionAction::StartClock(seconds) && seconds == 60
            },
            ConnectionPhase::Ticking => action is Tick,
            ConnectionPhase::Reading => {
                &&& action matches ConnectionAction::Read(request)
                &&& request@ == (GetSpec {
                    key: self.key,
                    range: Range::Exact,
                    ascending: false,
                    limit: 0,
                    count_only: false,
                })
            },
            ConnectionPhase::Stopped => action is Stop,
            ConnectionPhase::Failed => action is Fail,
        }
    }
}

/// Starts to keep the connection alive.
pub fn keepalive_connection(config: &EtcdConfig) -> (upkeep: ConnectionKeepAlive)
    ensures
        upkeep@ == ConnectionSpec::start(config.prefix@),
        upkeep@.key == config.prefix@ + "healthz"@,
{
    ConnectionKeepAlive {
        key: concatenated(config.prefix.as_str(), "healthz"),
        phase: ConnectionPhase::Asking,
    }
}

impl ConnectionKeepAlive {
    /// What is to be done next.
    pub fn action(&self) -> (action: ConnectionAction)
        ensures
            self@.wants(action),
            action matches ConnectionAction::Write { key, value } ==> key@ == self@.key && value@
                == "OK"@,
            action matches ConnectionAction::Read(request) ==> request.key@ == self@.key
                && request.range == Range::Exact,
    {
        match self.phase {
            ConnectionPhase::Asking => ConnectionAction::AskOffline,
            ConnectionPhase::Writing => ConnectionAction::Write {
                key: self.key.clone(),
                value: "OK".to_owned(),
            },
            ConnectionPhase::Starting => ConnectionAction::StartClock(60),
            ConnectionPhase::Ticking => ConnectionAction::Tick,
            ConnectionPhase::Reading => ConnectionAction::Read(
                GetRequest {
                    key: self.key.clone(),
                    range: Range::Exact,
                    ascending: false,
                    limit: 0,
                    count_only: false,
                },
            ),
            ConnectionPhase::Stopped => ConnectionAction::Stop,
            ConnectionPhase::Failed => ConnectionAction::Fail,
        }
    }

    /// Takes what came of the action.
    pub fn step(&mut self, signal: ConnectionSignal)
        requires
            old(self)@.phase.expects(signal),
        ensures
            final(self)@ == old(self)@.next(signal),
    {
        self.phase = match signal {
            ConnectionSignal::Offline(offline) => if offline {
                ConnectionPhase::Stopped
            } else {
                ConnectionPhase::Writing
            },
            ConnectionSignal::Written(written) => if written {
                ConnectionPhase::Starting
            } else {
                ConnectionPhase::Failed
            },
            ConnectionSignal::Started => ConnectionPhase::Ticking,
            ConnectionSignal::Ticked => ConnectionPhase::Reading,
            ConnectionSignal::Read(read) => if read {
                ConnectionPhase::Ticking
            } else {
                ConnectionPhase::Asking
            },
        };
    }
}

// ---------------------------------------------------------------------------------------
// Leases
// ---------------------------------------------------------------------------------------

/// The seconds between two signs of life for a lease: half of its time to live, rounded
/// towards zero, but no more than ten. A negative half counts as too much.
pub open spec fn interval(ttl: int) -> int {
    let half = if ttl < 0 {
        -(-ttl / 2)
    } else {
        ttl / 2
    };
    if 0 <= half <= 10 {
        half
    } else {
        10
    }
}

/// What the upkeep of a lease waits for.
#[derive(Debug, Clone, Copy, PartialEq, Eq, Structural)]
pub enum LeasePhase {
    /// To learn whether it shall stop, before it connects.
    Asking,
    /// For the store to take signs of life.
    Opening,
    /// For a pause to end.
    Pausing,
    /// To learn whether it shall stop, before the next sign of life.
    AskingAgain,
    /// For the next sign of life to be due.
    Waiting,
    /// For the sign of life to be sent.
    Sending,
    /// For the store to reply.
    Receiving,
    /// For nothing: it was told to stop.
    Stopped,
    /// For nothing: the lease is gone.
    Expired,
}

/// What the upkeep of a lease is told.
#[derive(Debug, Clone, Copy, PartialEq, Eq, Structural)]
pub enum LeaseSignal {
    /// Whether it shall stop.
    Stop(bool),
    /// Whether the store takes signs of life.
    Opened(bool),
    /// The time is over.
    Slept,
    /// Whether the sign of life was sent.
    Sent(bool),
    /// The time to live that the store replied, or that no reply could be read.
    Received(Option<i64>),
}

/// What the upkeep of a lease wants done.
#[derive(Debug, PartialEq, Eq)]
pub enum LeaseAction {
    /// Find out whether it shall stop.
    AskStop,
    /// Have the store take signs of life for the lease.
    Open(i64),
    /// Wait for so many seconds.
    Sleep(u64),
    /// Send a sign of life.
    Send,
    /// Read the reply.
    Receive,
    /// End with the result.
    Finish(Result<(), Error>),
}

/// Keeps a lease alive: sends signs of life until it is told to stop or the lease is gone.
/// Where the connection fails, it connects again and sends the next one after a second.
pub struct LeaseKeepAlive {
    pub id: i64,
    pub ttl: i64,
    /// Seconds before the next sign of life.
    pub wait: u64,
    pub phase: LeasePhase,
}

impl LeaseKeepAlive {
    /// The upkeep as it starts.
    pub open spec fn start(id: i64, ttl: i64) -> LeaseKeepAlive {
        LeaseKeepAlive { id, ttl, wait: interval(ttl as int) as u64, phase: LeasePhase::Asking }
    }

    /// Whether a signal answers what is waited for.
    pub open spec fn expects(self, signal: LeaseSignal) -> bool {
        match signal {
            LeaseSignal::Stop(_) => {
                self.phase == LeasePhase::Asking || self.phase == LeasePhase::AskingAgain
            },
            LeaseSignal::Opened(_) => self.phase == LeasePhase::Opening,
            LeaseSignal::Slept => {
                self.phase == LeasePhase::Pausing || self.phase == LeasePhase::Waiting
            },
            LeaseSignal::Sent(_) => self.phase == LeasePhase::Sending,
            LeaseSignal::Received(_) => self.phase == LeasePhase::Receiving,
        }
    }

    /// The upkeep that waits for something else.
    pub open spec fn at(self, phase: LeasePhase) -> LeaseKeepAlive {
        LeaseKeepAlive { phase, ..self }
    }

    /// The upkeep that connects again after a failure.
    pub open spec fn reconnecting(self) -> LeaseKeepAlive {
        LeaseKeepAlive { wait: 1, phase: LeasePhase::Asking, ..self }
    }

    /// The upkeep behind a signal.
    pub open spec fn next(self, signal: LeaseSignal) -> LeaseKeepAlive {
        match signal {
            LeaseSignal::Stop(stop) => if self.phase == LeasePhase::Asking {
                if stop {
                    self.at(LeasePhase::Stopped)
                } else {
                    self.at(LeasePhase::Opening)
                }
            } else {
                if stop {
                    self.at(LeasePhase::Asking)
                } else {
                    self.at(LeasePhase::Waiting)
                }
            },
            LeaseSignal::Opened(true) => self.at(LeasePhase::AskingAgain),
            LeaseSignal::Opened(false) => self.at(LeasePhase::Pausing),
            LeaseSignal::Slept => if self.phase == LeasePhase::Pausing {
                self.at(LeasePhase::Asking)
            } else {
                self.at(LeasePhase::Sending)
            },
            LeaseSignal::Sent(true) => self.at(LeasePhase::Receiving),
            LeaseSignal::Sent(false) => self.reconnecting(),
            LeaseSignal::Received(None) => self.reconnecting(),
            LeaseSignal::Received(Some(ttl)) => if ttl == 0 {
                self.at(LeasePhase::Expired)
            } else {
                LeaseKeepAlive {
                    wait: interval(self.ttl as int) as u64,
                    phase: LeasePhase::AskingAgain,
                    ..self
                }
            },
        }
    }

    /// Whether an action is what the upkeep wants done.
    pub open spec fn wants(self, action: LeaseAction) -> bool {
        match self.phase {
            LeasePhase::Asking | LeasePhase::AskingAgain => action is AskStop,
            LeasePhase::Opening => action matches LeaseAction::Open(id) && id == self.id,
            LeasePhase::Pausing => action matches LeaseAction::Sleep(seconds) && seconds == 1,
            LeasePhase::Waiting => {
                action matches LeaseAction::Sleep(seconds) && seconds == self.wait
            },
            LeasePhase::Sending => action is Send,
            LeasePhase::Receiving => action is Receive,
            LeasePhase::Stopped => action matches LeaseAction::Finish(Ok(_)),
            LeasePhase::Expired => {
                &&& action matches LeaseAction::Finish(Err(Error::LeaseKeepAliveError(reason)))
                &&& reason@ == "lease expired or revoked"@
            },
        }
    }

    /// What is to be done next.
    pub fn action(&self) -> (action: LeaseAction)
        ensures
            self.wants(action),
            action matches LeaseAction::Open(id) ==> id == self.id,
    {
        match self.phase {
            LeasePhase::Asking => LeaseAction::AskStop,
            LeasePhase::AskingAgain => LeaseAction::AskStop,
            LeasePhase::Opening => LeaseAction::Open(self.id),
            LeasePhase::Pausing => LeaseAction::Sleep(1),
            LeasePhase::Waiting => LeaseAction::Sleep(self.wait),
            LeasePhase::Sending => LeaseAction::Send,
            LeasePhase::Receiving => LeaseAction::Receive,
            LeasePhase::Stopped => LeaseAction::Finish(Ok(())),
            LeasePhase::Expired => LeaseAction::Finish(
                Err(Error::LeaseKeepAliveError("lease expired or revoked".to_owned())),
            ),
        }
    }

    /// Takes what came of the action.
    pub fn step(&mut self, signal: LeaseSignal)
        requires
            old(self).expects(signal),
        ensures
            *final(self) == old(self).next(signal),
    {
        match signal {
            LeaseSignal::Stop(stop) => {
                if self.phase == LeasePhase::Asking {
                    self.phase = if stop {
                        LeasePhase::Stopped
                    } else {
                        LeasePhase::Opening
                    };
                } else {
                    self.phase = if stop {
                        LeasePhase::Asking
                    } else {
                        LeasePhase::Waiting
                    };
                }
            },
            LeaseSignal::Opened(opened) => {
                self.phase = if opened {
                    LeasePhase::AskingAgain
                } else {
                    LeasePhase::Pausing
                };
            },
            LeaseSignal::Slept => {
                self.phase = if self.phase == LeasePhase::Pausing {
                    LeasePhase::Asking
                } else {
                    LeasePhase::Sending
                };
            },
            LeaseSignal::Sent(sent) => {
                if sent {
                    self.phase = LeasePhase::Receiving;
                } else {
                    self.wait = 1;
                    self.phase = LeasePhase::Asking;
                }
            },
            LeaseSignal::Received(reply) => match reply {
                None => {
                    self.wait = 1;
                    self.phase = LeasePhase::Asking;
                },
                Some(ttl) => {
                    if ttl == 0 {
                        self.phase = LeasePhase::Expired;
                    } else {
                        self.wait = keepalive_interval(self.ttl);
                        self.phase = LeasePhase::AskingAgain;
                    }
                },
            },
        }
    }
}

/// The seconds between two signs of life for a lease.
pub fn keepalive_interval(ttl: i64) -> (seconds: u64)
    ensures
        seconds == interval(ttl as int),
        0 <= ttl ==> seconds == (if ttl / 2 < 10 {
            ttl / 2
        } else {
            10
        }),
{
    if ttl <= -2 || ttl >= 20 {
        10
    } else if ttl <= 1 {
        0
    } else {
        (ttl / 2) as u64
    }
}

/// Starts to keep a lease alive.
pub fn keepalive_lease_id(id: i64, ttl: i64) -> (upkeep: LeaseKeepAlive)
    ensures
        upkeep == LeaseKeepAlive::start(id, ttl),
        upkeep.id == id,
        upkeep.ttl == ttl,
{
    LeaseKeepAlive { id, ttl, wait: keepalive_interval(ttl), phase: LeasePhase::Asking }
}

} // verus!
