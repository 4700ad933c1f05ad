//! Following the changes under a prefix.

use crate::outside::{bytes_of, from_utf8, to_bytes};
use crate::request::{KeyValue, Range, WatchRequest};
use crate::text::{concatenated, starts_with, strip_prefix};
use bytes::Bytes;
use vstd::prelude::*;
use vstd::utf8::*;

verus! {

/// What a change is about, as callers see it.
#[derive(Debug, PartialEq, Eq)]
pub struct EventData {
    /// The key without the prefix of the store.
    pub key: String,
    pub value: Option<Bytes>,
}

/// A change, as callers see it.
#[derive(Debug, PartialEq, Eq)]
pub enum Event {
    Put(EventData),
    Delete(EventData),
}

/// The kinds of change.
#[derive(Debug, Clone, Copy, PartialEq, Eq, Structural)]
pub enum EventType {
    Put,
    Delete,
}

/// A change, as the store reports it.
#[derive(Debug, PartialEq, Eq)]
pub struct StoreEvent {
    pub event_type: EventType,
    pub kv: Option<KeyValue>,
}

impl StoreEvent {
    /// Whether the change is about a key that is text and lies under the prefix of the store.
    pub open spec fn deliverable(self, prefix: Seq<char>) -> bool {
        self.kv is Some && self.kv->0@.under(prefix)
    }

    /// The key without the prefix of the store.
    pub open spec fn key(self, prefix: Seq<char>) -> Seq<char> {
        self.kv->0@.text()->0.skip(prefix.len() as int)
    }
}

/// How many changes at the start of a message can be handed on.
pub open spec fn leading_deliverable(events: Seq<StoreEvent>, prefix: Seq<char>) -> nat
    decreases events.len(),
{
    if events.len() > 0 && events[0].deliverable(prefix) {
        1 + leading_deliverable(events.drop_first(), prefix)
    } else {
        0
    }
}

/// The changes counted by [`leading_deliverable`] can be handed on and the one behind them
/// cannot.
pub proof fn lemma_leading_deliverable(events: Seq<StoreEvent>, prefix: Seq<char>)
    ensures
        leading_deliverable(events, prefix) <= events.len(),
        forall|i: int|
            0 <= i < leading_deliverable(events, prefix) ==> (#[trigger] events[i]).deliverable(prefix),
        leading_deliverable(events, prefix) < events.len() ==> !events[leading_deliverable(
            events,
            prefix,
        ) as int].deliverable(prefix),
    decreases events.len(),
{
    if events.len() > 0 && events[0].deliverable(prefix) {
        let rest = events.drop_first();
        lemma_leading_deliverable(rest, prefix);
        assert forall|i: int| 0 <= i < leading_deliverable(events, prefix) implies (
        #[trigger] events[i]).deliverable(prefix) by {
            if i > 0 {
                assert(rest[i - 1].deliverable(prefix));
            }
        }
    }
}

impl Event {
    /// Whether the event tells callers of a change.
    pub open spec fn tells(self, event: StoreEvent, prefix: Seq<char>) -> bool {
        match event.event_type {
            EventType::Put => self.tells_put(event.key(prefix), event.kv->0.value@),
            EventType::Delete => self.tells_delete(event.key(prefix)),
        }
    }

    /// Whether the event tells of a key that it was given a value.
    pub open spec fn tells_put(self, key: Seq<char>, value: Seq<u8>) -> bool {
        &&& self matches Event::Put(data)
        &&& data.key@ == key
        &&& data.value matches Some(bytes)
        &&& bytes_of(bytes) == value
    }

    /// Whether the event tells of a key that it was removed.
    pub open spec fn tells_delete(self, key: Seq<char>) -> bool {
        &&& self matches Event::Delete(data)
        &&& data.key@ == key
        &&& data.value is None
    }
}

/// What a watch waits for.
#[derive(Debug, Clone, Copy, PartialEq, Eq, Structural)]
pub enum WatchPhase {
    /// To learn whether this node is offline.
    Asking,
    /// For the store to follow the changes.
    Opening,
    /// For a pause to end.
    Pausing,
    /// For changes.
    Reading,
    /// For nothing: the watch is over.
    Stopped,
}

/// What a watch is told.
#[derive(Debug, Clone, Copy, PartialEq, Eq, Structural)]
pub enum WatchSignal {
    /// Whether this node is offline.
    Offline(bool),
    /// Whether the store follows the changes.
    Opened(bool),
    /// The pause is over.
    Paused,
    /// Whether a message could be read. Its changes, if it brought any, are handled.
    Read(bool),
}

/// What a watch wants done.
#[derive(Debug, PartialEq, Eq)]
pub enum WatchAction {
    /// Find out whether this node is offline.
    AskOffline,
    /// Have the store follow the changes.
    Open(WatchRequest),
    /// Wait for so many seconds.
    Pause(u64),
    /// Read the next message and hand on its changes.
    Read,
    /// Nothing more.
    Stop,
}

impl WatchPhase {
    /// Whether a signal answers what is waited for.
    pub open spec fn expects(self, signal: WatchSignal) -> bool {
        match signal {
            WatchSignal::Offline(_) => self == WatchPhase::Asking,
            WatchSignal::Opened(_) => self == WatchPhase::Opening,
            WatchSignal::Paused => self == WatchPhase::Pausing,
            WatchSignal::Read(_) => self == WatchPhase::Reading,
        }
    }

    /// What is waited for behind a signal.
    pub open spec fn next(self, signal: WatchSignal) -> WatchPhase {
        match signal {
            WatchSignal::Offline(true) => WatchPhase::Stopped,
            WatchSignal::Offline(false) => WatchPhase::Opening,
            WatchSignal::Opened(true) => WatchPhase::Reading,
            WatchSignal::Opened(false) => WatchPhase::Pausing,
            WatchSignal::Paused => WatchPhase::Asking,
            WatchSignal::Read(true) => WatchPhase::Reading,
            WatchSignal::Read(false) => WatchPhase::Asking,
        }
    }
}

/// Follows the changes under a prefix, through every loss of the connection, until this node
/// is offline.
pub struct Watch {
    prefix: String,
    key: String,
    phase: WatchPhase,
}

/// What a [`Watch`] stands for.
pub struct WatchSpec {
    /// The prefix of the store.
    pub prefix: Seq<char>,
    /// The prefix that is watched, as the store knows it.
    pub key: Seq<char>,
    pub phase: WatchPhase,
}

impl View for Watch {
    type V = WatchSpec;

    closed spec fn view(&self) -> WatchSpec {
        WatchSpec { prefix: self.prefix@, key: self.key@, phase: self.phase }
    }
}

impl WatchSpec {
    /// The start of a watch.
    pub open spec fn start(base: Seq<char>, prefix: Seq<char>) -> WatchSpec {
        WatchSpec { prefix: base, key: base + prefix, phase: WatchPhase::Asking }
    }

    /// The watch behind a signal.
    pub open spec fn next(self, signal: WatchSignal) -> WatchSpec {
        WatchSpec { phase: self.phase.next(signal), ..self }
    }

    /// Whether an action is what the watch wants done.
    pub open spec fn wants(self, action: WatchAction) -> bool {
        match self.phase {
            WatchPhase::Asking => action is AskOffline,
            WatchPhase::Opening => {
                &&& action matches WatchAction::Open(request)
                &&& request.key@ == self.key
                &&& request.range == Range::Prefix
            },
            WatchPhase::Pausing => action matches WatchAction::Pause(seconds) && seconds == 1,
            WatchPhase::Reading => action is Read,
            WatchPhase::Stopped => action is Stop,
        }
    }
}

impl Watch {
    /// Starts to watch a prefix.
    pub fn new(base: &str, prefix: &str) -> (watch: Watch)
        ensures
            watch@ == WatchSpec::start(base@, prefix@),
    {
        Watch { prefix: base.to_owned(), key: concatenated(base, prefix), phase: WatchPhase::Asking }
    }

    /// What is to be done next.
    pub fn action(&self) -> (action: WatchAction)
        ensures
            self@.wants(action),
    {
        match self.phase {
            WatchPhase::Asking => WatchAction::AskOffline,
            WatchPhase::Opening => WatchAction::Open(
                WatchRequest { key: self.key.clone(), range: Range::Prefix },
            ),
            WatchPhase::Pausing => WatchAction::Pause(1),
            WatchPhase::Reading => WatchAction::Read,
            WatchPhase::Stopped => WatchAction::Stop,
        }
    }

    /// Takes what came of the action.
    pub fn step(&mut self, signal: WatchSignal)
        requires
            old(self)@.phase.expects(signal),
        ensures
            final(self)@ == old(self)@.next(signal),
    {
        self.phase = match signal {
            WatchSignal::Offline(offline) => if offline {
                WatchPhase::Stopped
            } else {
                WatchPhase::Opening
            },
            WatchSignal::Opened(opened) => if opened {
                WatchPhase::Reading
            } else {
                WatchPhase::Pausing
            },
            WatchSignal::Paused => WatchPhase::Asking,
            WatchSignal::Read(read) => if read {
                WatchPhase::Reading
            } else {
                WatchPhase::Asking
            },
        };
    }

    /// Whether a change can be handed on.
    pub fn deliverable(&self, event: &StoreEvent) -> (ok: bool)
        ensures
            ok == event.deliverable(self@.prefix),
    {
        match &event.kv {
            None => false,
            Some(kv) => match from_utf8(kv.key.as_slice()) {
                None => false,
                Some(text) => {
                    proof {
                        encode_utf8_decode_utf8(text@);
                    }
                    starts_with(text, self.prefix.as_str())
                },
            },
        }
    }

    /// A change as callers see it.
    pub fn event(&self, event: &StoreEvent) -> (seen: Event)
        requires
            event.deliverable(self@.prefix),
        ensures
            seen.tells(*event, self@.prefix),
            match event.event_type {
                EventType::Put => {
                    &&& seen matches Event::Put(data)
                    &&& encode_utf8(self@.prefix + data.key@) == event.kv->0.key@
                    &&& data.value matches Some(bytes)
                    &&& bytes_of(bytes) == event.kv->0.value@
                },
                EventType::Delete => {
                    &&& seen matches Event::Delete(data)
                    &&& encode_utf8(self@.prefix + data.key@) == event.kv->0.key@
                    &&& data.value is None
                },
            },
    {
        let kv: &KeyValue = event.kv.as_ref().unwrap();
        let text: &str = from_utf8(kv.key.as_slice()).unwrap();
        proof {
            encode_utf8_decode_utf8(text@);
        }
        let key: String = strip_prefix(text, self.prefix.as_str()).to_owned();
        match event.event_type {
            EventType::Put => Event::Put(
                EventData { key, value: Some(to_bytes(kv.value.clone())) },
            ),
            EventType::Delete => Event::Delete(EventData { key, value: None }),
        }
    }

    /// The changes of a message as callers see them, up to the first one that cannot be handed
    /// on.
    pub fn events(&self, events: &Vec<StoreEvent>) -> (seen: Vec<Event>)
        ensures
            seen@.len() == leading_deliverable(events@, self@.prefix),
            forall|i: int|
                0 <= i < seen@.len() ==> (#[trigger] seen@[i]).tells(events@[i], self@.prefix),
    {
        let mut seen: Vec<Event> = Vec::new();
        let ghost n = leading_deliverable(events@, self@.prefix);
        proof {
            lemma_leading_deliverable(events@, self@.prefix);
        }
        let mut i: usize = 0;
        while i < events.len()
            invariant
                n == leading_deliverable(events@, self@.prefix) <= events@.len(),
                i <= n,
                seen@.len() == i,
                n < events@.len() ==> !events@[n as int].deliverable(self@.prefix),
                forall|j: int| 0 <= j < n ==> (#[trigger] events@[j]).deliverable(self@.prefix),
                forall|j: int|
                    0 <= j < seen@.len() ==> (#[trigger] seen@[j]).tells(events@[j], self@.prefix),
            decreases events@.len() - i,
        {
            if !self.deliverable(&events[i]) {
                return seen;
            }
            let event: Event = self.event(&events[i]);
            seen.push(event);
            i += 1;
        }
        seen
    }
}

} // verus!
