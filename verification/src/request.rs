//! What the library asks of the store, and what the store hands back.

use crate::text::text_of;
use bytes::Bytes;
use vstd::prelude::*;

verus! {

/// Which keys a request is about, relative to the key that it names.
#[derive(Debug, Clone, Copy, PartialEq, Eq, Structural)]
pub enum Range {
    /// The key itself.
    Exact,
    /// Every key that begins with the key.
    Prefix,
    /// The key and every key behind it.
    FromKey,
    /// Every key in the store.
    All,
}

/// A request to read keys.
#[derive(Debug, PartialEq, Eq)]
pub struct GetRequest {
    pub key: String,
    pub range: Range,
    /// Whether the keys are to come in ascending order.
    pub ascending: bool,
    /// At most so many keys are wanted; zero sets no limit.
    pub limit: i64,
    /// Whether only the number of keys is wanted.
    pub count_only: bool,
}

/// What a [`GetRequest`] asks for.
pub struct GetSpec {
    pub key: Seq<char>,
    pub range: Range,
    pub ascending: bool,
    pub limit: int,
    pub count_only: bool,
}

impl View for GetRequest {
    type V = GetSpec;

    open spec fn view(&self) -> GetSpec {
        GetSpec {
            key: self.key@,
            range: self.range,
            ascending: self.ascending,
            limit: self.limit as int,
            count_only: self.count_only,
        }
    }
}

/// A request to store a value under a key.
#[derive(Debug, PartialEq, Eq)]
pub struct PutRequest {
    pub key: String,
    pub value: Bytes,
}

/// A request to remove keys.
#[derive(Debug, PartialEq, Eq)]
pub struct DeleteRequest {
    pub key: String,
    pub range: Range,
}

/// A request to be told of changes.
#[derive(Debug, PartialEq, Eq)]
pub struct WatchRequest {
    pub key: String,
    pub range: Range,
}

/// A key of the store and its value, both as the store holds them.
#[derive(Debug, PartialEq, Eq)]
pub struct KeyValue {
    pub key: Vec<u8>,
    pub value: Vec<u8>,
}

/// What a [`KeyValue`] holds.
pub struct Pair {
    pub key: Seq<u8>,
    pub value: Seq<u8>,
}

impl View for KeyValue {
    type V = Pair;

    open spec fn view(&self) -> Pair {
        Pair { key: self.key@, value: self.value@ }
    }
}

impl Pair {
    /// The key as text, if it is text.
    pub open spec fn text(self) -> Option<Seq<char>> {
        text_of(self.key)
    }

    /// Whether the key is text that begins with a prefix.
    pub open spec fn under(self, prefix: Seq<char>) -> bool {
        self.text() is Some && prefix.is_prefix_of(self.text()->0)
    }
}

/// What a list of keys and values holds.
pub open spec fn pairs(kvs: Seq<KeyValue>) -> Seq<Pair> {
    kvs.map_values(|kv: KeyValue| kv@)
}

} // verus!
