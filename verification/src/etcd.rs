//! The key-value store: which requests its operations make and what the replies mean.

use crate::config::EtcdConfig;
use crate::error::{DbError, Error};
use crate::listing::{KeyListing, Listing, ReadingSpec, ValueListing};
use crate::outside::{bytes_of, to_bytes};
use crate::request::{
    pairs, DeleteRequest, GetRequest, GetSpec, KeyValue, Pair, PutRequest, Range,
};
use crate::text::{concatenated, lemma_trim_end, trim_end, trim_end_matches};
use crate::watch::{Watch, WatchSpec};
use bytes::Bytes;
use vstd::prelude::*;

verus! {

/// A store that keeps its keys under a prefix. Callers name keys without it.
pub struct Etcd {
    prefix: String,
}

/// What the store holds and how large it is.
#[derive(Debug, Clone, Copy, PartialEq, Eq, Structural)]
pub struct Stats {
    pub bytes_len: i64,
    pub keys_count: i64,
}

impl View for Etcd {
    type V = Seq<char>;

    /// The prefix of the store.
    closed spec fn view(&self) -> Seq<char> {
        self.prefix@
    }
}

/// A key as the store knows it.
pub open spec fn full_key(prefix: Seq<char>, key: Seq<char>) -> Seq<char> {
    prefix + key
}

/// A request for the value under a key.
pub open spec fn get_spec(prefix: Seq<char>, key: Seq<char>) -> GetSpec {
    GetSpec {
        key: full_key(prefix, key),
        range: Range::Exact,
        ascending: false,
        limit: 0,
        count_only: false,
    }
}

/// A request for the number of keys under a prefix.
pub open spec fn count_spec(base: Seq<char>, prefix: Seq<char>) -> GetSpec {
    GetSpec {
        key: full_key(base, prefix),
        range: Range::Prefix,
        ascending: false,
        limit: 0,
        count_only: true,
    }
}

/// A request for the number of keys in the store.
pub open spec fn stats_spec() -> GetSpec {
    GetSpec {
        key: Seq::empty(),
        range: Range::All,
        ascending: false,
        limit: 0,
        count_only: true,
    }
}

/// The value that a reply holds: that of the first pair.
pub open spec fn first_value(reply: Seq<Pair>) -> Option<Seq<u8>> {
    if reply.len() == 0 {
        None
    } else {
        Some(reply[0].value)
    }
}

/// The range that a removal is about.
pub open spec fn delete_range(with_prefix: bool) -> Range {
    if with_prefix {
        Range::Prefix
    } else {
        Range::Exact
    }
}

impl Etcd {
    /// The prefix does not end in a slash.
    pub open spec fn wf(&self) -> bool {
        self@.len() > 0 ==> self@.last() != '/'
    }

    /// A store under a prefix. Slashes at the end of the prefix are dropped.
    pub fn new(prefix: &str) -> (etcd: Etcd)
        ensures
            etcd@ == trim_end(prefix@, '/'),
            etcd.wf(),
    {
        proof {
            lemma_trim_end(prefix@, '/');
        }
        Etcd { prefix: trim_end_matches(prefix, '/') }
    }

    /// The store under the prefix that the settings name.
    pub fn default(config: &EtcdConfig) -> (etcd: Etcd)
        ensures
            etcd@ == trim_end(config.prefix@, '/'),
            etcd.wf(),
    {
        Etcd::new(config.prefix.as_str())
    }

    /// The prefix of the store.
    pub fn prefix(&self) -> (prefix: &str)
        ensures
            prefix@ == self@,
    {
        self.prefix.as_str()
    }

    /// A key as the store knows it.
    pub fn key(&self, key: &str) -> (full: String)
        ensures
            full@ == full_key(self@, key@),
            full@ == self@ + key@,
    {
        concatenated(self.prefix.as_str(), key)
    }

    /// Prepares the store, which takes nothing.
    pub fn create_table(&self) -> (done: Result<(), Error>)
        ensures
            done is Ok,
    {
        Ok(())
    }

    /// Takes leave of the store, which takes nothing.
    pub fn close(&self) -> (done: Result<(), Error>)
        ensures
            done is Ok,
    {
        Ok(())
    }

    /// Asks how many keys there are in the store.
    pub fn stats(&self) -> (request: GetRequest)
        ensures
            request@ == stats_spec(),
            request.key@.len() == 0,
            request.range == Range::All,
            request.count_only,
    {
        GetRequest {
            key: String::new(),
            range: Range::All,
            ascending: false,
            limit: 0,
            count_only: true,
        }
    }

    /// The statistics that the size of the database and the number of keys make.
    pub fn stats_reply(&self, db_size: i64, count: i64) -> (stats: Stats)
        ensures
            stats == (Stats { bytes_len: db_size, keys_count: count }),
    {
        Stats { bytes_len: db_size, keys_count: count }
    }

    /// Asks for the value under a key.
    pub fn get(&self, key: &str) -> (request: GetRequest)
        ensures
            request@ == get_spec(self@, key@),
            request.key@ == self@ + key@,
            request.range == Range::Exact,
            request.limit == 0,
            !request.count_only,
    {
        GetRequest {
            key: self.key(key),
            range: Range::Exact,
            ascending: false,
            limit: 0,
            count_only: false,
        }
    }

    /// The value that the reply to [`Etcd::get`] holds, or that there is none.
    pub fn get_reply(&self, key: &str, kvs: &Vec<KeyValue>) -> (value: Result<Bytes, Error>)
        ensures
            match value {
                Ok(bytes) => {
                    &&& first_value(pairs(kvs@)) == Some(bytes_of(bytes))
                    &&& kvs@.len() > 0
                    &&& bytes_of(bytes) == kvs@[0].value@
                },
                Err(error) => {
                    &&& first_value(pairs(kvs@)) is None
                    &&& kvs@.len() == 0
                    &&& error matches Error::DbError(DbError::KeyNotExists(missing))
                    &&& missing@ == full_key(self@, key@)
                    &&& missing@ == self@ + key@
                },
            },
    {
        if kvs.len() == 0 {
            return Err(Error::DbError(DbError::KeyNotExists(self.key(key))));
        }
        Ok(to_bytes(kvs[0].value.clone()))
    }

    /// Asks to store a value under a key.
    pub fn put(&self, key: &str, value: Bytes, _need_watch: bool) -> (request: PutRequest)
        ensures
            request.key@ == full_key(self@, key@),
            request.key@ == self@ + key@,
            request.value == value,
    {
        PutRequest { key: self.key(key), value }
    }

    /// Asks to remove a key, or every key that begins with it.
    pub fn delete(&self, key: &str, with_prefix: bool, _need_watch: bool) -> (request: DeleteRequest)
        ensures
            request.key@ == full_key(self@, key@),
            request.key@ == self@ + key@,
            request.range == delete_range(with_prefix),
            with_prefix <==> request.range == Range::Prefix,
            !with_prefix <==> request.range == Range::Exact,
    {
        DeleteRequest {
            key: self.key(key),
            range: if with_prefix {
                Range::Prefix
            } else {
                Range::Exact
            },
        }
    }

    /// Starts to read every key under a prefix together with its value.
    pub fn list(&self, prefix: &str, page_size: i64) -> (listing: Listing)
        ensures
            listing@ == ReadingSpec::start(self@, prefix@, page_size as int),
            listing.wf(),
    {
        Listing::new(self.prefix.as_str(), prefix, page_size)
    }

    /// Starts to read every key under a prefix.
    pub fn list_keys(&self, prefix: &str, page_size: i64) -> (listing: KeyListing)
        ensures
            listing@ == ReadingSpec::start(self@, prefix@, page_size as int),
            listing.wf(),
    {
        KeyListing::new(self.prefix.as_str(), prefix, page_size)
    }

    /// Starts to read the value of every key under a prefix.
    pub fn list_values(&self, prefix: &str, page_size: i64) -> (listing: ValueListing)
        ensures
            listing@ == ReadingSpec::start(self@, prefix@, page_size as int),
            listing.wf(),
    {
        ValueListing::new(self.prefix.as_str(), prefix, page_size)
    }

    /// Starts to follow the changes under a prefix.
    pub fn watch(&self, prefix: &str) -> (watch: Watch)
        ensures
            watch@ == WatchSpec::start(self@, prefix@),
    {
        Watch::new(self.prefix.as_str(), prefix)
    }

    /// Asks how many keys there are under a prefix.
    pub fn count(&self, prefix: &str) -> (request: GetRequest)
        ensures
            request@ == count_spec(self@, prefix@),
            request.key@ == self@ + prefix@,
            request.range == Range::Prefix,
            request.count_only,
    {
        GetRequest {
            key: self.key(prefix),
            range: Range::Prefix,
            ascending: false,
            limit: 0,
            count_only: true,
        }
    }
}

/// Prepares the store, which takes nothing.
pub fn create_table() -> (done: Result<(), Error>)
    ensures
        done is Ok,
{
    Ok(())
}

} // verus!
