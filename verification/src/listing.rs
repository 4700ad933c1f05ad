//! Reading everything under a prefix, one page at a time.
//!
//! The store hands out at most a page of keys at once. The first page is asked for by the
//! prefix; every further page is asked for from the last key seen onwards, so that key comes
//! a second time and is passed over. Reading ends with a page that is not full, or with the
//! first key that lies outside the prefix.

use crate::outside::{bytes_of, entries_of, from_utf8, map_insert, new_map, to_bytes};
use crate::request::{pairs, GetRequest, GetSpec, KeyValue, Pair, Range};
use crate::text::{concatenated, equal, starts_with, strip_prefix, texts};
use bytes::Bytes;
use vstd::prelude::*;
use vstd::utf8::*;

verus! {

/// A key as the caller knows it, without the prefix of the store, and its value.
#[derive(Debug, PartialEq, Eq)]
pub struct Entry {
    pub key: String,
    pub value: Bytes,
}

/// What an [`Entry`] holds.
pub struct EntrySpec {
    pub key: Seq<char>,
    pub value: Seq<u8>,
}

impl View for Entry {
    type V = EntrySpec;

    open spec fn view(&self) -> EntrySpec {
        EntrySpec { key: self.key@, value: bytes_of(self.value) }
    }
}

/// What a list of entries holds.
pub open spec fn entries(list: Seq<Entry>) -> Seq<EntrySpec> {
    list.map_values(|e: Entry| e@)
}

/// How many pairs at the start of a page lie under a prefix.
pub open spec fn leading(page: Seq<Pair>, prefix: Seq<char>) -> nat
    decreases page.len(),
{
    if page.len() > 0 && page[0].under(prefix) {
        1 + leading(page.drop_first(), prefix)
    } else {
        0
    }
}

/// The pairs counted by [`leading`] lie under the prefix and the one behind them does not.
pub proof fn lemma_leading(page: Seq<Pair>, prefix: Seq<char>)
    ensures
        leading(page, prefix) <= page.len(),
        forall|i: int| 0 <= i < leading(page, prefix) ==> (#[trigger] page[i]).under(prefix),
        leading(page, prefix) < page.len() ==> !page[leading(page, prefix) as int].under(prefix),
    decreases page.len(),
{
    if page.len() > 0 && page[0].under(prefix) {
        let rest = page.drop_first();
        lemma_leading(rest, prefix);
        assert forall|i: int| 0 <= i < leading(page, prefix) implies (#[trigger] page[i]).under(
            prefix,
        ) by {
            if i > 0 {
                assert(rest[i - 1].under(prefix));
            }
        }
    }
}

/// Only one count has that property.
pub proof fn lemma_leading_unique(page: Seq<Pair>, prefix: Seq<char>, n: int)
    requires
        0 <= n <= page.len(),
        forall|i: int| 0 <= i < n ==> (#[trigger] page[i]).under(prefix),
        n < page.len() ==> !page[n].under(prefix),
    ensures
        leading(page, prefix) == n,
{
    lemma_leading(page, prefix);
    let m = leading(page, prefix) as int;
    if m < n {
        assert(page[m].under(prefix));
    } else if n < m {
        assert(page[n].under(prefix));
    }
}

/// Where the reading of a prefix stands.
pub struct CursorSpec {
    /// The prefix of the store, which callers do not see.
    pub base: Seq<char>,
    /// The prefix that is read, as the store knows it.
    pub key: Seq<char>,
    pub page_size: int,
    /// Whether the next page is asked for from the last key seen.
    pub from_key: bool,
    /// The last key seen; empty before the second page.
    pub last: Seq<char>,
    /// Whether everything has been read.
    pub done: bool,
}

impl CursorSpec {
    /// The start of reading.
    pub open spec fn start(base: Seq<char>, prefix: Seq<char>, page_size: int) -> CursorSpec {
        CursorSpec {
            base,
            key: base + prefix,
            page_size,
            from_key: false,
            last: Seq::empty(),
            done: false,
        }
    }

    /// The prefix that is read lies under the prefix of the store.
    pub open spec fn wf(self) -> bool {
        self.base.is_prefix_of(self.key)
    }

    /// The request for the next page.
    pub open spec fn request(self) -> GetSpec {
        GetSpec {
            key: if self.from_key {
                self.last
            } else {
                self.key
            },
            range: if self.from_key {
                Range::FromKey
            } else {
                Range::Prefix
            },
            ascending: true,
            limit: self.page_size,
            count_only: false,
        }
    }

    /// Whether a page can be read: every key that has to be looked at is text, and there is a
    /// last key to go on from where another page is due.
    pub open spec fn accepts(self, page: Seq<Pair>) -> bool {
        &&& forall|i: int|
            0 <= i < page.len() && i <= leading(page, self.key) ==> (#[trigger] page[i]).text()
                is Some
        &&& page.len() == 0 ==> self.page_size > 0
    }

    /// Whether another page is due behind this one.
    pub open spec fn goes_on(self, page: Seq<Pair>) -> bool {
        page.len() >= self.page_size && leading(page, self.key) == page.len()
    }

    /// The pairs that a page adds.
    pub open spec fn fresh(self, page: Seq<Pair>) -> Seq<Pair> {
        page.take(leading(page, self.key) as int).filter(|p: Pair| p.text() != Some(self.last))
    }

    /// A pair as the caller sees it.
    pub open spec fn entry(self, pair: Pair) -> EntrySpec {
        EntrySpec {
            key: pair.text()->0.skip(self.base.len() as int),
            value: pair.value,
        }
    }

    /// The entries that a page adds.
    pub open spec fn found_in(self, page: Seq<Pair>) -> Seq<EntrySpec> {
        self.fresh(page).map_values(|p: Pair| self.entry(p))
    }

    /// Where reading stands behind a page.
    pub open spec fn next(self, page: Seq<Pair>) -> CursorSpec {
        if self.goes_on(page) {
            CursorSpec { from_key: true, last: page.last().text()->0, ..self }
        } else {
            CursorSpec { done: true, ..self }
        }
    }
}

/// Where the reading of a prefix stands.
pub struct Cursor {
    base: String,
    key: String,
    page_size: i64,
    from_key: bool,
    last: String,
    done: bool,
}

impl View for Cursor {
    type V = CursorSpec;

    closed spec fn view(&self) -> CursorSpec {
        CursorSpec {
            base: self.base@,
            key: self.key@,
            page_size: self.page_size as int,
            from_key: self.from_key,
            last: self.last@,
            done: self.done,
        }
    }
}

impl Cursor {
    /// Starts to read a prefix.
    pub fn new(base: &str, prefix: &str, page_size: i64) -> (cursor: Cursor)
        ensures
            cursor@ == CursorSpec::start(base@, prefix@, page_size as int),
            cursor@.wf(),
    {
        let cursor = Cursor {
            base: base.to_owned(),
            key: concatenated(base, prefix),
            page_size,
            from_key: false,
            last: String::new(),
            done: false,
        };
        assert(base@ =~= (base@ + prefix@).subrange(0, base@.len() as int));
        cursor
    }

    /// Whether everything has been read.
    pub fn is_done(&self) -> (done: bool)
        ensures
            done == self@.done,
    {
        self.done
    }

    /// The request for the next page.
    pub fn request(&self) -> (request: GetRequest)
        ensures
            request@ == self@.request(),
            request.limit == self@.page_size,
            request.ascending,
            !request.count_only,
    {
        GetRequest {
            key: if self.from_key {
                self.last.clone()
            } else {
                self.key.clone()
            },
            range: if self.from_key {
                Range::FromKey
            } else {
                Range::Prefix
            },
            ascending: true,
            limit: self.page_size,
            count_only: false,
        }
    }

    /// Whether a page can be read.
    pub fn accepts(&self, page: &Vec<KeyValue>) -> (accepted: bool)
        ensures
            accepted == self@.accepts(pairs(page@)),
    {
        let ghost list = pairs(page@);
        let ghost n = leading(list, self@.key);
        proof {
            lemma_leading(list, self@.key);
        }
        if page.len() == 0 {
            return self.page_size > 0;
        }
        let mut i: usize = 0;
        while i < page.len()
            invariant
                list == pairs(page@),
                n == leading(list, self@.key) <= list.len(),
                i <= n,
                page@.len() > 0,
                n < list.len() ==> !list[n as int].under(self@.key),
                forall|j: int| 0 <= j < n ==> (#[trigger] list[j]).under(self@.key),
                forall|j: int| 0 <= j < i ==> (#[trigger] list[j]).text() is Some,
            decreases page@.len() - i,
        {
            let text = from_utf8(page[i].key.as_slice());
            assert(list[i as int] == page@[i as int]@);
            match text {
                None => {
                    assert(list[i as int].text() is None);
                    return false;
                },
                Some(t) => {
                    proof {
                        encode_utf8_decode_utf8(t@);
                        assert(list[i as int].text() == Some(t@));
                    }
                    if !starts_with(t, self.key.as_str()) {
                        assert(i == n);
                        return true;
                    }
                },
            }
            i += 1;
        }
        true
    }

    /// Reads a page: hands out the entries that it adds and moves on.
    pub fn scan(&mut self, page: &Vec<KeyValue>) -> (found: Vec<Entry>)
        requires
            old(self)@.wf(),
            !old(self)@.done,
            old(self)@.accepts(pairs(page@)),
        ensures
            entries(found@) == old(self)@.found_in(pairs(page@)),
            final(self)@ == old(self)@.next(pairs(page@)),
            final(self)@.wf(),
    {
        let ghost list = pairs(page@);
        let ghost cursor = self@;
        let ghost n = leading(list, cursor.key);
        let ghost is_fresh = |p: Pair| p.text() != Some(cursor.last);
        let ghost as_entry = |p: Pair| cursor.entry(p);
        proof {
            lemma_leading(list, cursor.key);
        }
        let mut found: Vec<Entry> = Vec::new();
        let mut outside: bool = false;
        let mut i: usize = 0;
        assert(list.take(0).filter(is_fresh).map_values(as_entry) =~= Seq::<EntrySpec>::empty()) by {
            reveal(Seq::filter);
        }
        assert(entries(found@) =~= Seq::<EntrySpec>::empty());
        while i < page.len() && !outside
            invariant
                list == pairs(page@),
                self@ == cursor,
                cursor.wf(),
                cursor.accepts(list),
                n == leading(list, cursor.key) <= list.len(),
                i <= n,
                outside ==> i == n && n < list.len(),
                n < list.len() ==> !list[n as int].under(cursor.key),
                forall|j: int| 0 <= j < n ==> (#[trigger] list[j]).under(cursor.key),
                is_fresh == (|p: Pair| p.text() != Some(cursor.last)),
                as_entry == (|p: Pair| cursor.entry(p)),
                entries(found@) == list.take(i as int).filter(is_fresh).map_values(as_entry),
            decreases
                page@.len() - i,
                (if outside {
                    0int
                } else {
                    1int
                }),
        {
            let ghost pair = list[i as int];
            assert(pair == page@[i as int]@);
            assert(pair.text() is Some);
            match from_utf8(page[i].key.as_slice()) {
                None => {
                    outside = true;
                },
                Some(text) => {
                    proof {
                        encode_utf8_decode_utf8(text@);
                        assert(pair.text() == Some(text@));
                    }
                    if !starts_with(text, self.key.as_str()) {
                        outside = true;
                    } else {
                        let ghost before = list.take(i as int);
                        let ghost earlier = found@;
                        proof {
                            assert(list.take(i + 1) =~= before.push(pair));
                            assert(list.take(i + 1).drop_last() =~= before);
                            reveal(Seq::filter);
                        }
                        if !equal(text, self.last.as_str()) {
                            proof {
                                lemma_prefix_of_prefix(cursor.base, cursor.key, text@);
                            }
                            let entry = Entry {
                                key: strip_prefix(text, self.base.as_str()).to_owned(),
                                value: to_bytes(page[i].value.clone()),
                            };
                            assert(entry@ == cursor.entry(pair));
                            found.push(entry);
                            assert(entries(found@) =~= entries(earlier).push(cursor.entry(pair)));
                            assert(before.push(pair).filter(is_fresh) =~= before.filter(is_fresh).push(pair));
                            assert(before.filter(is_fresh).push(pair).map_values(as_entry)
                                =~= before.filter(is_fresh).map_values(as_entry).push(cursor.entry(pair)));
                        } else {
                            assert(before.push(pair).filter(is_fresh) =~= before.filter(is_fresh));
                        }
                        i += 1;
                    }
                },
            }
        }
        assert(i == n);
        let full: bool = self.page_size <= 0 || page.len() as u64 >= self.page_size as u64;
        if outside || !full {
            self.done = true;
        } else {
            let ghost pair = list.last();
            assert(pair == page@[page@.len() - 1]@);
            assert(pair.text() is Some);
            if let Some(text) = from_utf8(page[page.len() - 1].key.as_slice()) {
                proof {
                    encode_utf8_decode_utf8(text@);
                    assert(pair.text() == Some(text@));
                }
                self.last = text.to_owned();
                self.from_key = true;
            }
        }
        found
    }
}

/// A prefix of a prefix is a prefix.
proof fn lemma_prefix_of_prefix(a: Seq<char>, b: Seq<char>, c: Seq<char>)
    requires
        a.is_prefix_of(b),
        b.is_prefix_of(c),
    ensures
        a.is_prefix_of(c),
{
    assert(c.subrange(0, b.len() as int).subrange(0, a.len() as int) =~= c.subrange(0, a.len() as int));
}

/// What the reading of a prefix has come to.
pub struct ReadingSpec {
    pub cursor: CursorSpec,
    /// Everything read so far, in the order in which it came.
    pub entries: Seq<EntrySpec>,
}

impl ReadingSpec {
    /// The start of reading.
    pub open spec fn start(base: Seq<char>, prefix: Seq<char>, page_size: int) -> ReadingSpec {
        ReadingSpec {
            cursor: CursorSpec::start(base, prefix, page_size),
            entries: Seq::empty(),
        }
    }

    /// What reading comes to with one more page.
    pub open spec fn next(self, page: Seq<Pair>) -> ReadingSpec {
        ReadingSpec {
            cursor: self.cursor.next(page),
            entries: self.entries + self.cursor.found_in(page),
        }
    }
}

/// The keys of entries, in order.
pub open spec fn keys_of(list: Seq<EntrySpec>) -> Seq<Seq<char>> {
    list.map_values(|e: EntrySpec| e.key)
}

/// The values of entries, in order.
pub open spec fn values_of(list: Seq<EntrySpec>) -> Seq<Seq<u8>> {
    list.map_values(|e: EntrySpec| e.value)
}

/// Entries as a map; where a key occurs twice, the later entry counts.
pub open spec fn map_of(list: Seq<EntrySpec>) -> Map<Seq<char>, Seq<u8>>
    decreases list.len(),
{
    if list.len() == 0 {
        Map::empty()
    } else {
        map_of(list.drop_last()).insert(list.last().key, list.last().value)
    }
}

/// One more entry is one more key, one more value and one more place in the map.
proof fn lemma_one_more(read: Seq<EntrySpec>, added: Seq<EntrySpec>, i: int)
    requires
        0 <= i < added.len(),
    ensures
        keys_of(read + added.take(i + 1)) == keys_of(read + added.take(i)).push(added[i].key),
        values_of(read + added.take(i + 1)) == values_of(read + added.take(i)).push(added[i].value),
        map_of(read + added.take(i + 1)) == map_of(read + added.take(i)).insert(
            added[i].key,
            added[i].value,
        ),
{
    let some = read + added.take(i);
    assert(read + added.take(i + 1) =~= some.push(added[i]));
    assert(some.push(added[i]).drop_last() =~= some);
    assert(keys_of(some.push(added[i])) =~= keys_of(some).push(added[i].key));
    assert(values_of(some.push(added[i])) =~= values_of(some).push(added[i].value));
}

/// Entries are added from none of them to all of them.
proof fn lemma_none_and_all(read: Seq<EntrySpec>, added: Seq<EntrySpec>)
    ensures
        read + added.take(0) == read,
        read + added.take(added.len() as int) == read + added,
{
    assert(read + added.take(0) =~= read);
    assert(added.take(added.len() as int) =~= added);
}

/// Where the reading of a prefix is, and what it has found. What is kept of the entries is up to
/// the listing that it serves.
struct Reading {
    cursor: Cursor,
    read: Ghost<Seq<EntrySpec>>,
}

impl View for Reading {
    type V = ReadingSpec;

    closed spec fn view(&self) -> ReadingSpec {
        ReadingSpec { cursor: self.cursor@, entries: self.read@ }
    }
}

impl Reading {
    /// Starts to read a prefix.
    fn new(base: &str, prefix: &str, page_size: i64) -> (reading: Reading)
        ensures
            reading@ == ReadingSpec::start(base@, prefix@, page_size as int),
            reading@.cursor.wf(),
    {
        Reading { cursor: Cursor::new(base, prefix, page_size), read: Ghost(Seq::empty()) }
    }

    /// Reads a page; the entries that it adds are handed out.
    fn scan(&mut self, page: &Vec<KeyValue>) -> (found: Vec<Entry>)
        requires
            old(self)@.cursor.wf(),
            !old(self)@.cursor.done,
            old(self)@.cursor.accepts(pairs(page@)),
        ensures
            final(self)@ == old(self)@.next(pairs(page@)),
            final(self)@.cursor.wf(),
            final(self)@.entries == old(self)@.entries + entries(found@),
    {
        let found: Vec<Entry> = self.cursor.scan(page);
        self.read = Ghost(self.read@ + entries(found@));
        found
    }
}

/// Reads everything under a prefix into a map from key to value.
pub struct Listing {
    reading: Reading,
    map: ahash::HashMap<String, Bytes>,
}

impl View for Listing {
    type V = ReadingSpec;

    closed spec fn view(&self) -> ReadingSpec {
        self.reading@
    }
}

impl Listing {
    /// The map holds what has been read.
    pub closed spec fn wf(&self) -> bool {
        &&& self.reading@.cursor.wf()
        &&& entries_of(self.map) == map_of(self.reading@.entries)
    }

    /// Starts to read a prefix.
    pub fn new(base: &str, prefix: &str, page_size: i64) -> (listing: Listing)
        ensures
            listing@ == ReadingSpec::start(base@, prefix@, page_size as int),
            listing.wf(),
    {
        Listing { reading: Reading::new(base, prefix, page_size), map: new_map() }
    }

    /// Whether everything has been read.
    pub fn is_done(&self) -> (done: bool)
        ensures
            done == self@.cursor.done,
    {
        self.reading.cursor.is_done()
    }

    /// The request for the next page.
    pub fn request(&self) -> (request: GetRequest)
        ensures
            request@ == self@.cursor.request(),
            request.limit == self@.cursor.page_size,
            request.ascending,
            !request.count_only,
    {
        self.reading.cursor.request()
    }

    /// Whether a page can be read.
    pub fn accepts(&self, page: &Vec<KeyValue>) -> (accepted: bool)
        ensures
            accepted == self@.cursor.accepts(pairs(page@)),
    {
        self.reading.cursor.accepts(page)
    }

    /// Reads a page.
    pub fn read(&mut self, page: &Vec<KeyValue>)
        requires
            old(self).wf(),
            !old(self)@.cursor.done,
            old(self)@.cursor.accepts(pairs(page@)),
        ensures
            final(self)@ == old(self)@.next(pairs(page@)),
            final(self).wf(),
    {
        let found: Vec<Entry> = self.reading.scan(page);
        let ghost listed = found@;
        let ghost added = entries(listed);
        let ghost read = old(self)@.entries;
        proof {
            lemma_none_and_all(read, added);
        }
        for entry in it: found
            invariant
                self.reading@ == old(self)@.next(pairs(page@)),
                it.seq() == listed,
                added == entries(listed),
                entries_of(self.map) == map_of(read + added.take(it.index() as int)),
        {
            proof {
                lemma_one_more(read, added, it.index() as int);
            }
            map_insert(&mut self.map, entry.key, entry.value);
        }
    }

    /// What has been read: every key leads to its value.
    pub fn finish(self) -> (map: ahash::HashMap<String, Bytes>)
        requires
            self.wf(),
        ensures
            entries_of(map) == map_of(self@.entries),
    {
        self.map
    }
}

/// Reads the keys under a prefix.
pub struct KeyListing {
    reading: Reading,
    keys: Vec<String>,
}

impl View for KeyListing {
    type V = ReadingSpec;

    closed spec fn view(&self) -> ReadingSpec {
        self.reading@
    }
}

impl KeyListing {
    /// The list holds the keys of what has been read.
    pub closed spec fn wf(&self) -> bool {
        &&& self.reading@.cursor.wf()
        &&& texts(self.keys@) == keys_of(self.reading@.entries)
    }

    /// Starts to read a prefix.
    pub fn new(base: &str, prefix: &str, page_size: i64) -> (listing: KeyListing)
        ensures
            listing@ == ReadingSpec::start(base@, prefix@, page_size as int),
            listing.wf(),
    {
        let listing = KeyListing {
            reading: Reading::new(base, prefix, page_size),
            keys: Vec::new(),
        };
        assert(texts(listing.keys@) =~= keys_of(listing.reading@.entries));
        listing
    }

    /// Whether everything has been read.
    pub fn is_done(&self) -> (done: bool)
        ensures
            done == self@.cursor.done,
    {
        self.reading.cursor.is_done()
    }

    /// The request for the next page.
    pub fn request(&self) -> (request: GetRequest)
        ensures
            request@ == self@.cursor.request(),
            request.limit == self@.cursor.page_size,
            request.ascending,
            !request.count_only,
    {
        self.reading.cursor.request()
    }

    /// Whether a page can be read.
    pub fn accepts(&self, page: &Vec<KeyValue>) -> (accepted: bool)
        ensures
            accepted == self@.cursor.accepts(pairs(page@)),
    {
        self.reading.cursor.accepts(page)
    }

    /// Reads a page.
    pub fn read(&mut self, page: &Vec<KeyValue>)
        requires
            old(self).wf(),
            !old(self)@.cursor.done,
            old(self)@.cursor.accepts(pairs(page@)),
        ensures
            final(self)@ == old(self)@.next(pairs(page@)),
            final(self).wf(),
    {
        let found: Vec<Entry> = self.reading.scan(page);
        let ghost listed = found@;
        let ghost added = entries(listed);
        let ghost read = old(self)@.entries;
        proof {
            lemma_none_and_all(read, added);
        }
        for entry in it: found
            invariant
                self.reading@ == old(self)@.next(pairs(page@)),
                it.seq() == listed,
                added == entries(listed),
                texts(self.keys@) == keys_of(read + added.take(it.index() as int)),
        {
            proof {
                lemma_one_more(read, added, it.index() as int);
                assert(texts(self.keys@.push(entry.key)) =~= texts(self.keys@).push(entry.key@));
            }
            self.keys.push(entry.key);
        }
    }

    /// The keys of what has been read, in the order in which they came.
    pub fn finish(self) -> (keys: Vec<String>)
        requires
            self.wf(),
        ensures
            texts(keys@) == keys_of(self@.entries),
    {
        self.keys
    }
}

/// What a list of buffers holds.
pub open spec fn buffers(list: Seq<Bytes>) -> Seq<Seq<u8>> {
    list.map_values(|b: Bytes| bytes_of(b))
}

/// Reads the values under a prefix.
pub struct ValueListing {
    reading: Reading,
    values: Vec<Bytes>,
}

impl View for ValueListing {
    type V = ReadingSpec;

    closed spec fn view(&self) -> ReadingSpec {
        self.reading@
    }
}

impl ValueListing {
    /// The list holds the values of what has been read.
    pub closed spec fn wf(&self) -> bool {
        &&& self.reading@.cursor.wf()
        &&& buffers(self.values@) == values_of(self.reading@.entries)
    }

    /// Starts to read a prefix.
    pub fn new(base: &str, prefix: &str, page_size: i64) -> (listing: ValueListing)
        ensures
            listing@ == ReadingSpec::start(base@, prefix@, page_size as int),
            listing.wf(),
    {
        let listing = ValueListing {
            reading: Reading::new(base, prefix, page_size),
            values: Vec::new(),
        };
        assert(buffers(listing.values@) =~= values_of(listing.reading@.entries));
        listing
    }

    /// Whether everything has been read.
    pub fn is_done(&self) -> (done: bool)
        ensures
            done == self@.cursor.done,
    {
        self.reading.cursor.is_done()
    }

    /// The request for the next page.
    pub fn request(&self) -> (request: GetRequest)
        ensures
            request@ == self@.cursor.request(),
            request.limit == self@.cursor.page_size,
            request.ascending,
            !request.count_only,
    {
        self.reading.cursor.request()
    }

    /// Whether a page can be read.
    pub fn accepts(&self, page: &Vec<KeyValue>) -> (accepted: bool)
        ensures
            accepted == self@.cursor.accepts(pairs(page@)),
    {
        self.reading.cursor.accepts(page)
    }

    /// Reads a page.
    pub fn read(&mut self, page: &Vec<KeyValue>)
        requires
            old(self).wf(),
            !old(self)@.cursor.done,
            old(self)@.cursor.accepts(pairs(page@)),
        ensures
            final(self)@ == old(self)@.next(pairs(page@)),
            final(self).wf(),
    {
        let found: Vec<Entry> = self.reading.scan(page);
        let ghost listed = found@;
        let ghost added = entries(listed);
        let ghost read = old(self)@.entries;
        proof {
            lemma_none_and_all(read, added);
        }
        for entry in it: found
            invariant
                self.reading@ == old(self)@.next(pairs(page@)),
                it.seq() == listed,
                added == entries(listed),
                buffers(self.values@) == values_of(read + added.take(it.index() as int)),
        {
            proof {
                lemma_one_more(read, added, it.index() as int);
                assert(buffers(self.values@.push(entry.value)) =~= buffers(self.values@).push(
                    bytes_of(entry.value),
                ));
            }
            self.values.push(entry.value);
        }
    }

    /// The values of what has been read, in the order in which they came.
    pub fn finish(self) -> (values: Vec<Bytes>)
        requires
            self.wf(),
        ensures
            buffers(values@) == values_of(self@.entries),
    {
        self.values
    }
}

} // verus!
