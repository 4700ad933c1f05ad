//! What comes back out of a store through the operations, once it has answered their requests.
//!
//! `call_ensures(f, arguments, result)` says that a call of `f` with the arguments may give the
//! result.

use crate::error::Error;
use crate::etcd::Etcd;
use crate::laws::data::{
    holds, law_count_counts_keys, law_get_after_delete, law_get_after_put,
    law_get_finds_what_is_stored, law_stats_count_everything, removes, stored_under, stored_value,
};
use crate::laws::listing::{
    can_list, law_keys_and_values_in_order, law_list_is_complete, readable, reading,
};
use crate::laws::paging::{
    begins, due, law_page_size_is_the_limit, law_pages_follow_each_other,
    law_which_pages_can_be_read, read_pages,
};
use crate::listing::{map_of, EntrySpec, KeyListing, Listing, ReadingSpec, ValueListing};
use crate::outside::{bytes_of, entries_of};
use crate::request::{pairs, DeleteRequest, GetRequest, KeyValue, Pair, PutRequest, Range};
use crate::store::{after_delete, after_put, answer, before, count, lists};
use bytes::Bytes;
use vstd::prelude::*;
use vstd::utf8::*;

verus! {

// ---------------------------------------------------------------------------------------
// Values
// ---------------------------------------------------------------------------------------

/// Whether a get gave a value, or that there is none.
pub open spec fn gave(value: Result<Bytes, Error>, wanted: Option<Seq<u8>>) -> bool {
    match wanted {
        Some(content) => value matches Ok(bytes) && bytes_of(bytes) == content,
        None => value is Err,
    }
}

/// A get gives what the store holds under the key, byte for byte, and an error exactly where it
/// holds nothing.
pub proof fn law_get_gives_what_is_stored(
    etcd: Etcd,
    shown: &str,
    key: &str,
    request: GetRequest,
    list: Seq<Pair>,
    contents: Map<Seq<u8>, Seq<u8>>,
    kvs: Vec<KeyValue>,
    value: Result<Bytes, Error>,
)
    requires
        call_ensures(Etcd::prefix, (&etcd,), shown),
        call_ensures(Etcd::get, (&etcd, key), request),
        lists(list, contents),
        pairs(kvs@) == answer(list, request@),
        call_ensures(Etcd::get_reply, (&etcd, key, &kvs), value),
    ensures
        gave(value, stored_value(contents, shown@, key@)),
{
    law_get_finds_what_is_stored(list, contents, shown@, key@);
}

/// A get behind a put gives the bytes that were put, and under every other key what it would have
/// given before.
pub proof fn law_get_gives_what_was_put(
    etcd: Etcd,
    shown: &str,
    key: &str,
    value: Bytes,
    need_watch: bool,
    put: PutRequest,
    other: &str,
    get: GetRequest,
    list: Seq<Pair>,
    contents: Map<Seq<u8>, Seq<u8>>,
    kvs: Vec<KeyValue>,
    found: Result<Bytes, Error>,
)
    requires
        call_ensures(Etcd::prefix, (&etcd,), shown),
        call_ensures(Etcd::put, (&etcd, key, value, need_watch), put),
        lists(list, after_put(contents, put.key@, bytes_of(put.value))),
        call_ensures(Etcd::get, (&etcd, other), get),
        pairs(kvs@) == answer(list, get@),
        call_ensures(Etcd::get_reply, (&etcd, other, &kvs), found),
    ensures
        other@ == key@ ==> gave(found, Some(bytes_of(value))),
        other@ != key@ ==> gave(found, stored_value(contents, shown@, other@)),
{
    law_get_after_put(list, contents, shown@, key@, bytes_of(value), other@);
}

/// A get behind a delete gives nothing under the key, nor, where that was wanted, under any key
/// that begins with it; under every other key it gives what it would have given before.
pub proof fn law_get_gives_nothing_that_was_removed(
    etcd: Etcd,
    shown: &str,
    key: &str,
    with_prefix: bool,
    need_watch: bool,
    delete: DeleteRequest,
    other: &str,
    get: GetRequest,
    list: Seq<Pair>,
    contents: Map<Seq<u8>, Seq<u8>>,
    kvs: Vec<KeyValue>,
    found: Result<Bytes, Error>,
)
    requires
        call_ensures(Etcd::prefix, (&etcd,), shown),
        call_ensures(Etcd::delete, (&etcd, key, with_prefix, need_watch), delete),
        lists(list, after_delete(contents, delete.key@, delete.range)),
        call_ensures(Etcd::get, (&etcd, other), get),
        pairs(kvs@) == answer(list, get@),
        call_ensures(Etcd::get_reply, (&etcd, other, &kvs), found),
    ensures
        removes(key@, with_prefix, other@) ==> gave(found, None),
        !removes(key@, with_prefix, other@) ==> gave(
            found,
            stored_value(contents, shown@, other@),
        ),
{
    law_get_after_delete(list, contents, shown@, key@, with_prefix, other@);
}

/// A count is the number of keys behind the prefix of the store that begin with the prefix that
/// is asked for, and the statistics count every key of the store.
pub proof fn law_counts_are_numbers_of_keys(
    etcd: Etcd,
    shown: &str,
    prefix: &str,
    request: GetRequest,
    stats: GetRequest,
    list: Seq<Pair>,
    contents: Map<Seq<u8>, Seq<u8>>,
)
    requires
        call_ensures(Etcd::prefix, (&etcd,), shown),
        call_ensures(Etcd::count, (&etcd, prefix), request),
        call_ensures(Etcd::stats, (&etcd,), stats),
        lists(list, contents),
    ensures
        count(list, request@) == stored_under(contents, shown@, prefix@).len(),
        count(list, stats@) == contents.dom().len(),
        answer(list, request@).len() == 0,
        answer(list, stats@).len() == 0,
{
    law_count_counts_keys(list, contents, shown@, prefix@);
    law_stats_count_everything(list, contents);
}

// ---------------------------------------------------------------------------------------
// Listings
// ---------------------------------------------------------------------------------------

/// Whether a request for a page is the one that is due behind some pages: it has room for as many
/// pairs as a page holds, wants them in ascending order and with their values, and goes by the
/// prefix at first and from the last key of the last page later.
pub open spec fn asks_for_the_next_page(
    request: GetRequest,
    base: Seq<char>,
    prefix: Seq<char>,
    page_size: i64,
    pages: Seq<Seq<Pair>>,
) -> bool {
    &&& request.limit == page_size
    &&& request.ascending
    &&& !request.count_only
    &&& pages.len() == 0 ==> request.key@ == base + prefix && request.range == Range::Prefix
    &&& pages.len() > 0 ==> encode_utf8(request.key@) == pages.last().last().key && request.range
        == Range::FromKey
}

/// Whether a listing is over: the last page was not full, or held a key that does not begin with
/// the prefix.
pub open spec fn is_over(key: Seq<char>, page_size: i64, pages: Seq<Seq<Pair>>) -> bool {
    pages.len() > 0 && (pages.last().len() < page_size || exists|i: int|
        0 <= i < pages.last().len() && !begins(#[trigger] pages.last()[i], key))
}

/// Whatever pages a listing has read, it is over when it should be, and otherwise asks for the
/// page that is due.
proof fn lemma_paging(base: Seq<char>, prefix: Seq<char>, page_size: i64, pages: Seq<Seq<Pair>>)
    requires
        due(ReadingSpec::start(base, prefix, page_size as int), pages),
    ensures
        ({
            let cursor = read_pages(ReadingSpec::start(base, prefix, page_size as int), pages).cursor;
            &&& cursor.done <==> is_over(base + prefix, page_size, pages)
            &&& forall|request: GetRequest|
                !cursor.done && #[trigger] request@ == cursor.request() ==> asks_for_the_next_page(
                    request,
                    base,
                    prefix,
                    page_size,
                    pages,
                )
        }),
{
    law_page_size_is_the_limit(base, prefix, page_size as int, pages);
    law_pages_follow_each_other(base, prefix, page_size as int, pages);
}

/// Whatever pages a listing of keys and values has read, it is over when it should be, and
/// otherwise asks for the page that is due.
pub proof fn law_list_asks_for_pages(
    etcd: Etcd,
    shown: &str,
    prefix: &str,
    page_size: i64,
    first: Listing,
    pages: Seq<Seq<Pair>>,
    listing: Listing,
    done: bool,
    request: GetRequest,
)
    requires
        call_ensures(Etcd::prefix, (&etcd,), shown),
        call_ensures(Etcd::list, (&etcd, prefix, page_size), first),
        due(first@, pages),
        listing@ == read_pages(first@, pages),
        call_ensures(Listing::is_done, (&listing,), done),
        call_ensures(Listing::request, (&listing,), request),
    ensures
        done <==> is_over(shown@ + prefix@, page_size, pages),
        !done ==> asks_for_the_next_page(request, shown@, prefix@, page_size, pages),
{
    lemma_paging(shown@, prefix@, page_size, pages);
}

/// Whatever pages a listing of keys has read, it is over when it should be, and otherwise asks
/// for the page that is due.
pub proof fn law_list_keys_asks_for_pages(
    etcd: Etcd,
    shown: &str,
    prefix: &str,
    page_size: i64,
    first: KeyListing,
    pages: Seq<Seq<Pair>>,
    listing: KeyListing,
    done: bool,
    request: GetRequest,
)
    requires
        call_ensures(Etcd::prefix, (&etcd,), shown),
        call_ensures(Etcd::list_keys, (&etcd, prefix, page_size), first),
        due(first@, pages),
        listing@ == read_pages(first@, pages),
        call_ensures(KeyListing::is_done, (&listing,), done),
        call_ensures(KeyListing::request, (&listing,), request),
    ensures
        done <==> is_over(shown@ + prefix@, page_size, pages),
        !done ==> asks_for_the_next_page(request, shown@, prefix@, page_size, pages),
{
    lemma_paging(shown@, prefix@, page_size, pages);
}

/// Whatever pages a listing of values has read, it is over when it should be, and otherwise asks
/// for the page that is due.
pub proof fn law_list_values_asks_for_pages(
    etcd: Etcd,
    shown: &str,
    prefix: &str,
    page_size: i64,
    first: ValueListing,
    pages: Seq<Seq<Pair>>,
    listing: ValueListing,
    done: bool,
    request: GetRequest,
)
    requires
        call_ensures(Etcd::prefix, (&etcd,), shown),
        call_ensures(Etcd::list_values, (&etcd, prefix, page_size), first),
        due(first@, pages),
        listing@ == read_pages(first@, pages),
        call_ensures(ValueListing::is_done, (&listing,), done),
        call_ensures(ValueListing::request, (&listing,), request),
    ensures
        done <==> is_over(shown@ + prefix@, page_size, pages),
        !done ==> asks_for_the_next_page(request, shown@, prefix@, page_size, pages),
{
    lemma_paging(shown@, prefix@, page_size, pages);
}

/// Reading one more page is one more page in the run of a listing, whatever it collects.
pub proof fn law_listings_read_page_by_page(
    first: ReadingSpec,
    pages: Seq<Seq<Pair>>,
    page: Vec<KeyValue>,
    listing: &mut Listing,
    keys: &mut KeyListing,
    values: &mut ValueListing,
)
    requires
        old(listing)@ == read_pages(first, pages),
        old(keys)@ == read_pages(first, pages),
        old(values)@ == read_pages(first, pages),
        call_ensures(Listing::read, (listing, &page), ()),
        call_ensures(KeyListing::read, (keys, &page), ()),
        call_ensures(ValueListing::read, (values, &page), ()),
    ensures
        final(listing)@ == read_pages(first, pages.push(pairs(page@))),
        final(keys)@ == read_pages(first, pages.push(pairs(page@))),
        final(values)@ == read_pages(first, pages.push(pairs(page@))),
{
    assert(pages.push(pairs(page@)).drop_last() =~= pages);
}

/// Whether a page can be read: every key is text, up to and with the first one that does not
/// begin with the prefix, and a page without a key has room for one.
pub open spec fn can_be_read(key: Seq<char>, page_size: int, page: Seq<Pair>) -> bool {
    &&& page.len() == 0 ==> page_size > 0
    &&& forall|i: int|
        0 <= i < page.len() && (forall|j: int| 0 <= j < i ==> begins(#[trigger] page[j], key))
            ==> valid_utf8((#[trigger] page[i]).key)
}

/// The listings tell the pages that can be read from those that cannot.
pub proof fn law_listings_tell_which_pages_can_be_read(
    listing: Listing,
    keys: KeyListing,
    values: ValueListing,
    page: Vec<KeyValue>,
    by_listing: bool,
    by_keys: bool,
    by_values: bool,
)
    requires
        call_ensures(Listing::accepts, (&listing, &page), by_listing),
        call_ensures(KeyListing::accepts, (&keys, &page), by_keys),
        call_ensures(ValueListing::accepts, (&values, &page), by_values),
    ensures
        by_listing <==> can_be_read(
            listing@.cursor.key,
            listing@.cursor.page_size,
            pairs(page@),
        ),
        by_keys <==> can_be_read(keys@.cursor.key, keys@.cursor.page_size, pairs(page@)),
        by_values <==> can_be_read(values@.cursor.key, values@.cursor.page_size, pairs(page@)),
{
    law_which_pages_can_be_read(listing@.cursor, pairs(page@));
    law_which_pages_can_be_read(keys@.cursor, pairs(page@));
    law_which_pages_can_be_read(values@.cursor, pairs(page@));
}

/// What a listing of keys or of values has read is what it gives in the end, every key and every
/// value at its place.
pub proof fn law_listings_give_what_they_read(
    keys: KeyListing,
    values: ValueListing,
    found_keys: Vec<String>,
    found_values: Vec<Bytes>,
)
    requires
        call_ensures(KeyListing::finish, (keys,), found_keys),
        call_ensures(ValueListing::finish, (values,), found_values),
    ensures
        found_keys@.len() == keys@.entries.len(),
        forall|i: int|
            0 <= i < found_keys@.len() ==> (#[trigger] found_keys@[i])@ == keys@.entries[i].key,
        found_values@.len() == values@.entries.len(),
        forall|i: int|
            0 <= i < found_values@.len() ==> bytes_of(#[trigger] found_values@[i])
                == values@.entries[i].value,
{
    let texts = crate::text::texts(found_keys@);
    let buffers = crate::listing::buffers(found_values@);
    assert(texts.len() == found_keys@.len());
    assert(buffers.len() == found_values@.len());
    assert forall|i: int| 0 <= i < found_keys@.len() implies (#[trigger] found_keys@[i])@
        == keys@.entries[i].key by {
        assert(texts[i] == found_keys@[i]@);
    }
    assert forall|i: int| 0 <= i < found_values@.len() implies bytes_of(#[trigger] found_values@[i])
        == values@.entries[i].value by {
        assert(buffers[i] == bytes_of(found_values@[i]));
    }
}

/// In the map of entries, the latest entry of a key counts.
proof fn lemma_latest_counts(list: Seq<EntrySpec>)
    ensures
        forall|key: Seq<char>| #[trigger]
            map_of(list).contains_key(key) <==> exists|i: int|
                0 <= i < list.len() && (#[trigger] list[i]).key == key,
        forall|i: int|
            0 <= i < list.len() && (forall|j: int|
                i < j < list.len() ==> (#[trigger] list[j]).key != list[i].key) ==> map_of(list)[(
            #[trigger] list[i]).key] == list[i].value,
    decreases list.len(),
{
    if list.len() > 0 {
        let front = list.drop_last();
        let n = front.len() as int;
        lemma_latest_counts(front);
        assert forall|key: Seq<char>| #[trigger] map_of(list).contains_key(key) <==> exists|i: int|
            0 <= i < list.len() && (#[trigger] list[i]).key == key by {
            if map_of(list).contains_key(key) {
                if key == list[n].key {
                } else {
                    assert(map_of(front).contains_key(key));
                    let i = choose|i: int| 0 <= i < n && (#[trigger] front[i]).key == key;
                    assert(list[i].key == key);
                }
            }
            if exists|i: int| 0 <= i < list.len() && (#[trigger] list[i]).key == key {
                let i = choose|i: int| 0 <= i < list.len() && (#[trigger] list[i]).key == key;
                if i < n {
                    assert(front[i].key == key);
                    assert(map_of(front).contains_key(key));
                }
            }
        }
        assert forall|i: int|
            0 <= i < list.len() && (forall|j: int|
                i < j < list.len() ==> (#[trigger] list[j]).key != list[i].key) implies map_of(list)[(
        #[trigger] list[i]).key] == list[i].value by {
            if i < n {
                assert(list[n].key != list[i].key);
                assert(front[i] == list[i]);
                assert forall|j: int| i < j < n implies (#[trigger] front[j]).key != front[i].key by {
                    assert(list[j].key != list[i].key);
                }
                assert(map_of(front)[front[i].key] == front[i].value);
            }
        }
    }
}

/// The map that a listing gives has exactly the keys that it has read, and leads from each to the
/// value that was read for it last.
pub proof fn law_list_gives_what_was_read_last(
    listing: Listing,
    map: ahash::HashMap<String, Bytes>,
)
    requires
        call_ensures(Listing::finish, (listing,), map),
    ensures
        ({
            let read = listing@.entries;
            &&& forall|key: Seq<char>| #[trigger]
                entries_of(map).contains_key(key) <==> exists|i: int|
                    0 <= i < read.len() && (#[trigger] read[i]).key == key
            &&& forall|i: int|
                0 <= i < read.len() && (forall|j: int|
                    i < j < read.len() ==> (#[trigger] read[j]).key != read[i].key) ==> entries_of(map)[(
                #[trigger] read[i]).key] == read[i].value
        }),
{
    lemma_latest_counts(listing@.entries);
}

/// A listing of a store that does not change meets no page that it cannot read, comes to its end,
/// and gives a map that leads from every key under the prefix, as callers name it, to its value,
/// and from no other key.
pub proof fn law_list_gives_what_is_stored(
    etcd: Etcd,
    shown: &str,
    prefix: &str,
    page_size: i64,
    list: Seq<Pair>,
    contents: Map<Seq<u8>, Seq<u8>>,
    first: Listing,
    last: Listing,
    done: bool,
    map: ahash::HashMap<String, Bytes>,
)
    requires
        call_ensures(Etcd::prefix, (&etcd,), shown),
        can_list(list, contents, shown@, prefix@, page_size as int),
        call_ensures(Etcd::list, (&etcd, prefix, page_size), first),
        last@ == reading(list, first@, list.len() + 2),
        call_ensures(Listing::is_done, (&last,), done),
        call_ensures(Listing::finish, (last,), map),
    ensures
        done,
        readable(list, first@, list.len() + 2),
        forall|key: Seq<char>| #[trigger]
            entries_of(map).contains_key(key) <==> holds(contents, shown@, prefix@, key),
        forall|key: Seq<char>|
            holds(contents, shown@, prefix@, key) ==> Some(#[trigger] entries_of(map)[key])
                == stored_value(contents, shown@, key),
{
    law_list_is_complete(list, contents, shown@, prefix@, page_size as int);
}

/// A listing of keys gives every key under the prefix once, as callers name it and in ascending
/// order, and a listing of values gives the value of each of them at the same place.
pub proof fn law_list_gives_keys_and_values(
    etcd: Etcd,
    shown: &str,
    prefix: &str,
    page_size: i64,
    list: Seq<Pair>,
    contents: Map<Seq<u8>, Seq<u8>>,
    first_keys: KeyListing,
    last_keys: KeyListing,
    keys: Vec<String>,
    first_values: ValueListing,
    last_values: ValueListing,
    values: Vec<Bytes>,
)
    requires
        call_ensures(Etcd::prefix, (&etcd,), shown),
        can_list(list, contents, shown@, prefix@, page_size as int),
        call_ensures(Etcd::list_keys, (&etcd, prefix, page_size), first_keys),
        last_keys@ == reading(list, first_keys@, list.len() + 2),
        call_ensures(KeyListing::finish, (last_keys,), keys),
        call_ensures(Etcd::list_values, (&etcd, prefix, page_size), first_values),
        last_values@ == reading(list, first_values@, list.len() + 2),
        call_ensures(ValueListing::finish, (last_values,), values),
    ensures
        forall|key: Seq<char>|
            #![trigger holds(contents, shown@, prefix@, key)]
            holds(contents, shown@, prefix@, key) <==> exists|i: int|
                0 <= i < keys@.len() && (#[trigger] keys@[i])@ == key,
        forall|i: int, j: int|
            0 <= i < j < keys@.len() ==> before(
                encode_utf8((#[trigger] keys@[i])@),
                encode_utf8((#[trigger] keys@[j])@),
            ),
        values@.len() == keys@.len(),
        forall|i: int|
            0 <= i < keys@.len() ==> Some(bytes_of(#[trigger] values@[i])) == stored_value(
                contents,
                shown@,
                keys@[i]@,
            ),
{
    law_keys_and_values_in_order(list, contents, shown@, prefix@, page_size as int);
    law_listings_give_what_they_read(last_keys, last_values, keys, values);
    let entries = last_keys@.entries;
    let names = crate::listing::keys_of(entries);
    let contents_of = crate::listing::values_of(entries);
    assert forall|i: int| 0 <= i < keys@.len() implies names[i] == (#[trigger] keys@[i])@ by {
        assert(keys@[i]@ == entries[i].key);
    }
    assert forall|key: Seq<char>| #[trigger]
        holds(contents, shown@, prefix@, key) <==> exists|i: int|
            0 <= i < keys@.len() && (#[trigger] keys@[i])@ == key by {
        if holds(contents, shown@, prefix@, key) {
            assert(names.contains(key));
            let i = choose|i: int| 0 <= i < names.len() && names[i] == key;
            assert(keys@[i]@ == key);
        }
        if exists|i: int| 0 <= i < keys@.len() && (#[trigger] keys@[i])@ == key {
            let i = choose|i: int| 0 <= i < keys@.len() && (#[trigger] keys@[i])@ == key;
            assert(names[i] == key);
            assert(names.contains(key));
        }
    }
    assert forall|i: int, j: int| 0 <= i < j < keys@.len() implies before(
        encode_utf8((#[trigger] keys@[i])@),
        encode_utf8((#[trigger] keys@[j])@),
    ) by {
        assert(before(encode_utf8(names[i]), encode_utf8(names[j])));
    }
    assert forall|i: int| 0 <= i < keys@.len() implies Some(bytes_of(#[trigger] values@[i]))
        == stored_value(contents, shown@, keys@[i]@) by {
        assert(contents_of[i] == bytes_of(values@[i]));
        assert(names[i] == keys@[i]@);
    }
}

} // verus!
