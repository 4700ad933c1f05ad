//! Listing a prefix finds everything under it, once and in order.

use crate::etcd::count_spec;
use crate::laws::data::{holds, stored_value};
use crate::listing::{
    keys_of, leading, lemma_leading_unique, map_of, values_of, CursorSpec, EntrySpec, ReadingSpec,
};
use crate::request::{Pair, Range};
use crate::store::{
    answer, before, count, hits, in_order, is_about, lemma_before_asymmetric, lemma_before_shared,
    lemma_filter_interval, lemma_prefix_interval, lemma_under, lists, no_empty_key,
};
use crate::text::lemma_encode_concat;
use vstd::prelude::*;
use vstd::utf8::*;

verus! {

// ---------------------------------------------------------------------------------------
// Listing
// ---------------------------------------------------------------------------------------

/// Whether the keys that the reading of a prefix has to look at are text: those that begin
/// with the prefix, and, unless the first page has room for more than these, the one behind
/// them.
pub open spec fn text_keys(list: Seq<Pair>, key: Seq<char>, page_size: int) -> bool {
    &&& forall|i: int|
        0 <= i < list.len() && is_about(key, Range::Prefix, (#[trigger] list[i]).key)
            ==> valid_utf8(list[i].key)
    &&& hits(list, key, Range::Prefix).len() >= page_size ==> forall|i: int|
        1 <= i < list.len() && is_about(key, Range::Prefix, list[i - 1].key)
            ==> valid_utf8((#[trigger] list[i]).key)
}

/// What reading comes to when the store, which holds a list and does not change, answers the
/// next few requests.
pub open spec fn reading(list: Seq<Pair>, state: ReadingSpec, pages: nat) -> ReadingSpec
    decreases pages,
{
    if state.cursor.done || pages == 0 {
        state
    } else {
        reading(list, state.next(answer(list, state.cursor.request())), (pages - 1) as nat)
    }
}

/// Whether the reading of a prefix comes to an end. A page of one key brings back the key that
/// was seen last for ever, unless there is none. Pages without a limit end only at a key
/// behind the prefix, and there has to be a key to go on from.
pub open spec fn comes_to_end(list: Seq<Pair>, key: Seq<char>, page_size: int) -> bool {
    ||| page_size >= 2
    ||| page_size == 1 && forall|i: int|
        0 <= i < list.len() ==> !is_about(key, Range::Prefix, (#[trigger] list[i]).key)
    ||| page_size <= 0 && exists|i: int, j: int|
        0 <= i < j < list.len() && is_about(key, Range::Prefix, (#[trigger] list[i]).key)
            && !is_about(key, Range::Prefix, (#[trigger] list[j]).key)
}

/// Whether every one of these answers can be read.
pub open spec fn readable(list: Seq<Pair>, state: ReadingSpec, pages: nat) -> bool
    decreases pages,
{
    if state.cursor.done || pages == 0 {
        true
    } else {
        let page = answer(list, state.cursor.request());
        &&& state.cursor.accepts(page)
        &&& readable(list, state.next(page), (pages - 1) as nat)
    }
}

/// The pairs of an interval of a list, as callers see them.
spec fn seen(list: Seq<Pair>, base: Seq<char>, a: int, b: int) -> Seq<EntrySpec> {
    Seq::new(
        (b - a) as nat,
        |i: int|
            EntrySpec {
                key: list[a + i].text()->0.skip(base.len() as int),
                value: list[a + i].value,
            },
    )
}

/// The places of a list at which the keys lie under a prefix.
spec fn bounds_of(list: Seq<Pair>, key: Seq<char>, a: int, b: int) -> bool {
    &&& 0 <= a <= b <= list.len()
    &&& forall|i: int| 0 <= i < list.len() ==> ((#[trigger] list[i]).under(key) <==> a <= i < b)
    &&& hits(list, key, Range::Prefix) == list.subrange(a, b)
}

proof fn lemma_bounds(list: Seq<Pair>, key: Seq<char>, page_size: int) -> (bounds: (int, int))
    requires
        in_order(list),
        text_keys(list, key, page_size),
    ensures
        bounds_of(list, key, bounds.0, bounds.1),
        bounds.0 < bounds.1 < list.len() && bounds.1 - bounds.0 >= page_size
            ==> list[bounds.1].text() is Some,
{
    let (a, b) = lemma_prefix_interval(list, encode_utf8(key));
    assert forall|i: int| 0 <= i < list.len() implies ((#[trigger] list[i]).under(key) <==> a <= i
        < b) by {
        assert(encode_utf8(key).is_prefix_of(list[i].key) <==> a <= i < b);
        if list[i].text() is Some {
            lemma_under(list[i], key);
        }
    }
    let keep = |p: Pair| is_about(key, Range::Prefix, p.key);
    assert forall|i: int| 0 <= i < list.len() implies (keep(#[trigger] list[i]) <==> a <= i < b) by {
        assert(encode_utf8(key).is_prefix_of(list[i].key) <==> a <= i < b);
    }
    lemma_filter_interval(list, keep, a, b);
    if a < b < list.len() && b - a >= page_size {
        assert(is_about(key, Range::Prefix, list[b - 1].key));
    }
    (a, b)
}

/// From a key of the list onwards, the request is about that key and all behind it.
proof fn lemma_from_key(list: Seq<Pair>, m: int)
    requires
        in_order(list),
        0 <= m < list.len(),
        list[m].text() is Some,
    ensures
        hits(list, list[m].text()->0, Range::FromKey) == list.subrange(m, list.len() as int),
{
    let key = list[m].text()->0;
    lemma_under(list[m], key);
    let keep = |p: Pair| is_about(key, Range::FromKey, p.key);
    assert forall|i: int| 0 <= i < list.len() implies (keep(#[trigger] list[i]) <==> m <= i
        < list.len()) by {
        lemma_before_asymmetric(list[m].key, list[i].key);
        if i < m {
            assert(before(list[i].key, list[m].key));
        } else if m < i {
            assert(before(list[m].key, list[i].key));
        }
    }
    lemma_filter_interval(list, keep, m, list.len() as int);
}

/// What a page adds that is cut out of the list: the pairs under the prefix, without the one
/// that was seen last.
proof fn lemma_found(list: Seq<Pair>, c: CursorSpec, a: int, b: int, from: int, to: int, skipped: int)
    requires
        bounds_of(list, c.key, a, b),
        a <= from <= to <= list.len(),
        from <= b,
        from <= skipped <= to,
        skipped <= b,
        forall|i: int|
            0 <= i < list.len() ==> ((#[trigger] list[i]).text() == Some(c.last) <==> i < skipped && from <= i),
    ensures
        leading(list.subrange(from, to), c.key) == (if b < to { b } else { to }) - from,
        c.found_in(list.subrange(from, to)) == seen(
            list,
            c.base,
            skipped,
            (if b < to { b } else { to }),
        ),
{
    let page = list.subrange(from, to);
    let end = if b < to { b } else { to };
    let n = end - from;
    assert forall|i: int| 0 <= i < n implies (#[trigger] page[i]).under(c.key) by {
        assert(page[i] == list[from + i]);
    }
    if n < page.len() {
        assert(page[n] == list[end]);
    }
    lemma_leading_unique(page, c.key, n);
    let inside = page.take(n);
    let keep = |p: Pair| p.text() != Some(c.last);
    assert forall|i: int| 0 <= i < inside.len() implies (keep(#[trigger] inside[i]) <==> skipped - from
        <= i < n) by {
        assert(inside[i] == list[from + i]);
    }
    lemma_filter_interval(inside, keep, skipped - from, n);
    assert(c.fresh(page) == inside.subrange(skipped - from, n));
    assert(c.found_in(page) =~= seen(list, c.base, skipped, end));
}

/// The state in which everything up to some place has been read and the next page is due.
spec fn midway(list: Seq<Pair>, r: ReadingSpec, a: int, b: int, m: int) -> bool {
    &&& a <= m < b
    &&& r.cursor.from_key
    &&& !r.cursor.done
    &&& r.cursor.last == list[m].text()->0
    &&& r.entries == seen(list, r.cursor.base, a, m + 1)
}

proof fn lemma_distinct_texts(list: Seq<Pair>, i: int, j: int)
    requires
        in_order(list),
        0 <= i < list.len(),
        0 <= j < list.len(),
        i != j,
        list[j].text() is Some,
    ensures
        list[i].text() != list[j].text(),
{
    lemma_before_asymmetric(list[i].key, list[j].key);
    if list[i].text() is Some {
        lemma_under(list[i], Seq::empty());
    }
    lemma_under(list[j], Seq::empty());
    if i < j {
        assert(before(list[i].key, list[j].key));
    } else {
        assert(before(list[j].key, list[i].key));
    }
}

/// From a state midway, reading comes to its end with everything under the prefix.
proof fn lemma_rest(list: Seq<Pair>, r: ReadingSpec, a: int, b: int, m: int, pages: nat)
    requires
        in_order(list),
        bounds_of(list, r.cursor.key, a, b),
        b < list.len() ==> list[b].text() is Some,
        r.cursor.page_size >= 2 || r.cursor.page_size <= 0 && b < list.len(),
        midway(list, r, a, b, m),
        pages > list.len() - m,
    ensures
        readable(list, r, pages),
        reading(list, r, pages).cursor.done,
        reading(list, r, pages).entries == seen(list, r.cursor.base, a, b),
    decreases pages,
{
    let c = r.cursor;
    let n = list.len() as int;
    lemma_from_key(list, m);
    let page = answer(list, c.request());
    let to = if 0 < c.page_size && m + c.page_size < n { m + c.page_size } else { n };
    assert(page =~= list.subrange(m, to));
    assert forall|i: int| 0 <= i < n implies ((#[trigger] list[i]).text() == Some(c.last) <==> i < m + 1
        && m <= i) by {
        if i != m {
            lemma_distinct_texts(list, i, m);
        }
    }
    lemma_found(list, c, a, b, m, to, m + 1);
    assert forall|i: int| 0 <= i < page.len() && i <= leading(page, c.key) implies (
    #[trigger] page[i]).text() is Some by {
        assert(page[i] == list[m + i]);
    }
    let next = r.next(page);
    let end = if b < to { b } else { to };
    assert(next.entries =~= seen(list, c.base, a, end));
    if c.goes_on(page) {
        assert(page.last() == list[to - 1]);
        assert(midway(list, next, a, b, to - 1));
        lemma_rest(list, next, a, b, to - 1, (pages - 1) as nat);
    } else {
        assert(next.cursor.done);
        assert(end == b);
        assert(reading(list, next, (pages - 1) as nat) == next);
        assert(readable(list, next, (pages - 1) as nat));
    }
}

/// Reading a prefix of a store comes to its end, and everything under the prefix has then been
/// read once, in order.
proof fn lemma_reading(list: Seq<Pair>, base: Seq<char>, prefix: Seq<char>, page_size: int) -> (bounds: (
    int,
    int,
))
    requires
        in_order(list),
        no_empty_key(list),
        text_keys(list, base + prefix, page_size),
        comes_to_end(list, base + prefix, page_size),
    ensures
        bounds_of(list, base + prefix, bounds.0, bounds.1),
        readable(list, ReadingSpec::start(base, prefix, page_size), list.len() + 2),
        reading(list, ReadingSpec::start(base, prefix, page_size), list.len() + 2).cursor.done,
        reading(list, ReadingSpec::start(base, prefix, page_size), list.len() + 2).entries == seen(
            list,
            base,
            bounds.0,
            bounds.1,
        ),
{
    let r = ReadingSpec::start(base, prefix, page_size);
    let c = r.cursor;
    let (a, b) = lemma_bounds(list, c.key, page_size);
    if page_size <= 0 {
        let (i, j) = choose|i: int, j: int|
            0 <= i < j < list.len() && is_about(c.key, Range::Prefix, (#[trigger] list[i]).key)
                && !is_about(c.key, Range::Prefix, (#[trigger] list[j]).key);
        lemma_under(list[i], c.key);
        assert(list[i].under(c.key));
        assert(!list[j].under(c.key)) by {
            if list[j].text() is Some {
                lemma_under(list[j], c.key);
            }
        }
        assert(a < b < list.len());
    } else if page_size == 1 && a < b {
        assert(list[a].under(c.key));
        lemma_under(list[a], c.key);
    }
    let page = answer(list, c.request());
    let to = if 0 < page_size && a + page_size < b { a + page_size } else { b };
    assert(page =~= list.subrange(a, to));
    assert forall|i: int| 0 <= i < list.len() implies ((#[trigger] list[i]).text() == Some(c.last)
        <==> i < a && a <= i) by {
        if list[i].text() is Some {
            lemma_under(list[i], Seq::empty());
        }
        assert(encode_utf8(Seq::<char>::empty()).len() == 0);
    }
    lemma_found(list, c, a, b, a, to, a);
    assert forall|i: int| 0 <= i < page.len() && i <= leading(page, c.key) implies (
    #[trigger] page[i]).text() is Some by {
        assert(page[i] == list[a + i]);
    }
    let next = r.next(page);
    assert(next.entries =~= seen(list, base, a, to));
    if c.goes_on(page) {
        assert(page.last() == list[to - 1]);
        assert(midway(list, next, a, b, to - 1));
        lemma_rest(list, next, a, b, to - 1, list.len() + 1);
    } else {
        assert(to == b);
        assert(reading(list, next, list.len() + 1) == next);
        assert(readable(list, next, list.len() + 1));
    }
    (a, b)
}

/// What the reading of a prefix comes to in the end.
pub open spec fn listed(
    list: Seq<Pair>,
    base: Seq<char>,
    prefix: Seq<char>,
    page_size: int,
) -> ReadingSpec {
    reading(list, ReadingSpec::start(base, prefix, page_size), list.len() + 2)
}

/// Whether reading a prefix of a store is possible and comes to an end.
pub open spec fn can_list(
    list: Seq<Pair>,
    contents: Map<Seq<u8>, Seq<u8>>,
    base: Seq<char>,
    prefix: Seq<char>,
    page_size: int,
) -> bool {
    &&& lists(list, contents)
    &&& text_keys(list, base + prefix, page_size)
    &&& comes_to_end(list, base + prefix, page_size)
}

/// A pair under the prefix is stored under the key that callers see, behind the prefix of the
/// store.
proof fn lemma_seen_key(list: Seq<Pair>, base: Seq<char>, prefix: Seq<char>, a: int, b: int, i: int)
    requires
        bounds_of(list, base + prefix, a, b),
        0 <= i < b - a,
    ensures
        prefix.is_prefix_of(seen(list, base, a, b)[i].key),
        list[a + i].text() == Some(base + seen(list, base, a, b)[i].key),
        list[a + i].key == encode_utf8(base + seen(list, base, a, b)[i].key),
{
    let pair = list[a + i];
    assert(pair.under(base + prefix));
    let text = pair.text()->0;
    let key = text.skip(base.len() as int);
    assert(base + prefix =~= text.subrange(0, (base + prefix).len() as int));
    assert(base =~= text.subrange(0, base.len() as int)) by {
        assert(base =~= (base + prefix).subrange(0, base.len() as int));
    }
    assert(prefix =~= key.subrange(0, prefix.len() as int)) by {
        assert(prefix =~= (base + prefix).subrange(base.len() as int, (base + prefix).len() as int));
    }
    assert(text =~= base + key);
    lemma_under(pair, base);
}

/// The keys that callers see ascend, and they are those that are stored under the prefix.
proof fn lemma_seen_keys(
    list: Seq<Pair>,
    contents: Map<Seq<u8>, Seq<u8>>,
    base: Seq<char>,
    prefix: Seq<char>,
    a: int,
    b: int,
)
    requires
        lists(list, contents),
        bounds_of(list, base + prefix, a, b),
    ensures
        forall|i: int, j: int|
            0 <= i < j < b - a ==> before(
                encode_utf8(base + (#[trigger] seen(list, base, a, b)[i]).key),
                encode_utf8(base + (#[trigger] seen(list, base, a, b)[j]).key),
            ),
        forall|i: int|
            0 <= i < b - a ==> {
                let entry = #[trigger] seen(list, base, a, b)[i];
                &&& holds(contents, base, prefix, entry.key)
                &&& contents[encode_utf8(base + entry.key)] == entry.value
            },
        forall|key: Seq<char>| #[trigger]
            holds(contents, base, prefix, key) ==> exists|i: int|
                0 <= i < b - a && (#[trigger] seen(list, base, a, b)[i]).key == key,
{
    let entries = seen(list, base, a, b);
    assert forall|i: int, j: int| 0 <= i < j < b - a implies before(
        encode_utf8(base + (#[trigger] entries[i]).key),
        encode_utf8(base + (#[trigger] entries[j]).key),
    ) by {
        lemma_seen_key(list, base, prefix, a, b, i);
        lemma_seen_key(list, base, prefix, a, b, j);
        assert(before(list[a + i].key, list[a + j].key));
    }
    assert forall|i: int| 0 <= i < b - a implies {
        let entry = #[trigger] entries[i];
        &&& holds(contents, base, prefix, entry.key)
        &&& contents[encode_utf8(base + entry.key)] == entry.value
    } by {
        lemma_seen_key(list, base, prefix, a, b, i);
        assert(contents.contains_key(list[a + i].key));
    }
    assert forall|key: Seq<char>| #[trigger] holds(contents, base, prefix, key) implies exists|i: int|
        0 <= i < b - a && (#[trigger] entries[i]).key == key by {
        let text = base + key;
        let k = choose|k: int| 0 <= k < list.len() && (#[trigger] list[k]).key == encode_utf8(text);
        encode_utf8_valid_utf8(text);
        encode_utf8_decode_utf8(text);
        assert(list[k].text() == Some(text));
        assert(base + prefix =~= text.subrange(0, (base + prefix).len() as int)) by {
            assert(prefix =~= key.subrange(0, prefix.len() as int));
            assert forall|i: int| base.len() <= i < (base + prefix).len() implies (base + prefix)[i]
                == text[i] by {
                assert(prefix[i - base.len()] == key.subrange(0, prefix.len() as int)[i - base.len()]);
            }
        }
        assert(list[k].under(base + prefix));
        assert(entries[k - a].key =~= key) by {
            assert(text.skip(base.len() as int) =~= key);
        }
    }
}

/// Entries with different keys make a map that leads from every key to its value.
proof fn lemma_map_of(list: Seq<EntrySpec>)
    requires
        forall|i: int, j: int|
            0 <= i < j < list.len() ==> (#[trigger] list[i]).key != (#[trigger] list[j]).key,
    ensures
        forall|i: int|
            0 <= i < list.len() ==> map_of(list).contains_key((#[trigger] list[i]).key)
                && map_of(list)[list[i].key] == list[i].value,
        forall|key: Seq<char>| #[trigger]
            map_of(list).contains_key(key) ==> exists|i: int|
                0 <= i < list.len() && (#[trigger] list[i]).key == key,
    decreases list.len(),
{
    if list.len() > 0 {
        let front = list.drop_last();
        let n = list.len() as int;
        assert forall|i: int, j: int| 0 <= i < j < front.len() implies (#[trigger] front[i]).key != (
        #[trigger] front[j]).key by {
            assert(list[i].key != list[j].key);
        }
        lemma_map_of(front);
        assert forall|i: int| 0 <= i < n implies map_of(list).contains_key((#[trigger] list[i]).key)
            && map_of(list)[list[i].key] == list[i].value by {
            if i < n - 1 {
                assert(front[i] == list[i]);
                assert(list[i].key != list[n - 1].key);
            }
        }
        assert forall|key: Seq<char>| #[trigger] map_of(list).contains_key(key) implies exists|i: int|
            0 <= i < n && (#[trigger] list[i]).key == key by {
            if key == list.last().key {
                assert(list[n - 1].key == key);
            } else {
                assert(map_of(front).contains_key(key));
                let i = choose|i: int| 0 <= i < front.len() && (#[trigger] front[i]).key == key;
                assert(list[i].key == key);
            }
        }
    }
}

/// Listing a prefix of a store that does not change meets no page that it cannot read, comes
/// to an end, and has then found exactly what is stored under the prefix: every key, named as
/// callers name it, with its value.
pub proof fn law_list_is_complete(
    list: Seq<Pair>,
    contents: Map<Seq<u8>, Seq<u8>>,
    base: Seq<char>,
    prefix: Seq<char>,
    page_size: int,
)
    requires
        can_list(list, contents, base, prefix, page_size),
    ensures
        readable(list, ReadingSpec::start(base, prefix, page_size), list.len() + 2),
        listed(list, base, prefix, page_size).cursor.done,
        forall|key: Seq<char>| #[trigger]
            map_of(listed(list, base, prefix, page_size).entries).contains_key(key) <==> holds(
                contents,
                base,
                prefix,
                key,
            ),
        forall|key: Seq<char>|
            holds(contents, base, prefix, key) ==> Some(
                #[trigger] map_of(listed(list, base, prefix, page_size).entries)[key],
            ) == stored_value(contents, base, key),
{
    let (a, b) = lemma_reading(list, base, prefix, page_size);
    let entries = listed(list, base, prefix, page_size).entries;
    lemma_seen_keys(list, contents, base, prefix, a, b);
    assert forall|i: int, j: int| 0 <= i < j < entries.len() implies (#[trigger] entries[i]).key != (
    #[trigger] entries[j]).key by {
        lemma_before_asymmetric(
            encode_utf8(base + entries[i].key),
            encode_utf8(base + entries[j].key),
        );
    }
    lemma_map_of(entries);
    assert forall|key: Seq<char>| #[trigger] map_of(entries).contains_key(key) <==> holds(
        contents,
        base,
        prefix,
        key,
    ) by {
        if map_of(entries).contains_key(key) {
            let i = choose|i: int| 0 <= i < entries.len() && (#[trigger] entries[i]).key == key;
            assert(holds(contents, base, prefix, entries[i].key));
        }
        if holds(contents, base, prefix, key) {
            let i = choose|i: int| 0 <= i < b - a && (#[trigger] seen(list, base, a, b)[i]).key == key;
            assert(map_of(entries).contains_key(entries[i].key));
        }
    }
    assert forall|key: Seq<char>| holds(contents, base, prefix, key) implies Some(
        #[trigger] map_of(entries)[key],
    ) == stored_value(contents, base, key) by {
        let i = choose|i: int| 0 <= i < b - a && (#[trigger] seen(list, base, a, b)[i]).key == key;
        assert(map_of(entries)[entries[i].key] == entries[i].value);
    }
}

/// Listing keys finds every key under the prefix once, in the ascending order of the keys as
/// callers name them, and listing values finds the value of each of them at the same place.
pub proof fn law_keys_and_values_in_order(
    list: Seq<Pair>,
    contents: Map<Seq<u8>, Seq<u8>>,
    base: Seq<char>,
    prefix: Seq<char>,
    page_size: int,
)
    requires
        can_list(list, contents, base, prefix, page_size),
    ensures
        ({
            let keys = keys_of(listed(list, base, prefix, page_size).entries);
            let values = values_of(listed(list, base, prefix, page_size).entries);
            &&& forall|key: Seq<char>| #[trigger]
                keys.contains(key) <==> holds(contents, base, prefix, key)
            &&& forall|i: int, j: int|
                0 <= i < j < keys.len() ==> before(
                    encode_utf8(#[trigger] keys[i]),
                    encode_utf8(#[trigger] keys[j]),
                )
            &&& values.len() == keys.len()
            &&& forall|i: int|
                0 <= i < keys.len() ==> Some(#[trigger] values[i]) == stored_value(
                    contents,
                    base,
                    keys[i],
                )
        }),
{
    let (a, b) = lemma_reading(list, base, prefix, page_size);
    let entries = listed(list, base, prefix, page_size).entries;
    let keys = keys_of(entries);
    let values = values_of(entries);
    lemma_seen_keys(list, contents, base, prefix, a, b);
    assert forall|key: Seq<char>| #[trigger] keys.contains(key) <==> holds(
        contents,
        base,
        prefix,
        key,
    ) by {
        if keys.contains(key) {
            let i = choose|i: int| 0 <= i < keys.len() && keys[i] == key;
            assert(holds(contents, base, prefix, entries[i].key));
        }
        if holds(contents, base, prefix, key) {
            let i = choose|i: int| 0 <= i < b - a && (#[trigger] seen(list, base, a, b)[i]).key == key;
            assert(keys[i] == key);
        }
    }
    assert forall|i: int, j: int| 0 <= i < j < keys.len() implies before(
        encode_utf8(#[trigger] keys[i]),
        encode_utf8(#[trigger] keys[j]),
    ) by {
        assert(keys[i] == entries[i].key && keys[j] == entries[j].key);
        lemma_encode_concat(base, keys[i]);
        lemma_encode_concat(base, keys[j]);
        lemma_before_shared(encode_utf8(base), encode_utf8(keys[i]), encode_utf8(keys[j]));
    }
    assert forall|i: int| 0 <= i < keys.len() implies Some(#[trigger] values[i]) == stored_value(
        contents,
        base,
        keys[i],
    ) by {
        assert(keys[i] == entries[i].key && values[i] == entries[i].value);
    }
}

/// The number of keys under a prefix is the number of keys that listing it finds.
pub proof fn law_count_agrees_with_list(
    list: Seq<Pair>,
    contents: Map<Seq<u8>, Seq<u8>>,
    base: Seq<char>,
    prefix: Seq<char>,
    page_size: int,
)
    requires
        can_list(list, contents, base, prefix, page_size),
    ensures
        count(list, count_spec(base, prefix)) == keys_of(
            listed(list, base, prefix, page_size).entries,
        ).len(),
{
    let (a, b) = lemma_reading(list, base, prefix, page_size);
}

/// What a listing finds does not depend on how many keys a page holds.
pub proof fn law_page_size_does_not_matter(
    list: Seq<Pair>,
    contents: Map<Seq<u8>, Seq<u8>>,
    base: Seq<char>,
    prefix: Seq<char>,
    page_size: int,
    other_size: int,
)
    requires
        can_list(list, contents, base, prefix, page_size),
        can_list(list, contents, base, prefix, other_size),
    ensures
        listed(list, base, prefix, page_size).entries == listed(
            list,
            base,
            prefix,
            other_size,
        ).entries,
{
    let (a, b) = lemma_reading(list, base, prefix, page_size);
    let (c, d) = lemma_reading(list, base, prefix, other_size);
    if a < b {
        assert(list[a].under(base + prefix));
        assert(list[b - 1].under(base + prefix));
    }
    if c < d {
        assert(list[c].under(base + prefix));
        assert(list[d - 1].under(base + prefix));
    }
    assert(seen(list, base, a, b) =~= seen(list, base, c, d));
}

} // verus!
