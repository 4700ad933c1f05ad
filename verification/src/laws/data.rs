//! What is put is what is read, counted and told of, and nothing else changes.

use crate::etcd::{count_spec, delete_range, first_value, full_key, get_spec, stats_spec};
use crate::outside::bytes_of;
use crate::request::{Pair, PutRequest, Range};
use crate::store::{
    after_delete, after_put, answer, before, count, hits, in_order, is_about,
    lemma_before_asymmetric, lemma_filter_interval, lemma_prefix_interval, lists,
};
use crate::text::{lemma_encode_concat, lemma_encode_prefix, lemma_trim_end, trim_end};
use crate::watch::{
    leading_deliverable, lemma_leading_deliverable, Event, EventType, StoreEvent,
};
use vstd::prelude::*;
use vstd::utf8::*;

verus! {

// ---------------------------------------------------------------------------------------
// Keys
// ---------------------------------------------------------------------------------------

/// A key lies in the store behind the prefix of the store, and what it is called there tells what
/// callers call it.
pub proof fn law_keys_are_kept_apart(prefix: Seq<char>, a: Seq<char>, b: Seq<char>)
    ensures
        prefix.is_prefix_of(full_key(prefix, a)),
        full_key(prefix, a).skip(prefix.len() as int) == a,
        encode_utf8(full_key(prefix, a)) == encode_utf8(full_key(prefix, b)) <==> a == b,
{
    assert(prefix =~= full_key(prefix, a).subrange(0, prefix.len() as int));
    assert(full_key(prefix, a).skip(prefix.len() as int) =~= a);
    assert(full_key(prefix, b).skip(prefix.len() as int) =~= b);
    encode_utf8_decode_utf8(full_key(prefix, a));
    encode_utf8_decode_utf8(full_key(prefix, b));
}

/// The prefix of a store never ends in a slash, and slashes at the end of the prefix that is
/// asked for make no difference. Nothing but these slashes is dropped.
pub proof fn law_trailing_slashes_do_not_count(prefix: Seq<char>)
    ensures
        trim_end(prefix, '/').len() > 0 ==> trim_end(prefix, '/').last() != '/',
        trim_end(prefix, '/').is_prefix_of(prefix),
        forall|i: int| trim_end(prefix, '/').len() <= i < prefix.len() ==> prefix[i] == '/',
        trim_end(prefix.push('/'), '/') == trim_end(prefix, '/'),
        trim_end(trim_end(prefix, '/'), '/') == trim_end(prefix, '/'),
{
    lemma_trim_end(prefix, '/');
    assert(prefix.push('/').drop_last() =~= prefix);
}

// ---------------------------------------------------------------------------------------
// Values
// ---------------------------------------------------------------------------------------

/// A request for one key is about that key alone, if it is stored.
proof fn lemma_exact_hits(list: Seq<Pair>, contents: Map<Seq<u8>, Seq<u8>>, key: Seq<char>)
    requires
        lists(list, contents),
    ensures
        contents.contains_key(encode_utf8(key)) ==> hits(list, key, Range::Exact) == seq![
            Pair { key: encode_utf8(key), value: contents[encode_utf8(key)] },
        ],
        !contents.contains_key(encode_utf8(key)) ==> hits(list, key, Range::Exact).len() == 0,
{
    let stored = encode_utf8(key);
    let keep = |p: Pair| is_about(key, Range::Exact, p.key);
    if contents.contains_key(stored) {
        let k = choose|k: int| 0 <= k < list.len() && (#[trigger] list[k]).key == stored;
        assert forall|i: int| 0 <= i < list.len() implies (keep(#[trigger] list[i]) <==> k <= i < k
            + 1) by {
            lemma_before_asymmetric(list[i].key, list[k].key);
            if i < k {
                assert(before(list[i].key, list[k].key));
            } else if k < i {
                assert(before(list[k].key, list[i].key));
            }
        }
        lemma_filter_interval(list, keep, k, k + 1);
        assert(contents.contains_key(list[k].key));
        assert(hits(list, key, Range::Exact) =~= seq![
            Pair { key: stored, value: contents[stored] },
        ]);
    } else {
        assert forall|i: int| 0 <= i < list.len() implies (keep(#[trigger] list[i]) <==> 0 <= i < 0) by {
            assert(contents.contains_key(list[i].key));
        }
        lemma_filter_interval(list, keep, 0, 0);
    }
}

/// The value that a store holds under a key, as callers name it.
pub open spec fn stored_value(
    contents: Map<Seq<u8>, Seq<u8>>,
    prefix: Seq<char>,
    key: Seq<char>,
) -> Option<Seq<u8>> {
    let stored = encode_utf8(prefix + key);
    if contents.contains_key(stored) {
        Some(contents[stored])
    } else {
        None
    }
}

/// A get finds the value that is stored under the key, and nothing where none is.
pub proof fn law_get_finds_what_is_stored(
    list: Seq<Pair>,
    contents: Map<Seq<u8>, Seq<u8>>,
    prefix: Seq<char>,
    key: Seq<char>,
)
    requires
        lists(list, contents),
    ensures
        first_value(answer(list, get_spec(prefix, key))) == stored_value(contents, prefix, key),
{
    lemma_exact_hits(list, contents, prefix + key);
}

/// What a reply holds is the value of its first pair, whatever else it holds, and nothing only
/// where it has no pair.
pub proof fn law_first_pair_counts(first: Pair, rest: Seq<Pair>)
    ensures
        first_value(seq![first] + rest) == Some(first.value),
        first_value(Seq::empty()) is None,
{
}

/// A get behind a put finds what was put; under every other key it finds what it found before.
pub proof fn law_get_after_put(
    list: Seq<Pair>,
    contents: Map<Seq<u8>, Seq<u8>>,
    prefix: Seq<char>,
    key: Seq<char>,
    value: Seq<u8>,
    other: Seq<char>,
)
    requires
        lists(list, after_put(contents, prefix + key, value)),
    ensures
        first_value(answer(list, get_spec(prefix, other))) == (if other == key {
            Some(value)
        } else {
            stored_value(contents, prefix, other)
        }),
{
    let after = after_put(contents, prefix + key, value);
    law_get_finds_what_is_stored(list, after, prefix, other);
    law_keys_are_kept_apart(prefix, key, other);
}

/// The keys that a removal is about, as callers name them.
pub open spec fn removes(key: Seq<char>, with_prefix: bool, other: Seq<char>) -> bool {
    if with_prefix {
        key.is_prefix_of(other)
    } else {
        key == other
    }
}

/// Behind the prefix of the store, a removal is about the same keys.
proof fn lemma_about(prefix: Seq<char>, key: Seq<char>, with_prefix: bool, other: Seq<char>)
    ensures
        is_about(
            prefix + key,
            delete_range(with_prefix),
            encode_utf8(prefix + other),
        ) <==> removes(key, with_prefix, other),
{
    let full = prefix + key;
    let full_other = prefix + other;
    law_keys_are_kept_apart(prefix, key, other);
    lemma_encode_prefix(full, full_other);
    if full.is_prefix_of(full_other) {
        assert forall|i: int| 0 <= i < key.len() implies key[i] == other[i] by {
            assert(full[prefix.len() + i] == full_other.subrange(0, full.len() as int)[prefix.len()
                + i]);
        }
        assert(key =~= other.subrange(0, key.len() as int));
    }
    if key.is_prefix_of(other) {
        assert forall|i: int| 0 <= i < full.len() implies full[i] == full_other[i] by {
            if i >= prefix.len() {
                assert(key[i - prefix.len()] == other.subrange(0, key.len() as int)[i
                    - prefix.len()]);
            }
        }
        assert(full =~= full_other.subrange(0, full.len() as int));
    }
}

/// A get behind a delete finds nothing under the keys that the delete is about, which are the
/// key itself or every key that begins with it; under every other key it finds what it found
/// before.
pub proof fn law_get_after_delete(
    list: Seq<Pair>,
    contents: Map<Seq<u8>, Seq<u8>>,
    prefix: Seq<char>,
    key: Seq<char>,
    with_prefix: bool,
    other: Seq<char>,
)
    requires
        lists(list, after_delete(contents, prefix + key, delete_range(with_prefix))),
    ensures
        first_value(answer(list, get_spec(prefix, other))) == (if removes(key, with_prefix, other) {
            None
        } else {
            stored_value(contents, prefix, other)
        }),
{
    let full = prefix + key;
    let full_other = prefix + other;
    let after = after_delete(contents, full, delete_range(with_prefix));
    law_get_finds_what_is_stored(list, after, prefix, other);
    lemma_about(prefix, key, with_prefix, other);
    assert(after.contains_key(encode_utf8(full_other)) <==> contents.contains_key(
        encode_utf8(full_other),
    ) && !is_about(full, delete_range(with_prefix), encode_utf8(full_other)));
}

/// Whether a key, as callers name it, is stored and lies under a prefix.
pub open spec fn holds(
    contents: Map<Seq<u8>, Seq<u8>>,
    base: Seq<char>,
    prefix: Seq<char>,
    key: Seq<char>,
) -> bool {
    prefix.is_prefix_of(key) && stored_value(contents, base, key) is Some
}

/// A put adds its key to what is stored under the prefixes of the key, and a delete takes away
/// the keys that it is about; every other key stays.
pub proof fn law_what_is_stored_changes_as_asked(
    contents: Map<Seq<u8>, Seq<u8>>,
    base: Seq<char>,
    prefix: Seq<char>,
    key: Seq<char>,
    value: Seq<u8>,
    with_prefix: bool,
    other: Seq<char>,
)
    ensures
        holds(after_put(contents, base + key, value), base, prefix, other) <==> holds(
            contents,
            base,
            prefix,
            other,
        ) || (other == key && prefix.is_prefix_of(key)),
        holds(
            after_delete(contents, base + key, delete_range(with_prefix)),
            base,
            prefix,
            other,
        ) <==> holds(contents, base, prefix, other) && !removes(key, with_prefix, other),
{
    law_keys_are_kept_apart(base, key, other);
    lemma_about(base, key, with_prefix, other);
}

// ---------------------------------------------------------------------------------------
// Counting
// ---------------------------------------------------------------------------------------

/// The keys of a store that lie under a prefix.
pub open spec fn stored_under(
    contents: Map<Seq<u8>, Seq<u8>>,
    base: Seq<char>,
    prefix: Seq<char>,
) -> Set<Seq<u8>> {
    contents.dom().filter(
        |stored: Seq<u8>| is_about(base + prefix, Range::Prefix, stored),
    )
}

/// Pairs in order whose keys make up a set are as many as the set has members.
proof fn lemma_as_many(found: Seq<Pair>, set: Set<Seq<u8>>)
    requires
        in_order(found),
        forall|i: int| 0 <= i < found.len() ==> set.contains((#[trigger] found[i]).key),
        forall|key: Seq<u8>| #[trigger]
            set.contains(key) ==> exists|i: int| 0 <= i < found.len() && (#[trigger] found[i]).key == key,
    ensures
        set.finite(),
        found.len() == set.len(),
{
    let keys = found.map_values(|p: Pair| p.key);
    assert forall|i: int, j: int| 0 <= i < keys.len() && 0 <= j < keys.len() && i != j implies keys[i]
        != keys[j] by {
        lemma_before_asymmetric(found[i].key, found[j].key);
        lemma_before_asymmetric(found[j].key, found[i].key);
    }
    assert(keys.to_set() =~= set) by {
        assert forall|key: Seq<u8>| keys.to_set().contains(key) <==> set.contains(key) by {
            if set.contains(key) {
                let i = choose|i: int| 0 <= i < found.len() && (#[trigger] found[i]).key == key;
                assert(keys[i] == key);
            }
        }
    }
    keys.unique_seq_to_set();
    vstd::seq_lib::seq_to_set_is_finite(keys);
}

/// A count is the number of keys that are stored under the prefix. No value comes with it.
pub proof fn law_count_counts_keys(
    list: Seq<Pair>,
    contents: Map<Seq<u8>, Seq<u8>>,
    base: Seq<char>,
    prefix: Seq<char>,
)
    requires
        lists(list, contents),
    ensures
        stored_under(contents, base, prefix).finite(),
        count(list, count_spec(base, prefix)) == stored_under(contents, base, prefix).len(),
        answer(list, count_spec(base, prefix)).len() == 0,
{
    let key = base + prefix;
    let found = hits(list, key, Range::Prefix);
    let keep = |p: Pair| is_about(key, Range::Prefix, p.key);
    let (a, b) = lemma_prefix_interval(list, encode_utf8(key));
    lemma_filter_interval(list, keep, a, b);
    let under = stored_under(contents, base, prefix);
    assert forall|i: int| 0 <= i < found.len() implies under.contains((#[trigger] found[i]).key) by {
        assert(contents.contains_key(list[a + i].key));
    }
    assert forall|stored: Seq<u8>| #[trigger] under.contains(stored) implies exists|i: int|
        0 <= i < found.len() && (#[trigger] found[i]).key == stored by {
        let k = choose|k: int| 0 <= k < list.len() && (#[trigger] list[k]).key == stored;
        assert(found[k - a].key == stored);
    }
    lemma_as_many(found, under);
}

/// The statistics count every key in the store, whatever it begins with. No value comes with
/// them.
pub proof fn law_stats_count_everything(list: Seq<Pair>, contents: Map<Seq<u8>, Seq<u8>>)
    requires
        lists(list, contents),
    ensures
        contents.dom().finite(),
        count(list, stats_spec()) == contents.dom().len(),
        answer(list, stats_spec()).len() == 0,
{
    let keep = |p: Pair| is_about(Seq::empty(), Range::All, p.key);
    lemma_filter_interval(list, keep, 0, list.len() as int);
    assert(list.subrange(0, list.len() as int) =~= list);
    lemma_as_many(list, contents.dom());
}

/// Putting a value under a key that lies under a prefix makes the count of the prefix one more
/// if nothing was stored under the key, and leaves it if something was.
pub proof fn law_count_after_put(
    before_put: Seq<Pair>,
    list: Seq<Pair>,
    contents: Map<Seq<u8>, Seq<u8>>,
    base: Seq<char>,
    prefix: Seq<char>,
    key: Seq<char>,
    value: Seq<u8>,
)
    requires
        lists(before_put, contents),
        lists(list, after_put(contents, base + key, value)),
        prefix.is_prefix_of(key),
    ensures
        count(list, count_spec(base, prefix)) == count(before_put, count_spec(base, prefix)) + (
        if stored_value(contents, base, key) is None {
            1int
        } else {
            0int
        }),
{
    let full = base + key;
    let after = after_put(contents, full, value);
    law_count_counts_keys(before_put, contents, base, prefix);
    law_count_counts_keys(list, after, base, prefix);
    assert(full =~= base + prefix + key.skip(prefix.len() as int)) by {
        assert(key =~= prefix + key.skip(prefix.len() as int));
    }
    lemma_encode_concat(base + prefix, key.skip(prefix.len() as int));
    assert(encode_utf8(base + prefix) =~= encode_utf8(full).subrange(
        0,
        encode_utf8(base + prefix).len() as int,
    ));
    assert(stored_under(after, base, prefix) =~= stored_under(contents, base, prefix).insert(
        encode_utf8(full),
    ));
}

// ---------------------------------------------------------------------------------------
// Changes
// ---------------------------------------------------------------------------------------

/// A change under a key that this library has put can be handed on, and callers learn of it
/// under the name by which they know the key.
pub proof fn law_watch_names_keys_as_callers_do(
    event: StoreEvent,
    prefix: Seq<char>,
    key: Seq<char>,
)
    requires
        event.kv is Some,
        event.kv->0.key@ == encode_utf8(prefix + key),
    ensures
        event.deliverable(prefix),
        event.key(prefix) == key,
{
    let full = prefix + key;
    encode_utf8_valid_utf8(full);
    encode_utf8_decode_utf8(full);
    assert(prefix =~= full.subrange(0, prefix.len() as int));
    assert(full.skip(prefix.len() as int) =~= key);
}

/// Exactly those changes can be handed on that are about a key of this store: one that is text
/// and begins with the prefix of the store.
pub proof fn law_watch_hands_on_what_is_its_own(event: StoreEvent, prefix: Seq<char>)
    ensures
        event.deliverable(prefix) <==> event.kv is Some && exists|key: Seq<char>|
            event.kv->0.key@ == encode_utf8(#[trigger] (prefix + key)),
{
    if event.deliverable(prefix) {
        let text = event.kv->0@.text()->0;
        let key = text.skip(prefix.len() as int);
        assert(prefix =~= text.subrange(0, prefix.len() as int));
        assert(text =~= prefix + key);
        decode_utf8_encode_utf8(event.kv->0.key@);
        assert(event.kv->0.key@ == encode_utf8(prefix + key));
    }
    if event.kv is Some && exists|key: Seq<char>|
        event.kv->0.key@ == encode_utf8(#[trigger] (prefix + key)) {
        let key = choose|key: Seq<char>| event.kv->0.key@ == encode_utf8(#[trigger] (prefix + key));
        law_watch_names_keys_as_callers_do(event, prefix, key);
    }
}

/// A watcher is told of a put under the key as callers name it, with exactly the bytes that the
/// store reports as the new value, whatever they are.
pub proof fn law_watch_tells_what_was_put(
    event: StoreEvent,
    seen: Event,
    prefix: Seq<char>,
    key: Seq<char>,
)
    requires
        event.event_type == EventType::Put,
        event.kv is Some,
        event.kv->0.key@ == encode_utf8(prefix + key),
        seen.tells(event, prefix),
    ensures
        ({
            &&& seen matches Event::Put(data)
            &&& data.key@ == key
            &&& data.value matches Some(bytes)
            &&& bytes_of(bytes) == event.kv->0.value@
        }),
{
    law_watch_names_keys_as_callers_do(event, prefix, key);
}

/// A watcher is told of a removal under the key as callers name it, without a value.
pub proof fn law_watch_tells_what_was_removed(
    event: StoreEvent,
    seen: Event,
    prefix: Seq<char>,
    key: Seq<char>,
)
    requires
        event.event_type == EventType::Delete,
        event.kv is Some,
        event.kv->0.key@ == encode_utf8(prefix + key),
        seen.tells(event, prefix),
    ensures
        seen matches Event::Delete(data) && data.key@ == key && data.value is None,
{
    law_watch_names_keys_as_callers_do(event, prefix, key);
}

/// Behind a put that this library asked for, where the store reports what it was asked to
/// store, the watcher is told of the same key and the same value.
pub proof fn law_watch_after_put(
    request: PutRequest,
    event: StoreEvent,
    seen: Event,
    prefix: Seq<char>,
    key: Seq<char>,
)
    requires
        request.key@ == prefix + key,
        event.event_type == EventType::Put,
        event.kv is Some,
        event.kv->0.key@ == encode_utf8(request.key@),
        event.kv->0.value@ == bytes_of(request.value),
        seen.tells(event, prefix),
    ensures
        event.deliverable(prefix),
        ({
            &&& seen matches Event::Put(data)
            &&& data.key@ == key
            &&& data.value matches Some(bytes)
            &&& bytes_of(bytes) == bytes_of(request.value)
        }),
{
    law_watch_names_keys_as_callers_do(event, prefix, key);
}

/// The changes of a message are handed on up to the first one that is not about a key of this
/// store, and no further.
pub proof fn law_watch_stops_at_a_foreign_change(
    before: Seq<StoreEvent>,
    foreign: StoreEvent,
    behind: Seq<StoreEvent>,
    prefix: Seq<char>,
)
    requires
        forall|i: int| 0 <= i < before.len() ==> (#[trigger] before[i]).deliverable(prefix),
        !foreign.deliverable(prefix),
    ensures
        leading_deliverable(before.push(foreign) + behind, prefix) == before.len(),
{
    let all = before.push(foreign) + behind;
    lemma_leading_deliverable(all, prefix);
    let n = leading_deliverable(all, prefix) as int;
    assert(all[before.len() as int] == foreign);
    if n < before.len() {
        assert(all[n] == before[n]);
    }
}

/// Where every change of a message can be handed on, every one is.
pub proof fn law_watch_drops_no_change(events: Seq<StoreEvent>, prefix: Seq<char>)
    requires
        forall|i: int| 0 <= i < events.len() ==> (#[trigger] events[i]).deliverable(prefix),
    ensures
        leading_deliverable(events, prefix) == events.len(),
{
    lemma_leading_deliverable(events, prefix);
}

} // verus!
