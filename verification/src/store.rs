//! What the store is taken to do: it holds values under keys, keeps the keys in the order of
//! their bytes, and answers a request with the keys that the request is about.

use crate::request::{GetSpec, Pair, Range};
use crate::text::lemma_encode_prefix;
use vstd::prelude::*;
use vstd::utf8::*;

verus! {

/// The order of keys: byte by byte, a key before every key that it is a prefix of.
pub open spec fn before(a: Seq<u8>, b: Seq<u8>) -> bool
    decreases a.len(),
{
    if b.len() == 0 {
        false
    } else if a.len() == 0 {
        true
    } else if a[0] != b[0] {
        a[0] < b[0]
    } else {
        before(a.drop_first(), b.drop_first())
    }
}

/// Whether a request for a key and a range is about a key of the store.
pub open spec fn is_about(key: Seq<char>, range: Range, stored: Seq<u8>) -> bool {
    match range {
        Range::Exact => stored == encode_utf8(key),
        Range::Prefix => encode_utf8(key).is_prefix_of(stored),
        Range::FromKey => !before(stored, encode_utf8(key)),
        Range::All => true,
    }
}

/// Whether a list holds exactly the contents of a store, in order.
pub open spec fn lists(list: Seq<Pair>, contents: Map<Seq<u8>, Seq<u8>>) -> bool {
    &&& in_order(list)
    &&& no_empty_key(list)
    &&& forall|i: int|
        0 <= i < list.len() ==> #[trigger] contents.contains_key(list[i].key)
            && contents[list[i].key] == list[i].value
    &&& forall|key: Seq<u8>| #[trigger]
        contents.contains_key(key) ==> exists|i: int| 0 <= i < list.len() && #[trigger] list[i].key == key
}

/// Whether the keys of a list ascend.
pub open spec fn in_order(list: Seq<Pair>) -> bool {
    forall|i: int, j: int|
        0 <= i < j < list.len() ==> before(#[trigger] list[i].key, #[trigger] list[j].key)
}

/// Whether no key of a list is empty. The store takes no empty key.
pub open spec fn no_empty_key(list: Seq<Pair>) -> bool {
    forall|i: int| 0 <= i < list.len() ==> (#[trigger] list[i]).key.len() > 0
}

/// The pairs of a list that a request is about.
pub open spec fn hits(list: Seq<Pair>, key: Seq<char>, range: Range) -> Seq<Pair> {
    list.filter(|p: Pair| is_about(key, range, p.key))
}

/// How many pairs a request is about.
pub open spec fn count(list: Seq<Pair>, request: GetSpec) -> nat {
    hits(list, request.key, request.range).len()
}

/// The pairs that a request is answered with.
pub open spec fn answer(list: Seq<Pair>, request: GetSpec) -> Seq<Pair> {
    let all = hits(list, request.key, request.range);
    if request.count_only {
        Seq::empty()
    } else if 0 < request.limit < all.len() {
        all.take(request.limit)
    } else {
        all
    }
}

/// The contents of a store once a value has been put under a key.
pub open spec fn after_put(
    contents: Map<Seq<u8>, Seq<u8>>,
    key: Seq<char>,
    value: Seq<u8>,
) -> Map<Seq<u8>, Seq<u8>> {
    contents.insert(encode_utf8(key), value)
}

/// The contents of a store once keys have been removed.
pub open spec fn after_delete(
    contents: Map<Seq<u8>, Seq<u8>>,
    key: Seq<char>,
    range: Range,
) -> Map<Seq<u8>, Seq<u8>> {
    contents.remove_keys(contents.dom().filter(|stored: Seq<u8>| is_about(key, range, stored)))
}

// ---------------------------------------------------------------------------------------
// The order of keys
// ---------------------------------------------------------------------------------------

/// What two keys both begin with has no part in their order.
pub proof fn lemma_before_shared(shared: Seq<u8>, a: Seq<u8>, b: Seq<u8>)
    ensures
        before(shared + a, shared + b) == before(a, b),
    decreases shared.len(),
{
    if shared.len() == 0 {
        assert(shared + a =~= a);
        assert(shared + b =~= b);
    } else {
        let rest = shared.drop_first();
        assert((shared + a).drop_first() =~= rest + a);
        assert((shared + b).drop_first() =~= rest + b);
        lemma_before_shared(rest, a, b);
    }
}

/// No key comes before itself, and no two keys come before each other.
pub proof fn lemma_before_asymmetric(a: Seq<u8>, b: Seq<u8>)
    ensures
        !before(a, a),
        before(a, b) ==> !before(b, a),
    decreases a.len(),
{
    if a.len() > 0 {
        if b.len() > 0 {
            lemma_before_asymmetric(a.drop_first(), b.drop_first());
        } else {
            lemma_before_asymmetric(a.drop_first(), b);
        }
    }
}

/// What lies between two keys that begin with a prefix begins with it, too.
pub proof fn lemma_between(p: Seq<u8>, a: Seq<u8>, b: Seq<u8>, c: Seq<u8>)
    requires
        p.is_prefix_of(a),
        p.is_prefix_of(c),
        before(a, b),
        before(b, c),
    ensures
        p.is_prefix_of(b),
    decreases p.len(),
{
    if p.len() > 0 {
        assert(p[0] == a.subrange(0, p.len() as int)[0]);
        assert(p[0] == c.subrange(0, p.len() as int)[0]);
        assert(b[0] == p[0]);
        let p1 = p.drop_first();
        assert(p1 =~= a.drop_first().subrange(0, p1.len() as int)) by {
            assert(p =~= a.subrange(0, p.len() as int));
        }
        assert(p1 =~= c.drop_first().subrange(0, p1.len() as int)) by {
            assert(p =~= c.subrange(0, p.len() as int));
        }
        lemma_between(p1, a.drop_first(), b.drop_first(), c.drop_first());
        assert(p =~= b.subrange(0, p.len() as int)) by {
            assert(p1 =~= b.drop_first().subrange(0, p1.len() as int));
            assert forall|i: int| 0 <= i < p.len() implies p[i] == b[i] by {
                if i > 0 {
                    assert(p1[i - 1] == b.drop_first().subrange(0, p1.len() as int)[i - 1]);
                }
            }
        }
    } else {
        assert(p =~= b.subrange(0, 0));
    }
}

/// A filter that lets through exactly the places of an interval cuts that interval out.
pub proof fn lemma_filter_interval(list: Seq<Pair>, keep: spec_fn(Pair) -> bool, a: int, b: int)
    requires
        0 <= a <= b <= list.len(),
        forall|i: int| 0 <= i < list.len() ==> (keep(#[trigger] list[i]) <==> a <= i < b),
    ensures
        list.filter(keep) == list.subrange(a, b),
    decreases list.len(),
{
    reveal(Seq::filter);
    if list.len() > 0 {
        let front = list.drop_last();
        let n = list.len() as int;
        assert forall|i: int| 0 <= i < front.len() implies (keep(#[trigger] front[i]) <==> a <= i < b) by {
            assert(front[i] == list[i]);
        }
        if b == n {
            if a == n {
                lemma_filter_interval(front, keep, n - 1, n - 1);
                assert(list.filter(keep) =~= list.subrange(a, b));
            } else {
                lemma_filter_interval(front, keep, a, n - 1);
                assert(keep(list[n - 1]));
                assert(list.subrange(a, b) =~= front.subrange(a, n - 1).push(list.last()));
            }
        } else {
            lemma_filter_interval(front, keep, a, b);
            assert(!keep(list[n - 1]));
            assert(list.subrange(a, b) =~= front.subrange(a, b));
        }
    } else {
        assert(list.filter(keep) =~= list.subrange(a, b));
    }
}

/// In a list that ascends, the keys that begin with a prefix stand next to each other.
pub proof fn lemma_prefix_interval(list: Seq<Pair>, prefix: Seq<u8>) -> (bounds: (int, int))
    requires
        in_order(list),
    ensures
        0 <= bounds.0 <= bounds.1 <= list.len(),
        forall|i: int|
            0 <= i < list.len() ==> (prefix.is_prefix_of(#[trigger] list[i].key) <==> bounds.0 <= i
                < bounds.1),
    decreases list.len(),
{
    if list.len() == 0 {
        (0, 0)
    } else {
        let n = list.len() as int;
        let front = list.drop_last();
        assert(in_order(front)) by {
            assert forall|i: int, j: int| 0 <= i < j < front.len() implies before(
                #[trigger] front[i].key,
                #[trigger] front[j].key,
            ) by {
                assert(before(list[i].key, list[j].key));
            }
        }
        let (a, b) = lemma_prefix_interval(front, prefix);
        assert forall|i: int| 0 <= i < n - 1 implies (prefix.is_prefix_of(#[trigger] list[i].key)
            <==> a <= i < b) by {
            assert(front[i] == list[i]);
        }
        if prefix.is_prefix_of(list[n - 1].key) {
            if a == b {
                (n - 1, n)
            } else {
                if b < n - 1 {
                    assert(before(list[a].key, list[b].key));
                    assert(before(list[b].key, list[n - 1].key));
                    lemma_between(prefix, list[a].key, list[b].key, list[n - 1].key);
                    assert(false);
                }
                (a, n)
            }
        } else {
            (a, b)
        }
    }
}

/// A key that is text begins with a prefix as text exactly if it does byte by byte.
pub proof fn lemma_under(pair: Pair, prefix: Seq<char>)
    requires
        pair.text() is Some,
    ensures
        pair.under(prefix) <==> encode_utf8(prefix).is_prefix_of(pair.key),
        encode_utf8(pair.text()->0) == pair.key,
{
    let text = decode_utf8(pair.key);
    decode_utf8_encode_utf8(pair.key);
    lemma_encode_prefix(prefix, text);
}

} // verus!
