//! What the models of requests, replies and results show: everything that is there, as it is.

use crate::listing::{buffers, entries, keys_of, map_of, values_of, Entry, EntrySpec};
use crate::outside::bytes_of;
use crate::request::{pairs, GetRequest, KeyValue, Pair};
use crate::store::lemma_under;
use crate::text::{text_of, texts};
use bytes::Bytes;
use vstd::prelude::*;
use vstd::utf8::*;

verus! {

/// The model of a request shows every part of it, so that two requests with the same model ask
/// for the same.
pub proof fn law_requests_are_shown_whole(request: GetRequest)
    ensures
        request@.key == request.key@,
        request@.range == request.range,
        request@.ascending == request.ascending,
        request@.limit == request.limit,
        request@.count_only == request.count_only,
{
}

/// The model of a reply shows every pair at its place, with its key and its value.
pub proof fn law_replies_are_shown_whole(kvs: Seq<KeyValue>)
    ensures
        pairs(kvs).len() == kvs.len(),
        forall|i: int|
            0 <= i < kvs.len() ==> (#[trigger] pairs(kvs)[i]).key == kvs[i].key@ && pairs(kvs)[i].value
                == kvs[i].value@,
{
}

/// The model of entries shows every entry at its place, with its key and its value.
pub proof fn law_entries_are_shown_whole(list: Seq<Entry>)
    ensures
        entries(list).len() == list.len(),
        forall|i: int|
            0 <= i < list.len() ==> (#[trigger] entries(list)[i]).key == list[i].key@ && entries(
                list,
            )[i].value == bytes_of(list[i].value),
{
}

/// The models of lists of texts and of buffers show every one at its place.
pub proof fn law_lists_are_shown_whole(strings: Seq<String>, list: Seq<Bytes>)
    ensures
        texts(strings).len() == strings.len(),
        forall|i: int| 0 <= i < strings.len() ==> #[trigger] texts(strings)[i] == strings[i]@,
        buffers(list).len() == list.len(),
        forall|i: int| 0 <= i < list.len() ==> #[trigger] buffers(list)[i] == bytes_of(list[i]),
{
}

/// The keys and the values of entries stand at the places of the entries, and in the map of the
/// entries the latest entry of a key counts.
pub proof fn law_entries_make_lists_and_a_map(list: Seq<EntrySpec>, entry: EntrySpec)
    ensures
        keys_of(list).len() == list.len(),
        values_of(list).len() == list.len(),
        forall|i: int| 0 <= i < list.len() ==> #[trigger] keys_of(list)[i] == list[i].key,
        forall|i: int| 0 <= i < list.len() ==> #[trigger] values_of(list)[i] == list[i].value,
        map_of(Seq::empty()) == Map::<Seq<char>, Seq<u8>>::empty(),
        map_of(list.push(entry)) == map_of(list).insert(entry.key, entry.value),
{
    assert(list.push(entry).drop_last() =~= list);
}

/// Bytes are read as a text exactly if they are its encoding, and a key lies under a prefix
/// exactly if it is text and its bytes begin with those of the prefix.
pub proof fn law_texts_are_what_bytes_encode(content: Seq<u8>, text: Seq<char>, value: Seq<u8>)
    ensures
        text_of(content) is Some <==> valid_utf8(content),
        text_of(content) == Some(text) <==> content == encode_utf8(text),
        (Pair { key: content, value }).text() == text_of(content),
        (Pair { key: content, value }).under(text) <==> valid_utf8(content) && encode_utf8(
            text,
        ).is_prefix_of(content),
{
    encode_utf8_valid_utf8(text);
    encode_utf8_decode_utf8(text);
    if valid_utf8(content) {
        decode_utf8_encode_utf8(content);
        lemma_under(Pair { key: content, value }, text);
    }
}

} // verus!
