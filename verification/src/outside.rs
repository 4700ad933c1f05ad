//! What the library takes from outside crates and from parts of std that carry no
//! specification of their own. Every contract in this file is trusted.

use bytes::Bytes;
use vstd::prelude::*;
use vstd::utf8::*;

verus! {

/// `bytes::Bytes`, a shared, immutable byte buffer.
#[verifier::external_type_specification]
#[verifier::external_body]
pub struct ExBytes(bytes::Bytes);

/// `ahash::RandomState`, the hasher that `ahash::HashMap` builds on.
#[verifier::external_type_specification]
#[verifier::external_body]
pub struct ExRandomState(ahash::RandomState);

/// The bytes that a buffer holds.
pub uninterp spec fn bytes_of(buffer: Bytes) -> Seq<u8>;

/// The entries that a map holds, each key by its characters and each value by its bytes.
pub uninterp spec fn entries_of(map: ahash::HashMap<String, Bytes>) -> Map<Seq<char>, Seq<u8>>;

/// `bytes::Bytes::from(Vec<u8>)`: the buffer takes over the vector and holds the same bytes
/// in the same order.
#[verifier::external_body]
pub(crate) fn to_bytes(content: Vec<u8>) -> (buffer: Bytes)
    ensures
        bytes_of(buffer) == content@,
{
    Bytes::from(content)
}

/// `ahash::HashMap::default()`: a map without entries.
#[verifier::external_body]
pub(crate) fn new_map() -> (map: ahash::HashMap<String, Bytes>)
    ensures
        (entries_of(map) == Map::<Seq<char>, Seq<u8>>::empty()),
{
    ahash::HashMap::default()
}

/// `insert` of `ahash::HashMap` (std's `HashMap` with ahash's hasher): afterwards the key
/// leads to the value, whatever it led to before, and every other key is left as it was.
#[verifier::external_body]
pub(crate) fn map_insert(map: &mut ahash::HashMap<String, Bytes>, key: String, value: Bytes)
    ensures
        entries_of(*final(map)) == entries_of(*old(map)).insert(key@, bytes_of(value)),
{
    map.insert(key, value);
}

/// `std::str::from_utf8`: the text that the bytes encode, if they are valid UTF-8, and
/// nothing if they are not.
#[verifier::external_body]
pub(crate) fn from_utf8(content: &[u8]) -> (text: Option<&str>)
    ensures
        text is Some <==> valid_utf8(content@),
        text matches Some(s) ==> encode_utf8(s@) == content@,
{
    std::str::from_utf8(content).ok()
}

/// The text that `String::from_utf8_lossy` makes of the given bytes.
pub uninterp spec fn utf8_lossy(content: Seq<u8>) -> Seq<char>;

/// `String::from_utf8_lossy`: the text depends on the bytes alone, and bytes that are valid
/// UTF-8 are taken as they stand. What replaces an invalid sequence is not stated.
#[verifier::external_body]
pub(crate) fn from_utf8_lossy(content: &[u8]) -> (text: String)
    ensures
        text@ == utf8_lossy(content@),
        valid_utf8(content@) ==> encode_utf8(text@) == content@,
{
    String::from_utf8_lossy(content).to_string()
}

} // verus!
