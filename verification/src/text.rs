//! Text as a sequence of characters: prefixes, trimming, splitting and searching.

use vstd::prelude::*;
use vstd::string::*;
use vstd::utf8::*;

verus! {

// ---------------------------------------------------------------------------------------
// UTF-8
// ---------------------------------------------------------------------------------------

/// The text that bytes encode, if they are valid UTF-8.
pub open spec fn text_of(content: Seq<u8>) -> Option<Seq<char>> {
    if valid_utf8(content) {
        Some(decode_utf8(content))
    } else {
        None
    }
}

/// Encoding goes character by character, so it distributes over concatenation.
pub proof fn lemma_encode_concat(a: Seq<char>, b: Seq<char>)
    ensures
        encode_utf8(a + b) == encode_utf8(a) + encode_utf8(b),
    decreases a.len(),
{
    if a.len() == 0 {
        assert(a + b =~= b);
    } else {
        lemma_encode_concat(a.drop_first(), b);
        assert((a + b).drop_first() =~= a.drop_first() + b);
        assert(encode_utf8(a + b) =~= encode_utf8(a) + encode_utf8(b));
    }
}

/// One text is a prefix of another exactly if its encoding is a prefix of the other's.
pub proof fn lemma_encode_prefix(p: Seq<char>, s: Seq<char>)
    ensures
        encode_utf8(p).is_prefix_of(encode_utf8(s)) <==> p.is_prefix_of(s),
    decreases p.len(),
{
    let ep = encode_utf8(p);
    let es = encode_utf8(s);
    if p.is_prefix_of(s) {
        assert(s =~= p + s.skip(p.len() as int));
        lemma_encode_concat(p, s.skip(p.len() as int));
        assert(ep =~= es.subrange(0, ep.len() as int));
    }
    if ep.is_prefix_of(es) && p.len() > 0 {
        encode_utf8_first_scalar(p);
        assert(ep.len() > 0);
        assert(s.len() > 0);
        encode_utf8_first_scalar(s);
        let n = length_of_first_scalar(ep);
        assert forall|i: int| 0 <= i < ep.len() implies ep[i] == es[i] by {
            assert(ep[i] == es.subrange(0, ep.len() as int)[i]);
        }
        assert(length_of_first_scalar(es) == n);
        assert(decode_first_scalar(es) == decode_first_scalar(ep));
        char_u32_cast(p[0], p[0] as u32);
        char_u32_cast(s[0], s[0] as u32);
        assert(p[0] == s[0]);
        let p1 = p.drop_first();
        let s1 = s.drop_first();
        assert(encode_utf8(p1) =~= ep.subrange(n, ep.len() as int));
        assert(encode_utf8(s1) =~= es.subrange(n, es.len() as int));
        assert(encode_utf8(p1) =~= encode_utf8(s1).subrange(0, encode_utf8(p1).len() as int));
        lemma_encode_prefix(p1, s1);
        assert(p1 =~= s1.subrange(0, p1.len() as int));
        assert forall|i: int| 0 <= i < p.len() implies p[i] == s[i] by {
            if i > 0 {
                assert(p1[i - 1] == s1.subrange(0, p1.len() as int)[i - 1]);
            }
        }
        assert(p =~= s.subrange(0, p.len() as int));
    }
    if p.len() == 0 {
        assert(p =~= s.subrange(0, 0));
    }
}

/// Whether a text begins with another.
pub fn starts_with(s: &str, prefix: &str) -> (found: bool)
    ensures
        found == prefix@.is_prefix_of(s@),
{
    let content: &[u8] = s.as_bytes();
    let start: &[u8] = prefix.as_bytes();
    proof {
        lemma_encode_prefix(prefix@, s@);
    }
    if start.len() > content.len() {
        return false;
    }
    let mut i: usize = 0;
    while i < start.len()
        invariant
            i <= start@.len() <= content@.len(),
            content@ == encode_utf8(s@),
            start@ == encode_utf8(prefix@),
            encode_utf8(prefix@).is_prefix_of(encode_utf8(s@)) <==> prefix@.is_prefix_of(s@),
            forall|j: int| 0 <= j < i ==> content@[j] == start@[j],
        decreases start@.len() - i,
    {
        if content[i] != start[i] {
            proof {
                if start@.is_prefix_of(content@) {
                    assert(start@[i as int] == content@.subrange(0, start@.len() as int)[i as int]);
                }
            }
            return false;
        }
        i += 1;
    }
    assert(start@ =~= content@.subrange(0, start@.len() as int));
    true
}

/// Whether two texts are the same.
pub fn equal(a: &str, b: &str) -> (same: bool)
    ensures
        same == (a@ == b@),
{
    proof {
        if b@.is_prefix_of(a@) {
            let tail = a@.skip(b@.len() as int);
            assert(a@ =~= b@ + tail);
            lemma_encode_concat(b@, tail);
            if tail.len() > 0 {
                encode_utf8_first_scalar(tail);
            }
        }
        assert(a@ == b@ ==> b@ =~= a@.subrange(0, b@.len() as int));
    }
    a.as_bytes().len() == b.as_bytes().len() && starts_with(a, b)
}

/// What is left of a text behind a prefix of it.
pub fn strip_prefix<'a>(s: &'a str, prefix: &str) -> (rest: &'a str)
    requires
        prefix@.is_prefix_of(s@),
    ensures
        rest@ == s@.skip(prefix@.len() as int),
        s@ == prefix@ + rest@,
{
    let ghost tail = s@.skip(prefix@.len() as int);
    let n: usize = prefix.as_bytes().len();
    proof {
        let bytes = encode_utf8(s@);
        assert(s@ =~= prefix@ + tail);
        lemma_encode_concat(prefix@, tail);
        encode_utf8_valid_utf8(s@);
        encode_utf8_valid_utf8(tail);
        assert(bytes.subrange(n as int, bytes.len() as int) =~= encode_utf8(tail));
        if n < bytes.len() {
            is_char_boundary_iff_not_is_continuation_byte(bytes, n as int);
            assert(bytes[n as int] == encode_utf8(tail)[0]);
            is_char_boundary_start_end_of_seq(encode_utf8(tail));
            is_char_boundary_iff_not_is_continuation_byte(encode_utf8(tail), 0);
        } else {
            is_char_boundary_start_end_of_seq(bytes);
        }
    }
    let (_head, rest) = s.split_at(n);
    proof {
        encode_utf8_decode_utf8(rest@);
        encode_utf8_decode_utf8(tail);
    }
    rest
}

/// The text that two texts make, one behind the other.
pub fn concatenated(first: &str, second: &str) -> (whole: String)
    ensures
        whole@ == first@ + second@,
{
    first.to_owned().concat(second)
}

// ---------------------------------------------------------------------------------------
// Trimming
// ---------------------------------------------------------------------------------------

/// A text without the run of a character at its end.
pub open spec fn trim_end(s: Seq<char>, c: char) -> Seq<char>
    decreases s.len(),
{
    if s.len() > 0 && s.last() == c {
        trim_end(s.drop_last(), c)
    } else {
        s
    }
}

/// Trimming removes the whole run at the end and nothing else.
pub proof fn lemma_trim_end(s: Seq<char>, c: char)
    ensures
        trim_end(s, c).is_prefix_of(s),
        trim_end(s, c).len() > 0 ==> trim_end(s, c).last() != c,
        forall|i: int| trim_end(s, c).len() <= i < s.len() ==> s[i] == c,
    decreases s.len(),
{
    if s.len() > 0 && s.last() == c {
        let t = trim_end(s, c);
        lemma_trim_end(s.drop_last(), c);
        assert(t =~= s.drop_last().subrange(0, t.len() as int));
        assert(t =~= s.subrange(0, t.len() as int));
        assert forall|i: int| t.len() <= i < s.len() implies s[i] == c by {
            if i < s.len() - 1 {
                assert(s[i] == s.drop_last()[i]);
            }
        }
    } else {
        assert(s =~= s.subrange(0, s.len() as int));
    }
}

/// A text without the run of a character at its end.
pub fn trim_end_matches(s: &str, c: char) -> (trimmed: String)
    ensures
        trimmed@ == trim_end(s@, c),
{
    let mut n: usize = s.unicode_len();
    assert(s@.take(n as int) =~= s@);
    while n > 0 && s.get_char(n - 1) == c
        invariant
            n <= s@.len(),
            trim_end(s@.take(n as int), c) == trim_end(s@, c),
        decreases n,
    {
        assert(s@.take(n as int).drop_last() =~= s@.take(n - 1));
        n -= 1;
    }
    s.substring_char(0, n).to_owned()
}

// ---------------------------------------------------------------------------------------
// Splitting and searching
// ---------------------------------------------------------------------------------------

/// The characters of a text.
pub fn chars_of(s: &str) -> (chars: Vec<char>)
    ensures
        chars@ == s@,
{
    let mut chars: Vec<char> = Vec::new();
    for c in it: s.chars()
        invariant
            it.seq() == s@,
            chars@ == s@.take(it.index() as int),
    {
        chars.push(c);
    }
    assert(s@.take(s@.len() as int) =~= s@);
    chars
}

/// The parts of a text between the occurrences of a separator.
pub open spec fn split_on(s: Seq<char>, sep: char) -> Seq<Seq<char>>
    decreases s.len(),
{
    if s.len() == 0 {
        seq![Seq::empty()]
    } else {
        let parts = split_on(s.drop_last(), sep);
        if s.last() == sep {
            parts.push(Seq::empty())
        } else {
            parts.drop_last().push(parts.last().push(s.last()))
        }
    }
}

/// Parts put together again with the separator between them.
pub open spec fn join_with(parts: Seq<Seq<char>>, sep: char) -> Seq<char>
    decreases parts.len(),
{
    if parts.len() == 0 {
        Seq::empty()
    } else if parts.len() == 1 {
        parts[0]
    } else {
        join_with(parts.drop_last(), sep).push(sep) + parts.last()
    }
}

/// A text splits into at least one part, no part holds the separator, and the parts joined
/// with the separator are the text again.
pub proof fn lemma_split_on(s: Seq<char>, sep: char)
    ensures
        split_on(s, sep).len() >= 1,
        forall|i: int| 0 <= i < split_on(s, sep).len() ==> !(#[trigger] split_on(s, sep)[i]).contains(sep),
        join_with(split_on(s, sep), sep) == s,
    decreases s.len(),
{
    if s.len() > 0 {
        let before = split_on(s.drop_last(), sep);
        let parts = split_on(s, sep);
        lemma_split_on(s.drop_last(), sep);
        if s.last() == sep {
            assert(parts.drop_last() =~= before);
            assert(join_with(parts, sep) =~= s.drop_last().push(sep));
        } else {
            assert(parts.drop_last() =~= before.drop_last());
            assert(parts.last() == before.last().push(s.last()));
            assert(join_with(parts, sep) =~= join_with(before, sep).push(s.last()));
            assert forall|i: int| 0 <= i < parts.len() implies !(#[trigger] parts[i]).contains(sep) by {
                if i < parts.len() - 1 {
                    assert(parts[i] == before[i]);
                } else {
                    assert(!before[i].contains(sep));
                    if parts[i].contains(sep) {
                        let k = choose|k: int| 0 <= k < parts[i].len() && parts[i][k] == sep;
                        assert(before[i][k] == sep);
                    }
                }
            }
        }
        assert(s.drop_last().push(s.last()) =~= s);
    }
}

/// The texts that strings hold.
pub open spec fn texts(strings: Seq<String>) -> Seq<Seq<char>> {
    strings.map_values(|s: String| s@)
}

/// The parts of a text between the occurrences of a separator.
pub fn split(s: &str, sep: char) -> (parts: Vec<String>)
    ensures
        texts(parts@) == split_on(s@, sep),
{
    let chars: Vec<char> = chars_of(s);
    let mut parts: Vec<String> = Vec::new();
    let mut start: usize = 0;
    let mut i: usize = 0;
    assert(s@.subrange(0, 0) =~= Seq::<char>::empty());
    assert(texts(parts@).push(s@.subrange(0, 0)) =~= split_on(s@.take(0), sep));
    while i < chars.len()
        invariant
            chars@ == s@,
            start <= i <= s@.len(),
            texts(parts@).push(s@.subrange(start as int, i as int)) == split_on(s@.take(i as int), sep),
        decreases s@.len() - i,
    {
        let ghost before = split_on(s@.take(i as int), sep);
        let ghost done = texts(parts@);
        proof {
            assert(s@.take(i + 1).drop_last() =~= s@.take(i as int));
            assert(before.last() == s@.subrange(start as int, i as int));
            assert(before.drop_last() =~= done);
        }
        if chars[i] == sep {
            parts.push(s.substring_char(start, i).to_owned());
            start = i + 1;
            assert(texts(parts@) =~= before);
            assert(s@.subrange(start as int, i + 1) =~= Seq::<char>::empty());
        } else {
            assert(s@.subrange(start as int, i + 1) =~= before.last().push(s@[i as int]));
        }
        i += 1;
        assert(texts(parts@).push(s@.subrange(start as int, i as int)) =~= split_on(
            s@.take(i as int),
            sep,
        ));
    }
    let ghost done = texts(parts@);
    parts.push(s.substring_char(start, i).to_owned());
    assert(texts(parts@) =~= done.push(s@.subrange(start as int, i as int)));
    assert(s@.take(i as int) =~= s@);
    parts
}

/// Whether a text occurs somewhere in another.
pub open spec fn occurs_in(needle: Seq<char>, s: Seq<char>) -> bool {
    exists|i: int| 0 <= i <= s.len() - needle.len() && #[trigger] occurs_at(needle, s, i)
}

/// Whether a text occurs in another at the given place.
pub open spec fn occurs_at(needle: Seq<char>, s: Seq<char>, i: int) -> bool {
    s.subrange(i, i + needle.len()) == needle
}

/// A text occurs in another exactly if the other is something, the text, and something more.
pub proof fn lemma_occurs_in(needle: Seq<char>, s: Seq<char>)
    ensures
        occurs_in(needle, s) <==> exists|a: Seq<char>, b: Seq<char>| s == #[trigger] (a + needle + b),
{
    if occurs_in(needle, s) {
        let i = choose|i: int| 0 <= i <= s.len() - needle.len() && #[trigger] occurs_at(needle, s, i);
        assert(s =~= s.take(i) + needle + s.skip(i + needle.len())) by {
            assert(s =~= s.take(i) + s.subrange(i, i + needle.len()) + s.skip(i + needle.len()));
        }
    }
    if exists|a: Seq<char>, b: Seq<char>| s == #[trigger] (a + needle + b) {
        let (a, b) = choose|a: Seq<char>, b: Seq<char>| s == #[trigger] (a + needle + b);
        assert(s.subrange(a.len() as int, (a.len() + needle.len()) as int) =~= needle);
        assert(occurs_at(needle, s, a.len() as int));
    }
}

/// Whether a text occurs somewhere in another.
pub fn contains(s: &str, needle: &str) -> (found: bool)
    ensures
        found == occurs_in(needle@, s@),
{
    let chars: Vec<char> = chars_of(s);
    let wanted: Vec<char> = chars_of(needle);
    if wanted.len() > chars.len() {
        return false;
    }
    let mut i: usize = 0;
    while i <= chars.len() - wanted.len()
        invariant
            chars@ == s@,
            wanted@ == needle@,
            wanted@.len() <= chars@.len(),
            i <= chars@.len() - wanted@.len() + 1,
            forall|k: int| 0 <= k < i ==> !(#[trigger] occurs_at(needle@, s@, k)),
        decreases chars@.len() - wanted@.len() + 1 - i,
    {
        let mut j: usize = 0;
        while j < wanted.len() && chars[i + j] == wanted[j]
            invariant
                chars@ == s@,
                wanted@ == needle@,
                i + wanted@.len() <= chars@.len() == chars.len(),
                j <= wanted@.len(),
                forall|k: int| 0 <= k < j ==> s@[i + k] == needle@[k],
            decreases wanted@.len() - j,
        {
            j += 1;
        }
        if j == wanted.len() {
            assert(s@.subrange(i as int, i + needle@.len()) =~= needle@);
            assert(occurs_at(needle@, s@, i as int));
            return true;
        }
        proof {
            if occurs_at(needle@, s@, i as int) {
                assert(s@.subrange(i as int, i + needle@.len())[j as int] == needle@[j as int]);
            }
        }
        i += 1;
    }
    false
}

} // verus!
