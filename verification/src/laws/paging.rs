//! What a listing asks for, which pages it can read, and what each page adds.

use crate::listing::{leading, lemma_leading, CursorSpec, EntrySpec, ReadingSpec};
use crate::request::{Pair, Range};
use crate::store::{answer, lemma_under};
use vstd::prelude::*;
use vstd::utf8::*;

verus! {

/// Whether the key of a pair begins with a text.
pub open spec fn begins(pair: Pair, start: Seq<char>) -> bool {
    encode_utf8(start).is_prefix_of(pair.key)
}

/// What reading comes to with some pages, whatever they hold.
pub open spec fn read_pages(state: ReadingSpec, pages: Seq<Seq<Pair>>) -> ReadingSpec
    decreases pages.len(),
{
    if pages.len() == 0 {
        state
    } else {
        read_pages(state, pages.drop_last()).next(pages.last())
    }
}

/// Whether every page comes where one is due, and can be read.
pub open spec fn due(state: ReadingSpec, pages: Seq<Seq<Pair>>) -> bool
    decreases pages.len(),
{
    pages.len() > 0 ==> {
        let earlier = read_pages(state, pages.drop_last());
        &&& due(state, pages.drop_last())
        &&& !earlier.cursor.done
        &&& earlier.cursor.accepts(pages.last())
    }
}

/// Whatever has been read, the next page is asked for with the page size that the listing was
/// started with as its limit, in ascending order, and with values.
pub proof fn law_page_size_is_the_limit(
    base: Seq<char>,
    prefix: Seq<char>,
    page_size: int,
    pages: Seq<Seq<Pair>>,
)
    ensures
        ({
            let request = read_pages(ReadingSpec::start(base, prefix, page_size), pages).cursor.request();
            &&& request.limit == page_size
            &&& request.ascending
            &&& !request.count_only
        }),
{
    lemma_cursor(base, prefix, page_size, pages);
}

/// No answer of a store to the request for a page holds more pairs than a page has room for.
pub proof fn law_no_answer_is_longer_than_a_page(
    list: Seq<Pair>,
    base: Seq<char>,
    prefix: Seq<char>,
    page_size: int,
    pages: Seq<Seq<Pair>>,
)
    requires
        page_size > 0,
    ensures
        answer(
            list,
            read_pages(ReadingSpec::start(base, prefix, page_size), pages).cursor.request(),
        ).len() <= page_size,
{
    law_page_size_is_the_limit(base, prefix, page_size, pages);
}

/// Whatever has been read, the listing is about the same keys.
proof fn lemma_cursor(base: Seq<char>, prefix: Seq<char>, page_size: int, pages: Seq<Seq<Pair>>)
    ensures
        ({
            let cursor = read_pages(ReadingSpec::start(base, prefix, page_size), pages).cursor;
            &&& cursor.base == base
            &&& cursor.key == base + prefix
            &&& cursor.page_size == page_size
        }),
    decreases pages.len(),
{
    if pages.len() > 0 {
        lemma_cursor(base, prefix, page_size, pages.drop_last());
    }
}

/// A page that can be read goes on with the prefix to its end exactly if every key of it begins
/// with the prefix.
proof fn lemma_all_under(cursor: CursorSpec, page: Seq<Pair>)
    requires
        cursor.accepts(page),
    ensures
        leading(page, cursor.key) == page.len() <==> forall|i: int|
            0 <= i < page.len() ==> begins(#[trigger] page[i], cursor.key),
{
    lemma_leading(page, cursor.key);
    let n = leading(page, cursor.key) as int;
    assert forall|i: int| 0 <= i < n implies begins(#[trigger] page[i], cursor.key) by {
        assert(page[i].under(cursor.key));
        lemma_under(page[i], cursor.key);
    }
    if n < page.len() {
        assert(page[n].text() is Some);
        lemma_under(page[n], cursor.key);
        assert(!begins(page[n], cursor.key));
    }
}

/// The first page is asked for by the prefix that is listed, behind the prefix of the store;
/// every other one from the last key of the page before onwards. A listing is over exactly if
/// the last page was not full or held a key that does not begin with the prefix.
pub proof fn law_pages_follow_each_other(
    base: Seq<char>,
    prefix: Seq<char>,
    page_size: int,
    pages: Seq<Seq<Pair>>,
)
    requires
        due(ReadingSpec::start(base, prefix, page_size), pages),
    ensures
        ({
            let cursor = read_pages(ReadingSpec::start(base, prefix, page_size), pages).cursor;
            let request = cursor.request();
            &&& pages.len() == 0 ==> {
                &&& !cursor.done
                &&& request.key == base + prefix
                &&& request.range == Range::Prefix
            }
            &&& pages.len() > 0 ==> (cursor.done <==> pages.last().len() < page_size || exists|i: int|
                0 <= i < pages.last().len() && !begins(#[trigger] pages.last()[i], base + prefix))
            &&& pages.len() > 0 && !cursor.done ==> {
                &&& pages.last().len() > 0
                &&& encode_utf8(request.key) == pages.last().last().key
                &&& request.range == Range::FromKey
            }
        }),
{
    lemma_cursor(base, prefix, page_size, pages);
    if pages.len() > 0 {
        let earlier = read_pages(ReadingSpec::start(base, prefix, page_size), pages.drop_last()).cursor;
        let page = pages.last();
        lemma_cursor(base, prefix, page_size, pages.drop_last());
        lemma_all_under(earlier, page);
        if earlier.goes_on(page) {
            lemma_leading(page, earlier.key);
            if page.len() > 0 {
                assert(page[page.len() - 1].under(earlier.key));
                lemma_under(page.last(), earlier.key);
            }
        }
    }
}

/// Exactly those pages can be read in which every key is text, up to and with the first one that
/// does not begin with the prefix; a page without a key can be read where pages have a size.
pub proof fn law_which_pages_can_be_read(cursor: CursorSpec, page: Seq<Pair>)
    ensures
        cursor.accepts(page) <==> {
            &&& page.len() == 0 ==> cursor.page_size > 0
            &&& forall|i: int|
                0 <= i < page.len() && (forall|j: int|
                    0 <= j < i ==> begins(#[trigger] page[j], cursor.key)) ==> valid_utf8(
                    (#[trigger] page[i]).key,
                )
        },
{
    lemma_leading(page, cursor.key);
    let n = leading(page, cursor.key) as int;
    if cursor.accepts(page) {
        assert forall|i: int|
            0 <= i < page.len() && (forall|j: int|
                0 <= j < i ==> begins(#[trigger] page[j], cursor.key)) implies valid_utf8(
            (#[trigger] page[i]).key,
        ) by {
            if n < i {
                assert(begins(page[n], cursor.key));
                assert(page[n].text() is Some);
                lemma_under(page[n], cursor.key);
            }
            assert(page[i].text() is Some);
        }
    }
    if forall|i: int|
        0 <= i < page.len() && (forall|j: int| 0 <= j < i ==> begins(#[trigger] page[j], cursor.key))
            ==> valid_utf8((#[trigger] page[i]).key) {
        assert forall|i: int| 0 <= i < page.len() && i <= n implies (#[trigger] page[i]).text()
            is Some by {
            assert forall|j: int| 0 <= j < i implies begins(#[trigger] page[j], cursor.key) by {
                assert(page[j].under(cursor.key));
                lemma_under(page[j], cursor.key);
            }
        }
    }
}

/// Whether every key of a page is text and begins with the prefix.
pub open spec fn all_inside(cursor: CursorSpec, page: Seq<Pair>) -> bool {
    forall|i: int|
        0 <= i < page.len() ==> valid_utf8((#[trigger] page[i]).key) && begins(page[i], cursor.key)
}

proof fn lemma_inside(cursor: CursorSpec, page: Seq<Pair>)
    ensures
        leading(page, cursor.key) == page.len() <==> all_inside(cursor, page),
{
    lemma_leading(page, cursor.key);
    let n = leading(page, cursor.key) as int;
    if n == page.len() {
        assert forall|i: int| 0 <= i < page.len() implies valid_utf8((#[trigger] page[i]).key)
            && begins(page[i], cursor.key) by {
            assert(page[i].under(cursor.key));
            lemma_under(page[i], cursor.key);
        }
    } else if all_inside(cursor, page) {
        assert(valid_utf8(page[n].key) && begins(page[n], cursor.key));
        lemma_under(page[n], cursor.key);
    }
}

/// How many pairs of a longer page lie under the prefix.
proof fn lemma_leading_push(cursor: CursorSpec, page: Seq<Pair>, pair: Pair)
    ensures
        leading(page.push(pair), cursor.key) == (if leading(page, cursor.key) == page.len()
            && pair.under(cursor.key) {
            page.len() + 1
        } else {
            leading(page, cursor.key)
        }),
    decreases page.len(),
{
    let longer = page.push(pair);
    if page.len() == 0 {
        assert(longer.drop_first() =~= Seq::<Pair>::empty());
        assert(longer[0] == pair);
        assert(leading(longer.drop_first(), cursor.key) == 0);
    } else {
        assert(longer[0] == page[0]);
        assert(longer.drop_first() =~= page.drop_first().push(pair));
        lemma_leading_push(cursor, page.drop_first(), pair);
    }
}

/// What a page adds, pair by pair. A pair whose key begins with the prefix is added behind the
/// others, under the key as callers name it and with its value, unless its key is the last one
/// of the page before. A pair outside the prefix is not added, and nothing behind it is.
pub proof fn law_what_a_pair_adds(cursor: CursorSpec, page: Seq<Pair>, pair: Pair)
    requires
        cursor.base.is_prefix_of(cursor.key),
    ensures
        cursor.found_in(Seq::empty()) == Seq::<EntrySpec>::empty(),
        ({
            let earlier = cursor.found_in(page);
            let found = cursor.found_in(page.push(pair));
            if all_inside(cursor, page.push(pair)) && pair.key != encode_utf8(cursor.last) {
                &&& found.len() == earlier.len() + 1
                &&& found.take(earlier.len() as int) == earlier
                &&& encode_utf8(cursor.base + found.last().key) == pair.key
                &&& found.last().value == pair.value
            } else {
                found == earlier
            }
        }),
{
    reveal(Seq::filter);
    let empty = Seq::<Pair>::empty();
    assert(empty.take(0) =~= empty);
    assert(cursor.found_in(empty) =~= Seq::<EntrySpec>::empty());
    let longer = page.push(pair);
    let keep = |p: Pair| p.text() != Some(cursor.last);
    let shown = |p: Pair| cursor.entry(p);
    lemma_leading(page, cursor.key);
    lemma_leading_push(cursor, page, pair);
    lemma_inside(cursor, page);
    lemma_inside(cursor, longer);
    if leading(longer, cursor.key) == longer.len() {
        assert(longer[page.len() as int] == pair);
        assert(page.take(page.len() as int) =~= page);
        assert(longer.take(longer.len() as int) =~= longer);
        assert(longer.drop_last() =~= page);
        lemma_under(pair, cursor.key);
        let text = pair.text()->0;
        if text == cursor.last {
            assert(pair.key == encode_utf8(cursor.last));
            assert(longer.filter(keep) =~= page.filter(keep));
        } else {
            if pair.key == encode_utf8(cursor.last) {
                encode_utf8_decode_utf8(cursor.last);
                encode_utf8_decode_utf8(text);
            }
            assert(longer.filter(keep) =~= page.filter(keep).push(pair));
            assert(page.filter(keep).push(pair).map_values(shown) =~= page.filter(keep).map_values(
                shown,
            ).push(cursor.entry(pair)));
            let found = cursor.found_in(longer);
            assert(found == cursor.found_in(page).push(cursor.entry(pair)));
            assert(found.take(cursor.found_in(page).len() as int) =~= cursor.found_in(page));
            let key = text.skip(cursor.base.len() as int);
            assert(text =~= cursor.base + key) by {
                assert(cursor.key =~= text.subrange(0, cursor.key.len() as int));
                assert(cursor.base =~= cursor.key.subrange(0, cursor.base.len() as int));
                assert(cursor.base =~= text.subrange(0, cursor.base.len() as int)) by {
                    assert(text.subrange(0, cursor.key.len() as int).subrange(
                        0,
                        cursor.base.len() as int,
                    ) =~= text.subrange(0, cursor.base.len() as int));
                }
            }
        }
    } else {
        let n = leading(page, cursor.key) as int;
        assert(leading(longer, cursor.key) == n);
        assert(longer.take(n) =~= page.take(n));
    }
}

/// What has been read is what had been read before, and behind it what the page adds. The key
/// that a page passes over is the last one of the page before, and none on the first page.
pub proof fn law_reading_adds_up(
    base: Seq<char>,
    prefix: Seq<char>,
    page_size: int,
    pages: Seq<Seq<Pair>>,
    page: Seq<Pair>,
)
    requires
        due(ReadingSpec::start(base, prefix, page_size), pages),
    ensures
        ({
            let state = read_pages(ReadingSpec::start(base, prefix, page_size), pages);
            &&& state.cursor.base == base
            &&& state.cursor.key == base + prefix
            &&& state.next(page).entries == state.entries + state.cursor.found_in(page)
            &&& pages.len() == 0 ==> state.entries.len() == 0 && state.cursor.last.len() == 0
            &&& pages.len() > 0 && !state.cursor.done ==> encode_utf8(state.cursor.last)
                == pages.last().last().key
        }),
{
    lemma_cursor(base, prefix, page_size, pages);
    law_pages_follow_each_other(base, prefix, page_size, pages);
}

} // verus!
