//! What the site's pages are made of: the documents newest first, and the
//! footer between them.

use vstd::prelude::*;
use vstd::string::StringExecFns;
use crate::string_map::StringMap;
use crate::tokens::{PageToken, PageTokenView, SiteContent, SiteContentView};

verus! {

/// The page token that stands between two documents.
pub open spec fn footer_view() -> Seq<PageTokenView> {
    seq![PageTokenView { token_type: "footer"@, meta: Map::empty() }]
}

/// The footer: one page token of type `footer`, without attributes.
pub fn footer() -> (r: Vec<PageToken>)
    ensures
        r.deep_view() == footer_view(),
{
    let meta: StringMap<String> = StringMap::new();
    let mut r: Vec<PageToken> = Vec::new();
    r.push(PageToken { token_type: String::from_str("footer"), meta });
    assert(r.deep_view() =~= footer_view());
    r
}

/// The text of the archive page.
pub fn archive_list() -> (r: String)
    ensures
        r@ == "list all entries"@,
{
    String::from_str("list all entries")
}

/// Where a document with this timestamp goes into `sorted`: behind the
/// leading documents that are not older than it.
pub open spec fn insertion_point(sorted: Seq<SiteContentView>, timestamp: u128) -> int
    decreases sorted.len(),
{
    if sorted.len() == 0 || sorted[0].timestamp < timestamp {
        0
    } else {
        1 + insertion_point(sorted.drop_first(), timestamp)
    }
}

/// The documents newest first. Documents with one timestamp keep the order
/// in which they came.
pub open spec fn newest_first(pages: Seq<SiteContentView>) -> Seq<SiteContentView>
    decreases pages.len(),
{
    if pages.len() == 0 {
        Seq::empty()
    } else {
        let front = newest_first(pages.drop_last());
        front.insert(insertion_point(front, pages.last().timestamp), pages.last())
    }
}

/// The timestamps of `pages` never rise.
pub open spec fn is_newest_first(pages: Seq<SiteContentView>) -> bool {
    forall|i: int, j: int|
        0 <= i < j < pages.len() ==> (#[trigger] pages[i]).timestamp >= (#[trigger] pages[j]).timestamp
}

/// The insertion point lies within the sequence, behind documents that are
/// not older; the document at it, if there is one, is older.
pub proof fn lemma_insertion_point(sorted: Seq<SiteContentView>, timestamp: u128)
    ensures
        0 <= insertion_point(sorted, timestamp) <= sorted.len(),
        forall|j: int|
            0 <= j < insertion_point(sorted, timestamp) ==> (#[trigger] sorted[j]).timestamp
                >= timestamp,
        insertion_point(sorted, timestamp) < sorted.len() ==> sorted[insertion_point(
            sorted,
            timestamp,
        )].timestamp < timestamp,
    decreases sorted.len(),
{
    if !(sorted.len() == 0 || sorted[0].timestamp < timestamp) {
        let rest = sorted.drop_first();
        lemma_insertion_point(rest, timestamp);
        let p = insertion_point(rest, timestamp);
        assert forall|j: int| 0 <= j < p + 1 implies (#[trigger] sorted[j]).timestamp >= timestamp by {
            if j > 0 {
                assert(sorted[j] == rest[j - 1]);
            }
        }
        if p < rest.len() {
            assert(sorted[p + 1] == rest[p]);
        }
    }
}

/// The first position whose document is older is the insertion point.
pub proof fn lemma_insertion_point_is(sorted: Seq<SiteContentView>, timestamp: u128, idx: int)
    requires
        0 <= idx <= sorted.len(),
        forall|j: int| 0 <= j < idx ==> (#[trigger] sorted[j]).timestamp >= timestamp,
        idx < sorted.len() ==> sorted[idx].timestamp < timestamp,
    ensures
        insertion_point(sorted, timestamp) == idx,
    decreases sorted.len(),
{
    if idx > 0 {
        let rest = sorted.drop_first();
        assert(sorted[0].timestamp >= timestamp);
        assert forall|j: int| 0 <= j < idx - 1 implies (#[trigger] rest[j]).timestamp >= timestamp by {
            assert(rest[j] == sorted[j + 1]);
        }
        if idx - 1 < rest.len() {
            assert(rest[idx - 1] == sorted[idx]);
        }
        lemma_insertion_point_is(rest, timestamp, idx - 1);
    }
}

/// Ordering newest first gives the same documents, each as often as
/// before, with timestamps that never rise.
pub proof fn lemma_newest_first(pages: Seq<SiteContentView>)
    ensures
        is_newest_first(newest_first(pages)),
        newest_first(pages).to_multiset() == pages.to_multiset(),
        newest_first(pages).len() == pages.len(),
    decreases pages.len(),
{
    broadcast use vstd::seq_lib::group_to_multiset_ensures;

    if pages.len() == 0 {
    } else {
        let front_pages = pages.drop_last();
        let last = pages.last();
        lemma_newest_first(front_pages);
        let front = newest_first(front_pages);
        let p = insertion_point(front, last.timestamp);
        lemma_insertion_point(front, last.timestamp);
        let result = front.insert(p, last);
        assert forall|i: int, j: int| 0 <= i < j < result.len() implies (#[trigger] result[i]).timestamp
            >= (#[trigger] result[j]).timestamp by {
            let a = if i < p { i } else { i - 1 };
            let b = if j < p { j } else { j - 1 };
            if i != p {
                assert(result[i] == front[a]);
            }
            if j != p {
                assert(result[j] == front[b]);
            }
            if i != p && j != p {
                assert(front[a].timestamp >= front[b].timestamp);
            } else if i == p {
                assert(front[p].timestamp < last.timestamp);
                assert(front[p].timestamp >= front[b].timestamp || b == p);
            }
        }
        front.to_multiset_ensures();
        assert(pages =~= front_pages.push(last));
        assert(result.to_multiset() =~= front.to_multiset().insert(last)) by {
            lemma_insert_to_multiset(front, p, last);
        }
        assert(pages.to_multiset() =~= front_pages.to_multiset().insert(last)) by {
            front_pages.to_multiset_ensures();
        }
    }
}

/// Inserting a value into a sequence adds it once to the sequence's multiset.
pub proof fn lemma_insert_to_multiset<T>(s: Seq<T>, i: int, value: T)
    requires
        0 <= i <= s.len(),
    ensures
        s.insert(i, value).to_multiset() == s.to_multiset().insert(value),
{
    broadcast use vstd::seq_lib::group_to_multiset_ensures;

    let front = s.take(i);
    let back = s.skip(i);
    assert(s =~= front + back);
    assert(s.insert(i, value) =~= front.push(value) + back);
    vstd::seq_lib::lemma_multiset_commutative(front, back);
    vstd::seq_lib::lemma_multiset_commutative(front.push(value), back);
    front.to_multiset_ensures();
    assert(s.insert(i, value).to_multiset() =~= s.to_multiset().insert(value));
}

/// Orders the documents newest first. Documents with one timestamp keep the
/// order in which they came.
pub fn sort_newest_first(pages: Vec<SiteContent>) -> (sorted: Vec<SiteContent>)
    ensures
        sorted.deep_view() == newest_first(pages.deep_view()),
        is_newest_first(sorted.deep_view()),
        sorted.deep_view().to_multiset() == pages.deep_view().to_multiset(),
        sorted.len() == pages.len(),
{
    let ghost all = pages.deep_view();
    let mut rest = pages;
    let mut sorted: Vec<SiteContent> = Vec::new();
    let ghost mut done: int = 0;
    assert(sorted.deep_view() =~= newest_first(all.take(0)));
    assert(rest.deep_view() =~= all.skip(0));
    while rest.len() > 0
        invariant
            0 <= done <= all.len(),
            rest.deep_view() == all.skip(done),
            sorted.deep_view() == newest_first(all.take(done)),
        decreases rest.len(),
    {
        let ghost rest_before = rest.deep_view();
        let ghost sorted_before = sorted.deep_view();
        assert(rest_before[0] == rest[0]@);
        let page = rest.remove(0);
        assert(rest.deep_view() =~= rest_before.drop_first());
        assert(page@ == all[done]);

        let n = sorted.len();
        let mut idx: usize = 0;
        while idx < n && sorted[idx].timestamp >= page.timestamp
            invariant
                n == sorted.len(),
                0 <= idx <= n,
                sorted_before == sorted.deep_view(),
                forall|j: int| 0 <= j < idx ==> (#[trigger] sorted_before[j]).timestamp >= page.timestamp,
            decreases n - idx,
        {
            assert(sorted_before[idx as int] == sorted[idx as int]@);
            idx += 1;
        }
        proof {
            if idx < n {
                assert(sorted_before[idx as int] == sorted[idx as int]@);
            }
            lemma_insertion_point_is(sorted_before, page.timestamp, idx as int);
            assert(all.take(done + 1).drop_last() =~= all.take(done));
            assert(all.take(done + 1).last() == all[done]);
        }
        sorted.insert(idx, page);
        assert(sorted.deep_view() =~= sorted_before.insert(idx as int, all[done]));
        proof {
            assert(rest.deep_view() =~= all.skip(done + 1));
            done = done + 1;
        }
    }
    proof {
        assert(all.take(done) =~= all);
        lemma_newest_first(all);
    }
    sorted
}

/// `items` with `separator` between each two of them.
pub open spec fn interspersed<T>(items: Seq<T>, separator: T) -> Seq<T> {
    Seq::new(
        if items.len() == 0 {
            0nat
        } else {
            (2 * items.len() - 1) as nat
        },
        |i: int|
            if i % 2 == 0 {
                items[i / 2]
            } else {
                separator
            },
    )
}

/// Calls `Itertools::intersperse` on the groups, which yields them in
/// order with a clone of `separator` between each two of them, and collects
/// what it yields.
#[verifier::external_body]
fn intersperse_groups(groups: Vec<Vec<PageToken>>, separator: Vec<PageToken>) -> (r: Vec<
    Vec<PageToken>,
>)
    ensures
        r.deep_view() == interspersed(groups.deep_view(), separator.deep_view()),
{
    itertools::Itertools::intersperse(groups.into_iter(), separator).collect()
}

/// The page tokens of every group, one group after the other.
pub fn concat_groups(groups: Vec<Vec<PageToken>>) -> (tokens: Vec<PageToken>)
    ensures
        tokens.deep_view() == groups.deep_view().flatten(),
{
    let ghost total = groups.deep_view().flatten();
    let mut rest = groups;
    let mut tokens: Vec<PageToken> = Vec::new();
    assert(tokens.deep_view() + rest.deep_view().flatten() =~= total);
    while rest.len() > 0
        invariant
            tokens.deep_view() + rest.deep_view().flatten() == total,
        decreases rest.len(),
    {
        let ghost before = tokens.deep_view();
        let ghost rest_before = rest.deep_view();
        assert(rest_before[0] == rest[0].deep_view());
        let mut group = rest.remove(0);
        assert(rest.deep_view() =~= rest_before.drop_first());
        let ghost added = group.deep_view();
        tokens.append(&mut group);
        assert(tokens.deep_view() =~= before + added);
        assert(rest_before.flatten() == added + rest.deep_view().flatten());
        assert(tokens.deep_view() + rest.deep_view().flatten() =~= before + rest_before.flatten());
    }
    assert(tokens.deep_view() + Seq::<PageTokenView>::empty() =~= tokens.deep_view());
    tokens
}

/// The page tokens of each document, in the order of the documents.
pub open spec fn token_groups(pages: Seq<SiteContentView>) -> Seq<Seq<PageTokenView>> {
    Seq::new(pages.len(), |i: int| pages[i].page_tokens)
}

/// The body of the index page: the page tokens of the documents, newest
/// first, with the footer between each two documents.
pub open spec fn index_body(pages: Seq<SiteContentView>) -> Seq<PageTokenView> {
    interspersed(token_groups(newest_first(pages)), footer_view()).flatten()
}

/// Builds the body of the index page from the documents.
pub fn index_tokens(pages: Vec<SiteContent>) -> (tokens: Vec<PageToken>)
    ensures
        tokens.deep_view() == index_body(pages.deep_view()),
{
    let mut pages = sort_newest_first(pages);
    let ghost ordered = pages.deep_view();

    let mut groups: Vec<Vec<PageToken>> = Vec::new();
    let ghost mut done: int = 0;
    assert(pages.deep_view() =~= ordered.skip(0));
    while pages.len() > 0
        invariant
            0 <= done <= ordered.len(),
            pages.deep_view() == ordered.skip(done),
            groups.len() == done,
            forall|j: int| 0 <= j < done ==> (#[trigger] groups[j]).deep_view() == ordered[j].page_tokens,
        decreases pages.len(),
    {
        let ghost before = pages.deep_view();
        assert(before[0] == pages[0]@);
        let page = pages.remove(0);
        assert(pages.deep_view() =~= before.drop_first());
        groups.push(page.page_tokens);
        proof {
            assert(pages.deep_view() =~= ordered.skip(done + 1));
            done = done + 1;
        }
    }
    assert(groups.deep_view() =~= token_groups(ordered));
    concat_groups(intersperse_groups(groups, footer()))
}

} // verus!
