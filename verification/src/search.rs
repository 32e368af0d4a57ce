//! Searching the catalogue: which categories, subcategories and links have a
//! title that contains the query.

use vstd::prelude::*;
use crate::data::{Category, Link, Subcategory};
use crate::text::{chars_of, contains, find_in, first_occurrence};

verus! {

/// The position (in characters) of the first occurrence of `query` in
/// `text`, if it occurs.
pub fn search(text: &str, query: &str) -> (r: Option<usize>)
    ensures
        match r {
            Some(i) => first_occurrence(text@, query@) == Some(i as int),
            None => first_occurrence(text@, query@) is None,
        },
        r is Some <==> contains(text@, query@),
{
    let t = chars_of(text);
    let q = chars_of(query);
    find_in(&t, &q)
}

/// A search result: a category, a subcategory (category, subcategory), or a
/// link listed directly under a category (category, link).
#[derive(Clone, Copy, Debug, PartialEq, Eq, Structural)]
pub enum SearchHit {
    Category(usize),
    Subcategory(usize, usize),
    Link(usize, usize),
}

/// The positions, in order, of the titles that contain `q`.
pub open spec fn matching(titles: Seq<Seq<char>>, q: Seq<char>) -> Seq<int>
    decreases titles.len(),
{
    if titles.len() == 0 {
        seq![]
    } else {
        matching(titles.drop_last(), q) + if contains(titles.last(), q) {
            seq![titles.len() - 1]
        } else {
            seq![]
        }
    }
}

pub open spec fn category_titles(cats: Seq<Category>) -> Seq<Seq<char>> {
    cats.map_values(|c: Category| c.title@)
}

pub open spec fn subcategory_titles(c: Category) -> Seq<Seq<char>> {
    c.subcategories@.map_values(|s: Subcategory| s.title@)
}

pub open spec fn link_titles(links: Seq<Link>) -> Seq<Seq<char>> {
    links.map_values(|l: Link| l.title@)
}

/// The categories whose title contains `q`, in order.
pub open spec fn category_hits(cats: Seq<Category>, q: Seq<char>) -> Seq<SearchHit> {
    matching(category_titles(cats), q).map_values(|i: int| SearchHit::Category(i as usize))
}

/// The subcategories of the first `n` categories whose title contains `q`,
/// category by category.
pub open spec fn subcategory_hits(cats: Seq<Category>, q: Seq<char>, n: int) -> Seq<SearchHit>
    decreases n,
{
    if n <= 0 {
        seq![]
    } else {
        subcategory_hits(cats, q, n - 1) + matching(subcategory_titles(cats[n - 1]), q).map_values(
            |j: int| SearchHit::Subcategory((n - 1) as usize, j as usize),
        )
    }
}

/// The direct links of the first `n` categories whose title contains `q`,
/// category by category.
pub open spec fn link_hits(cats: Seq<Category>, q: Seq<char>, n: int) -> Seq<SearchHit>
    decreases n,
{
    if n <= 0 {
        seq![]
    } else {
        link_hits(cats, q, n - 1) + matching(link_titles(cats[n - 1].direct_links@), q).map_values(
            |j: int| SearchHit::Link((n - 1) as usize, j as usize),
        )
    }
}

/// What `fuzzy_search` finds: matching categories, then matching
/// subcategories, then matching direct links.
pub open spec fn search_results(cats: Seq<Category>, q: Seq<char>) -> Seq<SearchHit> {
    category_hits(cats, q) + subcategory_hits(cats, q, cats.len() as int) + link_hits(
        cats,
        q,
        cats.len() as int,
    )
}

proof fn lemma_matching_step(titles: Seq<Seq<char>>, q: Seq<char>, j: int)
    requires
        0 <= j < titles.len(),
    ensures
        matching(titles.take(j + 1), q) == matching(titles.take(j), q) + if contains(titles[j], q) {
            seq![j]
        } else {
            seq![]
        },
{
    assert(titles.take(j + 1).drop_last() =~= titles.take(j));
}

proof fn lemma_map_push<A, B>(s: Seq<A>, x: A, f: spec_fn(A) -> B)
    ensures
        (s + seq![x]).map_values(f) == s.map_values(f).push(f(x)),
        (s + Seq::<A>::empty()).map_values(f) == s.map_values(f),
{
    assert((s + seq![x]).map_values(f) =~= s.map_values(f).push(f(x)));
    assert((s + Seq::<A>::empty()).map_values(f) =~= s.map_values(f));
}

/// Appends the matching categories to `out`.
fn category_matches(query: &str, categories: &[Category], out: &mut Vec<SearchHit>)
    ensures
        final(out)@ == old(out)@ + category_hits(categories@, query@),
{
    let ghost start = out@;
    let ghost titles = category_titles(categories@);
    let mut i: usize = 0;
    while i < categories.len()
        invariant
            i <= categories@.len(),
            titles == category_titles(categories@),
            out@ == start + matching(titles.take(i as int), query@).map_values(|k: int| SearchHit::Category(k as usize)),
        decreases categories@.len() - i,
    {
        proof {
            lemma_matching_step(titles, query@, i as int);
            lemma_map_push(matching(titles.take(i as int), query@), i as int, |k: int| SearchHit::Category(k as usize));
        }
        if search(categories[i].title.as_str(), query).is_some() {
            out.push(SearchHit::Category(i));
        }
        i = i + 1;
    }
    proof {
        assert(titles.take(categories@.len() as int) =~= titles);
    }
}

/// Appends the matching subcategories to `out`.
fn subcategory_matches(query: &str, categories: &[Category], out: &mut Vec<SearchHit>)
    ensures
        final(out)@ == old(out)@ + subcategory_hits(categories@, query@, categories@.len() as int),
{
    let ghost start = out@;
    let mut i: usize = 0;
    while i < categories.len()
        invariant
            i <= categories@.len(),
            out@ == start + subcategory_hits(categories@, query@, i as int),
        decreases categories@.len() - i,
    {
        let subs = &categories[i].subcategories;
        let ghost titles = subcategory_titles(categories@[i as int]);
        let ghost f = |k: int| SearchHit::Subcategory(i, k as usize);
        let ghost before = out@;
        let mut j: usize = 0;
        while j < subs.len()
            invariant
                j <= subs@.len(),
                i < categories@.len(),
                subs == &categories@[i as int].subcategories,
                titles == subcategory_titles(categories@[i as int]),
                f == |k: int| SearchHit::Subcategory(i, k as usize),
                out@ == before + matching(titles.take(j as int), query@).map_values(f),
            decreases subs@.len() - j,
        {
            proof {
                lemma_matching_step(titles, query@, j as int);
                lemma_map_push(matching(titles.take(j as int), query@), j as int, f);
            }
            if search(subs[j].title.as_str(), query).is_some() {
                out.push(SearchHit::Subcategory(i, j));
            }
            j = j + 1;
        }
        proof {
            assert(titles.take(subs@.len() as int) =~= titles);
            let g = |k: int| SearchHit::Subcategory(((i + 1) - 1) as usize, k as usize);
            assert(f =~= g);
            assert(subcategory_hits(categories@, query@, i + 1) =~= subcategory_hits(categories@, query@, i as int) + matching(titles, query@).map_values(f));
        }
        i = i + 1;
    }
}

/// Appends the matching direct links to `out`.
fn link_matches(query: &str, categories: &[Category], out: &mut Vec<SearchHit>)
    ensures
        final(out)@ == old(out)@ + link_hits(categories@, query@, categories@.len() as int),
{
    let ghost start = out@;
    let mut i: usize = 0;
    while i < categories.len()
        invariant
            i <= categories@.len(),
            out@ == start + link_hits(categories@, query@, i as int),
        decreases categories@.len() - i,
    {
        let links = &categories[i].direct_links;
        let ghost titles = link_titles(categories@[i as int].direct_links@);
        let ghost f = |k: int| SearchHit::Link(i, k as usize);
        let ghost before = out@;
        let mut j: usize = 0;
        while j < links.len()
            invariant
                j <= links@.len(),
                i < categories@.len(),
                links == &categories@[i as int].direct_links,
                titles == link_titles(categories@[i as int].direct_links@),
                f == |k: int| SearchHit::Link(i, k as usize),
                out@ == before + matching(titles.take(j as int), query@).map_values(f),
            decreases links@.len() - j,
        {
            proof {
                lemma_matching_step(titles, query@, j as int);
                lemma_map_push(matching(titles.take(j as int), query@), j as int, f);
            }
            if search(links[j].title.as_str(), query).is_some() {
                out.push(SearchHit::Link(i, j));
            }
            j = j + 1;
        }
        proof {
            assert(titles.take(links@.len() as int) =~= titles);
            let g = |k: int| SearchHit::Link(((i + 1) - 1) as usize, k as usize);
            assert(f =~= g);
            assert(link_hits(categories@, query@, i + 1) =~= link_hits(categories@, query@, i as int) + matching(titles, query@).map_values(f));
        }
        i = i + 1;
    }
}

/// The categories, subcategories and direct links whose title contains
/// `query`: first the matching categories, then the matching subcategories,
/// then the matching direct links, each group in catalogue order.
pub fn fuzzy_search(query: &str, categories: &[Category]) -> (results: Vec<SearchHit>)
    ensures
        results@ == search_results(categories@, query@),
{
    let mut results: Vec<SearchHit> = Vec::new();
    category_matches(query, categories, &mut results);
    subcategory_matches(query, categories, &mut results);
    link_matches(query, categories, &mut results);
    proof {
        assert(Seq::<SearchHit>::empty() + category_hits(categories@, query@) =~= category_hits(categories@, query@));
    }
    results
}

/// Every position that `matching` gives holds a title containing the query.
pub proof fn lemma_matching_sound(titles: Seq<Seq<char>>, q: Seq<char>)
    ensures
        forall|k: int|
            0 <= k < matching(titles, q).len() ==> 0 <= #[trigger] matching(titles, q)[k] < titles.len()
                && contains(titles[matching(titles, q)[k]], q),
    decreases titles.len(),
{
    if titles.len() > 0 {
        let init = titles.drop_last();
        lemma_matching_sound(init, q);
        let m = matching(titles, q);
        let mi = matching(init, q);
        assert forall|k: int| 0 <= k < m.len() implies 0 <= #[trigger] m[k] < titles.len() && contains(titles[m[k]], q) by {
            if k < mi.len() {
                assert(m[k] == mi[k]);
                assert(init[mi[k]] == titles[mi[k]]);
            }
        }
    }
}

/// Whether a hit names an existing entry whose title contains the query.
pub open spec fn hit_is_match(cats: Seq<Category>, q: Seq<char>, h: SearchHit) -> bool {
    match h {
        SearchHit::Category(i) => i < cats.len() && contains(cats[i as int].title@, q),
        SearchHit::Subcategory(i, j) => i < cats.len() && j < cats[i as int].subcategories@.len()
            && contains(cats[i as int].subcategories@[j as int].title@, q),
        SearchHit::Link(i, j) => i < cats.len() && j < cats[i as int].direct_links@.len()
            && contains(cats[i as int].direct_links@[j as int].title@, q),
    }
}

proof fn lemma_subcategory_hits_sound(cats: Seq<Category>, q: Seq<char>, n: int)
    requires
        0 <= n <= cats.len() <= usize::MAX,
    ensures
        forall|k: int| 0 <= k < subcategory_hits(cats, q, n).len() ==> hit_is_match(cats, q, #[trigger] subcategory_hits(cats, q, n)[k]),
    decreases n,
{
    if n > 0 {
        lemma_subcategory_hits_sound(cats, q, n - 1);
        let titles = subcategory_titles(cats[n - 1]);
        lemma_matching_sound(titles, q);
        let prev = subcategory_hits(cats, q, n - 1);
        let m = matching(titles, q);
        let add = m.map_values(|j: int| SearchHit::Subcategory((n - 1) as usize, j as usize));
        assert forall|k: int| 0 <= k < subcategory_hits(cats, q, n).len() implies hit_is_match(cats, q, #[trigger] subcategory_hits(cats, q, n)[k]) by {
            if k >= prev.len() {
                let j = m[k - prev.len()];
                assert(cats[n - 1].subcategories.len() == cats[n - 1].subcategories@.len());
                assert(add[k - prev.len()] == SearchHit::Subcategory((n - 1) as usize, j as usize));
                assert(titles[j] == cats[n - 1].subcategories@[j].title@);
            } else {
                assert(subcategory_hits(cats, q, n)[k] == prev[k]);
            }
        }
    }
}

proof fn lemma_link_hits_sound(cats: Seq<Category>, q: Seq<char>, n: int)
    requires
        0 <= n <= cats.len() <= usize::MAX,
    ensures
        forall|k: int| 0 <= k < link_hits(cats, q, n).len() ==> hit_is_match(cats, q, #[trigger] link_hits(cats, q, n)[k]),
    decreases n,
{
    if n > 0 {
        lemma_link_hits_sound(cats, q, n - 1);
        let titles = link_titles(cats[n - 1].direct_links@);
        lemma_matching_sound(titles, q);
        let prev = link_hits(cats, q, n - 1);
        let m = matching(titles, q);
        let add = m.map_values(|j: int| SearchHit::Link((n - 1) as usize, j as usize));
        assert forall|k: int| 0 <= k < link_hits(cats, q, n).len() implies hit_is_match(cats, q, #[trigger] link_hits(cats, q, n)[k]) by {
            if k >= prev.len() {
                let j = m[k - prev.len()];
                assert(cats[n - 1].direct_links.len() == cats[n - 1].direct_links@.len());
                assert(add[k - prev.len()] == SearchHit::Link((n - 1) as usize, j as usize));
                assert(titles[j] == cats[n - 1].direct_links@[j].title@);
            } else {
                assert(link_hits(cats, q, n)[k] == prev[k]);
            }
        }
    }
}

/// Every search result names an existing category, subcategory or link
/// whose title contains the query.
pub proof fn law_results_are_matches(cats: Seq<Category>, q: Seq<char>)
    requires
        cats.len() <= usize::MAX,
    ensures
        forall|k: int| 0 <= k < search_results(cats, q).len() ==> hit_is_match(cats, q, #[trigger] search_results(cats, q)[k]),
{
    let titles = category_titles(cats);
    lemma_matching_sound(titles, q);
    lemma_subcategory_hits_sound(cats, q, cats.len() as int);
    lemma_link_hits_sound(cats, q, cats.len() as int);
    let a = category_hits(cats, q);
    let b = subcategory_hits(cats, q, cats.len() as int);
    let c = link_hits(cats, q, cats.len() as int);
    assert forall|k: int| 0 <= k < search_results(cats, q).len() implies hit_is_match(cats, q, #[trigger] search_results(cats, q)[k]) by {
        if k < a.len() {
            let i = matching(titles, q)[k];
            assert(search_results(cats, q)[k] == a[k]);
            assert(titles[i] == cats[i].title@);
        } else if k < a.len() + b.len() {
            assert(search_results(cats, q)[k] == b[k - a.len()]);
        } else {
            assert(search_results(cats, q)[k] == c[k - a.len() - b.len()]);
        }
    }
}

/// Every title that contains the query has its position in `matching`.
pub proof fn lemma_matching_complete(titles: Seq<Seq<char>>, q: Seq<char>)
    ensures
        forall|j: int| 0 <= j < titles.len() && #[trigger] contains(titles[j], q) ==> matching(titles, q).contains(j),
    decreases titles.len(),
{
    if titles.len() > 0 {
        let init = titles.drop_last();
        lemma_matching_complete(init, q);
        let m = matching(titles, q);
        let mi = matching(init, q);
        let tail: Seq<int> = if contains(titles.last(), q) { seq![titles.len() - 1] } else { seq![] };
        assert(m == mi + tail);
        assert forall|j: int| 0 <= j < titles.len() && #[trigger] contains(titles[j], q) implies m.contains(j) by {
            if j < titles.len() - 1 {
                assert(init[j] == titles[j]);
                assert(mi.contains(j));
                let k = choose|k: int| 0 <= k < mi.len() && mi[k] == j;
                assert(m[k] == j);
            } else {
                assert(m[mi.len() as int] == j);
            }
        }
    }
}

proof fn lemma_subcategory_hits_complete(cats: Seq<Category>, q: Seq<char>, n: int)
    requires
        0 <= n <= cats.len() <= usize::MAX,
    ensures
        forall|i: int, j: int|
            0 <= i < n && 0 <= j < cats[i].subcategories@.len()
                && #[trigger] contains(cats[i].subcategories@[j].title@, q)
                ==> subcategory_hits(cats, q, n).contains(SearchHit::Subcategory(i as usize, j as usize)),
    decreases n,
{
    if n > 0 {
        lemma_subcategory_hits_complete(cats, q, n - 1);
        let titles = subcategory_titles(cats[n - 1]);
        lemma_matching_complete(titles, q);
        let prev = subcategory_hits(cats, q, n - 1);
        let m = matching(titles, q);
        let f = |j: int| SearchHit::Subcategory((n - 1) as usize, j as usize);
        let add = m.map_values(f);
        let all = subcategory_hits(cats, q, n);
        assert(all == prev + add);
        assert forall|i: int, j: int|
            0 <= i < n && 0 <= j < cats[i].subcategories@.len()
                && #[trigger] contains(cats[i].subcategories@[j].title@, q)
                implies all.contains(SearchHit::Subcategory(i as usize, j as usize)) by {
            if i < n - 1 {
                let k = choose|k: int| 0 <= k < prev.len() && prev[k] == SearchHit::Subcategory(i as usize, j as usize);
                assert(all[k] == prev[k]);
            } else {
                assert(titles[j] == cats[i].subcategories@[j].title@);
                assert(m.contains(j));
                let k = choose|k: int| 0 <= k < m.len() && m[k] == j;
                assert(add[k] == f(j));
                assert(all[prev.len() + k] == add[k]);
            }
        }
    }
}

proof fn lemma_link_hits_complete(cats: Seq<Category>, q: Seq<char>, n: int)
    requires
        0 <= n <= cats.len() <= usize::MAX,
    ensures
        forall|i: int, j: int|
            0 <= i < n && 0 <= j < cats[i].direct_links@.len()
                && #[trigger] contains(cats[i].direct_links@[j].title@, q)
                ==> link_hits(cats, q, n).contains(SearchHit::Link(i as usize, j as usize)),
    decreases n,
{
    if n > 0 {
        lemma_link_hits_complete(cats, q, n - 1);
        let titles = link_titles(cats[n - 1].direct_links@);
        lemma_matching_complete(titles, q);
        let prev = link_hits(cats, q, n - 1);
        let m = matching(titles, q);
        let f = |j: int| SearchHit::Link((n - 1) as usize, j as usize);
        let add = m.map_values(f);
        let all = link_hits(cats, q, n);
        assert(all == prev + add);
        assert forall|i: int, j: int|
            0 <= i < n && 0 <= j < cats[i].direct_links@.len()
                && #[trigger] contains(cats[i].direct_links@[j].title@, q)
                implies all.contains(SearchHit::Link(i as usize, j as usize)) by {
            if i < n - 1 {
                let k = choose|k: int| 0 <= k < prev.len() && prev[k] == SearchHit::Link(i as usize, j as usize);
                assert(all[k] == prev[k]);
            } else {
                assert(titles[j] == cats[i].direct_links@[j].title@);
                assert(m.contains(j));
                let k = choose|k: int| 0 <= k < m.len() && m[k] == j;
                assert(add[k] == f(j));
                assert(all[prev.len() + k] == add[k]);
            }
        }
    }
}

/// The search misses nothing: every existing category, subcategory or
/// direct link whose title contains the query is among the results.
pub proof fn law_results_are_complete(cats: Seq<Category>, q: Seq<char>, h: SearchHit)
    requires
        cats.len() <= usize::MAX,
        hit_is_match(cats, q, h),
    ensures
        search_results(cats, q).contains(h),
{
    let a = category_hits(cats, q);
    let b = subcategory_hits(cats, q, cats.len() as int);
    let c = link_hits(cats, q, cats.len() as int);
    let r = search_results(cats, q);
    assert(r == a + b + c);
    match h {
        SearchHit::Category(i) => {
            let titles = category_titles(cats);
            lemma_matching_complete(titles, q);
            assert(titles[i as int] == cats[i as int].title@);
            let m = matching(titles, q);
            assert(m.contains(i as int));
            let k = choose|k: int| 0 <= k < m.len() && m[k] == i as int;
            assert(a[k] == SearchHit::Category(i));
            assert(r[k] == a[k]);
        },
        SearchHit::Subcategory(i, j) => {
            lemma_subcategory_hits_complete(cats, q, cats.len() as int);
            assert(contains(cats[i as int].subcategories@[j as int].title@, q));
            assert(b.contains(h));
            let k = choose|k: int| 0 <= k < b.len() && b[k] == h;
            assert(r[a.len() + k] == b[k]);
        },
        SearchHit::Link(i, j) => {
            lemma_link_hits_complete(cats, q, cats.len() as int);
            assert(contains(cats[i as int].direct_links@[j as int].title@, q));
            assert(c.contains(h));
            let k = choose|k: int| 0 <= k < c.len() && c[k] == h;
            assert(r[a.len() + b.len() + k] == c[k]);
        },
    }
}

} // verus!
