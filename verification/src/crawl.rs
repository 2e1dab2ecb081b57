//! The plan of a crawl: which pages to visit, and which datasets belong to
//! which collection.
//!
//! Of the links of the sitemap those count that hold `/data-sets/` and are
//! addresses with a path. They are put in the order of their text. An
//! address with two path segments is that of a collection, one with three
//! that of a dataset. A dataset belongs to a collection when its address
//! begins with that of the collection. Among the collections, and among the
//! datasets of one collection, the first with an alias stands for all with
//! that alias.

use crate::locator::{page_url, page_url_views, PageUrl, PageUrlView};
use crate::order::{lemma_lex_irreflexive, lemma_lex_transitive, lex_less, lex_lt};
use crate::text::{
    chars_of, contains, has_infix, has_prefix, same_text, starts_with, string_views,
};
use vstd::prelude::*;

verus! {

/// Whether the link `link` points into the part of the repository that
/// holds the data sets.
pub open spec fn in_repository(link: Seq<char>) -> bool {
    contains(link, "/data-sets/"@)
}

/// The page address that the link `link` gives, where it counts.
pub open spec fn candidate(link: Seq<char>) -> Option<PageUrlView> {
    if in_repository(link) {
        match page_url(link) {
            Ok(u) => Some(u),
            Err(_) => None,
        }
    } else {
        None
    }
}

/// The page addresses that the links `links` give, in the order of the
/// links.
pub open spec fn candidates(links: Seq<Seq<char>>) -> Seq<PageUrlView> {
    links.filter_map(|link: Seq<char>| candidate(link))
}

/// The page addresses that the links `links` give, in the order of the
/// links.
pub fn harvest(links: &Vec<String>) -> (r: Vec<PageUrl>)
    ensures
        page_url_views(r@) == candidates(string_views(links@)),
{
    let pattern = chars_of("/data-sets/");
    let ghost f = |link: Seq<char>| candidate(link);
    let ghost all = string_views(links@);
    let mut out: Vec<PageUrl> = Vec::new();
    let mut i: usize = 0;
    while i < links.len()
        invariant
            i <= links.len(),
            all == string_views(links@),
            pattern@ == "/data-sets/"@,
            f == (|link: Seq<char>| candidate(link)),
            page_url_views(out@) == all.take(i as int).filter_map(f),
        decreases links.len() - i,
    {
        proof {
            all.lemma_filter_map_take_succ(f, i as int);
        }
        let link = chars_of(links[i].as_str());
        if has_infix(&link, &pattern) {
            match PageUrl::parse(links[i].as_str()) {
                Ok(u) => {
                    out.push(u);
                },
                Err(_) => {},
            }
        }
        i += 1;
    }
    assert(all.take(links.len() as int) =~= all);
    out
}

/// Where `u` goes among the addresses `sorted`: before the first that its
/// text comes strictly before, or at the end.
pub open spec fn place(sorted: Seq<PageUrlView>, u: PageUrlView) -> int
    decreases sorted.len(),
{
    if sorted.len() == 0 {
        0
    } else if lex_lt(u.text, sorted[0].text) {
        0
    } else {
        1 + place(sorted.drop_first(), u)
    }
}

/// The addresses `urls` in the order of their text. Addresses with the same
/// text keep their order.
pub open spec fn ordered(urls: Seq<PageUrlView>) -> Seq<PageUrlView>
    decreases urls.len(),
{
    if urls.len() == 0 {
        urls
    } else {
        let head = ordered(urls.drop_last());
        head.insert(place(head, urls.last()), urls.last())
    }
}

/// Whether the texts of `urls` never go down.
pub open spec fn in_order(urls: Seq<PageUrlView>) -> bool {
    forall|i: int, j: int|
        0 <= i < j < urls.len() ==> !lex_lt((#[trigger] urls[j]).text, (#[trigger] urls[i]).text)
}

/// The place of an address is the first position whose text it comes
/// strictly before.
pub proof fn lemma_place(sorted: Seq<PageUrlView>, u: PageUrlView, p: int)
    requires
        0 <= p <= sorted.len(),
        p < sorted.len() ==> lex_lt(u.text, sorted[p].text),
        forall|k: int| 0 <= k < p ==> !lex_lt(u.text, (#[trigger] sorted[k]).text),
    ensures
        place(sorted, u) == p,
    decreases sorted.len(),
{
    if sorted.len() > 0 && p > 0 {
        lemma_place(sorted.drop_first(), u, p - 1);
    }
}

/// The place of an address lies within the list, no address before it is
/// one that the address comes strictly before, and the address at it is.
pub proof fn lemma_place_first(sorted: Seq<PageUrlView>, u: PageUrlView)
    ensures
        0 <= place(sorted, u) <= sorted.len(),
        place(sorted, u) < sorted.len() ==> lex_lt(u.text, sorted[place(sorted, u)].text),
        forall|k: int| 0 <= k < place(sorted, u) ==> !lex_lt(u.text, (#[trigger] sorted[k]).text),
    decreases sorted.len(),
{
    if sorted.len() > 0 && !lex_lt(u.text, sorted[0].text) {
        lemma_place_first(sorted.drop_first(), u);
        let p = place(sorted.drop_first(), u);
        assert forall|k: int| 0 <= k < p + 1 implies !lex_lt(
            u.text,
            (#[trigger] sorted[k]).text,
        ) by {
            if k > 0 {
                assert(sorted[k] == sorted.drop_first()[k - 1]);
            }
        }
    }
}

/// Ordering keeps every address and puts the texts in order.
pub proof fn lemma_ordered(urls: Seq<PageUrlView>)
    ensures
        ordered(urls).len() == urls.len(),
        ordered(urls).to_multiset() == urls.to_multiset(),
        in_order(ordered(urls)),
    decreases urls.len(),
{
    if urls.len() > 0 {
        let head = ordered(urls.drop_last());
        let u = urls.last();
        let p = place(head, u);
        lemma_ordered(urls.drop_last());
        lemma_place_first(head, u);
        let r = head.insert(p, u);
        assert forall|i: int, j: int| 0 <= i < j < r.len() implies !lex_lt(
            (#[trigger] r[j]).text,
            (#[trigger] r[i]).text,
        ) by {
            if i == p && lex_lt(r[j].text, u.text) {
                lemma_lex_transitive(r[j].text, u.text, head[p].text);
                lemma_lex_irreflexive(head[p].text);
            }
        }
        head.insert_ensures(p, u);
        r.to_multiset_ensures();
        assert(r.remove(p) =~= head);
        urls.drop_last().to_multiset_ensures();
        assert(urls =~= urls.drop_last().push(u));
    }
}

/// Puts page addresses in the order of their text. Addresses with the same
/// text keep their order.
pub fn sort_urls(urls: Vec<PageUrl>) -> (r: Vec<PageUrl>)
    ensures
        page_url_views(r@) == ordered(page_url_views(urls@)),
        in_order(page_url_views(r@)),
        page_url_views(r@).to_multiset() == page_url_views(urls@).to_multiset(),
{
    let ghost all = page_url_views(urls@);
    proof {
        lemma_ordered(all);
    }
    let mut out: Vec<PageUrl> = Vec::new();
    let mut i: usize = 0;
    while i < urls.len()
        invariant
            i <= urls.len(),
            all == page_url_views(urls@),
            out.len() == i,
            page_url_views(out@) == ordered(all.take(i as int)),
        decreases urls.len() - i,
    {
        let u = urls[i].clone();
        let key = chars_of(u.text.as_str());
        let ghost head = page_url_views(out@);
        let mut p: usize = 0;
        let mut found = false;
        while p < out.len() && !found
            invariant
                p <= out.len(),
                key@ == u@.text,
                head == page_url_views(out@),
                forall|k: int| 0 <= k < p ==> !lex_lt(u@.text, (#[trigger] head[k]).text),
                found ==> p < out.len() && lex_lt(u@.text, head[p as int].text),
            decreases out.len() - p + if found { 0int } else { 1int },
        {
            let other = chars_of(out[p].text.as_str());
            if lex_less(&key, &other) {
                found = true;
            } else {
                p += 1;
            }
        }
        proof {
            lemma_place(head, u@, p as int);
            assert(all.take(i + 1).drop_last() =~= all.take(i as int));
        }
        out.insert(p, u);
        i += 1;
    }
    assert(all.take(urls.len() as int) =~= all);
    out
}

/// Whether `u` is the address of a collection: its path has two segments.
pub open spec fn is_collection_url(u: PageUrlView) -> bool {
    u.segments.len() == 2
}

/// Whether `u` is the address of a dataset: its path has three segments.
pub open spec fn is_dataset_url(u: PageUrlView) -> bool {
    u.segments.len() == 3
}

/// The addresses of collections among `urls`, in order.
pub open spec fn collection_urls(urls: Seq<PageUrlView>) -> Seq<PageUrlView> {
    urls.filter(|u: PageUrlView| is_collection_url(u))
}

/// The addresses of datasets among `urls`, in order.
pub open spec fn dataset_urls(urls: Seq<PageUrlView>) -> Seq<PageUrlView> {
    urls.filter(|u: PageUrlView| is_dataset_url(u))
}

/// The test for the address of a dataset that begins with the text of `c`.
pub open spec fn under(c: PageUrlView) -> spec_fn(PageUrlView) -> bool {
    |u: PageUrlView| is_dataset_url(u) && starts_with(u.text, c.text)
}

/// The addresses of the datasets of the collection at `c` among `urls`, in
/// order.
pub open spec fn nested_urls(urls: Seq<PageUrlView>, c: PageUrlView) -> Seq<PageUrlView> {
    urls.filter(under(c))
}

/// Which alias an address is taken to have.
#[derive(Debug, Clone, Copy, PartialEq, Eq, Structural)]
pub enum AliasKind {
    /// The alias of a collection: the second segment of the path.
    Collection,
    /// The alias of a dataset: the last segment of the path.
    Dataset,
}

impl AliasKind {
    /// The alias of `u`.
    pub open spec fn of(self, u: PageUrlView) -> Seq<char> {
        match self {
            AliasKind::Collection => u.collection_alias(),
            AliasKind::Dataset => u.dataset_alias(),
        }
    }

    /// The alias of `u`.
    pub fn alias(&self, u: &PageUrl) -> (r: String)
        ensures
            r@ == self.of(u@),
    {
        match self {
            AliasKind::Collection => u.collection_alias(),
            AliasKind::Dataset => u.dataset_alias(),
        }
    }
}

/// Whether an address before position `i` of `urls` has the alias of the
/// address at `i`.
pub open spec fn seen_before(urls: Seq<PageUrlView>, kind: AliasKind, i: int) -> bool {
    exists|j: int| 0 <= j < i && kind.of(#[trigger] urls[j]) == kind.of(urls[i])
}

/// The addresses of `urls` whose alias no earlier address has, in order.
pub open spec fn firsts(urls: Seq<PageUrlView>, kind: AliasKind) -> Seq<PageUrlView>
    decreases urls.len(),
{
    if urls.len() == 0 {
        urls
    } else {
        let head = firsts(urls.drop_last(), kind);
        if seen_before(urls, kind, urls.len() - 1) {
            head
        } else {
            head.push(urls.last())
        }
    }
}

/// Whether no two of `urls` have the same alias.
pub open spec fn distinct(urls: Seq<PageUrlView>, kind: AliasKind) -> bool {
    forall|i: int, j: int|
        0 <= i < j < urls.len() ==> kind.of(#[trigger] urls[i]) != kind.of(#[trigger] urls[j])
}

/// Each of the first addresses with an alias is one of the addresses, and
/// no two of them have the same alias.
pub proof fn lemma_firsts(urls: Seq<PageUrlView>, kind: AliasKind)
    ensures
        forall|k: int|
            0 <= k < firsts(urls, kind).len() ==> exists|j: int|
                0 <= j < urls.len() && urls[j] == #[trigger] firsts(urls, kind)[k],
        distinct(firsts(urls, kind), kind),
    decreases urls.len(),
{
    if urls.len() > 0 {
        let init = urls.drop_last();
        let head = firsts(init, kind);
        let r = firsts(urls, kind);
        lemma_firsts(init, kind);
        assert forall|k: int| 0 <= k < r.len() implies exists|j: int|
            0 <= j < urls.len() && urls[j] == #[trigger] r[k] by {
            if k < head.len() {
                let j = choose|j: int| 0 <= j < init.len() && init[j] == head[k];
                assert(urls[j] == r[k]);
            }
        }
        assert forall|i: int, j: int| 0 <= i < j < r.len() implies kind.of(#[trigger] r[i])
            != kind.of(#[trigger] r[j]) by {
            if j >= head.len() {
                let m = choose|m: int| 0 <= m < init.len() && init[m] == head[i];
                assert(urls[m] == r[i]);
            }
        }
    }
}

/// A collection to visit, and the datasets to visit for it.
#[derive(Debug)]
pub struct CrawlTask {
    pub collection: PageUrl,
    pub datasets: Vec<PageUrl>,
}

/// What a [`CrawlTask`] holds, as plain values.
pub struct CrawlTaskView {
    pub collection: PageUrlView,
    pub datasets: Seq<PageUrlView>,
}

impl View for CrawlTask {
    type V = CrawlTaskView;

    open spec fn view(&self) -> CrawlTaskView {
        CrawlTaskView { collection: self.collection@, datasets: page_url_views(self.datasets@) }
    }
}

/// The views of a list of tasks, element by element.
pub open spec fn task_views(v: Seq<CrawlTask>) -> Seq<CrawlTaskView> {
    Seq::new(v.len(), |i: int| v[i]@)
}

/// The task for the collection at `c`: the datasets among `urls` that belong
/// to it, one for each alias.
pub open spec fn task_for(urls: Seq<PageUrlView>, c: PageUrlView) -> CrawlTaskView {
    CrawlTaskView { collection: c, datasets: firsts(nested_urls(urls, c), AliasKind::Dataset) }
}

/// The tasks of a crawl of the addresses `urls`: one for each alias of a
/// collection, in the order of the addresses.
pub open spec fn plan(urls: Seq<PageUrlView>) -> Seq<CrawlTaskView> {
    let collections = firsts(collection_urls(urls), AliasKind::Collection);
    Seq::new(collections.len(), |i: int| task_for(urls, collections[i]))
}

/// The addresses of the collections that the tasks `tasks` visit.
pub open spec fn visited(tasks: Seq<CrawlTaskView>) -> Seq<PageUrlView> {
    Seq::new(tasks.len(), |i: int| tasks[i].collection)
}

/// In the plan of a crawl no two collections have the same alias, and no
/// two datasets of one collection have.
pub proof fn lemma_plan_aliases(urls: Seq<PageUrlView>)
    ensures
        distinct(visited(plan(urls)), AliasKind::Collection),
        forall|i: int|
            0 <= i < plan(urls).len() ==> distinct(
                (#[trigger] plan(urls)[i]).datasets,
                AliasKind::Dataset,
            ),
{
    let collections = firsts(collection_urls(urls), AliasKind::Collection);
    lemma_firsts(collection_urls(urls), AliasKind::Collection);
    assert(visited(plan(urls)) =~= collections);
    assert forall|i: int| 0 <= i < plan(urls).len() implies distinct(
        (#[trigger] plan(urls)[i]).datasets,
        AliasKind::Dataset,
    ) by {
        lemma_firsts(nested_urls(urls, collections[i]), AliasKind::Dataset);
    }
}

/// A plan visits a collection only at an address with two path segments,
/// and a dataset only at an address with three.
pub proof fn lemma_plan_segments(urls: Seq<PageUrlView>)
    ensures
        forall|i: int|
            0 <= i < plan(urls).len() ==> is_collection_url((#[trigger] plan(urls)[i]).collection),
        forall|i: int, k: int|
            0 <= i < plan(urls).len() && 0 <= k < plan(urls)[i].datasets.len()
                ==> is_dataset_url(#[trigger] plan(urls)[i].datasets[k]),
{
    let collections = firsts(collection_urls(urls), AliasKind::Collection);
    lemma_firsts(collection_urls(urls), AliasKind::Collection);
    broadcast use Seq::lemma_filter_pred;
    assert forall|i: int| 0 <= i < plan(urls).len() implies is_collection_url(
        (#[trigger] plan(urls)[i]).collection,
    ) by {
        let c = collections[i];
        let found = collection_urls(urls);
        let j = choose|j: int| 0 <= j < found.len() && found[j] == c;
        urls.lemma_filter_pred(|u: PageUrlView| is_collection_url(u), j);
    }
    assert forall|i: int, k: int|
        0 <= i < plan(urls).len() && 0 <= k < plan(urls)[i].datasets.len() implies is_dataset_url(
        #[trigger] plan(urls)[i].datasets[k],
    ) by {
        let c = collections[i];
        let nested = nested_urls(urls, c);
        lemma_firsts(nested, AliasKind::Dataset);
        let d = plan(urls)[i].datasets[k];
        let j = choose|j: int| 0 <= j < nested.len() && nested[j] == d;
        urls.lemma_filter_pred(under(c), j);
    }
}

/// Splits `urls` into the addresses of collections and those of datasets.
/// Addresses with another number of path segments are in neither.
pub fn partition(urls: &Vec<PageUrl>) -> (r: (Vec<PageUrl>, Vec<PageUrl>))
    ensures
        page_url_views(r.0@) == collection_urls(page_url_views(urls@)),
        page_url_views(r.1@) == dataset_urls(page_url_views(urls@)),
{
    let ghost all = page_url_views(urls@);
    let ghost two = |u: PageUrlView| is_collection_url(u);
    let ghost three = |u: PageUrlView| is_dataset_url(u);
    let mut collections: Vec<PageUrl> = Vec::new();
    let mut datasets: Vec<PageUrl> = Vec::new();
    let mut i: usize = 0;
    proof {
        reveal(Seq::filter);
    }
    while i < urls.len()
        invariant
            i <= urls.len(),
            all == page_url_views(urls@),
            two == (|u: PageUrlView| is_collection_url(u)),
            three == (|u: PageUrlView| is_dataset_url(u)),
            page_url_views(collections@) == all.take(i as int).filter(two),
            page_url_views(datasets@) == all.take(i as int).filter(three),
        decreases urls.len() - i,
    {
        proof {
            reveal(Seq::filter);
            assert(all.take(i + 1).drop_last() =~= all.take(i as int));
        }
        if urls[i].segments.len() == 2 {
            let u = urls[i].clone();
            collections.push(u);
        } else if urls[i].segments.len() == 3 {
            let u = urls[i].clone();
            datasets.push(u);
        }
        i += 1;
    }
    assert(all.take(urls.len() as int) =~= all);
    (collections, datasets)
}

/// The addresses among `urls` of the datasets that belong to the collection
/// at `c`.
pub fn nested(urls: &Vec<PageUrl>, c: &PageUrl) -> (r: Vec<PageUrl>)
    ensures
        page_url_views(r@) == nested_urls(page_url_views(urls@), c@),
{
    let ghost all = page_url_views(urls@);
    let ghost keep = under(c@);
    let prefix = chars_of(c.text.as_str());
    let mut out: Vec<PageUrl> = Vec::new();
    let mut i: usize = 0;
    proof {
        reveal(Seq::filter);
    }
    while i < urls.len()
        invariant
            i <= urls.len(),
            all == page_url_views(urls@),
            keep == under(c@),
            prefix@ == c@.text,
            page_url_views(out@) == all.take(i as int).filter(keep),
        decreases urls.len() - i,
    {
        proof {
            reveal(Seq::filter);
            assert(all.take(i + 1).drop_last() =~= all.take(i as int));
        }
        if urls[i].segments.len() == 3 {
            let text = chars_of(urls[i].text.as_str());
            if has_prefix(&text, &prefix) {
                let u = urls[i].clone();
                out.push(u);
            }
        }
        i += 1;
    }
    assert(all.take(urls.len() as int) =~= all);
    out
}

/// The addresses of `urls` whose alias no earlier address has.
pub fn unique(urls: &Vec<PageUrl>, kind: AliasKind) -> (r: Vec<PageUrl>)
    ensures
        page_url_views(r@) == firsts(page_url_views(urls@), kind),
{
    let ghost all = page_url_views(urls@);
    let mut out: Vec<PageUrl> = Vec::new();
    let mut i: usize = 0;
    while i < urls.len()
        invariant
            i <= urls.len(),
            all == page_url_views(urls@),
            page_url_views(out@) == firsts(all.take(i as int), kind),
        decreases urls.len() - i,
    {
        let alias = kind.alias(&urls[i]);
        let ghost now = all.take(i + 1);
        assert(now.drop_last() =~= all.take(i as int));
        let mut seen = false;
        let mut j: usize = 0;
        while j < i && !seen
            invariant
                j <= i < urls.len(),
                all == page_url_views(urls@),
                now == all.take(i + 1),
                alias@ == kind.of(urls@[i as int]@),
                forall|k: int| 0 <= k < j ==> kind.of(#[trigger] now[k]) != alias@,
                seen ==> seen_before(now, kind, i as int),
            decreases i - j + if seen { 0int } else { 1int },
        {
            assert(now[j as int] == urls@[j as int]@);
            let other = kind.alias(&urls[j]);
            if same_text(other.as_str(), alias.as_str()) {
                seen = true;
            } else {
                j += 1;
            }
        }
        if !seen {
            let u = urls[i].clone();
            out.push(u);
        }
        i += 1;
    }
    assert(all.take(urls.len() as int) =~= all);
    out
}

/// The tasks of a crawl of the addresses `urls`.
pub fn plan_crawl(urls: &Vec<PageUrl>) -> (r: Vec<CrawlTask>)
    ensures
        task_views(r@) == plan(page_url_views(urls@)),
{
    let (two, _) = partition(urls);
    let collections = unique(&two, AliasKind::Collection);
    let mut out: Vec<CrawlTask> = Vec::new();
    let mut i: usize = 0;
    while i < collections.len()
        invariant
            i <= collections.len(),
            page_url_views(collections@) == firsts(
                collection_urls(page_url_views(urls@)),
                AliasKind::Collection,
            ),
            out.len() == i,
            forall|k: int| 0 <= k < i ==> (#[trigger] out@[k])@ == plan(page_url_views(urls@))[k],
        decreases collections.len() - i,
    {
        let c = collections[i].clone();
        let under_c = nested(urls, &c);
        let datasets = unique(&under_c, AliasKind::Dataset);
        out.push(CrawlTask { collection: c, datasets });
        i += 1;
    }
    out
}

} // verus!
