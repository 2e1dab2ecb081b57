//! The catalog as a whole, and its reconciliation with the cache.
//!
//! A collection with the alias `a` is kept in `root/a/ds.bin`. A dataset is
//! kept in `ds.bin` in the directory named by the segments of its address
//! after the first, below `root`. An entry of the cache that is read back
//! with the alias of the sentinel counts as no entry.

use crate::cache::{
    bytes_view, content_view, kept_collection, kept_dataset, load_collection, load_dataset,
    saved_collection, saved_dataset,
};
use crate::crawl::{
    candidates, harvest, ordered, plan, plan_crawl, sort_urls, task_views, CrawlTask,
    CrawlTaskView,
};
use crate::locator::{page_url, PageUrl};
use crate::markup::{extract, extracted, ExtractError, PageQuery};
use crate::order::{lex_lt, text_less};
use crate::paths::{join, join_all, join_chars, join_path};
use crate::store::{CacheImage, CacheImageView};
use crate::text::{chars_of, same_text, string_of, string_views};
use crate::types::collection::{collection_views, has_alias, Collection, CollectionView};
use crate::types::dataset::{dataset_views, Dataset, DatasetView};
use vstd::prelude::*;

verus! {

/// The catalog of the repository.
pub struct CRCNS;

/// The segments of a path after the first.
pub open spec fn after_first(segments: Seq<Seq<char>>) -> Seq<Seq<char>> {
    if segments.len() >= 1 {
        segments.skip(1)
    } else {
        segments
    }
}

/// The directory of the dataset with the address `url` below `root`, where
/// the address has a path.
pub open spec fn dataset_dir(root: Seq<char>, url: Seq<char>) -> Option<Seq<char>> {
    match page_url(url) {
        Ok(u) => Some(join_all(root, after_first(u.segments))),
        Err(_) => None,
    }
}

/// The cache file of the collection with the alias `alias` below `root`.
pub open spec fn collection_file(root: Seq<char>, alias: Seq<char>) -> Seq<char> {
    join(join(root, alias), "ds.bin"@)
}

/// The cache file of the dataset with the address `url` below `root`, where
/// the address has a path.
pub open spec fn dataset_file(root: Seq<char>, url: Seq<char>) -> Option<Seq<char>> {
    match dataset_dir(root, url) {
        Some(dir) => Some(join(dir, "ds.bin"@)),
        None => None,
    }
}

/// The image after `blob` is written to `path`, where there is a blob.
pub open spec fn save(
    store: CacheImageView,
    path: Seq<char>,
    blob: Option<Seq<u8>>,
) -> CacheImageView {
    match blob {
        Some(bytes) => store.put(path, bytes),
        None => store,
    }
}

/// The dataset that the cache keeps at `path`, if it keeps one.
pub open spec fn dataset_at(store: CacheImageView, path: Seq<char>) -> Option<DatasetView> {
    match store.get(path) {
        Some(content) => kept_dataset(content),
        None => None,
    }
}

/// The collection that the cache keeps at `path`, if it keeps one.
pub open spec fn collection_at(store: CacheImageView, path: Seq<char>) -> Option<CollectionView> {
    match store.get(path) {
        Some(content) => kept_collection(content),
        None => None,
    }
}

/// The cached dataset that takes the place of the dataset `d`: the one that
/// the cache keeps for it, where it keeps one with a time stamp that does
/// not sort before the one in memory.
pub open spec fn taken_from_cache(
    d: DatasetView,
    root: Seq<char>,
    store: CacheImageView,
) -> Option<DatasetView> {
    match dataset_file(root, d.url) {
        None => None,
        Some(path) => match dataset_at(store, path) {
            Some(c) => if lex_lt(c.last_modified, d.last_modified) {
                None
            } else {
                Some(c)
            },
            None => None,
        },
    }
}

/// A dataset and the cache after the two are reconciled. Where the cache
/// holds the dataset with a time stamp that does not sort before the one in
/// memory, the cached dataset takes its place. Otherwise the dataset stays
/// and is written to the cache. A dataset whose address has no path is left
/// alone.
pub open spec fn reconciled_dataset(d: DatasetView, root: Seq<char>, store: CacheImageView) -> (
    DatasetView,
    CacheImageView,
) {
    match dataset_file(root, d.url) {
        None => (d, store),
        Some(path) => match dataset_at(store, path) {
            Some(c) => if lex_lt(c.last_modified, d.last_modified) {
                (d, save(store, path, saved_dataset(d)))
            } else {
                (c, store)
            },
            None => (d, save(store, path, saved_dataset(d))),
        },
    }
}

/// Where the cache holds a dataset, the time stamps decide. With an older
/// stamp in the cache the dataset in memory stays and is written to the
/// cache. Otherwise the cached dataset takes its place and nothing is
/// written.
pub proof fn lemma_stamps_decide(
    d: DatasetView,
    root: Seq<char>,
    store: CacheImageView,
    path: Seq<char>,
    cached: DatasetView,
)
    requires
        dataset_file(root, d.url) == Some(path),
        dataset_at(store, path) == Some(cached),
    ensures
        lex_lt(cached.last_modified, d.last_modified) ==> reconciled_dataset(d, root, store) == (
            d,
            save(store, path, saved_dataset(d)),
        ),
        !lex_lt(cached.last_modified, d.last_modified) ==> reconciled_dataset(d, root, store)
            == (cached, store),
{
}

/// Datasets and the cache after each dataset is reconciled in turn.
pub open spec fn reconciled_datasets(
    datasets: Seq<DatasetView>,
    root: Seq<char>,
    store: CacheImageView,
) -> (Seq<DatasetView>, CacheImageView)
    decreases datasets.len(),
{
    if datasets.len() == 0 {
        (datasets, store)
    } else {
        let (head, mid) = reconciled_datasets(datasets.drop_last(), root, store);
        let (last, end) = reconciled_dataset(datasets.last(), root, mid);
        (head.push(last), end)
    }
}

/// A collection and the cache after the collection itself is reconciled,
/// by the rule that holds for a dataset.
pub open spec fn reconciled_entry(c: CollectionView, root: Seq<char>, store: CacheImageView) -> (
    CollectionView,
    CacheImageView,
) {
    let path = collection_file(root, c.alias);
    match collection_at(store, path) {
        Some(cached) => if lex_lt(cached.last_modified, c.last_modified) {
            (c, save(store, path, saved_collection(c)))
        } else {
            (cached, store)
        },
        None => (c, save(store, path, saved_collection(c))),
    }
}

/// A collection and the cache after the collection is reconciled and then
/// each of the datasets that it has after that.
pub open spec fn reconciled_collection(
    c: CollectionView,
    root: Seq<char>,
    store: CacheImageView,
) -> (
    CollectionView,
    CacheImageView,
) {
    let (entry, mid) = reconciled_entry(c, root, store);
    let (datasets, end) = reconciled_datasets(entry.datasets, root, mid);
    (CollectionView { datasets, ..entry }, end)
}

/// Collections and the cache after each collection is reconciled in turn.
pub open spec fn reconciled(
    collections: Seq<CollectionView>,
    root: Seq<char>,
    store: CacheImageView,
) -> (
    Seq<CollectionView>,
    CacheImageView,
)
    decreases collections.len(),
{
    if collections.len() == 0 {
        (collections, store)
    } else {
        let (head, mid) = reconciled(collections.drop_last(), root, store);
        let (last, end) = reconciled_collection(collections.last(), root, mid);
        (head.push(last), end)
    }
}

/// The directory of the dataset with the address `url` below `root`.
pub fn dataset_directory(root: &str, url: &str) -> (r: Option<String>)
    ensures
        match r {
            Some(dir) => dataset_dir(root@, url@) == Some(dir@),
            None => dataset_dir(root@, url@) is None,
        },
{
    let parsed = match PageUrl::parse(url) {
        Ok(u) => u,
        Err(_) => {
            return None;
        },
    };
    let ghost parts = after_first(parsed@.segments);
    let mut dir = chars_of(root);
    if parsed.segments.len() == 0 {
        return Some(string_of(&dir));
    }
    let mut i: usize = 1;
    while i < parsed.segments.len()
        invariant
            1 <= i <= parsed.segments.len(),
            parts == after_first(parsed@.segments),
            dir@ == join_all(root@, parts.take(i - 1)),
        decreases parsed.segments.len() - i,
    {
        let segment = chars_of(parsed.segments[i].as_str());
        assert(parts.take(i as int).drop_last() =~= parts.take(i - 1));
        dir = join_chars(&dir, &segment);
        i += 1;
    }
    assert(parts.take(parts.len() as int) =~= parts);
    Some(string_of(&dir))
}

/// Reconciles one dataset with the cache. Returns the cached dataset where
/// it takes the place of `d`, and `None` where `d` stays.
pub fn reconcile_dataset(d: &Dataset, root: &str, store: &mut CacheImage) -> (r: Option<Dataset>)
    ensures
        match r {
            Some(c) => taken_from_cache(d@, root@, old(store)@) == Some(c@),
            None => taken_from_cache(d@, root@, old(store)@) is None,
        },
        reconciled_dataset(d@, root@, old(store)@) == (
            match r {
                Some(c) => c@,
                None => d@,
            },
            final(store)@,
        ),
{
    let dir = match dataset_directory(root, d.url.as_str()) {
        Some(dir) => dir,
        None => {
            return None;
        },
    };
    let path = join_path(dir.as_str(), "ds.bin");
    let cached: Option<Dataset> = match store.get(path.as_str()) {
        Some(Some(bytes)) => load_dataset(Some(bytes.as_slice())),
        _ => None,
    };
    match cached {
        Some(c) => {
            if !text_less(c.last_modified.as_str(), d.last_modified.as_str()) {
                return Some(c);
            }
        },
        None => {},
    }
    match d.persist() {
        Some(bytes) => {
            store.put(path, bytes);
        },
        None => {},
    }
    None
}

/// Reconciles each of `datasets` with the cache, in order.
pub fn reconcile_datasets(datasets: &mut Vec<Dataset>, root: &str, store: &mut CacheImage)
    ensures
        reconciled_datasets(dataset_views(old(datasets)@), root@, old(store)@) == (
            dataset_views(final(datasets)@),
            final(store)@,
        ),
{
    let ghost before = dataset_views(datasets@);
    let mut i: usize = 0;
    while i < datasets.len()
        invariant
            i <= datasets.len(),
            datasets.len() == before.len(),
            before == dataset_views(old(datasets)@),
            forall|k: int| i <= k < before.len() ==> (#[trigger] datasets@[k])@ == before[k],
            reconciled_datasets(before.take(i as int), root@, old(store)@) == (
                dataset_views(datasets@).take(i as int),
                store@,
            ),
        decreases datasets.len() - i,
    {
        assert(before.take(i + 1).drop_last() =~= before.take(i as int));
        match reconcile_dataset(&datasets[i], root, store) {
            Some(c) => {
                datasets.set(i, c);
            },
            None => {},
        }
        i += 1;
    }
    assert(before.take(before.len() as int) =~= before);
}

/// Reconciles a collection with the cache, and then each of the datasets
/// that it has after that.
pub fn reconcile_collection(c: &mut Collection, root: &str, store: &mut CacheImage)
    ensures
        reconciled_collection(old(c)@, root@, old(store)@) == (final(c)@, final(store)@),
{
    let dir = join_path(root, c.alias.as_str());
    let path = join_path(dir.as_str(), "ds.bin");
    let cached: Option<Collection> = match store.get(path.as_str()) {
        Some(Some(bytes)) => load_collection(Some(bytes.as_slice())),
        _ => None,
    };
    let mut keep = true;
    match cached {
        Some(found) => {
            if !text_less(found.last_modified.as_str(), c.last_modified.as_str()) {
                *c = found;
                keep = false;
            }
        },
        None => {},
    }
    if keep {
        match c.persist() {
            Some(bytes) => {
                store.put(path, bytes);
            },
            None => {},
        }
    }
    reconcile_datasets(&mut c.datasets, root, store);
}

/// The collection `c` with the datasets that the cache files with the
/// contents `contents` keep, each added in turn unless the collection
/// already has a dataset with its alias.
pub open spec fn with_kept_datasets(
    c: CollectionView,
    contents: Seq<Option<Seq<u8>>>,
) -> CollectionView
    decreases contents.len(),
{
    if contents.len() == 0 {
        c
    } else {
        let head = with_kept_datasets(c, contents.drop_last());
        match kept_dataset(contents.last()) {
            Some(d) => if has_alias(head.datasets, d.alias) {
                head
            } else {
                CollectionView { datasets: head.datasets.push(d), ..head }
            },
            None => head,
        }
    }
}

/// The contents of a list of cache files, as plain values.
pub open spec fn content_views(contents: Seq<Option<Vec<u8>>>) -> Seq<Option<Seq<u8>>> {
    Seq::new(contents.len(), |i: int| bytes_view(contents[i]))
}

/// The tasks of a crawl that starts from the links `links` of the sitemap.
pub open spec fn crawl_of_links(links: Seq<Seq<char>>) -> Seq<CrawlTaskView> {
    plan(ordered(candidates(links)))
}

/// The tasks of a crawl that starts from the sitemap page `html`.
pub open spec fn crawl_of_sitemap(html: Seq<char>) -> Result<Seq<CrawlTaskView>, ExtractError> {
    match extracted(html, PageQuery::Anchors) {
        Ok(links) => Ok(crawl_of_links(links)),
        Err(e) => Err(e),
    }
}

/// Whether one of `collections` has the alias `alias`.
pub open spec fn has_collection(collections: Seq<CollectionView>, alias: Seq<char>) -> bool {
    exists|i: int| 0 <= i < collections.len() && (#[trigger] collections[i]).alias == alias
}

/// Whether no two of `collections` share an alias.
pub open spec fn distinct_collections(collections: Seq<CollectionView>) -> bool {
    forall|i: int, j: int|
        0 <= i < j < collections.len() ==> (#[trigger] collections[i]).alias != (
        #[trigger] collections[j]).alias
}

impl CRCNS {
    /// The tasks of a crawl that starts from the links `links` of the
    /// sitemap.
    pub fn tasks(links: &Vec<String>) -> (r: Vec<CrawlTask>)
        ensures
            task_views(r@) == crawl_of_links(string_views(links@)),
    {
        let found = harvest(links);
        let sorted = sort_urls(found);
        plan_crawl(&sorted)
    }

    /// The tasks of a crawl that starts from the sitemap page `html`. Fails
    /// where the page shows no links.
    pub fn get(html: &str) -> (r: Result<Vec<CrawlTask>, ExtractError>)
        ensures
            match r {
                Ok(tasks) => crawl_of_sitemap(html@) == Ok::<Seq<CrawlTaskView>, ExtractError>(
                    task_views(tasks@),
                ),
                Err(e) => crawl_of_sitemap(html@) == Err::<Seq<CrawlTaskView>, ExtractError>(e),
            },
    {
        match extract(html, PageQuery::Anchors) {
            Ok(links) => Ok(CRCNS::tasks(&links)),
            Err(e) => Err(e),
        }
    }

    /// Appends `collection` to the catalog unless the catalog already has a
    /// collection with the same alias, and says whether it did.
    pub fn add(collections: &mut Vec<Collection>, collection: Collection) -> (added: bool)
        ensures
            added == !has_collection(collection_views(old(collections)@), collection@.alias),
            added ==> collection_views(final(collections)@) == collection_views(
                old(collections)@,
            ).push(collection@),
            !added ==> collection_views(final(collections)@) == collection_views(
                old(collections)@,
            ),
            distinct_collections(collection_views(old(collections)@)) ==> distinct_collections(
                collection_views(final(collections)@),
            ),
    {
        let ghost before = collection_views(collections@);
        let mut i: usize = 0;
        while i < collections.len()
            invariant
                i <= collections.len(),
                before == collection_views(collections@),
                forall|k: int| 0 <= k < i ==> (#[trigger] before[k]).alias != collection@.alias,
            decreases collections.len() - i,
        {
            assert(before[i as int] == collections@[i as int]@);
            if same_text(collections[i].alias.as_str(), collection.alias.as_str()) {
                return false;
            }
            i += 1;
        }
        collections.push(collection);
        true
    }

    /// Takes into the catalog the collection that a cache file keeps,
    /// together with the datasets that the cache files below it keep. The
    /// cache file of the collection has the content `collection`, those of
    /// the datasets have the contents `datasets`; `None` stands for a file
    /// that is missing or cannot be read. Nothing is taken where the file
    /// keeps no collection, or the catalog has one with the same alias.
    pub fn load_persisted(
        collections: &mut Vec<Collection>,
        collection: Option<&[u8]>,
        datasets: &Vec<Option<Vec<u8>>>,
    ) -> (added: bool)
        ensures
            match kept_collection(content_view(collection)) {
                None => !added && collection_views(final(collections)@) == collection_views(
                    old(collections)@,
                ),
                Some(c) => {
                    &&& added == !has_collection(collection_views(old(collections)@), c.alias)
                    &&& added ==> collection_views(final(collections)@) == collection_views(
                        old(collections)@,
                    ).push(with_kept_datasets(c, content_views(datasets@)))
                    &&& !added ==> collection_views(final(collections)@) == collection_views(
                        old(collections)@,
                    )
                },
            },
            distinct_collections(collection_views(old(collections)@)) ==> distinct_collections(
                collection_views(final(collections)@),
            ),
    {
        let mut c = match load_collection(collection) {
            Some(c) => c,
            None => {
                return false;
            },
        };
        let ghost first = c@;
        let ghost all = content_views(datasets@);
        let mut i: usize = 0;
        while i < datasets.len()
            invariant
                i <= datasets.len(),
                all == content_views(datasets@),
                c@ == with_kept_datasets(first, all.take(i as int)),
                c@.alias == first.alias,
            decreases datasets.len() - i,
        {
            assert(all.take(i + 1).drop_last() =~= all.take(i as int));
            let found = match &datasets[i] {
                Some(bytes) => load_dataset(Some(bytes.as_slice())),
                None => None,
            };
            match found {
                Some(d) => {
                    c.add_dataset(d);
                },
                None => {},
            }
            i += 1;
        }
        assert(all.take(datasets.len() as int) =~= all);
        CRCNS::add(collections, c)
    }

    /// The position in the catalog of the collection with the alias `alias`,
    /// or the number of collections where none has it.
    pub fn find(collections: &Vec<Collection>, alias: &str) -> (i: usize)
        ensures
            i <= collections.len(),
            i < collections.len() ==> collections@[i as int]@.alias == alias@,
            forall|k: int| 0 <= k < i ==> (#[trigger] collections@[k])@.alias != alias@,
            i == collections.len() <==> !has_collection(collection_views(collections@), alias@),
    {
        let mut i: usize = 0;
        while i < collections.len()
            invariant
                i <= collections.len(),
                forall|k: int| 0 <= k < i ==> (#[trigger] collections@[k])@.alias != alias@,
            decreases collections.len() - i,
        {
            if same_text(collections[i].alias.as_str(), alias) {
                assert(collection_views(collections@)[i as int].alias == alias@);
                return i;
            }
            i += 1;
        }
        i
    }

    /// Appends `dataset` to the first collection of the catalog with the
    /// alias `alias`, unless that collection already has a dataset with the
    /// same alias, and says whether it did. Where no collection has the
    /// alias, nothing changes.
    pub fn attach(collections: &mut Vec<Collection>, alias: &str, dataset: Dataset) -> (added:
        bool)
        ensures
            final(collections).len() == old(collections).len(),
            forall|k: int|
                0 <= k < old(collections).len() ==> (#[trigger] final(collections)@[k])@.alias
                    == old(collections)@[k]@.alias,
            forall|k: int|
                0 <= k < old(collections).len() && old(collections)@[k]@.well_formed() ==> (
                #[trigger] final(collections)@[k])@.well_formed(),
            forall|k: int|
                0 <= k < old(collections).len() && k != CRCNS::position(
                    collection_views(old(collections)@),
                    alias@,
                ) ==> (#[trigger] final(collections)@[k])@ == old(collections)@[k]@,
            ({
                let at = CRCNS::position(collection_views(old(collections)@), alias@);
                if at < old(collections).len() {
                    let before = old(collections)@[at]@;
                    let after = final(collections)@[at]@;
                    &&& added == !has_alias(before.datasets, dataset@.alias)
                    &&& added ==> after == (CollectionView {
                        datasets: before.datasets.push(dataset@),
                        ..before
                    })
                    &&& !added ==> after == before
                } else {
                    !added
                }
            }),
    {
        let i = CRCNS::find(collections, alias);
        proof {
            CRCNS::lemma_position(collection_views(collections@), alias@, i as int);
        }
        if i == collections.len() {
            return false;
        }
        collections[i].add_dataset(dataset)
    }

    /// The position of the first of `collections` with the alias `alias`,
    /// or the number of collections where none has it.
    pub open spec fn position(collections: Seq<CollectionView>, alias: Seq<char>) -> int
        decreases collections.len(),
    {
        if collections.len() == 0 {
            0
        } else if collections[0].alias == alias {
            0
        } else {
            1 + CRCNS::position(collections.drop_first(), alias)
        }
    }

    /// The position of an alias is that of the first collection that has it.
    pub proof fn lemma_position(collections: Seq<CollectionView>, alias: Seq<char>, i: int)
        requires
            0 <= i <= collections.len(),
            i < collections.len() ==> collections[i].alias == alias,
            forall|k: int| 0 <= k < i ==> (#[trigger] collections[k]).alias != alias,
        ensures
            CRCNS::position(collections, alias) == i,
        decreases collections.len(),
    {
        if collections.len() > 0 && i > 0 {
            CRCNS::lemma_position(collections.drop_first(), alias, i - 1);
        }
    }

    /// Reconciles the collections in memory with the cache below `root`:
    /// each collection in turn, and with each collection its datasets.
    pub fn persist(collections: &mut Vec<Collection>, root: &str, store: &mut CacheImage)
        ensures
            reconciled(collection_views(old(collections)@), root@, old(store)@) == (
                collection_views(final(collections)@),
                final(store)@,
            ),
    {
        let ghost before = collection_views(collections@);
        let mut i: usize = 0;
        while i < collections.len()
            invariant
                i <= collections.len(),
                collections.len() == before.len(),
                before == collection_views(old(collections)@),
                forall|k: int|
                    i <= k < before.len() ==> (#[trigger] collections@[k])@ == before[k],
                reconciled(before.take(i as int), root@, old(store)@) == (
                    collection_views(collections@).take(i as int),
                    store@,
                ),
            decreases collections.len() - i,
        {
            assert(before.take(i + 1).drop_last() =~= before.take(i as int));
            reconcile_collection(&mut collections[i], root, store);
            i += 1;
        }
        assert(before.take(before.len() as int) =~= before);
    }
}

} // verus!
