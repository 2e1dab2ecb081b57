//! What holds of a second reconciliation.
//!
//! Reconciling a second time changes nothing, neither what is in memory nor
//! the cache, where every entry has a cache file of its own, none has the
//! alias of the sentinel, and what the cache keeps for an entry has an
//! address that names the cache file of that entry. This is stated of one
//! dataset, of the datasets of a collection, of one collection, and of the
//! catalog.

use crate::cache::{saved_collection, saved_dataset};
use crate::order::{lemma_lex_irreflexive, lex_lt};
use crate::store::{lemma_lookup_other, lemma_lookup_stored, CacheImageView};
use crate::types::collection::CollectionView;
use crate::types::crcns::{
    collection_at, collection_file, dataset_file, reconciled, reconciled_collection,
    reconciled_dataset, reconciled_datasets, reconciled_entry, taken_from_cache,
};
use crate::types::dataset::DatasetView;
use vstd::prelude::*;

verus! {

/// Whether reconciling the dataset `d` with the image `store` changes
/// nothing, neither the dataset nor the image.
pub open spec fn settled(d: DatasetView, root: Seq<char>, store: CacheImageView) -> bool {
    reconciled_dataset(d, root, store) == (d, store)
}

/// Whether what the cache keeps for the dataset `d` has an address that
/// names the cache file of `d`.
pub open spec fn kept_in_place(d: DatasetView, root: Seq<char>, store: CacheImageView) -> bool {
    taken_from_cache(d, root, store) matches Some(c) ==> dataset_file(root, c.url) == dataset_file(
        root,
        d.url,
    )
}

/// Reconciling a dataset a second time changes nothing, neither the
/// dataset nor the cache. This is stated of a dataset that does not have the
/// alias of the sentinel, and of a cache that keeps for the dataset an entry
/// with an address that names the same cache file.
pub proof fn lemma_reconciled_twice(d: DatasetView, root: Seq<char>, store: CacheImageView)
    requires
        d.alias != "Default"@,
        kept_in_place(d, root, store),
    ensures
        ({
            let (once, image) = reconciled_dataset(d, root, store);
            settled(once, root, image) && dataset_file(root, once.url) == dataset_file(root, d.url)
        }),
{
    let (once, image) = reconciled_dataset(d, root, store);
    lemma_lex_irreflexive(once.last_modified);
    if dataset_file(root, d.url) is Some && taken_from_cache(d, root, store) is None
        && saved_dataset(d) is Some {
        lemma_lookup_stored(
            store.slots,
            dataset_file(root, d.url).unwrap(),
            Some(saved_dataset(d).unwrap()),
        );
    }
}

/// Whether a dataset is settled depends on the cache file of the dataset
/// alone.
pub proof fn lemma_settled_by_file(
    d: DatasetView,
    root: Seq<char>,
    store: CacheImageView,
    other: CacheImageView,
)
    requires
        settled(d, root, store),
        dataset_file(root, d.url) matches Some(path) ==> other.get(path) == store.get(path),
    ensures
        settled(d, root, other),
{
    if dataset_file(root, d.url) is Some && taken_from_cache(d, root, store) is None
        && saved_dataset(d) is Some {
        let path = dataset_file(root, d.url).unwrap();
        assert(store.put(path, saved_dataset(d).unwrap()).written.len() == store.written.len()
            + 1);
    }
}

/// Reconciling a dataset leaves every cache file but its own.
pub proof fn lemma_other_files_left(
    d: DatasetView,
    root: Seq<char>,
    store: CacheImageView,
    path: Seq<char>,
)
    requires
        dataset_file(root, d.url) != Some(path),
    ensures
        reconciled_dataset(d, root, store).1.get(path) == store.get(path),
{
    if dataset_file(root, d.url) is Some && saved_dataset(d) is Some {
        lemma_lookup_other(
            store.slots,
            dataset_file(root, d.url).unwrap(),
            Some(saved_dataset(d).unwrap()),
            path,
        );
    }
}

/// Reconciling datasets leaves every cache file that is not the file of one
/// of them.
pub proof fn lemma_datasets_leave_others(
    datasets: Seq<DatasetView>,
    root: Seq<char>,
    store: CacheImageView,
    path: Seq<char>,
)
    requires
        forall|i: int|
            0 <= i < datasets.len() ==> dataset_file(root, (#[trigger] datasets[i]).url) != Some(
                path,
            ),
    ensures
        reconciled_datasets(datasets, root, store).1.get(path) == store.get(path),
    decreases datasets.len(),
{
    if datasets.len() > 0 {
        let head = datasets.drop_last();
        assert forall|i: int| 0 <= i < head.len() implies dataset_file(
            root,
            (#[trigger] head[i]).url,
        ) != Some(path) by {
            assert(head[i] == datasets[i]);
        }
        lemma_datasets_leave_others(head, root, store, path);
        assert(datasets.last() == datasets[datasets.len() - 1]);
        lemma_other_files_left(
            datasets.last(),
            root,
            reconciled_datasets(head, root, store).1,
            path,
        );
    }
}

/// Reconciling datasets that are all settled changes nothing.
pub proof fn lemma_all_settled(datasets: Seq<DatasetView>, root: Seq<char>, store: CacheImageView)
    requires
        forall|i: int| 0 <= i < datasets.len() ==> settled(#[trigger] datasets[i], root, store),
    ensures
        reconciled_datasets(datasets, root, store) == (datasets, store),
    decreases datasets.len(),
{
    if datasets.len() > 0 {
        let head = datasets.drop_last();
        assert forall|i: int| 0 <= i < head.len() implies settled(
            #[trigger] head[i],
            root,
            store,
        ) by {
            assert(head[i] == datasets[i]);
        }
        lemma_all_settled(head, root, store);
        assert(settled(datasets[datasets.len() - 1], root, store));
        assert(head.push(datasets.last()) =~= datasets);
    }
}

/// Whether none of `datasets` has the alias of the sentinel.
pub open spec fn all_named(datasets: Seq<DatasetView>) -> bool {
    forall|i: int| 0 <= i < datasets.len() ==> (#[trigger] datasets[i]).alias != "Default"@
}

/// Whether no two of `datasets` have the same cache file.
pub open spec fn separate_files(datasets: Seq<DatasetView>, root: Seq<char>) -> bool {
    forall|i: int, j: int|
        0 <= i < j < datasets.len() && dataset_file(root, (#[trigger] datasets[i]).url) is Some
            ==> dataset_file(root, datasets[i].url) != dataset_file(
            root,
            (#[trigger] datasets[j]).url,
        )
}

/// Whether the datasets `datasets` can be reconciled again without change:
/// none has the alias of the sentinel, no two have the same cache file, and
/// what the cache keeps for each has an address that names the cache file
/// of that dataset.
pub open spec fn each_in_place(
    datasets: Seq<DatasetView>,
    root: Seq<char>,
    store: CacheImageView,
) -> bool {
    &&& all_named(datasets)
    &&& separate_files(datasets, root)
    &&& forall|i: int|
        0 <= i < datasets.len() ==> kept_in_place(#[trigger] datasets[i], root, store)
}

/// After datasets are reconciled, each is settled, and each has the cache
/// file that it had before.
pub proof fn lemma_reconciled_are_settled(
    datasets: Seq<DatasetView>,
    root: Seq<char>,
    store: CacheImageView,
)
    requires
        each_in_place(datasets, root, store),
    ensures
        ({
            let (once, image) = reconciled_datasets(datasets, root, store);
            &&& once.len() == datasets.len()
            &&& forall|i: int|
                0 <= i < once.len() ==> settled(#[trigger] once[i], root, image) && dataset_file(
                    root,
                    once[i].url,
                ) == dataset_file(root, datasets[i].url)
        }),
    decreases datasets.len(),
{
    if datasets.len() > 0 {
        let head = datasets.drop_last();
        let last = datasets.last();
        let n = head.len() as int;
        assert(last == datasets[n]);
        assert forall|i: int| 0 <= i < head.len() implies (#[trigger] head[i]).alias
            != "Default"@ && kept_in_place(head[i], root, store) by {
            assert(head[i] == datasets[i]);
        }
        assert forall|i: int, j: int|
            0 <= i < j < head.len() && dataset_file(
                root,
                (#[trigger] head[i]).url,
            ) is Some implies dataset_file(root, head[i].url) != dataset_file(
            root,
            (#[trigger] head[j]).url,
        ) by {
            assert(head[i] == datasets[i] && head[j] == datasets[j]);
        }
        lemma_reconciled_are_settled(head, root, store);
        let (once, mid) = reconciled_datasets(head, root, store);
        let (after, image) = reconciled_dataset(last, root, mid);
        if dataset_file(root, last.url) is Some {
            let path = dataset_file(root, last.url).unwrap();
            assert forall|i: int| 0 <= i < head.len() implies dataset_file(
                root,
                (#[trigger] head[i]).url,
            ) != Some(path) by {
                assert(head[i] == datasets[i]);
            }
            lemma_datasets_leave_others(head, root, store, path);
        }
        assert(kept_in_place(last, root, mid));
        lemma_reconciled_twice(last, root, mid);
        let all = once.push(after);
        assert forall|i: int| 0 <= i < all.len() implies settled(
            #[trigger] all[i],
            root,
            image,
        ) && dataset_file(root, all[i].url) == dataset_file(root, datasets[i].url) by {
            if i < n {
                assert(all[i] == once[i]);
                assert(head[i] == datasets[i]);
                if dataset_file(root, once[i].url) is Some {
                    let own = dataset_file(root, once[i].url).unwrap();
                    lemma_other_files_left(last, root, mid, own);
                }
                lemma_settled_by_file(once[i], root, mid, image);
            }
        }
    }
}

/// Reconciling datasets a second time changes nothing, neither the
/// datasets nor the cache. This is stated of datasets of which none has the
/// alias of the sentinel and no two have the same cache file, and of a
/// cache that keeps for each an entry with an address that names the cache
/// file of that dataset.
pub proof fn lemma_reconciled_datasets_twice(
    datasets: Seq<DatasetView>,
    root: Seq<char>,
    store: CacheImageView,
)
    requires
        each_in_place(datasets, root, store),
    ensures
        ({
            let (once, image) = reconciled_datasets(datasets, root, store);
            reconciled_datasets(once, root, image) == (once, image)
        }),
{
    lemma_reconciled_are_settled(datasets, root, store);
    let (once, image) = reconciled_datasets(datasets, root, store);
    lemma_all_settled(once, root, image);
}

/// Whether reconciling the dataset `d` with any image that holds in the
/// cache file of `d` what `image` holds there gives `after` and leaves the
/// image.
pub open spec fn gives_again(
    d: DatasetView,
    after: DatasetView,
    root: Seq<char>,
    image: CacheImageView,
) -> bool {
    forall|other: CacheImageView|
        (dataset_file(root, d.url) matches Some(path) ==> other.get(path) == image.get(path))
            ==> #[trigger] reconciled_dataset(d, root, other) == (after, other)
}

/// Reconciling a dataset again, with the cache as the first reconciliation
/// left its file, gives the dataset that the first one gave and writes
/// nothing. This is stated of a dataset that does not have the alias of the
/// sentinel.
pub proof fn lemma_dataset_again(d: DatasetView, root: Seq<char>, store: CacheImageView)
    requires
        d.alias != "Default"@,
    ensures
        gives_again(
            d,
            reconciled_dataset(d, root, store).0,
            root,
            reconciled_dataset(d, root, store).1,
        ),
{
    let (after, image) = reconciled_dataset(d, root, store);
    lemma_lex_irreflexive(d.last_modified);
    if dataset_file(root, d.url) is Some && taken_from_cache(d, root, store) is None
        && saved_dataset(d) is Some {
        lemma_lookup_stored(
            store.slots,
            dataset_file(root, d.url).unwrap(),
            Some(saved_dataset(d).unwrap()),
        );
    }
}

/// Where reconciling each of `datasets` with the image `store` gives the
/// dataset at the same place in `after` and leaves the image, reconciling
/// them in turn gives `after` and leaves the image.
pub proof fn lemma_one_by_one(
    datasets: Seq<DatasetView>,
    after: Seq<DatasetView>,
    root: Seq<char>,
    store: CacheImageView,
)
    requires
        after.len() == datasets.len(),
        forall|i: int|
            0 <= i < datasets.len() ==> #[trigger] reconciled_dataset(datasets[i], root, store) == (
                after[i],
                store,
            ),
    ensures
        reconciled_datasets(datasets, root, store) == (after, store),
    decreases datasets.len(),
{
    if datasets.len() > 0 {
        let n = datasets.len() - 1;
        assert forall|i: int| 0 <= i < n implies #[trigger] reconciled_dataset(
            datasets.drop_last()[i],
            root,
            store,
        ) == (after.drop_last()[i], store) by {
            assert(reconciled_dataset(datasets[i], root, store) == (after[i], store));
        }
        lemma_one_by_one(datasets.drop_last(), after.drop_last(), root, store);
        assert(reconciled_dataset(datasets[n], root, store) == (after[n], store));
        assert(after.drop_last().push(after[n]) =~= after);
    } else {
        assert(after =~= datasets);
    }
}

/// After datasets are reconciled, reconciling each of them again gives what
/// the first reconciliation gave, whatever else the cache holds by then.
/// This is stated of datasets of which none has the alias of the sentinel
/// and no two have the same cache file.
pub proof fn lemma_each_again(datasets: Seq<DatasetView>, root: Seq<char>, store: CacheImageView)
    requires
        all_named(datasets),
        separate_files(datasets, root),
    ensures
        ({
            let (after, image) = reconciled_datasets(datasets, root, store);
            &&& after.len() == datasets.len()
            &&& forall|i: int|
                0 <= i < datasets.len() ==> gives_again(
                    #[trigger] datasets[i],
                    after[i],
                    root,
                    image,
                )
        }),
    decreases datasets.len(),
{
    if datasets.len() > 0 {
        let head = datasets.drop_last();
        let last = datasets.last();
        let n = head.len() as int;
        assert(last == datasets[n]);
        assert forall|i: int| 0 <= i < head.len() implies (#[trigger] head[i]).alias
            != "Default"@ by {
            assert(head[i] == datasets[i]);
        }
        assert forall|i: int, j: int|
            0 <= i < j < head.len() && dataset_file(
                root,
                (#[trigger] head[i]).url,
            ) is Some implies dataset_file(root, head[i].url) != dataset_file(
            root,
            (#[trigger] head[j]).url,
        ) by {
            assert(head[i] == datasets[i] && head[j] == datasets[j]);
        }
        lemma_each_again(head, root, store);
        let (once, mid) = reconciled_datasets(head, root, store);
        let (then, image) = reconciled_dataset(last, root, mid);
        lemma_dataset_again(last, root, mid);
        let after = once.push(then);
        assert forall|i: int| 0 <= i < datasets.len() implies gives_again(
            #[trigger] datasets[i],
            after[i],
            root,
            image,
        ) by {
            if i < n {
                assert(head[i] == datasets[i]);
                assert(gives_again(head[i], once[i], root, mid));
                if dataset_file(root, datasets[i].url) is Some {
                    lemma_other_files_left(
                        last,
                        root,
                        mid,
                        dataset_file(root, datasets[i].url).unwrap(),
                    );
                }
            }
        }
    }
}

/// Reconciling the same datasets again, with the cache as the first
/// reconciliation left it, gives the datasets that the first one gave and
/// leaves the cache.
pub proof fn lemma_datasets_again(
    datasets: Seq<DatasetView>,
    root: Seq<char>,
    store: CacheImageView,
)
    requires
        all_named(datasets),
        separate_files(datasets, root),
    ensures
        ({
            let (after, image) = reconciled_datasets(datasets, root, store);
            reconciled_datasets(datasets, root, image) == (after, image)
        }),
{
    lemma_each_again(datasets, root, store);
    let (after, image) = reconciled_datasets(datasets, root, store);
    assert forall|i: int| 0 <= i < datasets.len() implies #[trigger] reconciled_dataset(
        datasets[i],
        root,
        image,
    ) == (after[i], image) by {
        assert(gives_again(datasets[i], after[i], root, image));
    }
    lemma_one_by_one(datasets, after, root, image);
}

/// Whether the collection `c` can be reconciled again without change. The
/// collection has a binary form and not the alias of the sentinel. The
/// entry that is in memory after the collection itself is reconciled has
/// the cache file of `c`. Of its datasets none has the alias of the
/// sentinel, no two have the same cache file, and none has the cache file
/// of the collection.
pub open spec fn collection_in_place(
    c: CollectionView,
    root: Seq<char>,
    store: CacheImageView,
) -> bool {
    let entry = reconciled_entry(c, root, store).0;
    &&& c.alias != "Default"@
    &&& saved_collection(c) is Some
    &&& collection_file(root, entry.alias) == collection_file(root, c.alias)
    &&& all_named(entry.datasets)
    &&& separate_files(entry.datasets, root)
    &&& forall|i: int|
        0 <= i < entry.datasets.len() ==> dataset_file(root, (#[trigger] entry.datasets[i]).url)
            != Some(collection_file(root, c.alias))
}

/// Whether reconciling the collection `c` with the image `store` looks at
/// the cache file `path`: the file of the collection, or the file of a
/// dataset of the entry that is in memory after the collection itself is
/// reconciled.
pub open spec fn touches(
    c: CollectionView,
    root: Seq<char>,
    store: CacheImageView,
    path: Seq<char>,
) -> bool {
    let entry = reconciled_entry(c, root, store).0;
    path == collection_file(root, c.alias) || exists|k: int|
        0 <= k < entry.datasets.len() && dataset_file(root, (#[trigger] entry.datasets[k]).url)
            == Some(path)
}

/// Whether the image `other` holds what `image` holds in every cache file
/// that reconciling `c` with `store` looks at.
pub open spec fn same_files(
    c: CollectionView,
    root: Seq<char>,
    store: CacheImageView,
    other: CacheImageView,
    image: CacheImageView,
) -> bool {
    forall|path: Seq<char>|
        touches(c, root, store, path) ==> #[trigger] other.get(path) == image.get(path)
}

/// Whether reconciling the collection `after` with any image that holds
/// what `image` holds in the files that reconciling `c` with `store` looks
/// at changes nothing.
pub open spec fn stays(
    c: CollectionView,
    after: CollectionView,
    root: Seq<char>,
    store: CacheImageView,
    image: CacheImageView,
) -> bool {
    forall|other: CacheImageView|
        same_files(c, root, store, other, image) ==> #[trigger] reconciled_collection(
            after,
            root,
            other,
        ) == (after, other)
}

/// Reconciling a collection leaves every cache file that it does not look
/// at.
pub proof fn lemma_collection_leaves_others(
    c: CollectionView,
    root: Seq<char>,
    store: CacheImageView,
    path: Seq<char>,
)
    requires
        !touches(c, root, store, path),
    ensures
        reconciled_collection(c, root, store).1.get(path) == store.get(path),
{
    let file = collection_file(root, c.alias);
    let (entry, mid) = reconciled_entry(c, root, store);
    if saved_collection(c) is Some {
        lemma_lookup_other(store.slots, file, Some(saved_collection(c).unwrap()), path);
    }
    lemma_datasets_leave_others(entry.datasets, root, mid, path);
}

/// After a collection is reconciled, reconciling it again changes nothing,
/// whatever else the cache holds by then.
pub proof fn lemma_collection_stays(c: CollectionView, root: Seq<char>, store: CacheImageView)
    requires
        collection_in_place(c, root, store),
    ensures
        stays(
            c,
            reconciled_collection(c, root, store).0,
            root,
            store,
            reconciled_collection(c, root, store).1,
        ),
{
    let file = collection_file(root, c.alias);
    let (entry, mid) = reconciled_entry(c, root, store);
    let (datasets, end) = reconciled_datasets(entry.datasets, root, mid);
    let once = CollectionView { datasets, ..entry };
    lemma_lex_irreflexive(entry.last_modified);
    lemma_datasets_leave_others(entry.datasets, root, mid, file);
    let kept = match collection_at(store, file) {
        Some(cached) => lex_lt(cached.last_modified, c.last_modified),
        None => true,
    };
    if kept {
        lemma_lookup_stored(store.slots, file, Some(saved_collection(c).unwrap()));
    }
    assert(collection_at(end, file) == Some(entry));
    lemma_each_again(entry.datasets, root, mid);
    assert forall|other: CacheImageView|
        same_files(c, root, store, other, end) implies #[trigger] reconciled_collection(
        once,
        root,
        other,
    ) == (once, other) by {
        assert(touches(c, root, store, file));
        assert(other.get(file) == end.get(file));
        assert(reconciled_entry(once, root, other) == (entry, other));
        assert forall|i: int| 0 <= i < entry.datasets.len() implies #[trigger] reconciled_dataset(
            entry.datasets[i],
            root,
            other,
        ) == (datasets[i], other) by {
            assert(gives_again(entry.datasets[i], datasets[i], root, end));
            if dataset_file(root, entry.datasets[i].url) is Some {
                let own = dataset_file(root, entry.datasets[i].url).unwrap();
                assert(touches(c, root, store, own));
                assert(other.get(own) == end.get(own));
            }
        }
        lemma_one_by_one(entry.datasets, datasets, root, other);
    }
}

/// Reconciling a collection a second time changes nothing, neither the
/// collection with its datasets nor the cache.
pub proof fn lemma_reconciled_collection_twice(
    c: CollectionView,
    root: Seq<char>,
    store: CacheImageView,
)
    requires
        collection_in_place(c, root, store),
    ensures
        ({
            let (once, image) = reconciled_collection(c, root, store);
            reconciled_collection(once, root, image) == (once, image)
        }),
{
    lemma_collection_stays(c, root, store);
    let (once, image) = reconciled_collection(c, root, store);
    assert(stays(c, once, root, store, image));
    assert(same_files(c, root, store, image, image));
}

/// Whether the collections `collections` can be reconciled again without
/// change: each can, and no cache file is looked at for two of them.
pub open spec fn catalog_in_place(
    collections: Seq<CollectionView>,
    root: Seq<char>,
    store: CacheImageView,
) -> bool {
    &&& forall|i: int|
        0 <= i < collections.len() ==> collection_in_place(#[trigger] collections[i], root, store)
    &&& forall|i: int, j: int, path: Seq<char>|
        0 <= i < j < collections.len() && #[trigger] touches(collections[i], root, store, path)
            ==> !#[trigger] touches(collections[j], root, store, path)
}

/// Reconciling collections leaves every cache file that is looked at for
/// none of them.
pub proof fn lemma_catalog_leaves_others(
    collections: Seq<CollectionView>,
    root: Seq<char>,
    store: CacheImageView,
    path: Seq<char>,
)
    requires
        catalog_in_place(collections, root, store),
        forall|i: int|
            0 <= i < collections.len() ==> !touches(#[trigger] collections[i], root, store, path),
    ensures
        reconciled(collections, root, store).1.get(path) == store.get(path),
    decreases collections.len(),
{
    if collections.len() > 0 {
        let head = collections.drop_last();
        let last = collections.last();
        let n = head.len() as int;
        assert(last == collections[n]);
        lemma_head_in_place(collections, root, store);
        assert forall|i: int| 0 <= i < head.len() implies !touches(
            #[trigger] head[i],
            root,
            store,
            path,
        ) by {
            assert(head[i] == collections[i]);
        }
        lemma_catalog_leaves_others(head, root, store, path);
        let mid = reconciled(head, root, store).1;
        lemma_last_sees_own_file(collections, root, store);
        lemma_collection_leaves_others(last, root, mid, path);
    }
}

/// All but the last of collections that can be reconciled again can be
/// reconciled again.
pub proof fn lemma_head_in_place(
    collections: Seq<CollectionView>,
    root: Seq<char>,
    store: CacheImageView,
)
    requires
        collections.len() > 0,
        catalog_in_place(collections, root, store),
    ensures
        catalog_in_place(collections.drop_last(), root, store),
{
    let head = collections.drop_last();
    assert forall|i: int| 0 <= i < head.len() implies collection_in_place(
        #[trigger] head[i],
        root,
        store,
    ) by {
        assert(head[i] == collections[i]);
    }
    assert forall|i: int, j: int, path: Seq<char>|
        0 <= i < j < head.len() && #[trigger] touches(
            head[i],
            root,
            store,
            path,
        ) implies !#[trigger] touches(head[j], root, store, path) by {
        assert(head[i] == collections[i] && head[j] == collections[j]);
    }
}

/// When the collections before the last are reconciled, the cache file of
/// the last is as it was, and so the last is reconciled as it would have
/// been at first.
pub proof fn lemma_last_sees_own_file(
    collections: Seq<CollectionView>,
    root: Seq<char>,
    store: CacheImageView,
)
    requires
        collections.len() > 0,
        catalog_in_place(collections, root, store),
    ensures
        ({
            let mid = reconciled(collections.drop_last(), root, store).1;
            let last = collections.last();
            &&& reconciled_entry(last, root, mid).0 == reconciled_entry(last, root, store).0
            &&& collection_in_place(last, root, mid)
            &&& forall|path: Seq<char>|
                touches(last, root, mid, path) == touches(last, root, store, path)
            &&& forall|path: Seq<char>|
                touches(last, root, store, path) ==> #[trigger] mid.get(path) == store.get(path)
        }),
    decreases collections.len(), 0nat,
{
    let head = collections.drop_last();
    let last = collections.last();
    let n = head.len() as int;
    assert(last == collections[n]);
    let mid = reconciled(head, root, store).1;
    lemma_head_in_place(collections, root, store);
    assert forall|path: Seq<char>| touches(last, root, store, path) implies #[trigger] mid.get(
        path,
    ) == store.get(path) by {
        assert forall|i: int| 0 <= i < head.len() implies !touches(
            #[trigger] head[i],
            root,
            store,
            path,
        ) by {
            assert(head[i] == collections[i]);
            if touches(collections[i], root, store, path) {
                assert(!touches(collections[n], root, store, path));
            }
        }
        lemma_catalog_leaves_others(head, root, store, path);
    }
    let file = collection_file(root, last.alias);
    assert(touches(last, root, store, file));
    assert(mid.get(file) == store.get(file));
    assert(reconciled_entry(last, root, mid).0 == reconciled_entry(last, root, store).0);
}

/// After collections are reconciled, reconciling each of them again changes
/// nothing.
pub proof fn lemma_catalog_stays(
    collections: Seq<CollectionView>,
    root: Seq<char>,
    store: CacheImageView,
)
    requires
        catalog_in_place(collections, root, store),
    ensures
        ({
            let (once, image) = reconciled(collections, root, store);
            &&& once.len() == collections.len()
            &&& forall|i: int|
                0 <= i < collections.len() ==> stays(
                    #[trigger] collections[i],
                    once[i],
                    root,
                    store,
                    image,
                )
        }),
    decreases collections.len(),
{
    if collections.len() > 0 {
        let head = collections.drop_last();
        let last = collections.last();
        let n = head.len() as int;
        assert(last == collections[n]);
        lemma_head_in_place(collections, root, store);
        lemma_catalog_stays(head, root, store);
        lemma_last_sees_own_file(collections, root, store);
        let (before, mid) = reconciled(head, root, store);
        let (then, image) = reconciled_collection(last, root, mid);
        lemma_collection_stays(last, root, mid);
        let once = before.push(then);
        assert forall|i: int| 0 <= i < collections.len() implies stays(
            #[trigger] collections[i],
            once[i],
            root,
            store,
            image,
        ) by {
            assert forall|other: CacheImageView|
                same_files(
                    collections[i],
                    root,
                    store,
                    other,
                    image,
                ) implies #[trigger] reconciled_collection(once[i], root, other) == (
                once[i],
                other,
            ) by {
                if i < n {
                    assert(head[i] == collections[i]);
                    assert(stays(head[i], before[i], root, store, mid));
                    assert forall|path: Seq<char>|
                        touches(head[i], root, store, path) implies #[trigger] other.get(path)
                        == mid.get(path) by {
                        assert(!touches(collections[n], root, store, path));
                        assert(!touches(last, root, mid, path));
                        lemma_collection_leaves_others(last, root, mid, path);
                    }
                    assert(same_files(head[i], root, store, other, mid));
                } else {
                    assert(stays(last, then, root, mid, image));
                    assert(same_files(last, root, mid, other, image));
                }
            }
        }
    }
}

/// Where reconciling each of `collections` with the image `store` changes
/// nothing, reconciling them in turn changes nothing.
pub proof fn lemma_catalog_settled(
    collections: Seq<CollectionView>,
    root: Seq<char>,
    store: CacheImageView,
)
    requires
        forall|i: int|
            0 <= i < collections.len() ==> #[trigger] reconciled_collection(
                collections[i],
                root,
                store,
            ) == (collections[i], store),
    ensures
        reconciled(collections, root, store) == (collections, store),
    decreases collections.len(),
{
    if collections.len() > 0 {
        let n = collections.len() - 1;
        assert forall|i: int| 0 <= i < n implies #[trigger] reconciled_collection(
            collections.drop_last()[i],
            root,
            store,
        ) == (collections.drop_last()[i], store) by {
            assert(reconciled_collection(collections[i], root, store) == (collections[i], store));
        }
        lemma_catalog_settled(collections.drop_last(), root, store);
        assert(reconciled_collection(collections[n], root, store) == (collections[n], store));
        assert(collections.drop_last().push(collections[n]) =~= collections);
    }
}

/// Reconciling the catalog a second time changes nothing, neither the
/// collections with their datasets nor the cache. This is stated of a
/// catalog in which each collection can be reconciled again and no cache
/// file is looked at for two collections.
pub proof fn lemma_reconciled_catalog_twice(
    collections: Seq<CollectionView>,
    root: Seq<char>,
    store: CacheImageView,
)
    requires
        catalog_in_place(collections, root, store),
    ensures
        ({
            let (once, image) = reconciled(collections, root, store);
            reconciled(once, root, image) == (once, image)
        }),
{
    lemma_catalog_stays(collections, root, store);
    let (once, image) = reconciled(collections, root, store);
    assert forall|i: int| 0 <= i < once.len() implies #[trigger] reconciled_collection(
        once[i],
        root,
        image,
    ) == (once[i], image) by {
        assert(stays(collections[i], once[i], root, store, image));
        assert(same_files(collections[i], root, store, image, image));
    }
    lemma_catalog_settled(once, root, image);
}

} // verus!
