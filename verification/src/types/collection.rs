//! A collection: a top-level grouping of datasets.

use crate::cache::{
    bytes_view, cached_collection, collection_from_blob, collection_to_blob, content_view,
    saved_collection,
};
use crate::clock::utc_now_text;
use crate::locator::{PageUrl, PageUrlView};
use crate::markup::{extract, extracted, first_node, first_text, ExtractError, PageQuery};
use crate::text::{chars_of, same_text, string_of, string_views, trim, trimmed};
use crate::types::dataset::{dataset_views, Dataset, DatasetView};
use vstd::prelude::*;
use vstd::std_specs::cmp::PartialEqSpec;

verus! {

/// A collection page of the catalog with the datasets found under it. Two
/// collections are equal when their aliases are.
#[derive(Debug)]
pub struct Collection {
    pub url: String,
    pub html: String,
    pub alias: String,
    pub descriptor: String,
    pub last_modified: String,
    pub datasets: Vec<Dataset>,
}

/// What a [`Collection`] holds, as plain values.
pub struct CollectionView {
    pub url: Seq<char>,
    pub html: Seq<char>,
    pub alias: Seq<char>,
    pub descriptor: Seq<char>,
    pub last_modified: Seq<char>,
    pub datasets: Seq<DatasetView>,
}

impl View for Collection {
    type V = CollectionView;

    open spec fn view(&self) -> CollectionView {
        CollectionView {
            url: self.url@,
            html: self.html@,
            alias: self.alias@,
            descriptor: self.descriptor@,
            last_modified: self.last_modified@,
            datasets: dataset_views(self.datasets@),
        }
    }
}

/// Whether no two of `datasets` share an alias.
pub open spec fn distinct_aliases(datasets: Seq<DatasetView>) -> bool {
    forall|i: int, j: int|
        0 <= i < j < datasets.len() ==> (#[trigger] datasets[i]).alias != (
        #[trigger] datasets[j]).alias
}

/// Whether the dataset at position `at` is the first of `datasets` with the
/// alias `alias`.
pub open spec fn first_with_alias(datasets: Seq<DatasetView>, alias: Seq<char>, at: int) -> bool {
    &&& 0 <= at < datasets.len()
    &&& datasets[at].alias == alias
    &&& forall|k: int| 0 <= k < at ==> (#[trigger] datasets[k]).alias != alias
}

/// Whether one of `datasets` has the alias `alias`.
pub open spec fn has_alias(datasets: Seq<DatasetView>, alias: Seq<char>) -> bool {
    exists|i: int| 0 <= i < datasets.len() && (#[trigger] datasets[i]).alias == alias
}

impl CollectionView {
    /// The sentinel that stands for "no collection", stamped with `now`.
    pub open spec fn sentinel(now: Seq<char>) -> CollectionView {
        CollectionView {
            url: Seq::empty(),
            html: "<html></html>"@,
            alias: "Default"@,
            descriptor: "Default collection"@,
            last_modified: now,
            datasets: Seq::empty(),
        }
    }

    /// Whether this is the sentinel, whatever its time stamp.
    pub open spec fn is_sentinel(self) -> bool {
        self == Self::sentinel(self.last_modified)
    }

    /// Whether no two datasets of the collection share an alias.
    pub open spec fn well_formed(self) -> bool {
        distinct_aliases(self.datasets)
    }
}

impl PartialEq for Collection {
    fn eq(&self, other: &Collection) -> (r: bool) {
        self.alias == other.alias
    }
}

impl vstd::std_specs::cmp::PartialEqSpecImpl for Collection {
    open spec fn obeys_eq_spec() -> bool {
        true
    }

    open spec fn eq_spec(&self, other: &Collection) -> bool {
        self.alias@ == other.alias@
    }
}

impl Eq for Collection {

}

/// Collections with the same alias are equal, whatever else they hold, and
/// collections with different aliases are not.
pub proof fn lemma_collection_equality(a: Collection, b: Collection)
    ensures
        a.eq_spec(&b) <==> a@.alias == b@.alias,
{
}

/// A copy of a list of datasets.
pub fn clone_datasets(datasets: &Vec<Dataset>) -> (r: Vec<Dataset>)
    ensures
        r@ == datasets@,
{
    let mut out: Vec<Dataset> = Vec::new();
    let mut i: usize = 0;
    while i < datasets.len()
        invariant
            i <= datasets.len(),
            out@ == datasets@.take(i as int),
        decreases datasets.len() - i,
    {
        out.push(datasets[i].clone());
        i += 1;
    }
    out
}

impl Clone for Collection {
    fn clone(&self) -> (r: Self)
        ensures
            r@ == self@,
    {
        Collection {
            url: self.url.clone(),
            html: self.html.clone(),
            alias: self.alias.clone(),
            descriptor: self.descriptor.clone(),
            last_modified: self.last_modified.clone(),
            datasets: clone_datasets(&self.datasets),
        }
    }
}

impl Default for Collection {
    /// The sentinel, stamped with the current time.
    fn default() -> (r: Self)
        ensures
            r@.is_sentinel(),
    {
        Collection::sentinel(utc_now_text())
    }
}

impl Collection {
    /// The sentinel that stands for "no collection", stamped with `now`.
    pub fn sentinel(now: String) -> (r: Self)
        ensures
            r@ == CollectionView::sentinel(now@),
    {
        let r = Collection {
            url: String::new(),
            html: "<html></html>".to_owned(),
            alias: "Default".to_owned(),
            descriptor: "Default collection".to_owned(),
            last_modified: now,
            datasets: Vec::new(),
        };
        assert(r@.datasets =~= Seq::<DatasetView>::empty());
        r
    }

    /// The position of the first dataset with the alias `alias`, or the
    /// number of datasets where none has it.
    pub fn find(&self, alias: &str) -> (i: usize)
        ensures
            i <= self.datasets.len(),
            i < self.datasets.len() ==> first_with_alias(self@.datasets, alias@, i as int),
            i == self.datasets.len() ==> !has_alias(self@.datasets, alias@),
    {
        let mut i: usize = 0;
        while i < self.datasets.len()
            invariant
                i <= self.datasets.len(),
                forall|k: int| 0 <= k < i ==> (#[trigger] self@.datasets[k]).alias != alias@,
            decreases self.datasets.len() - i,
        {
            if same_text(self.datasets[i].alias.as_str(), alias) {
                return i;
            }
            i += 1;
        }
        i
    }

    /// Whether the collection holds a dataset with the alias `alias`.
    pub fn holds(&self, alias: &str) -> (r: bool)
        ensures
            r == has_alias(self@.datasets, alias@),
    {
        self.find(alias) < self.datasets.len()
    }

    /// Appends `dataset` unless the collection already holds one with the
    /// same alias, and says whether it did.
    pub fn add_dataset(&mut self, dataset: Dataset) -> (added: bool)
        ensures
            added == !has_alias(old(self)@.datasets, dataset@.alias),
            added ==> final(self)@ == (CollectionView {
                datasets: old(self)@.datasets.push(dataset@),
                ..old(self)@
            }),
            !added ==> final(self)@ == old(self)@,
            old(self)@.well_formed() ==> final(self)@.well_formed(),
    {
        if self.holds(dataset.alias.as_str()) {
            return false;
        }
        let ghost before = self@.datasets;
        self.datasets.push(dataset);
        assert(self@.datasets =~= before.push(dataset@));
        true
    }
}

impl Collection {
    /// The content to write to the collection's cache file, or `None` where
    /// the collection has no binary form that reads back as the collection.
    /// A load of what comes out gives the collection back.
    pub fn persist(&self) -> (r: Option<Vec<u8>>)
        ensures
            bytes_view(r) == saved_collection(self@),
            r matches Some(bytes) ==> forall|now: Seq<char>|
                cached_collection(Some(bytes@), now) == self@,
    {
        collection_to_blob(self)
    }

    /// The collection kept in a cache file with the content `content`, where
    /// `None` stands for a file that is missing or cannot be read. Content
    /// that holds no collection gives the sentinel stamped with `now`, and
    /// so does `None`.
    pub fn from_filepath_at(content: Option<&[u8]>, now: String) -> (r: Self)
        ensures
            r@ == cached_collection(content_view(content), now@),
    {
        match content {
            Some(bytes) => match collection_from_blob(bytes) {
                Some(c) => c,
                None => Collection::sentinel(now),
            },
            None => Collection::sentinel(now),
        }
    }

    /// The collection kept in a cache file with the content `content`, where
    /// `None` stands for a file that is missing or cannot be read. Content
    /// that holds no collection gives the sentinel stamped with the current
    /// time, and so does `None`.
    pub fn from_filepath(content: Option<&[u8]>) -> (r: Self)
        ensures
            r@ == cached_collection(content_view(content), r@.last_modified),
    {
        Collection::from_filepath_at(content, utc_now_text())
    }
}

/// The collection at the address `url` whose page is `html`, given what the
/// query for the title and the query for the time of the last change read
/// off the page: the first match of each, without the white space around it.
pub open spec fn collection_from(
    url: PageUrlView,
    html: Seq<char>,
    titles: Seq<Seq<char>>,
    stamps: Seq<Seq<char>>,
) -> Result<CollectionView, ExtractError> {
    match first_text(titles) {
        Err(e) => Err(e),
        Ok(title) => match first_text(stamps) {
            Err(e) => Err(e),
            Ok(stamp) => Ok(
                CollectionView {
                    url: url.text,
                    html,
                    alias: url.collection_alias(),
                    descriptor: trim(title),
                    last_modified: trim(stamp),
                    datasets: Seq::empty(),
                },
            ),
        },
    }
}

/// The collection at the address `url` whose page is `html`.
pub open spec fn collection_of_page(url: PageUrlView, html: Seq<char>) -> Result<
    CollectionView,
    ExtractError,
> {
    match extracted(html, PageQuery::Title) {
        Err(e) => Err(e),
        Ok(titles) => match extracted(html, PageQuery::Modified) {
            Err(e) => Err(e),
            Ok(stamps) => collection_from(url, html, titles, stamps),
        },
    }
}

/// `text` without the white space around it.
pub fn trimmed_text(text: &str) -> (r: String)
    ensures
        r@ == trim(text@),
{
    let chars = chars_of(text);
    let inner = trimmed(&chars);
    string_of(&inner)
}

impl Collection {
    /// The collection at the address `url` whose page is `html`, given what
    /// the query for the title and the query for the time of the last change
    /// read off the page. It has no datasets yet.
    pub fn from_parts(
        url: &PageUrl,
        html: String,
        titles: &Vec<String>,
        stamps: &Vec<String>,
    ) -> (r: Result<Collection, ExtractError>)
        ensures
            match r {
                Ok(c) => collection_from(url@, html@, string_views(titles@), string_views(stamps@))
                    == Ok::<CollectionView, ExtractError>(c@),
                Err(e) => collection_from(
                    url@,
                    html@,
                    string_views(titles@),
                    string_views(stamps@),
                ) == Err::<CollectionView, ExtractError>(e),
            },
    {
        let title = match first_node(titles) {
            Ok(t) => t,
            Err(e) => {
                return Err(e);
            },
        };
        let stamp = match first_node(stamps) {
            Ok(t) => t,
            Err(e) => {
                return Err(e);
            },
        };
        let c = Collection {
            url: url.text.clone(),
            html,
            alias: url.collection_alias(),
            descriptor: trimmed_text(title.as_str()),
            last_modified: trimmed_text(stamp.as_str()),
            datasets: Vec::new(),
        };
        assert(c@.datasets =~= Seq::<DatasetView>::empty());
        Ok(c)
    }

    /// The collection at the address `url` whose page is `html`. Fails where
    /// the page shows no title or no time of the last change.
    pub fn from_url(url: &PageUrl, html: String) -> (r: Result<Collection, ExtractError>)
        ensures
            match r {
                Ok(c) => collection_of_page(url@, html@) == Ok::<CollectionView, ExtractError>(
                    c@,
                ),
                Err(e) => collection_of_page(url@, html@) == Err::<CollectionView, ExtractError>(
                    e,
                ),
            },
    {
        let titles = match extract(html.as_str(), PageQuery::Title) {
            Ok(nodes) => nodes,
            Err(e) => {
                return Err(e);
            },
        };
        let stamps = match extract(html.as_str(), PageQuery::Modified) {
            Ok(nodes) => nodes,
            Err(e) => {
                return Err(e);
            },
        };
        Collection::from_parts(url, html, &titles, &stamps)
    }
}

/// The views of a list of collections, element by element.
pub open spec fn collection_views(v: Seq<Collection>) -> Seq<CollectionView> {
    Seq::new(v.len(), |i: int| v[i]@)
}

} // verus!
