//! A dataset: a named sub-item of a collection.

use crate::cache::{
    bytes_view, cached_dataset, content_view, dataset_from_blob, dataset_to_blob, saved_dataset,
};
use crate::clock::utc_now_text;
use crate::locator::{PageUrl, PageUrlView};
use crate::markup::{extract, extracted, first_node, first_text, ExtractError, PageQuery};
use crate::text::string_views;
use crate::net::get_crcns_file::{file_request, get_crcns_file, FileRequest, FileRequestView};
use crate::paths::{join, join_chars, push_all};
use crate::text::{chars_of, string_of};
use vstd::prelude::*;
use vstd::std_specs::cmp::PartialEqSpec;

verus! {

/// A dataset page of the catalog. Two datasets are equal when their aliases
/// are.
#[derive(Debug)]
pub struct Dataset {
    pub url: String,
    pub html: String,
    pub alias: String,
    pub content: String,
    pub description: String,
    pub last_modified: String,
}

/// What a [`Dataset`] holds, as plain values.
pub struct DatasetView {
    pub url: Seq<char>,
    pub html: Seq<char>,
    pub alias: Seq<char>,
    pub content: Seq<char>,
    pub description: Seq<char>,
    pub last_modified: Seq<char>,
}

impl View for Dataset {
    type V = DatasetView;

    open spec fn view(&self) -> DatasetView {
        DatasetView {
            url: self.url@,
            html: self.html@,
            alias: self.alias@,
            content: self.content@,
            description: self.description@,
            last_modified: self.last_modified@,
        }
    }
}

impl DatasetView {
    /// The sentinel that stands for "no dataset", stamped with `now`.
    pub open spec fn sentinel(now: Seq<char>) -> DatasetView {
        DatasetView {
            url: Seq::empty(),
            html: "<html></html>"@,
            alias: "Default"@,
            content: Seq::empty(),
            description: "Default Dataset"@,
            last_modified: now,
        }
    }

    /// Whether this is the sentinel, whatever its time stamp.
    pub open spec fn is_sentinel(self) -> bool {
        self == Self::sentinel(self.last_modified)
    }
}

impl PartialEq for Dataset {
    fn eq(&self, other: &Dataset) -> (r: bool) {
        self.alias == other.alias
    }
}

impl vstd::std_specs::cmp::PartialEqSpecImpl for Dataset {
    open spec fn obeys_eq_spec() -> bool {
        true
    }

    open spec fn eq_spec(&self, other: &Dataset) -> bool {
        self.alias@ == other.alias@
    }
}

impl Eq for Dataset {

}

/// Datasets with the same alias are equal, whatever else they hold, and
/// datasets with different aliases are not.
pub proof fn lemma_dataset_equality(a: Dataset, b: Dataset)
    ensures
        a.eq_spec(&b) <==> a@.alias == b@.alias,
{
}

impl Clone for Dataset {
    fn clone(&self) -> (r: Self)
        ensures
            r == *self,
    {
        Dataset {
            url: self.url.clone(),
            html: self.html.clone(),
            alias: self.alias.clone(),
            content: self.content.clone(),
            description: self.description.clone(),
            last_modified: self.last_modified.clone(),
        }
    }
}

impl Default for Dataset {
    /// The sentinel, stamped with the current time.
    fn default() -> (r: Self)
        ensures
            r@.is_sentinel(),
    {
        Dataset::sentinel(utc_now_text())
    }
}

impl Dataset {
    /// The sentinel that stands for "no dataset", stamped with `now`.
    pub fn sentinel(now: String) -> (r: Self)
        ensures
            r@ == DatasetView::sentinel(now@),
    {
        Dataset {
            url: String::new(),
            html: "<html></html>".to_owned(),
            alias: "Default".to_owned(),
            content: String::new(),
            description: "Default Dataset".to_owned(),
            last_modified: now,
        }
    }
}

impl Dataset {
    /// The content to write to the dataset's cache file, or `None` where the
    /// dataset has no binary form that reads back as the dataset. A load of
    /// what comes out gives the dataset back.
    pub fn persist(&self) -> (r: Option<Vec<u8>>)
        ensures
            bytes_view(r) == saved_dataset(self@),
            r matches Some(bytes) ==> forall|now: Seq<char>|
                cached_dataset(Some(bytes@), now) == self@,
    {
        dataset_to_blob(self)
    }

    /// The dataset kept in a cache file with the content `content`, where
    /// `None` stands for a file that is missing or cannot be read. Content
    /// that holds no dataset gives the sentinel stamped with `now`, and so
    /// does `None`.
    pub fn from_filepath_at(content: Option<&[u8]>, now: String) -> (r: Self)
        ensures
            r@ == cached_dataset(content_view(content), now@),
    {
        match content {
            Some(bytes) => match dataset_from_blob(bytes) {
                Some(d) => d,
                None => Dataset::sentinel(now),
            },
            None => Dataset::sentinel(now),
        }
    }

    /// The dataset kept in a cache file with the content `content`, where
    /// `None` stands for a file that is missing or cannot be read. Content
    /// that holds no dataset gives the sentinel stamped with the current
    /// time, and so does `None`.
    pub fn from_filepath(content: Option<&[u8]>) -> (r: Self)
        ensures
            r@ == cached_dataset(content_view(content), r@.last_modified),
    {
        Dataset::from_filepath_at(content, utc_now_text())
    }
}

/// The dataset at the address `url` whose page is `html`, found at the time
/// `now`, given what the query for the description and the query for the
/// content block read off the page: the first match of each.
pub open spec fn dataset_from(
    url: PageUrlView,
    html: Seq<char>,
    descriptions: Seq<Seq<char>>,
    contents: Seq<Seq<char>>,
    now: Seq<char>,
) -> Result<DatasetView, ExtractError> {
    match first_text(descriptions) {
        Err(e) => Err(e),
        Ok(description) => match first_text(contents) {
            Err(e) => Err(e),
            Ok(content) => Ok(
                DatasetView {
                    url: url.text,
                    html,
                    alias: url.dataset_alias(),
                    content,
                    description,
                    last_modified: now,
                },
            ),
        },
    }
}

/// The dataset at the address `url` whose page is `html`, found at the time
/// `now`.
pub open spec fn dataset_of_page(url: PageUrlView, html: Seq<char>, now: Seq<char>) -> Result<
    DatasetView,
    ExtractError,
> {
    match extracted(html, PageQuery::Description) {
        Err(e) => Err(e),
        Ok(descriptions) => match extracted(html, PageQuery::Content) {
            Err(e) => Err(e),
            Ok(contents) => dataset_from(url, html, descriptions, contents, now),
        },
    }
}

impl Dataset {
    /// The dataset at the address `url` whose page is `html`, found at the
    /// time `now`, given what the query for the description and the query
    /// for the content block read off the page.
    pub fn from_parts(
        url: &PageUrl,
        html: String,
        descriptions: &Vec<String>,
        contents: &Vec<String>,
        now: String,
    ) -> (r: Result<Dataset, ExtractError>)
        ensures
            match r {
                Ok(d) => dataset_from(
                    url@,
                    html@,
                    string_views(descriptions@),
                    string_views(contents@),
                    now@,
                ) == Ok::<DatasetView, ExtractError>(d@),
                Err(e) => dataset_from(
                    url@,
                    html@,
                    string_views(descriptions@),
                    string_views(contents@),
                    now@,
                ) == Err::<DatasetView, ExtractError>(e),
            },
    {
        let description = match first_node(descriptions) {
            Ok(t) => t,
            Err(e) => {
                return Err(e);
            },
        };
        let content = match first_node(contents) {
            Ok(t) => t,
            Err(e) => {
                return Err(e);
            },
        };
        Ok(
            Dataset {
                url: url.text.clone(),
                html,
                alias: url.dataset_alias(),
                content,
                description,
                last_modified: now,
            },
        )
    }

    /// The dataset at the address `url` whose page is `html`, found at the
    /// time `now`. Fails where the page shows no description or no content
    /// block.
    pub fn from_url_at(url: &PageUrl, html: String, now: String) -> (r: Result<
        Dataset,
        ExtractError,
    >)
        ensures
            match r {
                Ok(d) => dataset_of_page(url@, html@, now@) == Ok::<DatasetView, ExtractError>(
                    d@,
                ),
                Err(e) => dataset_of_page(url@, html@, now@) == Err::<DatasetView, ExtractError>(
                    e,
                ),
            },
    {
        let descriptions = match extract(html.as_str(), PageQuery::Description) {
            Ok(nodes) => nodes,
            Err(e) => {
                return Err(e);
            },
        };
        let contents = match extract(html.as_str(), PageQuery::Content) {
            Ok(nodes) => nodes,
            Err(e) => {
                return Err(e);
            },
        };
        Dataset::from_parts(url, html, &descriptions, &contents, now)
    }

    /// The dataset at the address `url` whose page is `html`, found now.
    /// Fails where the page shows no description or no content block.
    pub fn from_url(url: &PageUrl, html: String) -> (r: Result<Dataset, ExtractError>)
        ensures
            match r {
                Ok(d) => dataset_of_page(url@, html@, d@.last_modified) == Ok::<
                    DatasetView,
                    ExtractError,
                >(d@),
                Err(e) => forall|now: Seq<char>|
                    dataset_of_page(url@, html@, now) == Err::<DatasetView, ExtractError>(e),
            },
    {
        Dataset::from_url_at(url, html, utc_now_text())
    }
}

/// What it takes to fetch one file of a dataset: the path of the file in the
/// repository, the path that it goes to on disk, and the request to make.
#[derive(Debug)]
pub struct Acquisition {
    pub remote_path: String,
    pub local_path: String,
    pub request: FileRequest,
}

/// What an [`Acquisition`] holds, as plain values.
pub struct AcquisitionView {
    pub remote_path: Seq<char>,
    pub local_path: Seq<char>,
    pub request: FileRequestView,
}

impl View for Acquisition {
    type V = AcquisitionView;

    open spec fn view(&self) -> AcquisitionView {
        AcquisitionView {
            remote_path: self.remote_path@,
            local_path: self.local_path@,
            request: self.request@,
        }
    }
}

/// The path in the repository of the file `filepath` of the dataset with the
/// alias `alias`.
pub open spec fn remote_path(alias: Seq<char>, filepath: Seq<char>) -> Seq<char> {
    alias.push('/') + filepath
}

/// The directory below the working directory that holds what belongs to the
/// collection with the alias `collection_alias`.
pub open spec fn collection_folder(
    working_directory: Seq<char>,
    collection_alias: Seq<char>,
) -> Seq<char> {
    join(join(working_directory, "data"@), collection_alias)
}

/// What it takes to fetch the file `filepath` of the dataset `d`.
pub open spec fn acquisition(
    d: DatasetView,
    collection_alias: Seq<char>,
    filepath: Seq<char>,
    working_directory: Seq<char>,
    username: Seq<char>,
    password: Seq<char>,
) -> AcquisitionView {
    let remote = remote_path(d.alias, filepath);
    AcquisitionView {
        remote_path: remote,
        local_path: join(collection_folder(working_directory, collection_alias), remote),
        request: file_request(remote, username, password),
    }
}

impl Dataset {
    /// The path on disk of the file `filepath` of this dataset, which
    /// belongs to the collection with the alias `collection_alias`, in the
    /// tree below `working_directory`.
    pub fn local_file(&self, collection_alias: &str, filepath: &str, working_directory: &str) -> (r:
        String)
        ensures
            r@ == join(
                collection_folder(working_directory@, collection_alias@),
                remote_path(self@.alias, filepath@),
            ),
    {
        let mut remote = chars_of(self.alias.as_str());
        remote.push('/');
        let file = chars_of(filepath);
        push_all(&mut remote, &file);
        let root = chars_of(working_directory);
        let data = chars_of("data");
        let collection = chars_of(collection_alias);
        let folder = join_chars(&join_chars(&root, &data), &collection);
        string_of(&join_chars(&folder, &remote))
    }

    /// What it takes to fetch the file `filepath` of this dataset, which
    /// belongs to the collection with the alias `collection_alias`, into the
    /// tree below `working_directory`, in the name of `username`.
    pub fn get_crcns_file(
        &self,
        collection_alias: &str,
        filepath: &str,
        working_directory: &str,
        username: &str,
        password: &str,
    ) -> (r: Acquisition)
        ensures
            r@ == acquisition(
                self@,
                collection_alias@,
                filepath@,
                working_directory@,
                username@,
                password@,
            ),
    {
        let mut remote = chars_of(self.alias.as_str());
        remote.push('/');
        let file = chars_of(filepath);
        push_all(&mut remote, &file);
        let remote_path = string_of(&remote);
        let local_path = self.local_file(collection_alias, filepath, working_directory);
        let request = get_crcns_file(remote_path.as_str(), username, password);
        Acquisition { remote_path, local_path, request }
    }
}

/// The views of a list of datasets, element by element.
pub open spec fn dataset_views(v: Seq<Dataset>) -> Seq<DatasetView> {
    Seq::new(v.len(), |i: int| v[i]@)
}

} // verus!
