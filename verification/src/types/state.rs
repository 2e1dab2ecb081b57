//! The working state of a session.

use crate::net::write_response::Progress;
use crate::paths::push_all;
use crate::text::{chars_of, same_text, string_of};
use crate::types::collection::{
    collection_views, first_with_alias, has_alias, Collection, CollectionView,
};
use crate::types::crcns::CRCNS;
use crate::types::dataset::{Dataset, DatasetView};
use crate::types::file::{file_views, File, FileView};
use vstd::prelude::*;

verus! {

/// The progress of one download, under the key of the download.
#[derive(Debug)]
pub struct ProgressSlot {
    pub key: String,
    pub progress: Progress,
}

/// What a [`ProgressSlot`] holds, as plain values.
pub struct ProgressSlotView {
    pub key: Seq<char>,
    pub progress: Progress,
}

impl View for ProgressSlot {
    type V = ProgressSlotView;

    open spec fn view(&self) -> ProgressSlotView {
        ProgressSlotView { key: self.key@, progress: self.progress }
    }
}

/// The views of a list of progress slots, element by element.
pub open spec fn slot_views(v: Seq<ProgressSlot>) -> Seq<ProgressSlotView> {
    Seq::new(v.len(), |i: int| v[i]@)
}

/// What is selected and what is known in a session: the collection and the
/// dataset worked on, the files of that dataset, the directory that
/// everything is kept under, the catalog, and the downloads under way.
#[derive(Debug)]
pub struct State {
    pub working_files: Vec<File>,
    pub working_dataset: Dataset,
    pub working_collection: Collection,
    pub working_directory: String,
    pub collections: Vec<Collection>,
    pub progress: Vec<ProgressSlot>,
}

/// What a [`State`] holds, as plain values.
pub struct StateView {
    pub working_files: Seq<FileView>,
    pub working_dataset: DatasetView,
    pub working_collection: CollectionView,
    pub working_directory: Seq<char>,
    pub collections: Seq<CollectionView>,
    pub progress: Seq<ProgressSlotView>,
}

impl View for State {
    type V = StateView;

    open spec fn view(&self) -> StateView {
        StateView {
            working_files: file_views(self.working_files@),
            working_dataset: self.working_dataset@,
            working_collection: self.working_collection@,
            working_directory: self.working_directory@,
            collections: collection_views(self.collections@),
            progress: slot_views(self.progress@),
        }
    }
}

/// The key of the download of the file `filename` of a dataset: the alias
/// of the collection, the alias of the dataset and the name of the file,
/// with a slash between them.
pub open spec fn download_key(
    collection_alias: Seq<char>,
    dataset_alias: Seq<char>,
    filename: Seq<char>,
) -> Seq<char> {
    collection_alias.push('/') + dataset_alias.push('/') + filename
}

/// The key of the download of the file `filename` of a dataset.
pub fn progress_key(collection_alias: &str, dataset_alias: &str, filename: &str) -> (r: String)
    ensures
        r@ == download_key(collection_alias@, dataset_alias@, filename@),
{
    let mut key = chars_of(collection_alias);
    key.push('/');
    let dataset = chars_of(dataset_alias);
    push_all(&mut key, &dataset);
    key.push('/');
    let file = chars_of(filename);
    push_all(&mut key, &file);
    string_of(&key)
}

/// Whether no two of `slots` have the same key.
pub open spec fn distinct_keys(slots: Seq<ProgressSlotView>) -> bool {
    forall|i: int, j: int|
        0 <= i < j < slots.len() ==> (#[trigger] slots[i]).key != (#[trigger] slots[j]).key
}

/// The position of the first of `slots` with the key `key`, or the number of
/// slots where none has it.
pub open spec fn key_position(slots: Seq<ProgressSlotView>, key: Seq<char>) -> int
    decreases slots.len(),
{
    if slots.len() == 0 {
        0
    } else if slots[0].key == key {
        0
    } else {
        1 + key_position(slots.drop_first(), key)
    }
}

impl StateView {
    /// Whether each download has a key of its own.
    pub open spec fn well_formed(self) -> bool {
        distinct_keys(self.progress)
    }
}

/// The position of a key is that of the first slot that has it.
pub proof fn lemma_key_position(slots: Seq<ProgressSlotView>, key: Seq<char>, i: int)
    requires
        0 <= i <= slots.len(),
        i < slots.len() ==> slots[i].key == key,
        forall|k: int| 0 <= k < i ==> (#[trigger] slots[k]).key != key,
    ensures
        key_position(slots, key) == i,
    decreases slots.len(),
{
    if slots.len() > 0 && i > 0 {
        lemma_key_position(slots.drop_first(), key, i - 1);
    }
}

impl State {
    /// The state at the start of a session kept under `working_directory`:
    /// nothing selected, nothing known.
    pub fn new(working_directory: String) -> (r: State)
        ensures
            r@.working_directory == working_directory@,
            r@.working_collection.is_sentinel(),
            r@.working_dataset.is_sentinel(),
            r@.working_files.len() == 0,
            r@.collections.len() == 0,
            r@.progress.len() == 0,
    {
        State {
            working_files: Vec::new(),
            working_dataset: Dataset::default(),
            working_collection: Collection::default(),
            working_directory,
            collections: Vec::new(),
            progress: Vec::new(),
        }
    }

    /// Selects the collection with the alias `collection_alias` and its
    /// dataset with the alias `dataset_alias` as the ones worked on, and
    /// says whether the catalog has them. Where it has not, nothing changes.
    pub fn select(&mut self, collection_alias: &str, dataset_alias: &str) -> (found: bool)
        ensures
            ({
                let before = old(self)@;
                let after = final(self)@;
                let at = CRCNS::position(before.collections, collection_alias@);
                if at < before.collections.len() && has_alias(
                    before.collections[at].datasets,
                    dataset_alias@,
                ) {
                    &&& found
                    &&& after.working_collection == before.collections[at]
                    &&& exists|k: int|
                        first_with_alias(before.collections[at].datasets, dataset_alias@, k)
                            && after.working_dataset == before.collections[at].datasets[k]
                    &&& after == (StateView {
                        working_collection: after.working_collection,
                        working_dataset: after.working_dataset,
                        ..before
                    })
                } else {
                    !found && after == before
                }
            }),
    {
        let i = CRCNS::find(&self.collections, collection_alias);
        proof {
            CRCNS::lemma_position(self@.collections, collection_alias@, i as int);
        }
        if i == self.collections.len() {
            return false;
        }
        let j = self.collections[i].find(dataset_alias);
        if j == self.collections[i].datasets.len() {
            return false;
        }
        let collection = self.collections[i].clone();
        let dataset = self.collections[i].datasets[j].clone();
        self.working_collection = collection;
        self.working_dataset = dataset;
        true
    }

    /// The slot of the download with the key `key`: the one that there is,
    /// or a new one at the end with no progress yet.
    pub fn add_or_get_progress(&mut self, key: String) -> (slot: usize)
        ensures
            slot == key_position(old(self)@.progress, key@),
            slot < old(self)@.progress.len() ==> final(self)@ == old(self)@,
            slot == old(self)@.progress.len() ==> final(self)@ == (StateView {
                progress: old(self)@.progress.push(
                    ProgressSlotView {
                        key: key@,
                        progress: Progress { numerator: 0, denominator: 1 },
                    },
                ),
                ..old(self)@
            }),
            old(self)@.well_formed() ==> final(self)@.well_formed(),
    {
        let mut i: usize = 0;
        while i < self.progress.len()
            invariant
                i <= self.progress.len(),
                forall|k: int| 0 <= k < i ==> (#[trigger] self@.progress[k]).key != key@,
            decreases self.progress.len() - i,
        {
            if same_text(self.progress[i].key.as_str(), key.as_str()) {
                proof {
                    lemma_key_position(self@.progress, key@, i as int);
                }
                return i;
            }
            i += 1;
        }
        proof {
            lemma_key_position(self@.progress, key@, i as int);
        }
        let ghost before = self@.progress;
        let slot = ProgressSlot { key, progress: Progress { numerator: 0, denominator: 1 } };
        self.progress.push(slot);
        assert(self@.progress =~= before.push(slot@));
        i
    }

    /// Records the progress `progress` in the slot `slot`.
    pub fn set_progress(&mut self, slot: usize, progress: Progress)
        requires
            slot < old(self)@.progress.len(),
        ensures
            final(self)@ == (StateView {
                progress: old(self)@.progress.update(
                    slot as int,
                    ProgressSlotView { key: old(self)@.progress[slot as int].key, progress },
                ),
                ..old(self)@
            }),
            old(self)@.well_formed() ==> final(self)@.well_formed(),
    {
        let ghost before = self@.progress;
        let key = self.progress[slot].key.clone();
        let updated = ProgressSlot { key, progress };
        self.progress.set(slot, updated);
        assert(self@.progress =~= before.update(slot as int, updated@));
    }
}

} // verus!
