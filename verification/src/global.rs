//! Reading and setting the working state of a session.

use crate::net::write_response::Progress;
use crate::types::collection::{collection_views, Collection};
use crate::types::dataset::Dataset;
use crate::types::file::{file_views, File};
use crate::types::state::{
    key_position, slot_views, ProgressSlot, ProgressSlotView, State, StateView,
};
use vstd::prelude::*;

verus! {

/// A copy of a list of files.
pub fn clone_files(files: &Vec<File>) -> (r: Vec<File>)
    ensures
        r@ == files@,
{
    let mut out: Vec<File> = Vec::new();
    let mut i: usize = 0;
    while i < files.len()
        invariant
            i <= files.len(),
            out@ == files@.take(i as int),
        decreases files.len() - i,
    {
        out.push(files[i].clone());
        i += 1;
    }
    out
}

/// A copy of a list of collections.
pub fn clone_collections(collections: &Vec<Collection>) -> (r: Vec<Collection>)
    ensures
        collection_views(r@) == collection_views(collections@),
{
    let mut out: Vec<Collection> = Vec::new();
    let mut i: usize = 0;
    while i < collections.len()
        invariant
            i <= collections.len(),
            out.len() == i,
            forall|k: int| 0 <= k < i ==> (#[trigger] out@[k])@ == collections@[k]@,
        decreases collections.len() - i,
    {
        out.push(collections[i].clone());
        i += 1;
    }
    out
}

/// A copy of the working state.
pub fn get_state(state: &State) -> (r: State)
    ensures
        r@ == state@,
{
    let mut progress: Vec<ProgressSlot> = Vec::new();
    let mut i: usize = 0;
    while i < state.progress.len()
        invariant
            i <= state.progress.len(),
            progress.len() == i,
            forall|k: int| 0 <= k < i ==> (#[trigger] progress@[k])@ == state.progress@[k]@,
        decreases state.progress.len() - i,
    {
        progress.push(
            ProgressSlot {
                key: state.progress[i].key.clone(),
                progress: state.progress[i].progress,
            },
        );
        i += 1;
    }
    assert(slot_views(progress@) =~= slot_views(state.progress@));
    State {
        working_files: clone_files(&state.working_files),
        working_dataset: state.working_dataset.clone(),
        working_collection: state.working_collection.clone(),
        working_directory: state.working_directory.clone(),
        collections: clone_collections(&state.collections),
        progress,
    }
}

/// Selects `collection` as the collection worked on.
pub fn set_state_collection(state: &mut State, collection: Collection)
    ensures
        final(state)@ == (StateView { working_collection: collection@, ..old(state)@ }),
{
    state.working_collection = collection;
}

/// The collection worked on.
pub fn get_state_collection(state: &State) -> (r: Collection)
    ensures
        r@ == state@.working_collection,
{
    state.working_collection.clone()
}

/// Selects `dataset` as the dataset worked on.
pub fn set_state_dataset(state: &mut State, dataset: Dataset)
    ensures
        final(state)@ == (StateView { working_dataset: dataset@, ..old(state)@ }),
{
    state.working_dataset = dataset;
}

/// The dataset worked on.
pub fn get_state_dataset(state: &State) -> (r: Dataset)
    ensures
        r@ == state@.working_dataset,
{
    state.working_dataset.clone()
}

/// Makes `files` the files of the dataset worked on.
pub fn set_state_dataset_files(state: &mut State, files: Vec<File>)
    ensures
        final(state)@ == (StateView { working_files: file_views(files@), ..old(state)@ }),
{
    state.working_files = files;
}

/// The files of the dataset worked on.
pub fn get_state_dataset_files(state: &State) -> (r: Vec<File>)
    ensures
        file_views(r@) == state@.working_files,
{
    clone_files(&state.working_files)
}

/// The slot of the download with the key `key`: the one that there is, or a
/// new one at the end with no progress yet.
pub fn add_or_get_progress(state: &mut State, key: String) -> (slot: usize)
    ensures
        slot == key_position(old(state)@.progress, key@),
        slot < old(state)@.progress.len() ==> final(state)@ == old(state)@,
        slot == old(state)@.progress.len() ==> final(state)@ == (StateView {
            progress: old(state)@.progress.push(
                ProgressSlotView { key: key@, progress: Progress { numerator: 0, denominator: 1 } },
            ),
            ..old(state)@
        }),
        old(state)@.well_formed() ==> final(state)@.well_formed(),
{
    state.add_or_get_progress(key)
}

} // verus!
