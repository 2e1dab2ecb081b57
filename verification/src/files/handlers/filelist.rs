//! The file manifest of a dataset.
//!
//! Two text files describe the files of a dataset. The file list names one
//! file per line, as a path and a size in bytes. The checksum list names one
//! file per line, as a checksum and a file name. A line that is not of this
//! form is passed over, and the lines after it are read all the same: a line
//! with fewer than two words, and in the file list a line that begins with
//! `#` or whose second word is no size. The two lists are matched by
//! position.

use crate::decimal::{parse_u64, read_u64};
use crate::paths::{join, join_chars};
use crate::split::{lines, split_lines, split_words, words};
use crate::global::set_state_dataset_files;
use crate::text::{chars_of, string_of, views};
use crate::types::collection::Collection;
use crate::types::dataset::{acquisition, collection_folder, Acquisition, Dataset};
use crate::types::file::{file_views, File, FileView};
use crate::types::state::{State, StateView};
use vstd::prelude::*;

verus! {

/// Why a manifest could not be resolved.
#[derive(Debug, Clone, Copy, PartialEq, Eq)]
pub enum ManifestError {
    /// The checksum list has more entries than the file list.
    MissingEntry { files: usize, checksums: usize },
}

/// A line of the file list as read: a path and a size in bytes.
pub struct ListedFile {
    pub path: Seq<char>,
    pub size: u64,
}

/// A line of the checksum list as read.
pub struct ListedChecksum {
    pub checksum: Seq<char>,
    pub name: Seq<char>,
}

/// A file of the file list.
#[derive(Debug)]
pub struct FileEntry {
    pub path: String,
    pub size: u64,
}

/// A file of the checksum list.
#[derive(Debug)]
pub struct ChecksumEntry {
    pub checksum: String,
    pub name: String,
}

impl View for FileEntry {
    type V = ListedFile;

    open spec fn view(&self) -> ListedFile {
        ListedFile { path: self.path@, size: self.size }
    }
}

impl View for ChecksumEntry {
    type V = ListedChecksum;

    open spec fn view(&self) -> ListedChecksum {
        ListedChecksum { checksum: self.checksum@, name: self.name@ }
    }
}

/// The views of a list of file entries, element by element.
pub open spec fn file_entries(v: Seq<FileEntry>) -> Seq<ListedFile> {
    Seq::new(v.len(), |i: int| v[i]@)
}

/// The views of a list of checksum entries, element by element.
pub open spec fn checksum_entries(v: Seq<ChecksumEntry>) -> Seq<ListedChecksum> {
    Seq::new(v.len(), |i: int| v[i]@)
}

/// What one line of the file list names: nothing where the line begins
/// with `#`, has fewer than two words, or has a second word that is no
/// 64-bit unsigned decimal number.
pub open spec fn listed_file(line: Seq<char>) -> Option<ListedFile> {
    let w = words(line);
    if (line.len() > 0 && line[0] == '#') || w.len() < 2 {
        None
    } else {
        match parse_u64(w[1]) {
            Some(size) => Some(ListedFile { path: w[0], size }),
            None => None,
        }
    }
}

/// What one line of the checksum list names: nothing where the line has
/// fewer than two words.
pub open spec fn listed_checksum(line: Seq<char>) -> Option<ListedChecksum> {
    let w = words(line);
    if w.len() < 2 {
        None
    } else {
        Some(ListedChecksum { checksum: w[0], name: w[1] })
    }
}

/// The files that the lines `lines` of a file list name, in order.
pub open spec fn files_of(lines: Seq<Seq<char>>) -> Seq<ListedFile> {
    lines.filter_map(|l: Seq<char>| listed_file(l))
}

/// The entries that the lines `lines` of a checksum list name, in order.
pub open spec fn checksums_of(lines: Seq<Seq<char>>) -> Seq<ListedChecksum> {
    lines.filter_map(|l: Seq<char>| listed_checksum(l))
}

/// The files that a file list names, in order.
pub open spec fn listed_files(text: Seq<char>) -> Seq<ListedFile> {
    files_of(lines(text))
}

/// The entries that a checksum list names, in order.
pub open spec fn listed_checksums(text: Seq<char>) -> Seq<ListedChecksum> {
    checksums_of(lines(text))
}

/// The record of the file listed as `file` with the checksum `sum`, for a
/// dataset kept in the directory `dir`.
pub open spec fn record(dir: Seq<char>, file: ListedFile, sum: ListedChecksum) -> FileView {
    FileView {
        remote_md5: sum.checksum,
        remote_path: file.path,
        remote_size: file.size,
        local_md5: Seq::empty(),
        local_path: join(dir, file.path),
        local_size: 0,
        extension: Seq::empty(),
    }
}

/// One record for each checksum entry, matched with the listed file at the
/// same position.
pub open spec fn records(
    dir: Seq<char>,
    files: Seq<ListedFile>,
    sums: Seq<ListedChecksum>,
) -> Seq<FileView> {
    Seq::new(sums.len(), |i: int| record(dir, files[i], sums[i]))
}

/// What two runs of lines name is what the first names, then what the
/// second names.
pub proof fn lemma_filter_map_concat<A, B>(a: Seq<A>, b: Seq<A>, f: spec_fn(A) -> Option<B>)
    ensures
        (a + b).filter_map(f) == a.filter_map(f) + b.filter_map(f),
    decreases b.len(),
{
    if b.len() > 0 {
        lemma_filter_map_concat(a, b.drop_last(), f);
        assert((a + b).drop_last() =~= a + b.drop_last());
    }
}

/// A line that names nothing is passed over: what the lines name with it
/// is what they name without it. A line with fewer than two words is such a
/// line in either list.
pub proof fn lemma_malformed_line_dropped(
    head: Seq<Seq<char>>,
    line: Seq<char>,
    tail: Seq<Seq<char>>,
)
    ensures
        listed_file(line) is None ==> files_of(head + seq![line] + tail) == files_of(head + tail),
        listed_checksum(line) is None ==> checksums_of(head + seq![line] + tail) == checksums_of(
            head + tail,
        ),
        words(line).len() < 2 ==> listed_file(line) is None && listed_checksum(line) is None,
{
    let f = |l: Seq<char>| listed_file(l);
    let g = |l: Seq<char>| listed_checksum(l);
    lemma_filter_map_concat(head + seq![line], tail, f);
    lemma_filter_map_concat(head, seq![line], f);
    lemma_filter_map_concat(head, tail, f);
    lemma_filter_map_concat(head + seq![line], tail, g);
    lemma_filter_map_concat(head, seq![line], g);
    lemma_filter_map_concat(head, tail, g);
    Seq::lemma_filter_map_singleton(line, f);
    Seq::lemma_filter_map_singleton(line, g);
}

/// A line that names a file adds one file to what the lines before it
/// name, and a line that names a checksum adds one entry.
pub proof fn lemma_valid_line_kept(head: Seq<Seq<char>>, line: Seq<char>)
    ensures
        listed_file(line) matches Some(file) ==> files_of(head.push(line)) == files_of(head).push(
            file,
        ),
        listed_checksum(line) matches Some(sum) ==> checksums_of(head.push(line)) == checksums_of(
            head,
        ).push(sum),
{
    assert(head.push(line).drop_last() =~= head);
}

/// Reads a file list: the files that it names, in order.
pub fn parse_filelist(text: &str) -> (r: Vec<FileEntry>)
    ensures
        file_entries(r@) == listed_files(text@),
{
    let chars = chars_of(text);
    let ls = split_lines(&chars);
    let ghost f = |l: Seq<char>| listed_file(l);
    let ghost all = views(ls@);
    let mut out: Vec<FileEntry> = Vec::new();
    let mut i: usize = 0;
    while i < ls.len()
        invariant
            i <= ls.len(),
            all == views(ls@),
            all == lines(text@),
            f == (|l: Seq<char>| listed_file(l)),
            file_entries(out@) == all.take(i as int).filter_map(f),
        decreases ls.len() - i,
    {
        let line = &ls[i];
        proof {
            all.lemma_filter_map_take_succ(f, i as int);
        }
        let comment = line.len() > 0 && line[0] == '#';
        let w = split_words(line);
        if !comment && w.len() >= 2 {
            match read_u64(&w[1]) {
                Some(size) => {
                    out.push(FileEntry { path: string_of(&w[0]), size });
                },
                None => {},
            }
        }
        i += 1;
    }
    assert(all.take(ls.len() as int) =~= all);
    out
}

/// Reads a checksum list: its entries in order.
pub fn parse_checksums(text: &str) -> (r: Vec<ChecksumEntry>)
    ensures
        checksum_entries(r@) == listed_checksums(text@),
{
    let chars = chars_of(text);
    let ls = split_lines(&chars);
    let ghost f = |l: Seq<char>| listed_checksum(l);
    let ghost all = views(ls@);
    let mut out: Vec<ChecksumEntry> = Vec::new();
    let mut i: usize = 0;
    while i < ls.len()
        invariant
            i <= ls.len(),
            all == views(ls@),
            all == lines(text@),
            f == (|l: Seq<char>| listed_checksum(l)),
            checksum_entries(out@) == all.take(i as int).filter_map(f),
        decreases ls.len() - i,
    {
        let line = &ls[i];
        proof {
            all.lemma_filter_map_take_succ(f, i as int);
        }
        let w = split_words(line);
        if w.len() >= 2 {
            out.push(ChecksumEntry { checksum: string_of(&w[0]), name: string_of(&w[1]) });
        }
        i += 1;
    }
    assert(all.take(ls.len() as int) =~= all);
    out
}

/// Matches the checksum entries with the listed files by position: one
/// record per checksum entry, for a dataset kept in the directory `dir`.
pub fn pair_records(dir: &str, files: &Vec<FileEntry>, sums: &Vec<ChecksumEntry>) -> (r: Vec<File>)
    requires
        sums.len() <= files.len(),
    ensures
        file_views(r@) == records(dir@, file_entries(files@), checksum_entries(sums@)),
{
    let base = chars_of(dir);
    let mut out: Vec<File> = Vec::new();
    let mut i: usize = 0;
    while i < sums.len()
        invariant
            i <= sums.len() <= files.len(),
            base@ == dir@,
            out.len() == i,
            forall|k: int|
                0 <= k < i ==> (#[trigger] out@[k])@ == record(dir@, files@[k]@, sums@[k]@),
        decreases sums.len() - i,
    {
        let path = chars_of(files[i].path.as_str());
        let local = join_chars(&base, &path);
        let file = File {
            remote_md5: sums[i].checksum.clone(),
            remote_path: files[i].path.clone(),
            remote_size: files[i].size,
            local_md5: String::new(),
            local_path: string_of(&local),
            local_size: 0,
            extension: String::new(),
        };
        out.push(file);
        i += 1;
    }
    out
}

/// The manifest of a dataset kept in the directory `dir`, given the text of
/// its file list and of its checksum list: one record for each checksum
/// entry, or the failure where there are more checksum entries than listed
/// files.
pub open spec fn manifest(dir: Seq<char>, filelist: Seq<char>, checksums: Seq<char>) -> Result<
    Seq<FileView>,
    ManifestError,
> {
    let files = listed_files(filelist);
    let sums = listed_checksums(checksums);
    if sums.len() <= files.len() {
        Ok(records(dir, files, sums))
    } else {
        Err(
            ManifestError::MissingEntry {
                files: files.len() as usize,
                checksums: sums.len() as usize,
            },
        )
    }
}

/// Resolves the manifest of a dataset kept in the directory `dir` from the
/// text of its file list and of its checksum list.
///
/// Fails where there are more checksum entries than listed files.
pub fn resolve_manifest(dir: &str, filelist: &str, checksums: &str) -> (r: Result<
    Vec<File>,
    ManifestError,
>)
    ensures
        match r {
            Ok(v) => manifest(dir@, filelist@, checksums@) == Ok::<Seq<FileView>, ManifestError>(
                file_views(v@),
            ),
            Err(e) => manifest(dir@, filelist@, checksums@) == Err::<Seq<FileView>, ManifestError>(
                e,
            ),
        },
{
    let files = parse_filelist(filelist);
    let sums = parse_checksums(checksums);
    if sums.len() > files.len() {
        return Err(ManifestError::MissingEntry { files: files.len(), checksums: sums.len() });
    }
    Ok(pair_records(dir, &files, &sums))
}

/// The directory that holds the manifest and the files of the dataset with
/// the alias `dataset_alias` in the collection with the alias
/// `collection_alias`.
pub open spec fn dataset_folder(
    working_directory: Seq<char>,
    collection_alias: Seq<char>,
    dataset_alias: Seq<char>,
) -> Seq<char> {
    join(collection_folder(working_directory, collection_alias), dataset_alias)
}

/// The directory that holds the manifest and the files of `dataset`, which
/// belongs to `collection`.
pub fn manifest_directory(
    working_directory: &str,
    collection: &Collection,
    dataset: &Dataset,
) -> (r: String)
    ensures
        r@ == dataset_folder(working_directory@, collection@.alias, dataset@.alias),
{
    let root = chars_of(working_directory);
    let data = chars_of("data");
    let c = chars_of(collection.alias.as_str());
    let d = chars_of(dataset.alias.as_str());
    string_of(&join_chars(&join_chars(&join_chars(&root, &data), &c), &d))
}

/// Decides whether the file `filename` of `dataset` is to be fetched: not
/// when it is already on disk. Where it is to be fetched, says what that
/// takes.
pub fn download_file(
    filename: &str,
    exists: bool,
    collection: &Collection,
    dataset: &Dataset,
    working_directory: &str,
    username: &str,
    password: &str,
) -> (r: Option<Acquisition>)
    ensures
        match r {
            None => exists,
            Some(a) => !exists && a@ == acquisition(
                dataset@,
                collection@.alias,
                filename@,
                working_directory@,
                username@,
                password@,
            ),
        },
{
    if exists {
        None
    } else {
        Some(
            dataset.get_crcns_file(
                collection.alias.as_str(),
                filename,
                working_directory,
                username,
                password,
            ),
        )
    }
}

/// Resolves the manifest of `dataset`, which belongs to `collection`, from
/// the text of its file list and of its checksum list, and makes it the
/// files of the dataset worked on. On failure the state is left as it was.
pub fn load_or_download_filelist(
    state: &mut State,
    collection: &Collection,
    dataset: &Dataset,
    filelist: &str,
    checksums: &str,
) -> (r: Result<(), ManifestError>)
    ensures
        match manifest(
            dataset_folder(old(state)@.working_directory, collection@.alias, dataset@.alias),
            filelist@,
            checksums@,
        ) {
            Ok(files) => r is Ok && final(state)@ == (StateView {
                working_files: files,
                ..old(state)@
            }),
            Err(e) => r == Err::<(), ManifestError>(e) && final(state)@ == old(state)@,
        },
{
    let dir = manifest_directory(state.working_directory.as_str(), collection, dataset);
    match resolve_manifest(dir.as_str(), filelist, checksums) {
        Ok(files) => {
            set_state_dataset_files(state, files);
            Ok(())
        },
        Err(e) => Err(e),
    }
}

} // verus!
