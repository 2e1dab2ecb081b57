//! The binary form in which catalog entries are kept on disk.
//!
//! An entry is written field by field, each text field as `bincode` writes a
//! string under its standard configuration. A collection is followed by the
//! number of its datasets, as `bincode` writes a `u64` in its variable-length
//! form, and by the datasets.
//! What is written is read back before it is handed out, so that a load of
//! what a save gave yields the entry that was saved.

use crate::text::same_text;
use crate::types::collection::{Collection, CollectionView};
use crate::types::dataset::{dataset_views, Dataset, DatasetView};
use vstd::prelude::*;
use vstd::slice::slice_subrange;

verus! {

/// `bincode::error::EncodeError`: nothing is known of what it holds.
#[verifier::external_type_specification]
#[verifier::external_body]
pub struct ExEncodeError(bincode::error::EncodeError);

/// `bincode::error::DecodeError`: nothing is known of what it holds.
#[verifier::external_type_specification]
#[verifier::external_body]
pub struct ExDecodeError(bincode::error::DecodeError);

/// The bytes that `bincode::encode_to_vec` gives for a string under the
/// standard configuration, or `None` where it fails.
pub uninterp spec fn text_encoding(text: Seq<char>) -> Option<Seq<u8>>;

/// The string that `bincode::borrow_decode_from_slice` reads from the start
/// of `bytes` under the standard configuration, with the number of bytes it
/// read, or `None` where it fails.
pub uninterp spec fn text_decoding(bytes: Seq<u8>) -> Option<(Seq<char>, nat)>;

/// The `width` bytes that write `n`, least significant byte first.
pub open spec fn le_bytes(n: nat, width: nat) -> Seq<u8>
    decreases width,
{
    if width == 0 {
        Seq::empty()
    } else {
        seq![(n % 256) as u8] + le_bytes(n / 256, (width - 1) as nat)
    }
}

/// The number that the bytes `bytes` write, least significant byte first.
pub open spec fn le_value(bytes: Seq<u8>) -> nat
    decreases bytes.len(),
{
    if bytes.len() == 0 {
        0
    } else {
        bytes[0] as nat + 256 * le_value(bytes.drop_first())
    }
}

/// A `u64` in the variable-length form of `bincode`: a number up to 250 is
/// one byte; a larger one is a marker byte, 251, 252 or 253, and then the
/// number in two, four or eight bytes, least significant first, in the
/// shortest of these that holds it.
pub open spec fn count_bytes(count: u64) -> Seq<u8> {
    if count <= 250 {
        seq![count as u8]
    } else if count <= 0xFFFF {
        seq![251u8] + le_bytes(count as nat, 2)
    } else if count <= 0xFFFF_FFFF {
        seq![252u8] + le_bytes(count as nat, 4)
    } else {
        seq![253u8] + le_bytes(count as nat, 8)
    }
}

/// The number of bytes that follow the marker byte `marker` of a `u64` in
/// the variable-length form, where it is a marker of that form.
pub open spec fn marked_width(marker: u8) -> Option<nat> {
    if marker == 251 {
        Some(2)
    } else if marker == 252 {
        Some(4)
    } else if marker == 253 {
        Some(8)
    } else {
        None
    }
}

/// The `u64` that `bincode::decode_from_slice` reads from the start of
/// `bytes` under the standard configuration, with the number of bytes it
/// read: a first byte up to 250 is the number; after a marker byte the
/// number stands in the two, four or eight bytes that follow. `None` where
/// the bytes end too soon or begin with another byte.
pub open spec fn count_decoding(bytes: Seq<u8>) -> Option<(u64, nat)> {
    if bytes.len() == 0 {
        None
    } else if bytes[0] <= 250 {
        Some((bytes[0] as u64, 1))
    } else {
        match marked_width(bytes[0]) {
            Some(width) => if bytes.len() >= 1 + width {
                Some((le_value(bytes.subrange(1, 1 + width as int)) as u64, 1 + width))
            } else {
                None
            },
            None => None,
        }
    }
}

/// Calls `bincode::encode_to_vec` on a string with the standard
/// configuration. The contract names the result.
#[verifier::external_body]
fn encode_text(text: &str) -> (r: Result<Vec<u8>, bincode::error::EncodeError>)
    ensures
        match r {
            Ok(bytes) => text_encoding(text@) == Some(bytes@),
            Err(_) => text_encoding(text@) is None,
        },
{
    bincode::encode_to_vec(text, bincode::config::standard())
}

/// Calls `bincode::borrow_decode_from_slice` for a string with the standard
/// configuration and copies the string out. The contract names the result.
#[verifier::external_body]
fn decode_text(bytes: &[u8]) -> (r: Result<(String, usize), bincode::error::DecodeError>)
    ensures
        match r {
            Ok((text, used)) => text_decoding(bytes@) == Some((text@, used as nat)),
            Err(_) => text_decoding(bytes@) is None,
        },
{
    let (text, used): (&str, usize) = bincode::borrow_decode_from_slice(
        bytes,
        bincode::config::standard(),
    )?;
    Ok((text.to_owned(), used))
}

/// Calls `bincode::encode_to_vec` on a `u64` with the standard
/// configuration. The contract states the result: the variable-length form
/// of the number. The call writes to a vector, which does not fail, so the
/// contract says that it succeeds.
#[verifier::external_body]
fn encode_count(count: u64) -> (r: Result<Vec<u8>, bincode::error::EncodeError>)
    ensures
        match r {
            Ok(bytes) => bytes@ == count_bytes(count),
            Err(_) => false,
        },
{
    bincode::encode_to_vec(count, bincode::config::standard())
}

/// Calls `bincode::decode_from_slice` for a `u64` with the standard
/// configuration. The contract states the result: the number that the
/// variable-length form at the start of the bytes writes, and a failure
/// where there is no such form.
#[verifier::external_body]
fn decode_count(bytes: &[u8]) -> (r: Result<(u64, usize), bincode::error::DecodeError>)
    ensures
        match r {
            Ok((count, used)) => count_decoding(bytes@) == Some((count, used as nat)),
            Err(_) => count_decoding(bytes@) is None,
        },
{
    bincode::decode_from_slice(bytes, bincode::config::standard())
}

/// The text fields `fields` written one after the other.
pub open spec fn fields_blob(fields: Seq<Seq<char>>) -> Option<Seq<u8>>
    decreases fields.len(),
{
    if fields.len() == 0 {
        Some(Seq::empty())
    } else {
        match (fields_blob(fields.drop_last()), text_encoding(fields.last())) {
            (Some(head), Some(last)) => Some(head + last),
            _ => None,
        }
    }
}

/// `count` text fields read one after the other from position `from` of
/// `bytes`, with the position after the last.
pub open spec fn read_fields(bytes: Seq<u8>, from: nat, count: nat) -> Option<
    (Seq<Seq<char>>, nat),
>
    decreases count,
{
    if count == 0 {
        if from <= bytes.len() {
            Some((Seq::empty(), from))
        } else {
            None
        }
    } else {
        match read_fields(bytes, from, (count - 1) as nat) {
            Some((head, at)) => match text_decoding(bytes.skip(at as int)) {
                Some((text, used)) => if at + used <= bytes.len() {
                    Some((head.push(text), at + used))
                } else {
                    None
                },
                None => None,
            },
            None => None,
        }
    }
}

/// The six text fields of a dataset, in the order in which they are kept.
pub open spec fn dataset_fields(d: DatasetView) -> Seq<Seq<char>> {
    seq![d.url, d.html, d.alias, d.content, d.description, d.last_modified]
}

/// The dataset whose fields are `fields`.
pub open spec fn fields_dataset(fields: Seq<Seq<char>>) -> DatasetView {
    DatasetView {
        url: fields[0],
        html: fields[1],
        alias: fields[2],
        content: fields[3],
        description: fields[4],
        last_modified: fields[5],
    }
}

/// The binary form of a dataset, or `None` where a field cannot be encoded.
pub open spec fn dataset_blob(d: DatasetView) -> Option<Seq<u8>> {
    fields_blob(dataset_fields(d))
}

/// The dataset that the start of `bytes` holds, if it holds one.
pub open spec fn blob_dataset(bytes: Seq<u8>) -> Option<DatasetView> {
    match read_fields(bytes, 0, 6) {
        Some((fields, _)) => Some(fields_dataset(fields)),
        None => None,
    }
}

/// The views of a list of texts, element by element.
pub open spec fn texts(v: Seq<&str>) -> Seq<Seq<char>> {
    Seq::new(v.len(), |i: int| v[i]@)
}

/// Appends the bytes of `tail` to `out`.
pub fn push_bytes(out: &mut Vec<u8>, tail: &Vec<u8>)
    ensures
        final(out)@ == old(out)@ + tail@,
{
    let mut i: usize = 0;
    while i < tail.len()
        invariant
            i <= tail.len(),
            out@ == old(out)@ + tail@.take(i as int),
        decreases tail.len() - i,
    {
        out.push(tail[i]);
        i += 1;
    }
}

/// Writes text fields one after the other.
fn encode_fields(fields: &Vec<&str>) -> (r: Option<Vec<u8>>)
    ensures
        bytes_view(r) == fields_blob(texts(fields@)),
{
    let ghost all = texts(fields@);
    let mut out: Vec<u8> = Vec::new();
    let mut i: usize = 0;
    while i < fields.len()
        invariant
            i <= fields.len(),
            all == texts(fields@),
            fields_blob(all.take(i as int)) == Some(out@),
        decreases fields.len() - i,
    {
        assert(all.take(i + 1).drop_last() =~= all.take(i as int));
        match encode_text(fields[i]) {
            Ok(bytes) => {
                push_bytes(&mut out, &bytes);
            },
            Err(_) => {
                proof {
                    lemma_blob_none(all, i + 1);
                }
                return None;
            },
        }
        i += 1;
    }
    assert(all.take(fields.len() as int) =~= all);
    Some(out)
}

/// The fields of a dataset written one after the other.
fn encode_dataset(d: &Dataset) -> (r: Option<Vec<u8>>)
    ensures
        bytes_view(r) == dataset_blob(d@),
{
    let fields: Vec<&str> = vec![
        d.url.as_str(),
        d.html.as_str(),
        d.alias.as_str(),
        d.content.as_str(),
        d.description.as_str(),
        d.last_modified.as_str(),
    ];
    assert(texts(fields@) =~= dataset_fields(d@));
    encode_fields(&fields)
}

/// Tests whether two datasets hold the same values.
pub fn same_dataset(a: &Dataset, b: &Dataset) -> (r: bool)
    ensures
        r == (a@ == b@),
{
    a.url == b.url && a.html == b.html && a.alias == b.alias && a.content == b.content
        && a.description == b.description && a.last_modified == b.last_modified
}

/// The binary form of a dataset, where there is one and it reads back as
/// the dataset.
pub open spec fn saved_dataset(d: DatasetView) -> Option<Seq<u8>> {
    match dataset_blob(d) {
        Some(bytes) => if blob_dataset(bytes) == Some(d) {
            Some(bytes)
        } else {
            None
        },
        None => None,
    }
}

/// The binary form of a dataset. The dataset is written and read back, and
/// only what reads back as the dataset is handed out.
pub fn dataset_to_blob(d: &Dataset) -> (r: Option<Vec<u8>>)
    ensures
        bytes_view(r) == saved_dataset(d@),
{
    let bytes = match encode_dataset(d) {
        Some(bytes) => bytes,
        None => {
            return None;
        },
    };
    match dataset_from_blob(bytes.as_slice()) {
        Some(back) => if same_dataset(&back, d) {
            Some(bytes)
        } else {
            None
        },
        None => None,
    }
}

/// Where the first `n` fields cannot be written, neither can all of them.
pub proof fn lemma_blob_none(fields: Seq<Seq<char>>, n: int)
    requires
        0 <= n <= fields.len(),
        fields_blob(fields.take(n)) is None,
    ensures
        fields_blob(fields) is None,
    decreases fields.len() - n,
{
    if n == fields.len() {
        assert(fields.take(n) =~= fields);
    } else {
        assert(fields.take(n + 1).drop_last() =~= fields.take(n));
        lemma_blob_none(fields, n + 1);
    }
}

/// Reads one text field at position `at` of `bytes`.
fn take_text(bytes: &[u8], at: usize) -> (r: Option<(String, usize)>)
    requires
        at <= bytes@.len(),
    ensures
        match r {
            Some((text, end)) => {
                &&& text_decoding(bytes@.skip(at as int)) matches Some((t, used))
                &&& t == text@
                &&& end == at + used
                &&& end <= bytes@.len()
            },
            None => match text_decoding(bytes@.skip(at as int)) {
                Some((_, used)) => at + used > bytes@.len(),
                None => true,
            },
        },
{
    let tail = slice_subrange(bytes, at, bytes.len());
    match decode_text(tail) {
        Ok((text, used)) => if used <= bytes.len() - at {
            Some((text, at + used))
        } else {
            None
        },
        Err(_) => None,
    }
}

/// Reads a dataset at position `from` of `bytes`, with the position after
/// it.
fn take_dataset(bytes: &[u8], from: usize) -> (r: Option<(Dataset, usize)>)
    requires
        from <= bytes@.len(),
    ensures
        match r {
            Some((d, end)) => read_fields(bytes@, from as nat, 6) == Some(
                (dataset_fields(d@), end as nat),
            ) && end <= bytes@.len(),
            None => read_fields(bytes@, from as nat, 6) is None,
        },
{
    reveal_with_fuel(read_fields, 7);
    let (url, at) = match take_text(bytes, from) {
        Some(x) => x,
        None => {
            return None;
        },
    };
    let (html, at) = match take_text(bytes, at) {
        Some(x) => x,
        None => {
            return None;
        },
    };
    let (alias, at) = match take_text(bytes, at) {
        Some(x) => x,
        None => {
            return None;
        },
    };
    let (content, at) = match take_text(bytes, at) {
        Some(x) => x,
        None => {
            return None;
        },
    };
    let (description, at) = match take_text(bytes, at) {
        Some(x) => x,
        None => {
            return None;
        },
    };
    let (last_modified, at) = match take_text(bytes, at) {
        Some(x) => x,
        None => {
            return None;
        },
    };
    let d = Dataset { url, html, alias, content, description, last_modified };
    Some((d, at))
}

/// The dataset that the start of `bytes` holds, if it holds one.
pub fn dataset_from_blob(bytes: &[u8]) -> (r: Option<Dataset>)
    ensures
        match r {
            Some(d) => blob_dataset(bytes@) == Some(d@),
            None => blob_dataset(bytes@) is None,
        },
{
    match take_dataset(bytes, 0) {
        Some((d, _)) => Some(d),
        None => None,
    }
}

/// The five text fields of a collection, in the order in which they are
/// kept.
pub open spec fn collection_fields(c: CollectionView) -> Seq<Seq<char>> {
    seq![c.url, c.html, c.alias, c.descriptor, c.last_modified]
}

/// The datasets `datasets` written one after the other.
pub open spec fn datasets_blob(datasets: Seq<DatasetView>) -> Option<Seq<u8>>
    decreases datasets.len(),
{
    if datasets.len() == 0 {
        Some(Seq::empty())
    } else {
        match (datasets_blob(datasets.drop_last()), dataset_blob(datasets.last())) {
            (Some(head), Some(last)) => Some(head + last),
            _ => None,
        }
    }
}

/// The binary form of a collection: its text fields, the number of its
/// datasets, and the datasets. `None` where a part cannot be encoded.
pub open spec fn collection_blob(c: CollectionView) -> Option<Seq<u8>> {
    if c.datasets.len() > u64::MAX {
        None
    } else {
        match (fields_blob(collection_fields(c)), datasets_blob(c.datasets)) {
            (Some(fields), Some(datasets)) => Some(
                fields + count_bytes(c.datasets.len() as u64) + datasets,
            ),
            _ => None,
        }
    }
}

/// `count` datasets read one after the other from position `from` of
/// `bytes`, with the position after the last.
pub open spec fn read_datasets(bytes: Seq<u8>, from: nat, count: nat) -> Option<
    (Seq<DatasetView>, nat),
>
    decreases count,
{
    if count == 0 {
        if from <= bytes.len() {
            Some((Seq::empty(), from))
        } else {
            None
        }
    } else {
        match read_datasets(bytes, from, (count - 1) as nat) {
            Some((head, at)) => match read_fields(bytes, at, 6) {
                Some((fields, end)) => Some((head.push(fields_dataset(fields)), end)),
                None => None,
            },
            None => None,
        }
    }
}

/// The collection that the start of `bytes` holds, if it holds one.
pub open spec fn blob_collection(bytes: Seq<u8>) -> Option<CollectionView> {
    match read_fields(bytes, 0, 5) {
        Some((fields, at)) => match count_decoding(bytes.skip(at as int)) {
            Some((count, used)) => if at + used <= bytes.len() {
                match read_datasets(bytes, at + used, count as nat) {
                    Some((datasets, _)) => Some(
                        CollectionView {
                            url: fields[0],
                            html: fields[1],
                            alias: fields[2],
                            descriptor: fields[3],
                            last_modified: fields[4],
                            datasets,
                        },
                    ),
                    None => None,
                }
            } else {
                None
            },
            None => None,
        },
        None => None,
    }
}

/// Where the first `n` datasets cannot be written, neither can all of them.
pub proof fn lemma_datasets_blob_none(datasets: Seq<DatasetView>, n: int)
    requires
        0 <= n <= datasets.len(),
        datasets_blob(datasets.take(n)) is None,
    ensures
        datasets_blob(datasets) is None,
    decreases datasets.len() - n,
{
    if n == datasets.len() {
        assert(datasets.take(n) =~= datasets);
    } else {
        assert(datasets.take(n + 1).drop_last() =~= datasets.take(n));
        lemma_datasets_blob_none(datasets, n + 1);
    }
}

/// The fields of a collection, the number of its datasets and the datasets
/// written one after the other.
fn encode_collection(c: &Collection) -> (r: Option<Vec<u8>>)
    ensures
        bytes_view(r) == collection_blob(c@),
{
    let fields: Vec<&str> = vec![
        c.url.as_str(),
        c.html.as_str(),
        c.alias.as_str(),
        c.descriptor.as_str(),
        c.last_modified.as_str(),
    ];
    assert(texts(fields@) =~= collection_fields(c@));
    let mut out = match encode_fields(&fields) {
        Some(bytes) => bytes,
        None => {
            return None;
        },
    };
    let count = match encode_count(c.datasets.len() as u64) {
        Ok(bytes) => bytes,
        Err(_) => {
            return None;
        },
    };
    push_bytes(&mut out, &count);
    let ghost all = c@.datasets;
    let ghost start = out@;
    let mut i: usize = 0;
    while i < c.datasets.len()
        invariant
            i <= c.datasets.len(),
            all == c@.datasets,
            all.len() == c.datasets.len(),
            datasets_blob(all.take(i as int)) matches Some(blob) && out@ == start + blob,
        decreases c.datasets.len() - i,
    {
        assert(all.take(i + 1).drop_last() =~= all.take(i as int));
        match encode_dataset(&c.datasets[i]) {
            Some(bytes) => {
                push_bytes(&mut out, &bytes);
            },
            None => {
                proof {
                    lemma_datasets_blob_none(all, i + 1);
                }
                return None;
            },
        }
        i += 1;
    }
    assert(all.take(c.datasets.len() as int) =~= all);
    Some(out)
}

/// Tests whether two collections hold the same values.
pub fn same_collection(a: &Collection, b: &Collection) -> (r: bool)
    ensures
        r == (a@ == b@),
{
    if !(a.url == b.url && a.html == b.html && a.alias == b.alias && a.descriptor == b.descriptor
        && a.last_modified == b.last_modified) {
        return false;
    }
    if a.datasets.len() != b.datasets.len() {
        assert(a@.datasets.len() != b@.datasets.len());
        return false;
    }
    let mut i: usize = 0;
    while i < a.datasets.len()
        invariant
            i <= a.datasets.len(),
            a.datasets.len() == b.datasets.len(),
            a@.url == b@.url,
            a@.html == b@.html,
            a@.alias == b@.alias,
            a@.descriptor == b@.descriptor,
            a@.last_modified == b@.last_modified,
            forall|k: int| 0 <= k < i ==> (#[trigger] a@.datasets[k]) == b@.datasets[k],
        decreases a.datasets.len() - i,
    {
        if !same_dataset(&a.datasets[i], &b.datasets[i]) {
            assert(a@.datasets[i as int] != b@.datasets[i as int]);
            return false;
        }
        i += 1;
    }
    assert(a@.datasets =~= b@.datasets);
    true
}

/// The binary form of a collection, where there is one and it reads back as
/// the collection.
pub open spec fn saved_collection(c: CollectionView) -> Option<Seq<u8>> {
    match collection_blob(c) {
        Some(bytes) => if blob_collection(bytes) == Some(c) {
            Some(bytes)
        } else {
            None
        },
        None => None,
    }
}

/// The binary form of a collection. The collection is written and read
/// back, and only what reads back as the collection is handed out.
pub fn collection_to_blob(c: &Collection) -> (r: Option<Vec<u8>>)
    ensures
        bytes_view(r) == saved_collection(c@),
{
    let bytes = match encode_collection(c) {
        Some(bytes) => bytes,
        None => {
            return None;
        },
    };
    match collection_from_blob(bytes.as_slice()) {
        Some(back) => if same_collection(&back, c) {
            Some(bytes)
        } else {
            None
        },
        None => None,
    }
}

/// Reads `count` datasets from position `from` of `bytes`.
fn take_datasets(bytes: &[u8], from: usize, count: u64) -> (r: Option<Vec<Dataset>>)
    requires
        from <= bytes@.len(),
    ensures
        match r {
            Some(v) => read_datasets(bytes@, from as nat, count as nat) matches Some((ds, _))
                && ds == dataset_views(v@),
            None => read_datasets(bytes@, from as nat, count as nat) is None,
        },
{
    let mut out: Vec<Dataset> = Vec::new();
    let mut at: usize = from;
    let mut i: u64 = 0;
    while i < count
        invariant
            i <= count,
            at <= bytes@.len(),
            read_datasets(bytes@, from as nat, i as nat) == Some(
                (dataset_views(out@), at as nat),
            ),
        decreases count - i,
    {
        match take_dataset(bytes, at) {
            Some((d, end)) => {
                out.push(d);
                at = end;
            },
            None => {
                proof {
                    lemma_read_datasets_none(bytes@, from as nat, i as nat + 1, count as nat);
                }
                return None;
            },
        }
        i += 1;
    }
    Some(out)
}

/// Where the first `n` datasets cannot be read, neither can more of them.
pub proof fn lemma_read_datasets_none(bytes: Seq<u8>, from: nat, n: nat, count: nat)
    requires
        n <= count,
        read_datasets(bytes, from, n) is None,
    ensures
        read_datasets(bytes, from, count) is None,
    decreases count - n,
{
    if n < count {
        lemma_read_datasets_none(bytes, from, n + 1, count);
    }
}

/// The collection that the start of `bytes` holds, if it holds one.
pub fn collection_from_blob(bytes: &[u8]) -> (r: Option<Collection>)
    ensures
        match r {
            Some(c) => blob_collection(bytes@) == Some(c@),
            None => blob_collection(bytes@) is None,
        },
{
    reveal_with_fuel(read_fields, 6);
    let (url, at) = match take_text(bytes, 0) {
        Some(x) => x,
        None => {
            return None;
        },
    };
    let (html, at) = match take_text(bytes, at) {
        Some(x) => x,
        None => {
            return None;
        },
    };
    let (alias, at) = match take_text(bytes, at) {
        Some(x) => x,
        None => {
            return None;
        },
    };
    let (descriptor, at) = match take_text(bytes, at) {
        Some(x) => x,
        None => {
            return None;
        },
    };
    let (last_modified, at) = match take_text(bytes, at) {
        Some(x) => x,
        None => {
            return None;
        },
    };
    let tail = slice_subrange(bytes, at, bytes.len());
    let (count, used) = match decode_count(tail) {
        Ok(x) => x,
        Err(_) => {
            return None;
        },
    };
    if used > bytes.len() - at {
        return None;
    }
    let datasets = match take_datasets(bytes, at + used, count) {
        Some(x) => x,
        None => {
            return None;
        },
    };
    Some(Collection { url, html, alias, descriptor, last_modified, datasets })
}

/// What a load makes of the content of a dataset's cache file: the dataset
/// that it holds, or the sentinel stamped with `now` where there is no
/// content or it holds no dataset.
pub open spec fn cached_dataset(content: Option<Seq<u8>>, now: Seq<char>) -> DatasetView {
    match content {
        Some(bytes) => match blob_dataset(bytes) {
            Some(d) => d,
            None => DatasetView::sentinel(now),
        },
        None => DatasetView::sentinel(now),
    }
}

/// What a load makes of the content of a collection's cache file: the
/// collection that it holds, or the sentinel stamped with `now` where there
/// is no content or it holds no collection.
pub open spec fn cached_collection(content: Option<Seq<u8>>, now: Seq<char>) -> CollectionView {
    match content {
        Some(bytes) => match blob_collection(bytes) {
            Some(c) => c,
            None => CollectionView::sentinel(now),
        },
        None => CollectionView::sentinel(now),
    }
}

/// The dataset that a cache file with the content `content` keeps: none
/// where there is no content, where the content holds no dataset, and where
/// it holds one with the alias of the sentinel.
pub open spec fn kept_dataset(content: Option<Seq<u8>>) -> Option<DatasetView> {
    match content {
        Some(bytes) => match blob_dataset(bytes) {
            Some(d) => if d.alias == "Default"@ {
                None
            } else {
                Some(d)
            },
            None => None,
        },
        None => None,
    }
}

/// The collection that a cache file with the content `content` keeps: none
/// where there is no content, where the content holds no collection, and
/// where it holds one with the alias of the sentinel.
pub open spec fn kept_collection(content: Option<Seq<u8>>) -> Option<CollectionView> {
    match content {
        Some(bytes) => match blob_collection(bytes) {
            Some(c) => if c.alias == "Default"@ {
                None
            } else {
                Some(c)
            },
            None => None,
        },
        None => None,
    }
}

/// The dataset that a cache file with the content `content` keeps.
pub fn load_dataset(content: Option<&[u8]>) -> (r: Option<Dataset>)
    ensures
        match r {
            Some(d) => kept_dataset(content_view(content)) == Some(d@),
            None => kept_dataset(content_view(content)) is None,
        },
{
    match content {
        Some(bytes) => match dataset_from_blob(bytes) {
            Some(d) => if same_text(d.alias.as_str(), "Default") {
                None
            } else {
                Some(d)
            },
            None => None,
        },
        None => None,
    }
}

/// The collection that a cache file with the content `content` keeps.
pub fn load_collection(content: Option<&[u8]>) -> (r: Option<Collection>)
    ensures
        match r {
            Some(c) => kept_collection(content_view(content)) == Some(c@),
            None => kept_collection(content_view(content)) is None,
        },
{
    match content {
        Some(bytes) => match collection_from_blob(bytes) {
            Some(c) => if same_text(c.alias.as_str(), "Default") {
                None
            } else {
                Some(c)
            },
            None => None,
        },
        None => None,
    }
}

/// The content of a cache file as a plain value.
pub open spec fn content_view(content: Option<&[u8]>) -> Option<Seq<u8>> {
    match content {
        Some(bytes) => Some(bytes@),
        None => None,
    }
}

/// The bytes of an optional vector as a plain value.
pub open spec fn bytes_view(bytes: Option<Vec<u8>>) -> Option<Seq<u8>> {
    match bytes {
        Some(b) => Some(b@),
        None => None,
    }
}

} // verus!
