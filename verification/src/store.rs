//! An image of the cache files under the working directory.
//!
//! The caller fills the image with the content of the cache files that
//! exist, the reconciliation reads and writes it, and the caller then writes
//! back the files that the image lists as written.

use crate::cache::bytes_view;
use crate::text::same_text;
use vstd::prelude::*;

verus! {

/// One cache file: its path and its content, `None` where the file exists
/// and cannot be read.
#[derive(Debug)]
pub struct Slot {
    pub path: String,
    pub content: Option<Vec<u8>>,
}

/// What a [`Slot`] holds, as plain values.
pub struct SlotView {
    pub path: Seq<char>,
    pub content: Option<Seq<u8>>,
}

impl View for Slot {
    type V = SlotView;

    open spec fn view(&self) -> SlotView {
        SlotView {
            path: self.path@,
            content: bytes_view(self.content),
        }
    }
}

/// The cache files, and the paths written since the image was made, in the
/// order of the writes.
#[derive(Debug)]
pub struct CacheImage {
    pub slots: Vec<Slot>,
    pub written: Vec<String>,
}

/// What a [`CacheImage`] holds, as plain values.
pub struct CacheImageView {
    pub slots: Seq<SlotView>,
    pub written: Seq<Seq<char>>,
}

impl View for CacheImage {
    type V = CacheImageView;

    open spec fn view(&self) -> CacheImageView {
        CacheImageView {
            slots: Seq::new(self.slots@.len(), |i: int| self.slots@[i]@),
            written: Seq::new(self.written@.len(), |i: int| self.written@[i]@),
        }
    }
}

/// The content of the file at `path`: that of the first slot with this path.
/// `None` where no slot has it.
pub open spec fn lookup(slots: Seq<SlotView>, path: Seq<char>) -> Option<Option<Seq<u8>>>
    decreases slots.len(),
{
    if slots.len() == 0 {
        None
    } else if slots[0].path == path {
        Some(slots[0].content)
    } else {
        lookup(slots.drop_first(), path)
    }
}

/// `slots` with `content` at `path`: in place of the content of the first
/// slot with this path, or in a new slot at the end where there is none.
pub open spec fn stored(slots: Seq<SlotView>, path: Seq<char>, content: Option<Seq<u8>>) -> Seq<
    SlotView,
>
    decreases slots.len(),
{
    if slots.len() == 0 {
        seq![SlotView { path, content }]
    } else if slots[0].path == path {
        slots.update(0, SlotView { path, content })
    } else {
        seq![slots[0]] + stored(slots.drop_first(), path, content)
    }
}

impl CacheImageView {
    /// The content of the file at `path`, `None` where there is no such
    /// file.
    pub open spec fn get(self, path: Seq<char>) -> Option<Option<Seq<u8>>> {
        lookup(self.slots, path)
    }

    /// The image after `bytes` are written to `path`.
    pub open spec fn put(self, path: Seq<char>, bytes: Seq<u8>) -> CacheImageView {
        CacheImageView {
            slots: stored(self.slots, path, Some(bytes)),
            written: self.written.push(path),
        }
    }

    /// The image after the file at `path` is found with the content
    /// `content`.
    pub open spec fn load(self, path: Seq<char>, content: Option<Seq<u8>>) -> CacheImageView {
        CacheImageView { slots: stored(self.slots, path, content), written: self.written }
    }
}

/// What was stored at a path is what a lookup of that path finds.
pub proof fn lemma_lookup_stored(slots: Seq<SlotView>, path: Seq<char>, content: Option<Seq<u8>>)
    ensures
        lookup(stored(slots, path, content), path) == Some(content),
    decreases slots.len(),
{
    if slots.len() > 0 && slots[0].path != path {
        lemma_lookup_stored(slots.drop_first(), path, content);
        let s = stored(slots, path, content);
        assert(s.drop_first() =~= stored(slots.drop_first(), path, content));
    }
}

/// Storing at one path leaves what a lookup of another path finds.
pub proof fn lemma_lookup_other(
    slots: Seq<SlotView>,
    path: Seq<char>,
    content: Option<Seq<u8>>,
    other: Seq<char>,
)
    requires
        other != path,
    ensures
        lookup(stored(slots, path, content), other) == lookup(slots, other),
    decreases slots.len(),
{
    if slots.len() > 0 {
        let s = stored(slots, path, content);
        if slots[0].path == path {
            assert(s.drop_first() =~= slots.drop_first());
        } else {
            lemma_lookup_other(slots.drop_first(), path, content, other);
            assert(s.drop_first() =~= stored(slots.drop_first(), path, content));
        }
    } else {
        let s = stored(slots, path, content);
        assert(lookup(s.drop_first(), other) is None);
    }
}

impl CacheImage {
    /// An image without files.
    pub fn new() -> (r: CacheImage)
        ensures
            r@.slots.len() == 0,
            r@.written.len() == 0,
    {
        CacheImage { slots: Vec::new(), written: Vec::new() }
    }

    /// The index of the first slot with the path `path`, or the number of
    /// slots where there is none.
    fn find(&self, path: &str) -> (i: usize)
        ensures
            i <= self.slots.len(),
            i < self.slots.len() ==> self@.slots[i as int].path == path@,
            forall|k: int| 0 <= k < i ==> (#[trigger] self@.slots[k]).path != path@,
    {
        let mut i: usize = 0;
        while i < self.slots.len()
            invariant
                i <= self.slots.len(),
                forall|k: int| 0 <= k < i ==> (#[trigger] self@.slots[k]).path != path@,
            decreases self.slots.len() - i,
        {
            if same_text(self.slots[i].path.as_str(), path) {
                return i;
            }
            i += 1;
        }
        i
    }

    /// The content of the file at `path`: `None` where the image has no such
    /// file, `Some(None)` where the file cannot be read.
    pub fn get(&self, path: &str) -> (r: Option<&Option<Vec<u8>>>)
        ensures
            match r {
                Some(Some(bytes)) => self@.get(path@) == Some(Some(bytes@)),
                Some(None) => self@.get(path@) == Some(None::<Seq<u8>>),
                None => self@.get(path@) is None,
            },
    {
        let i = self.find(path);
        proof {
            lemma_lookup_first(self@.slots, path@, i as int);
        }
        if i < self.slots.len() {
            Some(&self.slots[i].content)
        } else {
            None
        }
    }

    /// Puts `content` at `path` without listing the path as written.
    fn place(&mut self, path: String, content: Option<Vec<u8>>)
        ensures
            final(self)@.slots == stored(old(self)@.slots, path@, bytes_view(content)),
            final(self).written == old(self).written,
    {
        let i = self.find(path.as_str());
        let slot = Slot { path, content };
        proof {
            lemma_stored_first(self@.slots, slot@, i as int);
        }
        if i < self.slots.len() {
            self.slots.set(i, slot);
        } else {
            self.slots.push(slot);
        }
    }

    /// Records that the file at `path` was found with the content
    /// `content`, `None` where it cannot be read.
    pub fn load(&mut self, path: String, content: Option<Vec<u8>>)
        ensures
            final(self)@ == old(self)@.load(path@, bytes_view(content)),
            final(self)@.get(path@) == Some(bytes_view(content)),
            forall|other: Seq<char>|
                other != path@ ==> #[trigger] final(self)@.get(other) == old(self)@.get(other),
    {
        proof {
            let c = bytes_view(content);
            lemma_lookup_stored(self@.slots, path@, c);
            assert forall|other: Seq<char>| other != path@ implies #[trigger] lookup(
                stored(self@.slots, path@, c),
                other,
            ) == lookup(self@.slots, other) by {
                lemma_lookup_other(self@.slots, path@, c, other);
            }
        }
        self.place(path, content);
    }

    /// Writes `bytes` to the file at `path` and lists the path as written.
    pub fn put(&mut self, path: String, bytes: Vec<u8>)
        ensures
            final(self)@ == old(self)@.put(path@, bytes@),
            final(self)@.get(path@) == Some(Some(bytes@)),
            forall|other: Seq<char>|
                other != path@ ==> #[trigger] final(self)@.get(other) == old(self)@.get(other),
    {
        proof {
            lemma_lookup_stored(self@.slots, path@, Some(bytes@));
            assert forall|other: Seq<char>| other != path@ implies #[trigger] lookup(
                stored(self@.slots, path@, Some(bytes@)),
                other,
            ) == lookup(self@.slots, other) by {
                lemma_lookup_other(self@.slots, path@, Some(bytes@), other);
            }
        }
        let ghost before = self@.written;
        let copy = path.clone();
        self.place(path, Some(bytes));
        self.written.push(copy);
        assert(self@.written =~= before.push(path@));
    }
}

/// The first slot with a path decides what a lookup of the path finds.
pub proof fn lemma_lookup_first(slots: Seq<SlotView>, path: Seq<char>, i: int)
    requires
        0 <= i <= slots.len(),
        i < slots.len() ==> slots[i].path == path,
        forall|k: int| 0 <= k < i ==> (#[trigger] slots[k]).path != path,
    ensures
        lookup(slots, path) == if i < slots.len() {
            Some(slots[i].content)
        } else {
            None
        },
    decreases slots.len(),
{
    if slots.len() > 0 && i > 0 {
        lemma_lookup_first(slots.drop_first(), path, i - 1);
    }
}

/// Storing replaces the first slot with the path, or adds a slot.
pub proof fn lemma_stored_first(slots: Seq<SlotView>, slot: SlotView, i: int)
    requires
        0 <= i <= slots.len(),
        i < slots.len() ==> slots[i].path == slot.path,
        forall|k: int| 0 <= k < i ==> (#[trigger] slots[k]).path != slot.path,
    ensures
        stored(slots, slot.path, slot.content) == if i < slots.len() {
            slots.update(i, slot)
        } else {
            slots.push(slot)
        },
    decreases slots.len(),
{
    if slots.len() > 0 && i > 0 {
        lemma_stored_first(slots.drop_first(), slot, i - 1);
    }
}

} // verus!
