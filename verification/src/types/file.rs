//! One downloadable file of a dataset.

use vstd::prelude::*;

verus! {

/// A file as the repository lists it, and where it goes on disk.
#[derive(Debug)]
pub struct File {
    pub remote_md5: String,
    pub remote_path: String,
    pub remote_size: u64,
    pub local_md5: String,
    pub local_path: String,
    pub local_size: u64,
    pub extension: String,
}

/// What a [`File`] holds, as plain values.
pub struct FileView {
    pub remote_md5: Seq<char>,
    pub remote_path: Seq<char>,
    pub remote_size: u64,
    pub local_md5: Seq<char>,
    pub local_path: Seq<char>,
    pub local_size: u64,
    pub extension: Seq<char>,
}

impl View for File {
    type V = FileView;

    open spec fn view(&self) -> FileView {
        FileView {
            remote_md5: self.remote_md5@,
            remote_path: self.remote_path@,
            remote_size: self.remote_size,
            local_md5: self.local_md5@,
            local_path: self.local_path@,
            local_size: self.local_size,
            extension: self.extension@,
        }
    }
}

impl FileView {
    /// The record of a file of which nothing is known yet.
    pub open spec fn blank() -> FileView {
        FileView {
            remote_md5: Seq::empty(),
            remote_path: Seq::empty(),
            remote_size: 0,
            local_md5: Seq::empty(),
            local_path: Seq::empty(),
            local_size: 0,
            extension: Seq::empty(),
        }
    }
}

impl Default for File {
    fn default() -> (r: Self)
        ensures
            r@ == FileView::blank(),
    {
        File {
            remote_md5: String::new(),
            remote_path: String::new(),
            remote_size: 0,
            local_md5: String::new(),
            local_path: String::new(),
            local_size: 0,
            extension: String::new(),
        }
    }
}

impl Clone for File {
    fn clone(&self) -> (r: Self)
        ensures
            r == *self,
    {
        File {
            remote_md5: self.remote_md5.clone(),
            remote_path: self.remote_path.clone(),
            remote_size: self.remote_size,
            local_md5: self.local_md5.clone(),
            local_path: self.local_path.clone(),
            local_size: self.local_size,
            extension: self.extension.clone(),
        }
    }
}

/// The views of a list of files, element by element.
pub open spec fn file_views(v: Seq<File>) -> Seq<FileView> {
    Seq::new(v.len(), |i: int| v[i]@)
}

} // verus!
