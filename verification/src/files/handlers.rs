//! Readers of the text files that describe a dataset.

pub mod filelist;

pub use filelist::load_or_download_filelist;
