//! Files of a dataset: their listing and their place on disk.

pub mod get_file;
pub mod handlers;

pub use get_file::get_file;
