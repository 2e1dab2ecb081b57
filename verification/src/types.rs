//! The catalog's data: collections, datasets and the files of a dataset.

pub mod collection;
pub mod crcns;
pub mod dataset;
pub mod file;
pub mod settled;
pub mod state;

pub use collection::Collection;
pub use crcns::CRCNS;
pub use dataset::Dataset;
pub use file::File;
pub use state::State;
