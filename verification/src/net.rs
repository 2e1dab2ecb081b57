//! Requests to the repository and the course of a download.

pub mod get_crcns_file;
pub mod write_response;

pub use get_crcns_file::get_crcns_file;
pub use write_response::write_response;
