//! Catalog synchronisation and file acquisition for a remote data repository
//! that publishes its catalog as web pages.

pub mod cache;
pub mod clock;
pub mod crawl;
pub mod decimal;
pub mod files;
pub mod global;
pub mod locator;
pub mod markup;
pub mod net;
pub mod order;
pub mod paths;
pub mod split;
pub mod store;
pub mod text;
pub mod types;
