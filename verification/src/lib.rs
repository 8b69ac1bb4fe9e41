//! Chapter cache of an EPUB reader: names and metadata of the cache files, and
//! the pipeline that turns a ZIP entry into stripped text.
pub mod cache;
pub mod zip;
