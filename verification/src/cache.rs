//! EPUB chapter cache: streaming decompress and HTML strip pipeline.
//!
//! The cache directory of a book has an 8.3-safe name, `_XXXXXXX`, and holds
//! `META.BIN` and one `CHnnn.TXT` per chapter.
pub mod end_laws;
pub mod inflate;
pub mod meta;
pub mod names;
pub mod progress;
pub mod step_laws;
pub mod stream;
pub mod stream_laws;
pub mod text_laws;

pub use crate::cache::meta::{
    encode_cache_meta, parse_cache_meta, MAX_CACHE_CHAPTERS, META_FILE, META_MAX_SIZE,
};
pub use crate::cache::names::{
    chapter_file_name, chapter_file_str, dir_name_for_hash, dir_name_str, fnv1a,
};
pub use crate::cache::progress::Step;
pub use crate::cache::stream::{allocation_outcome, stream_strip_entry, Buffers, EntryStream};
