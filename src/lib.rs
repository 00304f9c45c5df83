//! A clipboard-history engine: keys, the stored collection and its update rules,
//! and the one-line previews used for listing.
pub mod error;
pub mod history;
pub mod keys;
pub mod laws;
pub mod preview;
pub mod text;

pub use error::Error;
pub use history::{
    contains_bytes, decode, dedup_keys, delete, delete_ids, delete_last, delete_query,
    evict_keys, list, lookup, should_store, store, wipe, Entry, History,
};
pub use keys::{btoi, cut, extract_id, itob, u64_to_be_bytes, MAX_SIZE};
pub use preview::{image_line, preview, text_line};
pub use text::{size_str, trunc};
