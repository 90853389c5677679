//! An in-memory catalog of titled books: an insertion-ordered store with
//! upsert, windowed pagination and a stable re-sort by the number that each
//! title carries after its first `-`.

pub mod record;
pub mod title_key;
pub mod pagination;
pub mod title_index;
pub mod store;
pub mod laws;
