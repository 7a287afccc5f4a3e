//! Indexing engine for a local audio collection: metadata records, album
//! deduplication, track upserts, playlists and the cover-art store.
pub mod model;
pub mod text;
pub mod metadata;
pub mod store;
pub mod index;
pub mod scan;
pub mod covers;
pub mod migrate;
pub mod playlist;
pub mod laws;
pub mod lyrics;
pub mod queries;
pub mod order;
