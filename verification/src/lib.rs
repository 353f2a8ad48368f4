//! Payload storage over a paged, compressed store of values.
//!
//! - `mmap_payload_storage`: the payloads of the points of a segment.
//! - `open`, `optimize`, `steps`: opening a storage, and switching it to compression with a trained
//!   dictionary, as sequences of steps whose work on disk the caller does.
//! - `checked`: the same operations for storages of which nothing is known.
//! - `paths`: the directories of a storage.
//! - `gridstore`, `layout`, `walk`, `view`, `scan`, `callback`: the store, where its records stand,
//!   how they are read, and how they are handed over to a callback.
//! - `tracker`, `pages`, `lz4`, `config`, `counter`, `error`, `blob`: what the store is made of.
//! - `payload`, `json`, `text`, `schema`: payloads, JSON trees, their text, and their schema.
//! - `laws`, `operation_laws`, `storing_laws`, `store_laws`, `reading_laws`, `opening_laws`,
//!   `optimizing_laws`, `schema_laws`: what each operation does to what is stored, and what holds
//!   over several operations.

pub mod blob;
pub mod callback;
pub mod checked;
pub mod config;
pub mod counter;
pub mod error;
pub mod gridstore;
pub mod json;
pub mod laws;
pub mod layout;
pub mod lz4;
pub mod mmap_payload_storage;
pub mod open;
pub mod opening_laws;
pub mod operation_laws;
pub mod optimize;
pub mod optimizing_laws;
pub mod pages;
pub mod paths;
pub mod payload;
pub mod reading_laws;
pub mod scan;
pub mod schema;
pub mod schema_laws;
pub mod steps;
pub mod store_laws;
pub mod storing_laws;
pub mod text;
pub mod tracker;
pub mod view;
pub mod walk;
