//! A small file-backed tracker for filesystem references.
//!
//! The crate has three verified parts: the data model and validation rules
//! for a [`models::Reference`], the store operations that mutate a
//! [`models::StorageFile`] collection (create, update, delete), and a codec
//! for the persisted JSON document.  A window coordinator models the
//! tray-driven popover and dashboard surfaces as a pure state machine.

pub mod codec;
pub mod models;
pub mod store;
pub mod window;
