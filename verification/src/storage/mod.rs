//! What the local database stores, and how values are written to and read
//! back from its columns.
pub mod emulators;
pub mod manifest;
pub mod queue;
pub mod settings;
