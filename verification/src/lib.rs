//! RetroSync core: the decisions behind keeping emulator saves in sync with
//! Google Drive, stated as contracts and proved with Verus.
use vstd::prelude::*;

pub mod auth;
pub mod commands;
pub mod constants;
pub mod device;
pub mod drive;
pub mod emulator;
pub mod error;
pub mod launch;
pub mod storage;
pub mod sync;
pub mod text;
pub mod versioning;
pub mod watcher;

verus! {

} // verus!
