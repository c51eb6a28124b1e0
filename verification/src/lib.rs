//! A read-optimised container format that bundles named blobs into one archive
//! and resolves them by a 64-bit identifier derived from the name.
//!
//! A [`Builder`] collects named blobs and writes the archive. A [`Library`] is
//! an archive that has been opened: its table is parsed and validated once, and
//! assets are then handed out as windows into the mapped bytes, without a
//! copy. An [`AssetManager`] remembers what any [`AssetLoader`] has resolved.

pub mod align;
pub mod asset;
pub mod asset_id;
pub mod builder;
pub mod codec;
pub mod endian;
pub mod error;
pub mod layout;
pub mod library;
pub mod loader;
pub mod manager;
pub mod round_trip;
pub mod table;

pub use crate::align::{align_up, ASSET_ALIGN_SIZE};
pub use crate::asset::{Asset, AssetSource};
pub use crate::asset_id::AssetId;
pub use crate::builder::{AssetDescription, Builder};
pub use crate::codec::{AssetTableEntry, AssetTableHeader, FileHeader, MAGIC_NUMBER};
pub use crate::error::Error;
pub use crate::library::{Library, LibraryAssetIterator};
pub use crate::loader::AssetLoader;
pub use crate::manager::AssetManager;
pub use crate::table::AssetTable;
