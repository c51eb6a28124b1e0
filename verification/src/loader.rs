//! What it takes to resolve an asset by name.

use crate::asset::Asset;
use std::sync::Arc;
use vstd::prelude::*;

verus! {

/// Something that resolves names to assets: an open archive, or loose files
/// on disk. A cache can sit on top of any such thing.
pub trait AssetLoader {
    /// Resolves `path`, or answers `None` if there is no such asset. What is
    /// promised of the answer is up to each loader.
    fn load(&self, path: &str) -> (r: Option<Arc<Asset>>);
}

} // verus!
