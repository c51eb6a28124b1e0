//! Resolved assets and the memory-mapped sources that they share.

use memmap::Mmap;
use std::sync::Arc;
use vstd::prelude::*;

verus! {

/// `memmap`'s read-only memory map, taken as it is: nothing inside it is
/// looked at but through [`mapped_bytes`].
#[verifier::external_type_specification]
#[verifier::external_body]
pub struct ExMmap(Mmap);

/// The bytes that a memory map shows.
pub uninterp spec fn mapped_bytes(m: Mmap) -> Seq<u8>;

/// Borrows the mapped bytes through `memmap`'s `Deref for Mmap`, which hands
/// out the whole mapping as one slice. The contract claims that a map shows
/// the same bytes whenever it is looked at: a read-only map is never written
/// through, and whoever made it from a file has promised, in making it, that
/// the file stays as it is while the map lives.
#[verifier::external_body]
fn map_slice(m: &Mmap) -> (s: &[u8])
    ensures
        s@ == mapped_bytes(*m),
{
    std::ops::Deref::deref(m)
}

/// A mapped region of memory that assets point into. It is shared by
/// reference count and unmapped when its last holder is gone.
pub struct AssetSource {
    handle: Mmap,
}

impl View for AssetSource {
    type V = Seq<u8>;

    closed spec fn view(&self) -> Seq<u8> {
        mapped_bytes(self.handle)
    }
}

impl AssetSource {
    /// Takes charge of a memory map.
    pub fn new(handle: Mmap) -> (s: Self)
        ensures
            s@ == mapped_bytes(handle),
    {
        AssetSource { handle }
    }

    /// The mapped bytes, borrowed without a copy.
    pub fn bytes(&self) -> (b: &[u8])
        ensures
            b@ == self@,
    {
        map_slice(&self.handle)
    }
}

/// A resolved asset: a name, and a window into a shared source.
pub struct Asset {
    path: String,
    offset: u64,
    size: u64,
    source: Arc<AssetSource>,
}

impl Asset {
    #[verifier::type_invariant]
    spec fn window_in_source(self) -> bool {
        self.offset + self.size <= self.source@.len()
    }

    /// The name under which the asset was resolved.
    pub closed spec fn spec_path(&self) -> Seq<char> {
        self.path@
    }

    /// The bytes of the source that the asset points into.
    pub closed spec fn spec_source(&self) -> Seq<u8> {
        self.source@
    }

    /// Where in its source the asset begins.
    pub closed spec fn spec_offset(&self) -> int {
        self.offset as int
    }

    /// The number of bytes of the asset.
    pub closed spec fn spec_size(&self) -> int {
        self.size as int
    }

    /// The asset's bytes: its window of the source.
    pub open spec fn spec_data(&self) -> Seq<u8> {
        self.spec_source().subrange(self.spec_offset(), self.spec_offset() + self.spec_size())
    }

    /// An asset named `path` that is the window of `size` bytes at `offset`
    /// of `source`.
    pub(crate) fn window(path: &str, offset: u64, size: u64, source: Arc<AssetSource>) -> (a: Self)
        requires
            offset + size <= source@.len(),
        ensures
            a.spec_path() == path@,
            a.spec_source() == source@,
            a.spec_offset() == offset,
            a.spec_size() == size,
    {
        Asset { path: path.to_owned(), offset, size, source }
    }

    /// An asset named `path` that is all of `source`, as when a loose file is
    /// mapped and served as one asset: its offset is 0 and its size the
    /// length of the map.
    pub fn whole(path: &str, source: Mmap) -> (a: Self)
        ensures
            a.spec_path() == path@,
            a.spec_source() == mapped_bytes(source),
            a.spec_offset() == 0,
            a.spec_size() == mapped_bytes(source).len(),
            a.spec_data() == mapped_bytes(source),
    {
        let source = AssetSource::new(source);
        let size: u64 = source.bytes().len() as u64;
        let a = Asset { path: path.to_owned(), offset: 0, size, source: Arc::new(source) };
        assert(a.spec_data() =~= a.spec_source());
        a
    }

    /// The name under which the asset was resolved.
    pub fn path(&self) -> (p: &String)
        ensures
            p@ == self.spec_path(),
    {
        &self.path
    }

    /// The asset's bytes, borrowed from the shared source without a copy.
    pub fn data(&self) -> (d: &[u8])
        ensures
            d@ == self.spec_data(),
            self.spec_offset() + self.spec_size() <= self.spec_source().len(),
    {
        proof {
            use_type_invariant(self);
        }
        let bytes: &[u8] = self.source.bytes();
        proof {
            vstd::slice::axiom_spec_len(bytes);
        }
        let start: usize = self.offset as usize;
        let end: usize = (self.offset + self.size) as usize;
        vstd::slice::slice_subrange(bytes, start, end)
    }
}

} // verus!
