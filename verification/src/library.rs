//! Opening an archive and resolving assets from it.

use crate::asset::{mapped_bytes, Asset, AssetSource};
use crate::asset_id::{name_hash, AssetId};
use crate::codec::{AssetTableEntry, FileHeader, MAGIC_NUMBER};
use crate::error::Error;
use crate::loader::AssetLoader;
use crate::table::{
    entry_in_bounds, last_with_id, lemma_table_entries_member, table_count, table_entry,
    table_error, table_of, AssetTable,
};
use memmap::Mmap;
use std::sync::Arc;
use vstd::prelude::*;

verus! {

/// What follows the file header in an archive: the table stream and the
/// payloads.
pub open spec fn after_header(data: Seq<u8>) -> Seq<u8> {
    data.subrange(8, data.len() as int)
}

/// Why `data` cannot be opened as an archive, or `None` if it can. It is
/// `TruncatedInput` if the file header is cut short; else `InvalidFormat` if
/// the magic number is wrong; else `TruncatedInput` if the table header or a
/// table entry is cut short; else `CorruptArchive` if a table entry points
/// outside `data`.
pub open spec fn archive_error(data: Seq<u8>) -> Option<Error> {
    if data.len() < 8 {
        Some(Error::TruncatedInput)
    } else if FileHeader::spec_decode(data).magic_number != MAGIC_NUMBER {
        Some(Error::InvalidFormat)
    } else {
        table_error(after_header(data), data.len() as int)
    }
}

/// The table of the archive `data`.
pub open spec fn archive_table(data: Seq<u8>) -> Map<u64, AssetTableEntry> {
    table_of(after_header(data))
}

/// Every entry in the table of an archive that opens lies within the archive.
pub proof fn lemma_archive_table_in_bounds(data: Seq<u8>, id: u64)
    requires
        archive_error(data) is None,
        archive_table(data).contains_key(id),
    ensures
        entry_in_bounds(archive_table(data)[id], data.len() as int),
{
    let stream = after_header(data);
    let n = table_count(stream);
    lemma_table_entries_member(stream, n, id);
    let j = choose|j: int| #[trigger]
        last_with_id(stream, n, j, id) && table_of(stream)[id] == table_entry(stream, j);
    assert(entry_in_bounds(table_entry(stream, j), data.len() as int));
}

/// An open archive: the mapped bytes and the table parsed from them.
pub struct Library {
    source: Arc<AssetSource>,
    assets: AssetTable,
}

/// What looking up `id` in an archive of bytes `source` with table `table`
/// gives for the name `path`: `None` if the table has no entry under `id`,
/// else an asset named `path` which is the window of `source` that the entry
/// names.
pub open spec fn resolved_by_id(
    source: Seq<u8>,
    table: Map<u64, AssetTableEntry>,
    id: u64,
    path: Seq<char>,
    asset: Option<Arc<Asset>>,
) -> bool {
    match asset {
        Some(a) => {
            &&& table.contains_key(id)
            &&& a.spec_path() == path
            &&& a.spec_source() == source
            &&& a.spec_offset() == table[id].offset
            &&& a.spec_size() == table[id].size
        },
        None => !table.contains_key(id),
    }
}

/// What resolving `path` in an archive gives: what looking up the identifier
/// of `path` gives.
pub open spec fn resolved(
    source: Seq<u8>,
    table: Map<u64, AssetTableEntry>,
    path: Seq<char>,
    asset: Option<Arc<Asset>>,
) -> bool {
    resolved_by_id(source, table, name_hash(path), path, asset)
}

impl Library {
    #[verifier::type_invariant]
    spec fn entries_in_source(self) -> bool {
        forall|id: u64| #[trigger]
            self.assets@.contains_key(id) ==> entry_in_bounds(
                self.assets@[id],
                self.source@.len() as int,
            )
    }

    /// The bytes of the archive.
    pub closed spec fn source_bytes(&self) -> Seq<u8> {
        self.source@
    }

    /// The entries of the archive by identifier.
    pub closed spec fn table(&self) -> Map<u64, AssetTableEntry> {
        self.assets@
    }

    /// Opens the archive that `source` maps: validates the file header, then
    /// parses the table and makes sure that every entry lies within the archive.
    pub fn new(source: Mmap) -> (r: Result<Self, Error>)
        ensures
            match r {
                Ok(library) => {
                    &&& archive_error(mapped_bytes(source)) is None
                    &&& library.source_bytes() == mapped_bytes(source)
                    &&& library.table() == archive_table(mapped_bytes(source))
                },
                Err(e) => archive_error(mapped_bytes(source)) == Some(e),
            },
    {
        let source = AssetSource::new(source);
        let data: &[u8] = source.bytes();
        proof {
            vstd::slice::axiom_spec_len(data);
        }
        let file_header = match FileHeader::from_stream(data) {
            Ok(h) => h,
            Err(e) => {
                return Err(e);
            },
        };
        if file_header.magic_number != MAGIC_NUMBER {
            return Err(Error::InvalidFormat);
        }
        let rest: &[u8] = vstd::slice::slice_subrange(data, 8, data.len());
        let assets = match AssetTable::from_stream(rest, data.len() as u64) {
            Ok(t) => t,
            Err(e) => {
                return Err(e);
            },
        };
        proof {
            assert forall|id: u64| #[trigger] assets@.contains_key(id) implies entry_in_bounds(
                assets@[id],
                source@.len() as int,
            ) by {
                lemma_archive_table_in_bounds(source@, id);
            }
        }
        Ok(Library { source: Arc::new(source), assets })
    }

    /// The identifiers of all assets in the archive, each once, in no
    /// particular order.
    pub fn assets(&self) -> (it: LibraryAssetIterator)
        ensures
            it@.no_duplicates(),
            it@.to_set() == self.table().dom(),
    {
        let ids: Vec<u64> = self.assets.ids();
        let it = LibraryAssetIterator { ids, at: 0 };
        assert(it@ =~= ids@);
        it
    }

    /// The size in bytes of the asset with identifier `id`, if the archive
    /// has one.
    pub fn size_of(&self, id: u64) -> (r: Option<u64>)
        ensures
            r == if self.table().contains_key(id) {
                Some(self.table()[id].size)
            } else {
                None
            },
    {
        match self.assets.get(id) {
            Some(e) => Some(e.size),
            None => None,
        }
    }

    /// Looks up `id` and hands out the asset under it by the name `path`.
    /// Fails with `NotFound` if and only if the table has no entry under
    /// `id`; else the asset is the window of the archive that the entry names,
    /// and shares the archive's source.
    pub fn resolve_id(&self, path: &str, id: AssetId) -> (r: Result<Arc<Asset>, Error>)
        ensures
            match r {
                Ok(a) => resolved_by_id(self.source_bytes(), self.table(), id.0, path@, Some(a)),
                Err(e) => e == Error::NotFound && resolved_by_id(
                    self.source_bytes(),
                    self.table(),
                    id.0,
                    path@,
                    None,
                ),
            },
    {
        proof {
            use_type_invariant(self);
        }
        match self.assets.get(id.0) {
            Some(entry) => {
                assert(self.assets@.contains_key(id.0));
                let asset = Asset::window(path, entry.offset, entry.size, self.source.clone());
                Ok(Arc::new(asset))
            },
            None => Err(Error::NotFound),
        }
    }

    /// Resolves `path` by the identifier of the name. Fails with `NotFound`
    /// if and only if the table has no entry under that identifier.
    pub fn resolve(&self, path: &str) -> (r: Result<Arc<Asset>, Error>)
        ensures
            match r {
                Ok(a) => resolved(self.source_bytes(), self.table(), path@, Some(a)),
                Err(e) => e == Error::NotFound && resolved(
                    self.source_bytes(),
                    self.table(),
                    path@,
                    None,
                ),
            },
    {
        self.resolve_id(path, AssetId::from_str(path))
    }
}

impl AssetLoader for Library {
    /// Resolves `path` as [`Library::resolve`] does, with `None` for "not
    /// found".
    fn load(&self, path: &str) -> (r: Option<Arc<Asset>>)
        ensures
            resolved(self.source_bytes(), self.table(), path@, r),
    {
        match self.resolve(path) {
            Ok(a) => Some(a),
            Err(_) => None,
        }
    }
}

/// Walks the identifiers of the assets in an archive.
pub struct LibraryAssetIterator {
    ids: Vec<u64>,
    at: usize,
}

impl View for LibraryAssetIterator {
    type V = Seq<u64>;

    /// The identifiers that are still to come, in the order in which they
    /// will come.
    closed spec fn view(&self) -> Seq<u64> {
        self.ids@.subrange(self.at as int, self.ids@.len() as int)
    }
}

impl LibraryAssetIterator {
    #[verifier::type_invariant]
    spec fn position_in_range(self) -> bool {
        self.at <= self.ids@.len()
    }

    /// Hands out the next identifier, or `None` once all have been handed
    /// out.
    pub fn next(&mut self) -> (r: Option<u64>)
        ensures
            old(self)@.len() == 0 ==> r.is_none() && final(self)@ == old(self)@,
            old(self)@.len() > 0 ==> r == Some(old(self)@[0]) && final(self)@ == old(
                self,
            )@.drop_first(),
    {
        proof {
            use_type_invariant(&*self);
        }
        if self.at < self.ids.len() {
            let id: u64 = self.ids[self.at];
            self.at = self.at + 1;
            assert(self@ =~= old(self)@.drop_first());
            Some(id)
        } else {
            None
        }
    }
}

} // verus!
