//! The table of contents of an archive: what it says as bytes, and the lookup
//! structure that is parsed from it.

use crate::codec::{AssetTableEntry, AssetTableHeader};
use crate::endian::le_u64;
use crate::error::Error;
use std::collections::HashMap;
use vstd::prelude::*;
use vstd::std_specs::iter::IteratorSpec;

verus! {

broadcast use vstd::std_specs::hash::group_hash_axioms;

/// The number of entries that a table stream announces in its first eight
/// bytes.
pub open spec fn table_count(stream: Seq<u8>) -> int {
    le_u64(stream.subrange(0, 8))
}

/// Where in a table stream entry `i` begins.
pub open spec fn entry_start(i: int) -> int {
    8 + 24 * i
}

/// Entry `i` of a table stream.
pub open spec fn table_entry(stream: Seq<u8>, i: int) -> AssetTableEntry {
    AssetTableEntry::spec_decode(stream.subrange(entry_start(i), entry_start(i + 1)))
}

/// The payload that `e` points to lies within a source of `source_len` bytes.
pub open spec fn entry_in_bounds(e: AssetTableEntry, source_len: int) -> bool {
    e.offset + e.size <= source_len
}

/// Why a table stream cannot be parsed, or `None` if it can. It is
/// `TruncatedInput` if the stream is too short for its entry count or for the
/// entries that the count announces; if it is long enough, it is
/// `CorruptArchive` if one of the entries points outside the source.
pub open spec fn table_error(stream: Seq<u8>, source_len: int) -> Option<Error> {
    if stream.len() < 8 || stream.len() < entry_start(table_count(stream)) {
        Some(Error::TruncatedInput)
    } else if exists|i: int|
        0 <= i < table_count(stream) && !entry_in_bounds(
            #[trigger] table_entry(stream, i),
            source_len,
        ) {
        Some(Error::CorruptArchive)
    } else {
        None
    }
}

/// The lookup structure that the first `k` entries of a table stream make:
/// each entry under its identifier, a later entry replacing an earlier one
/// with the same identifier.
pub open spec fn table_entries(stream: Seq<u8>, k: int) -> Map<u64, AssetTableEntry>
    decreases k,
{
    if k <= 0 {
        Map::empty()
    } else {
        let e = table_entry(stream, k - 1);
        table_entries(stream, k - 1).insert(e.id, e)
    }
}

/// The lookup structure that a whole table stream makes.
pub open spec fn table_of(stream: Seq<u8>) -> Map<u64, AssetTableEntry> {
    table_entries(stream, table_count(stream))
}

/// Entry `j` is the last of the first `k` entries of a table stream that
/// bears the identifier `id`.
pub open spec fn last_with_id(stream: Seq<u8>, k: int, j: int, id: u64) -> bool {
    &&& 0 <= j < k
    &&& table_entry(stream, j).id == id
    &&& forall|l: int| j < l < k ==> (#[trigger] table_entry(stream, l)).id != id
}

/// Whatever the lookup structure holds under an identifier is the last of the
/// stream's entries that bears it.
pub proof fn lemma_table_entries_member(stream: Seq<u8>, k: int, id: u64)
    requires
        table_entries(stream, k).contains_key(id),
    ensures
        exists|j: int| #[trigger]
            last_with_id(stream, k, j, id) && table_entries(stream, k)[id] == table_entry(
                stream,
                j,
            ),
    decreases k,
{
    if k > 0 {
        if table_entry(stream, k - 1).id == id {
            assert(last_with_id(stream, k, k - 1, id));
        } else {
            lemma_table_entries_member(stream, k - 1, id);
            let j = choose|j: int| #[trigger]
                last_with_id(stream, k - 1, j, id) && table_entries(stream, k - 1)[id]
                    == table_entry(stream, j);
            assert(last_with_id(stream, k, j, id));
        }
    }
}

/// The last of the stream's entries that bears an identifier is what the
/// lookup structure holds under it.
pub proof fn lemma_table_entries_last(stream: Seq<u8>, k: int, j: int, id: u64)
    requires
        last_with_id(stream, k, j, id),
    ensures
        table_entries(stream, k).contains_key(id),
        table_entries(stream, k)[id] == table_entry(stream, j),
    decreases k,
{
    if j < k - 1 {
        assert(table_entry(stream, k - 1).id != id);
        assert(last_with_id(stream, k - 1, j, id));
        lemma_table_entries_last(stream, k - 1, j, id);
    }
}

/// The parsed table of an archive: its entries by identifier.
pub struct AssetTable {
    entries: HashMap<u64, AssetTableEntry>,
}

impl View for AssetTable {
    type V = Map<u64, AssetTableEntry>;

    closed spec fn view(&self) -> Map<u64, AssetTableEntry> {
        self.entries@
    }
}

impl AssetTable {
    /// A table without entries.
    pub fn new() -> (t: Self)
        ensures
            t@ == Map::<u64, AssetTableEntry>::empty(),
    {
        AssetTable { entries: HashMap::new() }
    }

    /// Parses a table stream, which is what follows the file header in an
    /// archive of `source_len` bytes: the entry count, then that many entries.
    /// A stream that is too short for them is refused with `TruncatedInput`
    /// before any entry is looked at. The entries are then taken in stream
    /// order; one that points outside the source ends the parse with
    /// `CorruptArchive`. Of two entries with one identifier the later stays.
    pub fn from_stream(stream: &[u8], source_len: u64) -> (r: Result<Self, Error>)
        ensures
            match r {
                Ok(t) => table_error(stream@, source_len as int) is None && t@ == table_of(stream@),
                Err(e) => table_error(stream@, source_len as int) == Some(e),
            },
    {
        let header = match AssetTableHeader::from_stream(stream) {
            Ok(h) => h,
            Err(e) => {
                return Err(e);
            },
        };
        let n: u64 = header.num_assets;
        proof {
            crate::endian::lemma_le_u64_range(stream@.subrange(0, 8));
            assert(n == table_count(stream@));
        }
        proof {
            vstd::slice::axiom_spec_len(stream);
        }
        let room: usize = (stream.len() - 8) / 24;
        if n > room as u64 {
            return Err(Error::TruncatedInput);
        }
        let mut table = AssetTable::new();
        let mut pos: usize = 8;
        let mut i: u64 = 0;
        while i < n
            invariant
                i <= n,
                n == table_count(stream@),
                entry_start(n as int) <= stream@.len() <= usize::MAX,
                pos == entry_start(i as int),
                forall|j: int|
                    0 <= j < i ==> entry_in_bounds(
                        #[trigger] table_entry(stream@, j),
                        source_len as int,
                    ),
                table@ == table_entries(stream@, i as int),
            decreases n - i,
        {
            let window: &[u8] = vstd::slice::slice_subrange(stream, pos, pos + 24);
            let entry = match AssetTableEntry::from_stream(window) {
                Ok(e) => e,
                Err(e) => {
                    return Err(e);
                },
            };
            assert(entry == table_entry(stream@, i as int));
            let end: Option<u64> = entry.offset.checked_add(entry.size);
            let inside: bool = match end {
                Some(e) => e <= source_len,
                None => false,
            };
            if !inside {
                return Err(Error::CorruptArchive);
            }
            table.entries.insert(entry.id, entry);
            pos = pos + 24;
            i = i + 1;
        }
        Ok(table)
    }

    /// The entry with identifier `id`, if the table has one.
    pub fn get(&self, id: u64) -> (r: Option<AssetTableEntry>)
        ensures
            r == if self@.contains_key(id) {
                Some(self@[id])
            } else {
                None
            },
    {
        match self.entries.get(&id) {
            Some(e) => Some(*e),
            None => None,
        }
    }

    /// The number of entries.
    pub fn len(&self) -> (n: usize)
        ensures
            n == self@.len(),
    {
        self.entries.len()
    }

    /// The identifiers of all entries, each once, in no particular order.
    pub fn ids(&self) -> (ids: Vec<u64>)
        ensures
            ids@.no_duplicates(),
            ids@.to_set() == self@.dom(),
    {
        let ghost keys: Seq<u64> = vstd::std_specs::hash::spec_keys_iter(
            &self.entries,
        ).remaining().unref();
        let mut ids: Vec<u64> = Vec::new();
        for id in iter: self.entries.keys()
            invariant
                iter.seq().unref() == keys,
                ids@.len() == iter.index(),
                ids@ == keys.take(ids@.len() as int),
        {
            ids.push(*id);
        }
        assert(ids@ =~= keys);
        ids
    }
}

} // verus!
