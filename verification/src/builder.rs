//! Collecting named blobs and writing them out as one archive.

use crate::align::{align_up, lemma_asset_align_is_power_of_two, ASSET_ALIGN_SIZE};
use crate::asset_id::AssetId;
use crate::codec::{AssetTableEntry, AssetTableHeader, FileHeader, MAGIC_NUMBER};
use crate::error::Error;
use crate::layout::{
    archive_bytes, archive_len, asset_entry, asset_offset, data_base, entries_bytes,
    lemma_data_base, lemma_offsets_ordered, lemma_padded_size, padded_size, payload_bytes,
    preamble_bytes, zeros, AssetDescriptionView,
};
use vstd::prelude::*;

verus! {

/// An asset to be packed: the name under which it will be found, and its bytes.
#[derive(Debug)]
pub struct AssetDescription {
    path: String,
    data: Vec<u8>,
}

impl View for AssetDescription {
    type V = AssetDescriptionView;

    closed spec fn view(&self) -> AssetDescriptionView {
        AssetDescriptionView { path: self.path@, data: self.data@ }
    }
}

impl AssetDescription {
    /// Describes the asset named `path` that holds `data`.
    pub fn new(path: &str, data: Vec<u8>) -> (d: Self)
        ensures
            d@ == (AssetDescriptionView { path: path@, data: data@ }),
    {
        AssetDescription { path: path.to_owned(), data }
    }

    /// The asset's name.
    pub fn path(&self) -> (p: &String)
        ensures
            p@ == self@.path,
    {
        &self.path
    }

    /// The asset's bytes.
    pub fn data(&self) -> (d: &[u8])
        ensures
            d@ == self@.data,
    {
        self.data.as_slice()
    }
}

impl Clone for AssetDescription {
    fn clone(&self) -> (d: Self)
        ensures
            d@ == self@,
    {
        AssetDescription { path: self.path.clone(), data: self.data.clone() }
    }
}

/// No two of `assets` share a name.
pub open spec fn distinct_names(assets: Seq<AssetDescriptionView>) -> bool {
    forall|i: int, j: int|
        0 <= i < j < assets.len() ==> (#[trigger] assets[i]).path != (#[trigger] assets[j]).path
}

/// One of `assets` is named `path`.
pub open spec fn has_name(assets: Seq<AssetDescriptionView>, path: Seq<char>) -> bool {
    exists|i: int| 0 <= i < assets.len() && (#[trigger] assets[i]).path == path
}

/// The place of the asset named `path` among `assets`, if one is.
pub open spec fn index_of_name(assets: Seq<AssetDescriptionView>, path: Seq<char>) -> int {
    choose|i: int| 0 <= i < assets.len() && (#[trigger] assets[i]).path == path
}

/// `assets` after `asset` has been inserted: it takes the place of the one
/// that had its name, or the last place if none had.
pub open spec fn with_asset(
    assets: Seq<AssetDescriptionView>,
    asset: AssetDescriptionView,
) -> Seq<AssetDescriptionView> {
    if has_name(assets, asset.path) {
        assets.update(index_of_name(assets, asset.path), asset)
    } else {
        assets.push(asset)
    }
}

/// Inserting keeps names distinct, makes the inserted asset the only one of
/// its name, and leaves the assets of other names as they were.
pub proof fn lemma_with_asset(assets: Seq<AssetDescriptionView>, asset: AssetDescriptionView)
    requires
        distinct_names(assets),
    ensures
        distinct_names(with_asset(assets, asset)),
        has_name(with_asset(assets, asset), asset.path),
        with_asset(assets, asset)[index_of_name(with_asset(assets, asset), asset.path)] == asset,
        forall|i: int|
            0 <= i < assets.len() && (#[trigger] assets[i]).path != asset.path ==> with_asset(
                assets,
                asset,
            )[i] == assets[i],
        with_asset(assets, asset).len() == if has_name(assets, asset.path) {
            assets.len()
        } else {
            assets.len() + 1
        },
{
    let r = with_asset(assets, asset);
    if has_name(assets, asset.path) {
        let k = index_of_name(assets, asset.path);
        assert(r[k].path == asset.path);
    } else {
        assert(r[assets.len() as int].path == asset.path);
    }
    let m = index_of_name(r, asset.path);
    assert(0 <= m < r.len() && r[m].path == asset.path);
}

/// Of two assets inserted under one name, the second stays and the first is
/// gone. The builder then holds exactly one asset of that name, it is the
/// second, and in the archive that is built its table entry points to the
/// second's bytes.
pub proof fn lemma_last_insert_wins(
    assets: Seq<AssetDescriptionView>,
    first: AssetDescriptionView,
    second: AssetDescriptionView,
)
    requires
        distinct_names(assets),
        first.path == second.path,
    ensures
        ({
            let held = with_asset(with_asset(assets, first), second);
            let k = index_of_name(held, second.path);
            &&& held == with_asset(assets, second)
            &&& distinct_names(held)
            &&& 0 <= k < held.len()
            &&& held[k] == second
            &&& forall|i: int|
                0 <= i < held.len() && (#[trigger] held[i]).path == second.path ==> i == k
            &&& asset_entry(held, k).size == second.data.len() as u64
            &&& archive_bytes(held).subrange(
                asset_offset(held, k),
                asset_offset(held, k) + second.data.len(),
            ) == second.data
        }),
{
    lemma_with_asset(assets, first);
    lemma_with_asset(assets, second);
    let once = with_asset(assets, first);
    lemma_with_asset(once, second);
    let held = with_asset(once, second);
    let m = index_of_name(once, second.path);
    assert(0 <= m < once.len() && once[m].path == second.path);
    if has_name(assets, first.path) {
        let j = index_of_name(assets, first.path);
        assert(0 <= j < assets.len() && assets[j].path == first.path);
        assert(once[j].path == second.path);
        assert(m == j) by {
            if m < j {
                assert(once[m].path != once[j].path);
            }
            if j < m {
                assert(once[j].path != once[m].path);
            }
        }
    } else {
        let j = assets.len() as int;
        assert(once[j].path == second.path);
        assert(m == j) by {
            if m < j {
                assert(once[m].path != once[j].path);
            }
        }
    }
    assert(held =~= with_asset(assets, second));
    let k = index_of_name(held, second.path);
    assert(0 <= k < held.len() && held[k].path == second.path);
    assert forall|i: int|
        0 <= i < held.len() && (#[trigger] held[i]).path == second.path implies i == k by {
        if i < k {
            assert(held[i].path != held[k].path);
        }
        if k < i {
            assert(held[k].path != held[i].path);
        }
    }
    crate::layout::lemma_archive_payload(held, k);
}

/// Collects assets by name and lays them out as an archive.
pub struct Builder {
    assets: Vec<AssetDescription>,
}

impl View for Builder {
    type V = Seq<AssetDescriptionView>;

    /// The assets held, in the order in which they will be laid out.
    closed spec fn view(&self) -> Seq<AssetDescriptionView> {
        Seq::new(self.assets@.len(), |i: int| self.assets@[i]@)
    }
}

impl Builder {
    #[verifier::type_invariant]
    spec fn names_are_distinct(self) -> bool {
        distinct_names(self@)
    }

    /// A builder that holds no asset.
    pub fn new() -> (b: Self)
        ensures
            b@ == Seq::<AssetDescriptionView>::empty(),
    {
        let b = Builder { assets: Vec::new() };
        assert(b@ =~= Seq::<AssetDescriptionView>::empty());
        b
    }

    /// The number of assets held.
    pub fn len(&self) -> (n: usize)
        ensures
            n == self@.len(),
    {
        self.assets.len()
    }

    fn position(&self, path: &String) -> (r: Option<usize>)
        ensures
            match r {
                Some(i) => i < self@.len() && self@[i as int].path == path@,
                None => !has_name(self@, path@),
            },
    {
        let mut i: usize = 0;
        while i < self.assets.len()
            invariant
                i <= self.assets@.len(),
                forall|j: int| 0 <= j < i ==> (#[trigger] self@[j]).path != path@,
            decreases self.assets@.len() - i,
        {
            if self.assets[i].path == *path {
                return Some(i);
            }
            i = i + 1;
        }
        None
    }

    /// Records `asset` under its name. An asset already held under that name
    /// is replaced: the last one inserted stays.
    pub fn insert(&mut self, asset: &AssetDescription)
        ensures
            final(self)@ == with_asset(old(self)@, asset@),
            distinct_names(final(self)@),
    {
        proof {
            use_type_invariant(&*self);
            lemma_with_asset(self@, asset@);
        }
        let copy = asset.clone();
        let found: Option<usize> = self.position(&asset.path);
        let mut assets: Vec<AssetDescription> = Vec::new();
        assert(Seq::new(assets@.len(), |i: int| assets@[i]@) =~= Seq::<
            AssetDescriptionView,
        >::empty());
        core::mem::swap(&mut self.assets, &mut assets);
        match found {
            Some(i) => {
                proof {
                    let k = index_of_name(old(self)@, asset@.path);
                    assert(old(self)@[i as int].path == asset@.path);
                    assert(0 <= k < old(self)@.len() && old(self)@[k].path == asset@.path);
                    if k < i {
                        assert(old(self)@[k].path != old(self)@[i as int].path);
                    }
                    if i < k {
                        assert(old(self)@[i as int].path != old(self)@[k].path);
                    }
                }
                assets.set(i, copy);
            },
            None => {
                assets.push(copy);
            },
        }
        assert(Seq::new(assets@.len(), |i: int| assets@[i]@) =~= with_asset(old(self)@, asset@));
        self.assets = assets;
    }

    /// The table entries of the assets held, the offset at which the payloads
    /// begin and the length of the archive, or `None` if that length does not
    /// fit in 64 bits.
    fn layout(&self) -> (r: Option<(Vec<AssetTableEntry>, u64, u64)>)
        ensures
            match r {
                Some((entries, base, total)) => {
                    &&& base == data_base(self@.len() as int)
                    &&& total == archive_len(self@)
                    &&& entries@.len() == self@.len()
                    &&& forall|i: int|
                        0 <= i < self@.len() ==> #[trigger] entries@[i] == asset_entry(self@, i)
                },
                None => archive_len(self@) > u64::MAX,
            },
    {
        let n: usize = self.assets.len();
        proof {
            lemma_data_base(n as int);
            if n > 0 {
                lemma_offsets_ordered(self@, 0, n as int);
            }
        }
        let entries_len: u64 = match (n as u64).checked_mul(24) {
            Some(v) => v,
            None => {
                return None;
            },
        };
        let base: u64 = match entries_len.checked_add(16) {
            Some(v) => v,
            None => {
                return None;
            },
        };
        let aligned_base: u64 = match checked_padded(base) {
            Some(v) => v,
            None => {
                return None;
            },
        };
        let mut cur: u64 = aligned_base;
        let mut entries: Vec<AssetTableEntry> = Vec::new();
        let mut i: usize = 0;
        while i < n
            invariant
                n == self.assets@.len(),
                i <= n,
                cur == asset_offset(self@, i as int),
                entries@.len() == i,
                forall|j: int| 0 <= j < i ==> #[trigger] entries@[j] == asset_entry(self@, j),
            decreases n - i,
        {
            let desc: &AssetDescription = &self.assets[i];
            let size: u64 = desc.data.len() as u64;
            let id: AssetId = AssetId::from_str(desc.path.as_str());
            proof {
                if i + 1 < n {
                    lemma_offsets_ordered(self@, i + 1, n as int);
                }
            }
            let (entry, next) = match place_asset(id, cur, size) {
                Some(placed) => placed,
                None => {
                    return None;
                },
            };
            entries.push(entry);
            cur = next;
            i = i + 1;
        }
        Some((entries, aligned_base, cur))
    }

    /// Writes the archive of the assets held to the end of `output`: the file
    /// header, the table header, one table entry for each asset, zeros up to
    /// the next 64-byte boundary, then each asset's bytes followed by zeros up
    /// to the next 64-byte boundary. Offsets count from where the archive
    /// begins in `output`.
    ///
    /// Fails with `IoError`, and leaves `output` as it was, if and only if
    /// `output` cannot take the archive: its length would pass `usize::MAX`.
    pub fn build(&self, output: &mut Vec<u8>) -> (r: Result<(), Error>)
        ensures
            match r {
                Ok(_) => {
                    &&& old(output)@.len() + archive_len(self@) <= usize::MAX
                    &&& final(output)@ == old(output)@ + archive_bytes(self@)
                },
                Err(e) => {
                    &&& e == Error::IoError
                    &&& old(output)@.len() + archive_len(self@) > usize::MAX
                    &&& final(output)@ == old(output)@
                },
            },
    {
        let (entries, base, total) = match self.layout() {
            Some(l) => l,
            None => {
                return Err(Error::IoError);
            },
        };
        if total > (usize::MAX - output.len()) as u64 {
            return Err(Error::IoError);
        }
        let n: usize = self.assets.len();
        let ghost before: Seq<u8> = output@;
        let ghost assets: Seq<AssetDescriptionView> = self@;

        let file_header = FileHeader { magic_number: MAGIC_NUMBER };
        file_header.to_stream(output);
        let table_header = AssetTableHeader { num_assets: n as u64 };
        table_header.to_stream(output);

        let mut i: usize = 0;
        while i < n
            invariant
                n == self.assets@.len(),
                assets == self@,
                entries@.len() == n,
                forall|j: int| 0 <= j < n ==> #[trigger] entries@[j] == asset_entry(assets, j),
                i <= n,
                output@ == before + file_header.spec_bytes() + table_header.spec_bytes()
                    + entries_bytes(assets, i as int),
            decreases n - i,
        {
            entries[i].to_stream(output);
            assert(output@ =~= before + file_header.spec_bytes() + table_header.spec_bytes()
                + entries_bytes(assets, i + 1));
            i = i + 1;
        }
        proof {
            lemma_data_base(n as int);
        }
        let table_end_at: u64 = 16 + 24 * (n as u64);
        append_zeros(output, base - table_end_at);
        assert(output@ =~= before + preamble_bytes(assets));

        let mut k: usize = 0;
        while k < n
            invariant
                n == self.assets@.len(),
                assets == self@,
                archive_len(assets) <= u64::MAX,
                k <= n,
                output@ == before + preamble_bytes(assets) + payload_bytes(assets, k as int),
            decreases n - k,
        {
            let desc: &AssetDescription = &self.assets[k];
            let size: u64 = desc.data.len() as u64;
            proof {
                crate::layout::lemma_offsets_aligned(assets, k as int);
                lemma_padded_size(size as int);
                if k + 1 < n {
                    lemma_offsets_ordered(assets, k + 1, n as int);
                }
                lemma_asset_align_is_power_of_two();
            }
            append_bytes(output, desc.data.as_slice());
            let room: u64 = align_up(size, ASSET_ALIGN_SIZE);
            append_zeros(output, room - size);
            assert(output@ =~= before + preamble_bytes(assets) + payload_bytes(assets, k + 1));
            k = k + 1;
        }
        assert(output@ =~= before + archive_bytes(assets));
        Ok(())
    }
}

/// Appends `n` zero bytes to `out`.
fn append_zeros(out: &mut Vec<u8>, n: u64)
    ensures
        final(out)@ == old(out)@ + zeros(n as int),
{
    let mut i: u64 = 0;
    assert(out@ =~= old(out)@ + zeros(0));
    while i < n
        invariant
            i <= n,
            out@ == old(out)@ + zeros(i as int),
        decreases n - i,
    {
        out.push(0u8);
        assert(out@ =~= old(out)@ + zeros(i + 1));
        i = i + 1;
    }
}

/// Appends `data` to `out`.
fn append_bytes(out: &mut Vec<u8>, data: &[u8])
    ensures
        final(out)@ == old(out)@ + data@,
{
    out.extend_from_slice(data);
    assert(out@ =~= old(out)@ + data@);
}

impl Default for Builder {
    fn default() -> (b: Self)
        ensures
            b@ == Seq::<AssetDescriptionView>::empty(),
    {
        Builder::new()
    }
}

/// Lays out one asset: the table entry of the asset with identifier `id` and
/// `size` bytes whose payload begins at `offset`, and the offset at which the
/// next payload begins, which is `offset` plus `size` rounded up to the
/// alignment. `None` if and only if that next offset does not fit in 64 bits.
pub fn place_asset(id: AssetId, offset: u64, size: u64) -> (r: Option<(AssetTableEntry, u64)>)
    ensures
        match r {
            Some((entry, next)) => {
                &&& entry == (AssetTableEntry { id: id.0, offset, size })
                &&& next == offset + padded_size(size as int)
            },
            None => offset + padded_size(size as int) > u64::MAX,
        },
{
    proof {
        lemma_padded_size(size as int);
    }
    let room: u64 = match checked_padded(size) {
        Some(v) => v,
        None => {
            return None;
        },
    };
    match offset.checked_add(room) {
        Some(next) => Some((AssetTableEntry { id: id.0, offset, size }, next)),
        None => None,
    }
}

/// `size` rounded up to the payload alignment, or `None` if that does not fit
/// in 64 bits.
fn checked_padded(size: u64) -> (r: Option<u64>)
    ensures
        match r {
            Some(p) => p == padded_size(size as int),
            None => padded_size(size as int) > u64::MAX,
        },
{
    proof {
        lemma_padded_size(size as int);
        lemma_asset_align_is_power_of_two();
    }
    if size > u64::MAX - (ASSET_ALIGN_SIZE - 1) {
        None
    } else {
        Some(align_up(size, ASSET_ALIGN_SIZE))
    }
}

} // verus!
