//! How an archive is laid out: where the table ends, where each payload
//! begins, and the bytes of the whole.
//!
//! ```text
//! offset 0:   magic number                       (8 bytes)
//! offset 8:   number of entries, n               (8 bytes)
//! offset 16:  n entries { id, offset, size }     (24 bytes each)
//!             zeros up to the next multiple of 64
//!             for each asset: its bytes, then zeros up to the next multiple of 64
//! ```

use crate::align::{align_up_spec, lemma_align_up_laws, ASSET_ALIGN_SIZE};
use crate::asset_id::name_hash;
use crate::codec::{AssetTableEntry, AssetTableHeader, FileHeader, MAGIC_NUMBER};
use vstd::prelude::*;

verus! {

/// What an asset is to the layout: its name and its bytes.
pub struct AssetDescriptionView {
    pub path: Seq<char>,
    pub data: Seq<u8>,
}

/// Where the table of an archive with `n` entries ends.
pub open spec fn table_end(n: int) -> int {
    16 + 24 * n
}

/// Where the payloads of an archive with `n` entries begin: the table's end,
/// rounded up.
pub open spec fn data_base(n: int) -> int {
    align_up_spec(table_end(n), ASSET_ALIGN_SIZE as int)
}

/// The room that a payload of `size` bytes takes with its padding.
pub open spec fn padded_size(size: int) -> int {
    align_up_spec(size, ASSET_ALIGN_SIZE as int)
}

/// Where the payload of asset `i` begins; for `i == assets.len()`, where the
/// archive ends.
pub open spec fn asset_offset(assets: Seq<AssetDescriptionView>, i: int) -> int
    decreases i,
{
    if i <= 0 {
        data_base(assets.len() as int)
    } else {
        asset_offset(assets, i - 1) + padded_size(assets[i - 1].data.len() as int)
    }
}

/// The length of the archive that holds `assets`.
pub open spec fn archive_len(assets: Seq<AssetDescriptionView>) -> int {
    asset_offset(assets, assets.len() as int)
}

/// The table entry of asset `i`.
pub open spec fn asset_entry(assets: Seq<AssetDescriptionView>, i: int) -> AssetTableEntry {
    AssetTableEntry {
        id: name_hash(assets[i].path),
        offset: asset_offset(assets, i) as u64,
        size: assets[i].data.len() as u64,
    }
}

/// `n` zero bytes.
pub open spec fn zeros(n: int) -> Seq<u8> {
    Seq::new(n as nat, |i: int| 0u8)
}

/// The encoded table entries of the first `k` assets.
pub open spec fn entries_bytes(assets: Seq<AssetDescriptionView>, k: int) -> Seq<u8>
    decreases k,
{
    if k <= 0 {
        Seq::empty()
    } else {
        entries_bytes(assets, k - 1) + asset_entry(assets, k - 1).spec_bytes()
    }
}

/// The payloads of the first `k` assets, each with its padding.
pub open spec fn payload_bytes(assets: Seq<AssetDescriptionView>, k: int) -> Seq<u8>
    decreases k,
{
    if k <= 0 {
        Seq::empty()
    } else {
        let size = assets[k - 1].data.len() as int;
        payload_bytes(assets, k - 1) + assets[k - 1].data + zeros(padded_size(size) - size)
    }
}

/// What comes before the payloads: both headers, the entries and the padding
/// behind them.
pub open spec fn preamble_bytes(assets: Seq<AssetDescriptionView>) -> Seq<u8> {
    let n = assets.len() as int;
    FileHeader { magic_number: MAGIC_NUMBER }.spec_bytes() + AssetTableHeader {
        num_assets: n as u64,
    }.spec_bytes() + entries_bytes(assets, n) + zeros(data_base(n) - table_end(n))
}

/// The archive that holds `assets`, in their order.
pub open spec fn archive_bytes(assets: Seq<AssetDescriptionView>) -> Seq<u8> {
    preamble_bytes(assets) + payload_bytes(assets, assets.len() as int)
}

/// The payloads begin on a 64-byte boundary, at or behind the table's end.
pub proof fn lemma_data_base(n: int)
    requires
        0 <= n,
    ensures
        data_base(n) % 64 == 0,
        table_end(n) <= data_base(n) < table_end(n) + 64,
{
    lemma_align_up_laws(table_end(n), ASSET_ALIGN_SIZE as int);
}

/// A payload with its padding takes a multiple of 64 bytes, and less than 64
/// of them are padding.
pub proof fn lemma_padded_size(size: int)
    requires
        0 <= size,
    ensures
        padded_size(size) % 64 == 0,
        size <= padded_size(size) < size + 64,
{
    lemma_align_up_laws(size, ASSET_ALIGN_SIZE as int);
}

/// Every payload begins on a 64-byte boundary, and so does the payload area.
pub proof fn lemma_offsets_aligned(assets: Seq<AssetDescriptionView>, i: int)
    requires
        0 <= i <= assets.len(),
    ensures
        asset_offset(assets, i) % 64 == 0,
        data_base(assets.len() as int) % 64 == 0,
        asset_offset(assets, i) >= data_base(assets.len() as int),
    decreases i,
{
    lemma_data_base(assets.len() as int);
    if i > 0 {
        lemma_offsets_aligned(assets, i - 1);
        lemma_padded_size(assets[i - 1].data.len() as int);
    }
}

/// Payloads lie one behind the other: each ends at or before the next begins.
pub proof fn lemma_offsets_ordered(assets: Seq<AssetDescriptionView>, i: int, j: int)
    requires
        0 <= i < j <= assets.len(),
    ensures
        asset_offset(assets, i) + assets[i].data.len() <= asset_offset(assets, j),
    decreases j,
{
    lemma_padded_size(assets[j - 1].data.len() as int);
    if i < j - 1 {
        lemma_offsets_ordered(assets, i, j - 1);
    }
}

/// The encoded entries of `k` assets take 24 bytes each.
pub proof fn lemma_entries_bytes_len(assets: Seq<AssetDescriptionView>, k: int)
    requires
        0 <= k,
    ensures
        entries_bytes(assets, k).len() == 24 * k,
    decreases k,
{
    if k > 0 {
        lemma_entries_bytes_len(assets, k - 1);
        crate::codec::lemma_entry_round_trip(asset_entry(assets, k - 1));
    }
}

/// The payloads of the first `k` assets end where payload `k` begins.
pub proof fn lemma_payload_bytes_len(assets: Seq<AssetDescriptionView>, k: int)
    requires
        0 <= k <= assets.len(),
    ensures
        data_base(assets.len() as int) + payload_bytes(assets, k).len() == asset_offset(assets, k),
    decreases k,
{
    if k > 0 {
        lemma_payload_bytes_len(assets, k - 1);
        lemma_padded_size(assets[k - 1].data.len() as int);
    }
}

/// The preamble ends where the payloads begin.
pub proof fn lemma_preamble_len(assets: Seq<AssetDescriptionView>)
    ensures
        preamble_bytes(assets).len() == data_base(assets.len() as int),
{
    lemma_entries_bytes_len(assets, assets.len() as int);
    lemma_data_base(assets.len() as int);
}

/// The archive is as long as its layout says.
pub proof fn lemma_archive_bytes_len(assets: Seq<AssetDescriptionView>)
    ensures
        archive_bytes(assets).len() == archive_len(assets),
{
    lemma_preamble_len(assets);
    lemma_payload_bytes_len(assets, assets.len() as int);
}

/// The encoding of entry `j` stands at its place among the encoded entries.
pub proof fn lemma_entries_bytes_at(assets: Seq<AssetDescriptionView>, k: int, j: int)
    requires
        0 <= j < k,
    ensures
        entries_bytes(assets, k).subrange(24 * j, 24 * j + 24) == asset_entry(
            assets,
            j,
        ).spec_bytes(),
    decreases k,
{
    let head = entries_bytes(assets, k - 1);
    let last = asset_entry(assets, k - 1).spec_bytes();
    lemma_entries_bytes_len(assets, k - 1);
    crate::codec::lemma_entry_round_trip(asset_entry(assets, k - 1));
    if j == k - 1 {
        assert((head + last).subrange(24 * j, 24 * j + 24) =~= last);
    } else {
        lemma_entries_bytes_at(assets, k - 1, j);
        assert((head + last).subrange(24 * j, 24 * j + 24) =~= head.subrange(24 * j, 24 * j + 24));
    }
}

/// The bytes of asset `j` stand at its offset among the payloads.
pub proof fn lemma_payload_bytes_at(assets: Seq<AssetDescriptionView>, k: int, j: int)
    requires
        0 <= j < k <= assets.len(),
    ensures
        payload_bytes(assets, k).subrange(
            asset_offset(assets, j) - data_base(assets.len() as int),
            asset_offset(assets, j) - data_base(assets.len() as int) + assets[j].data.len(),
        ) == assets[j].data,
    decreases k,
{
    let base = data_base(assets.len() as int);
    let head = payload_bytes(assets, k - 1);
    let size = assets[k - 1].data.len() as int;
    let tail = assets[k - 1].data + zeros(padded_size(size) - size);
    let from = asset_offset(assets, j) - base;
    let to = from + assets[j].data.len();
    lemma_payload_bytes_len(assets, k - 1);
    lemma_padded_size(size);
    lemma_offsets_aligned(assets, j);
    assert(payload_bytes(assets, k) =~= head + tail);
    if j == k - 1 {
        assert((head + tail).subrange(from, to) =~= assets[j].data);
    } else {
        lemma_payload_bytes_at(assets, k - 1, j);
        lemma_offsets_ordered(assets, j, k - 1);
        assert((head + tail).subrange(from, to) =~= head.subrange(from, to));
    }
}

/// In the archive, the bytes of asset `i` stand at its offset, and they end
/// within the archive.
pub proof fn lemma_archive_payload(assets: Seq<AssetDescriptionView>, i: int)
    requires
        0 <= i < assets.len(),
    ensures
        asset_offset(assets, i) + assets[i].data.len() <= archive_len(assets),
        archive_bytes(assets).subrange(
            asset_offset(assets, i),
            asset_offset(assets, i) + assets[i].data.len(),
        ) == assets[i].data,
{
    let n = assets.len() as int;
    let pre = preamble_bytes(assets);
    let pay = payload_bytes(assets, n);
    let from = asset_offset(assets, i);
    let to = from + assets[i].data.len();
    lemma_preamble_len(assets);
    lemma_payload_bytes_len(assets, n);
    lemma_offsets_aligned(assets, i);
    lemma_offsets_ordered(assets, i, n);
    lemma_payload_bytes_at(assets, n, i);
    assert((pre + pay).subrange(from, to) =~= pay.subrange(from - pre.len(), to - pre.len()));
}

/// In the archive, the magic number stands first, the number of assets next,
/// and the encoding of entry `i` at its place in the table.
pub proof fn lemma_archive_table(assets: Seq<AssetDescriptionView>)
    ensures
        archive_bytes(assets).len() >= table_end(assets.len() as int),
        archive_bytes(assets).subrange(0, 8) == (FileHeader {
            magic_number: MAGIC_NUMBER,
        }).spec_bytes(),
        archive_bytes(assets).subrange(8, 16) == (AssetTableHeader {
            num_assets: assets.len() as u64,
        }).spec_bytes(),
        forall|i: int|
            0 <= i < assets.len() ==> #[trigger] archive_bytes(assets).subrange(
                table_end(i),
                table_end(i + 1),
            ) == asset_entry(assets, i).spec_bytes(),
{
    let n = assets.len() as int;
    let fh = (FileHeader { magic_number: MAGIC_NUMBER }).spec_bytes();
    let th = (AssetTableHeader { num_assets: n as u64 }).spec_bytes();
    let en = entries_bytes(assets, n);
    let rest = zeros(data_base(n) - table_end(n)) + payload_bytes(assets, n);
    let data = archive_bytes(assets);
    crate::codec::lemma_file_header_round_trip(FileHeader { magic_number: MAGIC_NUMBER });
    crate::codec::lemma_table_header_round_trip(AssetTableHeader { num_assets: n as u64 });
    lemma_entries_bytes_len(assets, n);
    lemma_data_base(n);
    assert(data =~= fh + th + en + rest);
    assert(data.subrange(0, 8) =~= fh);
    assert(data.subrange(8, 16) =~= th);
    assert forall|i: int| 0 <= i < n implies #[trigger] data.subrange(
        table_end(i),
        table_end(i + 1),
    ) == asset_entry(assets, i).spec_bytes() by {
        lemma_entries_bytes_at(assets, n, i);
        assert(data.subrange(table_end(i), table_end(i + 1)) =~= en.subrange(24 * i, 24 * i + 24));
    }
}

} // verus!
