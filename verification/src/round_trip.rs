//! What building and opening have to do with each other: an archive that was
//! built opens, and gives back what was put in.

use crate::asset::Asset;
use crate::asset_id::name_hash;
use crate::codec::{
    lemma_entry_round_trip, lemma_file_header_round_trip, lemma_table_header_round_trip,
    AssetTableHeader, FileHeader, MAGIC_NUMBER,
};
use crate::layout::{
    archive_bytes, archive_len, asset_entry, asset_offset, lemma_archive_bytes_len,
    lemma_archive_payload, lemma_archive_table, lemma_data_base, lemma_offsets_aligned,
    lemma_offsets_ordered, table_end, AssetDescriptionView,
};
use crate::library::{after_header, archive_error, archive_table, resolved};
use crate::table::{
    entry_in_bounds, entry_start, last_with_id, lemma_table_entries_last,
    lemma_table_entries_member, table_count, table_entry, table_of,
};
use std::sync::Arc;
use vstd::prelude::*;

verus! {

/// No two of `assets` share an identifier.
pub open spec fn distinct_ids(assets: Seq<AssetDescriptionView>) -> bool {
    forall|i: int, j: int|
        0 <= i < j < assets.len() ==> name_hash((#[trigger] assets[i]).path) != name_hash(
            (#[trigger] assets[j]).path,
        )
}

/// An archive that was built opens without fault, and its table has the
/// entries that were laid out, in their order.
pub proof fn lemma_built_archive_opens(assets: Seq<AssetDescriptionView>)
    requires
        archive_len(assets) <= u64::MAX,
    ensures
        archive_error(archive_bytes(assets)) is None,
        table_count(after_header(archive_bytes(assets))) == assets.len(),
        forall|i: int|
            0 <= i < assets.len() ==> #[trigger] table_entry(after_header(archive_bytes(assets)), i)
                == asset_entry(assets, i),
{
    let n = assets.len() as int;
    let data = archive_bytes(assets);
    let stream = after_header(data);
    lemma_archive_table(assets);
    lemma_archive_bytes_len(assets);
    lemma_data_base(n);
    lemma_offsets_aligned(assets, n);
    lemma_file_header_round_trip(FileHeader { magic_number: MAGIC_NUMBER });
    lemma_table_header_round_trip(AssetTableHeader { num_assets: n as u64 });
    assert(FileHeader::spec_decode(data) == (FileHeader { magic_number: MAGIC_NUMBER })) by {
        assert(data.subrange(0, 8).subrange(0, 8) =~= data.subrange(0, 8));
    }
    assert(table_count(stream) == n) by {
        assert(stream.subrange(0, 8) =~= data.subrange(8, 16));
        assert(data.subrange(8, 16).subrange(0, 8) =~= data.subrange(8, 16));
    }
    assert forall|i: int| 0 <= i < n implies #[trigger] table_entry(stream, i) == asset_entry(
        assets,
        i,
    ) by {
        let e = asset_entry(assets, i);
        lemma_offsets_aligned(assets, i);
        lemma_offsets_ordered(assets, i, n);
        lemma_entry_round_trip(e);
        assert(stream.subrange(entry_start(i), entry_start(i + 1)) =~= data.subrange(
            table_end(i),
            table_end(i + 1),
        ));
    }
    assert forall|i: int| 0 <= i < n implies entry_in_bounds(
        #[trigger] table_entry(stream, i),
        data.len() as int,
    ) by {
        lemma_offsets_aligned(assets, i);
        lemma_offsets_ordered(assets, i, n);
        assert(table_entry(stream, i) == asset_entry(assets, i));
    }
}

/// Building and then opening gives back what was put in. For assets whose
/// identifiers differ, and whose archive is no longer than 64-bit offsets
/// reach: the archive opens; its table holds, under the identifier of each
/// asset's name, the entry that was laid out for it; the bytes that this
/// entry points to are the asset's bytes; and so resolving the name gives an
/// asset with those bytes.
pub proof fn lemma_round_trip(assets: Seq<AssetDescriptionView>, i: int)
    requires
        archive_len(assets) <= u64::MAX,
        distinct_ids(assets),
        0 <= i < assets.len(),
    ensures
        archive_error(archive_bytes(assets)) is None,
        archive_table(archive_bytes(assets)).contains_key(name_hash(assets[i].path)),
        archive_table(archive_bytes(assets))[name_hash(assets[i].path)] == asset_entry(assets, i),
        asset_entry(assets, i).offset == asset_offset(assets, i),
        asset_entry(assets, i).size == assets[i].data.len(),
        archive_bytes(assets).subrange(
            asset_offset(assets, i),
            asset_offset(assets, i) + assets[i].data.len(),
        ) == assets[i].data,
        forall|a: Arc<Asset>|
            resolved(
                archive_bytes(assets),
                archive_table(archive_bytes(assets)),
                assets[i].path,
                Some(a),
            ) ==> #[trigger] a.spec_data() == assets[i].data,
        !resolved(
            archive_bytes(assets),
            archive_table(archive_bytes(assets)),
            assets[i].path,
            None,
        ),
{
    let n = assets.len() as int;
    let data = archive_bytes(assets);
    let stream = after_header(data);
    lemma_built_archive_opens(assets);
    lemma_archive_payload(assets, i);
    lemma_offsets_aligned(assets, i);
    lemma_offsets_ordered(assets, i, n);
    assert(table_entry(stream, i) == asset_entry(assets, i));
    let id = name_hash(assets[i].path);
    assert forall|l: int| i < l < n implies (#[trigger] table_entry(stream, l)).id != id by {
        assert(table_entry(stream, l) == asset_entry(assets, l));
        assert(name_hash(assets[i].path) != name_hash(assets[l].path));
    }
    assert(last_with_id(stream, n, i, id));
    lemma_table_entries_last(stream, n, i, id);
}

/// A name that was never put in is not found, unless its identifier is that
/// of a name that was: the table of the built archive has no entry under the
/// identifier, so resolving answers "not found" and no asset.
pub proof fn lemma_unknown_name_not_found(assets: Seq<AssetDescriptionView>, name: Seq<char>)
    requires
        archive_len(assets) <= u64::MAX,
        forall|i: int|
            0 <= i < assets.len() ==> name_hash((#[trigger] assets[i]).path) != name_hash(name),
    ensures
        archive_error(archive_bytes(assets)) is None,
        !archive_table(archive_bytes(assets)).contains_key(name_hash(name)),
        resolved(archive_bytes(assets), archive_table(archive_bytes(assets)), name, None),
        forall|a: Arc<Asset>|
            !resolved(
                archive_bytes(assets),
                archive_table(archive_bytes(assets)),
                name,
                Some(a),
            ),
{
    let n = assets.len() as int;
    let data = archive_bytes(assets);
    let stream = after_header(data);
    lemma_built_archive_opens(assets);
    let id = name_hash(name);
    if archive_table(data).contains_key(id) {
        lemma_table_entries_member(stream, n, id);
        let j = choose|j: int| #[trigger]
            last_with_id(stream, n, j, id) && table_of(stream)[id] == table_entry(stream, j);
        assert(table_entry(stream, j) == asset_entry(assets, j));
        assert(name_hash(assets[j].path) != id);
    }
}

} // verus!
