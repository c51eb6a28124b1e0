use assetio::{
    Asset, AssetDescription, AssetId, AssetLoader, AssetTableEntry, AssetTableHeader, Builder,
    Error, FileHeader, Library, MAGIC_NUMBER,
};
use memmap::{Mmap, MmapMut};
use std::sync::Arc;

fn map_of(bytes: &[u8]) -> Mmap {
    let mut map = MmapMut::map_anon(bytes.len()).unwrap();
    map.copy_from_slice(bytes);
    map.make_read_only().unwrap()
}

fn built(builder: &Builder) -> Vec<u8> {
    let mut out: Vec<u8> = Vec::new();
    assert_eq!(builder.build(&mut out), Ok(()));
    out
}

fn blobs() -> Vec<(String, Vec<u8>)> {
    vec![
        ("testing/test0.txt".to_string(), b"This is the first test file.\n".to_vec()),
        ("testing/test1.txt".to_string(), (0..=255u8).collect()),
        ("testing/test2.txt".to_string(), vec![0x5a; 1000]),
        ("testing/empty.bin".to_string(), Vec::new()),
        ("testing/block.bin".to_string(), vec![7; 64]),
    ]
}

fn archive_of(blobs: &[(String, Vec<u8>)]) -> Vec<u8> {
    let mut builder = Builder::new();
    for (name, data) in blobs {
        builder.insert(&AssetDescription::new(name, data.clone()));
    }
    built(&builder)
}

fn error_of(bytes: &[u8]) -> Option<Error> {
    Library::new(map_of(bytes)).err()
}

#[test]
fn library_round_trip() {
    let blobs = blobs();
    let archive = archive_of(&blobs);
    let library = Library::new(map_of(&archive)).ok().unwrap();
    for (name, data) in &blobs {
        let asset = library.load(name).unwrap();
        assert_eq!(asset.path(), name);
        assert_eq!(asset.data(), &data[..]);
        let again = library.resolve(name).ok().unwrap();
        assert_eq!(again.data(), &data[..]);
    }
}

#[test]
fn library_lists_every_identifier_once() {
    let blobs = blobs();
    let archive = archive_of(&blobs);
    let library = Library::new(map_of(&archive)).ok().unwrap();
    let mut listed: Vec<u64> = Vec::new();
    let mut it = library.assets();
    while let Some(id) = it.next() {
        listed.push(id);
    }
    assert_eq!(it.next(), None);
    listed.sort();
    let mut expected: Vec<u64> = blobs.iter().map(|(n, _)| AssetId::from_str(n).raw()).collect();
    expected.sort();
    assert_eq!(listed, expected);
}

#[test]
fn library_reports_sizes() {
    let blobs = blobs();
    let archive = archive_of(&blobs);
    let library = Library::new(map_of(&archive)).ok().unwrap();
    for (name, data) in &blobs {
        assert_eq!(library.size_of(AssetId::from_str(name).raw()), Some(data.len() as u64));
    }
    assert_eq!(library.size_of(AssetId::from_str("never inserted").raw()), None);
}

#[test]
fn empty_archive_opens_and_holds_nothing() {
    let archive = built(&Builder::new());
    let library = Library::new(map_of(&archive)).ok().unwrap();
    assert_eq!(library.assets().next(), None);
    assert!(library.load("anything").is_none());
}

#[test]
fn unknown_name_is_not_found() {
    let archive = archive_of(&blobs());
    let library = Library::new(map_of(&archive)).ok().unwrap();
    assert!(library.load("testing/test3.txt").is_none());
    assert!(library.load("").is_none());
    assert_eq!(library.resolve("testing/test3.txt").err(), Some(Error::NotFound));
}

#[test]
fn altered_magic_is_invalid_format() {
    let mut archive = archive_of(&blobs());
    archive[0] ^= 1;
    assert_eq!(error_of(&archive), Some(Error::InvalidFormat));
    let mut archive = archive_of(&blobs());
    archive[7] = 1;
    assert_eq!(error_of(&archive), Some(Error::InvalidFormat));
}

#[test]
fn invalid_magic_comes_before_a_missing_table() {
    let bytes: [u8; 8] = [1, 2, 3, 4, 5, 6, 7, 8];
    assert_eq!(error_of(&bytes), Some(Error::InvalidFormat));
}

#[test]
fn truncated_file_header() {
    let archive = archive_of(&blobs());
    for cut in 1..8 {
        assert_eq!(error_of(&archive[..cut]), Some(Error::TruncatedInput));
    }
}

#[test]
fn truncated_table_header() {
    let archive = archive_of(&blobs());
    for cut in 8..16 {
        assert_eq!(error_of(&archive[..cut]), Some(Error::TruncatedInput));
    }
}

#[test]
fn truncated_mid_table() {
    let archive = archive_of(&blobs());
    let table_end = 16 + 24 * blobs().len();
    for cut in 16..table_end {
        assert_eq!(error_of(&archive[..cut]), Some(Error::TruncatedInput));
    }
}

#[test]
fn truncated_payload_is_corrupt() {
    let archive = archive_of(&blobs());
    let table_end = 16 + 24 * blobs().len();
    assert_eq!(error_of(&archive[..table_end]), Some(Error::CorruptArchive));
    assert_eq!(error_of(&archive[..archive.len() - 64]), Some(Error::CorruptArchive));
}

#[test]
fn entry_past_the_end_is_corrupt() {
    let mut archive: Vec<u8> = Vec::new();
    FileHeader { magic_number: MAGIC_NUMBER }.to_stream(&mut archive);
    AssetTableHeader { num_assets: 1 }.to_stream(&mut archive);
    AssetTableEntry { id: 1, offset: 64, size: 65 }.to_stream(&mut archive);
    archive.resize(128, 0);
    assert_eq!(error_of(&archive), Some(Error::CorruptArchive));

    let mut archive: Vec<u8> = Vec::new();
    FileHeader { magic_number: MAGIC_NUMBER }.to_stream(&mut archive);
    AssetTableHeader { num_assets: 1 }.to_stream(&mut archive);
    AssetTableEntry { id: 1, offset: 64, size: 64 }.to_stream(&mut archive);
    archive.resize(128, 0);
    assert_eq!(error_of(&archive), None);
}

#[test]
fn entry_whose_end_overflows_is_corrupt() {
    let mut archive: Vec<u8> = Vec::new();
    FileHeader { magic_number: MAGIC_NUMBER }.to_stream(&mut archive);
    AssetTableHeader { num_assets: 1 }.to_stream(&mut archive);
    AssetTableEntry { id: 1, offset: u64::MAX - 1, size: 2 }.to_stream(&mut archive);
    archive.resize(64, 0);
    assert_eq!(error_of(&archive), Some(Error::CorruptArchive));
}

#[test]
fn later_entry_with_the_same_identifier_wins() {
    let id = AssetId::from_str("twice").raw();
    let mut archive: Vec<u8> = Vec::new();
    FileHeader { magic_number: MAGIC_NUMBER }.to_stream(&mut archive);
    AssetTableHeader { num_assets: 2 }.to_stream(&mut archive);
    AssetTableEntry { id, offset: 64, size: 4 }.to_stream(&mut archive);
    AssetTableEntry { id, offset: 128, size: 5 }.to_stream(&mut archive);
    assert_eq!(archive.len(), 64);
    archive.extend_from_slice(b"AAAA");
    archive.resize(128, 0);
    archive.extend_from_slice(b"BBBBB");
    archive.resize(192, 0);
    let library = Library::new(map_of(&archive)).ok().unwrap();
    assert_eq!(library.load("twice").unwrap().data(), b"BBBBB");
    assert_eq!(library.size_of(id), Some(5));
    let mut it = library.assets();
    assert_eq!(it.next(), Some(id));
    assert_eq!(it.next(), None);
}

#[test]
fn assets_outlive_the_library() {
    let blobs = blobs();
    let archive = archive_of(&blobs);
    let held: Vec<Arc<Asset>> = {
        let library = Library::new(map_of(&archive)).ok().unwrap();
        blobs.iter().map(|(name, _)| library.load(name).unwrap()).collect()
    };
    for (asset, (name, data)) in held.iter().zip(blobs.iter()) {
        assert_eq!(asset.path(), name);
        assert_eq!(asset.data(), &data[..]);
    }
}

#[test]
fn whole_map_as_one_asset() {
    let bytes: Vec<u8> = (0..200u8).collect();
    let asset = Asset::whole("loose/file.bin", map_of(&bytes));
    assert_eq!(asset.path(), "loose/file.bin");
    assert_eq!(asset.data(), &bytes[..]);
}

#[test]
fn resolving_by_a_given_identifier() {
    let mut archive: Vec<u8> = Vec::new();
    FileHeader { magic_number: MAGIC_NUMBER }.to_stream(&mut archive);
    AssetTableHeader { num_assets: 2 }.to_stream(&mut archive);
    AssetTableEntry { id: 10, offset: 64, size: 3 }.to_stream(&mut archive);
    AssetTableEntry { id: 20, offset: 67, size: 2 }.to_stream(&mut archive);
    archive.extend_from_slice(b"abcde");
    archive.resize(128, 0);
    let library = Library::new(map_of(&archive)).ok().unwrap();

    let first = library.resolve_id("first", AssetId(10)).ok().unwrap();
    assert_eq!(first.path(), "first");
    assert_eq!(first.data(), b"abc");
    let second = library.resolve_id("second", AssetId(20)).ok().unwrap();
    assert_eq!(second.path(), "second");
    assert_eq!(second.data(), b"de");
    assert_eq!(library.resolve_id("third", AssetId(30)).err(), Some(Error::NotFound));
    assert_eq!(library.size_of(10), Some(3));
    assert_eq!(library.size_of(20), Some(2));
    assert_eq!(library.size_of(30), None);
}
