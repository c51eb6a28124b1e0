use assetio::{
    AssetId, AssetTable, AssetTableEntry, AssetTableHeader, Error, FileHeader, MAGIC_NUMBER,
};

#[test]
fn serialized_sizes_are_fixed() {
    assert_eq!(FileHeader::get_serialized_size(), 8);
    assert_eq!(AssetTableHeader::get_serialized_size(), 8);
    assert_eq!(AssetTableEntry::get_serialized_size(), 24);
}

#[test]
fn magic_number_value() {
    assert_eq!(MAGIC_NUMBER, 0xdeadbeef_u64);
}

#[test]
fn file_header_is_little_endian() {
    let mut out: Vec<u8> = Vec::new();
    FileHeader { magic_number: MAGIC_NUMBER }.to_stream(&mut out);
    assert_eq!(out, vec![0xef, 0xbe, 0xad, 0xde, 0x00, 0x00, 0x00, 0x00]);
}

#[test]
fn file_header_decodes_little_endian() {
    let bytes: [u8; 8] = [0xef, 0xbe, 0xad, 0xde, 0x00, 0x00, 0x00, 0x00];
    assert_eq!(FileHeader::from_stream(&bytes), Ok(FileHeader { magic_number: 0xdeadbeef }));
    let bytes: [u8; 8] = [0x08, 0x07, 0x06, 0x05, 0x04, 0x03, 0x02, 0x01];
    assert_eq!(
        FileHeader::from_stream(&bytes),
        Ok(FileHeader { magic_number: 0x0102030405060708 })
    );
}

#[test]
fn file_header_reads_only_its_own_bytes() {
    let bytes: [u8; 10] = [1, 0, 0, 0, 0, 0, 0, 0, 0xff, 0xff];
    assert_eq!(FileHeader::from_stream(&bytes), Ok(FileHeader { magic_number: 1 }));
}

#[test]
fn file_header_truncated() {
    let bytes: [u8; 7] = [0xef, 0xbe, 0xad, 0xde, 0, 0, 0];
    assert_eq!(FileHeader::from_stream(&bytes), Err(Error::TruncatedInput));
    assert_eq!(FileHeader::from_stream(&[]), Err(Error::TruncatedInput));
}

#[test]
fn table_header_round_trip() {
    let mut out: Vec<u8> = vec![0xaa];
    AssetTableHeader { num_assets: 3 }.to_stream(&mut out);
    assert_eq!(out, vec![0xaa, 3, 0, 0, 0, 0, 0, 0, 0]);
    assert_eq!(AssetTableHeader::from_stream(&out[1..]), Ok(AssetTableHeader { num_assets: 3 }));
    assert_eq!(AssetTableHeader::from_stream(&out[2..]), Err(Error::TruncatedInput));
}

#[test]
fn table_entry_layout() {
    let entry = AssetTableEntry { id: 0x1122334455667788, offset: 64, size: 0x0100 };
    let mut out: Vec<u8> = Vec::new();
    entry.to_stream(&mut out);
    assert_eq!(
        out,
        vec![
            0x88, 0x77, 0x66, 0x55, 0x44, 0x33, 0x22, 0x11, 64, 0, 0, 0, 0, 0, 0, 0, 0, 1, 0, 0,
            0, 0, 0, 0
        ]
    );
    assert_eq!(AssetTableEntry::from_stream(&out), Ok(entry));
}

#[test]
fn table_entry_extremes_round_trip() {
    for v in [0u64, 1, 0xff, 0x100, u64::MAX, u64::MAX - 1, 1 << 63] {
        let entry = AssetTableEntry { id: v, offset: !v, size: v.rotate_left(17) };
        let mut out: Vec<u8> = Vec::new();
        entry.to_stream(&mut out);
        assert_eq!(out.len(), 24);
        assert_eq!(AssetTableEntry::from_stream(&out), Ok(entry));
    }
}

#[test]
fn table_entry_truncated() {
    let bytes: [u8; 23] = [0; 23];
    assert_eq!(AssetTableEntry::from_stream(&bytes), Err(Error::TruncatedInput));
    let bytes: [u8; 24] = [0; 24];
    assert_eq!(
        AssetTableEntry::from_stream(&bytes),
        Ok(AssetTableEntry { id: 0, offset: 0, size: 0 })
    );
}

#[test]
fn identifier_is_deterministic() {
    let a = AssetId::from_str("textures/stone.png");
    let b = AssetId::from_str("textures/stone.png");
    assert_eq!(a, b);
    assert_eq!(a.raw(), b.raw());
}

#[test]
fn identifier_depends_on_the_name() {
    let names = ["", "a", "b", "ab", "ba", "a/b", "textures/stone.png", "textures/stone.jpg"];
    for i in 0..names.len() {
        for j in 0..names.len() {
            if i != j {
                assert_ne!(AssetId::from_str(names[i]), AssetId::from_str(names[j]));
            }
        }
    }
}

fn table_stream(entries: &[AssetTableEntry]) -> Vec<u8> {
    let mut out: Vec<u8> = Vec::new();
    AssetTableHeader { num_assets: entries.len() as u64 }.to_stream(&mut out);
    for e in entries {
        e.to_stream(&mut out);
    }
    out
}

#[test]
fn table_parses_entries() {
    let a = AssetTableEntry { id: 7, offset: 64, size: 10 };
    let b = AssetTableEntry { id: 9, offset: 128, size: 0 };
    let stream = table_stream(&[a, b]);
    let table = AssetTable::from_stream(&stream, 128).ok().unwrap();
    assert_eq!(table.len(), 2);
    assert_eq!(table.get(7), Some(a));
    assert_eq!(table.get(9), Some(b));
    assert_eq!(table.get(8), None);
    let mut ids = table.ids();
    ids.sort();
    assert_eq!(ids, vec![7, 9]);
}

#[test]
fn table_empty() {
    let stream = table_stream(&[]);
    let table = AssetTable::from_stream(&stream, 0).ok().unwrap();
    assert_eq!(table.len(), 0);
    assert_eq!(table.get(0), None);
    assert_eq!(table.ids(), Vec::<u64>::new());
}

#[test]
fn table_later_entry_replaces_earlier() {
    let a = AssetTableEntry { id: 7, offset: 64, size: 10 };
    let b = AssetTableEntry { id: 7, offset: 128, size: 3 };
    let stream = table_stream(&[a, b]);
    let table = AssetTable::from_stream(&stream, 200).ok().unwrap();
    assert_eq!(table.len(), 1);
    assert_eq!(table.get(7), Some(b));
}

#[test]
fn table_truncated_header() {
    assert_eq!(AssetTable::from_stream(&[], 0).err(), Some(Error::TruncatedInput));
    assert_eq!(AssetTable::from_stream(&[1, 0, 0], 100).err(), Some(Error::TruncatedInput));
}

#[test]
fn table_truncated_entries() {
    let a = AssetTableEntry { id: 7, offset: 64, size: 10 };
    let b = AssetTableEntry { id: 9, offset: 128, size: 0 };
    let stream = table_stream(&[a, b]);
    for cut in 8..stream.len() {
        assert_eq!(
            AssetTable::from_stream(&stream[..cut], 1000).err(),
            Some(Error::TruncatedInput)
        );
    }
    assert!(AssetTable::from_stream(&stream, 1000).is_ok());
}

#[test]
fn table_huge_count_is_truncated() {
    let mut stream: Vec<u8> = Vec::new();
    AssetTableHeader { num_assets: u64::MAX }.to_stream(&mut stream);
    AssetTableEntry { id: 1, offset: 0, size: 0 }.to_stream(&mut stream);
    assert_eq!(AssetTable::from_stream(&stream, 1000).err(), Some(Error::TruncatedInput));
}

#[test]
fn table_truncation_comes_before_bounds() {
    let a = AssetTableEntry { id: 7, offset: 5000, size: 10 };
    let b = AssetTableEntry { id: 9, offset: 128, size: 0 };
    let stream = table_stream(&[a, b]);
    assert_eq!(AssetTable::from_stream(&stream[..40], 1000).err(), Some(Error::TruncatedInput));
    assert_eq!(AssetTable::from_stream(&stream, 1000).err(), Some(Error::CorruptArchive));
}

#[test]
fn table_entry_out_of_bounds() {
    let a = AssetTableEntry { id: 7, offset: 64, size: 10 };
    let stream = table_stream(&[a]);
    assert!(AssetTable::from_stream(&stream, 74).is_ok());
    assert_eq!(AssetTable::from_stream(&stream, 73).err(), Some(Error::CorruptArchive));
}

#[test]
fn table_entry_bounds_overflow() {
    let a = AssetTableEntry { id: 7, offset: u64::MAX, size: 1 };
    let stream = table_stream(&[a]);
    assert_eq!(AssetTable::from_stream(&stream, u64::MAX).err(), Some(Error::CorruptArchive));
    let b = AssetTableEntry { id: 7, offset: u64::MAX, size: 0 };
    let stream = table_stream(&[b]);
    assert!(AssetTable::from_stream(&stream, u64::MAX).is_ok());
    let c = AssetTableEntry { id: 7, offset: 1 << 63, size: 1 << 63 };
    let stream = table_stream(&[c]);
    assert_eq!(AssetTable::from_stream(&stream, u64::MAX).err(), Some(Error::CorruptArchive));
}
