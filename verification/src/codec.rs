//! The fixed-size records of an archive and their byte-exact encoding. Every
//! field is an unsigned 64-bit integer, least significant byte first.

use crate::endian::{le_u64, push_u64, read_u64_at, u64_le_bytes};
use crate::error::Error;
use vstd::prelude::*;

verus! {

/// The number with which every archive begins.
pub const MAGIC_NUMBER: u64 = 0xdeadbeef;

/// The first record of an archive: its magic number.
#[derive(Debug, Clone, Copy, PartialEq, Eq, Structural)]
pub struct FileHeader {
    pub magic_number: u64,
}

impl FileHeader {
    /// The eight bytes that encode this header.
    pub open spec fn spec_bytes(self) -> Seq<u8> {
        u64_le_bytes(self.magic_number)
    }

    /// The header that the first eight bytes of `stream` encode.
    pub open spec fn spec_decode(stream: Seq<u8>) -> FileHeader {
        FileHeader { magic_number: le_u64(stream.subrange(0, 8)) as u64 }
    }

    /// Decodes a header from the front of `stream`, which fails if and only if
    /// fewer than eight bytes are there.
    pub fn from_stream(stream: &[u8]) -> (r: Result<Self, Error>)
        ensures
            stream@.len() < 8 ==> r == Err::<Self, Error>(Error::TruncatedInput),
            stream@.len() >= 8 ==> r == Ok::<Self, Error>(Self::spec_decode(stream@)),
    {
        if stream.len() < 8 {
            return Err(Error::TruncatedInput);
        }
        Ok(FileHeader { magic_number: read_u64_at(stream, 0) })
    }

    /// Appends the encoding of this header to `stream`.
    pub fn to_stream(&self, stream: &mut Vec<u8>)
        ensures
            final(stream)@ == old(stream)@ + self.spec_bytes(),
    {
        push_u64(stream, self.magic_number);
    }

    /// The number of bytes that an encoded header takes.
    pub fn get_serialized_size() -> (n: usize)
        ensures
            n == 8,
    {
        8
    }
}

/// The record that opens the table: the number of entries that follow.
#[derive(Debug, Clone, Copy, PartialEq, Eq, Structural)]
pub struct AssetTableHeader {
    pub num_assets: u64,
}

impl AssetTableHeader {
    /// The eight bytes that encode this header.
    pub open spec fn spec_bytes(self) -> Seq<u8> {
        u64_le_bytes(self.num_assets)
    }

    /// The header that the first eight bytes of `stream` encode.
    pub open spec fn spec_decode(stream: Seq<u8>) -> AssetTableHeader {
        AssetTableHeader { num_assets: le_u64(stream.subrange(0, 8)) as u64 }
    }

    /// Decodes a header from the front of `stream`, which fails if and only if
    /// fewer than eight bytes are there.
    pub fn from_stream(stream: &[u8]) -> (r: Result<Self, Error>)
        ensures
            stream@.len() < 8 ==> r == Err::<Self, Error>(Error::TruncatedInput),
            stream@.len() >= 8 ==> r == Ok::<Self, Error>(Self::spec_decode(stream@)),
    {
        if stream.len() < 8 {
            return Err(Error::TruncatedInput);
        }
        Ok(AssetTableHeader { num_assets: read_u64_at(stream, 0) })
    }

    /// Appends the encoding of this header to `stream`.
    pub fn to_stream(&self, stream: &mut Vec<u8>)
        ensures
            final(stream)@ == old(stream)@ + self.spec_bytes(),
    {
        push_u64(stream, self.num_assets);
    }

    /// The number of bytes that an encoded header takes.
    pub fn get_serialized_size() -> (n: usize)
        ensures
            n == 8,
    {
        8
    }
}

/// One row of the table: where the asset with identifier `id` lies in the
/// archive, and how many bytes it has.
#[derive(Debug, Clone, Copy, PartialEq, Eq, Structural)]
pub struct AssetTableEntry {
    pub id: u64,
    pub offset: u64,
    pub size: u64,
}

impl AssetTableEntry {
    /// The twenty-four bytes that encode this entry: identifier, offset, size.
    pub open spec fn spec_bytes(self) -> Seq<u8> {
        u64_le_bytes(self.id) + u64_le_bytes(self.offset) + u64_le_bytes(self.size)
    }

    /// The entry that the first twenty-four bytes of `stream` encode.
    pub open spec fn spec_decode(stream: Seq<u8>) -> AssetTableEntry {
        AssetTableEntry {
            id: le_u64(stream.subrange(0, 8)) as u64,
            offset: le_u64(stream.subrange(8, 16)) as u64,
            size: le_u64(stream.subrange(16, 24)) as u64,
        }
    }

    /// Decodes an entry from the front of `stream`, which fails if and only if
    /// fewer than twenty-four bytes are there.
    pub fn from_stream(stream: &[u8]) -> (r: Result<Self, Error>)
        ensures
            stream@.len() < 24 ==> r == Err::<Self, Error>(Error::TruncatedInput),
            stream@.len() >= 24 ==> r == Ok::<Self, Error>(Self::spec_decode(stream@)),
    {
        if stream.len() < 24 {
            return Err(Error::TruncatedInput);
        }
        let id: u64 = read_u64_at(stream, 0);
        let offset: u64 = read_u64_at(stream, 8);
        let size: u64 = read_u64_at(stream, 16);
        Ok(AssetTableEntry { id, offset, size })
    }

    /// Appends the encoding of this entry to `stream`.
    pub fn to_stream(&self, stream: &mut Vec<u8>)
        ensures
            final(stream)@ == old(stream)@ + self.spec_bytes(),
    {
        push_u64(stream, self.id);
        push_u64(stream, self.offset);
        push_u64(stream, self.size);
        assert(stream@ =~= old(stream)@ + self.spec_bytes());
    }

    /// The number of bytes that an encoded entry takes.
    pub fn get_serialized_size() -> (n: usize)
        ensures
            n == 24,
    {
        24
    }
}

/// Decoding the encoding of a file header gives the header back.
pub proof fn lemma_file_header_round_trip(h: FileHeader)
    ensures
        h.spec_bytes().len() == 8,
        FileHeader::spec_decode(h.spec_bytes()) == h,
{
    crate::endian::lemma_le_u64_of_bytes(h.magic_number);
    assert(h.spec_bytes().subrange(0, 8) =~= u64_le_bytes(h.magic_number));
}

/// Decoding the encoding of a table header gives the header back.
pub proof fn lemma_table_header_round_trip(h: AssetTableHeader)
    ensures
        h.spec_bytes().len() == 8,
        AssetTableHeader::spec_decode(h.spec_bytes()) == h,
{
    crate::endian::lemma_le_u64_of_bytes(h.num_assets);
    assert(h.spec_bytes().subrange(0, 8) =~= u64_le_bytes(h.num_assets));
}

/// Decoding the encoding of a table entry gives the entry back.
pub proof fn lemma_entry_round_trip(e: AssetTableEntry)
    ensures
        e.spec_bytes().len() == 24,
        AssetTableEntry::spec_decode(e.spec_bytes()) == e,
{
    crate::endian::lemma_le_u64_of_bytes(e.id);
    crate::endian::lemma_le_u64_of_bytes(e.offset);
    crate::endian::lemma_le_u64_of_bytes(e.size);
    assert(e.spec_bytes().subrange(0, 8) =~= u64_le_bytes(e.id));
    assert(e.spec_bytes().subrange(8, 16) =~= u64_le_bytes(e.offset));
    assert(e.spec_bytes().subrange(16, 24) =~= u64_le_bytes(e.size));
}

} // verus!
