//! The two headers of the archive container and the entries of its two
//! directory tables, each read from a source of bytes.

use vstd::prelude::*;

use crate::bytes::{be_u32, le_u16, le_u32, ByteSource};
use crate::error::MpqError;

verus! {

/// Magic of a file header, as the big-endian value of its four bytes.
pub const MPQ_HEADER_FILE_MAGIC: u32 = 0x4d50_511a;

/// Magic of a user-data header, as the big-endian value of its four bytes.
pub const MPQ_HEADER_USER_DATA_MAGIC: u32 = 0x4d50_511b;

/// Number of bytes of a file header after its magic.
pub const FILE_HEADER_BODY_LEN: usize = 28;

/// Number of bytes of a user-data header after its magic.
pub const USER_DATA_HEADER_BODY_LEN: usize = 12;

/// Number of bytes of one entry of either directory table.
pub const TABLE_ENTRY_LEN: usize = 16;

/// The header of the archive proper.
#[derive(Clone, Copy, Debug)]
pub struct FileHeader {
    pub magic: [u8; 4],
    pub header_size: u32,
    pub archive_size: u32,
    pub format_version: u16,
    pub sector_size_shift: u16,
    pub hash_table_offset: u32,
    pub block_table_offset: u32,
    pub hash_table_entries: u32,
    pub block_table_entries: u32,
}

impl FileHeader {
    /// Whether this is the header whose 28 bytes after the magic are the
    /// first 28 bytes of `body`: every field in order, little-endian.
    pub open spec fn holds(&self, body: Seq<u8>) -> bool {
        &&& self.magic@ == seq![0x4du8, 0x50u8, 0x51u8, 0x1au8]
        &&& self.header_size == le_u32(body.subrange(0, 4))
        &&& self.archive_size == le_u32(body.subrange(4, 8))
        &&& self.format_version == le_u16(body.subrange(8, 10))
        &&& self.sector_size_shift == le_u16(body.subrange(10, 12))
        &&& self.hash_table_offset == le_u32(body.subrange(12, 16))
        &&& self.block_table_offset == le_u32(body.subrange(16, 20))
        &&& self.hash_table_entries == le_u32(body.subrange(20, 24))
        &&& self.block_table_entries == le_u32(body.subrange(24, 28))
    }

    /// The four magic bytes of a file header: `MPQ` and 0x1a.
    pub fn magic() -> (m: [u8; 4])
        ensures
            m@ == seq![0x4du8, 0x50u8, 0x51u8, 0x1au8],
    {
        let m: [u8; 4] = [0x4d, 0x50, 0x51, 0x1a];
        assert(m@ =~= seq![0x4du8, 0x50u8, 0x51u8, 0x1au8]);
        m
    }

    /// Reads a file header, magic first. Fails with `Truncated` where the
    /// source ends before the header does, with `BadMagic` where the four
    /// bytes at the read position are not the file magic.
    pub fn from_reader(rdr: &mut ByteSource) -> (out: Result<FileHeader, MpqError>)
        ensures
            final(rdr).data@ == old(rdr).data@,
            match out {
                Ok(header) => {
                    &&& old(rdr).rest().len() >= 32
                    &&& be_u32(old(rdr).rest()) == MPQ_HEADER_FILE_MAGIC
                    &&& header.holds(old(rdr).rest().skip(4))
                    &&& final(rdr).pos == old(rdr).pos + 32
                },
                Err(e) => if old(rdr).rest().len() < 4 {
                    e == MpqError::Truncated
                } else if be_u32(old(rdr).rest()) != MPQ_HEADER_FILE_MAGIC {
                    e == MpqError::BadMagic
                } else {
                    e == MpqError::Truncated && old(rdr).rest().len() < 32
                },
            },
    {
        let magic = rdr.read_u32_be()?;
        if MPQ_HEADER_FILE_MAGIC != magic {
            return Err(MpqError::BadMagic);
        }
        proof {
            assert(rdr.rest() =~= old(rdr).rest().skip(4));
        }
        FileHeader::from_reader_nomagic(rdr)
    }

    /// Reads the 28 bytes that follow the magic of a file header. Fails
    /// with `Truncated` exactly where fewer than 28 bytes are left.
    pub fn from_reader_nomagic(rdr: &mut ByteSource) -> (out: Result<FileHeader, MpqError>)
        ensures
            final(rdr).data@ == old(rdr).data@,
            match out {
                Ok(header) => {
                    &&& old(rdr).rest().len() >= 28
                    &&& header.holds(old(rdr).rest())
                    &&& final(rdr).pos == old(rdr).pos + 28
                },
                Err(e) => e == MpqError::Truncated && old(rdr).rest().len() < 28,
            },
    {
        if rdr.remaining() < FILE_HEADER_BODY_LEN {
            return Err(MpqError::Truncated);
        }
        let ghost body = rdr.rest();
        let header_size = rdr.read_u32_le()?;
        assert(rdr.rest() =~= body.skip(4));
        let archive_size = rdr.read_u32_le()?;
        assert(rdr.rest() =~= body.skip(8));
        let format_version = rdr.read_u16_le()?;
        assert(rdr.rest() =~= body.skip(10));
        let sector_size_shift = rdr.read_u16_le()?;
        assert(rdr.rest() =~= body.skip(12));
        let hash_table_offset = rdr.read_u32_le()?;
        assert(rdr.rest() =~= body.skip(16));
        let block_table_offset = rdr.read_u32_le()?;
        assert(rdr.rest() =~= body.skip(20));
        let hash_table_entries = rdr.read_u32_le()?;
        assert(rdr.rest() =~= body.skip(24));
        let block_table_entries = rdr.read_u32_le()?;
        Ok(
            FileHeader {
                magic: FileHeader::magic(),
                header_size,
                archive_size,
                format_version,
                sector_size_shift,
                hash_table_offset,
                block_table_offset,
                hash_table_entries,
                block_table_entries,
            },
        )
    }
}

/// The header that may stand before the archive proper and says where the
/// file header lies.
#[derive(Clone, Copy, Debug)]
pub struct UserDataHeader {
    pub magic: u32,
    pub user_data_size: u32,
    pub mpq_header_offset: u32,
    pub user_data_header_size: u32,
}

impl UserDataHeader {
    /// Whether this is the header whose 12 bytes after the magic are the
    /// first 12 bytes of `body`.
    pub open spec fn holds(&self, body: Seq<u8>) -> bool {
        &&& self.magic == MPQ_HEADER_USER_DATA_MAGIC
        &&& self.user_data_size == le_u32(body.subrange(0, 4))
        &&& self.mpq_header_offset == le_u32(body.subrange(4, 8))
        &&& self.user_data_header_size == le_u32(body.subrange(8, 12))
    }

    /// Reads a user-data header, magic first. Fails with `Truncated` where
    /// the source ends before the header does, with `BadMagic` where the
    /// four bytes at the read position are not the user-data magic.
    pub fn from_reader(rdr: &mut ByteSource) -> (out: Result<UserDataHeader, MpqError>)
        ensures
            final(rdr).data@ == old(rdr).data@,
            match out {
                Ok(header) => {
                    &&& old(rdr).rest().len() >= 16
                    &&& be_u32(old(rdr).rest()) == MPQ_HEADER_USER_DATA_MAGIC
                    &&& header.holds(old(rdr).rest().skip(4))
                    &&& final(rdr).pos == old(rdr).pos + 16
                },
                Err(e) => if old(rdr).rest().len() < 4 {
                    e == MpqError::Truncated
                } else if be_u32(old(rdr).rest()) != MPQ_HEADER_USER_DATA_MAGIC {
                    e == MpqError::BadMagic
                } else {
                    e == MpqError::Truncated && old(rdr).rest().len() < 16
                },
            },
    {
        let magic = rdr.read_u32_be()?;
        if MPQ_HEADER_USER_DATA_MAGIC != magic {
            return Err(MpqError::BadMagic);
        }
        proof {
            assert(rdr.rest() =~= old(rdr).rest().skip(4));
        }
        UserDataHeader::from_reader_nomagic(rdr)
    }

    /// Reads the 12 bytes that follow the magic of a user-data header.
    /// Fails with `Truncated` exactly where fewer than 12 bytes are left.
    pub fn from_reader_nomagic(rdr: &mut ByteSource) -> (out: Result<UserDataHeader, MpqError>)
        ensures
            final(rdr).data@ == old(rdr).data@,
            match out {
                Ok(header) => {
                    &&& old(rdr).rest().len() >= 12
                    &&& header.holds(old(rdr).rest())
                    &&& final(rdr).pos == old(rdr).pos + 12
                },
                Err(e) => e == MpqError::Truncated && old(rdr).rest().len() < 12,
            },
    {
        if rdr.remaining() < USER_DATA_HEADER_BODY_LEN {
            return Err(MpqError::Truncated);
        }
        let ghost body = rdr.rest();
        let user_data_size = rdr.read_u32_le()?;
        assert(rdr.rest() =~= body.skip(4));
        let mpq_header_offset = rdr.read_u32_le()?;
        assert(rdr.rest() =~= body.skip(8));
        let user_data_header_size = rdr.read_u32_le()?;
        Ok(
            UserDataHeader {
                magic: MPQ_HEADER_USER_DATA_MAGIC,
                user_data_size,
                mpq_header_offset,
                user_data_header_size,
            },
        )
    }
}

/// The header found at the start of a source.
#[derive(Clone, Copy, Debug)]
pub enum Header {
    File(FileHeader),
    UserData(UserDataHeader),
}

/// Reads the magic at the read position and the header that it announces.
/// Fails with `BadMagic` where the magic is neither of the two, with
/// `Truncated` where the source ends before the header does.
pub fn read_header(rdr: &mut ByteSource) -> (out: Result<Header, MpqError>)
    ensures
        final(rdr).data@ == old(rdr).data@,
        match out {
            Ok(Header::File(header)) => {
                &&& old(rdr).rest().len() >= 32
                &&& be_u32(old(rdr).rest()) == MPQ_HEADER_FILE_MAGIC
                &&& header.holds(old(rdr).rest().skip(4))
                &&& final(rdr).pos == old(rdr).pos + 32
            },
            Ok(Header::UserData(header)) => {
                &&& old(rdr).rest().len() >= 16
                &&& be_u32(old(rdr).rest()) == MPQ_HEADER_USER_DATA_MAGIC
                &&& header.holds(old(rdr).rest().skip(4))
                &&& final(rdr).pos == old(rdr).pos + 16
            },
            Err(e) => if old(rdr).rest().len() < 4 {
                e == MpqError::Truncated
            } else if be_u32(old(rdr).rest()) == MPQ_HEADER_FILE_MAGIC {
                e == MpqError::Truncated && old(rdr).rest().len() < 32
            } else if be_u32(old(rdr).rest()) == MPQ_HEADER_USER_DATA_MAGIC {
                e == MpqError::Truncated && old(rdr).rest().len() < 16
            } else {
                e == MpqError::BadMagic
            },
        },
{
    let magic = rdr.read_u32_be()?;
    proof {
        assert(rdr.rest() =~= old(rdr).rest().skip(4));
    }
    if magic == MPQ_HEADER_FILE_MAGIC {
        let header = FileHeader::from_reader_nomagic(rdr)?;
        Ok(Header::File(header))
    } else if magic == MPQ_HEADER_USER_DATA_MAGIC {
        let header = UserDataHeader::from_reader_nomagic(rdr)?;
        Ok(Header::UserData(header))
    } else {
        Err(MpqError::BadMagic)
    }
}

/// What the hash table says of one name: where it is in use and which
/// block holds it.
#[derive(Clone, Copy, Debug)]
pub struct HashTableValue {
    pub locale: u16,
    pub platform: u16,
    pub block_table_index: u32,
}

/// One slot of the hash table: the two hashes of a name, and what the table
/// says of it. A slot whose fields are all ones is empty.
#[derive(Clone, Copy, Debug)]
pub struct HashTableEntry {
    pub hash_a: u32,
    pub hash_b: u32,
    pub value: HashTableValue,
}

/// The slot whose 16 decrypted bytes are the first 16 bytes of `b`.
pub open spec fn hash_entry_of(b: Seq<u8>) -> HashTableEntry {
    HashTableEntry {
        hash_a: le_u32(b.subrange(0, 4)),
        hash_b: le_u32(b.subrange(4, 8)),
        value: HashTableValue {
            locale: le_u16(b.subrange(8, 10)),
            platform: le_u16(b.subrange(10, 12)),
            block_table_index: le_u32(b.subrange(12, 16)),
        },
    }
}

impl HashTableValue {
    /// Locale, platform and block index, in this order.
    pub fn to_tuple(&self) -> (t: (u16, u16, u32))
        ensures
            t == (self.locale, self.platform, self.block_table_index),
    {
        (self.locale, self.platform, self.block_table_index)
    }

    /// Reads one slot of the decrypted hash table: the key, which is the
    /// pair of hashes, and the value. Fails with `Truncated` exactly where
    /// fewer than 16 bytes are left.
    pub fn from_reader(rdr: &mut ByteSource) -> (out: Result<((u32, u32), HashTableValue), MpqError>)
        ensures
            final(rdr).data@ == old(rdr).data@,
            match out {
                Ok((key, value)) => {
                    &&& old(rdr).rest().len() >= 16
                    &&& (HashTableEntry { hash_a: key.0, hash_b: key.1, value }) == hash_entry_of(
                        old(rdr).rest(),
                    )
                    &&& final(rdr).pos == old(rdr).pos + 16
                },
                Err(e) => e == MpqError::Truncated && old(rdr).rest().len() < 16,
            },
    {
        if rdr.remaining() < TABLE_ENTRY_LEN {
            return Err(MpqError::Truncated);
        }
        let ghost body = rdr.rest();
        let hash_a = rdr.read_u32_le()?;
        assert(rdr.rest() =~= body.skip(4));
        let hash_b = rdr.read_u32_le()?;
        assert(rdr.rest() =~= body.skip(8));
        let locale = rdr.read_u16_le()?;
        assert(rdr.rest() =~= body.skip(10));
        let platform = rdr.read_u16_le()?;
        assert(rdr.rest() =~= body.skip(12));
        let block_table_index = rdr.read_u32_le()?;
        Ok(((hash_a, hash_b), HashTableValue { locale, platform, block_table_index }))
    }
}

/// One entry of the block table: where a block lies, counted from the file
/// header, how many bytes it takes in the archive, how many its plain text
/// has, and its flags.
#[derive(Clone, Copy, Debug)]
pub struct BlockTableEntry {
    pub offset: u32,
    pub archived_size: u32,
    pub size: u32,
    pub flags: u32,
}

/// The entry whose 16 decrypted bytes are the first 16 bytes of `b`.
pub open spec fn block_entry_of(b: Seq<u8>) -> BlockTableEntry {
    BlockTableEntry {
        offset: le_u32(b.subrange(0, 4)),
        archived_size: le_u32(b.subrange(4, 8)),
        size: le_u32(b.subrange(8, 12)),
        flags: le_u32(b.subrange(12, 16)),
    }
}

impl BlockTableEntry {
    /// Offset, archived size, size and flags, in this order.
    pub fn to_tuple(&self) -> (t: (u32, u32, u32, u32))
        ensures
            t == (self.offset, self.archived_size, self.size, self.flags),
    {
        (self.offset, self.archived_size, self.size, self.flags)
    }

    /// Reads one entry of the decrypted block table. Fails with `Truncated`
    /// exactly where fewer than 16 bytes are left.
    pub fn from_reader(rdr: &mut ByteSource) -> (out: Result<BlockTableEntry, MpqError>)
        ensures
            final(rdr).data@ == old(rdr).data@,
            match out {
                Ok(entry) => {
                    &&& old(rdr).rest().len() >= 16
                    &&& entry == block_entry_of(old(rdr).rest())
                    &&& final(rdr).pos == old(rdr).pos + 16
                },
                Err(e) => e == MpqError::Truncated && old(rdr).rest().len() < 16,
            },
    {
        if rdr.remaining() < TABLE_ENTRY_LEN {
            return Err(MpqError::Truncated);
        }
        let ghost body = rdr.rest();
        let offset = rdr.read_u32_le()?;
        assert(rdr.rest() =~= body.skip(4));
        let archived_size = rdr.read_u32_le()?;
        assert(rdr.rest() =~= body.skip(8));
        let size = rdr.read_u32_le()?;
        assert(rdr.rest() =~= body.skip(12));
        let flags = rdr.read_u32_le()?;
        Ok(BlockTableEntry { offset, archived_size, size, flags })
    }
}

} // verus!
