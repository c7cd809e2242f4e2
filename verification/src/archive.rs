//! The archive: its directory tables, the lookup of an entry by name, and
//! the decoding of the entry's block.

use vstd::prelude::*;
use vstd::slice::{slice_subrange, slice_to_vec};

use crate::bytes::{be_u32, le_u32, read_exact, u32_le_at, ByteSource};
use crate::compress::{append_bytes, decompress, decompress_spec};
use crate::crypt::{
    decrypt, decrypt_spec, lemma_cipher_keeps_length, string_hash, string_hash_spec, CryptTable,
    StringHashType,
};
use crate::error::{Failure, MpqError};
use crate::header::{
    block_entry_of, hash_entry_of, read_header, BlockTableEntry, FileHeader, HashTableEntry,
    HashTableValue, Header, MPQ_HEADER_FILE_MAGIC, MPQ_HEADER_USER_DATA_MAGIC,
};

verus! {

/// Flag of a block whose units are imploded.
pub const MPQ_FILE_IMPLODE: u32 = 0x0000_0100;

/// Flag of a block whose units may be compressed, each behind a scheme
/// byte.
pub const MPQ_FILE_COMPRESS: u32 = 0x0000_0200;

/// Flag of an encrypted block.
pub const MPQ_FILE_ENCRYPTED: u32 = 0x0001_0000;

/// Flag of an encrypted block whose key depends on its offset and size.
pub const MPQ_FILE_FIX_KEY: u32 = 0x0002_0000;

/// Flag of a block that is one unit, without a sector table.
pub const MPQ_FILE_SINGLE_UNIT: u32 = 0x0100_0000;

/// Flag of a block that marks a deleted entry.
pub const MPQ_FILE_DELETE_MARKER: u32 = 0x0200_0000;

/// Flag of a block that carries a checksum for each sector.
pub const MPQ_FILE_SECTOR_CRC: u32 = 0x0400_0000;

/// Flag of a block table entry that is in use.
pub const MPQ_FILE_EXISTS: u32 = 0x8000_0000;

/// The name under which the hash table's key is hashed: `(hash table)`.
pub open spec fn hash_table_name() -> Seq<u8> {
    seq![
        0x28u8, 0x68u8, 0x61u8, 0x73u8, 0x68u8, 0x20u8, 0x74u8, 0x61u8, 0x62u8, 0x6cu8, 0x65u8,
        0x29u8,
    ]
}

/// The name under which the block table's key is hashed: `(block table)`.
pub open spec fn block_table_name() -> Seq<u8> {
    seq![
        0x28u8, 0x62u8, 0x6cu8, 0x6fu8, 0x63u8, 0x6bu8, 0x20u8, 0x74u8, 0x61u8, 0x62u8, 0x6cu8,
        0x65u8, 0x29u8,
    ]
}

/// Whether a directory table of `entries` entries that starts at byte `at`
/// lies within `data`.
pub open spec fn table_fits(data: Seq<u8>, at: int, entries: int) -> bool {
    at + 16 * entries <= data.len()
}

/// The decrypted bytes of the directory table of `entries` entries that
/// starts at byte `at` of `data`, its key being the hash of `name`.
pub open spec fn table_plain(data: Seq<u8>, at: int, entries: int, name: Seq<u8>) -> Seq<u8> {
    decrypt_spec(
        string_hash_spec(name, StringHashType::Table),
        data.subrange(at, at + 16 * entries),
    )
}

/// The hash table of `entries` slots that starts at byte `at` of `data`.
pub open spec fn hash_table_of(data: Seq<u8>, at: int, entries: int) -> Seq<HashTableEntry> {
    let plain = table_plain(data, at, entries, hash_table_name());
    Seq::new(entries as nat, |i: int| hash_entry_of(plain.subrange(16 * i, 16 * i + 16)))
}

/// The block table of `entries` entries that starts at byte `at` of `data`.
pub open spec fn block_table_of(data: Seq<u8>, at: int, entries: int) -> Seq<BlockTableEntry> {
    let plain = table_plain(data, at, entries, block_table_name());
    Seq::new(entries as nat, |i: int| block_entry_of(plain.subrange(16 * i, 16 * i + 16)))
}

/// The bytes of `(hash table)`.
fn hash_table_key_name() -> (name: Vec<u8>)
    ensures
        name@ == hash_table_name(),
{
    let name: Vec<u8> = vec![
        0x28u8, 0x68u8, 0x61u8, 0x73u8, 0x68u8, 0x20u8, 0x74u8, 0x61u8, 0x62u8, 0x6cu8, 0x65u8,
        0x29u8,
    ];
    assert(name@ =~= hash_table_name());
    name
}

/// The bytes of `(block table)`.
fn block_table_key_name() -> (name: Vec<u8>)
    ensures
        name@ == block_table_name(),
{
    let name: Vec<u8> = vec![
        0x28u8, 0x62u8, 0x6cu8, 0x6fu8, 0x63u8, 0x6bu8, 0x20u8, 0x74u8, 0x61u8, 0x62u8, 0x6cu8,
        0x65u8, 0x29u8,
    ];
    assert(name@ =~= block_table_name());
    name
}

/// A buffer of `len` zero bytes.
fn zeroed(len: usize) -> (buffer: Vec<u8>)
    ensures
        buffer@.len() == len,
{
    let mut buffer: Vec<u8> = Vec::new();
    let mut i: usize = 0;
    while i < len
        invariant
            i <= len,
            buffer@.len() == i,
        decreases len - i,
    {
        buffer.push(0u8);
        i = i + 1;
    }
    buffer
}

/// Reads and decrypts the directory table of `entries` entries that starts
/// at byte `at`, under the key that is the hash of `name`. Gives nothing
/// where the table does not lie within the source.
fn read_table(table: &CryptTable, reader: &mut ByteSource, at: u64, entries: u32, name: &[u8]) -> (out:
    Option<Vec<u8>>)
    ensures
        final(reader).data@ == old(reader).data@,
        match out {
            Some(plain) => table_fits(old(reader).data@, at as int, entries as int) && plain@
                == table_plain(old(reader).data@, at as int, entries as int, name@),
            None => !table_fits(old(reader).data@, at as int, entries as int),
        },
{
    let byte_len: u64 = 16 * (entries as u64);
    let total: usize = reader.data.len();
    if at > total as u64 || byte_len > total as u64 - at {
        return None;
    }
    let mut buffer = zeroed(byte_len as usize);
    reader.seek(at as usize);
    match read_exact(reader, &mut buffer) {
        Ok(_) => {},
        Err(_) => {
            return None;
        },
    }
    proof {
        assert(buffer@ =~= reader.data@.subrange(at as int, at + 16 * entries));
        lemma_cipher_keeps_length(string_hash_spec(name@, StringHashType::Table), buffer@);
    }
    let key = string_hash(table, name, StringHashType::Table);
    match decrypt(table, key, &mut buffer) {
        Ok(_) => Some(buffer),
        Err(_) => None,
    }
}

/// Reads and decrypts the hash table that `header` places, the header
/// itself lying at byte `header_offset`. Fails with `Truncated` exactly
/// where the table does not lie within the source.
pub fn read_hash_table(
    table: &CryptTable,
    reader: &mut ByteSource,
    header: &FileHeader,
    header_offset: u32,
) -> (out: Result<Vec<HashTableEntry>, MpqError>)
    ensures
        final(reader).data@ == old(reader).data@,
        match out {
            Ok(slots) => {
                &&& table_fits(
                    old(reader).data@,
                    header.hash_table_offset + header_offset,
                    header.hash_table_entries as int,
                )
                &&& slots@ == hash_table_of(
                    old(reader).data@,
                    header.hash_table_offset + header_offset,
                    header.hash_table_entries as int,
                )
            },
            Err(e) => e == MpqError::Truncated && !table_fits(
                old(reader).data@,
                header.hash_table_offset + header_offset,
                header.hash_table_entries as int,
            ),
        },
{
    let table_offset: u64 = header.hash_table_offset as u64 + header_offset as u64;
    let table_entries: u32 = header.hash_table_entries;
    let name = hash_table_key_name();
    let plain = match read_table(table, reader, table_offset, table_entries, name.as_slice()) {
        Some(plain) => plain,
        None => {
            return Err(MpqError::Truncated);
        },
    };
    let ghost bytes = plain@;
    proof {
        lemma_cipher_keeps_length(
            string_hash_spec(hash_table_name(), StringHashType::Table),
            old(reader).data@.subrange(table_offset as int, table_offset + 16 * table_entries),
        );
    }
    let mut entry_rdr = ByteSource::new(plain);
    let mut slots: Vec<HashTableEntry> = Vec::new();
    let mut i: u32 = 0;
    while i < table_entries
        invariant
            i <= table_entries,
            entry_rdr.data@ == bytes,
            bytes.len() == 16 * table_entries,
            entry_rdr.pos == 16 * i,
            slots@.len() == i,
            forall|j: int|
                0 <= j < i ==> slots@[j] == hash_entry_of(
                    #[trigger] bytes.subrange(16 * j, 16 * j + 16),
                ),
        decreases table_entries - i,
    {
        let ghost before = entry_rdr.rest();
        assert(before.len() >= 16);
        let (key, value) = match HashTableValue::from_reader(&mut entry_rdr) {
            Ok(pair) => pair,
            Err(e) => {
                return Err(e);
            },
        };
        proof {
            lemma_entry_bytes(bytes, i as int);
        }
        slots.push(HashTableEntry { hash_a: key.0, hash_b: key.1, value });
        i = i + 1;
    }
    proof {
        assert(slots@ =~= hash_table_of(
            old(reader).data@,
            header.hash_table_offset + header_offset,
            header.hash_table_entries as int,
        ));
    }
    Ok(slots)
}

/// Reads and decrypts the block table that `header` places, the header
/// itself lying at byte `header_offset`. Fails with `Truncated` exactly
/// where the table does not lie within the source.
pub fn read_block_table(
    table: &CryptTable,
    reader: &mut ByteSource,
    header: &FileHeader,
    header_offset: u32,
) -> (out: Result<Vec<BlockTableEntry>, MpqError>)
    ensures
        final(reader).data@ == old(reader).data@,
        match out {
            Ok(blocks) => {
                &&& table_fits(
                    old(reader).data@,
                    header.block_table_offset + header_offset,
                    header.block_table_entries as int,
                )
                &&& blocks@ == block_table_of(
                    old(reader).data@,
                    header.block_table_offset + header_offset,
                    header.block_table_entries as int,
                )
            },
            Err(e) => e == MpqError::Truncated && !table_fits(
                old(reader).data@,
                header.block_table_offset + header_offset,
                header.block_table_entries as int,
            ),
        },
{
    let table_offset: u64 = header.block_table_offset as u64 + header_offset as u64;
    let table_entries: u32 = header.block_table_entries;
    let name = block_table_key_name();
    let plain = match read_table(table, reader, table_offset, table_entries, name.as_slice()) {
        Some(plain) => plain,
        None => {
            return Err(MpqError::Truncated);
        },
    };
    let ghost bytes = plain@;
    proof {
        lemma_cipher_keeps_length(
            string_hash_spec(block_table_name(), StringHashType::Table),
            old(reader).data@.subrange(table_offset as int, table_offset + 16 * table_entries),
        );
    }
    let mut entry_rdr = ByteSource::new(plain);
    let mut blocks: Vec<BlockTableEntry> = Vec::new();
    let mut i: u32 = 0;
    while i < table_entries
        invariant
            i <= table_entries,
            entry_rdr.data@ == bytes,
            bytes.len() == 16 * table_entries,
            entry_rdr.pos == 16 * i,
            blocks@.len() == i,
            forall|j: int|
                0 <= j < i ==> blocks@[j] == block_entry_of(
                    #[trigger] bytes.subrange(16 * j, 16 * j + 16),
                ),
        decreases table_entries - i,
    {
        let ghost before = entry_rdr.rest();
        assert(before.len() >= 16);
        let entry = match BlockTableEntry::from_reader(&mut entry_rdr) {
            Ok(entry) => entry,
            Err(e) => {
                return Err(e);
            },
        };
        proof {
            lemma_entry_bytes(bytes, i as int);
        }
        blocks.push(entry);
        i = i + 1;
    }
    proof {
        assert(blocks@ =~= block_table_of(
            old(reader).data@,
            header.block_table_offset + header_offset,
            header.block_table_entries as int,
        ));
    }
    Ok(blocks)
}

/// The fields of a table entry read from the bytes after the first `16 * i`
/// are those read from the `i`-th run of 16 bytes.
proof fn lemma_entry_bytes(bytes: Seq<u8>, i: int)
    requires
        0 <= i,
        16 * i + 16 <= bytes.len(),
    ensures
        hash_entry_of(bytes.subrange(16 * i, bytes.len() as int)) == hash_entry_of(
            bytes.subrange(16 * i, 16 * i + 16),
        ),
        block_entry_of(bytes.subrange(16 * i, bytes.len() as int)) == block_entry_of(
            bytes.subrange(16 * i, 16 * i + 16),
        ),
{
    let long = bytes.subrange(16 * i, bytes.len() as int);
    let short = bytes.subrange(16 * i, 16 * i + 16);
    assert(long.subrange(0, 4) =~= short.subrange(0, 4));
    assert(long.subrange(4, 8) =~= short.subrange(4, 8));
    assert(long.subrange(8, 10) =~= short.subrange(8, 10));
    assert(long.subrange(10, 12) =~= short.subrange(10, 12));
    assert(long.subrange(8, 12) =~= short.subrange(8, 12));
    assert(long.subrange(12, 16) =~= short.subrange(12, 16));
}

/// Where the file header of an archive lies: at byte 0, or where a
/// user-data header at byte 0 says. A failure where the source starts with
/// neither magic, where the place named does not start with the file magic,
/// or where the source ends before a header does.
pub open spec fn header_place(data: Seq<u8>) -> Result<u32, MpqError> {
    if data.len() < 4 {
        Err(MpqError::Truncated)
    } else if be_u32(data) == MPQ_HEADER_FILE_MAGIC {
        if data.len() < 32 {
            Err(MpqError::Truncated)
        } else {
            Ok(0u32)
        }
    } else if be_u32(data) == MPQ_HEADER_USER_DATA_MAGIC {
        if data.len() < 16 {
            Err(MpqError::Truncated)
        } else {
            let place = le_u32(data.subrange(8, 12));
            if place + 4 > data.len() {
                Err(MpqError::Truncated)
            } else if be_u32(data.skip(place as int)) != MPQ_HEADER_FILE_MAGIC {
                Err(MpqError::BadMagic)
            } else if place + 32 > data.len() {
                Err(MpqError::Truncated)
            } else {
                Ok(place)
            }
        }
    } else {
        Err(MpqError::BadMagic)
    }
}

/// Whether both directory tables that the file header at byte `place`
/// declares lie within `data`.
pub open spec fn tables_fit(data: Seq<u8>, place: u32) -> bool {
    let body = data.skip(place + 4);
    &&& table_fits(data, place + le_u32(body.subrange(12, 16)), le_u32(body.subrange(20, 24)) as int)
    &&& table_fits(data, place + le_u32(body.subrange(16, 20)), le_u32(body.subrange(24, 28)) as int)
}

/// Where the file header of a loadable archive lies, or why the archive
/// cannot be loaded.
pub open spec fn load_spec(data: Seq<u8>) -> Result<u32, MpqError> {
    match header_place(data) {
        Ok(place) => if tables_fit(data, place) {
            Ok(place)
        } else {
            Err(MpqError::Truncated)
        },
        Err(e) => Err(e),
    }
}

/// What the first slot with the hashes `a` and `b` says, if there is one.
pub open spec fn find_slot(slots: Seq<HashTableEntry>, a: u32, b: u32) -> Option<HashTableValue>
    decreases slots.len(),
{
    if slots.len() == 0 {
        None
    } else if slots[0].hash_a == a && slots[0].hash_b == b {
        Some(slots[0].value)
    } else {
        find_slot(slots.skip(1), a, b)
    }
}

/// Number of bytes of a sector under the header's shift: 512 doubled
/// `shift` times. The doubling stops at 2^32 bytes, which no entry reaches.
pub open spec fn sector_size(shift: u16) -> u64 {
    512u64 << (if shift < 23 {
        shift
    } else {
        23u16
    })
}

/// The plain text of one unit. A compressed unit is decompressed by its
/// scheme byte and must give `size` bytes; any other is taken as it is.
pub open spec fn unit_plain(unit: Seq<u8>, compressed: bool, size: int) -> Result<
    Seq<u8>,
    MpqError,
> {
    if compressed {
        match decompress_spec(unit) {
            Ok(plain) => if plain.len() == size {
                Ok(plain)
            } else {
                Err(MpqError::CorruptCompression)
            },
            Err(e) => Err(e),
        }
    } else {
        Ok(unit)
    }
}

/// The plain text of sector `k` of a block of several units, which is to
/// give `len` bytes. The block starts with a table of little-endian
/// offsets into itself; the sector lies between the `k`-th and the next of
/// them. It counts as compressed where the block is flagged so and the
/// sector is shorter than its plain text.
pub open spec fn sector_plain(payload: Seq<u8>, len: int, flagged: bool, k: int) -> Result<
    Seq<u8>,
    MpqError,
> {
    if 4 * k + 8 > payload.len() {
        Err(MpqError::Truncated)
    } else {
        let start = le_u32(payload.subrange(4 * k, 4 * k + 4));
        let end = le_u32(payload.subrange(4 * k + 4, 4 * k + 8));
        if start > end {
            Err(MpqError::CorruptCompression)
        } else if end > payload.len() {
            Err(MpqError::Truncated)
        } else {
            unit_plain(payload.subrange(start as int, end as int), flagged && end - start < len, len)
        }
    }
}

/// The plain text `so_far` of the sectors before `k`, followed by that of
/// the sectors from `k` on, of which `left` bytes of plain text are still
/// to come: whole sectors of `sector` bytes and a last one with the rest.
/// The first failure among the sectors is the failure of the block.
pub open spec fn sectors_plain(
    payload: Seq<u8>,
    left: int,
    sector: int,
    flagged: bool,
    k: int,
    so_far: Seq<u8>,
) -> Result<Seq<u8>, MpqError>
    decreases left,
    when sector > 0
{
    if left <= 0 {
        Ok(so_far)
    } else {
        let len = if left < sector {
            left
        } else {
            sector
        };
        match sector_plain(payload, len, flagged, k) {
            Ok(plain) => sectors_plain(payload, left - len, sector, flagged, k + 1, so_far + plain),
            Err(e) => Err(e),
        }
    }
}

/// The plain text of a block of several units: its sectors in order.
/// Checksums that may follow the table of offsets are not read.
pub open spec fn multi_unit_plain(payload: Seq<u8>, size: u32, shift: u16, flagged: bool)
    -> Result<Seq<u8>, MpqError> {
    sectors_plain(payload, size as int, sector_size(shift) as int, flagged, 0, Seq::empty())
}

/// The plain text of the block that `block` describes and whose archived
/// bytes are `payload`, or why the entry named `name` cannot be read from
/// it.
pub open spec fn block_plain(block: BlockTableEntry, payload: Seq<u8>, shift: u16, name: Seq<u8>)
    -> Result<Seq<u8>, Failure> {
    let flagged = block.flags & MPQ_FILE_COMPRESS != 0;
    if block.flags & MPQ_FILE_EXISTS == 0 {
        Err(Failure::NotFound(name))
    } else if block.flags & MPQ_FILE_ENCRYPTED != 0 {
        Err(Failure::UnsupportedEncrypted)
    } else if block.archived_size == 0 {
        Ok(Seq::empty())
    } else if block.flags & MPQ_FILE_SINGLE_UNIT != 0 {
        match unit_plain(payload, flagged && block.size > block.archived_size, block.size as int) {
            Ok(plain) => Ok(plain),
            Err(e) => Err(e@),
        }
    } else {
        match multi_unit_plain(payload, block.size, shift, flagged) {
            Ok(plain) => Ok(plain),
            Err(e) => Err(e@),
        }
    }
}

/// A loaded archive: where its file header lies, the header, both
/// directory tables decrypted, and the source they were read from.
pub struct Archive {
    pub header_offset: u32,
    pub header: FileHeader,
    pub hash_table: Vec<HashTableEntry>,
    pub block_table: Vec<BlockTableEntry>,
    pub file: ByteSource,
    pub table: CryptTable,
}

impl Archive {
    /// The plain text of the entry named `name`, or why it cannot be read:
    /// no slot with its two hashes, or a slot that names no block
    /// (`NotFound`); a block that does not lie within the source
    /// (`Truncated`); otherwise what `block_plain` says.
    pub open spec fn contents(&self, name: Seq<u8>) -> Result<Seq<u8>, Failure> {
        let a = string_hash_spec(name, StringHashType::HashA);
        let b = string_hash_spec(name, StringHashType::HashB);
        match find_slot(self.hash_table@, a, b) {
            None => Err(Failure::NotFound(name)),
            Some(slot) => if slot.block_table_index >= self.block_table@.len() {
                Err(Failure::NotFound(name))
            } else {
                let block = self.block_table@[slot.block_table_index as int];
                let start = self.header_offset + block.offset;
                if start + block.archived_size > self.file.data@.len() {
                    Err(Failure::Truncated)
                } else {
                    block_plain(
                        block,
                        self.file.data@.subrange(start, start + block.archived_size),
                        self.header.sector_size_shift,
                        name,
                    )
                }
            },
        }
    }

    /// Loads the archive that `data` holds: finds the file header, then
    /// reads and decrypts both directory tables.
    pub fn load(data: Vec<u8>) -> (out: Result<Archive, MpqError>)
        ensures
            match load_spec(data@) {
                Ok(place) => {
                    &&& out matches Ok(archive)
                    &&& archive.file.data@ == data@
                    &&& archive.header_offset == place
                    &&& archive.header.holds(data@.skip(place + 4))
                    &&& archive.hash_table@ == hash_table_of(
                        data@,
                        place + archive.header.hash_table_offset,
                        archive.header.hash_table_entries as int,
                    )
                    &&& archive.block_table@ == block_table_of(
                        data@,
                        place + archive.header.block_table_offset,
                        archive.header.block_table_entries as int,
                    )
                },
                Err(e) => out matches Err(got) && got == e,
            },
    {
        let table = CryptTable::new();
        let mut file = ByteSource::new(data);
        let (header_off, header) = match read_header(&mut file)? {
            Header::File(header) => (0u32, header),
            Header::UserData(user_header) => {
                let place = user_header.mpq_header_offset;
                proof {
                    assert(data@.skip(4).subrange(4, 8) =~= data@.subrange(8, 12));
                }
                if place as u64 > file.data.len() as u64 {
                    return Err(MpqError::Truncated);
                }
                file.seek(place as usize);
                proof {
                    assert(file.rest() =~= data@.skip(place as int));
                }
                let header = FileHeader::from_reader(&mut file)?;
                proof {
                    assert(data@.skip(place as int).skip(4) =~= data@.skip(place + 4));
                }
                (place, header)
            },
        };
        proof {
            let body = data@.skip(header_off + 4);
            assert(header.holds(body));
        }
        let hash_table = read_hash_table(&table, &mut file, &header, header_off)?;
        let block_table = read_block_table(&table, &mut file, &header, header_off)?;
        Ok(Archive { header_offset: header_off, header, hash_table, block_table, file, table })
    }
}

/// What the first slot of `slots` with the hashes `a` and `b` says.
fn lookup(slots: &Vec<HashTableEntry>, a: u32, b: u32) -> (out: Option<HashTableValue>)
    ensures
        out == find_slot(slots@, a, b),
{
    let mut i: usize = 0;
    proof {
        assert(slots@.skip(0) =~= slots@);
    }
    while i < slots.len()
        invariant
            i <= slots@.len(),
            find_slot(slots@, a, b) == find_slot(slots@.skip(i as int), a, b),
        decreases slots@.len() - i,
    {
        let slot = slots[i];
        proof {
            assert(slots@.skip(i as int)[0] == slots@[i as int]);
            assert(slots@.skip(i as int).skip(1) =~= slots@.skip(i + 1));
        }
        if slot.hash_a == a && slot.hash_b == b {
            return Some(slot.value);
        }
        i = i + 1;
    }
    None
}

/// Decodes one unit of a block and appends its plain text to `output`;
/// nothing is appended where the unit cannot be decoded.
fn read_unit(unit: &[u8], compressed: bool, size: u64, output: &mut Vec<u8>) -> (out: Result<
    (),
    MpqError,
>)
    ensures
        match unit_plain(unit@, compressed, size as int) {
            Ok(plain) => out is Ok && final(output)@ == old(output)@ + plain,
            Err(e) => out == Err::<(), MpqError>(e) && final(output)@ == old(output)@,
        },
{
    if compressed {
        let mut plain: Vec<u8> = Vec::new();
        match decompress(unit, &mut plain) {
            Ok(count) => {
                assert(plain@ =~= decompress_spec(unit@)->Ok_0);
                if count as u64 != size {
                    return Err(MpqError::CorruptCompression);
                }
                append_bytes(output, plain.as_slice());
                Ok(())
            },
            Err(e) => Err(e),
        }
    } else {
        append_bytes(output, unit);
        Ok(())
    }
}

/// The sector size under the header's shift.
fn sector_size_of(shift: u16) -> (sector: u64)
    ensures
        sector == sector_size(shift),
        512 <= sector <= 0x1_0000_0000,
{
    let capped: u16 = if shift < 23 {
        shift
    } else {
        23
    };
    let sector: u64 = 512u64 << capped;
    assert(512 <= 512u64 << capped <= 0x1_0000_0000) by (bit_vector)
        requires
            capped <= 23,
    ;
    sector
}

/// Decodes the sectors of a block of several units in order and appends
/// their plain text to `output`. Where a sector fails, the plain text of
/// the sectors before it stays in `output`.
fn read_sectors(payload: &[u8], size: u32, shift: u16, flagged: bool, output: &mut Vec<u8>) -> (out:
    Result<(), MpqError>)
    ensures
        match multi_unit_plain(payload@, size, shift, flagged) {
            Ok(plain) => out is Ok && final(output)@ == old(output)@ + plain,
            Err(e) => out == Err::<(), MpqError>(e),
        },
{
    let sector: u64 = sector_size_of(shift);
    let total: usize = payload.len();
    let mut left: u64 = size as u64;
    let mut k: usize = 0;
    let ghost mut done: Seq<u8> = Seq::empty();
    proof {
        assert(old(output)@ + done =~= old(output)@);
    }
    while left > 0
        invariant
            total == payload@.len(),
            sector == sector_size(shift),
            512 <= sector <= 0x1_0000_0000,
            left <= size,
            4 * k <= total,
            output@ == old(output)@ + done,
            multi_unit_plain(payload@, size, shift, flagged) == sectors_plain(
                payload@,
                left as int,
                sector as int,
                flagged,
                k as int,
                done,
            ),
        decreases left,
    {
        let len: u64 = if left < sector {
            left
        } else {
            sector
        };
        if total < 8 || k > (total - 8) / 4 {
            return Err(MpqError::Truncated);
        }
        let start: u32 = u32_le_at(payload, 4 * k);
        let end: u32 = u32_le_at(payload, 4 * k + 4);
        if start > end {
            return Err(MpqError::CorruptCompression);
        }
        if end as u64 > total as u64 {
            return Err(MpqError::Truncated);
        }
        let unit = slice_subrange(payload, start as usize, end as usize);
        let compressed = flagged && ((end - start) as u64) < len;
        let ghost before = output@;
        match read_unit(unit, compressed, len, output) {
            Ok(_) => {},
            Err(e) => {
                return Err(e);
            },
        }
        proof {
            let plain = sector_plain(payload@, len as int, flagged, k as int)->Ok_0;
            assert(output@ == before + plain);
            assert(old(output)@ + (done + plain) =~= before + plain);
            done = done + plain;
        }
        left = left - len;
        k = k + 1;
    }
    Ok(())
}

impl Archive {
    /// What the hash table says of the name with the hashes `hash_a` and
    /// `hash_b`: the value of the first slot that holds both.
    pub fn hash_entry(&self, hash_a: u32, hash_b: u32) -> (out: Option<HashTableValue>)
        ensures
            out == find_slot(self.hash_table@, hash_a, hash_b),
    {
        lookup(&self.hash_table, hash_a, hash_b)
    }

    /// Reads the entry named `filename` and appends its plain text to
    /// `into`. Gives the number of bytes appended; on a failure nothing is
    /// appended. The archive itself stays as it was, but for the read
    /// position of its source.
    pub fn read_file(&mut self, filename: &[u8], into: &mut Vec<u8>) -> (out: Result<
        usize,
        MpqError,
    >)
        ensures
            final(self).header_offset == old(self).header_offset,
            final(self).header == old(self).header,
            final(self).hash_table@ == old(self).hash_table@,
            final(self).block_table@ == old(self).block_table@,
            final(self).file.data@ == old(self).file.data@,
            match old(self).contents(filename@) {
                Ok(plain) => {
                    &&& out matches Ok(count) && count == plain.len()
                    &&& final(into)@ == old(into)@ + plain
                },
                Err(failure) => out matches Err(e) && e@ == failure && final(into)@ == old(into)@,
            },
    {
        let hash_a = string_hash(&self.table, filename, StringHashType::HashA);
        let hash_b = string_hash(&self.table, filename, StringHashType::HashB);
        let slot = match lookup(&self.hash_table, hash_a, hash_b) {
            Some(slot) => slot,
            None => {
                return Err(MpqError::NotFound(slice_to_vec(filename)));
            },
        };
        if slot.block_table_index as u64 >= self.block_table.len() as u64 {
            return Err(MpqError::NotFound(slice_to_vec(filename)));
        }
        let block = self.block_table[slot.block_table_index as usize];
        let data_offset: u64 = self.header_offset as u64 + block.offset as u64;
        let total: u64 = self.file.data.len() as u64;
        if data_offset > total || block.archived_size as u64 > total - data_offset {
            return Err(MpqError::Truncated);
        }
        self.file.seek(data_offset as usize);
        let mut file_data = zeroed(block.archived_size as usize);
        match read_exact(&mut self.file, &mut file_data) {
            Ok(_) => {},
            Err(e) => {
                return Err(e);
            },
        }
        proof {
            assert(file_data@ =~= self.file.data@.subrange(
                data_offset as int,
                data_offset + block.archived_size,
            ));
        }
        if (block.flags & MPQ_FILE_EXISTS) == 0 {
            return Err(MpqError::NotFound(slice_to_vec(filename)));
        }
        if (block.flags & MPQ_FILE_ENCRYPTED) != 0 {
            return Err(MpqError::UnsupportedEncrypted);
        }
        if block.archived_size == 0 {
            proof {
                assert(into@ + Seq::<u8>::empty() =~= into@);
            }
            return Ok(0);
        }
        let flagged = (block.flags & MPQ_FILE_COMPRESS) != 0;
        let mut plain: Vec<u8> = Vec::new();
        if (block.flags & MPQ_FILE_SINGLE_UNIT) == 0 {
            match read_sectors(
                file_data.as_slice(),
                block.size,
                self.header.sector_size_shift,
                flagged,
                &mut plain,
            ) {
                Ok(_) => {},
                Err(e) => {
                    return Err(e);
                },
            }
        } else {
            let is_compressed = flagged && block.size > block.archived_size;
            match read_unit(file_data.as_slice(), is_compressed, block.size as u64, &mut plain) {
                Ok(_) => {},
                Err(e) => {
                    return Err(e);
                },
            }
        }
        proof {
            assert(plain@ =~= old(self).contents(filename@)->Ok_0);
        }
        append_bytes(into, plain.as_slice());
        Ok(plain.len())
    }
}

} // verus!
