//! The header of a WAD archive and the entries of its directory.

use crate::common::{le_u32, read_array, read_le_u32, slice_to_cstring, until_nul, Junk};
use crate::error::{BinParse, BinParseView};
use crate::text::Text;
use vstd::prelude::*;

verus! {

/// The four bytes that a WAD archive begins with: `WAD2`.
pub const MAGIC: [u8; 4] = [0x57, 0x41, 0x44, 0x32];

/// The size of the header in bytes.
pub const HEAD_SIZE: usize = 12;

/// The size of an entry of the directory in bytes.
pub const ENTRY_SIZE: usize = 32;

/// The bytes `WAD2`.
pub open spec fn magic() -> Seq<u8> {
    seq![0x57u8, 0x41, 0x44, 0x32]
}

/// The header of a WAD archive.
#[derive(Clone, Copy, PartialEq, Eq, Debug)]
pub struct Head {
    magic: [u8; 4],
    entry_count: u32,
    directory_offset: u32,
}

impl Head {
    /// The number of entries in the directory.
    pub closed spec fn entries(self) -> u32 {
        self.entry_count
    }

    /// Where the directory begins, counted from the start of the archive.
    pub closed spec fn directory(self) -> u32 {
        self.directory_offset
    }

    pub fn new(entry_count: u32, directory_offset: u32) -> (r: Head)
        ensures
            r.entries() == entry_count,
            r.directory() == directory_offset,
    {
        Head { magic: MAGIC, entry_count, directory_offset }
    }

    pub fn entry_count(&self) -> (r: u32)
        ensures
            r == self.entries(),
    {
        self.entry_count
    }

    pub fn directory_offset(&self) -> (r: u32)
        ensures
            r == self.directory(),
    {
        self.directory_offset
    }

    /// The header that twelve bytes hold. They must begin with `WAD2`.
    pub fn try_from(bytes: [u8; 12]) -> (r: Result<Head, BinParse>)
        ensures
            head_reads(r, bytes@),
    {
        Head::from_slice(bytes.as_slice())
    }

    /// As `try_from`, of the first twelve bytes of a slice.
    pub fn from_slice(bytes: &[u8]) -> (r: Result<Head, BinParse>)
        requires
            bytes@.len() >= 12,
        ensures
            head_reads(r, bytes@),
    {
        let mut i: usize = 0;
        while i < 4
            invariant
                i <= 4,
                bytes@.len() >= 12,
                forall|j: int| 0 <= j < i ==> bytes@[j] == magic()[j],
            decreases 4 - i,
        {
            if bytes[i] != MAGIC[i] {
                proof {
                    assert(bytes@.subrange(0, 4)[i as int] != magic()[i as int]);
                }
                return Err(
                    BinParse::Parse(String::from_str("Magic number does not match `WAD2`")),
                );
            }
            i += 1;
        }
        proof {
            assert(bytes@.subrange(0, 4) =~= magic());
        }
        let entry_count = read_le_u32(bytes, 4);
        let directory_offset = read_le_u32(bytes, 8);
        Ok(Head::new(entry_count, directory_offset))
    }
}

/// The message for bytes that do not begin as a WAD archive does.
pub open spec fn bad_magic() -> Seq<char> {
    "Magic number does not match `WAD2`"@
}

/// What reading a header from `bytes` returns.
pub open spec fn head_reads(r: Result<Head, BinParse>, bytes: Seq<u8>) -> bool {
    if bytes.subrange(0, 4) == magic() {
        &&& r matches Ok(head)
        &&& head.entries() == le_u32(bytes.subrange(4, 8))
        &&& head.directory() == le_u32(bytes.subrange(8, 12))
    } else {
        r matches Err(e) && e@ == BinParseView::Parse(bad_magic())
    }
}

/// What an entry is made of.
#[derive(Debug, Clone, PartialEq, Eq)]
pub struct EntryConfig {
    pub offset: u32,
    pub length: u32,
    pub lump_kind: u8,
    pub name: [u8; 16],
}

/// An entry of the directory: where a lump lies in the archive, how long
/// it is, its name of sixteen bytes, and its kind.
#[derive(Clone, Copy, PartialEq, Eq, Debug)]
pub struct Entry {
    offset: u32,
    length: u32,
    uncompressed_length: u32,
    lump_kind: u8,
    compression: u8,
    _padding: Junk<u16>,
    name: [u8; 16],
}

/// What an `Entry` holds, as contracts see it.
pub struct EntryView {
    pub offset: u32,
    pub length: u32,
    pub lump_kind: u8,
    pub name: Seq<u8>,
}

impl View for Entry {
    type V = EntryView;

    closed spec fn view(&self) -> EntryView {
        EntryView {
            offset: self.offset,
            length: self.length,
            lump_kind: self.lump_kind,
            name: self.name@,
        }
    }
}

impl DeepView for Entry {
    type V = EntryView;

    open spec fn deep_view(&self) -> EntryView {
        self@
    }
}

/// The message for an entry whose lump is compressed.
pub open spec fn compressed() -> Seq<char> {
    "Compression is unsupported"@
}

/// What reading an entry from `bytes` returns.
pub open spec fn entry_reads(r: Result<Entry, BinParse>, bytes: Seq<u8>) -> bool {
    if bytes[13] == 0 {
        &&& r matches Ok(entry)
        &&& entry@ == (EntryView {
            offset: le_u32(bytes.subrange(0, 4)),
            length: le_u32(bytes.subrange(4, 8)),
            lump_kind: bytes[12],
            name: bytes.subrange(16, 32),
        })
    } else {
        r matches Err(e) && e@ == BinParseView::Parse(compressed())
    }
}

impl Entry {
    /// The entry of an uncompressed lump.
    pub fn new(config: EntryConfig) -> (r: Entry)
        ensures
            r@ == (EntryView {
                offset: config.offset,
                length: config.length,
                lump_kind: config.lump_kind,
                name: config.name@,
            }),
    {
        Entry::from_config(config)
    }

    /// The entry of an uncompressed lump.
    pub fn from_config(config: EntryConfig) -> (r: Entry)
        ensures
            r@ == (EntryView {
                offset: config.offset,
                length: config.length,
                lump_kind: config.lump_kind,
                name: config.name@,
            }),
    {
        Entry {
            offset: config.offset,
            length: config.length,
            uncompressed_length: config.length,
            lump_kind: config.lump_kind,
            compression: 0u8,
            _padding: Junk::default(),
            name: config.name,
        }
    }

    /// The name up to its first NUL byte.
    pub fn name_to_cstring(&self) -> (r: Text)
        ensures
            r@ == until_nul(self@.name),
    {
        slice_to_cstring(self.name.as_slice())
    }

    /// The name up to its first NUL byte as a string, if it is UTF-8.
    pub fn name_to_string(&self) -> (r: Result<String, std::string::FromUtf8Error>)
        ensures
            r is Ok <==> vstd::utf8::valid_utf8(until_nul(self@.name)),
            r matches Ok(s) ==> s@ == vstd::utf8::decode_utf8(until_nul(self@.name)),
    {
        crate::common::string_from_utf8(self.name_to_cstring().into_bytes())
    }

    /// The sixteen bytes of the name.
    pub fn name(&self) -> (r: [u8; 16])
        ensures
            r@ == self@.name,
    {
        self.name
    }

    /// Where the lump begins, counted from the start of the archive.
    pub fn offset(&self) -> (r: u32)
        ensures
            r == self@.offset,
    {
        self.offset
    }

    /// The length of the lump in bytes.
    pub fn length(&self) -> (r: u32)
        ensures
            r == self@.length,
    {
        self.length
    }

    /// The kind of the lump, as a byte.
    pub fn kind(&self) -> (r: u8)
        ensures
            r == self@.lump_kind,
    {
        self.lump_kind
    }

    /// The entry that 32 bytes hold. A compressed lump is not taken.
    pub fn try_from(bytes: [u8; 32]) -> (r: Result<Entry, BinParse>)
        ensures
            entry_reads(r, bytes@),
    {
        Entry::from_slice(bytes.as_slice())
    }

    /// As `try_from`, of the first 32 bytes of a slice.
    pub fn from_slice(bytes: &[u8]) -> (r: Result<Entry, BinParse>)
        requires
            bytes@.len() >= 32,
        ensures
            entry_reads(r, bytes@),
    {
        let offset = read_le_u32(bytes, 0);
        let length = read_le_u32(bytes, 4);
        let lump_kind = bytes[12];
        let compression = bytes[13];
        if compression != 0 {
            return Err(BinParse::Parse(String::from_str("Compression is unsupported")));
        }
        let name: [u8; 16] = read_array(bytes, 16);
        Ok(Entry::from_config(EntryConfig { offset, length, lump_kind, name }))
    }
}

} // verus!
