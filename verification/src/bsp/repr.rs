//! The header of a BSP level.

use crate::common::{le_u32, read_le_u32};
use crate::error::{BinParse, BinParseView};
use crate::text::{decimal, push_decimal};
use vstd::prelude::*;

verus! {

/// The version of the levels of the game as it came out.
pub const BSP_VERSION: u32 = 29;

/// The version of the levels without the old limits: the bytes `BSP2`
/// read as a number.
pub const BSP2_VERSION: u32 = 0x3250_5342;

/// The number of lumps that the header lists.
pub const ENTRY_COUNT: usize = 15;

/// The size of the header in bytes.
pub const HEAD_SIZE: usize = 124;

/// The lumps of a level, in the order of the header.
#[derive(Clone, Copy, Debug, PartialEq, Eq, Structural)]
pub enum EntryOffset {
    Entities,
    Planes,
    Textures,
    Vertices,
    Vis,
    Nodes,
    TexInfo,
    Faces,
    Light,
    ClipNodes,
    Leaves,
    MarkSurfaces,
    Edges,
    SurfEdges,
    Models,
}

impl EntryOffset {
    /// The place of the lump in the header.
    pub open spec fn index(self) -> usize {
        match self {
            EntryOffset::Entities => 0,
            EntryOffset::Planes => 1,
            EntryOffset::Textures => 2,
            EntryOffset::Vertices => 3,
            EntryOffset::Vis => 4,
            EntryOffset::Nodes => 5,
            EntryOffset::TexInfo => 6,
            EntryOffset::Faces => 7,
            EntryOffset::Light => 8,
            EntryOffset::ClipNodes => 9,
            EntryOffset::Leaves => 10,
            EntryOffset::MarkSurfaces => 11,
            EntryOffset::Edges => 12,
            EntryOffset::SurfEdges => 13,
            EntryOffset::Models => 14,
        }
    }
}

impl From<EntryOffset> for usize {
    fn from(offset: EntryOffset) -> (r: usize) {
        match offset {
            EntryOffset::Entities => 0,
            EntryOffset::Planes => 1,
            EntryOffset::Textures => 2,
            EntryOffset::Vertices => 3,
            EntryOffset::Vis => 4,
            EntryOffset::Nodes => 5,
            EntryOffset::TexInfo => 6,
            EntryOffset::Faces => 7,
            EntryOffset::Light => 8,
            EntryOffset::ClipNodes => 9,
            EntryOffset::Leaves => 10,
            EntryOffset::MarkSurfaces => 11,
            EntryOffset::Edges => 12,
            EntryOffset::SurfEdges => 13,
            EntryOffset::Models => 14,
        }
    }
}

impl vstd::std_specs::convert::FromSpecImpl<EntryOffset> for usize {
    open spec fn obeys_from_spec() -> bool {
        true
    }

    open spec fn from_spec(offset: EntryOffset) -> usize {
        offset.index()
    }
}

/// Where a lump lies in the level, and how long it is.
#[derive(Clone, Copy, Debug, PartialEq, Eq, Structural)]
pub struct Entry {
    pub offset: u32,
    pub length: u32,
}

/// The header of a level: its version and its fifteen lumps.
#[derive(Clone, Copy, Debug, PartialEq, Eq)]
pub struct Head {
    version: u32,
    entries: [Entry; 15],
}

/// What a `Head` holds, as contracts see it.
pub struct HeadView {
    pub version: u32,
    pub entries: Seq<Entry>,
}

impl View for Head {
    type V = HeadView;

    closed spec fn view(&self) -> HeadView {
        HeadView { version: self.version, entries: self.entries@ }
    }
}

/// The version that the bytes of a header give.
pub open spec fn head_version(bytes: Seq<u8>) -> u32 {
    le_u32(bytes.subrange(0, 4))
}

/// The lump in place `index` that the bytes of a header give.
pub open spec fn head_entry(bytes: Seq<u8>, index: int) -> Entry {
    Entry {
        offset: le_u32(bytes.subrange(4 + 8 * index, 8 + 8 * index)),
        length: le_u32(bytes.subrange(8 + 8 * index, 12 + 8 * index)),
    }
}

/// Four bytes as a list of numbers between square brackets.
pub open spec fn shown_bytes(bytes: Seq<u8>) -> Seq<char> {
    "["@ + decimal(bytes[0] as nat) + ", "@ + decimal(bytes[1] as nat) + ", "@ + decimal(
        bytes[2] as nat,
    ) + ", "@ + decimal(bytes[3] as nat) + "]"@
}

/// The message for a version that is none of the two known ones.
pub open spec fn bad_version(bytes: Seq<u8>) -> Seq<char> {
    "Unrecognized BSP version "@ + decimal(head_version(bytes) as nat) + " ("@ + shown_bytes(
        bytes.subrange(0, 4),
    ) + ")"@
}

/// What reading a header from `bytes` returns.
pub open spec fn head_reads(r: Result<Head, BinParse>, bytes: Seq<u8>) -> bool {
    if head_version(bytes) == BSP_VERSION || head_version(bytes) == BSP2_VERSION {
        &&& r matches Ok(head)
        &&& head@.version == head_version(bytes)
        &&& head@.entries.len() == 15
        &&& forall|i: int| 0 <= i < 15 ==> #[trigger] head@.entries[i] == head_entry(bytes, i)
    } else {
        r matches Err(e) && e@ == BinParseView::Parse(bad_version(bytes))
    }
}

impl Head {
    /// The lump `offset`.
    pub fn entry(&self, offset: EntryOffset) -> (r: Entry)
        ensures
            r == self@.entries[offset.index() as int],
    {
        let idx: usize = offset.into();
        self.entries[idx]
    }

    pub fn version(&self) -> (r: u32)
        ensures
            r == self@.version,
    {
        self.version
    }

    /// The header that 124 bytes hold. The version must be one of the two
    /// known ones.
    pub fn try_from(bytes: [u8; 124]) -> (r: Result<Head, BinParse>)
        ensures
            head_reads(r, bytes@),
    {
        Head::from_slice(bytes.as_slice())
    }

    /// As `try_from`, of the first 124 bytes of a slice.
    pub fn from_slice(bytes: &[u8]) -> (r: Result<Head, BinParse>)
        requires
            bytes@.len() >= 124,
        ensures
            head_reads(r, bytes@),
    {
        let version = read_le_u32(bytes, 0);
        if version != BSP_VERSION && version != BSP2_VERSION {
            let mut message = String::from_str("Unrecognized BSP version ");
            push_decimal(&mut message, version as u64);
            message.append(" (");
            message.append("[");
            push_decimal(&mut message, bytes[0] as u64);
            message.append(", ");
            push_decimal(&mut message, bytes[1] as u64);
            message.append(", ");
            push_decimal(&mut message, bytes[2] as u64);
            message.append(", ");
            push_decimal(&mut message, bytes[3] as u64);
            message.append("]");
            message.append(")");
            proof {
                assert(message@ =~= bad_version(bytes@));
            }
            return Err(BinParse::Parse(message));
        }
        let mut entries: [Entry; 15] = [Entry { offset: 0, length: 0 };15];
        let mut idx: usize = 0;
        while idx < ENTRY_COUNT
            invariant
                idx <= 15,
                bytes@.len() >= 124,
                forall|i: int| 0 <= i < idx ==> #[trigger] entries@[i] == head_entry(bytes@, i),
            decreases 15 - idx,
        {
            let entry = Entry {
                offset: read_le_u32(bytes, 4 + 8 * idx),
                length: read_le_u32(bytes, 8 + 8 * idx),
            };
            entries[idx] = entry;
            idx += 1;
        }
        Ok(Head { version, entries })
    }
}

} // verus!
