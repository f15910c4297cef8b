//! Reading a BSP level: its header, the bytes of its lumps, and the
//! entities that one of the lumps holds as map text.

use crate::bsp::repr::{bad_version, head_entry, head_version, Entry, EntryOffset, Head, HeadView,
    BSP2_VERSION, BSP_VERSION, HEAD_SIZE};
use crate::common::{slice_to_cstring, until_nul, ByteReader, ByteReaderView};
use crate::error::{BinParse, BinParseView, TextParse, TextParseView};
use crate::qmap::parser::{parse, parse_spec};
use crate::qmap::repr::QuakeMap;
use vstd::prelude::*;

verus! {

/// The message for a lump that begins behind the largest position.
pub open spec fn bad_offset() -> Seq<char> {
    "Bad offset"@
}

/// The bytes of the lump `entry` in a level that begins at `start` in
/// `data`: those that are there, and no more than the entry's length.
pub open spec fn lump_bytes(data: Seq<u8>, start: u64, entry: Entry) -> Seq<u8> {
    let from = ByteReaderView { data, position: (start + entry.offset) as u64 }.remaining();
    if entry.length <= from.len() {
        from.take(entry.length as int)
    } else {
        from
    }
}

/// What reading the entities of a level returns, whose lump of entities
/// holds `lump`: the map that the bytes before the first NUL byte stand
/// for, or the error of the map's text as a message.
pub open spec fn entities_read(r: Result<QuakeMap, BinParse>, lump: Seq<u8>) -> bool {
    match parse_spec(until_nul(lump)) {
        Ok(map) => r matches Ok(read) && read@ == map,
        Err(e) => r matches Err(error) && (match e {
            TextParseView::Lexer(line) => error@ == BinParseView::Parse(line.shown()),
            TextParseView::Parser(line) => error@ == BinParseView::Parse(line.shown()),
            TextParseView::Io(_) => error is Io,
        }),
    }
}

/// A BSP level in memory, with its header read.
#[derive(Debug)]
pub struct Parser<'a> {
    cursor: ByteReader<'a>,
    start: u64,
    header: Head,
}

impl<'a> Parser<'a> {
    /// The bytes that hold the level.
    pub closed spec fn data(&self) -> Seq<u8> {
        self.cursor@.data
    }

    /// Where the level begins in its bytes.
    pub closed spec fn start(&self) -> u64 {
        self.start
    }

    /// The header of the level.
    pub closed spec fn head(&self) -> HeadView {
        self.header@
    }

    /// Reads the header of the level that begins where `cursor` stands.
    pub fn new(cursor: ByteReader<'a>) -> (r: Result<Parser<'a>, BinParse>)
        ensures
            ({
                let rest = cursor@.remaining();
                if rest.len() < HEAD_SIZE {
                    r matches Err(e) && e is Io
                } else if head_version(rest) != BSP_VERSION && head_version(rest) != BSP2_VERSION {
                    r matches Err(e) && e@ == BinParseView::Parse(bad_version(rest))
                } else {
                    &&& r matches Ok(parser)
                    &&& parser.data() == cursor@.data
                    &&& parser.start() == cursor@.position
                    &&& parser.head().version == head_version(rest)
                    &&& parser.head().entries.len() == 15
                    &&& forall|i: int|
                        0 <= i < 15 ==> #[trigger] parser.head().entries[i] == head_entry(rest, i)
                }
            }),
    {
        let mut cursor = cursor;
        let ghost rest = cursor@.remaining();
        let start = cursor.stream_position();
        let header_bytes = match cursor.read_exact(HEAD_SIZE) {
            Err(e) => {
                return Err(BinParse::Io(e));
            },
            Ok(bytes) => bytes,
        };
        proof {
            assert(header_bytes@.subrange(0, 4) =~= rest.subrange(0, 4));
            assert forall|i: int| 0 <= i < 15 implies head_entry(header_bytes@, i) == head_entry(
                rest,
                i,
            ) by {
                assert(header_bytes@.subrange(4 + 8 * i, 8 + 8 * i) =~= rest.subrange(
                    4 + 8 * i,
                    8 + 8 * i,
                ));
                assert(header_bytes@.subrange(8 + 8 * i, 12 + 8 * i) =~= rest.subrange(
                    8 + 8 * i,
                    12 + 8 * i,
                ));
            }
            assert(bad_version(header_bytes@) == bad_version(rest));
        }
        let header = match Head::from_slice(header_bytes) {
            Err(e) => {
                return Err(e);
            },
            Ok(header) => header,
        };
        Ok(Parser { cursor, start, header })
    }

    pub fn version(&self) -> (r: u32)
        ensures
            r == self.head().version,
    {
        self.header.version()
    }

    /// A reader over the bytes of the lump `entry_offset`.
    pub fn lump_reader(&mut self, entry_offset: EntryOffset) -> (r: Result<ByteReader<'a>, BinParse>)
        ensures
            final(self).data() == old(self).data(),
            final(self).start() == old(self).start(),
            final(self).head() == old(self).head(),
            ({
                let entry = old(self).head().entries[entry_offset.index() as int];
                if old(self).start() + entry.offset > u64::MAX {
                    r matches Err(e) && e@ == BinParseView::Parse(bad_offset())
                } else {
                    &&& r matches Ok(reader)
                    &&& reader@.position == 0
                    &&& reader@.data == lump_bytes(old(self).data(), old(self).start(), entry)
                }
            }),
    {
        let entry = self.header.entry(entry_offset);
        let abs_offset = match self.start.checked_add(entry.offset as u64) {
            None => {
                return Err(BinParse::Parse(String::from_str("Bad offset")));
            },
            Some(position) => position,
        };
        self.cursor.seek(abs_offset);
        Ok(self.cursor.take(entry.length as u64))
    }

    /// Whether the lump `offset` has no bytes.
    pub fn lump_empty(&self, offset: EntryOffset) -> (r: bool)
        ensures
            r == (self.head().entries[offset.index() as int].length == 0),
    {
        let length = self.header.entry(offset).length;
        length == 0
    }

    /// Reads the entities of the level: the map that the lump of entities
    /// holds as text, up to its first NUL byte.
    pub fn parse_entities(&mut self) -> (r: Result<QuakeMap, BinParse>)
        ensures
            final(self).data() == old(self).data(),
            final(self).start() == old(self).start(),
            final(self).head() == old(self).head(),
            ({
                let entry = old(self).head().entries[0];
                if old(self).start() + entry.offset > u64::MAX {
                    r matches Err(e) && e@ == BinParseView::Parse(bad_offset())
                } else {
                    entities_read(r, lump_bytes(old(self).data(), old(self).start(), entry))
                }
            }),
    {
        let lump = match self.lump_reader(EntryOffset::Entities) {
            Err(e) => {
                return Err(e);
            },
            Ok(lump) => lump,
        };
        let text = slice_to_cstring(lump.remaining());
        proof {
            assert(lump@.remaining() =~= lump@.data);
        }
        parse_entities_text(text.as_bytes().as_slice())
    }
}

/// Reads the map that `text` holds, and gives the error of the text as a
/// message.
pub fn parse_entities_text(text: &[u8]) -> (r: Result<QuakeMap, BinParse>)
    ensures
        match parse_spec(text@) {
            Ok(map) => r matches Ok(read) && read@ == map,
            Err(e) => r matches Err(error) && (match e {
                TextParseView::Lexer(line) => error@ == BinParseView::Parse(line.shown()),
                TextParseView::Parser(line) => error@ == BinParseView::Parse(line.shown()),
                TextParseView::Io(_) => error is Io,
            }),
        },
{
    match parse(text) {
        Ok(map) => Ok(map),
        Err(TextParse::Io(e)) => Err(BinParse::Io(e)),
        Err(e) => {
            let message = e.to_string();
            Err(BinParse::Parse(message))
        },
    }
}

} // verus!
