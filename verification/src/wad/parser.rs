//! Reading a WAD archive: its directory, and the lumps that the entries of
//! the directory point to.

use crate::common::{le_u32, until_nul, ByteReader, ByteReaderView, Palette, PALETTE_SIZE};
use crate::error::{BinParse, BinParseView};
use crate::lump::kind;
use crate::lump::parse::{
    bytes_from, image_fails, image_reads, image_there, is_io, is_parse_error, palette_of,
    palette_reads, parse_image, parse_mip_texture, parse_palette, raw_reads, read_raw,
    texture_fails, texture_of, texture_reads, texture_there,
};
use crate::lump::repr::{image_of, Image, Lump, LumpView, MipTexture};
use crate::lump::parse::{image_height, image_width};
use crate::wad::repr::{
    bad_magic, compressed, magic, Entry, EntryView, Head, ENTRY_SIZE, HEAD_SIZE,
};
use vstd::prelude::*;

verus! {

/// The message for a place in the archive that lies behind the largest
/// position.
pub open spec fn offset_too_large() -> Seq<char> {
    "Offset too large"@
}

/// The message for an entry whose name is no UTF-8.
pub open spec fn bad_name() -> Seq<char> {
    "C string contained non-utf8 bytes"@
}

/// The entry that the 32 bytes from `position` on hold.
pub open spec fn entry_at(data: Seq<u8>, position: int) -> EntryView {
    let bytes = bytes_from(data, position);
    EntryView {
        offset: le_u32(bytes.subrange(0, 4)),
        length: le_u32(bytes.subrange(4, 8)),
        lump_kind: bytes[12],
        name: bytes.subrange(16, 32),
    }
}

/// The name of an entry as a string: its bytes up to the first NUL byte.
pub open spec fn entry_name(entry: EntryView) -> Seq<char> {
    vstd::utf8::decode_utf8(until_nul(entry.name))
}

/// Whether the bytes from `position` on hold an entry that the directory
/// takes: all of its 32 bytes, no compression, and a name in UTF-8.
pub open spec fn entry_fine(data: Seq<u8>, position: int) -> bool {
    let bytes = bytes_from(data, position);
    &&& bytes.len() >= ENTRY_SIZE
    &&& bytes[13] == 0
    &&& vstd::utf8::valid_utf8(until_nul(bytes.subrange(16, 32)))
}

/// What reading the directory returns for the first entry that it does
/// not take, which begins at `position`.
pub open spec fn entry_fails<T>(r: Result<T, BinParse>, data: Seq<u8>, position: int) -> bool {
    let bytes = bytes_from(data, position);
    if bytes.len() < ENTRY_SIZE {
        is_io(r)
    } else if bytes[13] != 0 {
        is_parse_error(r, compressed())
    } else {
        is_parse_error(r, bad_name())
    }
}

/// Does one of `entries` have the name `name`?
pub open spec fn has_name(entries: Seq<(Seq<char>, EntryView)>, name: Seq<char>) -> bool {
    exists|j: int| 0 <= j < entries.len() && (#[trigger] entries[j]).0 == name
}

/// The directory that the first `n` entries from `position` on make: each
/// entry under its name, but for those whose name an earlier entry has.
pub open spec fn listed(data: Seq<u8>, position: int, n: int) -> Seq<(Seq<char>, EntryView)>
    decreases n,
{
    if n <= 0 {
        Seq::empty()
    } else {
        let before = listed(data, position, n - 1);
        let entry = entry_at(data, position + ENTRY_SIZE * (n - 1));
        if has_name(before, entry_name(entry)) {
            before
        } else {
            before.push((entry_name(entry), entry))
        }
    }
}

/// The warning for an entry that is left out.
pub open spec fn duplicate_warning(name: Seq<char>) -> Seq<char> {
    "Skipping duplicate entry for `"@ + name + "`"@
}

/// The warnings for those of the first `n` entries from `position` on
/// whose name an earlier entry has.
pub open spec fn skipped(data: Seq<u8>, position: int, n: int) -> Seq<Seq<char>>
    decreases n,
{
    if n <= 0 {
        Seq::empty()
    } else {
        let before = listed(data, position, n - 1);
        let entry = entry_at(data, position + ENTRY_SIZE * (n - 1));
        if has_name(before, entry_name(entry)) {
            skipped(data, position, n - 1).push(duplicate_warning(entry_name(entry)))
        } else {
            skipped(data, position, n - 1)
        }
    }
}

/// How many entries the header says that the directory has, which
/// stands where the reader `reader` does.
pub open spec fn directory_count(reader: ByteReaderView) -> int {
    le_u32(reader.remaining().subrange(4, 8)) as int
}

/// Where the header says that the directory begins, of the archive that
/// begins at `start`.
pub open spec fn directory_position(reader: ByteReaderView, start: u64) -> int {
    start + le_u32(reader.remaining().subrange(8, 12))
}

/// Whether a directory is there to be read: a header that begins as a WAD
/// archive does, a place for the directory that is a position, and there
/// as many entries as the header says, each of them fine.
pub open spec fn directory_there(reader: ByteReaderView, start: u64) -> bool {
    &&& reader.remaining().len() >= HEAD_SIZE
    &&& reader.remaining().subrange(0, 4) == magic()
    &&& directory_position(reader, start) <= u64::MAX
    &&& forall|i: int|
        0 <= i < directory_count(reader) ==> entry_fine(
            reader.data,
            #[trigger] (directory_position(reader, start) + ENTRY_SIZE * i),
        )
}

/// What reading the directory returns where none is there: the error of
/// bytes that end too early where the header is cut off, that of a header
/// that begins otherwise, that of a directory behind the largest position,
/// or that of the first entry that is not fine.
pub open spec fn directory_fails<T>(r: Result<T, BinParse>, reader: ByteReaderView, start: u64) -> bool {
    let position = directory_position(reader, start);
    if reader.remaining().len() < HEAD_SIZE {
        is_io(r)
    } else if reader.remaining().subrange(0, 4) != magic() {
        is_parse_error(r, bad_magic())
    } else if position > u64::MAX {
        is_parse_error(r, offset_too_large())
    } else {
        exists|i: int|
            0 <= i < directory_count(reader) && !entry_fine(
                reader.data,
                #[trigger] (position + ENTRY_SIZE * i),
            ) && (forall|k: int|
                0 <= k < i ==> entry_fine(reader.data, #[trigger] (position + ENTRY_SIZE * k)))
                && entry_fails(r, reader.data, position + ENTRY_SIZE * i)
    }
}

/// What reading the directory returns, of the archive that begins at
/// `start` and whose header stands where the reader `reader` does: the
/// directory and the warnings, or the error.
pub open spec fn directory_reads(
    r: Result<(Vec<(String, Entry)>, Vec<String>), BinParse>,
    reader: ByteReaderView,
    start: u64,
) -> bool {
    if directory_there(reader, start) {
        &&& r matches Ok((entries, warnings))
        &&& entries.deep_view() == listed(
            reader.data,
            directory_position(reader, start),
            directory_count(reader),
        )
        &&& warnings.deep_view() == skipped(
            reader.data,
            directory_position(reader, start),
            directory_count(reader),
        )
    } else {
        directory_fails(r, reader, start)
    }
}

/// The place of the name `name` in `entries`, if it is there.
fn find_name(entries: &Vec<(String, Entry)>, name: &String) -> (r: Option<usize>)
    ensures
        r is Some <==> has_name(entries.deep_view(), name@),
        r matches Some(j) ==> j < entries@.len() && entries.deep_view()[j as int].0 == name@,
{
    let mut j: usize = 0;
    while j < entries.len()
        invariant
            j <= entries@.len(),
            forall|k: int| 0 <= k < j ==> (#[trigger] entries.deep_view()[k]).0 != name@,
        decreases entries@.len() - j,
    {
        if entries[j].0 == *name {
            assert(entries.deep_view()[j as int].0 == name@);
            return Some(j);
        }
        j += 1;
    }
    None
}

/// Reads the header where `cursor` stands and then the directory of the
/// archive that begins at `start`. An entry whose name an earlier entry
/// has is left out, with a warning.
pub fn parse_directory(cursor: &mut ByteReader, start: u64) -> (r: Result<
    (Vec<(String, Entry)>, Vec<String>),
    BinParse,
>)
    ensures
        final(cursor)@.data == old(cursor)@.data,
        directory_reads(r, old(cursor)@, start),
{
    let ghost data = cursor@.data;
    let ghost rest = cursor@.remaining();
    let header_bytes = match cursor.read_exact(HEAD_SIZE) {
        Err(e) => {
            return Err(BinParse::Io(e));
        },
        Ok(bytes) => bytes,
    };
    proof {
        assert(header_bytes@.subrange(0, 4) =~= rest.subrange(0, 4));
        assert(header_bytes@.subrange(4, 8) =~= rest.subrange(4, 8));
        assert(header_bytes@.subrange(8, 12) =~= rest.subrange(8, 12));
    }
    let header = match Head::from_slice(header_bytes) {
        Err(e) => {
            return Err(e);
        },
        Ok(header) => header,
    };
    let entry_ct = header.entry_count();
    let dir_offset = header.directory_offset();
    let dir_pos = match start.checked_add(dir_offset as u64) {
        None => {
            return Err(BinParse::Parse(String::from_str("Offset too large")));
        },
        Some(position) => position,
    };
    cursor.seek(dir_pos);
    proof {
        assert(cursor@.remaining() =~= bytes_from(data, dir_pos as int));
    }
    let mut entries: Vec<(String, Entry)> = Vec::with_capacity(entry_ct as usize);
    let mut warnings: Vec<String> = Vec::new();
    proof {
        assert(entries.deep_view() =~= listed(data, dir_pos as int, 0));
        assert(warnings.deep_view() =~= skipped(data, dir_pos as int, 0));
    }
    let mut i: u32 = 0;
    while i < entry_ct
        invariant
            i <= entry_ct,
            cursor@.data == data,
            old(cursor)@.data == data,
            old(cursor)@.remaining() == rest,
            rest.len() >= HEAD_SIZE,
            rest.subrange(0, 4) == magic(),
            le_u32(rest.subrange(4, 8)) == entry_ct,
            start + le_u32(rest.subrange(8, 12)) == dir_pos,
            cursor@.remaining() == bytes_from(data, dir_pos + ENTRY_SIZE * i),
            forall|k: int| 0 <= k < i ==> entry_fine(data, #[trigger] (dir_pos + ENTRY_SIZE * k)),
            entries.deep_view() == listed(data, dir_pos as int, i as int),
            warnings.deep_view() == skipped(data, dir_pos as int, i as int),
        decreases entry_ct - i,
    {
        let ghost here = dir_pos + ENTRY_SIZE * i;
        let ghost bytes = bytes_from(data, here);
        let ghost listed_before = entries.deep_view();
        let ghost skipped_before = warnings.deep_view();
        let entry_bytes = match cursor.read_exact(ENTRY_SIZE) {
            Err(e) => {
                proof {
                    assert(!entry_fine(data, here));
                }
                return Err(BinParse::Io(e));
            },
            Ok(entry_bytes) => entry_bytes,
        };
        proof {
            assert(entry_bytes@.subrange(0, 4) =~= bytes.subrange(0, 4));
            assert(entry_bytes@.subrange(4, 8) =~= bytes.subrange(4, 8));
            assert(entry_bytes@.subrange(16, 32) =~= bytes.subrange(16, 32));
            assert(entry_bytes@[12] == bytes[12]);
            assert(entry_bytes@[13] == bytes[13]);
            assert(bytes.skip(32) =~= bytes_from(data, dir_pos + ENTRY_SIZE * (i + 1)));
        }
        let entry = match Entry::from_slice(entry_bytes) {
            Err(e) => {
                proof {
                    assert(!entry_fine(data, here));
                }
                return Err(e);
            },
            Ok(entry) => entry,
        };
        assert(entry@ == entry_at(data, here));
        let entry_name = match entry.name_to_string() {
            Err(_) => {
                proof {
                    assert(!entry_fine(data, here));
                }
                return Err(
                    BinParse::Parse(String::from_str("C string contained non-utf8 bytes")),
                );
            },
            Ok(name) => name,
        };
        match find_name(&entries, &entry_name) {
            None => {
                entries.push((entry_name, entry));
                proof {
                    assert(entries.deep_view() =~= listed_before.push((entry_name@, entry@)));
                }
            },
            Some(_) => {
                let mut warning = String::from_str("Skipping duplicate entry for `");
                warning.append(entry_name.as_str());
                warning.append("`");
                warnings.push(warning);
                proof {
                    assert(warnings.deep_view() =~= skipped_before.push(
                        duplicate_warning(entry_name@),
                    ));
                }
            },
        }
        i += 1;
    }
    Ok((entries, warnings))
}

/// The kinds of lump in the order in which they are tried where nothing
/// speaks for another order.
pub open spec fn known_kinds() -> Seq<u8> {
    seq![kind::MIPTEX, kind::SBAR, kind::PALETTE, kind::FLAT]
}

/// The kinds `order` with `first` moved to the front, where it is among
/// them.
pub open spec fn prioritized(order: Seq<u8>, first: u8) -> Seq<u8> {
    if order.contains(first) {
        seq![first] + order.remove(order.index_of(first))
    } else {
        order
    }
}

/// The name of the one lump that is known to be tagged wrongly: the
/// characters of the console, which are flat and tagged as a texture.
pub open spec fn conchars() -> Seq<u8> {
    seq![0x43u8, 0x4f, 0x4e, 0x43, 0x48, 0x41, 0x52, 0x53, 0x00]
}

/// The order in which the kinds of lump are tried for an entry of the
/// kind `lump_kind`, the length `length` and the name `name`: first the
/// kind of the entry; before it a palette where the lump is as long as
/// one and not tagged as flat; before all a flat lump for the characters
/// of the console.
pub open spec fn attempt_order_spec(lump_kind: u8, length: int, name: Seq<u8>) -> Seq<u8> {
    let by_kind = prioritized(known_kinds(), lump_kind);
    let by_length = if length == PALETTE_SIZE && lump_kind != kind::FLAT {
        prioritized(by_kind, kind::PALETTE)
    } else {
        by_kind
    };
    if name.subrange(0, 9) == conchars() {
        prioritized(by_length, kind::FLAT)
    } else {
        by_length
    }
}

/// The four kinds, each once.
pub open spec fn is_order(order: Seq<u8>) -> bool {
    &&& order.len() == 4
    &&& forall|i: int, j: int| 0 <= i < j < 4 ==> order[i] != order[j]
    &&& forall|i: int| 0 <= i < 4 ==> known_kinds().contains(#[trigger] order[i])
}

/// Moves `first_kind` to the front of `order`, where it is among them.
fn prioritize(order: &mut [u8; 4], first_kind: u8)
    requires
        is_order(old(order)@),
    ensures
        is_order(final(order)@),
        final(order)@ == prioritized(old(order)@, first_kind),
{
    let mut index: usize = 0;
    let mut found = false;
    let mut i: usize = 0;
    while i < 4
        invariant
            i <= 4,
            order@ == old(order)@,
            found ==> index < i && order@[index as int] == first_kind,
            !found ==> index == 0 && forall|k: int| 0 <= k < i ==> order@[k] != first_kind,
        decreases 4 - i,
    {
        if order[i] == first_kind {
            index = i;
            found = true;
        }
        i += 1;
    }
    let ghost before = order@;
    let ghost place = index as int;
    proof {
        if found {
            assert(before.contains(first_kind));
            let chosen = before.index_of(first_kind);
            assert(0 <= chosen < 4 && before[chosen] == first_kind);
            assert(chosen == place);
        } else {
            assert(!before.contains(first_kind)) by {
                if before.contains(first_kind) {
                    let k = choose|k: int| 0 <= k < before.len() && before[k] == first_kind;
                    assert(before[k] != first_kind);
                }
            }
        }
    }
    while index > 0
        invariant
            index <= place < 4,
            order@.len() == 4,
            before.len() == 4,
            found || place == 0,
            found ==> before[place] == first_kind,
            order@[index as int] == before[place],
            forall|k: int| 0 <= k < index ==> order@[k] == before[k],
            forall|k: int| index < k <= place ==> order@[k] == before[k - 1],
            forall|k: int| place < k < 4 ==> order@[k] == before[k],
        decreases index,
    {
        let moved = order[index - 1];
        order[index] = moved;
        order[index - 1] = first_kind;
        index -= 1;
    }
    proof {
        if found {
            assert(order@ =~= seq![first_kind] + before.remove(place));
            assert forall|a: int| 0 <= a < 4 implies known_kinds().contains(#[trigger] order@[a]) by {
                if a == 0 {
                    assert(order@[0] == before[place]);
                } else if a <= place {
                    assert(order@[a] == before[a - 1]);
                } else {
                    assert(order@[a] == before[a]);
                }
            }
        } else {
            assert(order@ =~= before);
        }
    }
}

/// The order in which the kinds of lump are tried for an entry. Not every
/// archive tags its lumps rightly, so every kind is tried, the likeliest
/// first.
pub fn attempt_order(lump_kind: u8, length: usize, name: &[u8; 16]) -> (r: [u8; 4])
    ensures
        r@ == attempt_order_spec(lump_kind, length as int, name@),
        is_order(r@),
{
    let mut order: [u8; 4] = [kind::MIPTEX, kind::SBAR, kind::PALETTE, kind::FLAT];
    proof {
        assert(order@ =~= known_kinds());
        assert(known_kinds()[0] == kind::MIPTEX && known_kinds()[1] == kind::SBAR
            && known_kinds()[2] == kind::PALETTE && known_kinds()[3] == kind::FLAT);
    }
    prioritize(&mut order, lump_kind);
    if length == PALETTE_SIZE && lump_kind != kind::FLAT {
        prioritize(&mut order, kind::PALETTE);
    }
    let conchars: [u8; 9] = [0x43, 0x4f, 0x4e, 0x43, 0x48, 0x41, 0x52, 0x53, 0x00];
    let mut same = true;
    let mut i: usize = 0;
    while i < 9
        invariant
            i <= 9,
            conchars@ == self::conchars(),
            same == (forall|k: int| 0 <= k < i ==> name@[k] == self::conchars()[k]),
        decreases 9 - i,
    {
        if name[i] != conchars[i] {
            same = false;
        }
        i += 1;
    }
    proof {
        assert(conchars@ =~= self::conchars());
        if same {
            assert(name@.subrange(0, 9) =~= self::conchars());
        } else {
            let k = choose|k: int| 0 <= k < 9 && name@[k] != self::conchars()[k];
            assert(name@.subrange(0, 9)[k] == name@[k]);
        }
    }
    if same {
        prioritize(&mut order, kind::FLAT);
    }
    order
}

/// Whether a lump of the kind `lump_kind` is there to be read from
/// `position` on in `data`, for an entry of the length `length`.
pub open spec fn lump_there(lump_kind: u8, data: Seq<u8>, position: u64, length: int) -> bool {
    if lump_kind == kind::MIPTEX {
        texture_there(data, position)
    } else if lump_kind == kind::SBAR {
        image_there(bytes_from(data, position as int))
    } else if lump_kind == kind::PALETTE {
        bytes_from(data, position as int).len() >= PALETTE_SIZE
    } else {
        bytes_from(data, position as int).len() >= length
    }
}

/// The lump of the kind `lump_kind` that stands at `position` in `data`,
/// for an entry of the length `length`.
pub open spec fn lump_of(lump_kind: u8, data: Seq<u8>, position: u64, length: int) -> LumpView {
    let rest = bytes_from(data, position as int);
    if lump_kind == kind::MIPTEX {
        LumpView::MipTexture(texture_of(data, position))
    } else if lump_kind == kind::SBAR {
        LumpView::StatusBar(
            image_of(
                image_width(rest),
                rest.subrange(8, 8 + image_width(rest) * image_height(rest)),
            ),
        )
    } else if lump_kind == kind::PALETTE {
        LumpView::Palette(palette_of(rest))
    } else {
        LumpView::Flat(rest.take(length))
    }
}

/// What reading a lump of the kind `lump_kind` returns where none is
/// there.
pub open spec fn lump_fails<T>(
    r: Result<T, BinParse>,
    lump_kind: u8,
    data: Seq<u8>,
    position: u64,
) -> bool {
    if lump_kind == kind::MIPTEX {
        texture_fails(r, data, position)
    } else if lump_kind == kind::SBAR {
        image_fails(r, bytes_from(data, position as int))
    } else {
        is_io(r)
    }
}

/// The first of the kinds `order` from place `from` on of which a lump is
/// there.
pub open spec fn first_there(order: Seq<u8>, from: int, data: Seq<u8>, position: u64, length: int) -> Option<
    u8,
>
    decreases order.len() - from,
{
    if 0 <= from < order.len() {
        if lump_there(order[from], data, position, length) {
            Some(order[from])
        } else {
            first_there(order, from + 1, data, position, length)
        }
    } else {
        None
    }
}

/// A WAD archive in memory, with its directory read.
#[derive(Debug)]
pub struct Parser<'a> {
    cursor: ByteReader<'a>,
    start: u64,
    directory: Vec<(String, Entry)>,
}

impl<'a> Parser<'a> {
    /// The bytes that hold the archive.
    pub closed spec fn data(&self) -> Seq<u8> {
        self.cursor@.data
    }

    /// Where the archive begins in its bytes.
    pub closed spec fn start(&self) -> u64 {
        self.start
    }

    /// The directory: the entries, each under its name.
    pub closed spec fn entries(&self) -> Seq<(Seq<char>, EntryView)> {
        self.directory.deep_view()
    }

    /// Where the lump of `entry` begins in the bytes, if that is a
    /// position.
    pub open spec fn lump_position(&self, entry: EntryView) -> int {
        self.start() + entry.offset
    }

    /// Reads the directory of the archive that begins where `cursor`
    /// stands. With the archive come the warnings for the entries that
    /// were left out because an earlier entry has their name.
    pub fn new(cursor: ByteReader<'a>) -> (r: Result<(Parser<'a>, Vec<String>), BinParse>)
        ensures
            if directory_there(cursor@, cursor@.position) {
                &&& r matches Ok((parser, warnings))
                &&& parser.data() == cursor@.data
                &&& parser.start() == cursor@.position
                &&& parser.entries() == listed(
                    cursor@.data,
                    directory_position(cursor@, cursor@.position),
                    directory_count(cursor@),
                )
                &&& warnings.deep_view() == skipped(
                    cursor@.data,
                    directory_position(cursor@, cursor@.position),
                    directory_count(cursor@),
                )
            } else {
                directory_fails(r, cursor@, cursor@.position)
            },
    {
        let mut cursor = cursor;
        let start = cursor.stream_position();
        match parse_directory(&mut cursor, start) {
            Err(e) => Err(e),
            Ok((directory, warnings)) => Ok((Parser { cursor, start, directory }, warnings)),
        }
    }

    /// A copy of the directory.
    pub fn directory(&self) -> (r: Vec<(String, Entry)>)
        ensures
            r.deep_view() == self.entries(),
    {
        let mut copy: Vec<(String, Entry)> = Vec::with_capacity(self.directory.len());
        let mut i: usize = 0;
        while i < self.directory.len()
            invariant
                i <= self.directory@.len(),
                copy.deep_view() == self.directory.deep_view().take(i as int),
            decreases self.directory@.len() - i,
        {
            let ghost before = copy.deep_view();
            let name = self.directory[i].0.clone();
            let entry = self.directory[i].1;
            copy.push((name, entry));
            proof {
                assert(copy.deep_view() =~= before.push((name@, entry@)));
                assert(self.directory.deep_view().take(i + 1) =~= self.directory.deep_view().take(
                    i as int,
                ).push(self.directory.deep_view()[i as int]));
            }
            i += 1;
        }
        proof {
            assert(self.directory.deep_view().take(i as int) =~= self.directory.deep_view());
        }
        copy
    }

    /// Moves to the place where the lump of `entry` begins.
    fn seek_to_entry(&mut self, entry: &Entry) -> (r: Result<(), BinParse>)
        ensures
            final(self).data() == old(self).data(),
            final(self).start() == old(self).start(),
            final(self).entries() == old(self).entries(),
            match r {
                Ok(_) => {
                    &&& old(self).lump_position(entry@) <= u64::MAX
                    &&& final(self).cursor@.position == old(self).lump_position(entry@)
                    &&& final(self).cursor@.remaining() == bytes_from(
                        old(self).data(),
                        old(self).lump_position(entry@),
                    )
                },
                Err(e) => old(self).lump_position(entry@) > u64::MAX && e@ == BinParseView::Parse(
                    offset_too_large(),
                ),
            },
    {
        let offset = match self.start.checked_add(entry.offset() as u64) {
            None => {
                return Err(BinParse::Parse(String::from_str("Offset too large")));
            },
            Some(offset) => offset,
        };
        self.cursor.seek(offset);
        proof {
            assert(self.cursor@.remaining() =~= bytes_from(self.cursor@.data, offset as int));
        }
        Ok(())
    }

    /// Reads the lump of `entry` as a texture with its smaller copies.
    pub fn parse_mip_texture(&mut self, entry: &Entry) -> (r: Result<MipTexture, BinParse>)
        ensures
            final(self).data() == old(self).data(),
            final(self).start() == old(self).start(),
            final(self).entries() == old(self).entries(),
            if old(self).lump_position(entry@) > u64::MAX {
                is_parse_error(r, offset_too_large())
            } else {
                texture_reads(r, old(self).data(), old(self).lump_position(entry@) as u64)
            },
    {
        match self.seek_to_entry(entry) {
            Err(e) => {
                return Err(e);
            },
            Ok(_) => {},
        }
        parse_mip_texture(&mut self.cursor)
    }

    /// Reads the lump of `entry` as a picture.
    pub fn parse_image(&mut self, entry: &Entry) -> (r: Result<Image, BinParse>)
        ensures
            final(self).data() == old(self).data(),
            final(self).start() == old(self).start(),
            final(self).entries() == old(self).entries(),
            if old(self).lump_position(entry@) > u64::MAX {
                is_parse_error(r, offset_too_large())
            } else {
                image_reads(r, bytes_from(old(self).data(), old(self).lump_position(entry@)))
            },
    {
        match self.seek_to_entry(entry) {
            Err(e) => {
                return Err(e);
            },
            Ok(_) => {},
        }
        parse_image(&mut self.cursor)
    }

    /// Reads the lump of `entry` as a palette.
    pub fn parse_palette(&mut self, entry: &Entry) -> (r: Result<Box<Palette>, BinParse>)
        ensures
            final(self).data() == old(self).data(),
            final(self).start() == old(self).start(),
            final(self).entries() == old(self).entries(),
            if old(self).lump_position(entry@) > u64::MAX {
                is_parse_error(r, offset_too_large())
            } else {
                palette_reads(r, bytes_from(old(self).data(), old(self).lump_position(entry@)))
            },
    {
        match self.seek_to_entry(entry) {
            Err(e) => {
                return Err(e);
            },
            Ok(_) => {},
        }
        parse_palette(&mut self.cursor)
    }

    /// Reads the bytes of the lump of `entry` as they are.
    pub fn read_raw(&mut self, entry: &Entry) -> (r: Result<Box<[u8]>, BinParse>)
        ensures
            final(self).data() == old(self).data(),
            final(self).start() == old(self).start(),
            final(self).entries() == old(self).entries(),
            if old(self).lump_position(entry@) > u64::MAX {
                is_parse_error(r, offset_too_large())
            } else {
                raw_reads(
                    r,
                    bytes_from(old(self).data(), old(self).lump_position(entry@)),
                    entry@.length as int,
                )
            },
    {
        match self.seek_to_entry(entry) {
            Err(e) => {
                return Err(e);
            },
            Ok(_) => {},
        }
        let length = entry.length() as usize;
        read_raw(&mut self.cursor, length)
    }

    /// Reads the lump of `entry`, whatever it is: every kind of lump is
    /// tried, in the order that the kind, the length and the name of the
    /// entry speak for, and the first that can be read is the lump.
    pub fn parse_inferred(&mut self, entry: &Entry) -> (r: Result<Lump, BinParse>)
        ensures
            final(self).data() == old(self).data(),
            final(self).start() == old(self).start(),
            final(self).entries() == old(self).entries(),
            if old(self).lump_position(entry@) > u64::MAX {
                is_parse_error(r, offset_too_large())
            } else {
                match first_there(
                    attempt_order_spec(entry@.lump_kind, entry@.length as int, entry@.name),
                    0,
                    old(self).data(),
                    old(self).lump_position(entry@) as u64,
                    entry@.length as int,
                ) {
                    Some(lump_kind) => r matches Ok(lump) && lump@ == lump_of(
                        lump_kind,
                        old(self).data(),
                        old(self).lump_position(entry@) as u64,
                        entry@.length as int,
                    ),
                    None => lump_fails(
                        r,
                        attempt_order_spec(entry@.lump_kind, entry@.length as int, entry@.name)[3],
                        old(self).data(),
                        old(self).lump_position(entry@) as u64,
                    ),
                }
            },
    {
        let length = entry.length() as usize;
        let name = entry.name();
        let attempt_order = attempt_order(entry.kind(), length, &name);
        let ghost order = attempt_order@;
        let ghost data = self.data();
        let ghost position = self.lump_position(entry@);
        let mut last_error = BinParse::Parse(String::from_str("Unreachable"));
        let mut i: usize = 0;
        while i < 4
            invariant
                i <= 4,
                order == attempt_order@,
                is_order(order),
                self.data() == data,
                data == old(self).data(),
                order == attempt_order_spec(entry@.lump_kind, entry@.length as int, entry@.name),
                self.start() == old(self).start(),
                self.entries() == old(self).entries(),
                position == old(self).lump_position(entry@),
                position <= u64::MAX ==> first_there(
                    order,
                    0,
                    data,
                    position as u64,
                    entry@.length as int,
                ) == first_there(order, i as int, data, position as u64, entry@.length as int),
                position > u64::MAX && i > 0 ==> last_error@ == BinParseView::Parse(
                    offset_too_large(),
                ),
                position <= u64::MAX && i > 0 ==> lump_fails(
                    Err::<Lump, BinParse>(last_error),
                    order[i - 1],
                    data,
                    position as u64,
                ),
            decreases 4 - i,
        {
            let attempt_kind = attempt_order[i];
            proof {
                assert(known_kinds().contains(order[i as int]));
            }
            if attempt_kind == kind::MIPTEX {
                match self.parse_mip_texture(entry) {
                    Ok(miptex) => {
                        return Ok(Lump::MipTexture(miptex));
                    },
                    Err(e) => {
                        last_error = e;
                    },
                }
            } else if attempt_kind == kind::SBAR {
                match self.parse_image(entry) {
                    Ok(img) => {
                        return Ok(Lump::StatusBar(img));
                    },
                    Err(e) => {
                        last_error = e;
                    },
                }
            } else if attempt_kind == kind::PALETTE {
                match self.parse_palette(entry) {
                    Ok(pal) => {
                        return Ok(Lump::Palette(pal));
                    },
                    Err(e) => {
                        last_error = e;
                    },
                }
            } else {
                match self.read_raw(entry) {
                    Ok(bytes) => {
                        return Ok(Lump::Flat(bytes));
                    },
                    Err(e) => {
                        last_error = e;
                    },
                }
            }
            i += 1;
        }
        Err(last_error)
    }
}

} // verus!
