//! Reading lumps from bytes.

use crate::common::{into_boxed, le_u32, read_le_u32, ByteReader, Palette, PALETTE_SIZE};
use crate::error::{BinParse, BinParseView};
use crate::lump::repr::{
    head_fault, head_height, head_width, image_of, valid_mips, Image, ImageView, MipTexture,
    MipTextureHead, MipTextureView, MIP_TEXTURE_HEAD_SIZE,
};
use vstd::prelude::*;

verus! {

/// The message for a picture with more pixels than can be counted.
pub open spec fn image_too_large() -> Seq<char> {
    "Image too large"@
}

/// Whether `r` is the error of bytes that end too early.
pub open spec fn is_io<T>(r: Result<T, BinParse>) -> bool {
    r matches Err(BinParse::Io(_))
}

/// Whether `r` is the error with the message `message`.
pub open spec fn is_parse_error<T>(r: Result<T, BinParse>, message: Seq<char>) -> bool {
    r matches Err(e) && e@ == BinParseView::Parse(message)
}

/// What reading `length` bytes from `rest` returns.
pub open spec fn raw_reads(r: Result<Box<[u8]>, BinParse>, rest: Seq<u8>, length: int) -> bool {
    if length <= rest.len() {
        r matches Ok(bytes) && bytes@ == rest.take(length)
    } else {
        is_io(r)
    }
}

/// Reads `length` bytes.
pub fn read_raw(reader: &mut ByteReader, length: usize) -> (r: Result<Box<[u8]>, BinParse>)
    ensures
        final(reader)@.data == old(reader)@.data,
        raw_reads(r, old(reader)@.remaining(), length as int),
        r is Ok ==> final(reader)@.position == old(reader)@.position + length,
{
    match reader.read_exact(length) {
        Err(e) => Err(BinParse::Io(e)),
        Ok(slice) => {
            let bytes = vstd::slice::slice_to_vec(slice);
            Ok(into_boxed(bytes))
        },
    }
}

/// The palette that 768 bytes hold: color by color, each as red, green
/// and blue.
pub open spec fn palette_of(bytes: Seq<u8>) -> Seq<Seq<u8>> {
    Seq::new(256, |i: int| seq![bytes[3 * i], bytes[3 * i + 1], bytes[3 * i + 2]])
}

/// What reading a palette from `rest` returns.
pub open spec fn palette_reads(r: Result<Box<Palette>, BinParse>, rest: Seq<u8>) -> bool {
    if PALETTE_SIZE <= rest.len() {
        r matches Ok(palette) && palette.deep_view() == palette_of(rest)
    } else {
        is_io(r)
    }
}

/// Reads the 768 bytes of a palette.
pub fn parse_palette(reader: &mut ByteReader) -> (r: Result<Box<Palette>, BinParse>)
    ensures
        final(reader)@.data == old(reader)@.data,
        palette_reads(r, old(reader)@.remaining()),
        r is Ok ==> final(reader)@.position == old(reader)@.position + PALETTE_SIZE,
{
    let bytes = match reader.read_exact(PALETTE_SIZE) {
        Err(e) => {
            return Err(BinParse::Io(e));
        },
        Ok(bytes) => bytes,
    };
    let mut palette: Palette = [[0u8; 3]; 256];
    let mut i: usize = 0;
    while i < 256
        invariant
            i <= 256,
            bytes@.len() == 768,
            forall|j: int|
                0 <= j < i ==> (#[trigger] palette@[j])@ == seq![
                    bytes@[3 * j],
                    bytes@[3 * j + 1],
                    bytes@[3 * j + 2],
                ],
        decreases 256 - i,
    {
        let color: [u8; 3] = [bytes[3 * i], bytes[3 * i + 1], bytes[3 * i + 2]];
        proof {
            assert(color@ =~= seq![
                bytes@[3 * i as int],
                bytes@[3 * i as int + 1],
                bytes@[3 * i as int + 2],
            ]);
        }
        palette[i] = color;
        i += 1;
    }
    proof {
        let rest = old(reader)@.remaining();
        assert forall|j: int| 0 <= j < 256 implies palette.deep_view()[j] == palette_of(
            rest,
        )[j] by {
            assert(palette@[j]@ == seq![bytes@[3 * j], bytes@[3 * j + 1], bytes@[3 * j + 2]]);
            assert(palette.deep_view()[j] =~= palette@[j]@);
        }
        assert(palette.deep_view() =~= palette_of(rest));
    }
    Ok(Box::new(palette))
}

/// The width that the bytes of a picture give.
pub open spec fn image_width(bytes: Seq<u8>) -> u32 {
    le_u32(bytes.subrange(0, 4))
}

/// The height that the bytes of a picture give.
pub open spec fn image_height(bytes: Seq<u8>) -> u32 {
    le_u32(bytes.subrange(4, 8))
}

/// Whether a picture is there to be read from `rest`: a width and a
/// height whose product can be counted, and as many pixels.
pub open spec fn image_there(rest: Seq<u8>) -> bool {
    &&& rest.len() >= 8
    &&& image_width(rest) * image_height(rest) <= u32::MAX
    &&& rest.len() >= 8 + image_width(rest) * image_height(rest)
}

/// What reading a picture from `rest` returns where none is there: the
/// error of a picture with more pixels than can be counted, or that of
/// bytes that end too early.
pub open spec fn image_fails<T>(r: Result<T, BinParse>, rest: Seq<u8>) -> bool {
    if rest.len() >= 8 && image_width(rest) * image_height(rest) > u32::MAX {
        is_parse_error(r, image_too_large())
    } else {
        is_io(r)
    }
}

/// What reading a picture from `rest` returns.
pub open spec fn image_reads(r: Result<Image, BinParse>, rest: Seq<u8>) -> bool {
    let pixels = image_width(rest) * image_height(rest);
    if image_there(rest) {
        r matches Ok(image) && image@ == image_of(image_width(rest), rest.subrange(8, 8 + pixels))
    } else {
        image_fails(r, rest)
    }
}

/// Reads a picture: its width, its height, and then its pixels.
pub fn parse_image(reader: &mut ByteReader) -> (r: Result<Image, BinParse>)
    ensures
        final(reader)@.data == old(reader)@.data,
        image_reads(r, old(reader)@.remaining()),
        r is Ok ==> final(reader)@.position == old(reader)@.position + 8 + image_width(
            old(reader)@.remaining(),
        ) * image_height(old(reader)@.remaining()),
{
    let ghost rest = reader@.remaining();
    let width = match reader.read_exact(4) {
        Err(e) => {
            return Err(BinParse::Io(e));
        },
        Ok(bytes) => read_le_u32(bytes, 0),
    };
    let height = match reader.read_exact(4) {
        Err(e) => {
            return Err(BinParse::Io(e));
        },
        Ok(bytes) => read_le_u32(bytes, 0),
    };
    proof {
        assert(rest.take(4).subrange(0, 4) =~= rest.subrange(0, 4));
        assert(rest.skip(4).take(4).subrange(0, 4) =~= rest.subrange(4, 8));
    }
    let pixel_ct = match width.checked_mul(height) {
        None => {
            return Err(BinParse::Parse(String::from_str("Image too large")));
        },
        Some(count) => count,
    };
    let pixels = match reader.read_exact(pixel_ct as usize) {
        Err(e) => {
            return Err(BinParse::Io(e));
        },
        Ok(bytes) => vstd::slice::slice_to_vec(bytes),
    };
    proof {
        assert(rest.skip(4).skip(4).take(pixel_ct as int) =~= rest.subrange(8, 8 + pixel_ct));
        if pixel_ct > 0 {
            assert(width > 0) by (nonlinear_arith)
                requires
                    width * height == pixel_ct,
                    pixel_ct > 0,
            ;
            assert(pixel_ct as nat % width as nat == 0) by (nonlinear_arith)
                requires
                    width * height == pixel_ct,
                    width > 0,
            ;
        }
    }
    Ok(Image::from_vec(width, pixels))
}

/// The message for a picture of a texture that begins behind the largest
/// position.
pub open spec fn bad_offset() -> Seq<char> {
    "Bad offset"@
}

/// The width or height of the copy `level` of a texture, whose own is `n`:
/// half of it for each level.
pub open spec fn halved(n: u32, level: int) -> u32 {
    if level == 0 {
        n
    } else if level == 1 {
        n / 2
    } else if level == 2 {
        n / 4
    } else {
        n / 8
    }
}

/// The bytes from `position` on.
pub open spec fn bytes_from(data: Seq<u8>, position: int) -> Seq<u8> {
    if 0 <= position <= data.len() {
        data.skip(position)
    } else {
        Seq::empty()
    }
}

/// What reading a picture of `wide` by `high` pixels returns, which
/// begins `offset` bytes behind `lump_start` in `data`.
pub open spec fn mip_reads(
    r: Result<Image, BinParse>,
    data: Seq<u8>,
    lump_start: u64,
    offset: u32,
    wide: u32,
    high: u32,
) -> bool {
    if lump_start + offset > u64::MAX {
        is_parse_error(r, bad_offset())
    } else if bytes_from(data, lump_start + offset).len() < wide * high {
        is_io(r)
    } else {
        r matches Ok(image) && image@ == image_of(
            wide,
            bytes_from(data, lump_start + offset).take(wide * high),
        )
    }
}

/// Where the header that `head` holds says that the picture of the copy
/// `level` begins, counted from the start of the header.
pub open spec fn head_offset(head: Seq<u8>, level: int) -> u32 {
    le_u32(head.subrange(24 + 4 * level, 28 + 4 * level))
}

/// How many pixels the copy `level` has.
pub open spec fn mip_length(head: Seq<u8>, level: int) -> int {
    halved(head_width(head), level) * halved(head_height(head), level)
}

/// Whether the picture of the copy `level` is there to be read, of the
/// texture that begins at `lump_start` in `data`.
pub open spec fn mip_there(data: Seq<u8>, lump_start: u64, level: int) -> bool {
    let head = bytes_from(data, lump_start as int);
    &&& lump_start + head_offset(head, level) <= u64::MAX
    &&& bytes_from(data, lump_start + head_offset(head, level)).len() >= mip_length(head, level)
}

/// The picture of the copy `level`.
pub open spec fn mip_of(data: Seq<u8>, lump_start: u64, level: int) -> ImageView {
    let head = bytes_from(data, lump_start as int);
    image_of(
        halved(head_width(head), level),
        bytes_from(data, lump_start + head_offset(head, level)).take(mip_length(head, level)),
    )
}

/// Whether a texture is there to be read at `lump_start` in `data`: a
/// header without a fault, and each of the four pictures where the header
/// says.
pub open spec fn texture_there(data: Seq<u8>, lump_start: u64) -> bool {
    let head = bytes_from(data, lump_start as int);
    &&& head.len() >= MIP_TEXTURE_HEAD_SIZE
    &&& head_fault(head) is None
    &&& mip_there(data, lump_start, 0)
    &&& mip_there(data, lump_start, 1)
    &&& mip_there(data, lump_start, 2)
    &&& mip_there(data, lump_start, 3)
}

/// The texture that begins at `lump_start` in `data`.
pub open spec fn texture_of(data: Seq<u8>, lump_start: u64) -> MipTextureView {
    MipTextureView {
        name: bytes_from(data, lump_start as int).subrange(0, 16),
        mips: seq![
            mip_of(data, lump_start, 0),
            mip_of(data, lump_start, 1),
            mip_of(data, lump_start, 2),
            mip_of(data, lump_start, 3),
        ],
    }
}

/// What reading the picture of the copy `level` returns where it is not
/// there: the error of a picture that begins behind the largest position,
/// or that of bytes that end too early.
pub open spec fn mip_fails<T>(r: Result<T, BinParse>, data: Seq<u8>, lump_start: u64, level: int) -> bool {
    if lump_start + head_offset(bytes_from(data, lump_start as int), level) > u64::MAX {
        is_parse_error(r, bad_offset())
    } else {
        is_io(r)
    }
}

/// What reading a texture at `lump_start` in `data` returns where none is
/// there: the error of bytes that end too early where the header is cut
/// off, the fault of the header, or the error of the first picture that
/// is not there.
pub open spec fn texture_fails<T>(r: Result<T, BinParse>, data: Seq<u8>, lump_start: u64) -> bool {
    let head = bytes_from(data, lump_start as int);
    if head.len() < MIP_TEXTURE_HEAD_SIZE {
        is_io(r)
    } else {
        match head_fault(head) {
            Some(message) => is_parse_error(r, message),
            None => if !mip_there(data, lump_start, 0) {
                mip_fails(r, data, lump_start, 0)
            } else if !mip_there(data, lump_start, 1) {
                mip_fails(r, data, lump_start, 1)
            } else if !mip_there(data, lump_start, 2) {
                mip_fails(r, data, lump_start, 2)
            } else {
                mip_fails(r, data, lump_start, 3)
            },
        }
    }
}

/// What reading a texture at `lump_start` in `data` returns.
pub open spec fn texture_reads(r: Result<MipTexture, BinParse>, data: Seq<u8>, lump_start: u64) -> bool {
    if texture_there(data, lump_start) {
        r matches Ok(texture) && texture@ == texture_of(data, lump_start)
    } else {
        texture_fails(r, data, lump_start)
    }
}

/// Reads a texture with its smaller copies from the place where `cursor`
/// stands: the header, and then each picture from the place that the
/// header gives for it, counted from the start of the header.
pub fn parse_mip_texture(cursor: &mut ByteReader) -> (r: Result<MipTexture, BinParse>)
    ensures
        final(cursor)@.data == old(cursor)@.data,
        texture_reads(r, old(cursor)@.data, old(cursor)@.position),
{
    let ghost data = cursor@.data;
    let ghost rest = cursor@.remaining();
    let lump_start = cursor.stream_position();
    proof {
        assert(rest =~= bytes_from(data, lump_start as int));
    }
    let head_bytes = match cursor.read_exact(MIP_TEXTURE_HEAD_SIZE) {
        Err(e) => {
            return Err(BinParse::Io(e));
        },
        Ok(bytes) => bytes,
    };
    proof {
        assert(head_bytes@.subrange(0, 16) =~= rest.subrange(0, 16));
        assert(head_bytes@.subrange(16, 20) =~= rest.subrange(16, 20));
        assert(head_bytes@.subrange(20, 24) =~= rest.subrange(20, 24));
        assert(head_bytes@.subrange(24, 28) =~= rest.subrange(24, 28));
        assert(head_bytes@.subrange(28, 32) =~= rest.subrange(28, 32));
        assert(head_bytes@.subrange(32, 36) =~= rest.subrange(32, 36));
        assert(head_bytes@.subrange(36, 40) =~= rest.subrange(36, 40));
    }
    let head = match MipTextureHead::from_slice(head_bytes) {
        Err(e) => {
            return Err(e);
        },
        Ok(head) => head,
    };
    proof {
        assert(head.holds(rest));
        lemma_halves(head.width, head.height);
        assert(head.offsets@[0] == head_offset(rest, 0));
        assert(head.offsets@[1] == head_offset(rest, 1));
        assert(head.offsets@[2] == head_offset(rest, 2));
        assert(head.offsets@[3] == head_offset(rest, 3));
    }
    let mip0 = match read_mip(cursor, lump_start, head.offsets[0], head.width, head.height) {
        Err(e) => {
            return Err(e);
        },
        Ok(image) => image,
    };
    let mip1 = match read_mip(
        cursor,
        lump_start,
        head.offsets[1],
        head.width / 2,
        head.height / 2,
    ) {
        Err(e) => {
            return Err(e);
        },
        Ok(image) => image,
    };
    let mip2 = match read_mip(
        cursor,
        lump_start,
        head.offsets[2],
        head.width / 4,
        head.height / 4,
    ) {
        Err(e) => {
            return Err(e);
        },
        Ok(image) => image,
    };
    let mip3 = match read_mip(
        cursor,
        lump_start,
        head.offsets[3],
        head.width / 8,
        head.height / 8,
    ) {
        Err(e) => {
            return Err(e);
        },
        Ok(image) => image,
    };
    let ghost views = seq![mip0@, mip1@, mip2@, mip3@];
    let mips = [mip0, mip1, mip2, mip3];
    proof {
        assert(mips.deep_view() =~= views);
        lemma_valid_mips(data, lump_start);
        assert(head.name@ == rest.subrange(0, 16));
    }
    Ok(MipTexture::from_parts(head.name, mips))
}

/// The sizes of the copies of a texture whose width and height are
/// multiples of eight: each half of the one before, and their products
/// no more than that of the texture.
pub proof fn lemma_halves(width: u32, height: u32)
    requires
        width % 8 == 0,
        height % 8 == 0,
        width * height <= u32::MAX,
    ensures
        halved(width, 0) == 2 * halved(width, 1),
        halved(width, 1) == 2 * halved(width, 2),
        halved(width, 2) == 2 * halved(width, 3),
        halved(height, 0) == 2 * halved(height, 1),
        halved(height, 1) == 2 * halved(height, 2),
        halved(height, 2) == 2 * halved(height, 3),
        width > 0 ==> halved(width, 3) > 0,
        height > 0 ==> halved(height, 3) > 0,
        forall|level: int|
            0 <= level < 4 ==> #[trigger] halved(width, level) * halved(height, level)
                <= u32::MAX,
{
    assert forall|level: int| 0 <= level < 4 implies #[trigger] halved(width, level) * halved(
        height,
        level,
    ) <= u32::MAX by {
        let w = halved(width, level);
        let h = halved(height, level);
        assert(w * h <= width * height) by (nonlinear_arith)
            requires
                0 <= w <= width,
                0 <= h <= height,
        ;
    }
}

/// A picture without pixels has neither width nor height; one with pixels
/// in rows of `wide` has the width `wide` and as many rows as fill it.
pub proof fn lemma_rows(wide: u32, high: u32, pixels: Seq<u8>)
    requires
        pixels.len() == wide * high,
        wide * high <= u32::MAX,
    ensures
        crate::lump::repr::fills_rows(wide, pixels),
        wide > 0 && high > 0 ==> image_of(wide, pixels) == (ImageView {
            width: wide,
            height: high,
            pixels,
        }),
        wide == 0 || high == 0 ==> image_of(wide, pixels) == (ImageView {
            width: 0,
            height: 0,
            pixels,
        }),
{
    if wide > 0 && high > 0 {
        assert(wide * high > 0) by (nonlinear_arith)
            requires
                wide > 0,
                high > 0,
        ;
        vstd::arithmetic::div_mod::lemma_mod_multiples_basic(high as int, wide as int);
        vstd::arithmetic::div_mod::lemma_div_by_multiple(high as int, wide as int);
        assert(high * wide == wide * high) by (nonlinear_arith);
    } else {
        assert(wide * high == 0) by (nonlinear_arith)
            requires
                wide == 0 || high == 0,
        ;
    }
}

/// The pictures of a texture that is there are each twice as wide and
/// twice as high as the next.
pub proof fn lemma_valid_mips(data: Seq<u8>, lump_start: u64)
    requires
        texture_there(data, lump_start),
    ensures
        valid_mips(texture_of(data, lump_start).mips),
{
    let head = bytes_from(data, lump_start as int);
    let width = head_width(head);
    let height = head_height(head);
    lemma_halves(width, height);
    let views = texture_of(data, lump_start).mips;
    assert forall|level: int| 0 <= level < 4 implies (width > 0 && height > 0 ==> (
    #[trigger] views[level]).width == halved(width, level) && views[level].height == halved(
        height,
        level,
    )) && (width == 0 || height == 0 ==> views[level].width == 0 && views[level].height == 0) by {
        let wide = halved(width, level);
        let high = halved(height, level);
        let pixels = bytes_from(data, lump_start + head_offset(head, level)).take(wide * high);
        assert(wide * high <= u32::MAX);
        lemma_rows(wide, high, pixels);
    }
    assert forall|l: int| 0 <= l < views.len() - 1 implies (#[trigger] views[l]).width == 2
        * views[l + 1].width && views[l].height == 2 * views[l + 1].height by {
        let next = views[l + 1];
        assert(next.width == 0 || next.width == halved(width, l + 1));
    }
}

/// Reads a picture of `wide` by `high` pixels, which begins `offset` bytes
/// behind `lump_start`.
fn read_mip(cursor: &mut ByteReader, lump_start: u64, offset: u32, wide: u32, high: u32) -> (r:
    Result<Image, BinParse>)
    requires
        wide * high <= u32::MAX,
    ensures
        final(cursor)@.data == old(cursor)@.data,
        mip_reads(r, old(cursor)@.data, lump_start, offset, wide, high),
{
    let length: u32 = wide * high;
    let position = match lump_start.checked_add(offset as u64) {
        None => {
            return Err(BinParse::Parse(String::from_str("Bad offset")));
        },
        Some(position) => position,
    };
    cursor.seek(position);
    proof {
        assert(cursor@.remaining() =~= bytes_from(cursor@.data, position as int));
    }
    let pixels = match cursor.read_exact(length as usize) {
        Err(e) => {
            return Err(BinParse::Io(e));
        },
        Ok(bytes) => vstd::slice::slice_to_vec(bytes),
    };
    proof {
        lemma_rows(wide, high, pixels@);
    }
    Ok(Image::from_vec(wide, pixels))
}

} // verus!
