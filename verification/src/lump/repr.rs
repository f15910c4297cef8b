//! The lumps themselves: pictures, textures with their smaller copies, and
//! the header that a texture begins with.

use crate::common::{
    le_u32, read_array, read_le_u32, slice_to_cstring, until_nul, Palette,
};
use crate::error::{BinParse, BinParseView};
use crate::lump::kind;
use crate::text::{decimal, push_decimal, Text};
use vstd::prelude::*;

verus! {

/// A lump of one of the known kinds.
#[derive(PartialEq, Eq, Debug)]
pub enum Lump {
    Palette(Box<Palette>),
    StatusBar(Image),
    MipTexture(MipTexture),
    Flat(Box<[u8]>),
}

/// What a `Lump` holds, as contracts see it.
pub enum LumpView {
    Palette(Seq<Seq<u8>>),
    StatusBar(ImageView),
    MipTexture(MipTextureView),
    Flat(Seq<u8>),
}

impl View for Lump {
    type V = LumpView;

    open spec fn view(&self) -> LumpView {
        match self {
            Lump::Palette(palette) => LumpView::Palette(palette.deep_view()),
            Lump::StatusBar(image) => LumpView::StatusBar(image@),
            Lump::MipTexture(texture) => LumpView::MipTexture(texture@),
            Lump::Flat(bytes) => LumpView::Flat(bytes@),
        }
    }
}

impl Clone for Lump {
    fn clone(&self) -> (r: Self)
        ensures
            r@ == self@,
    {
        match self {
            Lump::Palette(palette) => Lump::Palette(Box::new(**palette)),
            Lump::StatusBar(image) => Lump::StatusBar(image.clone()),
            Lump::MipTexture(texture) => Lump::MipTexture(texture.clone()),
            Lump::Flat(bytes) => Lump::Flat(
                crate::common::into_boxed(vstd::slice::slice_to_vec(bytes)),
            ),
        }
    }
}

impl Lump {
    /// The byte by which a WAD entry names the kind of the lump.
    pub open spec fn kind_spec(&self) -> u8 {
        match self {
            Lump::Palette(_) => kind::PALETTE,
            Lump::StatusBar(_) => kind::SBAR,
            Lump::MipTexture(_) => kind::MIPTEX,
            Lump::Flat(_) => kind::FLAT,
        }
    }

    /// The byte by which a WAD entry names this kind of lump.
    pub fn kind(&self) -> (r: u8)
        ensures
            r == self.kind_spec(),
    {
        match self {
            Lump::Palette(_) => kind::PALETTE,
            Lump::StatusBar(_) => kind::SBAR,
            Lump::MipTexture(_) => kind::MIPTEX,
            _ => kind::FLAT,
        }
    }
}

/// What an `Image` holds, as contracts see it.
pub struct ImageView {
    pub width: u32,
    pub height: u32,
    pub pixels: Seq<u8>,
}

/// The picture of width `width` that `pixels` make, row by row. Without
/// pixels it has neither width nor height.
pub open spec fn image_of(width: u32, pixels: Seq<u8>) -> ImageView {
    if pixels.len() == 0 {
        ImageView { width: 0, height: 0, pixels }
    } else {
        ImageView { width, height: (pixels.len() / width as nat) as u32, pixels }
    }
}

/// Whether `pixels` fill a whole number of rows of width `width`, and are
/// no more than a picture can count.
pub open spec fn fills_rows(width: u32, pixels: Seq<u8>) -> bool {
    &&& pixels.len() <= u32::MAX
    &&& pixels.len() > 0 ==> width > 0 && pixels.len() % width as nat == 0
}

/// A picture, each pixel a place in a palette, row by row.
#[derive(PartialEq, Eq, Debug)]
pub struct Image {
    width: u32,
    height: u32,
    pixels: Vec<u8>,
}

impl View for Image {
    type V = ImageView;

    closed spec fn view(&self) -> ImageView {
        ImageView { width: self.width, height: self.height, pixels: self.pixels@ }
    }
}

impl DeepView for Image {
    type V = ImageView;

    open spec fn deep_view(&self) -> ImageView {
        self@
    }
}

impl Clone for Image {
    fn clone(&self) -> (r: Self)
        ensures
            r@ == self@,
    {
        proof {
            use_type_invariant(self);
        }
        Image { width: self.width, height: self.height, pixels: self.pixels.clone() }
    }
}

impl Image {
    #[verifier::type_invariant]
    spec fn inv(self) -> bool {
        self.width * self.height == self.pixels@.len()
    }

    /// The picture of width `width` that `pixels` make. Its height follows
    /// from the number of pixels; without pixels it has neither width nor
    /// height.
    pub fn from_pixels(width: u32, pixels: Box<[u8]>) -> (r: Image)
        requires
            fills_rows(width, pixels@),
        ensures
            r@ == image_of(width, pixels@),
    {
        let pixels: Vec<u8> = pixels.into_vec();
        Image::from_vec(width, pixels)
    }

    /// As `from_pixels`, of pixels in a vector.
    pub fn from_vec(width: u32, pixels: Vec<u8>) -> (r: Image)
        requires
            fills_rows(width, pixels@),
        ensures
            r@ == image_of(width, pixels@),
    {
        let pixel_ct: u32 = pixels.len() as u32;
        if pixels.len() == 0 {
            return Image { width: 0, height: 0, pixels };
        }
        let height: u32 = pixel_ct / width;
        proof {
            vstd::arithmetic::div_mod::lemma_fundamental_div_mod(pixel_ct as int, width as int);
            assert(width * height == pixel_ct) by (nonlinear_arith)
                requires
                    pixel_ct == width * (pixel_ct as int / width as int) + pixel_ct as int
                        % width as int,
                    pixel_ct as int % width as int == 0,
                    height == pixel_ct as int / width as int,
            ;
        }
        Image { width, height, pixels }
    }

    /// Whether `from_pixels` takes `pixels` at this width.
    pub fn accepts(width: u32, pixels: &[u8]) -> (r: bool)
        ensures
            r == fills_rows(width, pixels@),
    {
        if pixels.len() > u32::MAX as usize {
            return false;
        }
        if pixels.len() == 0 {
            return true;
        }
        width > 0 && pixels.len() % (width as usize) == 0
    }

    pub fn width(&self) -> (r: u32)
        ensures
            r == self@.width,
            self@.width * self@.height == self@.pixels.len(),
    {
        proof {
            use_type_invariant(self);
        }
        self.width
    }

    pub fn height(&self) -> (r: u32)
        ensures
            r == self@.height,
            self@.width * self@.height == self@.pixels.len(),
    {
        proof {
            use_type_invariant(self);
        }
        self.height
    }

    /// All the pixels, row by row.
    pub fn pixels(&self) -> (r: &[u8])
        ensures
            r@ == self@.pixels,
    {
        self.pixels.as_slice()
    }
}

/// How many pictures a texture has: itself and three smaller copies.
pub const MIP_COUNT: usize = 4;

/// Each picture is twice as wide and twice as high as the next.
pub open spec fn valid_mips(mips: Seq<ImageView>) -> bool {
    forall|l: int|
        0 <= l < mips.len() - 1 ==> (#[trigger] mips[l]).width == 2 * mips[l + 1].width
            && mips[l].height == 2 * mips[l + 1].height
}

/// A texture with its three smaller copies, each half as wide and half as
/// high as the one before.
#[derive(PartialEq, Eq, Debug)]
pub struct MipTexture {
    name: [u8; 16],
    mips: [Image; 4],
}

/// What a `MipTexture` holds, as contracts see it.
pub struct MipTextureView {
    pub name: Seq<u8>,
    pub mips: Seq<ImageView>,
}

impl View for MipTexture {
    type V = MipTextureView;

    closed spec fn view(&self) -> MipTextureView {
        MipTextureView { name: self.name@, mips: self.mips.deep_view() }
    }
}

impl Clone for MipTexture {
    fn clone(&self) -> (r: Self)
        ensures
            r@ == self@,
    {
        proof {
            use_type_invariant(self);
        }
        let mips = [
            self.mips[0].clone(),
            self.mips[1].clone(),
            self.mips[2].clone(),
            self.mips[3].clone(),
        ];
        proof {
            assert(mips.deep_view() =~= self.mips.deep_view());
        }
        MipTexture { name: self.name, mips }
    }
}

/// The name `bytes` in a field of sixteen bytes, filled up with NUL.
pub open spec fn name_field(bytes: Seq<u8>) -> Seq<u8> {
    Seq::new(
        16,
        |i: int|
            if i < bytes.len() {
                bytes[i]
            } else {
                0u8
            },
    )
}

impl MipTexture {
    #[verifier::type_invariant]
    spec fn inv(self) -> bool {
        valid_mips(self.mips.deep_view())
    }

    /// The texture of the name `name`, given as the sixteen bytes of a WAD
    /// entry, with the pictures `mips`.
    pub fn from_parts(name: [u8; 16], mips: [Image; 4]) -> (r: MipTexture)
        requires
            valid_mips(mips.deep_view()),
        ensures
            r@ == (MipTextureView { name: name@, mips: mips.deep_view() }),
    {
        MipTexture { name, mips }
    }

    /// The texture of the name `name` with the pictures `mips`.
    pub fn new(name: String, mips: [Image; 4]) -> (r: MipTexture)
        requires
            vstd::utf8::encode_utf8(name@).len() <= 16,
            valid_mips(mips.deep_view()),
        ensures
            r@ == (MipTextureView {
                name: name_field(vstd::utf8::encode_utf8(name@)),
                mips: mips.deep_view(),
            }),
    {
        let mut name_field: [u8; 16] = [0u8; 16];
        let name_bytes = name.as_str().as_bytes();
        let mut i: usize = 0;
        while i < name_bytes.len()
            invariant
                i <= name_bytes@.len() <= 16,
                forall|j: int| 0 <= j < i ==> name_field@[j] == name_bytes@[j],
                forall|j: int| i <= j < 16 ==> name_field@[j] == 0,
            decreases name_bytes@.len() - i,
        {
            name_field[i] = name_bytes[i];
            i += 1;
        }
        proof {
            assert(name_field@ =~= self::name_field(name_bytes@));
        }
        MipTexture { name: name_field, mips }
    }

    /// Whether each of `mips` is twice as wide and twice as high as the
    /// next, as a texture asks of its pictures.
    pub fn validate_mips(mips: &[Image; 4]) -> (r: bool)
        ensures
            r == valid_mips(mips.deep_view()),
    {
        let mut l: usize = 0;
        while l < MIP_COUNT - 1
            invariant
                l <= 3,
                forall|k: int|
                    0 <= k < l ==> (#[trigger] mips.deep_view()[k]).width == 2 * mips.deep_view()[k
                        + 1].width && mips.deep_view()[k].height == 2 * mips.deep_view()[k
                        + 1].height,
            decreases 3 - l,
        {
            let r: usize = l + 1;
            let wide = mips[l].width() as u64 == 2 * (mips[r].width() as u64);
            let high = mips[l].height() as u64 == 2 * (mips[r].height() as u64);
            if !wide || !high {
                proof {
                    let views = mips.deep_view();
                    assert(!(views[l as int].width == 2 * views[l + 1].width && views[l as int].height
                        == 2 * views[l + 1].height));
                }
                return false;
            }
            l += 1;
        }
        true
    }

    /// The name up to its first NUL byte.
    pub fn name_to_cstring(&self) -> (r: Text)
        ensures
            r@ == until_nul(self@.name),
    {
        slice_to_cstring(self.name.as_slice())
    }

    /// The name up to its first NUL byte as a string, if it is UTF-8.
    pub fn name_to_string(&self) -> (r: Result<String, std::string::FromUtf8Error>)
        ensures
            r is Ok <==> vstd::utf8::valid_utf8(until_nul(self@.name)),
            r matches Ok(s) ==> s@ == vstd::utf8::decode_utf8(until_nul(self@.name)),
    {
        crate::common::string_from_utf8(self.name_to_cstring().into_bytes())
    }

    /// The sixteen bytes of the name.
    pub fn name(&self) -> (r: [u8; 16])
        ensures
            r@ == self@.name,
    {
        self.name
    }

    /// The picture at `index`: 0 for the texture in full, up to 3 for the
    /// smallest copy.
    pub fn mip(&self, index: usize) -> (r: &Image)
        requires
            index < MIP_COUNT,
        ensures
            r@ == self@.mips[index as int],
    {
        &self.mips[index]
    }

    /// All four pictures.
    pub fn mips(&self) -> (r: &[Image])
        ensures
            r.deep_view() == self@.mips,
            valid_mips(self@.mips),
    {
        proof {
            use_type_invariant(self);
        }
        let r = self.mips.as_slice();
        proof {
            assert(r.deep_view() =~= self.mips.deep_view());
        }
        r
    }
}

/// The size of the header of a texture in bytes.
pub const MIP_TEXTURE_HEAD_SIZE: usize = 40;

/// The header that a texture lump begins with.
#[derive(Clone, Copy, PartialEq, Eq, Debug)]
pub struct MipTextureHead {
    pub name: [u8; 16],
    pub width: u32,
    pub height: u32,
    /// Where each picture begins, counted from the start of the lump.
    pub offsets: [u32; 4],
}

/// The width that the bytes of a header give.
pub open spec fn head_width(bytes: Seq<u8>) -> u32 {
    le_u32(bytes.subrange(16, 20))
}

/// The height that the bytes of a header give.
pub open spec fn head_height(bytes: Seq<u8>) -> u32 {
    le_u32(bytes.subrange(20, 24))
}

/// What stands against the header that `bytes` hold: a width or a height
/// that eight does not divide, or more pixels than can be counted.
pub open spec fn head_fault(bytes: Seq<u8>) -> Option<Seq<char>> {
    if head_width(bytes) % 8 != 0 {
        Some("Invalid width "@ + decimal(head_width(bytes) as nat))
    } else if head_height(bytes) % 8 != 0 {
        Some("Invalid height "@ + decimal(head_height(bytes) as nat))
    } else if head_width(bytes) * head_height(bytes) > u32::MAX {
        Some("Texture too large"@)
    } else {
        None
    }
}

impl MipTextureHead {
    /// Whether the header is the one that `bytes` hold.
    pub open spec fn holds(self, bytes: Seq<u8>) -> bool {
        &&& self.name@ == bytes.subrange(0, 16)
        &&& self.width == head_width(bytes)
        &&& self.height == head_height(bytes)
        &&& self.offsets@ == seq![
            le_u32(bytes.subrange(24, 28)),
            le_u32(bytes.subrange(28, 32)),
            le_u32(bytes.subrange(32, 36)),
            le_u32(bytes.subrange(36, 40)),
        ]
    }

    /// The header that the forty bytes at the start of a texture lump
    /// hold. The width and the height must each be a multiple of eight,
    /// so that the smaller copies have whole sizes, and their product
    /// must fit in 32 bits.
    pub fn try_from(bytes: [u8; 40]) -> (r: Result<MipTextureHead, BinParse>)
        ensures
            match r {
                Ok(head) => head_fault(bytes@) is None && head.holds(bytes@),
                Err(e) => head_fault(bytes@) matches Some(message) && e@ == BinParseView::Parse(
                    message,
                ),
            },
    {
        MipTextureHead::from_slice(bytes.as_slice())
    }

    /// As `try_from`, of the first forty bytes of a slice.
    pub fn from_slice(bytes: &[u8]) -> (r: Result<MipTextureHead, BinParse>)
        requires
            bytes@.len() >= 40,
        ensures
            match r {
                Ok(head) => head_fault(bytes@) is None && head.holds(bytes@),
                Err(e) => head_fault(bytes@) matches Some(message) && e@ == BinParseView::Parse(
                    message,
                ),
            },
    {
        let name: [u8; 16] = read_array(bytes, 0);
        let width = read_le_u32(bytes, 16);
        let height = read_le_u32(bytes, 20);
        if width % 8 != 0 {
            let mut message = String::from_str("Invalid width ");
            push_decimal(&mut message, width as u64);
            return Err(BinParse::Parse(message));
        }
        if height % 8 != 0 {
            let mut message = String::from_str("Invalid height ");
            push_decimal(&mut message, height as u64);
            return Err(BinParse::Parse(message));
        }
        if width.checked_mul(height).is_none() {
            return Err(BinParse::Parse(String::from_str("Texture too large")));
        }
        let offsets: [u32; 4] = [
            read_le_u32(bytes, 24),
            read_le_u32(bytes, 28),
            read_le_u32(bytes, 32),
            read_le_u32(bytes, 36),
        ];
        proof {
            assert(offsets@ =~= seq![
                le_u32(bytes@.subrange(24, 28)),
                le_u32(bytes@.subrange(28, 32)),
                le_u32(bytes@.subrange(32, 36)),
                le_u32(bytes@.subrange(36, 40)),
            ]);
        }
        Ok(MipTextureHead { name, width, height, offsets })
    }
}

} // verus!
