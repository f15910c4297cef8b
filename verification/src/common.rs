//! What the binary containers share: little-endian numbers, names that end
//! at a NUL byte, and a reader over bytes in memory.

use crate::error::unexpected_eof;
use crate::text::{nul_free, Text};
use vstd::prelude::*;

verus! {

/// The 256 colors of a palette, each as red, green and blue.
pub type Palette = [[u8; 3]; 256];

/// The number of bytes that a palette takes.
pub const PALETTE_SIZE: usize = 768;

/// A field that holds nothing of interest. Two of them are always equal.
#[derive(Clone, Copy, Debug, Eq)]
pub struct Junk<T: Copy + Default + Sized> {
    _value: T,
}

impl<T: Copy + Default> PartialEq for Junk<T> {
    fn eq(&self, other: &Junk<T>) -> (r: bool) {
        true
    }
}

impl<T: Copy + Default> vstd::std_specs::cmp::PartialEqSpecImpl for Junk<T> {
    open spec fn obeys_eq_spec() -> bool {
        true
    }

    open spec fn eq_spec(&self, other: &Junk<T>) -> bool {
        true
    }
}

impl<T: Copy + Default> Default for Junk<T> {
    fn default() -> (r: Junk<T>) {
        Junk { _value: T::default() }
    }
}

/// The number that four bytes stand for, the lowest byte first.
pub open spec fn le_u32(bytes: Seq<u8>) -> u32 {
    (bytes[0] + 0x100 * bytes[1] + 0x1_0000 * bytes[2] + 0x100_0000 * bytes[3]) as u32
}

/// Reads the number that stands in the four bytes of `bytes` from `at` on.
pub fn read_le_u32(bytes: &[u8], at: usize) -> (n: u32)
    requires
        at + 4 <= bytes@.len(),
    ensures
        n == le_u32(bytes@.subrange(at as int, at + 4)),
{
    let b0: u32 = bytes[at] as u32;
    let b1: u32 = bytes[at + 1] as u32;
    let b2: u32 = bytes[at + 2] as u32;
    let b3: u32 = bytes[at + 3] as u32;
    b0 + 0x100 * b1 + 0x1_0000 * b2 + 0x100_0000 * b3
}

/// The bytes of `bytes` from `at` up to `at + N`, as an array.
pub fn read_array<const N: usize>(bytes: &[u8], at: usize) -> (r: [u8; N])
    requires
        at + N <= bytes@.len(),
    ensures
        r@ == bytes@.subrange(at as int, at + N),
{
    let mut out: [u8; N] = [0u8; N];
    let len: usize = bytes.len();
    let mut i: usize = 0;
    while i < N
        invariant
            i <= N,
            at + N <= bytes@.len() == len,
            forall|j: int| 0 <= j < i ==> out@[j] == bytes@[at + j],
        decreases N - i,
    {
        out[i] = bytes[at + i];
        i += 1;
    }
    proof {
        assert(out@ =~= bytes@.subrange(at as int, at + N));
    }
    out
}

/// How many bytes stand in `bytes` before the first NUL byte.
pub open spec fn nul_index(bytes: Seq<u8>) -> int
    decreases bytes.len(),
{
    if bytes.len() == 0 || bytes[0] == 0 {
        0
    } else {
        1 + nul_index(bytes.skip(1))
    }
}

/// The bytes of `bytes` before the first NUL byte, or all of them where
/// there is none.
pub open spec fn until_nul(bytes: Seq<u8>) -> Seq<u8> {
    bytes.take(nul_index(bytes))
}

/// The bytes before the first NUL byte are those that are free of NUL and
/// stand before a NUL byte or the end.
pub proof fn lemma_until_nul(bytes: Seq<u8>, text: Seq<u8>)
    requires
        text.len() <= bytes.len(),
        text == bytes.take(text.len() as int),
        nul_free(text),
        text.len() == bytes.len() || bytes[text.len() as int] == 0,
    ensures
        nul_index(bytes) == text.len(),
        until_nul(bytes) == text,
    decreases bytes.len(),
{
    if bytes.len() == 0 || bytes[0] == 0 {
        if text.len() > 0 {
            assert(text[0] == bytes[0]);
        }
    } else {
        if text.len() > 0 {
            let rest = text.skip(1);
            assert(rest =~= bytes.skip(1).take(rest.len() as int));
            assert forall|i: int| 0 <= i < rest.len() implies rest[i] != 0 by {
                assert(rest[i] == text[i + 1]);
            }
            lemma_until_nul(bytes.skip(1), rest);
        }
    }
}

/// The bytes of `slice` before its first NUL byte, or all of them where it
/// has none.
pub fn slice_to_cstring(slice: &[u8]) -> (r: Text)
    ensures
        r@ == until_nul(slice@),
        nul_free(r@),
{
    let mut len: usize = 0;
    while len < slice.len() && slice[len] != 0
        invariant
            len <= slice@.len(),
            forall|j: int| 0 <= j < len ==> slice@[j] != 0,
        decreases slice@.len() - len,
    {
        len += 1;
    }
    let mut bytes: Vec<u8> = Vec::with_capacity(len);
    let mut i: usize = 0;
    while i < len
        invariant
            i <= len <= slice@.len(),
            bytes@ == slice@.take(i as int),
        decreases len - i,
    {
        bytes.push(slice[i]);
        proof {
            assert(slice@.take(i + 1) == slice@.take(i as int).push(slice@[i as int]));
        }
        i += 1;
    }
    proof {
        lemma_until_nul(slice@, bytes@);
    }
    Text::from_nul_free(bytes)
}

/// `std::string::FromUtf8Error`, which says that bytes are no UTF-8.
#[verifier::external_type_specification]
#[verifier::external_body]
pub struct ExFromUtf8Error(std::string::FromUtf8Error);

/// Makes a string of `bytes` with `String::from_utf8`: the string that the
/// bytes encode where they are UTF-8, else an error.
#[verifier::external_body]
pub(crate) fn string_from_utf8(bytes: Vec<u8>) -> (r: Result<String, std::string::FromUtf8Error>)
    ensures
        r is Ok <==> vstd::utf8::valid_utf8(bytes@),
        r matches Ok(s) ==> s@ == vstd::utf8::decode_utf8(bytes@),
{
    String::from_utf8(bytes)
}

/// Turns a vector into a boxed slice of the same bytes, with
/// `Vec::into_boxed_slice`.
#[verifier::external_body]
pub(crate) fn into_boxed(bytes: Vec<u8>) -> (r: Box<[u8]>)
    ensures
        r@ == bytes@,
{
    bytes.into_boxed_slice()
}

/// Where a reader stands in its bytes.
pub struct ByteReaderView {
    pub data: Seq<u8>,
    pub position: u64,
}

impl ByteReaderView {
    /// The bytes from the position on. There are none where the position
    /// lies behind the end.
    pub open spec fn remaining(self) -> Seq<u8> {
        if self.position <= self.data.len() {
            self.data.skip(self.position as int)
        } else {
            Seq::empty()
        }
    }
}

/// A reader over bytes in memory, with a position that can be set. The
/// functions that read a container take their bytes from one.
#[derive(Debug)]
pub struct ByteReader<'a> {
    data: &'a [u8],
    position: u64,
}

impl<'a> View for ByteReader<'a> {
    type V = ByteReaderView;

    closed spec fn view(&self) -> ByteReaderView {
        ByteReaderView { data: self.data@, position: self.position }
    }
}

impl<'a> ByteReader<'a> {
    /// A reader at the start of `data`.
    pub fn new(data: &'a [u8]) -> (r: Self)
        ensures
            r@ == (ByteReaderView { data: data@, position: 0 }),
    {
        ByteReader { data, position: 0 }
    }

    /// The position, counted in bytes from the start.
    pub fn stream_position(&self) -> (r: u64)
        ensures
            r == self@.position,
    {
        self.position
    }

    /// Sets the position. It may lie behind the end of the bytes; then
    /// nothing can be read there.
    pub fn seek(&mut self, position: u64)
        ensures
            final(self)@ == (ByteReaderView { data: old(self)@.data, position }),
    {
        self.position = position;
    }

    /// How many bytes are left from the position on.
    pub fn remaining_len(&self) -> (r: usize)
        ensures
            r == self@.remaining().len(),
    {
        if self.position <= self.data.len() as u64 {
            self.data.len() - self.position as usize
        } else {
            0
        }
    }

    /// The bytes from the position on.
    pub fn remaining(&self) -> (r: &'a [u8])
        ensures
            r@ == self@.remaining(),
    {
        let len: usize = self.data.len();
        let start: usize = if self.position <= len as u64 {
            self.position as usize
        } else {
            len
        };
        let r = vstd::slice::slice_subrange(self.data, start, len);
        proof {
            assert(r@ =~= self@.remaining());
        }
        r
    }

    /// A reader over the bytes from the position on, of which it gives no
    /// more than `limit`.
    pub fn take(&self, limit: u64) -> (r: ByteReader<'a>)
        ensures
            r@.position == 0,
            r@.data == (if limit <= self@.remaining().len() {
                self@.remaining().take(limit as int)
            } else {
                self@.remaining()
            }),
    {
        let rest = self.remaining();
        if limit <= rest.len() as u64 {
            ByteReader { data: vstd::slice::slice_subrange(rest, 0, limit as usize), position: 0 }
        } else {
            ByteReader { data: rest, position: 0 }
        }
    }

    /// Reads the next `count` bytes and moves behind them. Where fewer
    /// are left, the error is that of an input that ended too early, and
    /// the position is the end of the bytes.
    pub fn read_exact(&mut self, count: usize) -> (r: Result<&'a [u8], std::io::Error>)
        ensures
            final(self)@.data == old(self)@.data,
            match r {
                Ok(bytes) => {
                    &&& count <= old(self)@.remaining().len()
                    &&& bytes@ == old(self)@.remaining().take(count as int)
                    &&& final(self)@.position == old(self)@.position + count
                    &&& final(self)@.remaining() == old(self)@.remaining().skip(count as int)
                },
                Err(_) => {
                    &&& count > old(self)@.remaining().len()
                    &&& final(self)@.position == old(self)@.data.len()
                },
            },
    {
        let len: usize = self.data.len();
        let start: usize = if self.position <= len as u64 {
            self.position as usize
        } else {
            len
        };
        if count > len - start {
            self.position = len as u64;
            return Err(unexpected_eof());
        }
        let bytes = vstd::slice::slice_subrange(self.data, start, start + count);
        self.position = self.position + count as u64;
        proof {
            assert(bytes@ =~= old(self)@.remaining().take(count as int));
            assert(self@.remaining() =~= old(self)@.remaining().skip(count as int));
        }
        Ok(bytes)
    }
}

} // verus!
