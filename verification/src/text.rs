//! Byte strings without a NUL byte, and their rendering as characters.

use vstd::prelude::*;

verus! {

/// A byte string that holds no NUL byte: the text of a token, a key or a
/// value of an entity's dictionary, a texture name.
#[derive(Debug, Eq)]
pub struct Text {
    bytes: Vec<u8>,
}

/// No byte of `bytes` is NUL.
pub open spec fn nul_free(bytes: Seq<u8>) -> bool {
    forall|i: int| 0 <= i < bytes.len() ==> bytes[i] != 0
}

/// The characters that stand for `bytes`, one for each byte (Latin-1).
pub open spec fn latin1(bytes: Seq<u8>) -> Seq<char> {
    bytes.map_values(|b: u8| b as char)
}

impl View for Text {
    type V = Seq<u8>;

    closed spec fn view(&self) -> Seq<u8> {
        self.bytes@
    }
}

impl DeepView for Text {
    type V = Seq<u8>;

    open spec fn deep_view(&self) -> Seq<u8> {
        self@
    }
}

impl Clone for Text {
    fn clone(&self) -> (r: Self)
        ensures
            r@ == self@,
    {
        proof {
            use_type_invariant(self);
        }
        Text { bytes: self.bytes.clone() }
    }
}

impl PartialEq for Text {
    fn eq(&self, other: &Text) -> (r: bool) {
        same_bytes(&self.bytes, &other.bytes)
    }
}

impl vstd::std_specs::cmp::PartialEqSpecImpl for Text {
    open spec fn obeys_eq_spec() -> bool {
        true
    }

    open spec fn eq_spec(&self, other: &Text) -> bool {
        self@ == other@
    }
}

impl Text {
    #[verifier::type_invariant]
    spec fn inv(self) -> bool {
        nul_free(self.bytes@)
    }

    /// The text that holds `bytes`, unless one of them is NUL.
    pub fn new(bytes: Vec<u8>) -> (r: Option<Text>)
        ensures
            r is Some <==> nul_free(bytes@),
            r is Some ==> r->0@ == bytes@,
    {
        let mut i: usize = 0;
        while i < bytes.len()
            invariant
                i <= bytes.len(),
                forall|j: int| 0 <= j < i ==> bytes@[j] != 0,
            decreases bytes.len() - i,
        {
            if bytes[i] == 0 {
                return None;
            }
            i += 1;
        }
        Some(Text { bytes })
    }

    /// The text that holds a copy of `bytes`, unless one of them is NUL.
    pub fn from_slice(bytes: &[u8]) -> (r: Option<Text>)
        ensures
            r is Some <==> nul_free(bytes@),
            r is Some ==> r->0@ == bytes@,
    {
        let mut copy: Vec<u8> = Vec::new();
        let mut i: usize = 0;
        while i < bytes.len()
            invariant
                i <= bytes.len(),
                copy@ == bytes@.take(i as int),
            decreases bytes.len() - i,
        {
            copy.push(bytes[i]);
            proof {
                assert(bytes@.take(i + 1) == bytes@.take(i as int).push(bytes@[i as int]));
            }
            i += 1;
        }
        proof {
            assert(bytes@.take(i as int) == bytes@);
        }
        Text::new(copy)
    }

    /// The text that holds `bytes`, which are known to be free of NUL.
    pub(crate) fn from_nul_free(bytes: Vec<u8>) -> (r: Text)
        requires
            nul_free(bytes@),
        ensures
            r@ == bytes@,
    {
        Text { bytes }
    }

    /// The text without any byte.
    pub fn empty() -> (r: Text)
        ensures
            r@ == Seq::<u8>::empty(),
    {
        Text { bytes: Vec::new() }
    }

    pub fn len(&self) -> (n: usize)
        ensures
            n == self@.len(),
            nul_free(self@),
    {
        proof {
            use_type_invariant(self);
        }
        self.bytes.len()
    }

    pub fn is_empty(&self) -> (r: bool)
        ensures
            r == (self@.len() == 0),
            nul_free(self@),
    {
        proof {
            use_type_invariant(self);
        }
        self.bytes.len() == 0
    }

    /// The byte at `index`.
    pub fn byte(&self, index: usize) -> (b: u8)
        requires
            index < self@.len(),
        ensures
            b == self@[index as int],
            b != 0,
    {
        proof {
            use_type_invariant(self);
        }
        self.bytes[index]
    }

    pub fn as_bytes(&self) -> (r: &Vec<u8>)
        ensures
            r@ == self@,
            nul_free(r@),
    {
        proof {
            use_type_invariant(self);
        }
        &self.bytes
    }

    pub fn into_bytes(self) -> (r: Vec<u8>)
        ensures
            r@ == self@,
            nul_free(r@),
    {
        proof {
            use_type_invariant(&self);
        }
        self.bytes
    }

    /// The part of the text from `start` up to `end`.
    pub fn subrange(&self, start: usize, end: usize) -> (r: Text)
        requires
            start <= end <= self@.len(),
        ensures
            r@ == self@.subrange(start as int, end as int),
    {
        proof {
            use_type_invariant(self);
        }
        let mut part: Vec<u8> = Vec::new();
        let mut i: usize = start;
        while i < end
            invariant
                start <= i <= end <= self.bytes@.len(),
                part@ == self.bytes@.subrange(start as int, i as int),
            decreases end - i,
        {
            part.push(self.bytes[i]);
            proof {
                assert(self.bytes@.subrange(start as int, i + 1) == self.bytes@.subrange(
                    start as int,
                    i as int,
                ).push(self.bytes@[i as int]));
            }
            i += 1;
        }
        Text { bytes: part }
    }

    /// The text as a string, each byte taken as the character of that number.
    pub fn to_string(&self) -> (s: String)
        ensures
            s@ == latin1(self@),
    {
        let mut s = String::new();
        push_latin1(&mut s, &self.bytes);
        s
    }
}

/// Whether two byte strings hold the same bytes.
pub fn same_bytes(a: &Vec<u8>, b: &Vec<u8>) -> (r: bool)
    ensures
        r == (a@ == b@),
{
    if a.len() != b.len() {
        return false;
    }
    let mut i: usize = 0;
    while i < a.len()
        invariant
            a@.len() == b@.len(),
            i <= a@.len(),
            a@.take(i as int) == b@.take(i as int),
        decreases a@.len() - i,
    {
        if a[i] != b[i] {
            proof {
                assert(a@[i as int] != b@[i as int]);
            }
            return false;
        }
        proof {
            assert(a@.take(i + 1) == a@.take(i as int).push(a@[i as int]));
            assert(b@.take(i + 1) == b@.take(i as int).push(b@[i as int]));
        }
        i += 1;
    }
    proof {
        assert(a@.take(i as int) == a@);
        assert(b@.take(i as int) == b@);
    }
    true
}

/// Appends one character to `s` with `String::push`: afterwards the string
/// holds what it held, then `c`.
#[verifier::external_body]
pub(crate) fn push_char(s: &mut String, c: char)
    ensures
        final(s)@ == old(s)@.push(c),
{
    s.push(c);
}

/// Appends to `s` the characters that stand for `bytes`.
pub(crate) fn push_latin1(s: &mut String, bytes: &Vec<u8>)
    ensures
        final(s)@ == old(s)@ + latin1(bytes@),
{
    let mut i: usize = 0;
    while i < bytes.len()
        invariant
            i <= bytes.len(),
            s@ == old(s)@ + latin1(bytes@.take(i as int)),
        decreases bytes.len() - i,
    {
        push_char(s, bytes[i] as char);
        proof {
            assert(bytes@.take(i + 1) == bytes@.take(i as int).push(bytes@[i as int]));
            assert(latin1(bytes@.take(i + 1)) == latin1(bytes@.take(i as int)).push(
                bytes@[i as int] as char,
            ));
        }
        i += 1;
    }
    proof {
        assert(bytes@.take(i as int) == bytes@);
    }
}

/// The character of the decimal digit `d`.
pub open spec fn digit_char(d: nat) -> char {
    (48 + d) as u8 as char
}

/// The decimal numeral of `n`, without leading zeros.
pub open spec fn decimal(n: nat) -> Seq<char>
    decreases n,
{
    if n < 10 {
        seq![digit_char(n)]
    } else {
        decimal(n / 10).push(digit_char(n % 10))
    }
}

/// Appends to `s` the decimal numeral of `n`.
pub(crate) fn push_decimal(s: &mut String, n: u64)
    ensures
        final(s)@ == old(s)@ + decimal(n as nat),
    decreases n,
{
    if n >= 10 {
        push_decimal(s, n / 10);
    }
    let d: u8 = (n % 10) as u8;
    push_char(s, (48 + d) as char);
    proof {
        if n >= 10 {
            assert(old(s)@ + decimal(n as nat / 10).push(digit_char(n as nat % 10)) == (old(s)@
                + decimal(n as nat / 10)).push(digit_char(n as nat % 10)));
        } else {
            assert(old(s)@ + seq![digit_char(n as nat)] == old(s)@.push(digit_char(n as nat)));
        }
    }
}

} // verus!
