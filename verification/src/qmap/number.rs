//! The numbers of a map, held as the decimal text that stands for them.
//!
//! A map's text gives every coordinate, offset, angle and scale as a
//! decimal numeral, and the text that is written gives them back as
//! numerals. In between, a [`Number`] keeps the numeral itself.

use crate::text::same_bytes;
use vstd::prelude::*;

verus! {

pub open spec fn is_digit(byte: u8) -> bool {
    0x30 <= byte <= 0x39
}

pub open spec fn is_sign(byte: u8) -> bool {
    byte == 0x2b || byte == 0x2d
}

/// An ASCII capital as its small letter, any other byte as it is.
pub open spec fn lower(byte: u8) -> u8 {
    if 0x41 <= byte <= 0x5a {
        (byte + 0x20) as u8
    } else {
        byte
    }
}

/// How many digits stand in a row in `s` from `i` on.
pub open spec fn digit_run(s: Seq<u8>, i: int) -> nat
    decreases s.len() - i,
{
    if 0 <= i < s.len() && is_digit(s[i]) {
        1 + digit_run(s, i + 1)
    } else {
        0
    }
}

/// From `i` on, `s` is `word`, capitals taken as small letters.
pub open spec fn is_word(s: Seq<u8>, i: int, word: Seq<u8>) -> bool {
    &&& s.len() - i == word.len()
    &&& forall|k: int| 0 <= k < word.len() ==> lower(#[trigger] s[i + k]) == word[k]
}

/// `inf`
pub open spec fn word_inf() -> Seq<u8> {
    seq![0x69u8, 0x6e, 0x66]
}

/// `infinity`
pub open spec fn word_infinity() -> Seq<u8> {
    seq![0x69u8, 0x6e, 0x66, 0x69, 0x6e, 0x69, 0x74, 0x79]
}

/// `nan`
pub open spec fn word_nan() -> Seq<u8> {
    seq![0x6eu8, 0x61, 0x6e]
}

/// From `i` on, `s` is an exponent: `e` or `E`, a sign or none, and one
/// digit or more up to the end.
pub open spec fn is_exponent(s: Seq<u8>, i: int) -> bool {
    &&& 0 <= i < s.len()
    &&& lower(s[i]) == 0x65
    &&& {
        let digits = if i + 1 < s.len() && is_sign(s[i + 1]) {
            i + 2
        } else {
            i + 1
        };
        digit_run(s, digits) >= 1 && digits + digit_run(s, digits) == s.len()
    }
}

/// Where the fraction of the numeral that begins at `i` ends: behind the
/// digits, and behind the point and its digits where a point follows.
pub open spec fn mantissa_end(s: Seq<u8>, i: int) -> int {
    let point = i + digit_run(s, i);
    if point < s.len() && s[point] == 0x2e {
        point + 1 + digit_run(s, point + 1)
    } else {
        point
    }
}

/// How many digits the mantissa that begins at `i` has.
pub open spec fn mantissa_digits(s: Seq<u8>, i: int) -> nat {
    let point = i + digit_run(s, i);
    if point < s.len() && s[point] == 0x2e {
        digit_run(s, i) + digit_run(s, point + 1)
    } else {
        digit_run(s, i)
    }
}

/// From `i` on, `s` is a numeral without sign: digits with at most one
/// point among them, before it or behind it or both, and then an exponent
/// or nothing.
pub open spec fn is_decimal(s: Seq<u8>, i: int) -> bool {
    &&& mantissa_digits(s, i) >= 1
    &&& mantissa_end(s, i) == s.len() || is_exponent(s, mantissa_end(s, i))
}

/// Where the numeral begins behind its sign.
pub open spec fn body_start(s: Seq<u8>) -> int {
    if s.len() > 0 && is_sign(s[0]) {
        1
    } else {
        0
    }
}

/// `s` is the numeral of a finite number: a sign or none, then digits with
/// at most one point, then an exponent or none.
pub open spec fn is_finite_literal(s: Seq<u8>) -> bool {
    is_decimal(s, body_start(s))
}

/// `s` names an infinity or a value that is no number: a sign or none, then
/// `inf`, `infinity` or `nan` in capitals or small letters.
pub open spec fn is_special_literal(s: Seq<u8>) -> bool {
    ||| is_word(s, body_start(s), word_inf())
    ||| is_word(s, body_start(s), word_infinity())
    ||| is_word(s, body_start(s), word_nan())
}

/// `s` is a numeral that a map may hold where a number is due.
pub open spec fn is_literal(s: Seq<u8>) -> bool {
    is_finite_literal(s) || is_special_literal(s)
}

/// The bytes that a numeral of a finite number is made of.
pub open spec fn is_numeral_byte(byte: u8) -> bool {
    is_digit(byte) || is_sign(byte) || byte == 0x2e || lower(byte) == 0x65
}

/// Every byte of a digit run is a digit.
pub proof fn lemma_digit_run(s: Seq<u8>, i: int)
    requires
        0 <= i,
    ensures
        i + digit_run(s, i) <= s.len() || digit_run(s, i) == 0,
        forall|k: int| i <= k < i + digit_run(s, i) ==> is_digit(s[k]),
        i + digit_run(s, i) < s.len() ==> !is_digit(s[i + digit_run(s, i)]),
    decreases s.len() - i,
{
    if i < s.len() && is_digit(s[i]) {
        lemma_digit_run(s, i + 1);
    }
}

/// The numeral of a finite number is made of digits, signs, a point and
/// the letter of the exponent, and has a byte.
pub proof fn lemma_finite_literal_bytes(s: Seq<u8>)
    requires
        is_finite_literal(s),
    ensures
        s.len() >= 1,
        forall|k: int| 0 <= k < s.len() ==> is_numeral_byte(#[trigger] s[k]),
{
    let start = body_start(s);
    lemma_digit_run(s, start);
    let point = start + digit_run(s, start);
    lemma_digit_run(s, point + 1);
    let end = mantissa_end(s, start);
    if end != s.len() {
        let digits = if end + 1 < s.len() && is_sign(s[end + 1]) {
            end + 2
        } else {
            end + 1
        };
        lemma_digit_run(s, digits);
    }
    assert forall|k: int| 0 <= k < s.len() implies is_numeral_byte(#[trigger] s[k]) by {}
}

/// A numeral of a map.
#[derive(Debug, Eq)]
pub struct Number {
    text: Vec<u8>,
    finite: bool,
}

impl View for Number {
    type V = Seq<u8>;

    /// The numeral.
    closed spec fn view(&self) -> Seq<u8> {
        self.text@
    }
}

impl DeepView for Number {
    type V = Seq<u8>;

    open spec fn deep_view(&self) -> Seq<u8> {
        self@
    }
}

impl Clone for Number {
    fn clone(&self) -> (r: Self)
        ensures
            r@ == self@,
    {
        proof {
            use_type_invariant(self);
        }
        Number { text: self.text.clone(), finite: self.finite }
    }
}

impl PartialEq for Number {
    /// Two numbers are the same where their numerals are.
    fn eq(&self, other: &Number) -> (r: bool) {
        same_bytes(&self.text, &other.text)
    }
}

impl vstd::std_specs::cmp::PartialEqSpecImpl for Number {
    open spec fn obeys_eq_spec() -> bool {
        true
    }

    open spec fn eq_spec(&self, other: &Number) -> bool {
        self@ == other@
    }
}

fn is_digit_byte(byte: u8) -> (r: bool)
    ensures
        r == is_digit(byte),
{
    0x30 <= byte && byte <= 0x39
}

fn is_sign_byte(byte: u8) -> (r: bool)
    ensures
        r == is_sign(byte),
{
    byte == 0x2b || byte == 0x2d
}

fn lower_byte(byte: u8) -> (r: u8)
    ensures
        r == lower(byte),
{
    if 0x41 <= byte && byte <= 0x5a {
        byte + 0x20
    } else {
        byte
    }
}

/// The place behind the digits that stand in a row from `i` on.
fn skip_digits(s: &[u8], i: usize) -> (j: usize)
    requires
        i <= s@.len(),
    ensures
        j == i + digit_run(s@, i as int),
        i <= j <= s@.len(),
{
    let mut j: usize = i;
    while j < s.len() && is_digit_byte(s[j])
        invariant
            i <= j <= s@.len(),
            i + digit_run(s@, i as int) == j + digit_run(s@, j as int),
        decreases s@.len() - j,
    {
        j += 1;
    }
    j
}

fn is_exponent_at(s: &[u8], i: usize) -> (r: bool)
    requires
        i <= s@.len(),
    ensures
        r == is_exponent(s@, i as int),
{
    if i >= s.len() || lower_byte(s[i]) != 0x65 {
        return false;
    }
    let digits: usize = if i + 1 < s.len() && is_sign_byte(s[i + 1]) {
        i + 2
    } else {
        i + 1
    };
    let end = skip_digits(s, digits);
    end > digits && end == s.len()
}

fn is_decimal_at(s: &[u8], i: usize) -> (r: bool)
    requires
        i <= s@.len(),
    ensures
        r == is_decimal(s@, i as int),
{
    let point = skip_digits(s, i);
    let mut digits: usize = point - i;
    let mut end: usize = point;
    if point < s.len() && s[point] == 0x2e {
        end = skip_digits(s, point + 1);
        digits = digits + (end - (point + 1));
    }
    digits >= 1 && (end == s.len() || is_exponent_at(s, end))
}

fn is_word_at(s: &[u8], i: usize, word: &[u8]) -> (r: bool)
    requires
        i <= s@.len(),
    ensures
        r == is_word(s@, i as int, word@),
{
    if s.len() - i != word.len() {
        return false;
    }
    let mut k: usize = 0;
    while k < word.len()
        invariant
            i <= s@.len() <= usize::MAX,
            s@.len() - i == word@.len(),
            k <= word@.len(),
            forall|m: int| 0 <= m < k ==> lower(#[trigger] s@[i + m]) == word@[m],
        decreases word@.len() - k,
    {
        if lower_byte(s[i + k]) != word[k] {
            return false;
        }
        k += 1;
    }
    true
}

fn body_start_of(s: &[u8]) -> (i: usize)
    ensures
        i == body_start(s@),
        i <= s@.len(),
{
    if s.len() > 0 && is_sign_byte(s[0]) {
        1
    } else {
        0
    }
}

/// Is `s` the numeral of a finite number?
pub fn is_finite_numeral(s: &[u8]) -> (r: bool)
    ensures
        r == is_finite_literal(s@),
{
    is_decimal_at(s, body_start_of(s))
}

/// Does `s` name an infinity or a value that is no number?
pub fn is_special_numeral(s: &[u8]) -> (r: bool)
    ensures
        r == is_special_literal(s@),
{
    let start = body_start_of(s);
    let inf: [u8; 3] = [0x69, 0x6e, 0x66];
    let infinity: [u8; 8] = [0x69, 0x6e, 0x66, 0x69, 0x6e, 0x69, 0x74, 0x79];
    let nan: [u8; 3] = [0x6e, 0x61, 0x6e];
    proof {
        assert(inf@ =~= word_inf());
        assert(infinity@ =~= word_infinity());
        assert(nan@ =~= word_nan());
    }
    is_word_at(s, start, inf.as_slice()) || is_word_at(s, start, infinity.as_slice())
        || is_word_at(s, start, nan.as_slice())
}

impl Number {
    #[verifier::type_invariant]
    spec fn inv(self) -> bool {
        &&& is_literal(self.text@)
        &&& self.finite == is_finite_literal(self.text@)
    }

    /// The number that `text` is the numeral of, if it is one.
    pub fn parse(text: &[u8]) -> (r: Option<Number>)
        ensures
            r is Some <==> is_literal(text@),
            r matches Some(n) ==> n@ == text@,
    {
        let finite = is_finite_numeral(text);
        if finite || is_special_numeral(text) {
            let mut copy: Vec<u8> = Vec::with_capacity(text.len());
            let mut i: usize = 0;
            while i < text.len()
                invariant
                    i <= text@.len(),
                    copy@ == text@.take(i as int),
                decreases text@.len() - i,
            {
                copy.push(text[i]);
                proof {
                    assert(text@.take(i + 1) == text@.take(i as int).push(text@[i as int]));
                }
                i += 1;
            }
            proof {
                assert(text@.take(i as int) == text@);
            }
            Some(Number { text: copy, finite })
        } else {
            None
        }
    }

    /// The numeral.
    pub fn as_bytes(&self) -> (r: &Vec<u8>)
        ensures
            r@ == self@,
            is_literal(r@),
    {
        proof {
            use_type_invariant(self);
        }
        &self.text
    }

    /// Whether the number is finite: neither an infinity nor a value that
    /// is no number.
    pub fn is_finite(&self) -> (r: bool)
        ensures
            r == is_finite_literal(self@),
            is_literal(self@),
    {
        proof {
            use_type_invariant(self);
        }
        self.finite
    }
}

} // verus!
