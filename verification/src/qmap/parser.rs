//! The parser: from the tokens of a map to the document, or to the first
//! error.
//!
//! ```text
//! map         := entity*
//! entity      := '{' edict brush* '}'
//! edict       := (quoted quoted)*
//! brush       := '{' surface* '}'
//! surface     := point point point texture alignment
//! point       := '(' number number number ')'
//! alignment   := legacy | with_axes
//! legacy      := number number number number number
//! with_axes   := '[' number number number number ']'
//!                '[' number number number number ']'
//!                number number number
//! ```

use crate::error::{TextParse, TextParseView};
use crate::qmap::lexer::{is_quoted, lex_spec, Token, TokenIterator, TokenStream, TokenView, QUOTE};
use crate::qmap::number::{is_literal, Number};
use crate::qmap::repr::{
    with_pair, Alignment, AlignmentView, Brush, Edict, Entity, EntityView, Point, QuakeMap,
    QuakeMapView, Surface, SurfaceView,
};
use crate::text::{latin1, push_char, push_latin1, Text};
use vstd::prelude::*;

verus! {

pub const OPEN_BRACE: u8 = 0x7b;

pub const CLOSE_BRACE: u8 = 0x7d;

pub const OPEN_PAREN: u8 = 0x28;

pub const CLOSE_PAREN: u8 = 0x29;

pub const OPEN_BRACKET: u8 = 0x5b;

pub const CLOSE_BRACKET: u8 = 0x5d;

/// What a step of the parser gives: a value and the tokens behind it, or
/// the error.
pub type Parsed<T> = Result<(T, TokenStream), TextParseView>;

/// What a function of the parser returns, as contracts see it.
pub open spec fn seen<T: DeepView>(r: Result<T, TextParse>) -> Result<T::V, TextParseView> {
    match r {
        Ok(value) => Ok(value.deep_view()),
        Err(e) => Err(e@),
    }
}

/// The function returned `value` and left the tokens `rest`, as `step`
/// says. After an error nothing is said of the tokens.
pub open spec fn follows<V>(
    value: Result<V, TextParseView>,
    rest: TokenStream,
    step: Parsed<V>,
) -> bool {
    match step {
        Ok((v, s)) => value == Ok::<V, TextParseView>(v) && rest == s,
        Err(e) => value == Err::<V, TextParseView>(e),
    }
}

/// `byte` between two backticks.
pub open spec fn ticked(byte: u8) -> Seq<char> {
    seq!['`', byte as char, '`']
}

/// The bytes `rest` up to place `n`, each between backticks, with a comma
/// and a blank between two.
pub open spec fn alternatives(rest: Seq<u8>, n: int) -> Seq<char>
    decreases n,
{
    if n <= 0 || n > rest.len() {
        Seq::empty()
    } else if n == 1 {
        ticked(rest[0])
    } else {
        alternatives(rest, n - 1) + ", "@ + ticked(rest[n - 1])
    }
}

/// The end of a message: what was got in place of what was expected.
pub open spec fn got(text: Seq<u8>) -> Seq<char> {
    ", got `"@ + latin1(text) + "`"@
}

pub open spec fn expected_byte_message(byte: u8, text: Seq<u8>) -> Seq<char> {
    "Expected "@ + ticked(byte) + got(text)
}

pub open spec fn expected_byte_or_message(byte: u8, rest: Seq<u8>, text: Seq<u8>) -> Seq<char> {
    "Expected "@ + alternatives(rest, rest.len() as int) + " or "@ + ticked(byte) + got(text)
}

pub open spec fn expected_quoted_message(text: Seq<u8>) -> Seq<char> {
    "Expected quoted"@ + got(text)
}

pub open spec fn expected_number_message(text: Seq<u8>) -> Seq<char> {
    "Expected number"@ + got(text)
}

/// A quoted span without its two quotes.
pub open spec fn stripped(text: Seq<u8>) -> Seq<u8> {
    text.subrange(1, text.len() - 1)
}

/// The token is the one byte `byte`.
pub open spec fn expect_byte_spec(token: Option<TokenView>, byte: u8) -> Result<
    (),
    TextParseView,
> {
    match token {
        Some(t) => if t.text == seq![byte] {
            Ok(())
        } else {
            Err(TextParseView::parser(expected_byte_message(byte, t.text), t.line_number))
        },
        None => Err(TextParseView::eof()),
    }
}

/// The token is the one byte `byte`; the error names the bytes `rest` as
/// well, which could have stood in its place.
pub open spec fn expect_byte_or_spec(token: Option<TokenView>, byte: u8, rest: Seq<u8>) -> Result<
    (),
    TextParseView,
> {
    match token {
        Some(t) => if t.text == seq![byte] {
            Ok(())
        } else {
            Err(
                TextParseView::parser(
                    expected_byte_or_message(byte, rest, t.text),
                    t.line_number,
                ),
            )
        },
        None => Err(TextParseView::eof()),
    }
}

/// The token is a quoted span.
pub open spec fn expect_quoted_spec(token: Option<TokenView>) -> Result<(), TextParseView> {
    match token {
        Some(t) => if is_quoted(t.text) {
            Ok(())
        } else {
            Err(TextParseView::parser(expected_quoted_message(t.text), t.line_number))
        },
        None => Err(TextParseView::eof()),
    }
}

/// The token is a numeral; the value is the numeral.
pub open spec fn expect_number_spec(token: Option<TokenView>) -> Result<Seq<u8>, TextParseView> {
    match token {
        Some(t) => if is_literal(t.text) {
            Ok(t.text)
        } else {
            Err(TextParseView::parser(expected_number_message(t.text), t.line_number))
        },
        None => Err(TextParseView::eof()),
    }
}

/// The next token, if there is one, and the tokens behind it.
pub open spec fn extract_spec(s: TokenStream) -> Parsed<Option<TokenView>> {
    match s.head() {
        Some(Ok(t)) => Ok((Some(t), s.tail())),
        Some(Err(line)) => Err(TextParseView::Lexer(line)),
        None => Ok((None, s.tail())),
    }
}

/// The next token is the byte `byte`.
pub open spec fn byte_spec(s: TokenStream, byte: u8) -> Parsed<()> {
    match extract_spec(s) {
        Err(e) => Err(e),
        Ok((token, rest)) => match expect_byte_spec(token, byte) {
            Err(e) => Err(e),
            Ok(_) => Ok(((), rest)),
        },
    }
}

/// The next token is a numeral.
pub open spec fn number_spec(s: TokenStream) -> Parsed<Seq<u8>> {
    match extract_spec(s) {
        Err(e) => Err(e),
        Ok((token, rest)) => match expect_number_spec(token) {
            Err(e) => Err(e),
            Ok(numeral) => Ok((numeral, rest)),
        },
    }
}

/// The next `n` tokens are numerals.
pub open spec fn numbers_spec(s: TokenStream, n: nat) -> Parsed<Seq<Seq<u8>>>
    decreases n,
{
    if n == 0 {
        Ok((Seq::empty(), s))
    } else {
        match number_spec(s) {
            Err(e) => Err(e),
            Ok((first, rest)) => match numbers_spec(rest, (n - 1) as nat) {
                Err(e) => Err(e),
                Ok((others, end)) => Ok((seq![first] + others, end)),
            },
        }
    }
}

/// A point: three numerals between round brackets.
pub open spec fn point_spec(s: TokenStream) -> Parsed<Seq<Seq<u8>>> {
    match byte_spec(s, OPEN_PAREN) {
        Err(e) => Err(e),
        Ok((_, inner)) => match numbers_spec(inner, 3) {
            Err(e) => Err(e),
            Ok((point, rest)) => match byte_spec(rest, CLOSE_PAREN) {
                Err(e) => Err(e),
                Ok((_, end)) => Ok((point, end)),
            },
        },
    }
}

/// `n` points.
pub open spec fn points_spec(s: TokenStream, n: nat) -> Parsed<Seq<Seq<Seq<u8>>>>
    decreases n,
{
    if n == 0 {
        Ok((Seq::empty(), s))
    } else {
        match point_spec(s) {
            Err(e) => Err(e),
            Ok((first, rest)) => match points_spec(rest, (n - 1) as nat) {
                Err(e) => Err(e),
                Ok((others, end)) => Ok((seq![first] + others, end)),
            },
        }
    }
}

/// The name that a texture token gives: what stands between its quotes
/// where it begins with one, else all of it.
pub open spec fn texture_name(text: Seq<u8>) -> Seq<u8> {
    if text.len() > 0 && text[0] == QUOTE {
        stripped(text)
    } else {
        text
    }
}

/// The next token, whatever it is, names a texture.
pub open spec fn texture_spec(s: TokenStream) -> Parsed<Seq<u8>> {
    match extract_spec(s) {
        Err(e) => Err(e),
        Ok((token, rest)) => match token {
            Some(t) => Ok((texture_name(t.text), rest)),
            None => Err(TextParseView::eof()),
        },
    }
}

/// The older form of an alignment: two offsets, rotation, two scales.
pub open spec fn legacy_alignment_spec(s: TokenStream) -> Parsed<AlignmentView> {
    match numbers_spec(s, 5) {
        Err(e) => Err(e),
        Ok((n, rest)) => Ok(
            (
                AlignmentView {
                    offset: seq![n[0], n[1]],
                    rotation: n[2],
                    scale: seq![n[3], n[4]],
                    axes: None,
                },
                rest,
            ),
        ),
    }
}

/// A texture axis with its offset: four numerals between square brackets.
pub open spec fn axis_spec(s: TokenStream) -> Parsed<Seq<Seq<u8>>> {
    match byte_spec(s, OPEN_BRACKET) {
        Err(e) => Err(e),
        Ok((_, inner)) => match numbers_spec(inner, 4) {
            Err(e) => Err(e),
            Ok((axis, rest)) => match byte_spec(rest, CLOSE_BRACKET) {
                Err(e) => Err(e),
                Ok((_, end)) => Ok((axis, end)),
            },
        },
    }
}

/// The form of an alignment with axes: each axis with its offset, then
/// rotation and two scales.
pub open spec fn valve_alignment_spec(s: TokenStream) -> Parsed<AlignmentView> {
    match axis_spec(s) {
        Err(e) => Err(e),
        Ok((u, behind_u)) => match axis_spec(behind_u) {
            Err(e) => Err(e),
            Ok((v, behind_v)) => match numbers_spec(behind_v, 3) {
                Err(e) => Err(e),
                Ok((n, rest)) => Ok(
                    (
                        AlignmentView {
                            offset: seq![u[3], v[3]],
                            rotation: n[0],
                            scale: seq![n[1], n[2]],
                            axes: Some(seq![seq![u[0], u[1], u[2]], seq![v[0], v[1], v[2]]]),
                        },
                        rest,
                    ),
                ),
            },
        },
    }
}

/// An alignment. The next token alone tells the form: with axes where it
/// is `[`, the older form for any other token.
pub open spec fn alignment_spec(s: TokenStream) -> Parsed<AlignmentView> {
    match s.head() {
        Some(Ok(t)) => if t.text == seq![OPEN_BRACKET] {
            valve_alignment_spec(s)
        } else {
            legacy_alignment_spec(s)
        },
        Some(Err(line)) => Err(TextParseView::Lexer(line)),
        None => Err(TextParseView::eof()),
    }
}

/// A surface: three points, a texture, an alignment.
pub open spec fn surface_spec(s: TokenStream) -> Parsed<SurfaceView> {
    match points_spec(s, 3) {
        Err(e) => Err(e),
        Ok((half_space, behind_points)) => match texture_spec(behind_points) {
            Err(e) => Err(e),
            Ok((texture, behind_texture)) => match alignment_spec(behind_texture) {
                Err(e) => Err(e),
                Ok((alignment, rest)) => Ok((SurfaceView { half_space, texture, alignment }, rest)),
            },
        },
    }
}

/// Is the next token the byte `byte`?
pub open spec fn next_is(s: TokenStream, byte: u8) -> bool {
    s.tokens.len() > 0 && s.tokens[0].text == seq![byte]
}

/// The error that the tokens end with, where no token stands before it.
pub open spec fn pending_error(s: TokenStream) -> Option<TextParseView> {
    if s.tokens.len() == 0 {
        match s.end {
            Some(line) => Some(TextParseView::Lexer(line)),
            None => None,
        }
    } else {
        None
    }
}

/// The surfaces of a brush: behind those that were `read`, a surface for
/// as long as the next token is `(`.
pub open spec fn surfaces_spec(s: TokenStream, read: Seq<SurfaceView>) -> Parsed<Seq<SurfaceView>>
    decreases s.tokens.len(),
    via surfaces_spec_decreases
{
    if next_is(s, OPEN_PAREN) {
        match surface_spec(s) {
            Err(e) => Err(e),
            Ok((surface, rest)) => surfaces_spec(rest, read.push(surface)),
        }
    } else {
        match pending_error(s) {
            Some(e) => Err(e),
            None => Ok((read, s)),
        }
    }
}

#[via_fn]
proof fn surfaces_spec_decreases(s: TokenStream, read: Seq<SurfaceView>) {
    lemma_surface_spec_advances(s);
}

/// A brush: its surfaces between braces. Where the closing brace is due,
/// the error names `(` as well: a surface could have followed.
pub open spec fn brush_spec(s: TokenStream) -> Parsed<Seq<SurfaceView>> {
    match byte_spec(s, OPEN_BRACE) {
        Err(e) => Err(e),
        Ok((_, inner)) => match surfaces_spec(inner, Seq::empty()) {
            Err(e) => Err(e),
            Ok((surfaces, rest)) => match extract_spec(rest) {
                Err(e) => Err(e),
                Ok((token, end)) => match expect_byte_or_spec(
                    token,
                    CLOSE_BRACE,
                    seq![OPEN_PAREN],
                ) {
                    Err(e) => Err(e),
                    Ok(_) => Ok((surfaces, end)),
                },
            },
        },
    }
}

/// The brushes of an entity: behind those that were `read`, a brush for as
/// long as the next token is `{`.
pub open spec fn brushes_spec(s: TokenStream, read: Seq<Seq<SurfaceView>>) -> Parsed<
    Seq<Seq<SurfaceView>>,
>
    decreases s.tokens.len(),
    via brushes_spec_decreases
{
    if next_is(s, OPEN_BRACE) {
        match brush_spec(s) {
            Err(e) => Err(e),
            Ok((brush, rest)) => brushes_spec(rest, read.push(brush)),
        }
    } else {
        match pending_error(s) {
            Some(e) => Err(e),
            None => Ok((read, s)),
        }
    }
}

#[via_fn]
proof fn brushes_spec_decreases(s: TokenStream, read: Seq<Seq<SurfaceView>>) {
    lemma_brush_spec_advances(s);
}

/// Is the next token a quoted span?
pub open spec fn next_is_quoted(s: TokenStream) -> bool {
    s.tokens.len() > 0 && is_quoted(s.tokens[0].text)
}

/// A key and its value, both quoted spans.
pub open spec fn pair_spec(s: TokenStream) -> Parsed<(Seq<u8>, Seq<u8>)> {
    match extract_spec(s) {
        Err(e) => Err(e),
        Ok((key, behind_key)) => match expect_quoted_spec(key) {
            Err(e) => Err(e),
            Ok(_) => match extract_spec(behind_key) {
                Err(e) => Err(e),
                Ok((value, rest)) => match expect_quoted_spec(value) {
                    Err(e) => Err(e),
                    Ok(_) => Ok(((stripped(key->0.text), stripped(value->0.text)), rest)),
                },
            },
        },
    }
}

/// The dictionary of an entity: behind the pairs that were `read`, a key
/// with its value for as long as the next token is a quoted span. A key
/// that comes again takes its new value.
pub open spec fn pairs_spec(s: TokenStream, read: Seq<(Seq<u8>, Seq<u8>)>) -> Parsed<
    Seq<(Seq<u8>, Seq<u8>)>,
>
    decreases s.tokens.len(),
    via pairs_spec_decreases
{
    if next_is_quoted(s) {
        match pair_spec(s) {
            Err(e) => Err(e),
            Ok((pair, rest)) => pairs_spec(rest, with_pair(read, pair.0, pair.1)),
        }
    } else {
        match pending_error(s) {
            Some(e) => Err(e),
            None => Ok((read, s)),
        }
    }
}

#[via_fn]
proof fn pairs_spec_decreases(s: TokenStream, read: Seq<(Seq<u8>, Seq<u8>)>) {
}

/// An entity: between braces its dictionary, then its brushes.
pub open spec fn entity_spec(s: TokenStream) -> Parsed<EntityView> {
    match byte_spec(s, OPEN_BRACE) {
        Err(e) => Err(e),
        Ok((_, inner)) => match pairs_spec(inner, Seq::empty()) {
            Err(e) => Err(e),
            Ok((edict, behind_edict)) => match brushes_spec(behind_edict, Seq::empty()) {
                Err(e) => Err(e),
                Ok((brushes, behind_brushes)) => match byte_spec(behind_brushes, CLOSE_BRACE) {
                    Err(e) => Err(e),
                    Ok((_, rest)) => Ok((EntityView { edict, brushes }, rest)),
                },
            },
        },
    }
}

/// The entities of a map: behind those that were `read`, an entity for as
/// long as anything follows.
pub open spec fn entities_spec(s: TokenStream, read: Seq<EntityView>) -> Result<
    Seq<EntityView>,
    TextParseView,
>
    decreases s.tokens.len(),
    via entities_spec_decreases
{
    if s.head() is None {
        Ok(read)
    } else {
        match entity_spec(s) {
            Err(e) => Err(e),
            Ok((entity, rest)) => entities_spec(rest, read.push(entity)),
        }
    }
}

#[via_fn]
proof fn entities_spec_decreases(s: TokenStream, read: Seq<EntityView>) {
    lemma_entity_spec_advances(s);
}

/// The map that the tokens `s` stand for, or the first error.
pub open spec fn map_spec(s: TokenStream) -> Result<QuakeMapView, TextParseView> {
    match entities_spec(s, Seq::empty()) {
        Ok(entities) => Ok(QuakeMapView { entities }),
        Err(e) => Err(e),
    }
}

/// The map that the text `input` stands for, or the first error.
pub open spec fn parse_spec(input: Seq<u8>) -> Result<QuakeMapView, TextParseView> {
    map_spec(lex_spec(input))
}

/// Three numerals, one behind the other.
pub proof fn lemma_three_numbers(s: TokenStream)
    ensures
        numbers_spec(s, 3) == (match number_spec(s) {
            Err(e) => Err(e),
            Ok((a, s1)) => match number_spec(s1) {
                Err(e) => Err(e),
                Ok((b, s2)) => match number_spec(s2) {
                    Err(e) => Err(e),
                    Ok((c, s3)) => Ok((seq![a, b, c], s3)),
                },
            },
        }),
{
    reveal_with_fuel(numbers_spec, 4);
    if let Ok((a, s1)) = number_spec(s) {
        if let Ok((b, s2)) = number_spec(s1) {
            if let Ok((c, s3)) = number_spec(s2) {
                assert(seq![a] + (seq![b] + (seq![c] + Seq::<Seq<u8>>::empty())) =~= seq![
                    a,
                    b,
                    c,
                ]);
            }
        }
    }
}

/// Four numerals are one numeral and three more.
pub proof fn lemma_four_numbers(s: TokenStream)
    ensures
        numbers_spec(s, 4) == (match number_spec(s) {
            Err(e) => Err(e),
            Ok((a, s1)) => match numbers_spec(s1, 3) {
                Err(e) => Err(e),
                Ok((others, rest)) => Ok((seq![a] + others, rest)),
            },
        }),
{
}

/// Five numerals are two numerals and three more.
pub proof fn lemma_five_numbers(s: TokenStream)
    ensures
        numbers_spec(s, 5) == (match number_spec(s) {
            Err(e) => Err(e),
            Ok((a, s1)) => match number_spec(s1) {
                Err(e) => Err(e),
                Ok((b, s2)) => match numbers_spec(s2, 3) {
                    Err(e) => Err(e),
                    Ok((others, rest)) => Ok((seq![a, b] + others, rest)),
                },
            },
        }),
{
    reveal_with_fuel(numbers_spec, 2);
    if let Ok((a, s1)) = number_spec(s) {
        if let Ok((b, s2)) = number_spec(s1) {
            if let Ok((others, rest)) = numbers_spec(s2, 3) {
                assert(seq![a] + (seq![b] + others) =~= seq![a, b] + others);
            }
        }
    }
}

/// Three points, one behind the other.
pub proof fn lemma_three_points(s: TokenStream)
    ensures
        points_spec(s, 3) == (match point_spec(s) {
            Err(e) => Err(e),
            Ok((a, s1)) => match point_spec(s1) {
                Err(e) => Err(e),
                Ok((b, s2)) => match point_spec(s2) {
                    Err(e) => Err(e),
                    Ok((c, s3)) => Ok((seq![a, b, c], s3)),
                },
            },
        }),
{
    reveal_with_fuel(points_spec, 4);
    if let Ok((a, s1)) = point_spec(s) {
        if let Ok((b, s2)) = point_spec(s1) {
            if let Ok((c, s3)) = point_spec(s2) {
                assert(seq![a] + (seq![b] + (seq![c] + Seq::<Seq<Seq<u8>>>::empty())) =~= seq![
                    a,
                    b,
                    c,
                ]);
            }
        }
    }
}

/// Numerals take no token that was not there.
pub proof fn lemma_numbers_spec_advances(s: TokenStream, n: nat)
    ensures
        numbers_spec(s, n) matches Ok((numbers, rest)) ==> rest.tokens.len() <= s.tokens.len()
            && numbers.len() == n,
    decreases n,
{
    if n > 0 {
        if let Ok((_, rest)) = number_spec(s) {
            lemma_numbers_spec_advances(rest, (n - 1) as nat);
        }
    }
}

/// A step that gives a point takes tokens.
pub proof fn lemma_point_spec_advances(s: TokenStream)
    ensures
        point_spec(s) matches Ok((_, rest)) ==> rest.tokens.len() < s.tokens.len(),
{
    if let Ok((_, inner)) = byte_spec(s, OPEN_PAREN) {
        lemma_numbers_spec_advances(inner, 3);
    }
}

/// Points take no token that was not there, and tokens where there is a
/// point.
pub proof fn lemma_points_spec_advances(s: TokenStream, n: nat)
    ensures
        points_spec(s, n) matches Ok((_, rest)) ==> rest.tokens.len() <= s.tokens.len() && (n > 0
            ==> rest.tokens.len() < s.tokens.len()),
    decreases n,
{
    if n > 0 {
        lemma_point_spec_advances(s);
        if let Ok((_, rest)) = point_spec(s) {
            lemma_points_spec_advances(rest, (n - 1) as nat);
        }
    }
}

/// An axis takes tokens.
pub proof fn lemma_axis_spec_advances(s: TokenStream)
    ensures
        axis_spec(s) matches Ok((_, rest)) ==> rest.tokens.len() < s.tokens.len(),
{
    if let Ok((_, inner)) = byte_spec(s, OPEN_BRACKET) {
        lemma_numbers_spec_advances(inner, 4);
    }
}

/// An alignment takes no token that was not there.
pub proof fn lemma_alignment_spec_advances(s: TokenStream)
    ensures
        alignment_spec(s) matches Ok((_, rest)) ==> rest.tokens.len() <= s.tokens.len(),
{
    lemma_numbers_spec_advances(s, 5);
    lemma_axis_spec_advances(s);
    if let Ok((_, behind_u)) = axis_spec(s) {
        lemma_axis_spec_advances(behind_u);
        if let Ok((_, behind_v)) = axis_spec(behind_u) {
            lemma_numbers_spec_advances(behind_v, 3);
        }
    }
}

/// A step that gives a surface takes tokens.
pub proof fn lemma_surface_spec_advances(s: TokenStream)
    ensures
        surface_spec(s) matches Ok((_, rest)) ==> rest.tokens.len() < s.tokens.len(),
{
    lemma_points_spec_advances(s, 3);
    if let Ok((_, behind_points)) = points_spec(s, 3) {
        if let Ok((_, behind_texture)) = texture_spec(behind_points) {
            lemma_alignment_spec_advances(behind_texture);
        }
    }
}

/// The surfaces of a brush take no token that was not there.
pub proof fn lemma_surfaces_spec_advances(s: TokenStream, read: Seq<SurfaceView>)
    ensures
        surfaces_spec(s, read) matches Ok((_, rest)) ==> rest.tokens.len() <= s.tokens.len(),
    decreases s.tokens.len(),
{
    if next_is(s, OPEN_PAREN) {
        lemma_surface_spec_advances(s);
        if let Ok((surface, rest)) = surface_spec(s) {
            lemma_surfaces_spec_advances(rest, read.push(surface));
        }
    }
}

/// A step that gives a brush takes tokens.
pub proof fn lemma_brush_spec_advances(s: TokenStream)
    ensures
        brush_spec(s) matches Ok((_, rest)) ==> rest.tokens.len() < s.tokens.len(),
{
    if let Ok((_, inner)) = byte_spec(s, OPEN_BRACE) {
        lemma_surfaces_spec_advances(inner, Seq::empty());
    }
}

/// The brushes of an entity take no token that was not there.
pub proof fn lemma_brushes_spec_advances(s: TokenStream, read: Seq<Seq<SurfaceView>>)
    ensures
        brushes_spec(s, read) matches Ok((_, rest)) ==> rest.tokens.len() <= s.tokens.len(),
    decreases s.tokens.len(),
{
    if next_is(s, OPEN_BRACE) {
        lemma_brush_spec_advances(s);
        if let Ok((brush, rest)) = brush_spec(s) {
            lemma_brushes_spec_advances(rest, read.push(brush));
        }
    }
}

/// The pairs of a dictionary take no token that was not there.
pub proof fn lemma_pairs_spec_advances(s: TokenStream, read: Seq<(Seq<u8>, Seq<u8>)>)
    ensures
        pairs_spec(s, read) matches Ok((_, rest)) ==> rest.tokens.len() <= s.tokens.len(),
    decreases s.tokens.len(),
{
    if next_is_quoted(s) {
        if let Ok((pair, rest)) = pair_spec(s) {
            lemma_pairs_spec_advances(rest, with_pair(read, pair.0, pair.1));
        }
    }
}

/// A step that gives an entity takes tokens.
pub proof fn lemma_entity_spec_advances(s: TokenStream)
    ensures
        entity_spec(s) matches Ok((_, rest)) ==> rest.tokens.len() < s.tokens.len(),
{
    if let Ok((_, inner)) = byte_spec(s, OPEN_BRACE) {
        lemma_pairs_spec_advances(inner, Seq::empty());
        if let Ok((_, behind_edict)) = pairs_spec(inner, Seq::empty()) {
            lemma_brushes_spec_advances(behind_edict, Seq::empty());
        }
    }
}

/// The tokens of a map with the next one in view, as the parser takes
/// them.
pub struct TokenPeekable<'a> {
    tokens: TokenIterator<'a>,
    head: Option<Result<Token, TextParse>>,
}

impl<'a> View for TokenPeekable<'a> {
    type V = TokenStream;

    /// What is still to come.
    closed spec fn view(&self) -> TokenStream {
        match self.head {
            Some(Ok(t)) => self.tokens@.after(Some(t@)),
            Some(Err(e)) => match e@ {
                TextParseView::Lexer(line) => TokenStream::failed(line),
                _ => TokenStream::empty(),
            },
            None => TokenStream::empty(),
        }
    }
}

impl<'a> TokenPeekable<'a> {
    #[verifier::type_invariant]
    spec fn inv(self) -> bool {
        &&& self.tokens@.well_formed()
        &&& match self.head {
            Some(Ok(t)) => t@.well_formed(),
            Some(Err(e)) => e@ is Lexer,
            None => true,
        }
    }

    /// The tokens of `input`.
    pub fn new(input: &'a [u8]) -> (r: Self)
        ensures
            r@ == lex_spec(input@),
    {
        let mut tokens = TokenIterator::new(input);
        let ghost all = tokens@;
        let head = tokens.next();
        proof {
            if all.tokens.len() > 0 {
                assert(seq![all.tokens[0]] + all.tokens.skip(1) =~= all.tokens);
            } else {
                assert(all.tokens =~= Seq::<TokenView>::empty());
            }
        }
        TokenPeekable { tokens, head }
    }

    /// The next token, without taking it. There is none at the end of the
    /// tokens and where the error is next.
    pub fn peek(&self) -> (r: Option<&Token>)
        ensures
            match r {
                Some(t) => self@.tokens.len() > 0 && self@.tokens[0] == t@ && t@.well_formed(),
                None => self@.tokens.len() == 0,
            },
    {
        proof {
            use_type_invariant(self);
        }
        match &self.head {
            Some(Ok(t)) => Some(t),
            _ => None,
        }
    }

    /// Whether anything is still to come, a token or the error.
    pub fn has_next(&self) -> (r: bool)
        ensures
            r == (self@.head() is Some),
    {
        proof {
            use_type_invariant(self);
        }
        self.head.is_some()
    }

    /// Takes the next token, if there is one.
    pub fn extract(&mut self) -> (r: Result<Option<Token>, TextParse>)
        ensures
            follows(seen(r), final(self)@, extract_spec(old(self)@)),
            r matches Err(_) ==> final(self)@ == TokenStream::empty(),
            r matches Ok(Some(t)) ==> t@.well_formed(),
    {
        proof {
            use_type_invariant(&*self);
        }
        let mut head: Option<Result<Token, TextParse>> = None;
        std::mem::swap(&mut self.head, &mut head);
        match head {
            None => {
                proof {
                    assert(old(self)@.tail().tokens =~= Seq::<TokenView>::empty());
                }
                Ok(None)
            },
            Some(Err(e)) => Err(e),
            Some(Ok(token)) => {
                let empty: &'static [u8] = &[];
                let mut tokens = TokenIterator::new(empty);
                std::mem::swap(&mut self.tokens, &mut tokens);
                let ghost behind = tokens@;
                let next = tokens.next();
                self.tokens = tokens;
                proof {
                    assert((seq![token@] + behind.tokens).skip(1) =~= behind.tokens);
                    if behind.tokens.len() > 0 {
                        assert(seq![behind.tokens[0]] + behind.tokens.skip(1) =~= behind.tokens);
                    } else {
                        assert(behind.tokens =~= Seq::<TokenView>::empty());
                    }
                }
                self.head = next;
                Ok(Some(token))
            },
        }
    }
}

/// The least number of surfaces that bound a solid; a brush is given room
/// for as many at first.
pub const MIN_BRUSH_SURFACES: usize = 4;

/// Reads the map that the text `input` holds: the document, or the first
/// error of the tokenizer or of the parser.
///
/// A surface may give its alignment with texture axes or in the older form
/// without them, each surface for itself.
pub fn parse(input: &[u8]) -> (r: Result<QuakeMap, TextParse>)
    ensures
        seen(r) == parse_spec(input@),
{
    let mut tokens = TokenPeekable::new(input);
    let mut entities: Vec<Entity> = Vec::new();
    proof {
        assert(entities.deep_view() =~= Seq::<EntityView>::empty());
    }
    while tokens.has_next()
        invariant
            entities_spec(lex_spec(input@), Seq::empty()) == entities_spec(
                tokens@,
                entities.deep_view(),
            ),
        decreases tokens@.tokens.len(),
    {
        let ghost before = tokens@;
        let ghost read = entities.deep_view();
        proof {
            lemma_entity_spec_advances(before);
        }
        match parse_entity(&mut tokens) {
            Err(e) => {
                return Err(e);
            },
            Ok(entity) => {
                entities.push(entity);
                proof {
                    assert(entities.deep_view() =~= read.push(entity@));
                }
            },
        }
    }
    Ok(QuakeMap { entities })
}

/// Reads an entity.
pub fn parse_entity(tokens: &mut TokenPeekable) -> (r: Result<Entity, TextParse>)
    ensures
        follows(seen(r), final(tokens)@, entity_spec(old(tokens)@)),
{
    match parse_byte(tokens, OPEN_BRACE) {
        Err(e) => {
            return Err(e);
        },
        Ok(_) => {},
    }
    let edict = match parse_edict(tokens) {
        Err(e) => {
            return Err(e);
        },
        Ok(edict) => edict,
    };
    let brushes = match parse_brushes(tokens) {
        Err(e) => {
            return Err(e);
        },
        Ok(brushes) => brushes,
    };
    match parse_byte(tokens, CLOSE_BRACE) {
        Err(e) => {
            return Err(e);
        },
        Ok(_) => {},
    }
    Ok(Entity { edict, brushes })
}

/// Reads the dictionary of an entity: pairs of quoted spans, up to the
/// first token that is none.
pub fn parse_edict(tokens: &mut TokenPeekable) -> (r: Result<Edict, TextParse>)
    ensures
        follows(seen(r), final(tokens)@, pairs_spec(old(tokens)@, Seq::empty())),
{
    let mut edict = Edict::new();
    let mut more = peek_quoted(tokens);
    while more
        invariant
            more == next_is_quoted(tokens@),
            pairs_spec(old(tokens)@, Seq::empty()) == pairs_spec(tokens@, edict@),
        decreases tokens@.tokens.len(),
    {
        let key_token = match tokens.extract() {
            Err(e) => {
                return Err(e);
            },
            Ok(token) => token,
        };
        let key = match key_token {
            Some(token) => strip_quoted(&token.text),
            None => {
                return Err(TextParse::eof());
            },
        };
        let value_token = match tokens.extract() {
            Err(e) => {
                return Err(e);
            },
            Ok(token) => token,
        };
        match expect_quoted(&value_token) {
            Err(e) => {
                return Err(e);
            },
            Ok(_) => {},
        }
        let value = match value_token {
            Some(token) => strip_quoted(&token.text),
            None => {
                return Err(TextParse::eof());
            },
        };
        edict.insert(key, value);
        more = peek_quoted(tokens);
    }
    finish_list(tokens, edict)
}

/// Reads the brushes of an entity, up to the first token that is no `{`.
pub fn parse_brushes(tokens: &mut TokenPeekable) -> (r: Result<Vec<Brush>, TextParse>)
    ensures
        follows(seen(r), final(tokens)@, brushes_spec(old(tokens)@, Seq::empty())),
{
    let mut brushes: Vec<Brush> = Vec::new();
    proof {
        assert(brushes.deep_view() =~= Seq::<Seq<SurfaceView>>::empty());
    }
    let mut more = peek_byte(tokens, OPEN_BRACE);
    while more
        invariant
            more == next_is(tokens@, OPEN_BRACE),
            brushes_spec(old(tokens)@, Seq::empty()) == brushes_spec(
                tokens@,
                brushes.deep_view(),
            ),
        decreases tokens@.tokens.len(),
    {
        let ghost read = brushes.deep_view();
        proof {
            lemma_brush_spec_advances(tokens@);
        }
        match parse_brush(tokens) {
            Err(e) => {
                return Err(e);
            },
            Ok(brush) => {
                brushes.push(brush);
                proof {
                    assert(brushes.deep_view() =~= read.push(brush.deep_view()));
                }
            },
        }
        more = peek_byte(tokens, OPEN_BRACE);
    }
    finish_list(tokens, brushes)
}

/// Reads a brush.
pub fn parse_brush(tokens: &mut TokenPeekable) -> (r: Result<Brush, TextParse>)
    ensures
        follows(seen(r), final(tokens)@, brush_spec(old(tokens)@)),
{
    let mut surfaces: Vec<Surface> = Vec::with_capacity(MIN_BRUSH_SURFACES);
    proof {
        assert(surfaces.deep_view() =~= Seq::<SurfaceView>::empty());
    }
    match parse_byte(tokens, OPEN_BRACE) {
        Err(e) => {
            return Err(e);
        },
        Ok(_) => {},
    }
    let ghost inner = tokens@;
    let mut more = peek_byte(tokens, OPEN_PAREN);
    while more
        invariant
            more == next_is(tokens@, OPEN_PAREN),
            byte_spec(old(tokens)@, OPEN_BRACE) == Ok::<((), TokenStream), TextParseView>(
                ((), inner),
            ),
            surfaces_spec(inner, Seq::empty()) == surfaces_spec(tokens@, surfaces.deep_view()),
        decreases tokens@.tokens.len(),
    {
        let ghost read = surfaces.deep_view();
        proof {
            lemma_surface_spec_advances(tokens@);
        }
        match parse_surface(tokens) {
            Err(e) => {
                return Err(e);
            },
            Ok(surface) => {
                surfaces.push(surface);
                proof {
                    assert(surfaces.deep_view() =~= read.push(surface@));
                }
            },
        }
        more = peek_byte(tokens, OPEN_PAREN);
    }
    let token = match tokens.extract() {
        Err(e) => {
            return Err(e);
        },
        Ok(token) => token,
    };
    let rest: [u8; 1] = [OPEN_PAREN];
    proof {
        assert(rest@ =~= seq![OPEN_PAREN]);
    }
    match expect_byte_or(&token, CLOSE_BRACE, rest.as_slice()) {
        Err(e) => {
            return Err(e);
        },
        Ok(_) => {},
    }
    Ok(surfaces)
}

/// Reads a surface.
pub fn parse_surface(tokens: &mut TokenPeekable) -> (r: Result<Surface, TextParse>)
    ensures
        follows(seen(r), final(tokens)@, surface_spec(old(tokens)@)),
{
    proof {
        lemma_three_points(tokens@);
    }
    let pt1 = match parse_point(tokens) {
        Err(e) => {
            return Err(e);
        },
        Ok(point) => point,
    };
    let pt2 = match parse_point(tokens) {
        Err(e) => {
            return Err(e);
        },
        Ok(point) => point,
    };
    let pt3 = match parse_point(tokens) {
        Err(e) => {
            return Err(e);
        },
        Ok(point) => point,
    };
    let ghost points = seq![pt1.deep_view(), pt2.deep_view(), pt3.deep_view()];
    let half_space = [pt1, pt2, pt3];
    proof {
        assert(half_space.deep_view() =~= points);
    }
    let texture_token = match tokens.extract() {
        Err(e) => {
            return Err(e);
        },
        Ok(None) => {
            return Err(TextParse::eof());
        },
        Ok(Some(token)) => token,
    };
    let texture = if texture_token.text.byte(0) == QUOTE {
        strip_quoted(&texture_token.text)
    } else {
        texture_token.text
    };
    let with_axes = match tokens.peek() {
        Some(token) => token.match_byte(OPEN_BRACKET),
        None => {
            match tokens.extract() {
                Err(e) => {
                    return Err(e);
                },
                Ok(_) => {
                    return Err(TextParse::eof());
                },
            }
        },
    };
    let alignment = if with_axes {
        match parse_valve_alignment(tokens) {
            Err(e) => {
                return Err(e);
            },
            Ok(alignment) => alignment,
        }
    } else {
        match parse_legacy_alignment(tokens) {
            Err(e) => {
                return Err(e);
            },
            Ok(alignment) => alignment,
        }
    };
    Ok(Surface { half_space, texture, alignment })
}

/// Reads three numbers.
fn parse_triple(tokens: &mut TokenPeekable) -> (r: Result<[Number; 3], TextParse>)
    ensures
        follows(seen(r), final(tokens)@, numbers_spec(old(tokens)@, 3)),
{
    proof {
        lemma_three_numbers(tokens@);
    }
    let x = match parse_number(tokens) {
        Err(e) => {
            return Err(e);
        },
        Ok(number) => number,
    };
    let y = match parse_number(tokens) {
        Err(e) => {
            return Err(e);
        },
        Ok(number) => number,
    };
    let z = match parse_number(tokens) {
        Err(e) => {
            return Err(e);
        },
        Ok(number) => number,
    };
    let ghost numbers = seq![x@, y@, z@];
    let triple = [x, y, z];
    proof {
        assert(triple.deep_view() =~= numbers);
    }
    Ok(triple)
}

/// Reads a point.
pub fn parse_point(tokens: &mut TokenPeekable) -> (r: Result<Point, TextParse>)
    ensures
        follows(seen(r), final(tokens)@, point_spec(old(tokens)@)),
{
    match parse_byte(tokens, OPEN_PAREN) {
        Err(e) => {
            return Err(e);
        },
        Ok(_) => {},
    }
    let point = match parse_triple(tokens) {
        Err(e) => {
            return Err(e);
        },
        Ok(point) => point,
    };
    match parse_byte(tokens, CLOSE_PAREN) {
        Err(e) => {
            return Err(e);
        },
        Ok(_) => {},
    }
    Ok(point)
}

/// Reads an alignment of the older form.
pub fn parse_legacy_alignment(tokens: &mut TokenPeekable) -> (r: Result<Alignment, TextParse>)
    ensures
        follows(seen(r), final(tokens)@, legacy_alignment_spec(old(tokens)@)),
{
    proof {
        lemma_five_numbers(tokens@);
    }
    let offset_x = match parse_number(tokens) {
        Err(e) => {
            return Err(e);
        },
        Ok(number) => number,
    };
    let offset_y = match parse_number(tokens) {
        Err(e) => {
            return Err(e);
        },
        Ok(number) => number,
    };
    let ghost behind_offsets = tokens@;
    let (rotation, scale) = match parse_turn(tokens) {
        Err(e) => {
            return Err(e);
        },
        Ok(turn) => turn,
    };
    let ghost offsets = seq![offset_x@, offset_y@];
    let alignment = Alignment { offset: [offset_x, offset_y], rotation, scale, axes: None };
    proof {
        lemma_numbers_spec_advances(behind_offsets, 3);
        let others = numbers_spec(behind_offsets, 3)->Ok_0.0;
        let n = offsets + others;
        assert(numbers_spec(old(tokens)@, 5)->Ok_0.0 == n);
        assert(n[0] == offset_x@ && n[1] == offset_y@);
        assert(n[2] == others[0] && n[3] == others[1] && n[4] == others[2]);
        assert(alignment@.offset =~= seq![n[0], n[1]]);
        assert(alignment@.scale =~= seq![n[3], n[4]]);
    }
    Ok(alignment)
}

/// Reads rotation and the two scales, which end both forms of an
/// alignment.
fn parse_turn(tokens: &mut TokenPeekable) -> (r: Result<(Number, [Number; 2]), TextParse>)
    ensures
        match numbers_spec(old(tokens)@, 3) {
            Ok((n, rest)) => r matches Ok((rotation, scale)) && final(tokens)@ == rest
                && rotation@ == n[0] && scale.deep_view() == seq![n[1], n[2]],
            Err(e) => r matches Err(error) && error@ == e,
        },
{
    proof {
        lemma_three_numbers(tokens@);
    }
    let rotation = match parse_number(tokens) {
        Err(e) => {
            return Err(e);
        },
        Ok(number) => number,
    };
    let scale_x = match parse_number(tokens) {
        Err(e) => {
            return Err(e);
        },
        Ok(number) => number,
    };
    let scale_y = match parse_number(tokens) {
        Err(e) => {
            return Err(e);
        },
        Ok(number) => number,
    };
    let ghost scales = seq![scale_x@, scale_y@];
    let scale = [scale_x, scale_y];
    proof {
        assert(scale.deep_view() =~= scales);
    }
    Ok((rotation, scale))
}

/// Reads a texture axis with its offset.
fn parse_axis(tokens: &mut TokenPeekable) -> (r: Result<([Number; 3], Number), TextParse>)
    ensures
        match axis_spec(old(tokens)@) {
            Ok((axis, rest)) => r matches Ok((numbers, offset)) && final(tokens)@ == rest
                && numbers.deep_view() == seq![axis[0], axis[1], axis[2]] && offset@ == axis[3],
            Err(e) => r matches Err(error) && error@ == e,
        },
{
    match parse_byte(tokens, OPEN_BRACKET) {
        Err(e) => {
            return Err(e);
        },
        Ok(_) => {},
    }
    proof {
        lemma_four_numbers(tokens@);
    }
    let x = match parse_number(tokens) {
        Err(e) => {
            return Err(e);
        },
        Ok(number) => number,
    };
    proof {
        lemma_three_numbers(tokens@);
    }
    let y = match parse_number(tokens) {
        Err(e) => {
            return Err(e);
        },
        Ok(number) => number,
    };
    let z = match parse_number(tokens) {
        Err(e) => {
            return Err(e);
        },
        Ok(number) => number,
    };
    let offset = match parse_number(tokens) {
        Err(e) => {
            return Err(e);
        },
        Ok(number) => number,
    };
    match parse_byte(tokens, CLOSE_BRACKET) {
        Err(e) => {
            return Err(e);
        },
        Ok(_) => {},
    }
    let ghost views = seq![x@, y@, z@];
    let numbers = [x, y, z];
    proof {
        assert(numbers.deep_view() =~= views);
    }
    Ok((numbers, offset))
}

/// Reads an alignment of the form with axes.
pub fn parse_valve_alignment(tokens: &mut TokenPeekable) -> (r: Result<Alignment, TextParse>)
    ensures
        follows(seen(r), final(tokens)@, valve_alignment_spec(old(tokens)@)),
{
    let (u, offset_x) = match parse_axis(tokens) {
        Err(e) => {
            return Err(e);
        },
        Ok(axis) => axis,
    };
    let (v, offset_y) = match parse_axis(tokens) {
        Err(e) => {
            return Err(e);
        },
        Ok(axis) => axis,
    };
    let (rotation, scale) = match parse_turn(tokens) {
        Err(e) => {
            return Err(e);
        },
        Ok(turn) => turn,
    };
    let ghost offsets = seq![offset_x@, offset_y@];
    let ghost axes = seq![u.deep_view(), v.deep_view()];
    let alignment = Alignment {
        offset: [offset_x, offset_y],
        rotation,
        scale,
        axes: Some([u, v]),
    };
    proof {
        assert(alignment@.offset =~= offsets);
        assert(alignment@.axes->0 =~= axes);
    }
    Ok(alignment)
}

/// Is the next token the byte `byte`?
fn peek_byte(tokens: &TokenPeekable, byte: u8) -> (r: bool)
    ensures
        r == next_is(tokens@, byte),
{
    match tokens.peek() {
        Some(token) => token.match_byte(byte),
        None => false,
    }
}

/// Is the next token a quoted span?
fn peek_quoted(tokens: &TokenPeekable) -> (r: bool)
    ensures
        r == next_is_quoted(tokens@),
{
    match tokens.peek() {
        Some(token) => token.match_quoted(),
        None => false,
    }
}

/// Ends a run of items before a token that begins no further item: gives
/// the items, or the error where that is what stands next.
fn finish_list<T: DeepView>(tokens: &mut TokenPeekable, items: T) -> (r: Result<T, TextParse>)
    ensures
        match pending_error(old(tokens)@) {
            Some(e) => r matches Err(error) && error@ == e,
            None => r matches Ok(value) && value == items && final(tokens)@ == old(tokens)@,
        },
{
    if tokens.peek().is_none() {
        match tokens.extract() {
            Err(e) => {
                return Err(e);
            },
            Ok(_) => {
                proof {
                    assert(old(tokens)@.tokens =~= Seq::<TokenView>::empty());
                    assert(old(tokens)@.tail().tokens =~= Seq::<TokenView>::empty());
                }
            },
        }
    }
    Ok(items)
}

/// Takes the next token, which is to be the byte `byte`.
fn parse_byte(tokens: &mut TokenPeekable, byte: u8) -> (r: Result<(), TextParse>)
    ensures
        follows(seen(r), final(tokens)@, byte_spec(old(tokens)@, byte)),
{
    let token = match tokens.extract() {
        Err(e) => {
            return Err(e);
        },
        Ok(token) => token,
    };
    expect_byte(&token, byte)
}

/// Takes the next token, which is to be a numeral.
fn parse_number(tokens: &mut TokenPeekable) -> (r: Result<Number, TextParse>)
    ensures
        follows(seen(r), final(tokens)@, number_spec(old(tokens)@)),
{
    let token = match tokens.extract() {
        Err(e) => {
            return Err(e);
        },
        Ok(token) => token,
    };
    expect_float(&token)
}

/// Appends `byte` between two backticks.
fn push_ticked(message: &mut String, byte: u8)
    ensures
        final(message)@ == old(message)@ + ticked(byte),
{
    push_char(message, '`');
    push_char(message, byte as char);
    push_char(message, '`');
    proof {
        assert(message@ =~= old(message)@ + ticked(byte));
    }
}

/// Ends a message with what was got in place of what was expected.
fn push_got(message: &mut String, token: &Token)
    ensures
        final(message)@ == old(message)@ + got(token@.text),
{
    message.append(", got `");
    push_latin1(message, token.text.as_bytes());
    message.append("`");
    proof {
        assert(message@ =~= old(message)@ + got(token@.text));
    }
}

/// Passes the token that is the one byte `byte`.
pub fn expect_byte(token: &Option<Token>, byte: u8) -> (r: Result<(), TextParse>)
    ensures
        seen(r) == expect_byte_spec(token.deep_view(), byte),
{
    match token {
        Some(payload) => {
            if payload.match_byte(byte) {
                Ok(())
            } else {
                let mut message = String::from_str("Expected ");
                push_ticked(&mut message, byte);
                push_got(&mut message, payload);
                Err(TextParse::from_parser(message, payload.line_number))
            }
        },
        None => Err(TextParse::eof()),
    }
}

/// Passes the token that is the one byte `byte`, and names in the error
/// the bytes `rest` as well.
pub fn expect_byte_or(token: &Option<Token>, byte: u8, rest: &[u8]) -> (r: Result<
    (),
    TextParse,
>)
    ensures
        seen(r) == expect_byte_or_spec(token.deep_view(), byte, rest@),
{
    match token {
        Some(payload) => {
            if payload.match_byte(byte) {
                Ok(())
            } else {
                let mut message = String::from_str("Expected ");
                let ghost start = message@;
                let mut i: usize = 0;
                while i < rest.len()
                    invariant
                        i <= rest@.len(),
                        message@ == start + alternatives(rest@, i as int),
                    decreases rest@.len() - i,
                {
                    let ghost before = message@;
                    if i > 0 {
                        message.append(", ");
                    }
                    push_ticked(&mut message, rest[i]);
                    proof {
                        if i > 0 {
                            assert(message@ =~= start + (alternatives(rest@, i as int) + ", "@
                                + ticked(rest@[i as int])));
                        } else {
                            assert(message@ =~= start + ticked(rest@[0]));
                        }
                    }
                    i += 1;
                }
                message.append(" or ");
                push_ticked(&mut message, byte);
                push_got(&mut message, payload);
                Err(TextParse::from_parser(message, payload.line_number))
            }
        },
        None => Err(TextParse::eof()),
    }
}

/// Passes the token that is a quoted span.
pub fn expect_quoted(token: &Option<Token>) -> (r: Result<(), TextParse>)
    ensures
        seen(r) == expect_quoted_spec(token.deep_view()),
{
    match token {
        Some(payload) => {
            if payload.match_quoted() {
                Ok(())
            } else {
                let mut message = String::from_str("Expected quoted");
                push_got(&mut message, payload);
                Err(TextParse::from_parser(message, payload.line_number))
            }
        },
        None => Err(TextParse::eof()),
    }
}

/// Gives the number of the token that is a numeral.
pub fn expect_float(token: &Option<Token>) -> (r: Result<Number, TextParse>)
    ensures
        seen(r) == expect_number_spec(token.deep_view()),
{
    match token {
        Some(payload) => {
            match Number::parse(payload.text.as_bytes().as_slice()) {
                Some(number) => Ok(number),
                None => {
                    let mut message = String::from_str("Expected number");
                    push_got(&mut message, payload);
                    Err(TextParse::from_parser(message, payload.line_number))
                },
            }
        },
        None => Err(TextParse::eof()),
    }
}

/// The text between the two quotes of a quoted span.
pub fn strip_quoted(quoted_text: &Text) -> (r: Text)
    requires
        quoted_text@.len() >= 2,
    ensures
        r@ == stripped(quoted_text@),
{
    quoted_text.subrange(1, quoted_text.len() - 1)
}

} // verus!
