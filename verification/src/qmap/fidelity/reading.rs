//! The document that the parser makes of the tokens that a document is
//! written as.

use crate::error::TextParseView;
use crate::qmap::check::writes_unquoted;
use crate::qmap::fidelity::words::{
    alignment_words, axis_words, brush_words, brushes_words, entities_words, entity_words,
    half_space_words, pair_words, pairs_words, point_words, sound_alignment, sound_brush,
    sound_brushes, sound_entity, sound_numbers, sound_points, sound_surface, sound_texture,
    surface_words, surfaces_words, turn_words, word,
};
use crate::qmap::lexer::{is_quoted, TokenStream, TokenView, QUOTE};
use crate::qmap::number::{is_finite_literal, is_numeral_byte, lemma_finite_literal_bytes};
use crate::qmap::parser::{
    alignment_spec, axis_spec, brush_spec, brushes_spec, byte_spec, entities_spec, entity_spec,
    extract_spec, lemma_three_points, next_is, next_is_quoted, number_spec, numbers_spec,
    pair_spec, pairs_spec, pending_error, point_spec, points_spec, stripped, surface_spec,
    surfaces_spec, texture_spec, CLOSE_BRACE, CLOSE_BRACKET, CLOSE_PAREN, OPEN_BRACE, OPEN_BRACKET,
    OPEN_PAREN,
};
use crate::qmap::repr::{
    distinct_keys, has_key, with_pair, AlignmentView, EntityView, SurfaceView,
};
use crate::qmap::write::{in_quotes, texture_text};
use vstd::prelude::*;

verus! {

/// The tokens behind the first `n`.
pub open spec fn behind(s: TokenStream, n: int) -> TokenStream {
    TokenStream { tokens: s.tokens.skip(n), end: s.end }
}

/// The first tokens of `s` have the texts `words`.
pub open spec fn begins(s: TokenStream, words: Seq<Seq<u8>>) -> bool {
    &&& s.tokens.len() >= words.len()
    &&& forall|i: int| 0 <= i < words.len() ==> (#[trigger] s.tokens[i]).text == words[i]
}

pub proof fn lemma_behind_none(s: TokenStream)
    ensures
        behind(s, 0) == s,
{
    assert(s.tokens.skip(0) =~= s.tokens);
}

pub proof fn lemma_behind_behind(s: TokenStream, a: int, b: int)
    requires
        0 <= a,
        0 <= b,
        a + b <= s.tokens.len(),
    ensures
        behind(behind(s, a), b) == behind(s, a + b),
{
    assert(s.tokens.skip(a).skip(b) =~= s.tokens.skip(a + b));
}

/// Tokens that begin with words one behind the other begin with the first
/// and go on with the second.
pub proof fn lemma_begins_split(s: TokenStream, a: Seq<Seq<u8>>, b: Seq<Seq<u8>>)
    requires
        begins(s, a + b),
    ensures
        begins(s, a),
        begins(behind(s, a.len() as int), b),
{
    assert forall|i: int| 0 <= i < a.len() implies (#[trigger] s.tokens[i]).text == a[i] by {
        assert((a + b)[i] == a[i]);
    }
    let rest = behind(s, a.len() as int);
    assert forall|i: int| 0 <= i < b.len() implies (#[trigger] rest.tokens[i]).text == b[i] by {
        assert(rest.tokens[i] == s.tokens[a.len() + i]);
        assert((a + b)[a.len() + i] == b[i]);
    }
}

/// Tokens that begin with words begin with the first of the words.
pub proof fn lemma_begins_prefix(s: TokenStream, words: Seq<Seq<u8>>, n: int)
    requires
        begins(s, words),
        0 <= n <= words.len(),
    ensures
        begins(s, words.take(n)),
{
}

/// Where a token is next, taking it leaves the tokens behind it.
pub proof fn lemma_read_token(s: TokenStream)
    requires
        s.tokens.len() >= 1,
    ensures
        extract_spec(s) == Ok::<(Option<TokenView>, TokenStream), TextParseView>(
            (Some(s.tokens[0]), behind(s, 1)),
        ),
{
}

pub proof fn lemma_read_byte(s: TokenStream, byte: u8)
    requires
        s.tokens.len() >= 1,
        s.tokens[0].text == word(byte),
    ensures
        byte_spec(s, byte) == Ok::<((), TokenStream), TextParseView>(((), behind(s, 1))),
{
    lemma_read_token(s);
}

pub proof fn lemma_read_number(s: TokenStream, numeral: Seq<u8>)
    requires
        s.tokens.len() >= 1,
        s.tokens[0].text == numeral,
        is_finite_literal(numeral),
    ensures
        number_spec(s) == Ok::<(Seq<u8>, TokenStream), TextParseView>((numeral, behind(s, 1))),
{
    lemma_read_token(s);
}

pub proof fn lemma_read_numbers(s: TokenStream, numbers: Seq<Seq<u8>>, n: nat)
    requires
        begins(s, numbers),
        sound_numbers(numbers, n as int),
    ensures
        numbers_spec(s, n) == Ok::<(Seq<Seq<u8>>, TokenStream), TextParseView>(
            (numbers, behind(s, n as int)),
        ),
    decreases n,
{
    if n == 0 {
        lemma_behind_none(s);
        assert(numbers =~= Seq::<Seq<u8>>::empty());
    } else {
        assert(s.tokens[0].text == numbers[0]);
        lemma_read_number(s, numbers[0]);
        let rest = behind(s, 1);
        let others = numbers.skip(1);
        assert(begins(rest, others)) by {
            assert forall|i: int| 0 <= i < others.len() implies (#[trigger] rest.tokens[i]).text
                == others[i] by {
                assert(rest.tokens[i] == s.tokens[i + 1]);
            }
        }
        assert(sound_numbers(others, n - 1)) by {
            assert forall|i: int| 0 <= i < n - 1 implies is_finite_literal(
                #[trigger] others[i],
            ) by {
                assert(others[i] == numbers[i + 1]);
            }
        }
        lemma_read_numbers(rest, others, (n - 1) as nat);
        lemma_behind_behind(s, 1, n - 1);
        assert(seq![numbers[0]] + others =~= numbers);
    }
}

/// Tokens that begin with a mark, words and a mark go on with the words
/// behind the first mark and with the second mark behind the words.
proof fn lemma_between_marks(
    s: TokenStream,
    open: u8,
    words: Seq<Seq<u8>>,
    close: u8,
    all: Seq<Seq<u8>>,
)
    requires
        begins(s, all),
        all == seq![word(open)] + words + seq![word(close)],
    ensures
        s.tokens.len() >= words.len() + 2,
        s.tokens[0].text == word(open),
        begins(behind(s, 1), words),
        behind(s, 1 + words.len() as int).tokens.len() >= 1,
        behind(s, 1 + words.len() as int).tokens[0].text == word(close),
{
    assert(all.len() == words.len() + 2);
    assert(all[0] == word(open));
    let inner = behind(s, 1);
    assert forall|i: int| 0 <= i < words.len() implies (#[trigger] inner.tokens[i]).text
        == words[i] by {
        assert(inner.tokens[i] == s.tokens[i + 1]);
        assert(all[i + 1] == words[i]);
    }
    assert(behind(s, 1 + words.len() as int).tokens[0] == s.tokens[1 + words.len() as int]);
    assert(all[1 + words.len() as int] == word(close));
}

pub proof fn lemma_read_point(s: TokenStream, point: Seq<Seq<u8>>)
    requires
        begins(s, point_words(point)),
        sound_numbers(point, 3),
    ensures
        point_spec(s) == Ok::<(Seq<Seq<u8>>, TokenStream), TextParseView>((point, behind(s, 5))),
{
    assert(point_words(point) =~= seq![word(0x28)] + point + seq![word(0x29)]);
    lemma_between_marks(s, 0x28, point, 0x29, point_words(point));
    lemma_read_byte(s, OPEN_PAREN);
    lemma_read_numbers(behind(s, 1), point, 3);
    lemma_behind_behind(s, 1, 3);
    lemma_read_byte(behind(s, 4), CLOSE_PAREN);
    lemma_behind_behind(s, 4, 1);
}

pub proof fn lemma_read_half_space(s: TokenStream, points: Seq<Seq<Seq<u8>>>)
    requires
        begins(s, half_space_words(points)),
        sound_points(points, 3),
    ensures
        points_spec(s, 3) == Ok::<(Seq<Seq<Seq<u8>>>, TokenStream), TextParseView>(
            (points, behind(s, 15)),
        ),
{
    lemma_three_points(s);
    lemma_begins_split(s, point_words(points[0]) + point_words(points[1]), point_words(points[2]));
    lemma_begins_split(s, point_words(points[0]), point_words(points[1]));
    lemma_read_point(s, points[0]);
    lemma_read_point(behind(s, 5), points[1]);
    lemma_behind_behind(s, 5, 5);
    lemma_read_point(behind(s, 10), points[2]);
    lemma_behind_behind(s, 10, 5);
    assert(seq![points[0], points[1], points[2]] =~= points);
}

pub proof fn lemma_read_texture(s: TokenStream, name: Seq<u8>)
    requires
        s.tokens.len() >= 1,
        s.tokens[0].text == texture_text(name),
        sound_texture(name),
    ensures
        texture_spec(s) == Ok::<(Seq<u8>, TokenStream), TextParseView>((name, behind(s, 1))),
{
    lemma_read_token(s);
    if !writes_unquoted(name) {
        assert(in_quotes(name)[0] == QUOTE);
        assert(stripped(in_quotes(name)) =~= name);
    }
}

pub proof fn lemma_read_axis(s: TokenStream, axis: Seq<Seq<u8>>, offset: Seq<u8>)
    requires
        begins(s, axis_words(axis, offset)),
        sound_numbers(axis, 3),
        is_finite_literal(offset),
    ensures
        axis_spec(s) == Ok::<(Seq<Seq<u8>>, TokenStream), TextParseView>(
            (axis.push(offset), behind(s, 6)),
        ),
{
    let numbers = axis.push(offset);
    assert(axis_words(axis, offset) =~= seq![word(0x5b)] + numbers + seq![word(0x5d)]);
    lemma_between_marks(s, 0x5b, numbers, 0x5d, axis_words(axis, offset));
    lemma_read_byte(s, OPEN_BRACKET);
    lemma_read_numbers(behind(s, 1), numbers, 4);
    lemma_behind_behind(s, 1, 4);
    lemma_read_byte(behind(s, 5), CLOSE_BRACKET);
    lemma_behind_behind(s, 5, 1);
}

pub proof fn lemma_read_alignment(s: TokenStream, alignment: AlignmentView)
    requires
        begins(s, alignment_words(alignment)),
        sound_alignment(alignment),
    ensures
        alignment_spec(s) == Ok::<(AlignmentView, TokenStream), TextParseView>(
            (alignment, behind(s, alignment_words(alignment).len() as int)),
        ),
{
    let turn = turn_words(alignment);
    assert(sound_numbers(turn, 3));
    match alignment.axes {
        Some(axes) => {
            let u = axis_words(axes[0], alignment.offset[0]);
            let v = axis_words(axes[1], alignment.offset[1]);
            lemma_begins_split(s, u + v, turn);
            lemma_begins_split(s, u, v);
            assert(s.tokens[0].text == u[0]);
            lemma_read_axis(s, axes[0], alignment.offset[0]);
            lemma_read_axis(behind(s, 6), axes[1], alignment.offset[1]);
            lemma_behind_behind(s, 6, 6);
            lemma_read_numbers(behind(s, 12), turn, 3);
            lemma_behind_behind(s, 12, 3);
            let read_u = axes[0].push(alignment.offset[0]);
            let read_v = axes[1].push(alignment.offset[1]);
            assert(seq![read_u[3], read_v[3]] =~= alignment.offset);
            assert(seq![turn[1], turn[2]] =~= alignment.scale);
            assert(seq![read_u[0], read_u[1], read_u[2]] =~= axes[0]);
            assert(seq![read_v[0], read_v[1], read_v[2]] =~= axes[1]);
            assert(seq![axes[0], axes[1]] =~= axes);
        },
        None => {
            let offsets = seq![alignment.offset[0], alignment.offset[1]];
            let numbers = offsets + turn;
            assert(sound_numbers(numbers, 5)) by {
                assert forall|i: int| 0 <= i < 5 implies is_finite_literal(
                    #[trigger] numbers[i],
                ) by {
                    if i < 2 {
                        assert(numbers[i] == alignment.offset[i]);
                    } else {
                        assert(numbers[i] == turn[i - 2]);
                    }
                }
            }
            lemma_read_numbers(s, numbers, 5);
            lemma_finite_literal_bytes(alignment.offset[0]);
            assert(s.tokens[0].text == numbers[0]);
            assert(numbers[0] == alignment.offset[0]);
            assert(s.tokens[0].text != seq![OPEN_BRACKET]) by {
                assert(is_numeral_byte(alignment.offset[0][0]));
                assert(seq![OPEN_BRACKET][0] == OPEN_BRACKET);
            }
            assert(seq![numbers[0], numbers[1]] =~= alignment.offset);
            assert(seq![numbers[3], numbers[4]] =~= alignment.scale);
        },
    }
}

pub proof fn lemma_read_surface(s: TokenStream, surface: SurfaceView)
    requires
        begins(s, surface_words(surface)),
        sound_surface(surface),
    ensures
        surface_spec(s) == Ok::<(SurfaceView, TokenStream), TextParseView>(
            (surface, behind(s, surface_words(surface).len() as int)),
        ),
        surface_words(surface).len() >= 21,
        s.tokens[0].text == word(OPEN_PAREN),
{
    let points = half_space_words(surface.half_space);
    let texture = seq![texture_text(surface.texture)];
    let alignment = alignment_words(surface.alignment);
    lemma_begins_split(s, points + texture, alignment);
    lemma_begins_split(s, points, texture);
    lemma_read_half_space(s, surface.half_space);
    assert(points.len() == 15);
    assert(s.tokens[0].text == points[0]);
    assert(points[0] == point_words(surface.half_space[0])[0]);
    let behind_points = behind(s, 15);
    assert(behind_points.tokens[0].text == texture[0]);
    lemma_read_texture(behind_points, surface.texture);
    lemma_behind_behind(s, 15, 1);
    lemma_read_alignment(behind(s, 16), surface.alignment);
    lemma_behind_behind(s, 16, alignment.len() as int);
}

/// The words of the first of the surfaces are the first of the words of
/// more of them.
pub proof fn lemma_surfaces_words_prefix(surfaces: Seq<SurfaceView>, i: int, j: int)
    requires
        0 <= i <= j <= surfaces.len(),
    ensures
        surfaces_words(surfaces, i).len() <= surfaces_words(surfaces, j).len(),
        surfaces_words(surfaces, j).take(surfaces_words(surfaces, i).len() as int)
            == surfaces_words(surfaces, i),
    decreases j,
{
    if i == j {
        assert(surfaces_words(surfaces, j).take(surfaces_words(surfaces, i).len() as int)
            =~= surfaces_words(surfaces, i));
    } else {
        lemma_surfaces_words_prefix(surfaces, i, j - 1);
        assert(surfaces_words(surfaces, j).take(surfaces_words(surfaces, i).len() as int)
            =~= surfaces_words(surfaces, j - 1).take(surfaces_words(surfaces, i).len() as int));
    }
}

/// Behind the words of the first `i` surfaces stand the words of the
/// next.
proof fn lemma_begins_surface(s: TokenStream, surfaces: Seq<SurfaceView>, i: int)
    requires
        begins(s, surfaces_words(surfaces, surfaces.len() as int)),
        0 <= i < surfaces.len(),
    ensures
        begins(behind(s, surfaces_words(surfaces, i).len() as int), surface_words(surfaces[i])),
        surfaces_words(surfaces, i + 1).len() <= surfaces_words(
            surfaces,
            surfaces.len() as int,
        ).len(),
{
    let all = surfaces_words(surfaces, surfaces.len() as int);
    let upto = surfaces_words(surfaces, i + 1);
    lemma_surfaces_words_prefix(surfaces, i + 1, surfaces.len() as int);
    lemma_begins_prefix(s, all, upto.len() as int);
    lemma_begins_split(s, surfaces_words(surfaces, i), surface_words(surfaces[i]));
}

pub proof fn lemma_read_surfaces(s: TokenStream, surfaces: Seq<SurfaceView>, i: int)
    requires
        begins(s, surfaces_words(surfaces, surfaces.len() as int)),
        sound_brush(surfaces),
        0 <= i <= surfaces.len(),
        !next_is(behind(s, surfaces_words(surfaces, surfaces.len() as int).len() as int), OPEN_PAREN),
        pending_error(
            behind(s, surfaces_words(surfaces, surfaces.len() as int).len() as int),
        ) is None,
    ensures
        surfaces_spec(behind(s, surfaces_words(surfaces, i).len() as int), surfaces.take(i))
            == Ok::<(Seq<SurfaceView>, TokenStream), TextParseView>(
            (surfaces, behind(s, surfaces_words(surfaces, surfaces.len() as int).len() as int)),
        ),
    decreases surfaces.len() - i,
{
    let here = behind(s, surfaces_words(surfaces, i).len() as int);
    if i == surfaces.len() {
        assert(surfaces.take(i) =~= surfaces);
    } else {
        lemma_begins_surface(s, surfaces, i);
        lemma_read_surface(here, surfaces[i]);
        assert(next_is(here, OPEN_PAREN));
        lemma_behind_behind(
            s,
            surfaces_words(surfaces, i).len() as int,
            surface_words(surfaces[i]).len() as int,
        );
        assert(surfaces.take(i).push(surfaces[i]) =~= surfaces.take(i + 1));
        lemma_read_surfaces(s, surfaces, i + 1);
    }
}

pub proof fn lemma_read_brush(s: TokenStream, brush: Seq<SurfaceView>)
    requires
        begins(s, brush_words(brush)),
        sound_brush(brush),
    ensures
        brush_spec(s) == Ok::<(Seq<SurfaceView>, TokenStream), TextParseView>(
            (brush, behind(s, brush_words(brush).len() as int)),
        ),
        s.tokens[0].text == word(OPEN_BRACE),
        brush_words(brush).len() >= 2,
{
    let inner_words = surfaces_words(brush, brush.len() as int);
    lemma_between_marks(s, 0x7b, inner_words, 0x7d, brush_words(brush));
    lemma_read_byte(s, OPEN_BRACE);
    let inner = behind(s, 1);
    let end = behind(inner, inner_words.len() as int);
    lemma_behind_behind(s, 1, inner_words.len() as int);
    assert(end.tokens[0].text == word(CLOSE_BRACE));
    assert(!next_is(end, OPEN_PAREN)) by {
        assert(word(CLOSE_BRACE)[0] != seq![OPEN_PAREN][0]);
    }
    lemma_behind_none(inner);
    lemma_read_surfaces(inner, brush, 0);
    assert(brush.take(0) =~= Seq::<SurfaceView>::empty());
    lemma_read_token(end);
    lemma_behind_behind(s, 1 + inner_words.len() as int, 1);
}

pub proof fn lemma_brushes_words_prefix(brushes: Seq<Seq<SurfaceView>>, i: int, j: int)
    requires
        0 <= i <= j <= brushes.len(),
    ensures
        brushes_words(brushes, i).len() <= brushes_words(brushes, j).len(),
        brushes_words(brushes, j).take(brushes_words(brushes, i).len() as int) == brushes_words(
            brushes,
            i,
        ),
    decreases j,
{
    if i == j {
        assert(brushes_words(brushes, j).take(brushes_words(brushes, i).len() as int)
            =~= brushes_words(brushes, i));
    } else {
        lemma_brushes_words_prefix(brushes, i, j - 1);
        assert(brushes_words(brushes, j).take(brushes_words(brushes, i).len() as int)
            =~= brushes_words(brushes, j - 1).take(brushes_words(brushes, i).len() as int));
    }
}

proof fn lemma_begins_brush(s: TokenStream, brushes: Seq<Seq<SurfaceView>>, i: int)
    requires
        begins(s, brushes_words(brushes, brushes.len() as int)),
        0 <= i < brushes.len(),
    ensures
        begins(behind(s, brushes_words(brushes, i).len() as int), brush_words(brushes[i])),
        brushes_words(brushes, i + 1).len() <= brushes_words(brushes, brushes.len() as int).len(),
{
    let all = brushes_words(brushes, brushes.len() as int);
    let upto = brushes_words(brushes, i + 1);
    lemma_brushes_words_prefix(brushes, i + 1, brushes.len() as int);
    lemma_begins_prefix(s, all, upto.len() as int);
    lemma_begins_split(s, brushes_words(brushes, i), brush_words(brushes[i]));
}

pub proof fn lemma_read_brushes(s: TokenStream, brushes: Seq<Seq<SurfaceView>>, i: int)
    requires
        begins(s, brushes_words(brushes, brushes.len() as int)),
        sound_brushes(brushes),
        0 <= i <= brushes.len(),
        !next_is(behind(s, brushes_words(brushes, brushes.len() as int).len() as int), OPEN_BRACE),
        pending_error(
            behind(s, brushes_words(brushes, brushes.len() as int).len() as int),
        ) is None,
    ensures
        brushes_spec(behind(s, brushes_words(brushes, i).len() as int), brushes.take(i)) == Ok::<
            (Seq<Seq<SurfaceView>>, TokenStream),
            TextParseView,
        >((brushes, behind(s, brushes_words(brushes, brushes.len() as int).len() as int))),
    decreases brushes.len() - i,
{
    let here = behind(s, brushes_words(brushes, i).len() as int);
    if i == brushes.len() {
        assert(brushes.take(i) =~= brushes);
    } else {
        lemma_begins_brush(s, brushes, i);
        lemma_read_brush(here, brushes[i]);
        assert(next_is(here, OPEN_BRACE));
        lemma_behind_behind(
            s,
            brushes_words(brushes, i).len() as int,
            brush_words(brushes[i]).len() as int,
        );
        assert(brushes.take(i).push(brushes[i]) =~= brushes.take(i + 1));
        lemma_read_brushes(s, brushes, i + 1);
    }
}

pub proof fn lemma_read_pair(s: TokenStream, pair: (Seq<u8>, Seq<u8>))
    requires
        begins(s, pair_words(pair)),
    ensures
        pair_spec(s) == Ok::<((Seq<u8>, Seq<u8>), TokenStream), TextParseView>(
            (pair, behind(s, 2)),
        ),
        next_is_quoted(s),
{
    assert(s.tokens[0].text == pair_words(pair)[0]);
    assert(s.tokens[1].text == pair_words(pair)[1]);
    lemma_read_token(s);
    let rest = behind(s, 1);
    assert(rest.tokens[0] == s.tokens[1]);
    lemma_read_token(rest);
    lemma_behind_behind(s, 1, 1);
    assert(is_quoted(in_quotes(pair.0)));
    assert(is_quoted(in_quotes(pair.1)));
    assert(stripped(in_quotes(pair.0)) =~= pair.0);
    assert(stripped(in_quotes(pair.1)) =~= pair.1);
}

pub proof fn lemma_pairs_words_prefix(pairs: Seq<(Seq<u8>, Seq<u8>)>, i: int, j: int)
    requires
        0 <= i <= j <= pairs.len(),
    ensures
        pairs_words(pairs, i).len() == 2 * i,
        pairs_words(pairs, j).take(pairs_words(pairs, i).len() as int) == pairs_words(pairs, i),
    decreases j,
{
    if i == j {
        if i > 0 {
            lemma_pairs_words_prefix(pairs, i - 1, i - 1);
        }
        assert(pairs_words(pairs, j).take(pairs_words(pairs, i).len() as int) =~= pairs_words(
            pairs,
            i,
        ));
    } else {
        lemma_pairs_words_prefix(pairs, i, j - 1);
        lemma_pairs_words_prefix(pairs, j - 1, j - 1);
        assert(pairs_words(pairs, j).take(pairs_words(pairs, i).len() as int) =~= pairs_words(
            pairs,
            j - 1,
        ).take(pairs_words(pairs, i).len() as int));
    }
}

proof fn lemma_begins_pair(s: TokenStream, pairs: Seq<(Seq<u8>, Seq<u8>)>, i: int)
    requires
        begins(s, pairs_words(pairs, pairs.len() as int)),
        0 <= i < pairs.len(),
    ensures
        begins(behind(s, 2 * i), pair_words(pairs[i])),
        2 * i + 2 <= s.tokens.len(),
{
    let all = pairs_words(pairs, pairs.len() as int);
    let upto = pairs_words(pairs, i + 1);
    lemma_pairs_words_prefix(pairs, i + 1, pairs.len() as int);
    lemma_pairs_words_prefix(pairs, i, i);
    lemma_pairs_words_prefix(pairs, pairs.len() as int, pairs.len() as int);
    lemma_begins_prefix(s, all, upto.len() as int);
    lemma_begins_split(s, pairs_words(pairs, i), pair_words(pairs[i]));
}

pub proof fn lemma_read_pairs(s: TokenStream, pairs: Seq<(Seq<u8>, Seq<u8>)>, i: int)
    requires
        begins(s, pairs_words(pairs, pairs.len() as int)),
        distinct_keys(pairs),
        0 <= i <= pairs.len(),
        !next_is_quoted(behind(s, 2 * pairs.len() as int)),
        pending_error(behind(s, 2 * pairs.len() as int)) is None,
    ensures
        pairs_spec(behind(s, 2 * i), pairs.take(i)) == Ok::<
            (Seq<(Seq<u8>, Seq<u8>)>, TokenStream),
            TextParseView,
        >((pairs, behind(s, 2 * pairs.len() as int))),
    decreases pairs.len() - i,
{
    let here = behind(s, 2 * i);
    if i == pairs.len() {
        assert(pairs.take(i) =~= pairs);
    } else {
        lemma_begins_pair(s, pairs, i);
        lemma_read_pair(here, pairs[i]);
        lemma_behind_behind(s, 2 * i, 2);
        let read = pairs.take(i);
        assert(!has_key(read, pairs[i].0)) by {
            if has_key(read, pairs[i].0) {
                let j = choose|j: int| 0 <= j < read.len() && (#[trigger] read[j]).0 == pairs[i].0;
                assert(read[j] == pairs[j]);
                assert(pairs[j].0 != pairs[i].0);
            }
        }
        assert(with_pair(read, pairs[i].0, pairs[i].1) =~= pairs.take(i + 1));
        lemma_read_pairs(s, pairs, i + 1);
    }
}

/// The words of one brush or more begin with a brace.
proof fn lemma_brushes_words_first(brushes: Seq<Seq<SurfaceView>>)
    requires
        brushes.len() >= 1,
    ensures
        brushes_words(brushes, brushes.len() as int).len() >= 1,
        brushes_words(brushes, brushes.len() as int)[0] == word(OPEN_BRACE),
{
    lemma_brushes_words_prefix(brushes, 1, brushes.len() as int);
    lemma_brushes_words_prefix(brushes, 0, 1);
    let first = brushes_words(brushes, 1);
    assert(brushes_words(brushes, 0) =~= Seq::<Seq<u8>>::empty());
    assert(first =~= brush_words(brushes[0]));
    assert(brush_words(brushes[0])[0] == word(OPEN_BRACE));
    let all = brushes_words(brushes, brushes.len() as int);
    assert(all.take(first.len() as int)[0] == all[0]);
}

pub proof fn lemma_read_entity(s: TokenStream, entity: EntityView)
    requires
        begins(s, entity_words(entity)),
        sound_entity(entity),
    ensures
        entity_spec(s) == Ok::<(EntityView, TokenStream), TextParseView>(
            (entity, behind(s, entity_words(entity).len() as int)),
        ),
        entity_words(entity).len() >= 2,
{
    let pairs = pairs_words(entity.edict, entity.edict.len() as int);
    let brushes = brushes_words(entity.brushes, entity.brushes.len() as int);
    let inner_words = pairs + brushes;
    assert(entity_words(entity) =~= seq![word(0x7b)] + inner_words + seq![word(0x7d)]);
    lemma_between_marks(s, 0x7b, inner_words, 0x7d, entity_words(entity));
    lemma_read_byte(s, OPEN_BRACE);
    let inner = behind(s, 1);
    lemma_begins_split(inner, pairs, brushes);
    lemma_pairs_words_prefix(entity.edict, entity.edict.len() as int, entity.edict.len() as int);
    let behind_pairs = behind(inner, pairs.len() as int);
    let end = behind(behind_pairs, brushes.len() as int);
    lemma_behind_behind(inner, pairs.len() as int, brushes.len() as int);
    lemma_behind_behind(s, 1, inner_words.len() as int);
    assert(end.tokens[0].text == word(CLOSE_BRACE));
    assert(!next_is(end, OPEN_BRACE)) by {
        assert(word(CLOSE_BRACE)[0] != seq![OPEN_BRACE][0]);
    }
    assert(!is_quoted(word(CLOSE_BRACE)));
    assert(!is_quoted(word(OPEN_BRACE)));
    assert(!next_is_quoted(behind_pairs)) by {
        if entity.brushes.len() >= 1 {
            lemma_brushes_words_first(entity.brushes);
            assert(behind_pairs.tokens[0].text == brushes[0]);
        } else {
            assert(brushes =~= Seq::<Seq<u8>>::empty());
            assert(behind_pairs.tokens =~= end.tokens);
        }
    }
    assert(behind_pairs.tokens.len() >= 1);
    lemma_behind_none(inner);
    lemma_read_pairs(inner, entity.edict, 0);
    assert(entity.edict.take(0) =~= Seq::<(Seq<u8>, Seq<u8>)>::empty());
    lemma_behind_none(behind_pairs);
    lemma_read_brushes(behind_pairs, entity.brushes, 0);
    assert(entity.brushes.take(0) =~= Seq::<Seq<SurfaceView>>::empty());
    lemma_read_byte(end, CLOSE_BRACE);
    lemma_behind_behind(s, 1 + inner_words.len() as int, 1);
}

pub proof fn lemma_entities_words_prefix(entities: Seq<EntityView>, i: int, j: int)
    requires
        0 <= i <= j <= entities.len(),
    ensures
        entities_words(entities, i).len() <= entities_words(entities, j).len(),
        entities_words(entities, j).take(entities_words(entities, i).len() as int)
            == entities_words(entities, i),
    decreases j,
{
    if i == j {
        assert(entities_words(entities, j).take(entities_words(entities, i).len() as int)
            =~= entities_words(entities, i));
    } else {
        lemma_entities_words_prefix(entities, i, j - 1);
        assert(entities_words(entities, j).take(entities_words(entities, i).len() as int)
            =~= entities_words(entities, j - 1).take(entities_words(entities, i).len() as int));
    }
}

proof fn lemma_begins_entity(s: TokenStream, entities: Seq<EntityView>, i: int)
    requires
        begins(s, entities_words(entities, entities.len() as int)),
        0 <= i < entities.len(),
    ensures
        begins(behind(s, entities_words(entities, i).len() as int), entity_words(entities[i])),
        entities_words(entities, i + 1).len() <= entities_words(
            entities,
            entities.len() as int,
        ).len(),
{
    let all = entities_words(entities, entities.len() as int);
    let upto = entities_words(entities, i + 1);
    lemma_entities_words_prefix(entities, i + 1, entities.len() as int);
    lemma_begins_prefix(s, all, upto.len() as int);
    lemma_begins_split(s, entities_words(entities, i), entity_words(entities[i]));
}

/// The parser makes of the tokens of entities, and of nothing behind
/// them, these entities.
pub proof fn lemma_read_entities(s: TokenStream, entities: Seq<EntityView>, i: int)
    requires
        begins(s, entities_words(entities, entities.len() as int)),
        s.tokens.len() == entities_words(entities, entities.len() as int).len(),
        s.end is None,
        forall|k: int| 0 <= k < entities.len() ==> sound_entity(#[trigger] entities[k]),
        0 <= i <= entities.len(),
    ensures
        entities_spec(behind(s, entities_words(entities, i).len() as int), entities.take(i))
            == Ok::<Seq<EntityView>, TextParseView>(entities),
    decreases entities.len() - i,
{
    let here = behind(s, entities_words(entities, i).len() as int);
    if i == entities.len() {
        assert(entities.take(i) =~= entities);
        assert(here.tokens.len() == 0);
    } else {
        lemma_begins_entity(s, entities, i);
        lemma_read_entity(here, entities[i]);
        assert(here.tokens.len() >= 2);
        lemma_behind_behind(
            s,
            entities_words(entities, i).len() as int,
            entity_words(entities[i]).len() as int,
        );
        assert(entities.take(i).push(entities[i]) =~= entities.take(i + 1));
        lemma_read_entities(s, entities, i + 1);
    }
}

} // verus!
