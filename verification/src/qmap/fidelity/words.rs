//! The tokens that a document is written as, and the proof that its text
//! spells them.

use crate::qmap::check::{
    breaks_quoted, is_quotable, lemma_quotable, texture_fault, unquoted_fault, writes_unquoted,
};
use crate::qmap::fidelity::spelling::{
    is_gap, is_inner, is_plain, lemma_spells_both, lemma_spells_nothing, lemma_spells_plain,
    lemma_spells_quoted, quote_free, space_free, spells,
};
use crate::qmap::lexer::{is_space, QUOTE, SLASH};
use crate::qmap::number::{is_finite_literal, is_numeral_byte, lemma_finite_literal_bytes};
use crate::qmap::repr::{
    distinct_keys, AlignmentView, EntityView, QuakeMapView, SurfaceView,
};
use crate::qmap::write::{
    alignment_text, axis_text, blank, brush_text, brushes_text, closing_line, entities_text,
    entity_text, half_space_text, in_quotes, line_end, map_text, opening_line, pair_text,
    pairs_text, point_text, surface_text, surfaces_text, texture_text, turn_text,
};
use crate::text::nul_free;
use vstd::prelude::*;

verus! {

/// The token of one byte.
pub open spec fn word(byte: u8) -> Seq<u8> {
    seq![byte]
}

pub open spec fn point_words(point: Seq<Seq<u8>>) -> Seq<Seq<u8>> {
    seq![word(0x28), point[0], point[1], point[2], word(0x29)]
}

pub open spec fn half_space_words(points: Seq<Seq<Seq<u8>>>) -> Seq<Seq<u8>> {
    point_words(points[0]) + point_words(points[1]) + point_words(points[2])
}

pub open spec fn axis_words(axis: Seq<Seq<u8>>, offset: Seq<u8>) -> Seq<Seq<u8>> {
    seq![word(0x5b), axis[0], axis[1], axis[2], offset, word(0x5d)]
}

pub open spec fn turn_words(alignment: AlignmentView) -> Seq<Seq<u8>> {
    seq![alignment.rotation, alignment.scale[0], alignment.scale[1]]
}

pub open spec fn alignment_words(alignment: AlignmentView) -> Seq<Seq<u8>> {
    match alignment.axes {
        Some(axes) => axis_words(axes[0], alignment.offset[0]) + axis_words(
            axes[1],
            alignment.offset[1],
        ) + turn_words(alignment),
        None => seq![alignment.offset[0], alignment.offset[1]] + turn_words(alignment),
    }
}

pub open spec fn surface_words(surface: SurfaceView) -> Seq<Seq<u8>> {
    half_space_words(surface.half_space) + seq![texture_text(surface.texture)] + alignment_words(
        surface.alignment,
    )
}

/// The tokens of the first `n` of `surfaces`.
pub open spec fn surfaces_words(surfaces: Seq<SurfaceView>, n: int) -> Seq<Seq<u8>>
    decreases n,
{
    if 0 < n <= surfaces.len() {
        surfaces_words(surfaces, n - 1) + surface_words(surfaces[n - 1])
    } else {
        Seq::empty()
    }
}

pub open spec fn brush_words(brush: Seq<SurfaceView>) -> Seq<Seq<u8>> {
    seq![word(0x7b)] + surfaces_words(brush, brush.len() as int) + seq![word(0x7d)]
}

/// The tokens of the first `n` of `brushes`.
pub open spec fn brushes_words(brushes: Seq<Seq<SurfaceView>>, n: int) -> Seq<Seq<u8>>
    decreases n,
{
    if 0 < n <= brushes.len() {
        brushes_words(brushes, n - 1) + brush_words(brushes[n - 1])
    } else {
        Seq::empty()
    }
}

pub open spec fn pair_words(pair: (Seq<u8>, Seq<u8>)) -> Seq<Seq<u8>> {
    seq![in_quotes(pair.0), in_quotes(pair.1)]
}

/// The tokens of the first `n` of `pairs`.
pub open spec fn pairs_words(pairs: Seq<(Seq<u8>, Seq<u8>)>, n: int) -> Seq<Seq<u8>>
    decreases n,
{
    if 0 < n <= pairs.len() {
        pairs_words(pairs, n - 1) + pair_words(pairs[n - 1])
    } else {
        Seq::empty()
    }
}

pub open spec fn entity_words(entity: EntityView) -> Seq<Seq<u8>> {
    seq![word(0x7b)] + pairs_words(entity.edict, entity.edict.len() as int) + brushes_words(
        entity.brushes,
        entity.brushes.len() as int,
    ) + seq![word(0x7d)]
}

/// The tokens of the first `n` of `entities`.
pub open spec fn entities_words(entities: Seq<EntityView>, n: int) -> Seq<Seq<u8>>
    decreases n,
{
    if 0 < n <= entities.len() {
        entities_words(entities, n - 1) + entity_words(entities[n - 1])
    } else {
        Seq::empty()
    }
}

/// The tokens that a map is written as.
pub open spec fn map_words(map: QuakeMapView) -> Seq<Seq<u8>> {
    entities_words(map.entities, map.entities.len() as int)
}

/// `n` numerals of finite numbers.
pub open spec fn sound_numbers(numbers: Seq<Seq<u8>>, n: int) -> bool {
    &&& numbers.len() == n
    &&& forall|i: int| 0 <= i < n ==> is_finite_literal(#[trigger] numbers[i])
}

/// `n` points of three finite numbers each.
pub open spec fn sound_points(points: Seq<Seq<Seq<u8>>>, n: int) -> bool {
    &&& points.len() == n
    &&& forall|i: int| 0 <= i < n ==> sound_numbers(#[trigger] points[i], 3)
}

/// A texture name that stands alone as a token would be read as something
/// else where it is one slash, which takes the blank behind it, or begins
/// with two, which begin a comment.
pub open spec fn misread_as_comment(name: Seq<u8>) -> bool {
    writes_unquoted(name) && name[0] == SLASH && (name.len() == 1 || name[1] == SLASH)
}

/// A texture name that is written and read back as it is.
pub open spec fn sound_texture(name: Seq<u8>) -> bool {
    &&& nul_free(name)
    &&& texture_fault(name) is None
    &&& !misread_as_comment(name)
}

pub open spec fn sound_alignment(alignment: AlignmentView) -> bool {
    &&& sound_numbers(alignment.offset, 2)
    &&& is_finite_literal(alignment.rotation)
    &&& sound_numbers(alignment.scale, 2)
    &&& alignment.axes matches Some(axes) ==> sound_points(axes, 2)
}

pub open spec fn sound_surface(surface: SurfaceView) -> bool {
    &&& sound_points(surface.half_space, 3)
    &&& sound_texture(surface.texture)
    &&& sound_alignment(surface.alignment)
}

pub open spec fn sound_brush(brush: Seq<SurfaceView>) -> bool {
    forall|i: int| 0 <= i < brush.len() ==> sound_surface(#[trigger] brush[i])
}

pub open spec fn sound_brushes(brushes: Seq<Seq<SurfaceView>>) -> bool {
    forall|i: int| 0 <= i < brushes.len() ==> sound_brush(#[trigger] brushes[i])
}

/// A key or a value that is written between quotes and read back as it
/// is.
pub open spec fn sound_text(text: Seq<u8>) -> bool {
    nul_free(text) && is_quotable(text)
}

pub open spec fn sound_pairs(pairs: Seq<(Seq<u8>, Seq<u8>)>) -> bool {
    forall|i: int|
        0 <= i < pairs.len() ==> sound_text((#[trigger] pairs[i]).0) && sound_text(pairs[i].1)
}

pub open spec fn sound_entity(entity: EntityView) -> bool {
    &&& distinct_keys(entity.edict)
    &&& sound_pairs(entity.edict)
    &&& sound_brushes(entity.brushes)
}

/// A map of which every part is written and read back as it is.
pub open spec fn sound_map(map: QuakeMapView) -> bool {
    forall|i: int| 0 <= i < map.entities.len() ==> sound_entity(#[trigger] map.entities[i])
}

/// A blank and the end of a line are whitespace.
pub proof fn lemma_gaps()
    ensures
        is_gap(blank()),
        is_gap(line_end()),
{
}

/// The numeral of a finite number is plain text.
pub proof fn lemma_numeral_plain(numeral: Seq<u8>)
    requires
        is_finite_literal(numeral),
    ensures
        is_plain(numeral),
{
    lemma_finite_literal_bytes(numeral);
    assert forall|i: int| 0 <= i < numeral.len() implies numeral[i] != 0 && !is_space(
        #[trigger] numeral[i],
    ) by {
        assert(is_numeral_byte(numeral[i]));
    }
    assert(is_numeral_byte(numeral[0]));
}

/// What one text spells, and another with whitespace behind it, they
/// spell one behind the other.
pub proof fn lemma_spells_append(
    a: Seq<u8>,
    words_a: Seq<Seq<u8>>,
    b: Seq<u8>,
    gap: Seq<u8>,
    words_b: Seq<Seq<u8>>,
)
    requires
        spells(a, words_a),
        spells(b + gap, words_b),
    ensures
        spells(a + b + gap, words_a + words_b),
{
    lemma_spells_both(a, words_a, b + gap, words_b);
    assert(a + (b + gap) =~= a + b + gap);
}

/// Behind what a text spells, plain text with whitespace behind it spells
/// itself.
pub proof fn lemma_spells_then(a: Seq<u8>, words: Seq<Seq<u8>>, text: Seq<u8>, gap: Seq<u8>)
    requires
        spells(a, words),
        is_plain(text),
        is_gap(gap),
    ensures
        spells(a + text + gap, words.push(text)),
{
    lemma_spells_plain(text, gap);
    lemma_spells_append(a, words, text, gap, seq![text]);
    assert(words + seq![text] =~= words.push(text));
}

/// Behind what a text spells, the numeral of a finite number with
/// whitespace behind it spells itself.
pub proof fn lemma_spells_then_number(
    a: Seq<u8>,
    words: Seq<Seq<u8>>,
    numeral: Seq<u8>,
    gap: Seq<u8>,
)
    requires
        spells(a, words),
        is_finite_literal(numeral),
        is_gap(gap),
    ensures
        spells(a + numeral + gap, words.push(numeral)),
{
    lemma_numeral_plain(numeral);
    lemma_spells_then(a, words, numeral, gap);
}

/// A bracket or a brace is plain text.
pub proof fn lemma_mark_plain(byte: u8)
    requires
        byte == 0x28 || byte == 0x29 || byte == 0x5b || byte == 0x5d || byte == 0x7b || byte
            == 0x7d,
    ensures
        is_plain(word(byte)),
{
}

pub proof fn lemma_spells_point(point: Seq<Seq<u8>>, gap: Seq<u8>)
    requires
        sound_numbers(point, 3),
        is_gap(gap),
    ensures
        spells(point_text(point) + gap, point_words(point)),
{
    lemma_gaps();
    lemma_mark_plain(0x28);
    lemma_mark_plain(0x29);
    lemma_spells_plain(word(0x28), blank());
    let t0 = seq![0x28u8, 0x20];
    assert(t0 =~= word(0x28) + blank());
    let w0 = seq![word(0x28)];
    let t1 = t0 + point[0] + blank();
    lemma_spells_then_number(t0, w0, point[0], blank());
    let t2 = t1 + point[1] + blank();
    lemma_spells_then_number(t1, w0.push(point[0]), point[1], blank());
    let t3 = t2 + point[2] + blank();
    lemma_spells_then_number(t2, w0.push(point[0]).push(point[1]), point[2], blank());
    lemma_spells_then(
        t3,
        w0.push(point[0]).push(point[1]).push(point[2]),
        word(0x29),
        gap,
    );
    assert(w0.push(point[0]).push(point[1]).push(point[2]).push(word(0x29)) =~= point_words(
        point,
    ));
    assert(t3 + word(0x29) + gap =~= point_text(point) + gap);
}

pub proof fn lemma_spells_half_space(points: Seq<Seq<Seq<u8>>>, gap: Seq<u8>)
    requires
        sound_points(points, 3),
        is_gap(gap),
    ensures
        spells(half_space_text(points) + gap, half_space_words(points)),
{
    lemma_gaps();
    lemma_spells_point(points[0], blank());
    lemma_spells_point(points[1], blank());
    lemma_spells_point(points[2], gap);
    let t1 = point_text(points[0]) + blank();
    lemma_spells_append(t1, point_words(points[0]), point_text(points[1]), blank(), point_words(
        points[1],
    ));
    let t2 = t1 + point_text(points[1]) + blank();
    lemma_spells_append(
        t2,
        point_words(points[0]) + point_words(points[1]),
        point_text(points[2]),
        gap,
        point_words(points[2]),
    );
}

pub proof fn lemma_spells_texture(name: Seq<u8>, gap: Seq<u8>)
    requires
        sound_texture(name),
        is_gap(gap),
    ensures
        spells(texture_text(name) + gap, seq![texture_text(name)]),
{
    if writes_unquoted(name) {
        assert(space_free(name));
        lemma_spells_plain(name, gap);
    } else {
        assert(unquoted_fault(name) is Some);
        lemma_quotable(name, 0);
        assert(quote_free(name)) by {
            assert forall|i: int| 0 <= i < name.len() implies #[trigger] name[i] != QUOTE by {
                assert(!breaks_quoted(name[i]));
            }
        }
        lemma_spells_quoted(name, gap);
    }
}

pub proof fn lemma_spells_axis(axis: Seq<Seq<u8>>, offset: Seq<u8>, gap: Seq<u8>)
    requires
        sound_numbers(axis, 3),
        is_finite_literal(offset),
        is_gap(gap),
    ensures
        spells(axis_text(axis, offset) + gap, axis_words(axis, offset)),
{
    lemma_gaps();
    lemma_mark_plain(0x5b);
    lemma_mark_plain(0x5d);
    lemma_spells_plain(word(0x5b), blank());
    let t0 = seq![0x5bu8, 0x20];
    assert(t0 =~= word(0x5b) + blank());
    let w0 = seq![word(0x5b)];
    let t1 = t0 + axis[0] + blank();
    lemma_spells_then_number(t0, w0, axis[0], blank());
    let t2 = t1 + axis[1] + blank();
    lemma_spells_then_number(t1, w0.push(axis[0]), axis[1], blank());
    let t3 = t2 + axis[2] + blank();
    lemma_spells_then_number(t2, w0.push(axis[0]).push(axis[1]), axis[2], blank());
    let t4 = t3 + offset + blank();
    lemma_spells_then_number(t3, w0.push(axis[0]).push(axis[1]).push(axis[2]), offset, blank());
    lemma_spells_then(
        t4,
        w0.push(axis[0]).push(axis[1]).push(axis[2]).push(offset),
        word(0x5d),
        gap,
    );
    assert(w0.push(axis[0]).push(axis[1]).push(axis[2]).push(offset).push(word(0x5d))
        =~= axis_words(axis, offset));
    assert(t4 + word(0x5d) + gap =~= axis_text(axis, offset) + gap);
}

pub proof fn lemma_spells_turn(alignment: AlignmentView, gap: Seq<u8>)
    requires
        sound_alignment(alignment),
        is_gap(gap),
    ensures
        spells(turn_text(alignment) + gap, turn_words(alignment)),
{
    lemma_gaps();
    lemma_spells_nothing();
    let e = Seq::<u8>::empty();
    let w = Seq::<Seq<u8>>::empty();
    lemma_spells_then_number(e, w, alignment.rotation, blank());
    let t1 = e + alignment.rotation + blank();
    lemma_spells_then_number(t1, w.push(alignment.rotation), alignment.scale[0], blank());
    let t2 = t1 + alignment.scale[0] + blank();
    lemma_spells_then_number(
        t2,
        w.push(alignment.rotation).push(alignment.scale[0]),
        alignment.scale[1],
        gap,
    );
    assert(w.push(alignment.rotation).push(alignment.scale[0]).push(alignment.scale[1])
        =~= turn_words(alignment));
    assert(t2 + alignment.scale[1] + gap =~= turn_text(alignment) + gap);
}

pub proof fn lemma_spells_alignment(alignment: AlignmentView, gap: Seq<u8>)
    requires
        sound_alignment(alignment),
        is_gap(gap),
    ensures
        spells(alignment_text(alignment) + gap, alignment_words(alignment)),
{
    lemma_gaps();
    lemma_spells_turn(alignment, gap);
    match alignment.axes {
        Some(axes) => {
            lemma_spells_axis(axes[0], alignment.offset[0], blank());
            lemma_spells_axis(axes[1], alignment.offset[1], blank());
            let t1 = axis_text(axes[0], alignment.offset[0]) + blank();
            lemma_spells_append(
                t1,
                axis_words(axes[0], alignment.offset[0]),
                axis_text(axes[1], alignment.offset[1]),
                blank(),
                axis_words(axes[1], alignment.offset[1]),
            );
            let t2 = t1 + axis_text(axes[1], alignment.offset[1]) + blank();
            lemma_spells_append(
                t2,
                axis_words(axes[0], alignment.offset[0]) + axis_words(
                    axes[1],
                    alignment.offset[1],
                ),
                turn_text(alignment),
                gap,
                turn_words(alignment),
            );
        },
        None => {
            lemma_spells_nothing();
            let e = Seq::<u8>::empty();
            let w = Seq::<Seq<u8>>::empty();
            lemma_spells_then_number(e, w, alignment.offset[0], blank());
            let t1 = e + alignment.offset[0] + blank();
            lemma_spells_then_number(t1, w.push(alignment.offset[0]), alignment.offset[1], blank());
            let t2 = t1 + alignment.offset[1] + blank();
            lemma_spells_append(
                t2,
                w.push(alignment.offset[0]).push(alignment.offset[1]),
                turn_text(alignment),
                gap,
                turn_words(alignment),
            );
            assert(w.push(alignment.offset[0]).push(alignment.offset[1]) =~= seq![
                alignment.offset[0],
                alignment.offset[1],
            ]);
            assert(t2 + turn_text(alignment) + gap =~= alignment_text(alignment) + gap);
        },
    }
}

pub proof fn lemma_spells_surface(surface: SurfaceView, gap: Seq<u8>)
    requires
        sound_surface(surface),
        is_gap(gap),
    ensures
        spells(surface_text(surface) + gap, surface_words(surface)),
{
    lemma_gaps();
    lemma_spells_half_space(surface.half_space, blank());
    lemma_spells_texture(surface.texture, blank());
    lemma_spells_alignment(surface.alignment, gap);
    let t1 = half_space_text(surface.half_space) + blank();
    lemma_spells_append(
        t1,
        half_space_words(surface.half_space),
        texture_text(surface.texture),
        blank(),
        seq![texture_text(surface.texture)],
    );
    let t2 = t1 + texture_text(surface.texture) + blank();
    lemma_spells_append(
        t2,
        half_space_words(surface.half_space) + seq![texture_text(surface.texture)],
        alignment_text(surface.alignment),
        gap,
        alignment_words(surface.alignment),
    );
}

pub proof fn lemma_spells_surfaces(surfaces: Seq<SurfaceView>, n: int)
    requires
        sound_brush(surfaces),
        0 <= n <= surfaces.len(),
    ensures
        spells(surfaces_text(surfaces, n), surfaces_words(surfaces, n)),
    decreases n,
{
    if n == 0 {
        lemma_spells_nothing();
    } else {
        lemma_gaps();
        lemma_spells_surfaces(surfaces, n - 1);
        lemma_spells_surface(surfaces[n - 1], line_end());
        lemma_spells_append(
            surfaces_text(surfaces, n - 1),
            surfaces_words(surfaces, n - 1),
            surface_text(surfaces[n - 1]),
            line_end(),
            surface_words(surfaces[n - 1]),
        );
    }
}

/// A line with a brace spells the brace.
pub proof fn lemma_spells_brace_lines()
    ensures
        spells(opening_line(), seq![word(0x7b)]),
        spells(closing_line(), seq![word(0x7d)]),
{
    lemma_gaps();
    lemma_mark_plain(0x7b);
    lemma_mark_plain(0x7d);
    lemma_spells_plain(word(0x7b), line_end());
    lemma_spells_plain(word(0x7d), line_end());
    assert(opening_line() =~= word(0x7b) + line_end());
    assert(closing_line() =~= word(0x7d) + line_end());
}

pub proof fn lemma_spells_brush(brush: Seq<SurfaceView>)
    requires
        sound_brush(brush),
    ensures
        spells(brush_text(brush), brush_words(brush)),
{
    lemma_spells_brace_lines();
    lemma_spells_surfaces(brush, brush.len() as int);
    lemma_spells_both(
        opening_line(),
        seq![word(0x7b)],
        surfaces_text(brush, brush.len() as int),
        surfaces_words(brush, brush.len() as int),
    );
    lemma_spells_both(
        opening_line() + surfaces_text(brush, brush.len() as int),
        seq![word(0x7b)] + surfaces_words(brush, brush.len() as int),
        closing_line(),
        seq![word(0x7d)],
    );
}

pub proof fn lemma_spells_brushes(brushes: Seq<Seq<SurfaceView>>, n: int)
    requires
        sound_brushes(brushes),
        0 <= n <= brushes.len(),
    ensures
        spells(brushes_text(brushes, n), brushes_words(brushes, n)),
    decreases n,
{
    if n == 0 {
        lemma_spells_nothing();
    } else {
        lemma_spells_brushes(brushes, n - 1);
        lemma_spells_brush(brushes[n - 1]);
        lemma_spells_both(
            brushes_text(brushes, n - 1),
            brushes_words(brushes, n - 1),
            brush_text(brushes[n - 1]),
            brush_words(brushes[n - 1]),
        );
    }
}

/// Text that can be written between quotes can stand between them.
pub proof fn lemma_sound_text_inner(text: Seq<u8>)
    requires
        sound_text(text),
    ensures
        is_inner(text),
{
    assert forall|i: int| 0 <= i < text.len() implies #[trigger] text[i] != QUOTE by {
        assert(!breaks_quoted(text[i]));
    }
}

pub proof fn lemma_spells_pair(pair: (Seq<u8>, Seq<u8>))
    requires
        sound_text(pair.0),
        sound_text(pair.1),
    ensures
        spells(pair_text(pair), pair_words(pair)),
{
    lemma_gaps();
    lemma_sound_text_inner(pair.0);
    lemma_sound_text_inner(pair.1);
    lemma_spells_quoted(pair.0, blank());
    lemma_spells_quoted(pair.1, line_end());
    lemma_spells_append(
        in_quotes(pair.0) + blank(),
        seq![in_quotes(pair.0)],
        in_quotes(pair.1),
        line_end(),
        seq![in_quotes(pair.1)],
    );
    assert(seq![in_quotes(pair.0)] + seq![in_quotes(pair.1)] =~= pair_words(pair));
}

pub proof fn lemma_spells_pairs(pairs: Seq<(Seq<u8>, Seq<u8>)>, n: int)
    requires
        sound_pairs(pairs),
        0 <= n <= pairs.len(),
    ensures
        spells(pairs_text(pairs, n), pairs_words(pairs, n)),
    decreases n,
{
    if n == 0 {
        lemma_spells_nothing();
    } else {
        lemma_spells_pairs(pairs, n - 1);
        lemma_spells_pair(pairs[n - 1]);
        lemma_spells_both(
            pairs_text(pairs, n - 1),
            pairs_words(pairs, n - 1),
            pair_text(pairs[n - 1]),
            pair_words(pairs[n - 1]),
        );
    }
}

pub proof fn lemma_spells_entity(entity: EntityView)
    requires
        sound_entity(entity),
    ensures
        spells(entity_text(entity), entity_words(entity)),
{
    lemma_spells_brace_lines();
    let pairs = pairs_text(entity.edict, entity.edict.len() as int);
    let pairs_w = pairs_words(entity.edict, entity.edict.len() as int);
    let brushes = brushes_text(entity.brushes, entity.brushes.len() as int);
    let brushes_w = brushes_words(entity.brushes, entity.brushes.len() as int);
    lemma_spells_pairs(entity.edict, entity.edict.len() as int);
    lemma_spells_brushes(entity.brushes, entity.brushes.len() as int);
    lemma_spells_both(opening_line(), seq![word(0x7b)], pairs, pairs_w);
    lemma_spells_both(opening_line() + pairs, seq![word(0x7b)] + pairs_w, brushes, brushes_w);
    lemma_spells_both(
        opening_line() + pairs + brushes,
        seq![word(0x7b)] + pairs_w + brushes_w,
        closing_line(),
        seq![word(0x7d)],
    );
}

pub proof fn lemma_spells_entities(entities: Seq<EntityView>, n: int)
    requires
        forall|i: int| 0 <= i < entities.len() ==> sound_entity(#[trigger] entities[i]),
        0 <= n <= entities.len(),
    ensures
        spells(entities_text(entities, n), entities_words(entities, n)),
    decreases n,
{
    if n == 0 {
        lemma_spells_nothing();
    } else {
        lemma_spells_entities(entities, n - 1);
        lemma_spells_entity(entities[n - 1]);
        lemma_spells_both(
            entities_text(entities, n - 1),
            entities_words(entities, n - 1),
            entity_text(entities[n - 1]),
            entity_words(entities[n - 1]),
        );
    }
}

/// The text of a sound map spells the tokens of the map.
pub proof fn lemma_spells_map(map: QuakeMapView)
    requires
        sound_map(map),
    ensures
        spells(map_text(map), map_words(map)),
{
    lemma_spells_entities(map.entities, map.entities.len() as int);
}

} // verus!
