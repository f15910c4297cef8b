//! What is written can be read back: the text of a document that passes
//! the check stands for that document.

pub mod reading;
pub mod spelling;
pub mod words;

use crate::error::TextParseView;
use crate::qmap::check::{
    alignment_fault, breaks_quoted, entity_fault, lemma_brushes_fault, lemma_entities_fault,
    lemma_numbers_fault, lemma_pairs_fault, lemma_points_fault, lemma_quotable,
    lemma_surfaces_fault, map_fault, numbers_fault, points_fault, surface_fault,
};
use crate::qmap::fidelity::reading::{begins, lemma_behind_none, lemma_read_entities};
use crate::qmap::fidelity::spelling::{lemma_lex_spelled, texts};
use crate::qmap::fidelity::words::{
    lemma_spells_map, map_words, misread_as_comment, sound_alignment, sound_brush, sound_entity,
    sound_map, sound_numbers, sound_points, sound_surface, sound_text,
};
use crate::qmap::lexer::lex_spec;
use crate::qmap::number::is_finite_literal;
use crate::qmap::parser::parse_spec;
use crate::qmap::repr::{AlignmentView, EntityView, QuakeMapView, SurfaceView};
use crate::qmap::write::{map_text, written};
use vstd::prelude::*;

verus! {

/// No texture of the map has a name that, written alone as a token, would
/// be read as something else: one slash, or a name that begins with two.
pub open spec fn textures_read_back(map: QuakeMapView) -> bool {
    forall|e: int, b: int, s: int|
        0 <= e < map.entities.len() && 0 <= b < map.entities[e].brushes.len() && 0 <= s
            < map.entities[e].brushes[b].len() ==> !misread_as_comment(
            (#[trigger] map.entities[e].brushes[b][s]).texture,
        )
}

proof fn lemma_sound_numbers(numbers: Seq<Seq<u8>>, n: int)
    requires
        numbers.len() == n,
        numbers_fault(numbers, 0) is None,
    ensures
        sound_numbers(numbers, n),
{
    lemma_numbers_fault(numbers, 0);
}

proof fn lemma_sound_points(points: Seq<Seq<Seq<u8>>>, n: int)
    requires
        points.len() == n,
        forall|i: int| 0 <= i < n ==> (#[trigger] points[i]).len() == 3,
        points_fault(points, 0) is None,
    ensures
        sound_points(points, n),
{
    lemma_points_fault(points, 0);
    assert forall|i: int| 0 <= i < n implies sound_numbers(#[trigger] points[i], 3) by {
        lemma_sound_numbers(points[i], 3);
    }
}

proof fn lemma_sound_alignment(alignment: AlignmentView)
    requires
        alignment.well_formed(),
        alignment_fault(alignment) is None,
    ensures
        sound_alignment(alignment),
{
    lemma_sound_numbers(alignment.offset, 2);
    lemma_sound_numbers(alignment.scale, 2);
    match alignment.axes {
        Some(axes) => {
            assert forall|i: int| 0 <= i < 2 implies (#[trigger] axes[i]).len() == 3 by {}
            lemma_sound_points(axes, 2);
        },
        None => {},
    }
}

proof fn lemma_sound_surface(surface: SurfaceView)
    requires
        surface.well_formed(),
        surface_fault(surface) is None,
        !misread_as_comment(surface.texture),
    ensures
        sound_surface(surface),
{
    lemma_sound_points(surface.half_space, 3);
    lemma_sound_alignment(surface.alignment);
}

proof fn lemma_sound_entity(entity: EntityView)
    requires
        entity.well_formed(),
        entity_fault(entity) is None,
        forall|b: int, s: int|
            0 <= b < entity.brushes.len() && 0 <= s < entity.brushes[b].len()
                ==> !misread_as_comment((#[trigger] entity.brushes[b][s]).texture),
    ensures
        sound_entity(entity),
{
    lemma_pairs_fault(entity.edict, 0);
    assert forall|i: int| 0 <= i < entity.edict.len() implies sound_text(
        (#[trigger] entity.edict[i]).0,
    ) && sound_text(entity.edict[i].1) by {
        lemma_quotable(entity.edict[i].0, 0);
        lemma_quotable(entity.edict[i].1, 0);
    }
    lemma_brushes_fault(entity.brushes, 0);
    assert forall|b: int| 0 <= b < entity.brushes.len() implies sound_brush(
        #[trigger] entity.brushes[b],
    ) by {
        let brush = entity.brushes[b];
        lemma_surfaces_fault(brush, 0);
        assert forall|s: int| 0 <= s < brush.len() implies sound_surface(#[trigger] brush[s]) by {
            assert(entity.brushes[b][s].well_formed());
            assert(!misread_as_comment(entity.brushes[b][s].texture));
            lemma_sound_surface(brush[s]);
        }
    }
}

/// A well-formed map without a fault, of which every texture name is read
/// back as it is, is sound in every part.
pub proof fn lemma_sound_map(map: QuakeMapView)
    requires
        map.well_formed(),
        map_fault(map) is None,
        textures_read_back(map),
    ensures
        sound_map(map),
{
    lemma_entities_fault(map.entities, 0);
    assert forall|e: int| 0 <= e < map.entities.len() implies sound_entity(
        #[trigger] map.entities[e],
    ) by {
        let entity = map.entities[e];
        assert forall|b: int, s: int|
            0 <= b < entity.brushes.len() && 0 <= s < entity.brushes[b].len()
                implies !misread_as_comment((#[trigger] entity.brushes[b][s]).texture) by {
            assert(!misread_as_comment(map.entities[e].brushes[b][s].texture));
        }
        lemma_sound_entity(entity);
    }
}

/// Writing and then reading gives the document back: where a map passes
/// the check, the parser makes of the text of the map the map itself,
/// every number by the numeral that was written.
///
/// The one thing that the check lets pass and that is not read back is a
/// texture that is written without quotes and is one slash, or begins
/// with two: the tokenizer takes the first for the start of a longer token
/// and the second for a comment.
pub proof fn lemma_write_then_parse(map: QuakeMapView)
    requires
        map.well_formed(),
        map_fault(map) is None,
        textures_read_back(map),
    ensures
        parse_spec(map_text(map)) == Ok::<QuakeMapView, TextParseView>(map),
{
    lemma_sound_map(map);
    lemma_spells_map(map);
    let text = map_text(map);
    let words = map_words(map);
    lemma_lex_spelled(text, words);
    let stream = lex_spec(text);
    assert(begins(stream, words)) by {
        assert(texts(stream.tokens).len() == stream.tokens.len());
        assert forall|i: int| 0 <= i < words.len() implies (#[trigger] stream.tokens[i]).text
            == words[i] by {
            assert(texts(stream.tokens)[i] == stream.tokens[i].text);
        }
    }
    lemma_read_entities(stream, map.entities, 0);
    lemma_behind_none(stream);
    assert(map.entities.take(0) =~= Seq::<EntityView>::empty());
}

/// A map with a number among its points that is not finite has a fault,
/// and writing it leaves what was written before as it was.
pub proof fn lemma_coordinate_fault(map: QuakeMapView, e: int, b: int, s: int, p: int, c: int)
    requires
        0 <= e < map.entities.len(),
        0 <= b < map.entities[e].brushes.len(),
        0 <= s < map.entities[e].brushes[b].len(),
        0 <= p < map.entities[e].brushes[b][s].half_space.len(),
        0 <= c < map.entities[e].brushes[b][s].half_space[p].len(),
        !is_finite_literal(map.entities[e].brushes[b][s].half_space[p][c]),
    ensures
        map_fault(map) is Some,
        forall|before: Seq<u8>| #[trigger]
            written(before, map_text(map), map_fault(map)) == before,
{
    let entity = map.entities[e];
    let brush = entity.brushes[b];
    let surface = brush[s];
    lemma_numbers_fault(surface.half_space[p], 0);
    lemma_points_fault(surface.half_space, 0);
    lemma_surfaces_fault(brush, 0);
    lemma_brushes_fault(entity.brushes, 0);
    lemma_entities_fault(map.entities, 0);
}

/// A map with a key or a value that holds a quote or the end of a line
/// has a fault, and writing it leaves what was written before as it was.
pub proof fn lemma_pair_fault(map: QuakeMapView, e: int, i: int, at: int)
    requires
        0 <= e < map.entities.len(),
        0 <= i < map.entities[e].edict.len(),
        (0 <= at < map.entities[e].edict[i].0.len() && breaks_quoted(
            map.entities[e].edict[i].0[at],
        )) || (0 <= at < map.entities[e].edict[i].1.len() && breaks_quoted(
            map.entities[e].edict[i].1[at],
        )),
    ensures
        map_fault(map) is Some,
        forall|before: Seq<u8>| #[trigger]
            written(before, map_text(map), map_fault(map)) == before,
{
    let entity = map.entities[e];
    lemma_quotable(entity.edict[i].0, 0);
    lemma_quotable(entity.edict[i].1, 0);
    lemma_pairs_fault(entity.edict, 0);
    lemma_entities_fault(map.entities, 0);
}

} // verus!
