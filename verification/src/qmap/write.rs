//! The text form of a document, and the functions that write it.
//!
//! Every record ends with a carriage return and a line feed. An entity and
//! a brush each stand between a line with `{` and a line with `}`, a pair
//! of a dictionary and a surface take one line each.

use crate::error::{TextParseView, Write, WriteView};
use crate::qmap::check::{
    check_writable_unquoted, entity_fault, map_fault, writes_unquoted, CheckWritable,
};
use crate::qmap::fidelity::{lemma_write_then_parse, textures_read_back};
use crate::qmap::number::Number;
use crate::qmap::parser::parse_spec;
use crate::qmap::repr::{
    Alignment, AlignmentView, Brush, Edict, Entity, EntityView, HalfSpace, QuakeMap,
    QuakeMapView, Surface, SurfaceView,
};
use crate::text::Text;
use vstd::prelude::*;

verus! {

/// A blank.
pub open spec fn blank() -> Seq<u8> {
    seq![0x20u8]
}

/// The end of a record: carriage return and line feed.
pub open spec fn line_end() -> Seq<u8> {
    seq![0x0du8, 0x0a]
}

/// The line that opens an entity or a brush.
pub open spec fn opening_line() -> Seq<u8> {
    seq![0x7bu8, 0x0d, 0x0a]
}

/// The line that closes an entity or a brush.
pub open spec fn closing_line() -> Seq<u8> {
    seq![0x7du8, 0x0d, 0x0a]
}

/// `text` between two quotes.
pub open spec fn in_quotes(text: Seq<u8>) -> Seq<u8> {
    seq![0x22u8] + text + seq![0x22u8]
}

/// A point: its three numbers between round brackets, blanks between all.
pub open spec fn point_text(point: Seq<Seq<u8>>) -> Seq<u8> {
    seq![0x28u8, 0x20] + point[0] + blank() + point[1] + blank() + point[2] + blank() + seq![
        0x29u8,
    ]
}

/// The three points of a surface, a blank between two.
pub open spec fn half_space_text(points: Seq<Seq<Seq<u8>>>) -> Seq<u8> {
    point_text(points[0]) + blank() + point_text(points[1]) + blank() + point_text(points[2])
}

/// A texture name as it is, or between quotes where it cannot stand
/// without: where it is empty, begins with a quote or holds whitespace.
pub open spec fn texture_text(name: Seq<u8>) -> Seq<u8> {
    if writes_unquoted(name) {
        name
    } else {
        in_quotes(name)
    }
}

/// A texture axis with its offset, between square brackets.
pub open spec fn axis_text(axis: Seq<Seq<u8>>, offset: Seq<u8>) -> Seq<u8> {
    seq![0x5bu8, 0x20] + axis[0] + blank() + axis[1] + blank() + axis[2] + blank() + offset
        + seq![0x20u8, 0x5d]
}

/// Rotation and the two scales, which end both forms of an alignment.
pub open spec fn turn_text(alignment: AlignmentView) -> Seq<u8> {
    alignment.rotation + blank() + alignment.scale[0] + blank() + alignment.scale[1]
}

/// An alignment: with axes, each axis with its offset and then rotation
/// and scales; without, the two offsets and then rotation and scales.
pub open spec fn alignment_text(alignment: AlignmentView) -> Seq<u8> {
    match alignment.axes {
        Some(axes) => axis_text(axes[0], alignment.offset[0]) + blank() + axis_text(
            axes[1],
            alignment.offset[1],
        ) + blank() + turn_text(alignment),
        None => alignment.offset[0] + blank() + alignment.offset[1] + blank() + turn_text(
            alignment,
        ),
    }
}

/// A surface: points, texture and alignment, a blank between two.
pub open spec fn surface_text(surface: SurfaceView) -> Seq<u8> {
    half_space_text(surface.half_space) + blank() + texture_text(surface.texture) + blank()
        + alignment_text(surface.alignment)
}

/// The lines of the first `n` of `surfaces`.
pub open spec fn surfaces_text(surfaces: Seq<SurfaceView>, n: int) -> Seq<u8>
    decreases n,
{
    if 0 < n <= surfaces.len() {
        surfaces_text(surfaces, n - 1) + surface_text(surfaces[n - 1]) + line_end()
    } else {
        Seq::empty()
    }
}

/// A brush: its surfaces, a line each, between the two lines with braces.
pub open spec fn brush_text(brush: Seq<SurfaceView>) -> Seq<u8> {
    opening_line() + surfaces_text(brush, brush.len() as int) + closing_line()
}

/// The first `n` of `brushes`.
pub open spec fn brushes_text(brushes: Seq<Seq<SurfaceView>>, n: int) -> Seq<u8>
    decreases n,
{
    if 0 < n <= brushes.len() {
        brushes_text(brushes, n - 1) + brush_text(brushes[n - 1])
    } else {
        Seq::empty()
    }
}

/// The line of a key with its value, each between quotes.
pub open spec fn pair_text(pair: (Seq<u8>, Seq<u8>)) -> Seq<u8> {
    in_quotes(pair.0) + blank() + in_quotes(pair.1) + line_end()
}

/// The lines of the first `n` of `pairs`.
pub open spec fn pairs_text(pairs: Seq<(Seq<u8>, Seq<u8>)>, n: int) -> Seq<u8>
    decreases n,
{
    if 0 < n <= pairs.len() {
        pairs_text(pairs, n - 1) + pair_text(pairs[n - 1])
    } else {
        Seq::empty()
    }
}

/// An entity: its dictionary and its brushes between the two lines with
/// braces.
pub open spec fn entity_text(entity: EntityView) -> Seq<u8> {
    opening_line() + pairs_text(entity.edict, entity.edict.len() as int) + brushes_text(
        entity.brushes,
        entity.brushes.len() as int,
    ) + closing_line()
}

/// The first `n` of `entities`.
pub open spec fn entities_text(entities: Seq<EntityView>, n: int) -> Seq<u8>
    decreases n,
{
    if 0 < n <= entities.len() {
        entities_text(entities, n - 1) + entity_text(entities[n - 1])
    } else {
        Seq::empty()
    }
}

/// A map: its entities one behind the other.
pub open spec fn map_text(map: QuakeMapView) -> Seq<u8> {
    entities_text(map.entities, map.entities.len() as int)
}

/// What writing returns for an item whose first fault is `fault`: nothing
/// where there is none, else the fault as a validation error.
pub open spec fn attempt(r: Result<(), Write>, fault: Option<Seq<char>>) -> bool {
    match r {
        Ok(_) => fault is None,
        Err(e) => fault matches Some(message) && e@ == WriteView::Validation(message),
    }
}

/// What writing leaves in the sink that held `before`, for an item of the
/// text `text` whose first fault is `fault`: with a fault what was there,
/// without one the text behind it.
pub open spec fn written(before: Seq<u8>, text: Seq<u8>, fault: Option<Seq<char>>) -> Seq<u8> {
    if fault is None {
        before + text
    } else {
        before
    }
}

impl QuakeMap {
    /// Writes the map to `writer` as text. The whole map is checked
    /// first: a map with a fault anywhere is not written, not even in
    /// part. What is written stands for the map: read back, it gives the
    /// same map, unless a texture of the map has a name that is read as
    /// the start of a comment.
    pub fn write_to(&self, writer: &mut Vec<u8>) -> (r: Result<(), Write>)
        ensures
            attempt(r, map_fault(self@)),
            final(writer)@ == written(old(writer)@, map_text(self@), map_fault(self@)),
            r is Ok ==> self@.well_formed(),
            r is Ok && textures_read_back(self@) ==> parse_spec(map_text(self@)) == Ok::<
                QuakeMapView,
                TextParseView,
            >(self@),
    {
        match self.check_writable() {
            Err(message) => {
                return Err(Write::Validation(message));
            },
            Ok(_) => {},
        }
        proof {
            if textures_read_back(self@) {
                lemma_write_then_parse(self@);
            }
        }
        let mut i: usize = 0;
        while i < self.entities.len()
            invariant
                i <= self.entities@.len(),
                writer@ == old(writer)@ + entities_text(self@.entities, i as int),
            decreases self.entities@.len() - i,
        {
            write_entity_to(&self.entities[i], writer);
            i += 1;
        }
        Ok(())
    }
}

impl Entity {
    /// Writes the entity to `writer` as text, unless the check finds a
    /// fault in it.
    pub fn write_to(&self, writer: &mut Vec<u8>) -> (r: Result<(), Write>)
        ensures
            attempt(r, entity_fault(self@)),
            final(writer)@ == written(old(writer)@, entity_text(self@), entity_fault(self@)),
            r is Ok ==> self@.well_formed(),
    {
        match self.check_writable() {
            Err(message) => {
                return Err(Write::Validation(message));
            },
            Ok(_) => {},
        }
        write_entity_to(self, writer);
        Ok(())
    }
}

impl Surface {
    /// Appends the line of the surface, without its end.
    pub fn write_to(&self, writer: &mut Vec<u8>)
        ensures
            final(writer)@ == old(writer)@ + surface_text(self@),
    {
        write_half_space_to(&self.half_space, writer);
        writer.push(0x20);
        write_texture_to(&self.texture, writer);
        writer.push(0x20);
        self.alignment.write_to(writer);
        proof {
            assert(writer@ =~= old(writer)@ + surface_text(self@));
        }
    }
}

impl Alignment {
    /// Appends the alignment, in the form with axes where it has them.
    pub fn write_to(&self, writer: &mut Vec<u8>)
        ensures
            final(writer)@ == old(writer)@ + alignment_text(self@),
    {
        match &self.axes {
            None => {
                write_number_to(&self.offset[0], writer);
                writer.push(0x20);
                write_number_to(&self.offset[1], writer);
            },
            Some(axes) => {
                write_axis_to(&axes[0], &self.offset[0], writer);
                writer.push(0x20);
                write_axis_to(&axes[1], &self.offset[1], writer);
            },
        }
        writer.push(0x20);
        write_number_to(&self.rotation, writer);
        writer.push(0x20);
        write_number_to(&self.scale[0], writer);
        writer.push(0x20);
        write_number_to(&self.scale[1], writer);
        proof {
            assert(writer@ =~= old(writer)@ + alignment_text(self@));
        }
    }
}

/// Appends `bytes` to `writer`.
pub fn write_bytes_to(bytes: &Vec<u8>, writer: &mut Vec<u8>)
    ensures
        final(writer)@ == old(writer)@ + bytes@,
{
    let mut i: usize = 0;
    while i < bytes.len()
        invariant
            i <= bytes@.len(),
            writer@ == old(writer)@ + bytes@.take(i as int),
        decreases bytes@.len() - i,
    {
        writer.push(bytes[i]);
        proof {
            assert(bytes@.take(i + 1) == bytes@.take(i as int).push(bytes@[i as int]));
        }
        i += 1;
    }
    proof {
        assert(bytes@.take(i as int) == bytes@);
    }
}

/// Appends the numeral of `number`.
pub fn write_number_to(number: &Number, writer: &mut Vec<u8>)
    ensures
        final(writer)@ == old(writer)@ + number@,
{
    write_bytes_to(number.as_bytes(), writer);
}

fn write_axis_to(axis: &[Number; 3], offset: &Number, writer: &mut Vec<u8>)
    ensures
        final(writer)@ == old(writer)@ + axis_text(axis.deep_view(), offset@),
{
    writer.push(0x5b);
    writer.push(0x20);
    write_number_to(&axis[0], writer);
    writer.push(0x20);
    write_number_to(&axis[1], writer);
    writer.push(0x20);
    write_number_to(&axis[2], writer);
    writer.push(0x20);
    write_number_to(offset, writer);
    writer.push(0x20);
    writer.push(0x5d);
    proof {
        assert(writer@ =~= old(writer)@ + axis_text(axis.deep_view(), offset@));
    }
}

fn write_point_to(point: &[Number; 3], writer: &mut Vec<u8>)
    ensures
        final(writer)@ == old(writer)@ + point_text(point.deep_view()),
{
    writer.push(0x28);
    writer.push(0x20);
    write_number_to(&point[0], writer);
    writer.push(0x20);
    write_number_to(&point[1], writer);
    writer.push(0x20);
    write_number_to(&point[2], writer);
    writer.push(0x20);
    writer.push(0x29);
    proof {
        assert(writer@ =~= old(writer)@ + point_text(point.deep_view()));
    }
}

/// Appends the three points of a surface.
pub fn write_half_space_to(half_space: &HalfSpace, writer: &mut Vec<u8>)
    ensures
        final(writer)@ == old(writer)@ + half_space_text(half_space.deep_view()),
{
    write_point_to(&half_space[0], writer);
    writer.push(0x20);
    write_point_to(&half_space[1], writer);
    writer.push(0x20);
    write_point_to(&half_space[2], writer);
    proof {
        assert(writer@ =~= old(writer)@ + half_space_text(half_space.deep_view()));
    }
}

/// Appends a texture name, between quotes where it needs them.
pub fn write_texture_to(texture: &Text, writer: &mut Vec<u8>)
    ensures
        final(writer)@ == old(writer)@ + texture_text(texture@),
{
    let needs_quotes = check_writable_unquoted(texture).is_err();
    if needs_quotes {
        writer.push(0x22);
    }
    write_bytes_to(texture.as_bytes(), writer);
    if needs_quotes {
        writer.push(0x22);
    }
    proof {
        assert(writer@ =~= old(writer)@ + texture_text(texture@));
    }
}

/// Appends the lines of a dictionary.
pub fn write_edict_to(edict: &Edict, writer: &mut Vec<u8>)
    ensures
        final(writer)@ == old(writer)@ + pairs_text(edict@, edict@.len() as int),
{
    let mut i: usize = 0;
    while i < edict.len()
        invariant
            i <= edict@.len(),
            writer@ == old(writer)@ + pairs_text(edict@, i as int),
        decreases edict@.len() - i,
    {
        let ghost before = writer@;
        writer.push(0x22);
        write_bytes_to(edict.key(i).as_bytes(), writer);
        writer.push(0x22);
        writer.push(0x20);
        writer.push(0x22);
        write_bytes_to(edict.value(i).as_bytes(), writer);
        writer.push(0x22);
        writer.push(0x0d);
        writer.push(0x0a);
        proof {
            assert(writer@ =~= before + pair_text(edict@[i as int]));
        }
        i += 1;
    }
}

/// Appends a brush.
pub fn write_brush_to(brush: &Brush, writer: &mut Vec<u8>)
    ensures
        final(writer)@ == old(writer)@ + brush_text(brush.deep_view()),
{
    writer.push(0x7b);
    writer.push(0x0d);
    writer.push(0x0a);
    let ghost start = writer@;
    let mut i: usize = 0;
    while i < brush.len()
        invariant
            i <= brush@.len(),
            writer@ == start + surfaces_text(brush.deep_view(), i as int),
        decreases brush@.len() - i,
    {
        let ghost before = writer@;
        brush[i].write_to(writer);
        writer.push(0x0d);
        writer.push(0x0a);
        proof {
            assert(writer@ =~= before + surface_text(brush.deep_view()[i as int]) + line_end());
        }
        i += 1;
    }
    writer.push(0x7d);
    writer.push(0x0d);
    writer.push(0x0a);
    proof {
        assert(writer@ =~= old(writer)@ + brush_text(brush.deep_view()));
    }
}

/// Appends an entity, which is not checked.
fn write_entity_to(entity: &Entity, writer: &mut Vec<u8>)
    ensures
        final(writer)@ == old(writer)@ + entity_text(entity@),
{
    writer.push(0x7b);
    writer.push(0x0d);
    writer.push(0x0a);
    write_edict_to(&entity.edict, writer);
    let ghost start = writer@;
    let mut i: usize = 0;
    while i < entity.brushes.len()
        invariant
            i <= entity.brushes@.len(),
            writer@ == start + brushes_text(entity@.brushes, i as int),
        decreases entity.brushes@.len() - i,
    {
        write_brush_to(&entity.brushes[i], writer);
        i += 1;
    }
    writer.push(0x7d);
    writer.push(0x0d);
    writer.push(0x0a);
    proof {
        assert(writer@ =~= old(writer)@ + entity_text(entity@));
    }
}

} // verus!
