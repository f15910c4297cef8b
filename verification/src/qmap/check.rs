//! The check that a document can be written as text and read back as the
//! same document.

use crate::qmap::lexer::{is_space, is_space_byte, CARRIAGE_RETURN, LINE_FEED, QUOTE};
use crate::qmap::number::{is_finite_literal, Number};
use crate::qmap::repr::{
    distinct_keys, Alignment, AlignmentView, Brush, Edict, Entity, EntityView, HalfSpace,
    QuakeMap, QuakeMapView, Surface, SurfaceView, ValidationResult,
};
use crate::text::{latin1, nul_free, push_char, push_latin1, Text};
use vstd::prelude::*;

verus! {

/// The first of two faults.
pub open spec fn or_else(first: Option<Seq<char>>, second: Option<Seq<char>>) -> Option<
    Seq<char>,
> {
    match first {
        Some(fault) => Some(fault),
        None => second,
    }
}

/// A number can be written where it is finite.
pub open spec fn number_fault(numeral: Seq<u8>) -> Option<Seq<char>> {
    if is_finite_literal(numeral) {
        None
    } else {
        Some("Non-finite number ("@ + latin1(numeral) + ")"@)
    }
}

/// The first fault among `numbers` from place `from` on.
pub open spec fn numbers_fault(numbers: Seq<Seq<u8>>, from: int) -> Option<Seq<char>>
    decreases numbers.len() - from,
{
    if 0 <= from < numbers.len() {
        or_else(number_fault(numbers[from]), numbers_fault(numbers, from + 1))
    } else {
        None
    }
}

/// The first fault among the numbers of `points` from point `from` on.
pub open spec fn points_fault(points: Seq<Seq<Seq<u8>>>, from: int) -> Option<Seq<char>>
    decreases points.len() - from,
{
    if 0 <= from < points.len() {
        or_else(numbers_fault(points[from], 0), points_fault(points, from + 1))
    } else {
        None
    }
}

/// The bytes that text between quotes cannot hold: a quote would end it,
/// and a line is not to end in it.
pub open spec fn breaks_quoted(byte: u8) -> bool {
    byte == QUOTE || byte == CARRIAGE_RETURN || byte == LINE_FEED
}

/// The byte as a character between two `'`, the end of a line written
/// with a backslash.
pub open spec fn shown_byte(byte: u8) -> Seq<char> {
    if byte == CARRIAGE_RETURN {
        "'\\r'"@
    } else if byte == LINE_FEED {
        "'\\n'"@
    } else {
        "'\"'"@
    }
}

/// The fault of the first byte from `from` on that text between quotes
/// cannot hold.
pub open spec fn quoted_fault_from(text: Seq<u8>, from: int) -> Option<Seq<char>>
    decreases text.len() - from,
{
    if 0 <= from < text.len() {
        if breaks_quoted(text[from]) {
            Some("Cannot write quote-wrapped string, contains "@ + shown_byte(text[from]))
        } else {
            quoted_fault_from(text, from + 1)
        }
    } else {
        None
    }
}

/// Text can be written between quotes where it holds no quote and no end
/// of a line.
pub open spec fn quoted_fault(text: Seq<u8>) -> Option<Seq<char>> {
    quoted_fault_from(text, 0)
}

/// No byte of `text` breaks text between quotes.
pub open spec fn is_quotable(text: Seq<u8>) -> bool {
    forall|i: int| 0 <= i < text.len() ==> !breaks_quoted(#[trigger] text[i])
}

pub open spec fn has_space(text: Seq<u8>) -> bool {
    exists|i: int| 0 <= i < text.len() && is_space(#[trigger] text[i])
}

/// Text can be written without quotes where it has a byte, does not begin
/// with a quote and holds no whitespace.
pub open spec fn unquoted_fault(text: Seq<u8>) -> Option<Seq<char>> {
    if text.len() == 0 {
        Some("Cannot write unquoted empty string"@)
    } else if text[0] == QUOTE {
        Some("Cannot lead unquoted string with quote"@)
    } else if has_space(text) {
        Some("Cannot write unquoted string, contains whitespace"@)
    } else {
        None
    }
}

/// Whether a texture of this name is written without quotes.
pub open spec fn writes_unquoted(text: Seq<u8>) -> bool {
    text.len() > 0 && text[0] != QUOTE && !has_space(text)
}

/// The small letter or digit of one hexadecimal digit.
pub open spec fn hex_digit(n: u8) -> char {
    if n < 10 {
        (0x30 + n) as u8 as char
    } else {
        (0x57 + n) as u8 as char
    }
}

/// A byte as it is shown in a message: a printable ASCII character as
/// itself, behind a backslash where it is a quote or a backslash; tab and
/// the ends of a line by their letters; any other byte by its two
/// hexadecimal digits.
pub open spec fn shown_in_message(byte: u8) -> Seq<char> {
    if byte == 0x09 {
        seq!['\\', 't']
    } else if byte == 0x0d {
        seq!['\\', 'r']
    } else if byte == 0x0a {
        seq!['\\', 'n']
    } else if byte == 0x27 || byte == 0x22 || byte == 0x5c {
        seq!['\\', byte as char]
    } else if 0x20 <= byte <= 0x7e {
        seq![byte as char]
    } else {
        seq!['\\', 'x', hex_digit(byte / 16), hex_digit(byte % 16)]
    }
}

/// The first `n` bytes of `text` as they are shown in a message.
pub open spec fn shown_text(text: Seq<u8>, n: int) -> Seq<char>
    decreases n,
{
    if 0 < n <= text.len() {
        shown_text(text, n - 1) + shown_in_message(text[n - 1])
    } else {
        Seq::empty()
    }
}

/// A texture name can be written where it can be written without quotes
/// or between them.
pub open spec fn texture_fault(name: Seq<u8>) -> Option<Seq<char>> {
    if unquoted_fault(name) is None || quoted_fault(name) is None {
        None
    } else {
        Some(
            "Cannot write texture \""@ + shown_text(name, name.len() as int)
                + "\", not quotable and contains whitespace"@,
        )
    }
}

/// The first fault of an alignment: among its offsets, then its rotation,
/// then its scales, then its axes.
pub open spec fn alignment_fault(alignment: AlignmentView) -> Option<Seq<char>> {
    or_else(
        numbers_fault(alignment.offset, 0),
        or_else(
            number_fault(alignment.rotation),
            or_else(
                numbers_fault(alignment.scale, 0),
                match alignment.axes {
                    Some(axes) => points_fault(axes, 0),
                    None => None,
                },
            ),
        ),
    )
}

/// The first fault of a surface: among its points, then of its texture,
/// then of its alignment.
pub open spec fn surface_fault(surface: SurfaceView) -> Option<Seq<char>> {
    or_else(
        points_fault(surface.half_space, 0),
        or_else(texture_fault(surface.texture), alignment_fault(surface.alignment)),
    )
}

/// The first fault among `surfaces` from place `from` on.
pub open spec fn surfaces_fault(surfaces: Seq<SurfaceView>, from: int) -> Option<Seq<char>>
    decreases surfaces.len() - from,
{
    if 0 <= from < surfaces.len() {
        or_else(surface_fault(surfaces[from]), surfaces_fault(surfaces, from + 1))
    } else {
        None
    }
}

/// The first fault among `brushes` from place `from` on.
pub open spec fn brushes_fault(brushes: Seq<Seq<SurfaceView>>, from: int) -> Option<Seq<char>>
    decreases brushes.len() - from,
{
    if 0 <= from < brushes.len() {
        or_else(surfaces_fault(brushes[from], 0), brushes_fault(brushes, from + 1))
    } else {
        None
    }
}

/// The first fault among the keys and values of `pairs` from place `from`
/// on, each key before its value.
pub open spec fn pairs_fault(pairs: Seq<(Seq<u8>, Seq<u8>)>, from: int) -> Option<Seq<char>>
    decreases pairs.len() - from,
{
    if 0 <= from < pairs.len() {
        or_else(
            quoted_fault(pairs[from].0),
            or_else(quoted_fault(pairs[from].1), pairs_fault(pairs, from + 1)),
        )
    } else {
        None
    }
}

/// The first fault of an entity: in its dictionary, then in its brushes.
pub open spec fn entity_fault(entity: EntityView) -> Option<Seq<char>> {
    or_else(pairs_fault(entity.edict, 0), brushes_fault(entity.brushes, 0))
}

/// The first fault among `entities` from place `from` on.
pub open spec fn entities_fault(entities: Seq<EntityView>, from: int) -> Option<Seq<char>>
    decreases entities.len() - from,
{
    if 0 <= from < entities.len() {
        or_else(entity_fault(entities[from]), entities_fault(entities, from + 1))
    } else {
        None
    }
}

/// The first fault of a map.
pub open spec fn map_fault(map: QuakeMapView) -> Option<Seq<char>> {
    entities_fault(map.entities, 0)
}

/// Numbers have no fault just when each of them is finite.
pub proof fn lemma_numbers_fault(numbers: Seq<Seq<u8>>, from: int)
    requires
        0 <= from,
    ensures
        numbers_fault(numbers, from) is None <==> (forall|i: int|
            from <= i < numbers.len() ==> is_finite_literal(#[trigger] numbers[i])),
    decreases numbers.len() - from,
{
    if from < numbers.len() {
        lemma_numbers_fault(numbers, from + 1);
    }
}

/// Points have no fault just when the numbers of each of them have none.
pub proof fn lemma_points_fault(points: Seq<Seq<Seq<u8>>>, from: int)
    requires
        0 <= from,
    ensures
        points_fault(points, from) is None <==> (forall|i: int|
            from <= i < points.len() ==> numbers_fault(#[trigger] points[i], 0) is None),
    decreases points.len() - from,
{
    if from < points.len() {
        lemma_points_fault(points, from + 1);
    }
}

/// Surfaces have no fault just when each of them has none.
pub proof fn lemma_surfaces_fault(surfaces: Seq<SurfaceView>, from: int)
    requires
        0 <= from,
    ensures
        surfaces_fault(surfaces, from) is None <==> (forall|i: int|
            from <= i < surfaces.len() ==> surface_fault(#[trigger] surfaces[i]) is None),
    decreases surfaces.len() - from,
{
    if from < surfaces.len() {
        lemma_surfaces_fault(surfaces, from + 1);
    }
}

/// Brushes have no fault just when the surfaces of each of them have
/// none.
pub proof fn lemma_brushes_fault(brushes: Seq<Seq<SurfaceView>>, from: int)
    requires
        0 <= from,
    ensures
        brushes_fault(brushes, from) is None <==> (forall|i: int|
            from <= i < brushes.len() ==> surfaces_fault(#[trigger] brushes[i], 0) is None),
    decreases brushes.len() - from,
{
    if from < brushes.len() {
        lemma_brushes_fault(brushes, from + 1);
    }
}

/// Pairs have no fault just when no key and no value has one.
pub proof fn lemma_pairs_fault(pairs: Seq<(Seq<u8>, Seq<u8>)>, from: int)
    requires
        0 <= from,
    ensures
        pairs_fault(pairs, from) is None <==> (forall|i: int|
            from <= i < pairs.len() ==> quoted_fault((#[trigger] pairs[i]).0) is None
                && quoted_fault(pairs[i].1) is None),
    decreases pairs.len() - from,
{
    if from < pairs.len() {
        lemma_pairs_fault(pairs, from + 1);
    }
}

/// Entities have no fault just when each of them has none.
pub proof fn lemma_entities_fault(entities: Seq<EntityView>, from: int)
    requires
        0 <= from,
    ensures
        entities_fault(entities, from) is None <==> (forall|i: int|
            from <= i < entities.len() ==> entity_fault(#[trigger] entities[i]) is None),
    decreases entities.len() - from,
{
    if from < entities.len() {
        lemma_entities_fault(entities, from + 1);
    }
}

/// Text has no fault for writing between quotes just when none of its
/// bytes breaks it.
pub proof fn lemma_quotable(text: Seq<u8>, from: int)
    requires
        0 <= from,
    ensures
        quoted_fault_from(text, from) is None <==> (forall|i: int|
            from <= i < text.len() ==> !breaks_quoted(#[trigger] text[i])),
    decreases text.len() - from,
{
    if from < text.len() {
        lemma_quotable(text, from + 1);
    }
}

/// The fault of text for writing between quotes names a byte of the text
/// that breaks it: the first one.
pub proof fn lemma_quoted_fault_names_byte(text: Seq<u8>, from: int)
    requires
        0 <= from,
        quoted_fault_from(text, from) is Some,
    ensures
        exists|i: int|
            from <= i < text.len() && breaks_quoted(#[trigger] text[i]) && (forall|k: int|
                from <= k < i ==> !breaks_quoted(#[trigger] text[k])) && quoted_fault_from(
                text,
                from,
            ) == Some("Cannot write quote-wrapped string, contains "@ + shown_byte(text[i])),
    decreases text.len() - from,
{
    if breaks_quoted(text[from]) {
        assert(breaks_quoted(text[from]));
    } else {
        lemma_quoted_fault_names_byte(text, from + 1);
        let i = choose|i: int|
            from + 1 <= i < text.len() && breaks_quoted(#[trigger] text[i]) && (forall|k: int|
                from + 1 <= k < i ==> !breaks_quoted(#[trigger] text[k])) && quoted_fault_from(
                text,
                from + 1,
            ) == Some("Cannot write quote-wrapped string, contains "@ + shown_byte(text[i]));
        assert(from <= i < text.len() && breaks_quoted(text[i]));
        assert forall|k: int| from <= k < i implies !breaks_quoted(#[trigger] text[k]) by {}
    }
}

/// What a check returns for an item whose first fault is `fault`.
pub open spec fn reports(r: ValidationResult, fault: Option<Seq<char>>) -> bool {
    match r {
        Ok(_) => fault is None,
        Err(message) => fault == Some(message@),
    }
}

/// Items that are checked before they are written.
pub trait CheckWritable {
    /// What stands against writing the item, if anything does: the first
    /// fault in the order in which the item is written.
    spec fn fault(&self) -> Option<Seq<char>>;

    /// Finds out whether the item can be written and read back. An item
    /// that passes is fit for writing; whether other tools take the map
    /// that comes of it is another matter.
    fn check_writable(&self) -> (r: ValidationResult)
        ensures
            reports(r, self.fault()),
    ;
}

impl CheckWritable for QuakeMap {
    open spec fn fault(&self) -> Option<Seq<char>> {
        map_fault(self@)
    }

    fn check_writable(&self) -> (r: ValidationResult)
        ensures
            r is Ok ==> self@.well_formed(),
    {
        let mut i: usize = 0;
        while i < self.entities.len()
            invariant
                i <= self.entities@.len(),
                map_fault(self@) == entities_fault(self@.entities, i as int),
                forall|k: int| 0 <= k < i ==> (#[trigger] self@.entities[k]).well_formed(),
            decreases self.entities@.len() - i,
        {
            match self.entities[i].check_writable() {
                Err(message) => {
                    return Err(message);
                },
                Ok(_) => {},
            }
            i += 1;
        }
        Ok(())
    }
}

impl CheckWritable for Entity {
    open spec fn fault(&self) -> Option<Seq<char>> {
        entity_fault(self@)
    }

    fn check_writable(&self) -> (r: ValidationResult)
        ensures
            r is Ok ==> self@.well_formed(),
    {
        match self.edict.check_writable() {
            Err(message) => {
                return Err(message);
            },
            Ok(_) => {},
        }
        let mut i: usize = 0;
        while i < self.brushes.len()
            invariant
                i <= self.brushes@.len(),
                entity_fault(self@) == brushes_fault(self@.brushes, i as int),
                distinct_keys(self@.edict),
                forall|k: int|
                    0 <= k < self@.edict.len() ==> nul_free((#[trigger] self@.edict[k]).0)
                        && nul_free(self@.edict[k].1),
                forall|b: int, s: int|
                    0 <= b < i && 0 <= s < self@.brushes[b].len()
                        ==> (#[trigger] self@.brushes[b][s]).well_formed(),
            decreases self.brushes@.len() - i,
        {
            match self.brushes[i].check_writable() {
                Err(message) => {
                    return Err(message);
                },
                Ok(_) => {},
            }
            i += 1;
        }
        Ok(())
    }
}

impl CheckWritable for Edict {
    open spec fn fault(&self) -> Option<Seq<char>> {
        pairs_fault(self@, 0)
    }

    fn check_writable(&self) -> (r: ValidationResult)
        ensures
            distinct_keys(self@),
            r is Ok ==> forall|k: int|
                0 <= k < self@.len() ==> nul_free((#[trigger] self@[k]).0) && nul_free(self@[k].1),
    {
        let count = self.len();
        let mut i: usize = 0;
        while i < count
            invariant
                i <= count == self@.len(),
                pairs_fault(self@, 0) == pairs_fault(self@, i as int),
                distinct_keys(self@),
                forall|k: int|
                    0 <= k < i ==> nul_free((#[trigger] self@[k]).0) && nul_free(self@[k].1),
            decreases self@.len() - i,
        {
            match check_writable_quoted(self.key(i)) {
                Err(message) => {
                    return Err(message);
                },
                Ok(_) => {},
            }
            match check_writable_quoted(self.value(i)) {
                Err(message) => {
                    return Err(message);
                },
                Ok(_) => {},
            }
            i += 1;
        }
        Ok(())
    }
}

impl CheckWritable for Brush {
    open spec fn fault(&self) -> Option<Seq<char>> {
        surfaces_fault(self.deep_view(), 0)
    }

    fn check_writable(&self) -> (r: ValidationResult)
        ensures
            r is Ok ==> forall|k: int|
                0 <= k < self.deep_view().len() ==> (#[trigger] self.deep_view()[k]).well_formed(),
    {
        let mut i: usize = 0;
        while i < self.len()
            invariant
                i <= self@.len(),
                surfaces_fault(self.deep_view(), 0) == surfaces_fault(self.deep_view(), i as int),
                forall|k: int| 0 <= k < i ==> (#[trigger] self.deep_view()[k]).well_formed(),
            decreases self@.len() - i,
        {
            match self[i].check_writable() {
                Err(message) => {
                    return Err(message);
                },
                Ok(_) => {},
            }
            i += 1;
        }
        Ok(())
    }
}

impl CheckWritable for Surface {
    open spec fn fault(&self) -> Option<Seq<char>> {
        surface_fault(self@)
    }

    fn check_writable(&self) -> (r: ValidationResult)
        ensures
            r is Ok ==> self@.well_formed(),
    {
        match self.half_space.check_writable() {
            Err(message) => {
                return Err(message);
            },
            Ok(_) => {},
        }
        match check_writable_texture(&self.texture) {
            Err(message) => {
                return Err(message);
            },
            Ok(_) => {},
        }
        self.alignment.check_writable()
    }
}

impl CheckWritable for HalfSpace {
    open spec fn fault(&self) -> Option<Seq<char>> {
        points_fault(self.deep_view(), 0)
    }

    fn check_writable(&self) -> (r: ValidationResult) {
        check_writable_points(self.as_slice())
    }
}

impl CheckWritable for Alignment {
    open spec fn fault(&self) -> Option<Seq<char>> {
        alignment_fault(self@)
    }

    fn check_writable(&self) -> (r: ValidationResult)
        ensures
            self@.well_formed(),
    {
        match check_writable_array(self.offset.as_slice()) {
            Err(message) => {
                return Err(message);
            },
            Ok(_) => {},
        }
        match check_writable_number(&self.rotation) {
            Err(message) => {
                return Err(message);
            },
            Ok(_) => {},
        }
        match check_writable_array(self.scale.as_slice()) {
            Err(message) => {
                return Err(message);
            },
            Ok(_) => {},
        }
        match &self.axes {
            Some(axes) => check_writable_points(axes.as_slice()),
            None => Ok(()),
        }
    }
}

/// Checks the numbers of each point in turn.
pub fn check_writable_points(points: &[[Number; 3]]) -> (r: ValidationResult)
    ensures
        reports(r, points_fault(points.deep_view(), 0)),
{
    let mut i: usize = 0;
    while i < points.len()
        invariant
            i <= points@.len(),
            points_fault(points.deep_view(), 0) == points_fault(points.deep_view(), i as int),
        decreases points@.len() - i,
    {
        let point = points[i].as_slice();
        proof {
            assert(points.deep_view()[i as int] =~= point.deep_view());
        }
        match check_writable_array(point) {
            Err(message) => {
                return Err(message);
            },
            Ok(_) => {},
        }
        i += 1;
    }
    Ok(())
}

/// Checks each number in turn.
pub fn check_writable_array(numbers: &[Number]) -> (r: ValidationResult)
    ensures
        reports(r, numbers_fault(numbers.deep_view(), 0)),
{
    let mut i: usize = 0;
    while i < numbers.len()
        invariant
            i <= numbers@.len(),
            numbers_fault(numbers.deep_view(), 0) == numbers_fault(numbers.deep_view(), i as int),
        decreases numbers@.len() - i,
    {
        match check_writable_number(&numbers[i]) {
            Err(message) => {
                return Err(message);
            },
            Ok(_) => {},
        }
        i += 1;
    }
    Ok(())
}

/// A number passes where it is finite.
pub fn check_writable_number(number: &Number) -> (r: ValidationResult)
    ensures
        reports(r, number_fault(number@)),
{
    if number.is_finite() {
        Ok(())
    } else {
        let mut message = String::from_str("Non-finite number (");
        push_latin1(&mut message, number.as_bytes());
        message.append(")");
        Err(message)
    }
}

/// A texture name passes where it can be written without quotes or
/// between them.
pub fn check_writable_texture(name: &Text) -> (r: ValidationResult)
    ensures
        reports(r, texture_fault(name@)),
        nul_free(name@),
{
    if check_writable_unquoted(name).is_ok() {
        return Ok(());
    }
    match check_writable_quoted(name) {
        Ok(_) => Ok(()),
        Err(_) => {
            let mut message = String::from_str("Cannot write texture \"");
            push_shown(&mut message, name.as_bytes());
            message.append("\", not quotable and contains whitespace");
            Err(message)
        },
    }
}

/// Text passes for writing between quotes where it holds no quote and no
/// end of a line.
pub fn check_writable_quoted(text: &Text) -> (r: ValidationResult)
    ensures
        reports(r, quoted_fault(text@)),
        r is Ok <==> is_quotable(text@),
        nul_free(text@),
{
    let mut i: usize = 0;
    while i < text.len()
        invariant
            i <= text@.len(),
            quoted_fault(text@) == quoted_fault_from(text@, i as int),
            forall|j: int| 0 <= j < i ==> !breaks_quoted(#[trigger] text@[j]),
        decreases text@.len() - i,
    {
        let byte = text.byte(i);
        if byte == QUOTE || byte == CARRIAGE_RETURN || byte == LINE_FEED {
            let mut message = String::from_str("Cannot write quote-wrapped string, contains ");
            if byte == CARRIAGE_RETURN {
                message.append("'\\r'");
            } else if byte == LINE_FEED {
                message.append("'\\n'");
            } else {
                message.append("'\"'");
            }
            return Err(message);
        }
        i += 1;
    }
    Ok(())
}

/// Text passes for writing without quotes where it has a byte, does not
/// begin with a quote and holds no whitespace.
pub fn check_writable_unquoted(text: &Text) -> (r: ValidationResult)
    ensures
        reports(r, unquoted_fault(text@)),
        r is Ok <==> writes_unquoted(text@),
        nul_free(text@),
{
    if text.is_empty() {
        return Err(String::from_str("Cannot write unquoted empty string"));
    }
    if text.byte(0) == QUOTE {
        return Err(String::from_str("Cannot lead unquoted string with quote"));
    }
    if contains_ascii_whitespace(text) {
        Err(String::from_str("Cannot write unquoted string, contains whitespace"))
    } else {
        Ok(())
    }
}

pub fn contains_ascii_whitespace(text: &Text) -> (r: bool)
    ensures
        r == has_space(text@),
{
    let mut i: usize = 0;
    while i < text.len()
        invariant
            i <= text@.len(),
            forall|j: int| 0 <= j < i ==> !is_space(#[trigger] text@[j]),
        decreases text@.len() - i,
    {
        if is_space_byte(text.byte(i)) {
            return true;
        }
        i += 1;
    }
    false
}

fn hex_digit_char(n: u8) -> (c: char)
    requires
        n < 16,
    ensures
        c == hex_digit(n),
{
    if n < 10 {
        (0x30 + n) as char
    } else {
        (0x57 + n) as char
    }
}

/// Appends to `s` the bytes `text` as a message shows them.
fn push_shown(s: &mut String, text: &Vec<u8>)
    ensures
        final(s)@ == old(s)@ + shown_text(text@, text@.len() as int),
{
    let mut i: usize = 0;
    while i < text.len()
        invariant
            i <= text@.len(),
            s@ == old(s)@ + shown_text(text@, i as int),
        decreases text@.len() - i,
    {
        let byte = text[i];
        let ghost before = s@;
        if byte == 0x09 {
            push_char(s, '\\');
            push_char(s, 't');
        } else if byte == 0x0d {
            push_char(s, '\\');
            push_char(s, 'r');
        } else if byte == 0x0a {
            push_char(s, '\\');
            push_char(s, 'n');
        } else if byte == 0x27 || byte == 0x22 || byte == 0x5c {
            push_char(s, '\\');
            push_char(s, byte as char);
        } else if 0x20 <= byte && byte <= 0x7e {
            push_char(s, byte as char);
        } else {
            push_char(s, '\\');
            push_char(s, 'x');
            push_char(s, hex_digit_char(byte / 16));
            push_char(s, hex_digit_char(byte % 16));
        }
        proof {
            assert(s@ =~= before + shown_in_message(byte));
        }
        i += 1;
    }
}

} // verus!
