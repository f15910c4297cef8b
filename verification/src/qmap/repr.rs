//! The document that a map's text stands for: entities, their dictionaries
//! and brushes, the surfaces of a brush and their texture alignment.

use crate::qmap::number::Number;
use crate::text::{nul_free, Text};
use vstd::prelude::*;

verus! {

/// What checking an item for writing returns: nothing, or what is wrong
/// with the item.
pub type ValidationResult = Result<(), String>;

/// One of the three points that fix the plane of a surface.
pub type Point = [Number; 3];

pub type Vec3 = [Number; 3];

pub type Vec2 = [Number; 2];

/// Three points of a plane. The order in which they wind tells to which
/// side the surface faces.
pub type HalfSpace = [Point; 3];

/// A convex solid, given by the surfaces that bound it.
pub type Brush = Vec<Surface>;

/// How a texture lies on a surface. With `axes` the alignment is written in
/// the form with texture axes, without them in the older form of five
/// numbers.
#[derive(Clone, Debug, PartialEq)]
pub struct Alignment {
    pub offset: Vec2,
    pub rotation: Number,
    pub scale: Vec2,
    /// The two axes of the texture's plane.
    pub axes: Option<[Vec3; 2]>,
}

/// What an `Alignment` holds, as contracts see it: each number by its
/// numeral.
pub struct AlignmentView {
    pub offset: Seq<Seq<u8>>,
    pub rotation: Seq<u8>,
    pub scale: Seq<Seq<u8>>,
    pub axes: Option<Seq<Seq<Seq<u8>>>>,
}

impl AlignmentView {
    /// What holds of the view of every `Alignment`: two offsets, two
    /// scales, and two axes of three numbers each where there are axes.
    pub open spec fn well_formed(self) -> bool {
        &&& self.offset.len() == 2
        &&& self.scale.len() == 2
        &&& self.axes matches Some(axes) ==> axes.len() == 2 && axes[0].len() == 3
            && axes[1].len() == 3
    }
}

impl View for Alignment {
    type V = AlignmentView;

    open spec fn view(&self) -> AlignmentView {
        AlignmentView {
            offset: self.offset.deep_view(),
            rotation: self.rotation@,
            scale: self.scale.deep_view(),
            axes: self.axes.deep_view(),
        }
    }
}

impl DeepView for Alignment {
    type V = AlignmentView;

    open spec fn deep_view(&self) -> AlignmentView {
        self@
    }
}

/// One face of a brush.
#[derive(Clone, Debug, PartialEq)]
pub struct Surface {
    pub half_space: HalfSpace,
    pub texture: Text,
    pub alignment: Alignment,
}

/// What a `Surface` holds, as contracts see it.
pub struct SurfaceView {
    pub half_space: Seq<Seq<Seq<u8>>>,
    pub texture: Seq<u8>,
    pub alignment: AlignmentView,
}

impl SurfaceView {
    /// What holds of the view of every `Surface`: three points of three
    /// numbers each, a name without a NUL byte, and a well-formed
    /// alignment.
    pub open spec fn well_formed(self) -> bool {
        &&& self.half_space.len() == 3
        &&& forall|i: int| 0 <= i < 3 ==> (#[trigger] self.half_space[i]).len() == 3
        &&& nul_free(self.texture)
        &&& self.alignment.well_formed()
    }
}

impl View for Surface {
    type V = SurfaceView;

    open spec fn view(&self) -> SurfaceView {
        SurfaceView {
            half_space: self.half_space.deep_view(),
            texture: self.texture@,
            alignment: self.alignment@,
        }
    }
}

impl DeepView for Surface {
    type V = SurfaceView;

    open spec fn deep_view(&self) -> SurfaceView {
        self@
    }
}

/// Does one of `pairs` have the key `key`?
pub open spec fn has_key(pairs: Seq<(Seq<u8>, Seq<u8>)>, key: Seq<u8>) -> bool {
    exists|i: int| 0 <= i < pairs.len() && (#[trigger] pairs[i]).0 == key
}

/// Where `key` stands in `pairs`, if it does.
pub open spec fn index_of_key(pairs: Seq<(Seq<u8>, Seq<u8>)>, key: Seq<u8>) -> int {
    choose|i: int| 0 <= i < pairs.len() && (#[trigger] pairs[i]).0 == key
}

/// No key stands twice in `pairs`.
pub open spec fn distinct_keys(pairs: Seq<(Seq<u8>, Seq<u8>)>) -> bool {
    forall|i: int, j: int|
        0 <= i < j < pairs.len() ==> (#[trigger] pairs[i]).0 != (#[trigger] pairs[j]).0
}

/// The value that `pairs` has for `key`.
pub open spec fn value_of(pairs: Seq<(Seq<u8>, Seq<u8>)>, key: Seq<u8>) -> Option<Seq<u8>> {
    if has_key(pairs, key) {
        Some(pairs[index_of_key(pairs, key)].1)
    } else {
        None
    }
}

/// `pairs` with `value` for `key`: in the place that the key has, or at the
/// end where it is new.
pub open spec fn with_pair(pairs: Seq<(Seq<u8>, Seq<u8>)>, key: Seq<u8>, value: Seq<u8>) -> Seq<
    (Seq<u8>, Seq<u8>),
> {
    if has_key(pairs, key) {
        pairs.update(index_of_key(pairs, key), (key, value))
    } else {
        pairs.push((key, value))
    }
}

/// The dictionary of an entity: keys with their values, each key once, in
/// the order in which the keys came. A value given for a key that is there
/// takes the place of the old one.
#[derive(Debug)]
pub struct Edict {
    pairs: Vec<(Text, Text)>,
}

impl View for Edict {
    type V = Seq<(Seq<u8>, Seq<u8>)>;

    /// The pairs of key and value, in their order.
    closed spec fn view(&self) -> Seq<(Seq<u8>, Seq<u8>)> {
        self.pairs.deep_view()
    }
}

impl DeepView for Edict {
    type V = Seq<(Seq<u8>, Seq<u8>)>;

    open spec fn deep_view(&self) -> Seq<(Seq<u8>, Seq<u8>)> {
        self@
    }
}

impl Clone for Edict {
    fn clone(&self) -> (r: Self)
        ensures
            r@ == self@,
    {
        proof {
            use_type_invariant(self);
        }
        let mut pairs: Vec<(Text, Text)> = Vec::with_capacity(self.pairs.len());
        let mut i: usize = 0;
        while i < self.pairs.len()
            invariant
                i <= self.pairs@.len(),
                pairs.deep_view() == self.pairs.deep_view().take(i as int),
            decreases self.pairs@.len() - i,
        {
            let ghost before = pairs.deep_view();
            let key = self.pairs[i].0.clone();
            let value = self.pairs[i].1.clone();
            pairs.push((key, value));
            proof {
                assert(pairs.deep_view() =~= before.push((key@, value@)));
                assert(self.pairs.deep_view().take(i + 1) =~= self.pairs.deep_view().take(
                    i as int,
                ).push(self.pairs.deep_view()[i as int]));
            }
            i += 1;
        }
        proof {
            assert(self.pairs.deep_view().take(i as int) =~= self.pairs.deep_view());
        }
        Edict { pairs }
    }
}

impl Edict {
    #[verifier::type_invariant]
    spec fn inv(self) -> bool {
        distinct_keys(self.pairs.deep_view())
    }

    /// The dictionary without any key.
    pub fn new() -> (r: Edict)
        ensures
            r@ == Seq::<(Seq<u8>, Seq<u8>)>::empty(),
    {
        let pairs: Vec<(Text, Text)> = Vec::new();
        proof {
            assert(pairs.deep_view() =~= Seq::<(Seq<u8>, Seq<u8>)>::empty());
        }
        Edict { pairs }
    }

    /// How many keys there are.
    pub fn len(&self) -> (n: usize)
        ensures
            n == self@.len(),
            distinct_keys(self@),
    {
        proof {
            use_type_invariant(self);
        }
        self.pairs.len()
    }

    pub fn is_empty(&self) -> (r: bool)
        ensures
            r == (self@.len() == 0),
    {
        self.pairs.len() == 0
    }

    /// The key in place `index`.
    pub fn key(&self, index: usize) -> (r: &Text)
        requires
            index < self@.len(),
        ensures
            r@ == self@[index as int].0,
    {
        &self.pairs[index].0
    }

    /// The value in place `index`.
    pub fn value(&self, index: usize) -> (r: &Text)
        requires
            index < self@.len(),
        ensures
            r@ == self@[index as int].1,
    {
        &self.pairs[index].1
    }

    /// The place of `key`, if it is there.
    fn find(pairs: &Vec<(Text, Text)>, key: &Text) -> (r: Option<usize>)
        requires
            distinct_keys(pairs.deep_view()),
        ensures
            r is Some == has_key(pairs.deep_view(), key@),
            r matches Some(i) ==> i < pairs@.len() && i == index_of_key(pairs.deep_view(), key@),
    {
        let mut i: usize = 0;
        while i < pairs.len()
            invariant
                i <= pairs@.len(),
                distinct_keys(pairs.deep_view()),
                forall|j: int| 0 <= j < i ==> (#[trigger] pairs.deep_view()[j]).0 != key@,
            decreases pairs@.len() - i,
        {
            if pairs[i].0 == *key {
                proof {
                    let view = pairs.deep_view();
                    assert(view[i as int].0 == key@);
                    let found = index_of_key(view, key@);
                    assert(0 <= found < view.len() && view[found].0 == key@);
                    assert(found == i) by {
                        if found < i {
                            assert(view[found].0 != view[i as int].0);
                        } else if found > i {
                            assert(view[i as int].0 != view[found].0);
                        }
                    }
                }
                return Some(i);
            }
            i += 1;
        }
        None
    }

    /// The value of `key`, if the key is there.
    pub fn get(&self, key: &Text) -> (r: Option<&Text>)
        ensures
            r.deep_view() == value_of(self@, key@),
    {
        proof {
            use_type_invariant(self);
        }
        match Edict::find(&self.pairs, key) {
            Some(i) => Some(&self.pairs[i].1),
            None => None,
        }
    }

    /// Gives `key` the value `value`, and returns the value that it had.
    pub fn insert(&mut self, key: Text, value: Text) -> (previous: Option<Text>)
        ensures
            final(self)@ == with_pair(old(self)@, key@, value@),
            previous.deep_view() == value_of(old(self)@, key@),
    {
        proof {
            use_type_invariant(&*self);
        }
        let mut pairs: Vec<(Text, Text)> = Vec::new();
        proof {
            assert(pairs.deep_view() =~= Seq::<(Seq<u8>, Seq<u8>)>::empty());
        }
        std::mem::swap(&mut self.pairs, &mut pairs);
        let ghost before = pairs.deep_view();
        match Edict::find(&pairs, &key) {
            Some(i) => {
                let (_, previous) = pairs.remove(i);
                pairs.insert(i, (key, value));
                proof {
                    assert(pairs.deep_view() =~= before.update(i as int, (key@, value@)));
                }
                self.pairs = pairs;
                Some(previous)
            },
            None => {
                pairs.push((key, value));
                proof {
                    assert(pairs.deep_view() =~= before.push((key@, value@)));
                }
                self.pairs = pairs;
                None
            },
        }
    }
}

/// Whether an entity has brushes.
#[derive(Clone, Copy, PartialEq, Eq, Debug, Structural)]
pub enum EntityKind {
    Point,
    Brush,
}

/// A dictionary of keys and values, and the brushes of the entity if it
/// has any.
#[derive(Clone, Debug)]
pub struct Entity {
    pub edict: Edict,
    pub brushes: Vec<Brush>,
}

/// What an `Entity` holds, as contracts see it.
pub struct EntityView {
    pub edict: Seq<(Seq<u8>, Seq<u8>)>,
    pub brushes: Seq<Seq<SurfaceView>>,
}

impl EntityView {
    /// What holds of the view of every `Entity`: each key stands once, no
    /// key and no value holds a NUL byte, and every surface is well
    /// formed.
    pub open spec fn well_formed(self) -> bool {
        &&& distinct_keys(self.edict)
        &&& forall|i: int|
            0 <= i < self.edict.len() ==> nul_free((#[trigger] self.edict[i]).0) && nul_free(
                self.edict[i].1,
            )
        &&& forall|b: int, s: int|
            0 <= b < self.brushes.len() && 0 <= s < self.brushes[b].len()
                ==> (#[trigger] self.brushes[b][s]).well_formed()
    }
}

impl View for Entity {
    type V = EntityView;

    open spec fn view(&self) -> EntityView {
        EntityView { edict: self.edict@, brushes: self.brushes.deep_view() }
    }
}

impl DeepView for Entity {
    type V = EntityView;

    open spec fn deep_view(&self) -> EntityView {
        self@
    }
}

impl Entity {
    /// The entity without keys and brushes.
    pub fn new() -> (r: Entity)
        ensures
            r@.edict == Seq::<(Seq<u8>, Seq<u8>)>::empty(),
            r@.brushes == Seq::<Seq<SurfaceView>>::empty(),
    {
        let brushes: Vec<Brush> = Vec::new();
        proof {
            assert(brushes.deep_view() =~= Seq::<Seq<SurfaceView>>::empty());
        }
        Entity { edict: Edict::new(), brushes }
    }

    /// A point entity has no brush, a brush entity has one or more.
    pub fn kind(&self) -> (r: EntityKind)
        ensures
            r == (if self@.brushes.len() == 0 {
                EntityKind::Point
            } else {
                EntityKind::Brush
            }),
    {
        if self.brushes.len() == 0 {
            EntityKind::Point
        } else {
            EntityKind::Brush
        }
    }
}

impl Default for Entity {
    fn default() -> (r: Entity)
        ensures
            r@.edict == Seq::<(Seq<u8>, Seq<u8>)>::empty(),
            r@.brushes == Seq::<Seq<SurfaceView>>::empty(),
    {
        Entity::new()
    }
}

/// A map: its entities, in their order.
#[derive(Clone, Debug)]
pub struct QuakeMap {
    pub entities: Vec<Entity>,
}

/// What a `QuakeMap` holds, as contracts see it.
pub struct QuakeMapView {
    pub entities: Seq<EntityView>,
}

impl QuakeMapView {
    /// What holds of the view of every `QuakeMap`: every entity is well
    /// formed.
    pub open spec fn well_formed(self) -> bool {
        forall|i: int| 0 <= i < self.entities.len() ==> (#[trigger] self.entities[i]).well_formed()
    }
}

impl View for QuakeMap {
    type V = QuakeMapView;

    open spec fn view(&self) -> QuakeMapView {
        QuakeMapView { entities: self.entities.deep_view() }
    }
}

impl DeepView for QuakeMap {
    type V = QuakeMapView;

    open spec fn deep_view(&self) -> QuakeMapView {
        self@
    }
}

impl QuakeMap {
    /// The map without entities.
    pub fn new() -> (r: QuakeMap)
        ensures
            r@.entities == Seq::<EntityView>::empty(),
    {
        let entities: Vec<Entity> = Vec::new();
        proof {
            assert(entities.deep_view() =~= Seq::<EntityView>::empty());
        }
        QuakeMap { entities }
    }
}

impl Default for QuakeMap {
    fn default() -> (r: QuakeMap)
        ensures
            r@.entities == Seq::<EntityView>::empty(),
    {
        QuakeMap::new()
    }
}

} // verus!
