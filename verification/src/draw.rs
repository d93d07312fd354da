//! The bookkeeping of drawing primitives and sprites through the entity
//! protocol, and the cache of one material per color.
use crate::ident::{callsite_of, entity_of, EntityIdent, Ident};
use crate::deactivations::{fired, group_added, has_group};
use crate::protocol::{GepData, GepView};
use bevy::platform::collections::HashMap;
use vstd::prelude::*;

verus! {

/// What a draw call has to do to its entity in this frame, besides placing
/// it: give it its look the first time, and show it when it comes back.
pub struct DrawStep {
    /// The entity that the draw call drives.
    pub entity: u64,
    /// Whether the entity gets its mesh and material, or its image.
    pub initialize: bool,
    /// Whether the entity is made visible.
    pub reveal: bool,
}

/// The state after the protocol calls of one draw: `get`, the `when_once`
/// and `when_activate` checks, and the registration of `hide`.
pub open spec fn drawn<F>(s: GepView<F>, i: crate::ident::IdentView, entity: u64, hide: F) -> GepView<F> {
    s.got(i, entity).called(callsite_of(i)).called(callsite_of(i)).deactivation_added(i, hide)
}

/// The protocol calls of one draw, in the order the draw makes them: the
/// entity, whether it is new in this frame, whether it comes back after a
/// frame without the call, and `hide` to run when the draw stops.
pub fn draw_step<F, S: FnOnce(EntityIdent) -> u64>(gep: &mut GepData<F>, ident: Ident, spawn: S, hide: F) -> (step: DrawStep)
    requires
        old(gep).wf(),
        !old(gep)@.entities.contains_key(entity_of(ident@)) ==> forall|e: EntityIdent|
            e@ == entity_of(ident@) ==> #[trigger] spawn.requires((e,)),
    ensures
        final(gep).wf(),
        final(gep)@ == drawn(old(gep)@, ident@, step.entity, hide),
        old(gep)@.entities.contains_key(entity_of(ident@)) ==> step.entity == old(
            gep,
        )@.entities[entity_of(ident@)],
        !old(gep)@.entities.contains_key(entity_of(ident@)) ==> exists|x: EntityIdent|
            x@ == entity_of(ident@) && #[trigger] spawn.ensures((x,), step.entity),
        step.initialize == (!old(gep)@.all_calls.contains(callsite_of(ident@))
            || old(gep)@.new_calls.contains(callsite_of(ident@))),
        step.reveal == !old(gep)@.prev_calls.contains(callsite_of(ident@)),
{
    let entity = gep.get(ident, spawn);
    let initialize = gep.when_once(ident);
    let reveal = gep.when_activate(ident);
    gep.on_deactivate(ident, hide);
    DrawStep { entity, initialize, reveal }
}

/// The shape of a drawn primitive.
#[derive(PartialEq, Eq, Structural, Debug, Clone, Copy)]
pub enum PrimitiveShape {
    Circle,
    Rect,
}

/// A color as four bytes: red, green, blue and alpha.
#[derive(Hash, PartialEq, Eq, Structural, Debug, Clone, Copy)]
pub struct ColorKey {
    pub red: u8,
    pub green: u8,
    pub blue: u8,
    pub alpha: u8,
}

/// An index from colors to positions.
pub type ColorIndex = HashMap<ColorKey, usize>;

/// The position that an index holds for each color.
pub uninterp spec fn color_index(m: ColorIndex) -> Map<ColorKey, usize>;

/// `HashMap::new`: an empty index.
#[verifier::external_body]
fn color_index_new() -> (m: ColorIndex)
    ensures
        color_index(m).dom() == Set::<ColorKey>::empty(),
{
    HashMap::new()
}

/// `HashMap::get`: the position stored for the color, if any.
#[verifier::external_body]
fn color_index_get(m: &ColorIndex, k: &ColorKey) -> (found: Option<usize>)
    ensures
        found == (if color_index(*m).contains_key(*k) {
            Some(color_index(*m)[*k])
        } else {
            None
        }),
{
    m.get(k).copied()
}

/// `HashMap::insert`: stores the position for the color.
#[verifier::external_body]
fn color_index_insert(m: &mut ColorIndex, k: ColorKey, at: usize) -> (replaced: Option<usize>)
    ensures
        color_index(*final(m)) == color_index(*old(m)).insert(k, at),
        replaced == (if color_index(*old(m)).contains_key(k) {
            Some(color_index(*old(m))[k])
        } else {
            None
        }),
{
    m.insert(k, at)
}

/// One material per color, made the first time the color is asked for.
pub struct MaterialCache<H> {
    index: ColorIndex,
    materials: Vec<H>,
}

impl<H> MaterialCache<H> {
    /// The material of each color asked for so far.
    pub closed spec fn view(&self) -> Map<ColorKey, H> {
        Map::new(
            |k: ColorKey| color_index(self.index).contains_key(k),
            |k: ColorKey| self.materials@[color_index(self.index)[k] as int],
        )
    }

    /// Whether the index and the materials agree.
    pub closed spec fn wf(&self) -> bool {
        forall|k: ColorKey| #[trigger]
            color_index(self.index).contains_key(k) ==> color_index(self.index)[k]
                < self.materials.len()
    }

    /// No materials.
    pub fn new() -> (c: Self)
        ensures
            c.wf(),
            c.view() == Map::<ColorKey, H>::empty(),
    {
        let c = MaterialCache { index: color_index_new(), materials: Vec::new() };
        assert(c.view() =~= Map::empty());
        c
    }

    /// The material of the color, made by `make` when the color has none
    /// yet.
    pub fn get_or_insert<M: FnOnce() -> H>(&mut self, color: ColorKey, make: M) -> (material: &H)
        requires
            old(self).wf(),
            !old(self).view().contains_key(color) ==> make.requires(()),
        ensures
            final(self).wf(),
            old(self).view().contains_key(color) ==> {
                &&& *material == old(self).view()[color]
                &&& final(self).view() == old(self).view()
            },
            !old(self).view().contains_key(color) ==> {
                &&& make.ensures((), *material)
                &&& final(self).view() == old(self).view().insert(color, *material)
            },
            final(self).view().contains_key(color),
            final(self).view()[color] == *material,
            old(self).view().submap_of(final(self).view()),
    {
        match color_index_get(&self.index, &color) {
            Some(i) => &self.materials[i],
            None => {
                let at = self.materials.len();
                let material = make();
                self.materials.push(material);
                color_index_insert(&mut self.index, color, at);
                assert(self.view() =~= old(self).view().insert(color, self.materials@[at as int]));
                &self.materials[at]
            },
        }
    }
}

impl<H> Default for MaterialCache<H> {
    fn default() -> (c: Self)
        ensures
            c.wf(),
            c.view() == Map::<ColorKey, H>::empty(),
    {
        MaterialCache::new()
    }
}

/// An index from image paths, as bytes, to positions.
pub type ImageIndex = HashMap<Vec<u8>, usize>;

/// The position that an index holds for each path.
pub uninterp spec fn image_index(m: ImageIndex) -> Map<Seq<u8>, usize>;

/// `HashMap::new`: an empty index.
#[verifier::external_body]
fn image_index_new() -> (m: ImageIndex)
    ensures
        image_index(m).dom() == Set::<Seq<u8>>::empty(),
{
    HashMap::new()
}

/// `HashMap::get`: the position stored for the path, if any.
#[verifier::external_body]
fn image_index_get(m: &ImageIndex, k: &Vec<u8>) -> (found: Option<usize>)
    ensures
        found == (if image_index(*m).contains_key(k@) {
            Some(image_index(*m)[k@])
        } else {
            None
        }),
{
    m.get(k).copied()
}

/// `HashMap::insert`: stores the position for the path.
#[verifier::external_body]
fn image_index_insert(m: &mut ImageIndex, k: Vec<u8>, at: usize) -> (replaced: Option<usize>)
    ensures
        image_index(*final(m)) == image_index(*old(m)).insert(k@, at),
        replaced == (if image_index(*old(m)).contains_key(k@) {
            Some(image_index(*old(m))[k@])
        } else {
            None
        }),
{
    m.insert(k, at)
}

/// One image per path, loaded the first time the path is asked for.
pub struct ImageCache<H> {
    index: ImageIndex,
    images: Vec<H>,
}

impl<H> ImageCache<H> {
    /// The image of each path asked for so far.
    pub closed spec fn view(&self) -> Map<Seq<u8>, H> {
        Map::new(
            |k: Seq<u8>| image_index(self.index).contains_key(k),
            |k: Seq<u8>| self.images@[image_index(self.index)[k] as int],
        )
    }

    /// Whether the index and the images agree.
    pub closed spec fn wf(&self) -> bool {
        forall|k: Seq<u8>| #[trigger]
            image_index(self.index).contains_key(k) ==> image_index(self.index)[k]
                < self.images.len()
    }

    /// No images.
    pub fn new() -> (c: Self)
        ensures
            c.wf(),
            c.view() == Map::<Seq<u8>, H>::empty(),
    {
        let c = ImageCache { index: image_index_new(), images: Vec::new() };
        assert(c.view() =~= Map::empty());
        c
    }

    /// The image of the path, loaded by `load` when the path has none yet.
    pub fn get_or_insert<L: FnOnce() -> H>(&mut self, path: Vec<u8>, load: L) -> (image: &H)
        requires
            old(self).wf(),
            !old(self).view().contains_key(path@) ==> load.requires(()),
        ensures
            final(self).wf(),
            old(self).view().contains_key(path@) ==> {
                &&& *image == old(self).view()[path@]
                &&& final(self).view() == old(self).view()
            },
            !old(self).view().contains_key(path@) ==> {
                &&& load.ensures((), *image)
                &&& final(self).view() == old(self).view().insert(path@, *image)
            },
            final(self).view().contains_key(path@),
            final(self).view()[path@] == *image,
            old(self).view().submap_of(final(self).view()),
    {
        match image_index_get(&self.index, &path) {
            Some(i) => &self.images[i],
            None => {
                let at = self.images.len();
                let image = load();
                self.images.push(image);
                let ghost key = path@;
                image_index_insert(&mut self.index, path, at);
                assert(self.view() =~= old(self).view().insert(key, self.images@[at as int]));
                &self.images[at]
            },
        }
    }
}

impl<H> Default for ImageCache<H> {
    fn default() -> (c: Self)
        ensures
            c.wf(),
            c.view() == Map::<Seq<u8>, H>::empty(),
    {
        ImageCache::new()
    }
}

/// Equal color keys share one material: once a color has its material,
/// every later state of the cache still gives that color the same
/// material, so every later `get_or_insert` of an equal key hands it back
/// without making another.
pub proof fn lemma_equal_colors_share_material<H>(
    first: Map<ColorKey, H>,
    later: Map<ColorKey, H>,
    color: ColorKey,
    other: ColorKey,
)
    requires
        first.contains_key(color),
        first.submap_of(later),
        other == color,
    ensures
        later.contains_key(other),
        later[other] == first[color],
{
    assert(first.dom().contains(color));
    assert(first.dom().contains(color) ==> later.dom().contains(color));
}

/// A draw after a frame without it keeps its entity, shows it again and
/// does not give it its look again. `s` is the state before the draw in
/// one frame, `t` the state at the end of the next frame, which made no
/// call of the draw's call site and kept the entities, the calls ever
/// made and the armed deactivations as they were: the update ending that
/// frame hands back `hide` for the entity, and in the frame after it the
/// draw's checks give no `initialize` and a `reveal`.
pub proof fn lemma_draw_after_pause<F>(
    s: GepView<F>,
    i: crate::ident::IdentView,
    entity: u64,
    hide: F,
    t: GepView<F>,
)
    requires
        s.inv(),
        ({
            let s1 = drawn(s, i, entity, hide).frame_ended();
            &&& t.inv()
            &&& t.armed == s1.armed
            &&& s1.all_calls.subset_of(t.all_calls)
            &&& s1.entities.submap_of(t.entities)
            &&& !t.frame_calls.contains(callsite_of(i))
        }),
    ensures
        ({
            let e = drawn(s, i, entity, hide).entities[entity_of(i)];
            let u = t.frame_ended();
            &&& fired(t.armed, t.frame_calls).contains((e, hide))
            &&& u.entities.contains_key(entity_of(i)) && u.entities[entity_of(i)] == e
            &&& !(!u.all_calls.contains(callsite_of(i)) || u.new_calls.contains(callsite_of(i)))
            &&& !u.prev_calls.contains(callsite_of(i))
        }),
{
    let c = callsite_of(i);
    let g = s.got(i, entity).called(c).called(c);
    let e = g.entities[entity_of(i)];
    assert(g.entities.contains_key(entity_of(i)));
    let armed = group_added(g.called(c).pending, c, (e, hide));
    assert(drawn(s, i, entity, hide).pending == armed);
    crate::protocol::lemma_fired_exactly_when_absent(armed, t.frame_calls);
    if has_group(g.called(c).pending, c) {
        let k = choose|k: int| 0 <= k < g.called(c).pending.len() && #[trigger] g.called(c).pending[k].0 == c;
        assert(armed[k].1[armed[k].1.len() - 1] == (e, hide));
    } else {
        assert(armed[armed.len() - 1].1[0] == (e, hide));
    }
    assert(drawn(s, i, entity, hide).frame_ended().all_calls.contains(c));
}

} // verus!
