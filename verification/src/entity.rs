//! Entity data model.
//!
//! Stratum uses a flat, explicit component model rather than a trait-based ECS.
//! Each entity is a bag of optional typed components stored in a per-level
//! `EntityStore`.
//!
//! Real-valued component data (positions, colours, ranges) is carried as the
//! IEEE-754 bit pattern of the `f32` it stands for; this crate stores and
//! moves such values but never computes with them.
use std::collections::HashMap;
use vstd::prelude::*;
use vstd::std_specs::hash::*;
use crate::keyed::{map_get_mut, map_keys};
use crate::text::{decimal, push_decimal};

verus! {

broadcast use vstd::std_specs::hash::group_hash_axioms;

/// Bit pattern of `0.0f32`.
pub const F32_ZERO_BITS: u32 = 0x0000_0000;

/// Bit pattern of `1.0f32`.
pub const F32_ONE_BITS: u32 = 0x3f80_0000;

/// Bit pattern of `f32::MAX`.
pub const F32_MAX_BITS: u32 = 0x7f7f_ffff;

/// Opaque, stable entity identifier.
///
/// IDs are unique within a `Level`; uniqueness across levels is not guaranteed.
#[derive(Debug, Clone, Copy, PartialEq, Eq, Hash, PartialOrd, Ord, Structural)]
pub struct EntityId(pub u64);

impl EntityId {
    pub fn new(val: u64) -> (id: Self)
        ensures
            id.0 == val,
    {
        EntityId(val)
    }

    pub fn raw(self) -> (v: u64)
        ensures
            v == self.0,
    {
        self.0
    }

    /// Display form, `Entity(n)`.
    pub fn to_string(&self) -> (s: String)
        ensures
            s@ == "Entity("@ + decimal(self.0 as nat) + ")"@,
    {
        let mut s = String::from_str("Entity(");
        push_decimal(&mut s, self.0);
        s.append(")");
        s
    }
}

/// World-space transform, each real number as its `f32` bit pattern.
#[derive(Debug, Clone, Copy, PartialEq, Eq)]
pub struct Transform {
    /// `[x, y, z]`.
    pub position: [u32; 3],
    /// Quaternion `[x, y, z, w]`.
    pub rotation: [u32; 4],
    /// `[x, y, z]`.
    pub scale: [u32; 3],
}

/// The identity transform: at the origin, unrotated, unit scale.
pub open spec fn identity_transform() -> Transform {
    Transform {
        position: [F32_ZERO_BITS, F32_ZERO_BITS, F32_ZERO_BITS],
        rotation: [F32_ZERO_BITS, F32_ZERO_BITS, F32_ZERO_BITS, F32_ONE_BITS],
        scale: [F32_ONE_BITS, F32_ONE_BITS, F32_ONE_BITS],
    }
}

impl Default for Transform {
    fn default() -> (t: Self)
        ensures
            t == identity_transform(),
    {
        Transform {
            position: [F32_ZERO_BITS, F32_ZERO_BITS, F32_ZERO_BITS],
            rotation: [F32_ZERO_BITS, F32_ZERO_BITS, F32_ZERO_BITS, F32_ONE_BITS],
            scale: [F32_ONE_BITS, F32_ONE_BITS, F32_ONE_BITS],
        }
    }
}

impl Transform {
    /// The identity transform moved to `position`.
    pub fn from_position(position: [u32; 3]) -> (t: Self)
        ensures
            t == (Transform { position, ..identity_transform() }),
    {
        Transform {
            position,
            rotation: [F32_ZERO_BITS, F32_ZERO_BITS, F32_ZERO_BITS, F32_ONE_BITS],
            scale: [F32_ONE_BITS, F32_ONE_BITS, F32_ONE_BITS],
        }
    }
}

/// Opaque reference to a GPU mesh asset.
#[derive(Debug, Clone, Copy, PartialEq, Eq, Hash, Structural)]
pub struct MeshHandle(pub u64);

/// Light source definition attached to an entity (real numbers as `f32` bits).
#[derive(Debug, Clone, Copy, PartialEq, Eq)]
pub enum LightData {
    Point { color: [u32; 3], intensity: u32, range: u32 },
    Directional { direction: [u32; 3], color: [u32; 3], intensity: u32 },
    Spot {
        direction: [u32; 3],
        color: [u32; 3],
        intensity: u32,
        range: u32,
        inner_angle: u32,
        outer_angle: u32,
    },
}

/// Conservative bounding radius of a light: its range, or `f32::MAX` for a
/// directional light (always visible).
pub open spec fn light_radius(l: LightData) -> u32 {
    match l {
        LightData::Point { range, .. } => range,
        LightData::Spot { range, .. } => range,
        LightData::Directional { .. } => F32_MAX_BITS,
    }
}

impl LightData {
    /// Conservative bounding radius for frustum culling (as `f32` bits).
    /// Directional lights return `f32::MAX` (always visible).
    pub fn bounding_radius(&self) -> (r: u32)
        ensures
            r == light_radius(*self),
    {
        match self {
            LightData::Point { range, .. } => *range,
            LightData::Spot { range, .. } => *range,
            LightData::Directional { .. } => F32_MAX_BITS,
        }
    }
}

/// Camera-facing billboard sprite attached to an entity.
#[derive(Debug, Clone, Copy, PartialEq, Eq)]
pub struct BillboardData {
    /// Width and height of the quad in world-space metres (`f32` bits).
    pub size: [u32; 2],
    /// RGBA linear-colour tint (`f32` bits).
    pub color: [u32; 4],
    /// When `true` the size stays constant in screen space regardless of depth.
    pub screen_scale: bool,
}

impl BillboardData {
    pub fn new(width: u32, height: u32, color: [u32; 4]) -> (b: Self)
        ensures
            b == (BillboardData { size: [width, height], color, screen_scale: false }),
    {
        BillboardData { size: [width, height], color, screen_scale: false }
    }

    pub fn with_screen_scale(self) -> (b: Self)
        ensures
            b == (BillboardData { screen_scale: true, ..self }),
    {
        BillboardData { screen_scale: true, ..self }
    }
}

/// All components an entity may carry. All are optional.
#[derive(Debug, Clone)]
pub struct Components {
    pub transform: Option<Transform>,
    pub mesh: Option<MeshHandle>,
    pub light: Option<LightData>,
    /// Camera-facing billboard rendered at the entity's world position.
    pub billboard: Option<BillboardData>,
    /// Radius (metres, `f32` bits) of the bounding sphere centred at
    /// `transform.position`; `0.0` means "use the renderer's fallback".
    pub bounding_radius: u32,
    /// Arbitrary string tags for runtime queries (e.g., "player", "static").
    pub tags: Vec<String>,
}

/// Whether an entity with these components contributes to a render view.
pub open spec fn renderable(c: Components) -> bool {
    c.mesh is Some || c.light is Some || c.billboard is Some
}

impl Components {
    /// No components at all.
    pub fn new() -> (c: Self)
        ensures
            c.transform is None,
            c.mesh is None,
            c.light is None,
            c.billboard is None,
            c.bounding_radius == F32_ZERO_BITS,
            c.tags@ == Seq::<String>::empty(),
    {
        Components {
            transform: None,
            mesh: None,
            light: None,
            billboard: None,
            bounding_radius: F32_ZERO_BITS,
            tags: Vec::new(),
        }
    }

    pub fn with_transform(self, t: Transform) -> (c: Self)
        ensures
            c == (Components { transform: Some(t), ..self }),
    {
        Components { transform: Some(t), ..self }
    }

    pub fn with_mesh(self, h: MeshHandle) -> (c: Self)
        ensures
            c == (Components { mesh: Some(h), ..self }),
    {
        Components { mesh: Some(h), ..self }
    }

    pub fn with_light(self, l: LightData) -> (c: Self)
        ensures
            c == (Components { light: Some(l), ..self }),
    {
        Components { light: Some(l), ..self }
    }

    pub fn with_billboard(self, b: BillboardData) -> (c: Self)
        ensures
            c == (Components { billboard: Some(b), ..self }),
    {
        Components { billboard: Some(b), ..self }
    }

    pub fn with_bounding_radius(self, r: u32) -> (c: Self)
        ensures
            c == (Components { bounding_radius: r, ..self }),
    {
        Components { bounding_radius: r, ..self }
    }

    /// Append a tag.
    pub fn with_tag(self, tag: &str) -> (c: Self)
        ensures
            c.transform == self.transform,
            c.mesh == self.mesh,
            c.light == self.light,
            c.billboard == self.billboard,
            c.bounding_radius == self.bounding_radius,
            c.tags@.len() == self.tags@.len() + 1,
            forall|i: int| 0 <= i < self.tags@.len() ==> c.tags@[i] == self.tags@[i],
            c.tags@.last()@ == tag@,
    {
        let mut c = self;
        c.tags.push(String::from_str(tag));
        c
    }

    /// Returns `true` if this entity contributes anything to a render view.
    pub fn is_renderable(&self) -> (b: bool)
        ensures
            b == renderable(*self),
    {
        self.mesh.is_some() || self.light.is_some() || self.billboard.is_some()
    }
}

impl Default for Components {
    fn default() -> (c: Self)
        ensures
            c.transform is None,
            c.mesh is None,
            c.light is None,
            c.billboard is None,
            c.bounding_radius == F32_ZERO_BITS,
            c.tags@ == Seq::<String>::empty(),
    {
        Components::new()
    }
}

/// Flat `HashMap`-backed entity storage for one `Level`.
pub struct EntityStore {
    next_id: u64,
    entities: HashMap<u64, Components>,
}

impl EntityStore {
    /// The stored entities, by raw id.
    pub closed spec fn spec_entities(&self) -> Map<u64, Components> {
        self.entities@
    }

    /// The raw id that the next spawn assigns.
    pub closed spec fn spec_next_id(&self) -> u64 {
        self.next_id
    }

    /// Every stored id was handed out before `next_id`; ids start at 1.
    pub open spec fn wf(&self) -> bool {
        &&& 1 <= self.spec_next_id()
        &&& forall|k: u64| #[trigger] self.spec_entities().contains_key(k) ==> 1 <= k < self.spec_next_id()
        &&& self.spec_entities().dom().finite()
    }

    pub fn new() -> (s: Self)
        ensures
            s.wf(),
            s.spec_entities() == Map::<u64, Components>::empty(),
            s.spec_next_id() == 1,
    {
        EntityStore { next_id: 1, entities: HashMap::new() }
    }

    /// Spawn a new entity. Returns its assigned `EntityId`, which no stored
    /// entity had and which is larger than every id handed out before.
    pub fn spawn(&mut self, components: Components) -> (id: EntityId)
        requires
            old(self).wf(),
            old(self).spec_next_id() < u64::MAX,
        ensures
            final(self).wf(),
            id.0 == old(self).spec_next_id(),
            !old(self).spec_entities().contains_key(id.0),
            final(self).spec_entities() == old(self).spec_entities().insert(id.0, components),
            final(self).spec_next_id() == old(self).spec_next_id() + 1,
    {
        let id = EntityId(self.next_id);
        self.next_id = self.next_id + 1;
        self.entities.insert(id.0, components);
        id
    }

    /// Despawn (remove) an entity. Returns its components if it existed.
    pub fn despawn(&mut self, id: EntityId) -> (r: Option<Components>)
        requires
            old(self).wf(),
        ensures
            final(self).wf(),
            r == (if old(self).spec_entities().contains_key(id.0) {
                Some(old(self).spec_entities()[id.0])
            } else {
                None
            }),
            final(self).spec_entities() == old(self).spec_entities().remove(id.0),
            final(self).spec_next_id() == old(self).spec_next_id(),
    {
        self.entities.remove(&id.0)
    }

    pub fn get(&self, id: EntityId) -> (r: Option<&Components>)
        ensures
            r == (if self.spec_entities().contains_key(id.0) {
                Some(&self.spec_entities()[id.0])
            } else {
                None
            }),
    {
        self.entities.get(&id.0)
    }

    pub fn get_mut(&mut self, id: EntityId) -> (r: Option<&mut Components>)
        requires
            old(self).wf(),
        ensures
            final(self).wf(),
            final(self).spec_next_id() == old(self).spec_next_id(),
            match r {
                Some(c) => {
                    &&& old(self).spec_entities().contains_key(id.0)
                    &&& *c == old(self).spec_entities()[id.0]
                    &&& final(self).spec_entities() == old(self).spec_entities().insert(id.0, *final(c))
                },
                None => {
                    &&& !old(self).spec_entities().contains_key(id.0)
                    &&& final(self).spec_entities() == old(self).spec_entities()
                },
            },
    {
        map_get_mut(&mut self.entities, id.0)
    }

    /// All stored entities with their components, each once, in the store's
    /// iteration order.
    pub fn iter(&self) -> (r: Vec<(EntityId, &Components)>)
        ensures
            r@.len() == self.spec_entities().dom().len(),
            forall|i: int| 0 <= i < r@.len() ==> self.spec_entities().contains_key(#[trigger] r@[i].0.0)
                && *r@[i].1 == self.spec_entities()[r@[i].0.0],
            forall|k: u64| self.spec_entities().contains_key(k) ==> exists|i: int| 0 <= i < r@.len() && #[trigger] r@[i].0.0 == k,
            forall|i: int, j: int| 0 <= i < j < r@.len() ==> r@[i].0 != r@[j].0,
    {
        let ks = map_keys(&self.entities);
        let mut r: Vec<(EntityId, &Components)> = Vec::new();
        let mut i: usize = 0;
        while i < ks.len()
            invariant
                i <= ks@.len(),
                r@.len() == i,
                ks@.to_set() == self.entities@.dom(),
                forall|j: int| 0 <= j < i ==> #[trigger] r@[j].0.0 == ks@[j] && *r@[j].1 == self.entities@[ks@[j]],
            decreases ks@.len() - i,
        {
            proof {
                assert(ks@.to_set().contains(ks@[i as int]));
            }
            let c = self.entities.get(&ks[i]).unwrap();
            r.push((EntityId(ks[i]), c));
            i = i + 1;
        }
        proof {
            assert forall|k: u64| self.spec_entities().contains_key(k) implies exists|i: int| 0 <= i < r@.len() && #[trigger] r@[i].0.0 == k by {
                assert(ks@.to_set().contains(k));
                let i = choose|i: int| 0 <= i < ks@.len() && ks@[i] == k;
                assert(r@[i].0.0 == k);
            }
            assert forall|i: int| 0 <= i < r@.len() implies self.spec_entities().contains_key(#[trigger] r@[i].0.0)
                && *r@[i].1 == self.spec_entities()[r@[i].0.0] by {
                assert(ks@.to_set().contains(ks@[i]));
            }
            assert forall|i: int, j: int| 0 <= i < j < r@.len() implies r@[i].0 != r@[j].0 by {
                assert(r@[i].0.0 == ks@[i] && r@[j].0.0 == ks@[j]);
            }
        }
        r
    }

    /// The raw id that the next spawn assigns.
    pub fn next_id(&self) -> (n: u64)
        ensures
            n == self.spec_next_id(),
    {
        self.next_id
    }

    pub fn len(&self) -> (n: usize)
        ensures
            n == self.spec_entities().len(),
    {
        self.entities.len()
    }

    pub fn is_empty(&self) -> (b: bool)
        ensures
            b == self.spec_entities().is_empty(),
    {
        self.entities.is_empty()
    }
}

impl Default for EntityStore {
    fn default() -> (s: Self)
        ensures
            s.wf(),
            s.spec_entities() == Map::<u64, Components>::empty(),
            s.spec_next_id() == 1,
    {
        EntityStore::new()
    }
}

/// Two spawns in a row hand out distinct, increasing ids, and neither id was
/// in the store before: the second spawn's id is the first one's plus one.
pub proof fn lemma_spawn_ids_increase(s0: EntityStore, s1: EntityStore, id1: EntityId, id2: EntityId)
    requires
        s0.wf(),
        id1.0 == s0.spec_next_id(),
        s1.spec_next_id() == s0.spec_next_id() + 1,
        id2.0 == s1.spec_next_id(),
    ensures
        id1.0 < id2.0,
        id1 != id2,
        !s0.spec_entities().contains_key(id1.0),
{
}

/// Spawning an entity and despawning the id it was given returns its
/// components and leaves the store's contents as they were.
pub proof fn lemma_spawn_then_despawn(before: Map<u64, Components>, id: u64, c: Components)
    requires
        !before.contains_key(id),
    ensures
        before.insert(id, c).remove(id) == before,
        before.insert(id, c).contains_key(id) && before.insert(id, c)[id] == c,
{
    assert(before.insert(id, c).remove(id) =~= before);
}

} // verus!
