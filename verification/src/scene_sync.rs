//! What a renderer's persistent scene must change to mirror a level.
//!
//! The renderer keeps one scene object per resident mesh entity and one light
//! proxy per light entity. Each frame the host asks here which entities to
//! drop, which to add and which to refresh, then performs those calls on the
//! renderer itself. Billboards are not kept: the whole list of billboard
//! instances is handed over every frame.
use vstd::prelude::*;
use crate::entity::{Components, EntityId, EntityStore, F32_ONE_BITS, F32_ZERO_BITS};
use crate::level::Level;
use crate::partition::entities_of;
use crate::render_graph::{contains_entity, is_light};

verus! {

/// Scene-object flag bits: bit 0 casts shadows, bit 1 receives them.
pub const SHADOW_CAST_AND_RECEIVE: u32 = 3;

/// Whether a tag list holds `tag`.
pub open spec fn has_tag(tags: Seq<String>, tag: Seq<char>) -> bool {
    exists|i: int| 0 <= i < tags.len() && #[trigger] tags[i]@ == tag
}

/// Object flags for an entity: everything casts and receives shadows except
/// entities tagged `no_shadow`, which do neither.
pub fn shadow_flags(comp: &Components) -> (f: u32)
    ensures
        f == (if has_tag(comp.tags@, "no_shadow"@) { 0 } else { SHADOW_CAST_AND_RECEIVE }),
{
    let opt_out = String::from_str("no_shadow");
    let mut i: usize = 0;
    while i < comp.tags.len()
        invariant
            i <= comp.tags@.len(),
            opt_out@ == "no_shadow"@,
            forall|j: int| 0 <= j < i ==> #[trigger] comp.tags@[j]@ != "no_shadow"@,
        decreases comp.tags@.len() - i,
    {
        if comp.tags[i] == opt_out {
            return 0;
        }
        i = i + 1;
    }
    SHADOW_CAST_AND_RECEIVE
}

/// Whether the level wants a scene object for `id`: the entity sits in an
/// active cell, is still stored, and has a mesh.
pub open spec fn wants_object(level: Level, id: EntityId) -> bool {
    &&& entities_of(level.spec_partition().spec_cells(), true).contains(id)
    &&& level.spec_store().spec_entities().contains_key(id.0)
    &&& level.spec_store().spec_entities()[id.0].mesh is Some
}

/// Changes to the resident scene objects.
pub struct ObjectSyncPlan {
    /// Resident entities that are no longer wanted, in resident order.
    pub remove: Vec<EntityId>,
    /// Wanted entities that are not resident yet, each once.
    pub insert: Vec<EntityId>,
}

/// Changes to the resident light proxies.
pub struct LightSyncPlan {
    /// Resident lights whose entity is gone or lost its light, in resident order.
    pub remove: Vec<EntityId>,
    /// Resident lights that still exist: refresh their parameters.
    pub update: Vec<EntityId>,
    /// Light entities without a proxy yet, each once.
    pub insert: Vec<EntityId>,
}

/// Whether the entity under `id` is stored and has a mesh.
fn has_mesh(store: &EntityStore, id: EntityId) -> (b: bool)
    ensures
        b == (store.spec_entities().contains_key(id.0) && store.spec_entities()[id.0].mesh is Some),
{
    match store.get(id) {
        Some(c) => c.mesh.is_some(),
        None => false,
    }
}

/// Reconcile the resident scene objects (`resident`, each once) against the
/// level: drop exactly the resident entities the level no longer wants, add
/// exactly the wanted entities that are not resident.
pub fn plan_object_sync(level: &Level, resident: &Vec<EntityId>) -> (p: ObjectSyncPlan)
    ensures
        p.remove@ == resident@.filter(|id: EntityId| !wants_object(*level, id)),
        p.insert@.no_duplicates(),
        forall|id: EntityId| #[trigger] p.insert@.contains(id) <==> (wants_object(*level, id)
            && !resident@.contains(id)),
{
    let store = level.entities();
    let active = level.partition().active_entities();
    let mut remove: Vec<EntityId> = Vec::new();
    let mut i: usize = 0;
    while i < resident.len()
        invariant
            i <= resident@.len(),
            *store == level.spec_store(),
            active@ == entities_of(level.spec_partition().spec_cells(), true),
            remove@ == resident@.take(i as int).filter(|id: EntityId| !wants_object(*level, id)),
        decreases resident@.len() - i,
    {
        let id = resident[i];
        proof {
            assert(resident@.take(i + 1).drop_last() =~= resident@.take(i as int));
            reveal(Seq::filter);
        }
        if !(contains_entity(&active, id) && has_mesh(store, id)) {
            remove.push(id);
        }
        i = i + 1;
    }
    proof {
        assert(resident@.take(resident@.len() as int) =~= resident@);
    }
    let mut insert: Vec<EntityId> = Vec::new();
    let mut j: usize = 0;
    while j < active.len()
        invariant
            j <= active@.len(),
            *store == level.spec_store(),
            active@ == entities_of(level.spec_partition().spec_cells(), true),
            insert@.no_duplicates(),
            forall|id: EntityId| #[trigger] insert@.contains(id) <==> (active@.take(j as int).contains(id)
                && wants_object(*level, id) && !resident@.contains(id)),
        decreases active@.len() - j,
    {
        let id = active[j];
        let ghost before = insert@;
        proof {
            assert(active@.take(j + 1) =~= active@.take(j as int).push(id));
            assert(active@.contains(id)) by {
                assert(active@[j as int] == id);
            }
        }
        if has_mesh(store, id) && !contains_entity(resident, id) && !contains_entity(&insert, id) {
            insert.push(id);
        }
        proof {
            assert forall|x: EntityId| #[trigger] insert@.contains(x) <==> (active@.take(j + 1).contains(x)
                && wants_object(*level, x) && !resident@.contains(x)) by {
                lemma_push_contains(before, id, x);
                lemma_push_contains(active@.take(j as int), id, x);
            }
        }
        j = j + 1;
    }
    proof {
        assert(active@.take(active@.len() as int) =~= active@);
        assert forall|id: EntityId| #[trigger] insert@.contains(id) <==> (wants_object(*level, id)
            && !resident@.contains(id)) by {
        }
    }
    ObjectSyncPlan { remove, insert }
}

proof fn lemma_push_contains<A>(s: Seq<A>, a: A, x: A)
    ensures
        s.push(a).contains(x) <==> (s.contains(x) || x == a),
{
    if s.contains(x) {
        let i = choose|i: int| 0 <= i < s.len() && s[i] == x;
        assert(s.push(a)[i] == x);
    }
    if x == a {
        assert(s.push(a)[s.len() as int] == x);
    }
    if s.push(a).contains(x) && x != a {
        let i = choose|i: int| 0 <= i < s.len() + 1 && s.push(a)[i] == x;
        assert(s[i] == x);
    }
}

/// Reconcile the resident light proxies (`resident`, each once) against every
/// entity of the store, active cell or not: drop the proxies whose light is
/// gone, refresh the others, add the lights that have none.
pub fn plan_light_sync(store: &EntityStore, resident: &Vec<EntityId>) -> (p: LightSyncPlan)
    ensures
        p.remove@ == resident@.filter(|id: EntityId| !is_light(*store, id)),
        p.update@ == resident@.filter(|id: EntityId| is_light(*store, id)),
        p.insert@.no_duplicates(),
        forall|id: EntityId| #[trigger] p.insert@.contains(id) <==> (is_light(*store, id)
            && !resident@.contains(id)),
{
    let mut remove: Vec<EntityId> = Vec::new();
    let mut update: Vec<EntityId> = Vec::new();
    let mut i: usize = 0;
    while i < resident.len()
        invariant
            i <= resident@.len(),
            remove@ == resident@.take(i as int).filter(|id: EntityId| !is_light(*store, id)),
            update@ == resident@.take(i as int).filter(|id: EntityId| is_light(*store, id)),
        decreases resident@.len() - i,
    {
        let id = resident[i];
        proof {
            assert(resident@.take(i + 1).drop_last() =~= resident@.take(i as int));
            reveal(Seq::filter);
        }
        let lit = match store.get(id) {
            Some(c) => c.light.is_some(),
            None => false,
        };
        if lit {
            update.push(id);
        } else {
            remove.push(id);
        }
        i = i + 1;
    }
    proof {
        assert(resident@.take(resident@.len() as int) =~= resident@);
    }
    let all = store.iter();
    let mut insert: Vec<EntityId> = Vec::new();
    let mut j: usize = 0;
    while j < all.len()
        invariant
            j <= all@.len(),
            forall|k: int| 0 <= k < all@.len() ==> store.spec_entities().contains_key(#[trigger] all@[k].0.0)
                && *all@[k].1 == store.spec_entities()[all@[k].0.0],
            forall|a: int, b: int| 0 <= a < b < all@.len() ==> all@[a].0 != all@[b].0,
            forall|k: int| #![trigger insert@[k]] 0 <= k < insert@.len() ==> exists|m: int| #![trigger all@[m]] 0 <= m < j && all@[m].0 == insert@[k],
            insert@.no_duplicates(),
            forall|id: EntityId| #[trigger] insert@.contains(id) ==> is_light(*store, id) && !resident@.contains(id),
            forall|m: int| 0 <= m < j ==> (is_light(*store, #[trigger] all@[m].0) && !resident@.contains(all@[m].0))
                ==> insert@.contains(all@[m].0),
        decreases all@.len() - j,
    {
        let (id, c) = all[j];
        let ghost before = insert@;
        proof {
            assert(id == all@[j as int].0 && *c == store.spec_entities()[id.0]);
            assert(store.spec_entities().contains_key(all@[j as int].0.0));
        }
        if c.light.is_some() && !contains_entity(resident, id) {
            proof {
                assert forall|k: int| 0 <= k < insert@.len() implies insert@[k] != id by {
                    let m = choose|m: int| #![trigger all@[m]] 0 <= m < j && all@[m].0 == insert@[k];
                    assert(all@[m].0 != all@[j as int].0);
                }
            }
            insert.push(id);
        }
        proof {
            assert forall|x: EntityId| #[trigger] insert@.contains(x) implies is_light(*store, x)
                && !resident@.contains(x) by {
                lemma_push_contains(before, id, x);
            }
            assert forall|k: int| #![trigger insert@[k]] 0 <= k < insert@.len() implies exists|m: int|
                #![trigger all@[m]] 0 <= m < j + 1 && all@[m].0 == insert@[k] by {
                if k == before.len() {
                    assert(all@[j as int].0 == insert@[k]);
                } else {
                    assert(insert@[k] == before[k]);
                }
            }
            assert forall|m: int| 0 <= m < j + 1 && (is_light(*store, #[trigger] all@[m].0)
                && !resident@.contains(all@[m].0)) implies insert@.contains(all@[m].0) by {
                lemma_push_contains(before, id, all@[m].0);
            }
        }
        j = j + 1;
    }
    proof {
        assert forall|id: EntityId| #[trigger] insert@.contains(id) <==> (is_light(*store, id)
            && !resident@.contains(id)) by {
            if is_light(*store, id) && !resident@.contains(id) {
                let m = choose|m: int| 0 <= m < all@.len() && #[trigger] all@[m].0.0 == id.0;
                assert(all@[m].0 == id);
            }
        }
    }
    LightSyncPlan { remove, update, insert }
}

/// One camera-facing quad as the renderer takes it (`f32` bit patterns):
/// `[x, y, z, 0]`, `[width, height, screen-scale flag (1.0 or 0.0), 0]` and
/// an RGBA colour.
#[derive(Debug, Clone, Copy, PartialEq, Eq)]
pub struct BillboardInstance {
    pub world_pos: [u32; 4],
    pub scale_flags: [u32; 4],
    pub color: [u32; 4],
}

/// Whether an entity shows a billboard: it has one and a position.
pub open spec fn shows_billboard(c: Components) -> bool {
    c.billboard is Some && c.transform is Some
}

/// The billboard instance of an entity that shows one.
pub open spec fn billboard_of(c: Components) -> BillboardInstance {
    let b = c.billboard->0;
    let p = c.transform->0.position;
    BillboardInstance {
        world_pos: [p[0], p[1], p[2], F32_ZERO_BITS],
        scale_flags: [b.size[0], b.size[1], if b.screen_scale { F32_ONE_BITS } else { F32_ZERO_BITS }, F32_ZERO_BITS],
        color: b.color,
    }
}

/// The billboard instances of every entity of the store that shows one,
/// each entity once, in the store's iteration order, followed by `extras`.
pub fn billboard_instances(store: &EntityStore, extras: &Vec<BillboardInstance>) -> (r: Vec<BillboardInstance>)
    ensures
        exists|ks: Seq<u64>| {
            &&& ks.no_duplicates()
            &&& r@ == ks.map_values(|k: u64| billboard_of(store.spec_entities()[k])) + extras@
            &&& forall|k: u64| #[trigger] ks.contains(k) <==> (store.spec_entities().contains_key(k)
                && shows_billboard(store.spec_entities()[k]))
        },
{
    let all = store.iter();
    let ghost ents = store.spec_entities();
    let mut r: Vec<BillboardInstance> = Vec::new();
    let ghost mut ks: Seq<u64> = Seq::empty();
    let mut j: usize = 0;
    while j < all.len()
        invariant
            j <= all@.len(),
            ents == store.spec_entities(),
            forall|k: int| 0 <= k < all@.len() ==> ents.contains_key(#[trigger] all@[k].0.0)
                && *all@[k].1 == ents[all@[k].0.0],
            forall|a: int, b: int| 0 <= a < b < all@.len() ==> all@[a].0 != all@[b].0,
            forall|k: u64| ents.contains_key(k) ==> exists|i: int| 0 <= i < all@.len() && #[trigger] all@[i].0.0 == k,
            ks.no_duplicates(),
            r@ == ks.map_values(|k: u64| billboard_of(ents[k])),
            forall|t: int| #![trigger ks[t]] 0 <= t < ks.len() ==> exists|i: int| #![trigger all@[i]] 0 <= i < j && all@[i].0.0 == ks[t],
            forall|k: u64| #[trigger] ks.contains(k) ==> ents.contains_key(k) && shows_billboard(ents[k]),
            forall|i: int| 0 <= i < j && shows_billboard(ents[(#[trigger] all@[i]).0.0]) ==> ks.contains(all@[i].0.0),
        decreases all@.len() - j,
    {
        let (id, c) = all[j];
        let ghost ks0 = ks;
        proof {
            assert(id == all@[j as int].0 && *c == ents[id.0]);
        }
        match (&c.billboard, &c.transform) {
            (Some(b), Some(t)) => {
                let flag = if b.screen_scale { F32_ONE_BITS } else { F32_ZERO_BITS };
                r.push(BillboardInstance {
                    world_pos: [t.position[0], t.position[1], t.position[2], F32_ZERO_BITS],
                    scale_flags: [b.size[0], b.size[1], flag, F32_ZERO_BITS],
                    color: b.color,
                });
                proof {
                    assert(!ks0.contains(id.0)) by {
                        if ks0.contains(id.0) {
                            let t = choose|t: int| 0 <= t < ks0.len() && ks0[t] == id.0;
                            let i = choose|i: int| #![trigger all@[i]] 0 <= i < j && all@[i].0.0 == ks0[t];
                            assert(all@[i].0 != all@[j as int].0);
                        }
                    }
                    ks = ks0.push(id.0);
                    assert(r@ =~= ks.map_values(|k: u64| billboard_of(ents[k])));
                    assert forall|k: u64| #[trigger] ks.contains(k) implies ents.contains_key(k) && shows_billboard(ents[k]) by {
                        lemma_push_contains(ks0, id.0, k);
                    }
                    assert forall|t: int| #![trigger ks[t]] 0 <= t < ks.len() implies exists|i: int| #![trigger all@[i]] 0 <= i < j + 1 && all@[i].0.0 == ks[t] by {
                        if t == ks0.len() {
                            assert(all@[j as int].0.0 == ks[t]);
                        } else {
                            assert(ks[t] == ks0[t]);
                        }
                    }
                    assert forall|i: int| 0 <= i < j + 1 && shows_billboard(ents[(#[trigger] all@[i]).0.0]) implies ks.contains(all@[i].0.0) by {
                        lemma_push_contains(ks0, id.0, all@[i].0.0);
                    }
                }
            },
            _ => {
                proof {
                    assert(!shows_billboard(ents[all@[j as int].0.0]));
                }
            },
        }
        j = j + 1;
    }
    let ghost base = r@;
    let mut e: usize = 0;
    while e < extras.len()
        invariant
            e <= extras@.len(),
            r@ == base + extras@.take(e as int),
        decreases extras@.len() - e,
    {
        r.push(extras[e]);
        proof {
            assert(extras@.take(e + 1) =~= extras@.take(e as int).push(extras@[e as int]));
        }
        e = e + 1;
    }
    proof {
        assert(extras@.take(extras@.len() as int) =~= extras@);
        assert forall|k: u64| #[trigger] ks.contains(k) <==> (ents.contains_key(k) && shows_billboard(ents[k])) by {
            if ents.contains_key(k) && shows_billboard(ents[k]) {
                let i = choose|i: int| 0 <= i < all@.len() && #[trigger] all@[i].0.0 == k;
            }
        }
    }
    r
}

/// After an object sync is applied (the planned removals dropped, the planned
/// insertions added), the resident entities are exactly those the level
/// wants.
pub proof fn lemma_object_sync_mirrors_level(level: Level, resident: Seq<EntityId>, p_remove: Seq<EntityId>, p_insert: Seq<EntityId>)
    requires
        p_remove == resident.filter(|id: EntityId| !wants_object(level, id)),
        forall|id: EntityId| #[trigger] p_insert.contains(id) <==> (wants_object(level, id) && !resident.contains(id)),
    ensures
        forall|id: EntityId| ((resident.contains(id) && !p_remove.contains(id)) || p_insert.contains(id))
            <==> #[trigger] wants_object(level, id),
{
    assert forall|id: EntityId| ((resident.contains(id) && !p_remove.contains(id)) || p_insert.contains(id))
        <==> #[trigger] wants_object(level, id) by {
        lemma_filter_contains(resident, |x: EntityId| !wants_object(level, x), id);
    }
}

/// After a light sync is applied, the resident proxies are exactly the light
/// entities of the store, and the refreshed ones are those that were
/// resident already.
pub proof fn lemma_light_sync_mirrors_store(
    store: EntityStore,
    resident: Seq<EntityId>,
    p_remove: Seq<EntityId>,
    p_update: Seq<EntityId>,
    p_insert: Seq<EntityId>,
)
    requires
        p_remove == resident.filter(|id: EntityId| !is_light(store, id)),
        p_update == resident.filter(|id: EntityId| is_light(store, id)),
        forall|id: EntityId| #[trigger] p_insert.contains(id) <==> (is_light(store, id) && !resident.contains(id)),
    ensures
        forall|id: EntityId| ((resident.contains(id) && !p_remove.contains(id)) || p_insert.contains(id))
            <==> #[trigger] is_light(store, id),
        forall|id: EntityId| #[trigger] p_update.contains(id) <==> (resident.contains(id) && is_light(store, id)),
{
    assert forall|id: EntityId| ((resident.contains(id) && !p_remove.contains(id)) || p_insert.contains(id))
        <==> #[trigger] is_light(store, id) by {
        lemma_filter_contains(resident, |x: EntityId| !is_light(store, x), id);
    }
    assert forall|id: EntityId| #[trigger] p_update.contains(id) <==> (resident.contains(id) && is_light(store, id)) by {
        lemma_filter_contains(resident, |x: EntityId| is_light(store, x), id);
    }
}

/// An element is in a filtered sequence exactly when it is in the sequence
/// and passes the filter.
proof fn lemma_filter_contains<A>(s: Seq<A>, pred: spec_fn(A) -> bool, x: A)
    ensures
        s.filter(pred).contains(x) <==> (s.contains(x) && pred(x)),
    decreases s.len(),
{
    reveal(Seq::filter);
    if s.len() > 0 {
        lemma_filter_contains(s.drop_last(), pred, x);
        lemma_push_contains(s.drop_last().filter(pred), s.last(), x);
        lemma_push_contains(s.drop_last(), s.last(), x);
        assert(s == s.drop_last().push(s.last()));
    }
}

} // verus!
