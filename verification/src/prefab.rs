//! Prefabs — named, reusable entity templates and the registry that holds them.
//!
//! A prefab's entity transforms are local to the prefab's origin; its volumes
//! describe the space it occupies, solid (keep-out) or hollow (may overlap).
//! Stamping a prefab into a level is geometry on real numbers and lives with
//! the placement session outside this crate; the templates and the registry
//! are kept here.
use std::collections::HashMap;
use vstd::prelude::*;
use vstd::std_specs::hash::*;
use crate::entity::Components;

verus! {

broadcast use vstd::std_specs::hash::group_hash_axioms;

/// Opaque numeric identifier for a `Prefab` within a `PrefabRegistry`.
#[derive(Debug, Clone, Copy, PartialEq, Eq, Hash, Structural)]
pub struct PrefabId(pub u64);

impl PrefabId {
    pub fn new(val: u64) -> (id: Self)
        ensures
            id.0 == val,
    {
        PrefabId(val)
    }

    pub fn raw(self) -> (v: u64)
        ensures
            v == self.0,
    {
        self.0
    }
}

/// Local-space axis-aligned box of a prefab volume; each coordinate is the
/// bit pattern of an `f32`.
#[derive(Debug, Clone, Copy, PartialEq, Eq)]
pub struct LocalBounds {
    pub min: [u32; 3],
    pub max: [u32; 3],
}

/// A labelled region of space within a prefab's local coordinate system.
#[derive(Debug, Clone, Copy, PartialEq, Eq)]
pub struct PrefabVolume {
    pub bounds: LocalBounds,
    /// `true`: hollow, may overlap any other volume. `false`: solid, no other
    /// solid volume may intersect it.
    pub hollow: bool,
}

impl PrefabVolume {
    pub fn solid(bounds: LocalBounds) -> (v: Self)
        ensures
            v == (PrefabVolume { bounds, hollow: false }),
    {
        PrefabVolume { bounds, hollow: false }
    }

    pub fn hollow(bounds: LocalBounds) -> (v: Self)
        ensures
            v == (PrefabVolume { bounds, hollow: true }),
    {
        PrefabVolume { bounds, hollow: true }
    }
}

/// A named, reusable entity template. Build one with [`Prefab::builder`].
#[derive(Debug, Clone)]
pub struct Prefab {
    pub id: PrefabId,
    pub name: String,
    /// Entity component sets with local-space transforms.
    pub entities: Vec<Components>,
    /// Spatial volumes describing the occupied space.
    pub volumes: Vec<PrefabVolume>,
}

impl Prefab {
    /// Start building a prefab with the given human-readable name.
    pub fn builder(name: &str) -> (b: PrefabBuilder)
        ensures
            b.spec_name() == name@,
            b.spec_entities() == Seq::<Components>::empty(),
            b.spec_volumes() == Seq::<PrefabVolume>::empty(),
    {
        PrefabBuilder { name: name.to_owned(), entities: Vec::new(), volumes: Vec::new() }
    }
}

/// Accumulates the entities and volumes of a prefab under construction.
pub struct PrefabBuilder {
    name: String,
    entities: Vec<Components>,
    volumes: Vec<PrefabVolume>,
}

impl PrefabBuilder {
    pub closed spec fn spec_name(&self) -> Seq<char> {
        self.name@
    }

    pub closed spec fn spec_entities(&self) -> Seq<Components> {
        self.entities@
    }

    pub closed spec fn spec_volumes(&self) -> Seq<PrefabVolume> {
        self.volumes@
    }

    /// Append an entity template.
    pub fn with_entity(self, c: Components) -> (b: Self)
        ensures
            b.spec_name() == self.spec_name(),
            b.spec_entities() == self.spec_entities().push(c),
            b.spec_volumes() == self.spec_volumes(),
    {
        let mut b = self;
        b.entities.push(c);
        b
    }

    /// Append a volume.
    pub fn with_volume(self, v: PrefabVolume) -> (b: Self)
        ensures
            b.spec_name() == self.spec_name(),
            b.spec_entities() == self.spec_entities(),
            b.spec_volumes() == self.spec_volumes().push(v),
    {
        let mut b = self;
        b.volumes.push(v);
        b
    }

    /// Finalise. The id is `0` until a registry assigns one.
    pub fn build(self) -> (p: Prefab)
        ensures
            p.id == PrefabId(0),
            p.name@ == self.spec_name(),
            p.entities@ == self.spec_entities(),
            p.volumes@ == self.spec_volumes(),
    {
        Prefab { id: PrefabId(0), name: self.name, entities: self.entities, volumes: self.volumes }
    }
}

/// The id that `names` binds to `name`: the last binding of that name.
pub open spec fn name_binding(names: Seq<(Seq<char>, u64)>, name: Seq<char>) -> Option<u64>
    decreases names.len(),
{
    if names.len() == 0 {
        None
    } else if names.last().0 == name {
        Some(names.last().1)
    } else {
        name_binding(names.drop_last(), name)
    }
}

/// The (name, id) pairs of a name table, names as character sequences.
pub open spec fn name_pairs(names: Seq<(String, u64)>) -> Seq<(Seq<char>, u64)> {
    names.map_values(|e: (String, u64)| (e.0@, e.1))
}

/// Stores all known prefabs for a session, by numeric id and by name.
pub struct PrefabRegistry {
    next_id: u64,
    by_id: HashMap<u64, Prefab>,
    /// Each name with the id it was last registered under, in the order the
    /// names were first registered; a name occurs at most once.
    names: Vec<(String, u64)>,
}

impl PrefabRegistry {
    /// Registered prefabs by raw id.
    pub closed spec fn spec_prefabs(&self) -> Map<u64, Prefab> {
        self.by_id@
    }

    /// The raw id that was assigned last (`0` before the first registration).
    pub closed spec fn spec_last_id(&self) -> u64 {
        self.next_id
    }

    /// The id a name resolves to, if it was ever registered.
    pub closed spec fn spec_lookup(&self, name: Seq<char>) -> Option<u64> {
        name_binding(name_pairs(self.names@), name)
    }

    /// Well-formedness: ids run from `1` to the last assigned id, each stored
    /// prefab carries its own id, and every name resolves to a stored prefab
    /// of that name.
    pub closed spec fn wf(&self) -> bool {
        &&& forall|k: u64| #[trigger] self.by_id@.contains_key(k) ==> 1 <= k <= self.next_id
        &&& forall|k: u64| #[trigger] self.by_id@.contains_key(k) ==> self.by_id@[k].id.0 == k
        &&& forall|i: int| 0 <= i < self.names@.len() ==> {
            let e = #[trigger] self.names@[i];
            &&& self.by_id@.contains_key(e.1)
            &&& self.by_id@[e.1].name@ == e.0@
        }
        &&& forall|i: int, j: int|
            0 <= i < j < self.names@.len() ==> #[trigger] self.names@[i].0@ != #[trigger] self.names@[j].0@
    }

    pub fn new() -> (r: Self)
        ensures
            r.wf(),
            r.spec_prefabs() == Map::<u64, Prefab>::empty(),
            r.spec_last_id() == 0,
            forall|n: Seq<char>| r.spec_lookup(n) is None,
    {
        PrefabRegistry { next_id: 0, by_id: HashMap::new(), names: Vec::new() }
    }

    /// Register a prefab under the next id, which is returned; the prefab's
    /// own id is overwritten with it and its name now resolves to it.
    pub fn register(&mut self, prefab: Prefab) -> (id: PrefabId)
        requires
            old(self).wf(),
            old(self).spec_last_id() < u64::MAX,
        ensures
            final(self).wf(),
            id.0 == old(self).spec_last_id() + 1,
            final(self).spec_last_id() == id.0,
            !old(self).spec_prefabs().contains_key(id.0),
            final(self).spec_prefabs() == old(self).spec_prefabs().insert(
                id.0,
                Prefab { id, ..prefab },
            ),
            forall|n: Seq<char>|
                #[trigger] final(self).spec_lookup(n) == (if n == prefab.name@ {
                    Some(id.0)
                } else {
                    old(self).spec_lookup(n)
                }),
    {
        self.next_id = self.next_id + 1;
        let id = PrefabId(self.next_id);
        let mut prefab = prefab;
        prefab.id = id;
        let name = prefab.name.clone();
        self.by_id.insert(id.0, prefab);
        let pos = self.name_position(&name);
        let ghost old_names = self.names@;
        match pos {
            Some(i) => {
                self.names.set(i, (name, id.0));
                proof {
                    self.lemma_rebind(old_names, i as int, id.0);
                }
            },
            None => {
                self.names.push((name, id.0));
                proof {
                    assert(name_pairs(self.names@).drop_last() =~= name_pairs(old_names));
                }
            },
        }
        proof {
            assert forall|k: u64| #[trigger] self.by_id@.contains_key(k) implies self.by_id@[k].id.0 == k by {
                if k != id.0 {
                    assert(old(self).by_id@.contains_key(k));
                }
            }
        }
        id
    }

    /// Index of `name` in the name table, if present.
    fn name_position(&self, name: &String) -> (r: Option<usize>)
        ensures
            match r {
                Some(i) => i < self.names@.len() && self.names@[i as int].0@ == name@,
                None => forall|i: int| 0 <= i < self.names@.len() ==> #[trigger] self.names@[i].0@ != name@,
            },
    {
        let mut i: usize = 0;
        while i < self.names.len()
            invariant
                i <= self.names@.len(),
                forall|j: int| 0 <= j < i ==> #[trigger] self.names@[j].0@ != name@,
            decreases self.names@.len() - i,
        {
            if self.names[i].0 == *name {
                return Some(i);
            }
            i = i + 1;
        }
        None
    }

    /// Rebinding the name at index `i` to `id` changes what that name resolves
    /// to, and nothing else, when names are unique.
    proof fn lemma_rebind(&self, old_names: Seq<(String, u64)>, i: int, id: u64)
        requires
            0 <= i < old_names.len(),
            self.names@ == old_names.update(i, (self.names@[i].0, id)),
            self.names@[i].0@ == old_names[i].0@,
            forall|a: int, b: int|
                0 <= a < b < old_names.len() ==> #[trigger] old_names[a].0@ != #[trigger] old_names[b].0@,
        ensures
            forall|n: Seq<char>|
                #[trigger] name_binding(name_pairs(self.names@), n) == (if n == old_names[i].0@ {
                    Some(id)
                } else {
                    name_binding(name_pairs(old_names), n)
                }),
    {
        assert forall|n: Seq<char>|
            #[trigger] name_binding(name_pairs(self.names@), n) == (if n == old_names[i].0@ {
                Some(id)
            } else {
                name_binding(name_pairs(old_names), n)
            }) by {
            lemma_binding_update(name_pairs(old_names), i, id, n);
            assert(name_pairs(self.names@) =~= name_pairs(old_names).update(i, (old_names[i].0@, id)));
        }
    }

    /// The prefab registered under `id`, if any.
    pub fn get(&self, id: PrefabId) -> (r: Option<&Prefab>)
        ensures
            r == (if self.spec_prefabs().contains_key(id.0) {
                Some(&self.spec_prefabs()[id.0])
            } else {
                None
            }),
    {
        self.by_id.get(&id.0)
    }

    /// The prefab that `name` was last registered as, if any.
    pub fn get_by_name(&self, name: &str) -> (r: Option<&Prefab>)
        requires
            self.wf(),
        ensures
            r == (match self.spec_lookup(name@) {
                Some(k) => Some(&self.spec_prefabs()[k]),
                None => None,
            }),
            r matches Some(p) ==> p.name@ == name@,
    {
        let key = name.to_owned();
        match self.name_position(&key) {
            Some(i) => {
                proof {
                    lemma_binding_unique(name_pairs(self.names@), i as int);
                }
                self.by_id.get(&self.names[i].1)
            },
            None => {
                proof {
                    lemma_binding_absent(name_pairs(self.names@), name@);
                }
                None
            },
        }
    }
}

impl Default for PrefabRegistry {
    fn default() -> (r: Self)
        ensures
            r.wf(),
            r.spec_prefabs() == Map::<u64, Prefab>::empty(),
            r.spec_last_id() == 0,
            forall|n: Seq<char>| r.spec_lookup(n) is None,
    {
        PrefabRegistry::new()
    }
}

/// A name that no entry carries is bound to nothing.
proof fn lemma_binding_absent(names: Seq<(Seq<char>, u64)>, name: Seq<char>)
    requires
        forall|i: int| 0 <= i < names.len() ==> #[trigger] names[i].0 != name,
    ensures
        name_binding(names, name) is None,
    decreases names.len(),
{
    if names.len() > 0 {
        assert(names[names.len() - 1].0 != name);
        lemma_binding_absent(names.drop_last(), name);
    }
}

/// When names are unique, the entry at `i` is the binding of its name.
proof fn lemma_binding_unique(names: Seq<(Seq<char>, u64)>, i: int)
    requires
        0 <= i < names.len(),
        forall|a: int, b: int| 0 <= a < b < names.len() ==> #[trigger] names[a].0 != #[trigger] names[b].0,
    ensures
        name_binding(names, names[i].0) == Some(names[i].1),
    decreases names.len(),
{
    if i < names.len() - 1 {
        assert(names[i].0 != names[names.len() - 1].0);
        lemma_binding_unique(names.drop_last(), i);
    }
}

/// Replacing the id of entry `i` rebinds its name when names are unique.
proof fn lemma_binding_update(names: Seq<(Seq<char>, u64)>, i: int, id: u64, n: Seq<char>)
    requires
        0 <= i < names.len(),
        forall|a: int, b: int| 0 <= a < b < names.len() ==> #[trigger] names[a].0 != #[trigger] names[b].0,
    ensures
        name_binding(names.update(i, (names[i].0, id)), n) == (if n == names[i].0 {
            Some(id)
        } else {
            name_binding(names, n)
        }),
    decreases names.len(),
{
    let upd = names.update(i, (names[i].0, id));
    if i == names.len() - 1 {
        assert(upd.drop_last() =~= names.drop_last());
        if n != names[i].0 {
        }
    } else {
        assert(upd.drop_last() =~= names.drop_last().update(i, (names[i].0, id)));
        assert(names[i].0 != names[names.len() - 1].0);
        lemma_binding_update(names.drop_last(), i, id, n);
    }
}

/// Registering a prefab makes it retrievable under the returned id, with that
/// id set, and under its name.
pub proof fn lemma_register_then_lookup(
    before: PrefabRegistry,
    after: PrefabRegistry,
    prefab: Prefab,
    id: PrefabId,
)
    requires
        after.spec_prefabs() == before.spec_prefabs().insert(id.0, Prefab { id, ..prefab }),
        forall|n: Seq<char>|
            #[trigger] after.spec_lookup(n) == (if n == prefab.name@ {
                Some(id.0)
            } else {
                before.spec_lookup(n)
            }),
    ensures
        after.spec_prefabs().contains_key(id.0),
        after.spec_prefabs()[id.0] == (Prefab { id, ..prefab }),
        after.spec_lookup(prefab.name@) == Some(id.0),
{
    assert(after.spec_lookup(prefab.name@) == Some(id.0));
}

/// Two registrations in a row hand out different ids.
pub proof fn lemma_register_ids_distinct(
    r0: PrefabRegistry,
    r1: PrefabRegistry,
    id1: PrefabId,
    id2: PrefabId,
)
    requires
        id1.0 == r0.spec_last_id() + 1,
        r1.spec_last_id() == id1.0,
        id2.0 == r1.spec_last_id() + 1,
    ensures
        id1 != id2,
{
}

} // verus!
