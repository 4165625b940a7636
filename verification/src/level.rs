//! Level — the fundamental world container.
//!
//! A `Level` owns an `EntityStore` (all entities in this level), a
//! `WorldPartition` (spatial grid and streaming state) and a `StreamingState`
//! (high-level lifecycle of the level itself).
use vstd::prelude::*;
use crate::entity::{Components, EntityId, EntityStore};
use crate::partition::{ChunkCoord, GridChunk, WorldPartition};
use crate::text::{decimal, push_decimal};

verus! {

/// Unique identifier for a `Level` within a `Stratum` instance.
#[derive(Debug, Clone, Copy, PartialEq, Eq, Hash, Structural)]
pub struct LevelId(pub u64);

impl LevelId {
    pub fn new(val: u64) -> (id: Self)
        ensures
            id.0 == val,
    {
        LevelId(val)
    }

    pub fn raw(self) -> (v: u64)
        ensures
            v == self.0,
    {
        self.0
    }

    /// Display form, `Level(n)`.
    pub fn to_string(&self) -> (s: String)
        ensures
            s@ == "Level("@ + decimal(self.0 as nat) + ")"@,
    {
        let mut s = String::from_str("Level(");
        push_decimal(&mut s, self.0);
        s.append(")");
        s
    }
}

/// High-level streaming lifecycle of a `Level`.
#[derive(Debug, Clone, Copy, PartialEq, Eq, Structural)]
pub enum StreamingState {
    /// Not loaded — no entities or partition data in memory.
    Unloaded,
    /// Streaming from storage; partially resident.
    Loading,
    /// Fully resident and active.
    Active,
    /// Eviction in progress; still resident until complete.
    Unloading,
}

/// One world container — a map, zone, or gameplay area.
pub struct Level {
    id: LevelId,
    pub name: String,
    entities: EntityStore,
    partition: WorldPartition,
    streaming_state: StreamingState,
}

impl Level {
    pub closed spec fn spec_id(&self) -> LevelId {
        self.id
    }

    pub closed spec fn spec_name(&self) -> Seq<char> {
        self.name@
    }

    pub closed spec fn spec_store(&self) -> EntityStore {
        self.entities
    }

    pub closed spec fn spec_partition(&self) -> WorldPartition {
        self.partition
    }

    pub closed spec fn spec_streaming_state(&self) -> StreamingState {
        self.streaming_state
    }

    pub open spec fn wf(&self) -> bool {
        self.spec_store().wf() && self.spec_partition().wf()
    }

    /// Create a new empty level with the given spatial partition parameters
    /// (`f32` bits). The level starts in `StreamingState::Active`.
    pub fn new(id: LevelId, name: &str, chunk_size: u32, activation_radius: u32) -> (l: Self)
        ensures
            l.wf(),
            l.spec_id() == id,
            l.spec_name() == name@,
            l.spec_store().spec_entities() == Map::<u64, Components>::empty(),
            l.spec_store().spec_next_id() == 1,
            l.spec_partition().spec_cells() == Seq::<GridChunk>::empty(),
            l.spec_partition().spec_chunk_size() == chunk_size,
            l.spec_partition().spec_activation_radius() == activation_radius,
            l.spec_streaming_state() == StreamingState::Active,
    {
        Level {
            id,
            name: String::from_str(name),
            entities: EntityStore::new(),
            partition: WorldPartition::new(chunk_size, activation_radius),
            streaming_state: StreamingState::Active,
        }
    }

    pub fn id(&self) -> (id: LevelId)
        ensures
            id == self.spec_id(),
    {
        self.id
    }

    pub fn streaming_state(&self) -> (s: StreamingState)
        ensures
            s == self.spec_streaming_state(),
    {
        self.streaming_state
    }

    pub fn entities(&self) -> (s: &EntityStore)
        ensures
            *s == self.spec_store(),
    {
        &self.entities
    }

    /// Mutable access to the entity store; the level stays well-formed as
    /// long as the store does.
    pub fn entities_mut(&mut self) -> (s: &mut EntityStore)
        ensures
            *s == old(self).spec_store(),
            final(self).spec_store() == *final(s),
            final(self).spec_partition() == old(self).spec_partition(),
            final(self).spec_id() == old(self).spec_id(),
            final(self).spec_name() == old(self).spec_name(),
            final(self).spec_streaming_state() == old(self).spec_streaming_state(),
    {
        &mut self.entities
    }

    pub fn partition(&self) -> (p: &WorldPartition)
        ensures
            *p == self.spec_partition(),
    {
        &self.partition
    }

    /// Mutable access to the partition; the level stays well-formed as long
    /// as the partition does.
    pub fn partition_mut(&mut self) -> (p: &mut WorldPartition)
        ensures
            *p == old(self).spec_partition(),
            final(self).spec_partition() == *final(p),
            final(self).spec_store() == old(self).spec_store(),
            final(self).spec_id() == old(self).spec_id(),
            final(self).spec_name() == old(self).spec_name(),
            final(self).spec_streaming_state() == old(self).spec_streaming_state(),
    {
        &mut self.partition
    }

    /// Spawn an entity and register it in the partition cell `cell` — the
    /// cell that contains the entity's position (the origin's cell for an
    /// entity without a transform).
    pub fn spawn_entity(&mut self, components: Components, cell: ChunkCoord) -> (id: EntityId)
        requires
            old(self).wf(),
            old(self).spec_store().spec_next_id() < u64::MAX,
        ensures
            final(self).wf(),
            id.0 == old(self).spec_store().spec_next_id(),
            !old(self).spec_store().spec_entities().contains_key(id.0),
            final(self).spec_store().spec_entities() == old(self).spec_store().spec_entities().insert(id.0, components),
            final(self).spec_store().spec_next_id() == old(self).spec_store().spec_next_id() + 1,
            final(self).spec_partition().spec_cell(cell) matches Some(c) && c.entities@.contains(id),
            final(self).spec_partition().spec_cell(cell) matches Some(c) && c.entities@.to_set() == (match old(self).spec_partition().spec_cell(cell) {
                Some(oc) => oc.entities@.to_set(),
                None => Set::<EntityId>::empty(),
            }).insert(id),
            forall|d: ChunkCoord| d != cell ==> #[trigger] final(self).spec_partition().spec_cell(d) == old(self).spec_partition().spec_cell(d),
            final(self).spec_partition().spec_chunk_size() == old(self).spec_partition().spec_chunk_size(),
            final(self).spec_partition().spec_activation_radius() == old(self).spec_partition().spec_activation_radius(),
            final(self).spec_id() == old(self).spec_id(),
            final(self).spec_name() == old(self).spec_name(),
            final(self).spec_streaming_state() == old(self).spec_streaming_state(),
    {
        let id = self.entities.spawn(components);
        self.partition.place_entity(id, cell);
        proof {
            let c = self.partition.spec_cell(cell)->0;
            assert(c.entities@.to_set().contains(id));
        }
        id
    }

    /// Despawn an entity and remove it from the partition cell `cell` — the
    /// cell that contains the entity's position. Nothing changes when no such
    /// entity exists.
    pub fn despawn_entity(&mut self, id: EntityId, cell: ChunkCoord) -> (r: Option<Components>)
        requires
            old(self).wf(),
        ensures
            final(self).wf(),
            final(self).spec_id() == old(self).spec_id(),
            final(self).spec_name() == old(self).spec_name(),
            final(self).spec_streaming_state() == old(self).spec_streaming_state(),
            final(self).spec_store().spec_next_id() == old(self).spec_store().spec_next_id(),
            final(self).spec_partition().spec_chunk_size() == old(self).spec_partition().spec_chunk_size(),
            final(self).spec_partition().spec_activation_radius() == old(self).spec_partition().spec_activation_radius(),
            !old(self).spec_store().spec_entities().contains_key(id.0) ==> r is None && final(self).spec_store().spec_entities()
                == old(self).spec_store().spec_entities() && final(self).spec_partition() == old(self).spec_partition(),
            old(self).spec_store().spec_entities().contains_key(id.0) ==> {
                &&& r == Some(old(self).spec_store().spec_entities()[id.0])
                &&& final(self).spec_store().spec_entities() == old(self).spec_store().spec_entities().remove(id.0)
                &&& match old(self).spec_partition().spec_cell(cell) {
                    Some(oc) => final(self).spec_partition().spec_cell(cell) matches Some(c) && c.state
                        == oc.state && c.entities@.to_set() == oc.entities@.to_set().remove(id),
                    None => final(self).spec_partition().spec_cell(cell) is None,
                }
                &&& forall|d: ChunkCoord| d != cell ==> #[trigger] final(self).spec_partition().spec_cell(d)
                    == old(self).spec_partition().spec_cell(d)
            },
    {
        let components = self.entities.despawn(id);
        match components {
            Some(c) => {
                self.partition.remove_entity(id, cell);
                Some(c)
            },
            None => None,
        }
    }

    /// Recompute cell activation from the cells the cameras want resident.
    pub fn activate_partition_around(&mut self, wanted: &Vec<ChunkCoord>)
        requires
            old(self).wf(),
        ensures
            final(self).wf(),
            final(self).spec_store() == old(self).spec_store(),
            final(self).spec_id() == old(self).spec_id(),
            final(self).spec_name() == old(self).spec_name(),
            final(self).spec_streaming_state() == old(self).spec_streaming_state(),
            final(self).spec_partition().spec_chunk_size() == old(self).spec_partition().spec_chunk_size(),
            final(self).spec_partition().spec_activation_radius() == old(self).spec_partition().spec_activation_radius(),
            forall|d: ChunkCoord| (#[trigger] final(self).spec_partition().spec_cell(d) is Some) == (old(self).spec_partition().spec_cell(d) is Some
                || wanted@.contains(d)),
            forall|d: ChunkCoord| #[trigger] final(self).spec_partition().spec_cell(d) matches Some(c) ==> {
                &&& Some(c.state) == crate::partition::activated_state(
                    match old(self).spec_partition().spec_cell(d) {
                        Some(oc) => Some(oc.state),
                        None => None,
                    },
                    wanted@.contains(d),
                )
                &&& c.entities@ == (match old(self).spec_partition().spec_cell(d) {
                    Some(oc) => oc.entities@,
                    None => Seq::<EntityId>::empty(),
                })
            },
    {
        self.partition.update_activation(wanted);
    }

    /// Force-activate every existing cell — useful for small / demo levels
    /// that don't need streaming.
    pub fn activate_all_chunks(&mut self)
        requires
            old(self).wf(),
        ensures
            final(self).wf(),
            final(self).spec_store() == old(self).spec_store(),
            final(self).spec_id() == old(self).spec_id(),
            final(self).spec_name() == old(self).spec_name(),
            final(self).spec_streaming_state() == old(self).spec_streaming_state(),
            final(self).spec_partition().spec_cells().len() == old(self).spec_partition().spec_cells().len(),
            forall|m: int| 0 <= m < old(self).spec_partition().spec_cells().len() ==> {
                &&& (#[trigger] final(self).spec_partition().spec_cells()[m]).state == crate::partition::GridChunkState::Active
                &&& final(self).spec_partition().spec_cells()[m].coord == old(self).spec_partition().spec_cells()[m].coord
                &&& final(self).spec_partition().spec_cells()[m].entities@ == old(self).spec_partition().spec_cells()[m].entities@
            },
    {
        self.partition.activate_all();
    }

    pub fn set_streaming_state(&mut self, state: StreamingState)
        ensures
            final(self).spec_streaming_state() == state,
            final(self).spec_store() == old(self).spec_store(),
            final(self).spec_partition() == old(self).spec_partition(),
            final(self).spec_id() == old(self).spec_id(),
            final(self).spec_name() == old(self).spec_name(),
    {
        self.streaming_state = state;
    }
}

/// Spawning an entity into a cell and then despawning it from the same cell
/// leaves the store's contents as they were and the cell's entity set as it
/// was, provided the cell did not list the fresh id already.
pub proof fn lemma_spawn_despawn_roundtrip(
    store_before: Map<u64, Components>,
    cell_before: Set<EntityId>,
    id: EntityId,
    c: Components,
)
    requires
        !store_before.contains_key(id.0),
        !cell_before.contains(id),
    ensures
        store_before.insert(id.0, c).remove(id.0) == store_before,
        cell_before.insert(id).remove(id) == cell_before,
{
    assert(store_before.insert(id.0, c).remove(id.0) =~= store_before);
    assert(cell_before.insert(id).remove(id) =~= cell_before);
}

} // verus!
