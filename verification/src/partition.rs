//! World partition system — grid-based spatial chunk management.
//!
//! `WorldPartition` is the streaming backbone of a `Level`. It maintains a
//! lazy set of grid cells (chunks) and activates/deactivates them from the set
//! of cells that the cameras want resident each frame.
//!
//! Which cells are wanted is a matter of real-valued distances, decided by the
//! caller; this module keeps the cells, their entities and their states.
use vstd::prelude::*;
use crate::entity::EntityId;

verus! {

/// Integer grid coordinate of one partition cell.
#[derive(Debug, Clone, Copy, PartialEq, Eq, Hash, Structural)]
pub struct ChunkCoord {
    pub x: i32,
    pub y: i32,
    pub z: i32,
}

impl ChunkCoord {
    pub fn new(x: i32, y: i32, z: i32) -> (c: Self)
        ensures
            c == (ChunkCoord { x, y, z }),
    {
        ChunkCoord { x, y, z }
    }
}

/// Streaming lifecycle of one partition cell.
#[derive(Debug, Clone, Copy, PartialEq, Eq, Structural)]
pub enum GridChunkState {
    /// Not resident.
    Unloaded,
    /// Being brought in.
    Loading,
    /// Resident and active.
    Active,
    /// Being evicted.
    Unloading,
}

/// One cell of the partition grid and the entities placed in it.
#[derive(Debug, Clone)]
pub struct GridChunk {
    pub coord: ChunkCoord,
    pub state: GridChunkState,
    /// Entities placed in this cell, each once.
    pub entities: Vec<EntityId>,
}

impl GridChunk {
    /// A fresh, unloaded, empty cell.
    pub fn new(coord: ChunkCoord) -> (c: Self)
        ensures
            c.coord == coord,
            c.state == GridChunkState::Unloaded,
            c.entities@ == Seq::<EntityId>::empty(),
    {
        GridChunk { coord, state: GridChunkState::Unloaded, entities: Vec::new() }
    }

    pub fn is_active(&self) -> (b: bool)
        ensures
            b == (self.state == GridChunkState::Active),
    {
        self.state == GridChunkState::Active
    }

    /// Mark the cell active.
    pub fn activate(&mut self)
        ensures
            final(self).state == GridChunkState::Active,
            final(self).coord == old(self).coord,
            final(self).entities@ == old(self).entities@,
    {
        self.state = GridChunkState::Active;
    }

    /// Whether `id` is placed in this cell.
    pub fn contains(&self, id: EntityId) -> (b: bool)
        ensures
            b == self.entities@.contains(id),
    {
        let mut i: usize = 0;
        while i < self.entities.len()
            invariant
                i <= self.entities@.len(),
                forall|j: int| 0 <= j < i ==> self.entities@[j] != id,
            decreases self.entities@.len() - i,
        {
            if self.entities[i] == id {
                return true;
            }
            i = i + 1;
        }
        false
    }

    /// Place `id` in this cell (no effect if it is already there).
    pub fn add_entity(&mut self, id: EntityId)
        requires
            old(self).entities@.no_duplicates(),
        ensures
            final(self).entities@.no_duplicates(),
            final(self).entities@.to_set() == old(self).entities@.to_set().insert(id),
            final(self).coord == old(self).coord,
            final(self).state == old(self).state,
    {
        if !self.contains(id) {
            self.entities.push(id);
            proof {
                assert(final(self).entities@.to_set() =~= old(self).entities@.to_set().insert(id)) by {
                    assert(final(self).entities@ == old(self).entities@.push(id));
                    old(self).entities@.lemma_push_to_set_commute(id);
                }
            }
        } else {
            proof {
                assert(old(self).entities@.to_set().contains(id));
                assert(final(self).entities@.to_set() =~= old(self).entities@.to_set().insert(id));
            }
        }
    }

    /// Take `id` out of this cell (no effect if it is not there).
    pub fn remove_entity(&mut self, id: EntityId)
        requires
            old(self).entities@.no_duplicates(),
        ensures
            final(self).entities@.no_duplicates(),
            final(self).entities@.to_set() == old(self).entities@.to_set().remove(id),
            final(self).coord == old(self).coord,
            final(self).state == old(self).state,
    {
        let ghost old_entities = self.entities@;
        let mut kept: Vec<EntityId> = Vec::new();
        let mut i: usize = 0;
        while i < self.entities.len()
            invariant
                self.entities@ == old_entities,
                old_entities.no_duplicates(),
                i <= old_entities.len(),
                kept@.no_duplicates(),
                kept@.to_set() == old_entities.take(i as int).to_set().remove(id),
                forall|x: EntityId| kept@.contains(x) ==> old_entities.take(i as int).contains(x),
            decreases old_entities.len() - i,
        {
            let e = self.entities[i];
            proof {
                assert(old_entities.take(i + 1) == old_entities.take(i as int).push(e));
                old_entities.take(i as int).lemma_push_to_set_commute(e);
                assert(!old_entities.take(i as int).contains(e)) by {
                    if old_entities.take(i as int).contains(e) {
                        let j = choose|j: int| 0 <= j < i && old_entities.take(i as int)[j] == e;
                        assert(old_entities[j] == old_entities[i as int]);
                    }
                }
            }
            if e != id {
                proof {
                    kept@.lemma_push_to_set_commute(e);
                    assert(!kept@.contains(e));
                }
                let ghost kept_before = kept@;
                kept.push(e);
                proof {
                    assert(kept@ == kept_before.push(e));
                    assert forall|x: EntityId| kept@.contains(x) implies old_entities.take(i + 1).contains(x) by {
                        if x != e {
                            assert(kept_before.contains(x));
                            assert(old_entities.take(i as int).contains(x));
                            let j = choose|j: int| 0 <= j < i && old_entities.take(i as int)[j] == x;
                            assert(old_entities.take(i + 1)[j] == x);
                        } else {
                            assert(old_entities.take(i + 1)[i as int] == e);
                        }
                    }
                    assert forall|a: int, b: int| 0 <= a < b < kept@.len() implies kept@[a] != kept@[b] by {
                        if b == kept@.len() - 1 {
                            assert(kept_before.contains(kept@[a]));
                        }
                    }
                    assert(kept@.to_set() =~= old_entities.take(i + 1).to_set().remove(id));
                }
            } else {
                proof {
                    assert(kept@.to_set() =~= old_entities.take(i + 1).to_set().remove(id));
                    assert forall|x: EntityId| kept@.contains(x) implies old_entities.take(i + 1).contains(x) by {
                        let j = choose|j: int| 0 <= j < i && old_entities.take(i as int)[j] == x;
                        assert(old_entities.take(i + 1)[j] == x);
                    }
                }
            }
            i = i + 1;
        }
        proof {
            assert(old_entities.take(old_entities.len() as int) == old_entities);
        }
        self.entities = kept;
    }
}

/// The cell at `c` in a sequence of cells, if any (the first one, should
/// there be several).
pub open spec fn cell_at(cells: Seq<GridChunk>, c: ChunkCoord) -> Option<GridChunk> {
    if exists|i: int| 0 <= i < cells.len() && cells[i].coord == c {
        Some(cells[choose|i: int| 0 <= i < cells.len() && cells[i].coord == c])
    } else {
        None
    }
}

/// No two cells share a coordinate and no cell lists an entity twice.
pub open spec fn cells_wf(cells: Seq<GridChunk>) -> bool {
    &&& forall|i: int, j: int|
        0 <= i < j < cells.len() ==> (#[trigger] cells[i]).coord != (#[trigger] cells[j]).coord
    &&& forall|i: int| 0 <= i < cells.len() ==> (#[trigger] cells[i]).entities@.no_duplicates()
}

/// With distinct coordinates, the cell at a position's coordinate is that cell.
pub proof fn lemma_cell_at_index(cells: Seq<GridChunk>, i: int)
    requires
        cells_wf(cells),
        0 <= i < cells.len(),
    ensures
        cell_at(cells, cells[i].coord) == Some(cells[i]),
{
    let c = cells[i].coord;
    let k = choose|k: int| 0 <= k < cells.len() && cells[k].coord == c;
    if k != i {
        if k < i {
            assert(cells[k].coord != cells[i].coord);
        } else {
            assert(cells[i].coord != cells[k].coord);
        }
    }
}

/// The state a cell ends in after an activation pass: a wanted cell becomes
/// active if it was unloaded (a missing wanted cell is created active); an
/// active cell that is no longer wanted becomes unloaded; every other state
/// stays.
pub open spec fn activated_state(before: Option<GridChunkState>, wanted: bool) -> Option<
    GridChunkState,
> {
    match before {
        None => if wanted {
            Some(GridChunkState::Active)
        } else {
            None
        },
        Some(s) => if wanted && s == GridChunkState::Unloaded {
            Some(GridChunkState::Active)
        } else if !wanted && s == GridChunkState::Active {
            Some(GridChunkState::Unloaded)
        } else {
            Some(s)
        },
    }
}

/// Entities of the given cells, cell after cell; only of active cells when
/// `only_active`.
pub open spec fn entities_of(cells: Seq<GridChunk>, only_active: bool) -> Seq<EntityId>
    decreases cells.len(),
{
    if cells.len() == 0 {
        Seq::empty()
    } else {
        let last = cells.last();
        let rest = entities_of(cells.drop_last(), only_active);
        if !only_active || last.state == GridChunkState::Active {
            rest + last.entities@
        } else {
            rest
        }
    }
}

/// What an activation pass does to one cell: a wanted cell that was
/// missing, unloaded or already active ends active; a cell that is not
/// wanted never ends active, and is not created; an existing cell is never
/// dropped; loading and unloading cells keep their state.
pub proof fn lemma_activation_rules(before: Option<GridChunkState>, wanted: bool)
    ensures
        wanted && (before is None || before == Some(GridChunkState::Unloaded) || before == Some(
            GridChunkState::Active,
        )) ==> activated_state(before, wanted) == Some(GridChunkState::Active),
        !wanted ==> activated_state(before, wanted) != Some(GridChunkState::Active),
        !wanted && before is None ==> activated_state(before, wanted) is None,
        !wanted && before == Some(GridChunkState::Active) ==> activated_state(before, wanted) == Some(
            GridChunkState::Unloaded,
        ),
        before is Some ==> activated_state(before, wanted) is Some,
        before == Some(GridChunkState::Loading) ==> activated_state(before, wanted) == before,
        before == Some(GridChunkState::Unloading) ==> activated_state(before, wanted) == before,
{
}

/// An entity is listed by `entities_of` exactly when some cell (an active
/// one, when `only_active`) lists it.
pub proof fn lemma_entities_of_members(cells: Seq<GridChunk>, only_active: bool, id: EntityId)
    ensures
        entities_of(cells, only_active).contains(id) <==> exists|i: int|
            0 <= i < cells.len() && (!only_active || cells[i].state == GridChunkState::Active)
                && (#[trigger] cells[i]).entities@.contains(id),
    decreases cells.len(),
{
    if cells.len() > 0 {
        let rest = cells.drop_last();
        let last = cells.last();
        lemma_entities_of_members(rest, only_active, id);
        let r = entities_of(rest, only_active);
        if !only_active || last.state == GridChunkState::Active {
            lemma_concat_contains(r, last.entities@, id);
        }
        if exists|i: int|
            0 <= i < cells.len() && (!only_active || cells[i].state == GridChunkState::Active)
                && (#[trigger] cells[i]).entities@.contains(id) {
            let i = choose|i: int|
                0 <= i < cells.len() && (!only_active || cells[i].state == GridChunkState::Active)
                    && (#[trigger] cells[i]).entities@.contains(id);
            if i < cells.len() - 1 {
                assert(rest[i] == cells[i]);
            }
        }
        if exists|i: int|
            0 <= i < rest.len() && (!only_active || rest[i].state == GridChunkState::Active)
                && (#[trigger] rest[i]).entities@.contains(id) {
            let i = choose|i: int|
                0 <= i < rest.len() && (!only_active || rest[i].state == GridChunkState::Active)
                    && (#[trigger] rest[i]).entities@.contains(id);
            assert(cells[i] == rest[i]);
        }
    }
}

/// Membership in a concatenation.
pub proof fn lemma_concat_contains<A>(a: Seq<A>, b: Seq<A>, x: A)
    ensures
        (a + b).contains(x) <==> (a.contains(x) || b.contains(x)),
{
    if a.contains(x) {
        let i = choose|i: int| 0 <= i < a.len() && a[i] == x;
        assert((a + b)[i] == x);
    }
    if b.contains(x) {
        let i = choose|i: int| 0 <= i < b.len() && b[i] == x;
        assert((a + b)[a.len() + i] == x);
    }
    if (a + b).contains(x) {
        let i = choose|i: int| 0 <= i < (a + b).len() && (a + b)[i] == x;
        if i < a.len() {
            assert(a[i] == x);
        } else {
            assert(b[i - a.len()] == x);
        }
    }
}

/// Manages the grid of spatial cells for one `Level`.
pub struct WorldPartition {
    /// Side length of each cubic cell in world units (`f32` bits).
    pub chunk_size: u32,
    /// Distance (from a camera to a cell centre) within which a cell is
    /// active (`f32` bits).
    pub activation_radius: u32,
    chunks: Vec<GridChunk>,
}

impl WorldPartition {
    /// The cells, in creation order.
    pub closed spec fn spec_cells(&self) -> Seq<GridChunk> {
        self.chunks@
    }

    /// Cell side length (`f32` bits).
    pub closed spec fn spec_chunk_size(&self) -> u32 {
        self.chunk_size
    }

    /// Activation radius (`f32` bits).
    pub closed spec fn spec_activation_radius(&self) -> u32 {
        self.activation_radius
    }

    pub open spec fn wf(&self) -> bool {
        cells_wf(self.spec_cells())
    }

    /// The cell at `c`, if one exists.
    pub open spec fn spec_cell(&self, c: ChunkCoord) -> Option<GridChunk> {
        cell_at(self.spec_cells(), c)
    }

    pub fn new(chunk_size: u32, activation_radius: u32) -> (p: Self)
        ensures
            p.wf(),
            p.spec_chunk_size() == chunk_size,
            p.spec_activation_radius() == activation_radius,
            p.spec_cells() == Seq::<GridChunk>::empty(),
    {
        WorldPartition { chunk_size, activation_radius, chunks: Vec::new() }
    }

    fn index_of(&self, coord: ChunkCoord) -> (r: Option<usize>)
        requires
            self.wf(),
        ensures
            match r {
                Some(i) => i < self.spec_cells().len() && self.spec_cells()[i as int].coord == coord,
                None => self.spec_cell(coord) is None,
            },
    {
        let mut i: usize = 0;
        while i < self.chunks.len()
            invariant
                i <= self.chunks@.len(),
                forall|j: int| 0 <= j < i ==> self.chunks@[j].coord != coord,
            decreases self.chunks@.len() - i,
        {
            if self.chunks[i].coord == coord {
                return Some(i);
            }
            i = i + 1;
        }
        None
    }

    /// Index of the cell at `coord`, creating an unloaded empty one if absent.
    fn index_or_create(&mut self, coord: ChunkCoord) -> (i: usize)
        requires
            old(self).wf(),
        ensures
            final(self).wf(),
            i < final(self).spec_cells().len(),
            final(self).spec_cells()[i as int].coord == coord,
            final(self).spec_chunk_size() == old(self).spec_chunk_size(),
            final(self).spec_activation_radius() == old(self).spec_activation_radius(),
            old(self).spec_cell(coord) is Some ==> final(self).spec_cells() == old(self).spec_cells(),
            old(self).spec_cell(coord) is None ==> final(self).spec_cells() == old(self).spec_cells().push(
                GridChunk { coord, state: GridChunkState::Unloaded, entities: final(self).spec_cells().last().entities },
            ) && final(self).spec_cells().last().entities@ == Seq::<EntityId>::empty(),
    {
        match self.index_of(coord) {
            Some(i) => {
                proof {
                    lemma_cell_at_index(self.chunks@, i as int);
                }
                i
            },
            None => {
                let c = GridChunk::new(coord);
                self.chunks.push(c);
                proof {
                    let cells = self.chunks@;
                    assert forall|a: int, b: int| 0 <= a < b < cells.len() implies (#[trigger] cells[a]).coord
                        != (#[trigger] cells[b]).coord by {
                        if b == cells.len() - 1 {
                            assert(old(self).chunks@[a] == cells[a]);
                            if cells[a].coord == coord {
                                assert(exists|k: int| 0 <= k < old(self).chunks@.len() && old(self).chunks@[k].coord == coord);
                            }
                        }
                    }
                }
                self.chunks.len() - 1
            },
        }
    }

    /// Return the cell at `coord`, inserting a fresh unloaded cell if absent.
    ///
    /// The returned reference is the cell's slot: whatever it ends holding is
    /// what the partition holds there afterwards. The partition stays
    /// well-formed as long as the cell keeps its coordinate and lists no
    /// entity twice.
    pub fn get_or_create(&mut self, coord: ChunkCoord) -> (c: &mut GridChunk)
        requires
            old(self).wf(),
        ensures
            c.coord == coord,
            final(self).spec_chunk_size() == old(self).spec_chunk_size(),
            final(self).spec_activation_radius() == old(self).spec_activation_radius(),
            old(self).spec_cell(coord) matches Some(oc) ==> {
                let i = slot_of(old(self).spec_cells(), coord);
                &&& *c == oc
                &&& final(self).spec_cells() == old(self).spec_cells().update(i, *final(c))
            },
            old(self).spec_cell(coord) is None ==> {
                &&& c.state == GridChunkState::Unloaded
                &&& c.entities@ == Seq::<EntityId>::empty()
                &&& final(self).spec_cells().len() == old(self).spec_cells().len() + 1
                &&& final(self).spec_cells().drop_last() == old(self).spec_cells()
                &&& final(self).spec_cells().last() == *final(c)
            },
            final(c).coord == coord && final(c).entities@.no_duplicates() ==> final(self).wf(),
    {
        let ghost before = self.chunks@;
        let i = self.index_or_create(coord);
        proof {
            lemma_cell_at_index(self.chunks@, i as int);
            if old(self).spec_cell(coord) is Some {
                assert(self.chunks@ == before);
                lemma_slot_of(before, i as int);
            }
        }
        let ghost mid = self.chunks@;
        let r = &mut self.chunks[i];
        r
    }
}


impl WorldPartition {
    /// Place `id` in the cell at `coord`, creating the cell if needed.
    pub fn place_entity(&mut self, id: EntityId, coord: ChunkCoord)
        requires
            old(self).wf(),
        ensures
            final(self).wf(),
            final(self).spec_chunk_size() == old(self).spec_chunk_size(),
            final(self).spec_activation_radius() == old(self).spec_activation_radius(),
            final(self).spec_cell(coord) matches Some(c) && c.entities@.to_set() == (match old(self).spec_cell(coord) {
                Some(oc) => oc.entities@.to_set(),
                None => Set::<EntityId>::empty(),
            }).insert(id) && c.state == (match old(self).spec_cell(coord) {
                Some(oc) => oc.state,
                None => GridChunkState::Unloaded,
            }),
            forall|d: ChunkCoord| d != coord ==> #[trigger] final(self).spec_cell(d) == old(self).spec_cell(d),
    {
        let ghost before = self.chunks@;
        let i = self.index_or_create(coord);
        let ghost mid = self.chunks@;
        proof {
            lemma_cell_at_index(mid, i as int);
            if old(self).spec_cell(coord) is None {
                lemma_cell_at_push(before, mid.last());
            } else {
                assert(mid == before);
            }
            assert(mid[i as int].entities@.no_duplicates());
        }
        self.chunks[i].add_entity(id);
        proof {
            lemma_cell_at_update(mid, i as int, self.chunks@[i as int]);
            assert(self.chunks@ == mid.update(i as int, self.chunks@[i as int]));
        }
    }

    /// Take `id` out of the cell at `coord`, if that cell exists.
    pub fn remove_entity(&mut self, id: EntityId, coord: ChunkCoord)
        requires
            old(self).wf(),
        ensures
            final(self).wf(),
            final(self).spec_chunk_size() == old(self).spec_chunk_size(),
            final(self).spec_activation_radius() == old(self).spec_activation_radius(),
            match old(self).spec_cell(coord) {
                Some(oc) => final(self).spec_cell(coord) matches Some(c) && c.state == oc.state
                    && c.entities@.to_set() == oc.entities@.to_set().remove(id),
                None => final(self).spec_cell(coord) is None,
            },
            forall|d: ChunkCoord| d != coord ==> #[trigger] final(self).spec_cell(d) == old(self).spec_cell(d),
    {
        match self.index_of(coord) {
            Some(i) => {
                let ghost mid = self.chunks@;
                proof {
                    lemma_cell_at_index(mid, i as int);
                }
                self.chunks[i].remove_entity(id);
                proof {
                    lemma_cell_at_update(mid, i as int, self.chunks@[i as int]);
                    assert(self.chunks@ == mid.update(i as int, self.chunks@[i as int]));
                }
            },
            None => {},
        }
    }

    /// Recompute the active set from the cells the cameras want resident.
    ///
    /// Wanted cells that are unloaded (or missing, which creates them) become
    /// `Active`; active cells that are no longer wanted become `Unloaded`;
    /// every other cell keeps its state. No cell loses or gains entities.
    pub fn update_activation(&mut self, wanted: &Vec<ChunkCoord>)
        requires
            old(self).wf(),
        ensures
            final(self).wf(),
            final(self).spec_chunk_size() == old(self).spec_chunk_size(),
            final(self).spec_activation_radius() == old(self).spec_activation_radius(),
            forall|d: ChunkCoord| (#[trigger] final(self).spec_cell(d) is Some) == (old(self).spec_cell(d) is Some
                || wanted@.contains(d)),
            forall|d: ChunkCoord| #[trigger] final(self).spec_cell(d) matches Some(c) ==> {
                &&& Some(c.state) == activated_state(
                    match old(self).spec_cell(d) {
                        Some(oc) => Some(oc.state),
                        None => None,
                    },
                    wanted@.contains(d),
                )
                &&& c.entities@ == (match old(self).spec_cell(d) {
                    Some(oc) => oc.entities@,
                    None => Seq::<EntityId>::empty(),
                })
            },
            forall|d: ChunkCoord| wanted@.contains(d) && (match old(self).spec_cell(d) {
                Some(oc) => oc.state == GridChunkState::Unloaded || oc.state == GridChunkState::Active,
                None => true,
            }) ==> (#[trigger] final(self).spec_cell(d) matches Some(c) && c.state == GridChunkState::Active),
            forall|d: ChunkCoord| !wanted@.contains(d) ==> match #[trigger] final(self).spec_cell(d) {
                Some(c) => c.state != GridChunkState::Active,
                None => true,
            },
    {
        let ghost before = self.chunks@;
        // 1. Activate newly in-range cells.
        let mut k: usize = 0;
        while k < wanted.len()
            invariant
                self.wf(),
                k <= wanted@.len(),
                self.spec_chunk_size() == old(self).spec_chunk_size(),
                self.spec_activation_radius() == old(self).spec_activation_radius(),
                forall|d: ChunkCoord| (#[trigger] cell_at(self.chunks@, d) is Some) == (cell_at(before, d) is Some
                    || wanted@.take(k as int).contains(d)),
                forall|d: ChunkCoord| #[trigger] cell_at(self.chunks@, d) matches Some(c) ==> {
                    &&& Some(c.state) == (if wanted@.take(k as int).contains(d) {
                        activated_state(
                            match cell_at(before, d) {
                                Some(oc) => Some(oc.state),
                                None => None,
                            },
                            true,
                        )
                    } else {
                        match cell_at(before, d) {
                            Some(oc) => Some(oc.state),
                            None => None,
                        }
                    })
                    &&& c.entities@ == (match cell_at(before, d) {
                        Some(oc) => oc.entities@,
                        None => Seq::<EntityId>::empty(),
                    })
                },
            decreases wanted@.len() - k,
        {
            let coord = wanted[k];
            let ghost pre = self.chunks@;
            proof {
                assert(wanted@.take(k + 1) == wanted@.take(k as int).push(coord));
            }
            let i = self.index_or_create(coord);
            let ghost mid = self.chunks@;
            proof {
                lemma_cell_at_index(mid, i as int);
                if cell_at(pre, coord) is None {
                    lemma_cell_at_push(pre, mid.last());
                } else {
                    assert(mid == pre);
                }
            }
            if self.chunks[i].state == GridChunkState::Unloaded {
                self.chunks[i].state = GridChunkState::Active;
                proof {
                    lemma_cell_at_update(mid, i as int, self.chunks@[i as int]);
                    assert(self.chunks@ == mid.update(i as int, self.chunks@[i as int]));
                }
            }
            proof {
                let cur = self.chunks@;
                lemma_cell_at_index(cur, i as int);
                assert forall|d: ChunkCoord| d != coord implies #[trigger] cell_at(cur, d) == cell_at(pre, d) by {
                    assert(cell_at(mid, d) == cell_at(pre, d));
                }
                assert forall|d: ChunkCoord| wanted@.take(k + 1).contains(d) == (wanted@.take(k as int).contains(d) || d == coord) by {
                    if wanted@.take(k as int).contains(d) {
                        let t = choose|t: int| 0 <= t < k && wanted@.take(k as int)[t] == d;
                        assert(wanted@.take(k + 1)[t] == d);
                    }
                    if d == coord {
                        assert(wanted@.take(k + 1)[k as int] == d);
                    }
                }
                let b = match cell_at(before, coord) {
                    Some(oc) => Some(oc.state),
                    None => None,
                };
                assert(Some(cur[i as int].state) == activated_state(b, true)) by {
                    if cell_at(pre, coord) is Some {
                        assert(pre == mid);
                        lemma_cell_at_index(pre, i as int);
                    }
                }
                assert(cur[i as int].entities@ == (match cell_at(before, coord) {
                    Some(oc) => oc.entities@,
                    None => Seq::<EntityId>::empty(),
                })) by {
                    if cell_at(pre, coord) is Some {
                        assert(pre == mid);
                        lemma_cell_at_index(pre, i as int);
                    }
                }
            }
            k = k + 1;
        }
        proof {
            assert(wanted@.take(wanted@.len() as int) == wanted@);
        }
        // 2. Deactivate out-of-range cells.
        let ghost mid = self.chunks@;
        let mut j: usize = 0;
        while j < self.chunks.len()
            invariant
                self.wf(),
                j <= self.chunks@.len(),
                self.chunks@.len() == mid.len(),
                cells_wf(mid),
                self.spec_chunk_size() == old(self).spec_chunk_size(),
                self.spec_activation_radius() == old(self).spec_activation_radius(),
                forall|m: int| 0 <= m < mid.len() ==> (#[trigger] self.chunks@[m]).coord == mid[m].coord
                    && self.chunks@[m].entities@ == mid[m].entities@,
                forall|m: int| 0 <= m < j ==> (#[trigger] self.chunks@[m]).state == (if mid[m].state
                    == GridChunkState::Active && !wanted@.contains(mid[m].coord) {
                    GridChunkState::Unloaded
                } else {
                    mid[m].state
                }),
                forall|m: int| j <= m < mid.len() ==> (#[trigger] self.chunks@[m]).state == mid[m].state,
            decreases mid.len() - j,
        {
            let c = self.chunks[j].coord;
            if self.chunks[j].state == GridChunkState::Active && !coords_contain(wanted, c) {
                self.chunks[j].state = GridChunkState::Unloaded;
            }
            j = j + 1;
        }
        proof {
            let cells = self.chunks@;
            assert forall|d: ChunkCoord| (#[trigger] cell_at(cells, d) is Some) == (cell_at(mid, d) is Some) by {
                if cell_at(mid, d) is Some {
                    let i = slot_of(mid, d);
                    assert(cells[i].coord == d);
                }
                if cell_at(cells, d) is Some {
                    let i = slot_of(cells, d);
                    assert(mid[i].coord == d);
                }
            }
            assert forall|d: ChunkCoord| #[trigger] cell_at(cells, d) is Some implies cell_at(mid, d) is Some && ({
                let c = cell_at(cells, d)->0;
                let mc = cell_at(mid, d)->0;
                &&& c.coord == mc.coord
                &&& c.entities@ == mc.entities@
                &&& c.state == (if mc.state == GridChunkState::Active && !wanted@.contains(d) {
                    GridChunkState::Unloaded
                } else {
                    mc.state
                })
            }) by {
                let i = slot_of(cells, d);
                lemma_slot_of(cells, i);
                lemma_slot_of(mid, i);
                lemma_cell_at_index(cells, i);
                lemma_cell_at_index(mid, i);
            }
            assert forall|d: ChunkCoord| (#[trigger] self.spec_cell(d) is Some) == (old(self).spec_cell(d) is Some
                || wanted@.contains(d)) by {
                assert(cell_at(cells, d) is Some == cell_at(mid, d) is Some);
            }
            assert forall|d: ChunkCoord| #[trigger] self.spec_cell(d) is Some implies {
                let c = self.spec_cell(d)->0;
                &&& Some(c.state) == activated_state(
                    match old(self).spec_cell(d) {
                        Some(oc) => Some(oc.state),
                        None => None,
                    },
                    wanted@.contains(d),
                )
                &&& c.entities@ == (match old(self).spec_cell(d) {
                    Some(oc) => oc.entities@,
                    None => Seq::<EntityId>::empty(),
                })
            } by {
                assert(cell_at(mid, d) is Some);
            }
            assert forall|d: ChunkCoord| wanted@.contains(d) && (match old(self).spec_cell(d) {
                Some(oc) => oc.state == GridChunkState::Unloaded || oc.state == GridChunkState::Active,
                None => true,
            }) implies (#[trigger] self.spec_cell(d) matches Some(c) && c.state == GridChunkState::Active) by {
                lemma_activation_rules(
                    match old(self).spec_cell(d) {
                        Some(oc) => Some(oc.state),
                        None => None,
                    },
                    true,
                );
            }
            assert forall|d: ChunkCoord| !wanted@.contains(d) implies match #[trigger] self.spec_cell(d) {
                Some(c) => c.state != GridChunkState::Active,
                None => true,
            } by {
                lemma_activation_rules(
                    match old(self).spec_cell(d) {
                        Some(oc) => Some(oc.state),
                        None => None,
                    },
                    false,
                );
            }
        }
    }

    /// Force-activate all existing cells.
    pub fn activate_all(&mut self)
        requires
            old(self).wf(),
        ensures
            final(self).wf(),
            final(self).spec_chunk_size() == old(self).spec_chunk_size(),
            final(self).spec_activation_radius() == old(self).spec_activation_radius(),
            final(self).spec_cells().len() == old(self).spec_cells().len(),
            forall|m: int| 0 <= m < old(self).spec_cells().len() ==> {
                &&& (#[trigger] final(self).spec_cells()[m]).state == GridChunkState::Active
                &&& final(self).spec_cells()[m].coord == old(self).spec_cells()[m].coord
                &&& final(self).spec_cells()[m].entities@ == old(self).spec_cells()[m].entities@
            },
    {
        let mut j: usize = 0;
        while j < self.chunks.len()
            invariant
                j <= self.chunks@.len(),
                self.chunks@.len() == old(self).chunks@.len(),
                cells_wf(old(self).chunks@),
                forall|m: int| 0 <= m < self.chunks@.len() ==> (#[trigger] self.chunks@[m]).coord == old(self).chunks@[m].coord
                    && self.chunks@[m].entities@ == old(self).chunks@[m].entities@,
                forall|m: int| 0 <= m < j ==> (#[trigger] self.chunks@[m]).state == GridChunkState::Active,
                self.chunk_size == old(self).chunk_size,
                self.activation_radius == old(self).activation_radius,
            decreases self.chunks@.len() - j,
        {
            self.chunks[j].activate();
            j = j + 1;
        }
    }

    /// Every entity id from currently active cells, cell after cell.
    pub fn active_entities(&self) -> (r: Vec<EntityId>)
        ensures
            r@ == entities_of(self.spec_cells(), true),
            forall|id: EntityId| #[trigger] r@.contains(id) <==> exists|i: int|
                0 <= i < self.spec_cells().len() && self.spec_cells()[i].state == GridChunkState::Active && (#[trigger] self.spec_cells()[i]).entities@.contains(id),
    {
        let r = self.collect_entities(true);
        proof {
            assert forall|id: EntityId| #[trigger] r@.contains(id) <==> exists|i: int|
                0 <= i < self.spec_cells().len() && self.spec_cells()[i].state == GridChunkState::Active && (#[trigger] self.spec_cells()[i]).entities@.contains(id) by {
                lemma_entities_of_members(self.spec_cells(), true, id);
            }
        }
        r
    }

    /// Every entity id from all cells regardless of state, cell after cell.
    pub fn all_entities(&self) -> (r: Vec<EntityId>)
        ensures
            r@ == entities_of(self.spec_cells(), false),
            forall|id: EntityId| #[trigger] r@.contains(id) <==> exists|i: int|
                0 <= i < self.spec_cells().len() && (#[trigger] self.spec_cells()[i]).entities@.contains(id),
    {
        let r = self.collect_entities(false);
        proof {
            assert forall|id: EntityId| #[trigger] r@.contains(id) <==> exists|i: int|
                0 <= i < self.spec_cells().len() && (#[trigger] self.spec_cells()[i]).entities@.contains(id) by {
                lemma_entities_of_members(self.spec_cells(), false, id);
            }
        }
        r
    }

    fn collect_entities(&self, only_active: bool) -> (r: Vec<EntityId>)
        ensures
            r@ == entities_of(self.spec_cells(), only_active),
            forall|id: EntityId| #[trigger] r@.contains(id) <==> exists|i: int|
                0 <= i < self.spec_cells().len() && (!only_active || self.spec_cells()[i].state
                    == GridChunkState::Active) && (#[trigger] self.spec_cells()[i]).entities@.contains(id),
    {
        let mut r: Vec<EntityId> = Vec::new();
        let mut j: usize = 0;
        while j < self.chunks.len()
            invariant
                j <= self.chunks@.len(),
                r@ == entities_of(self.chunks@.take(j as int), only_active),
            decreases self.chunks@.len() - j,
        {
            let ghost r0 = r@;
            proof {
                assert(self.chunks@.take(j + 1).drop_last() == self.chunks@.take(j as int));
            }
            if !only_active || self.chunks[j].state == GridChunkState::Active {
                let es = &self.chunks[j].entities;
                let mut e: usize = 0;
                while e < es.len()
                    invariant
                        e <= es@.len(),
                        r@ == r0 + es@.take(e as int),
                    decreases es@.len() - e,
                {
                    r.push(es[e]);
                    proof {
                        assert(es@.take(e + 1) == es@.take(e as int).push(es@[e as int]));
                    }
                    e = e + 1;
                }
                proof {
                    assert(es@.take(es@.len() as int) == es@);
                }
            }
            j = j + 1;
        }
        proof {
            assert(self.chunks@.take(self.chunks@.len() as int) == self.chunks@);
            assert forall|id: EntityId| #[trigger] r@.contains(id) <==> exists|i: int|
                0 <= i < self.spec_cells().len() && (!only_active || self.spec_cells()[i].state
                    == GridChunkState::Active) && (#[trigger] self.spec_cells()[i]).entities@.contains(id) by {
                lemma_entities_of_members(self.spec_cells(), only_active, id);
            }
        }
        r
    }

    /// All cells, in creation order.
    pub fn chunks(&self) -> (r: &Vec<GridChunk>)
        ensures
            r@ == self.spec_cells(),
    {
        &self.chunks
    }

    /// The active cells, in creation order.
    pub fn active_chunks(&self) -> (r: Vec<&GridChunk>)
        ensures
            r@.map_values(|c: &GridChunk| *c) == self.spec_cells().filter(
                |c: GridChunk| c.state == GridChunkState::Active,
            ),
    {
        let mut r: Vec<&GridChunk> = Vec::new();
        let mut j: usize = 0;
        while j < self.chunks.len()
            invariant
                j <= self.chunks@.len(),
                r@.map_values(|c: &GridChunk| *c) == self.chunks@.take(j as int).filter(
                    |c: GridChunk| c.state == GridChunkState::Active,
                ),
            decreases self.chunks@.len() - j,
        {
            proof {
                assert(self.chunks@.take(j + 1).drop_last() == self.chunks@.take(j as int));
                reveal(Seq::filter);
            }
            if self.chunks[j].state == GridChunkState::Active {
                r.push(&self.chunks[j]);
                proof {
                    assert(r@.map_values(|c: &GridChunk| *c) =~= self.chunks@.take(j + 1).filter(
                        |c: GridChunk| c.state == GridChunkState::Active,
                    ));
                }
            }
            j = j + 1;
        }
        proof {
            assert(self.chunks@.take(self.chunks@.len() as int) == self.chunks@);
        }
        r
    }
}

/// Whether `c` occurs in `v`.
pub fn coords_contain(v: &Vec<ChunkCoord>, c: ChunkCoord) -> (b: bool)
    ensures
        b == v@.contains(c),
{
    let mut i: usize = 0;
    while i < v.len()
        invariant
            i <= v@.len(),
            forall|j: int| 0 <= j < i ==> v@[j] != c,
        decreases v@.len() - i,
    {
        if v[i] == c {
            return true;
        }
        i = i + 1;
    }
    false
}

/// Replacing a cell by one with the same coordinate changes only what is
/// found at that coordinate.
pub proof fn lemma_cell_at_update(cells: Seq<GridChunk>, i: int, x: GridChunk)
    requires
        cells_wf(cells),
        0 <= i < cells.len(),
        x.coord == cells[i].coord,
        x.entities@.no_duplicates(),
    ensures
        cells_wf(cells.update(i, x)),
        forall|d: ChunkCoord| #[trigger] cell_at(cells.update(i, x), d) == if d == x.coord {
            Some(x)
        } else {
            cell_at(cells, d)
        },
{
    let u = cells.update(i, x);
    assert forall|a: int, b: int| 0 <= a < b < u.len() implies (#[trigger] u[a]).coord != (#[trigger] u[b]).coord by {
        assert(cells[a].coord != cells[b].coord);
    }
    lemma_cell_at_index(u, i);
    assert forall|d: ChunkCoord| #[trigger] cell_at(u, d) == if d == x.coord {
        Some(x)
    } else {
        cell_at(cells, d)
    } by {
        if d != x.coord {
            if cell_at(cells, d) is Some {
                let k = slot_of(cells, d);
                lemma_cell_at_index(cells, k);
                lemma_cell_at_index(u, k);
            }
            if cell_at(u, d) is Some {
                let k = slot_of(u, d);
                lemma_cell_at_index(u, k);
                lemma_cell_at_index(cells, k);
            }
        }
    }
}

/// Appending a cell at a fresh coordinate changes only what is found there.
pub proof fn lemma_cell_at_push(cells: Seq<GridChunk>, x: GridChunk)
    requires
        cells_wf(cells.push(x)),
        cell_at(cells, x.coord) is None,
    ensures
        cells_wf(cells),
        forall|d: ChunkCoord| #[trigger] cell_at(cells.push(x), d) == if d == x.coord {
            Some(x)
        } else {
            cell_at(cells, d)
        },
{
    let u = cells.push(x);
    assert forall|a: int, b: int| 0 <= a < b < cells.len() implies (#[trigger] cells[a]).coord != (#[trigger] cells[b]).coord by {
        assert(u[a] == cells[a] && u[b] == cells[b]);
    }
    assert forall|a: int| 0 <= a < cells.len() implies (#[trigger] cells[a]).entities@.no_duplicates() by {
        assert(u[a] == cells[a]);
    }
    lemma_cell_at_index(u, cells.len() as int);
    assert forall|d: ChunkCoord| #[trigger] cell_at(u, d) == if d == x.coord {
        Some(x)
    } else {
        cell_at(cells, d)
    } by {
        if d != x.coord {
            if cell_at(cells, d) is Some {
                let k = slot_of(cells, d);
                lemma_cell_at_index(cells, k);
                assert(u[k] == cells[k]);
                lemma_cell_at_index(u, k);
            }
            if cell_at(u, d) is Some {
                let k = slot_of(u, d);
                lemma_cell_at_index(u, k);
                assert(u[k] == cells[k]);
                lemma_cell_at_index(cells, k);
            }
        }
    }
}

/// The position of the cell at `c` (meaningful when there is one).
pub open spec fn slot_of(cells: Seq<GridChunk>, c: ChunkCoord) -> int {
    choose|i: int| 0 <= i < cells.len() && cells[i].coord == c
}

/// With distinct coordinates, the slot of a cell's coordinate is its index.
pub proof fn lemma_slot_of(cells: Seq<GridChunk>, i: int)
    requires
        cells_wf(cells),
        0 <= i < cells.len(),
    ensures
        slot_of(cells, cells[i].coord) == i,
{
    lemma_cell_at_index(cells, i);
    let k = slot_of(cells, cells[i].coord);
    if k != i {
        if k < i {
            assert(cells[k].coord != cells[i].coord);
        } else {
            assert(cells[i].coord != cells[k].coord);
        }
    }
}

} // verus!
