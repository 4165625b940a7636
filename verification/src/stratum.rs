//! `Stratum` — the top-level world orchestrator.
//!
//! `Stratum` owns levels, cameras, and simulation state. Cameras are
//! decoupled from levels by design: an editor camera can exist while no
//! level is loaded.
use vstd::prelude::*;
use crate::camera::{CameraId, CameraRegistry, StratumCamera};
use crate::entity::{Components, EntityId};
use crate::level::{Level, LevelId, StreamingState};
use crate::mode::{flipped, SimulationMode};
use crate::partition::{activated_state, ChunkCoord, GridChunk};
use crate::render_graph::{is_view_order, ordered_view_cameras};

verus! {

/// The position of the first level with this id, if any.
pub open spec fn level_index(levels: Seq<Level>, id: LevelId) -> Option<int>
    decreases levels.len(),
{
    if levels.len() == 0 {
        None
    } else if levels[0].spec_id() == id {
        Some(0)
    } else {
        match level_index(levels.drop_first(), id) {
            Some(i) => Some(i + 1),
            None => None,
        }
    }
}

/// `level_index` finds exactly the first level with the id.
pub proof fn lemma_level_index(levels: Seq<Level>, id: LevelId)
    ensures
        match level_index(levels, id) {
            Some(i) => 0 <= i < levels.len() && levels[i].spec_id() == id && forall|j: int|
                0 <= j < i ==> (#[trigger] levels[j]).spec_id() != id,
            None => forall|j: int| 0 <= j < levels.len() ==> (#[trigger] levels[j]).spec_id() != id,
        },
    decreases levels.len(),
{
    if levels.len() > 0 {
        lemma_level_index(levels.drop_first(), id);
        assert forall|j: int| 1 <= j < levels.len() implies levels[j] == levels.drop_first()[j - 1] by {}
    }
}

/// Top-level world orchestrator.
pub struct Stratum {
    mode: SimulationMode,
    levels: Vec<Level>,
    active_level_idx: Option<usize>,
    cameras: CameraRegistry<StratumCamera>,
    /// Monotonically increasing counter for generating `LevelId`s.
    level_id_seq: u64,
    /// Accumulated simulation time (`f32` bits; only advances in `Game` mode).
    simulation_time: u32,
}

impl Stratum {
    pub closed spec fn spec_mode(&self) -> SimulationMode {
        self.mode
    }

    pub closed spec fn spec_levels(&self) -> Seq<Level> {
        self.levels@
    }

    pub closed spec fn spec_active(&self) -> Option<usize> {
        self.active_level_idx
    }

    pub closed spec fn spec_cameras(&self) -> CameraRegistry<StratumCamera> {
        self.cameras
    }

    pub closed spec fn spec_level_id_seq(&self) -> u64 {
        self.level_id_seq
    }

    pub closed spec fn spec_simulation_time(&self) -> u32 {
        self.simulation_time
    }

    /// Every level is well-formed; there is an active level exactly when
    /// there is some level, and it is one of them.
    pub open spec fn wf(&self) -> bool {
        &&& forall|i: int| 0 <= i < self.spec_levels().len() ==> (#[trigger] self.spec_levels()[i]).wf()
        &&& (self.spec_active() is None <==> self.spec_levels().len() == 0)
        &&& (self.spec_active() matches Some(i) ==> i < self.spec_levels().len())
        &&& self.spec_cameras().wf()
    }

    pub fn new(mode: SimulationMode) -> (s: Self)
        ensures
            s.wf(),
            s.spec_mode() == mode,
            s.spec_levels() == Seq::<Level>::empty(),
            s.spec_active() is None,
            s.spec_cameras().spec_cameras() == Map::<u64, StratumCamera>::empty(),
            s.spec_cameras().spec_next_id() == 0,
            s.spec_level_id_seq() == 1,
            s.spec_simulation_time() == 0,
    {
        Stratum {
            mode,
            levels: Vec::new(),
            active_level_idx: None,
            cameras: CameraRegistry::new(),
            level_id_seq: 1,
            simulation_time: 0,
        }
    }

    pub fn mode(&self) -> (m: SimulationMode)
        ensures
            m == self.spec_mode(),
    {
        self.mode
    }

    pub fn set_mode(&mut self, mode: SimulationMode)
        ensures
            final(self).spec_mode() == mode,
            final(self).spec_levels() == old(self).spec_levels(),
            final(self).spec_active() == old(self).spec_active(),
            final(self).spec_cameras() == old(self).spec_cameras(),
            final(self).spec_level_id_seq() == old(self).spec_level_id_seq(),
            final(self).spec_simulation_time() == old(self).spec_simulation_time(),
    {
        self.mode = mode;
    }

    /// Toggle between `Editor` and `Game`. Hot-switchable mid-frame.
    pub fn toggle_mode(&mut self)
        ensures
            final(self).spec_mode() == flipped(old(self).spec_mode()),
            final(self).spec_levels() == old(self).spec_levels(),
            final(self).spec_active() == old(self).spec_active(),
            final(self).spec_cameras() == old(self).spec_cameras(),
            final(self).spec_level_id_seq() == old(self).spec_level_id_seq(),
            final(self).spec_simulation_time() == old(self).spec_simulation_time(),
    {
        self.mode.toggle();
    }

    /// Add a pre-built level. The first level added becomes the active level.
    pub fn add_level(&mut self, level: Level) -> (id: LevelId)
        requires
            old(self).wf(),
            level.wf(),
        ensures
            final(self).wf(),
            id == level.spec_id(),
            final(self).spec_levels() == old(self).spec_levels().push(level),
            final(self).spec_active() == (match old(self).spec_active() {
                Some(i) => Some(i),
                None => Some(old(self).spec_levels().len() as usize),
            }),
            final(self).spec_mode() == old(self).spec_mode(),
            final(self).spec_cameras() == old(self).spec_cameras(),
            final(self).spec_level_id_seq() == old(self).spec_level_id_seq(),
            final(self).spec_simulation_time() == old(self).spec_simulation_time(),
    {
        let id = level.id();
        let idx = self.levels.len();
        self.levels.push(level);
        if self.active_level_idx.is_none() {
            self.active_level_idx = Some(idx);
        }
        proof {
            assert forall|i: int| 0 <= i < self.levels@.len() implies (#[trigger] self.levels@[i]).wf() by {
                if i < idx {
                    assert(self.levels@[i] == old(self).levels@[i]);
                }
            }
        }
        id
    }

    /// Create a new empty level (cell size and activation radius as `f32`
    /// bits) with the next fresh id, and add it.
    pub fn create_level(&mut self, name: &str, chunk_size: u32, activation_radius: u32) -> (id: LevelId)
        requires
            old(self).wf(),
            old(self).spec_level_id_seq() < u64::MAX,
        ensures
            final(self).wf(),
            id == LevelId(old(self).spec_level_id_seq()),
            final(self).spec_level_id_seq() == old(self).spec_level_id_seq() + 1,
            final(self).spec_levels().len() == old(self).spec_levels().len() + 1,
            final(self).spec_levels().drop_last() == old(self).spec_levels(),
            ({
                let l = final(self).spec_levels().last();
                &&& l.spec_id() == id
                &&& l.spec_name() == name@
                &&& l.spec_store().spec_entities() == Map::<u64, Components>::empty()
                &&& l.spec_partition().spec_cells() == Seq::<GridChunk>::empty()
                &&& l.spec_partition().spec_chunk_size() == chunk_size
                &&& l.spec_partition().spec_activation_radius() == activation_radius
                &&& l.spec_streaming_state() == StreamingState::Active
            }),
            final(self).spec_active() == (match old(self).spec_active() {
                Some(i) => Some(i),
                None => Some(old(self).spec_levels().len() as usize),
            }),
            final(self).spec_mode() == old(self).spec_mode(),
            final(self).spec_cameras() == old(self).spec_cameras(),
            final(self).spec_simulation_time() == old(self).spec_simulation_time(),
    {
        let id = LevelId(self.level_id_seq);
        self.level_id_seq = self.level_id_seq + 1;
        let level = Level::new(id, name, chunk_size, activation_radius);
        self.add_level(level);
        proof {
            assert(self.levels@.drop_last() == old(self).levels@);
        }
        id
    }

    /// Make the first level with `id` the active level; `false` (and no
    /// change) if there is none.
    pub fn set_active_level(&mut self, id: LevelId) -> (found: bool)
        requires
            old(self).wf(),
        ensures
            final(self).wf(),
            found == level_index(old(self).spec_levels(), id) is Some,
            final(self).spec_active() == (match level_index(old(self).spec_levels(), id) {
                Some(i) => Some(i as usize),
                None => old(self).spec_active(),
            }),
            final(self).spec_levels() == old(self).spec_levels(),
            final(self).spec_mode() == old(self).spec_mode(),
            final(self).spec_cameras() == old(self).spec_cameras(),
            final(self).spec_level_id_seq() == old(self).spec_level_id_seq(),
            final(self).spec_simulation_time() == old(self).spec_simulation_time(),
    {
        match self.position_of(id) {
            Some(idx) => {
                self.active_level_idx = Some(idx);
                true
            },
            None => false,
        }
    }

    fn position_of(&self, id: LevelId) -> (r: Option<usize>)
        ensures
            match level_index(self.spec_levels(), id) {
                Some(i) => r is Some && r->0 as int == i && 0 <= i < self.spec_levels().len(),
                None => r is None,
            },
    {
        proof {
            lemma_level_index(self.levels@, id);
        }
        let mut i: usize = 0;
        while i < self.levels.len()
            invariant
                i <= self.levels@.len(),
                forall|j: int| 0 <= j < i ==> (#[trigger] self.levels@[j]).spec_id() != id,
                match level_index(self.levels@, id) {
                    Some(k) => 0 <= k < self.levels@.len() && self.levels@[k].spec_id() == id && forall|j: int|
                        0 <= j < k ==> (#[trigger] self.levels@[j]).spec_id() != id,
                    None => forall|j: int| 0 <= j < self.levels@.len() ==> (#[trigger] self.levels@[j]).spec_id() != id,
                },
            decreases self.levels@.len() - i,
        {
            if self.levels[i].id() == id {
                proof {
                    if let Some(k) = level_index(self.levels@, id) {
                        if k < i {
                        } else if k > i {
                            assert(self.levels@[i as int].spec_id() != id);
                        }
                    }
                }
                return Some(i);
            }
            i = i + 1;
        }
        proof {
            if let Some(k) = level_index(self.levels@, id) {
                assert(self.levels@[k].spec_id() == id);
            }
        }
        None
    }

    pub fn active_level(&self) -> (r: Option<&Level>)
        requires
            self.wf(),
        ensures
            r == (match self.spec_active() {
                Some(i) => Some(&self.spec_levels()[i as int]),
                None => None,
            }),
    {
        match self.active_level_idx {
            Some(i) => Some(&self.levels[i]),
            None => None,
        }
    }

    /// The active level, mutably; the orchestrator stays well-formed as long
    /// as the level does.
    pub fn active_level_mut(&mut self) -> (r: Option<&mut Level>)
        requires
            old(self).wf(),
        ensures
            final(self).spec_active() == old(self).spec_active(),
            final(self).spec_mode() == old(self).spec_mode(),
            final(self).spec_cameras() == old(self).spec_cameras(),
            final(self).spec_level_id_seq() == old(self).spec_level_id_seq(),
            final(self).spec_simulation_time() == old(self).spec_simulation_time(),
            match old(self).spec_active() {
                Some(i) => r matches Some(l) && *l == old(self).spec_levels()[i as int]
                    && final(self).spec_levels() == old(self).spec_levels().update(i as int, *final(l))
                    && (final(l).wf() ==> final(self).wf()),
                None => r is None && final(self).spec_levels() == old(self).spec_levels() && final(self).wf(),
            },
    {
        match self.active_level_idx {
            Some(i) => Some(&mut self.levels[i]),
            None => None,
        }
    }

    /// The first level with this id.
    pub fn level(&self, id: LevelId) -> (r: Option<&Level>)
        ensures
            r == (match level_index(self.spec_levels(), id) {
                Some(i) => Some(&self.spec_levels()[i]),
                None => None,
            }),
    {
        let p = self.position_of(id);
        match p {
            Some(i) => {
                Some(&self.levels[i])
            },
            None => None,
        }
    }

    /// The first level with this id, mutably; the orchestrator stays
    /// well-formed as long as the level does.
    pub fn level_mut(&mut self, id: LevelId) -> (r: Option<&mut Level>)
        requires
            old(self).wf(),
        ensures
            final(self).spec_active() == old(self).spec_active(),
            final(self).spec_mode() == old(self).spec_mode(),
            final(self).spec_cameras() == old(self).spec_cameras(),
            final(self).spec_level_id_seq() == old(self).spec_level_id_seq(),
            final(self).spec_simulation_time() == old(self).spec_simulation_time(),
            match level_index(old(self).spec_levels(), id) {
                Some(i) => r matches Some(l) && *l == old(self).spec_levels()[i]
                    && final(self).spec_levels() == old(self).spec_levels().update(i, *final(l))
                    && (final(l).wf() ==> final(self).wf()),
                None => r is None && final(self).spec_levels() == old(self).spec_levels() && final(self).wf(),
            },
    {
        match self.position_of(id) {
            Some(i) => Some(&mut self.levels[i]),
            None => None,
        }
    }

    pub fn levels(&self) -> (r: &[Level])
        ensures
            r@ == self.spec_levels(),
    {
        self.levels.as_slice()
    }

    pub fn cameras(&self) -> (r: &CameraRegistry<StratumCamera>)
        ensures
            *r == self.spec_cameras(),
    {
        &self.cameras
    }

    /// The camera registry, mutably; the orchestrator stays well-formed as
    /// long as the registry does.
    pub fn cameras_mut(&mut self) -> (r: &mut CameraRegistry<StratumCamera>)
        ensures
            *r == old(self).spec_cameras(),
            final(self).spec_cameras() == *final(r),
            final(self).spec_levels() == old(self).spec_levels(),
            final(self).spec_active() == old(self).spec_active(),
            final(self).spec_mode() == old(self).spec_mode(),
            final(self).spec_level_id_seq() == old(self).spec_level_id_seq(),
            final(self).spec_simulation_time() == old(self).spec_simulation_time(),
    {
        &mut self.cameras
    }

    /// Register a new camera. Its `id` field is overwritten with the
    /// assigned `CameraId`, which is returned.
    pub fn register_camera(&mut self, camera: StratumCamera) -> (id: CameraId)
        requires
            old(self).wf(),
            old(self).spec_cameras().spec_next_id() < u64::MAX,
        ensures
            final(self).wf(),
            id.0 == old(self).spec_cameras().spec_next_id(),
            final(self).spec_cameras().spec_cameras() == old(self).spec_cameras().spec_cameras().insert(
                id.0,
                StratumCamera { id, ..camera },
            ),
            final(self).spec_cameras().spec_next_id() == old(self).spec_cameras().spec_next_id() + 1,
            final(self).spec_levels() == old(self).spec_levels(),
            final(self).spec_active() == old(self).spec_active(),
            final(self).spec_mode() == old(self).spec_mode(),
            final(self).spec_level_id_seq() == old(self).spec_level_id_seq(),
            final(self).spec_simulation_time() == old(self).spec_simulation_time(),
    {
        let mut camera = camera;
        let id = self.cameras.peek_next_id();
        camera.id = id;
        self.cameras.register_camera(camera)
    }

    pub fn unregister_camera(&mut self, id: CameraId) -> (r: Option<StratumCamera>)
        requires
            old(self).wf(),
        ensures
            final(self).wf(),
            r == (if old(self).spec_cameras().spec_cameras().contains_key(id.0) {
                Some(old(self).spec_cameras().spec_cameras()[id.0])
            } else {
                None
            }),
            final(self).spec_cameras().spec_cameras() == old(self).spec_cameras().spec_cameras().remove(id.0),
            final(self).spec_levels() == old(self).spec_levels(),
            final(self).spec_active() == old(self).spec_active(),
            final(self).spec_mode() == old(self).spec_mode(),
            final(self).spec_level_id_seq() == old(self).spec_level_id_seq(),
            final(self).spec_simulation_time() == old(self).spec_simulation_time(),
    {
        self.cameras.unregister_camera(id)
    }

    /// The cameras whose render views this frame produces, in drawing order:
    /// none without an active level, else every active camera that renders
    /// in the current mode, by ascending priority.
    pub fn view_cameras(&self) -> (r: Vec<CameraId>)
        requires
            self.wf(),
        ensures
            self.spec_active() is None ==> r@.len() == 0,
            self.spec_active() is Some ==> is_view_order(
                self.spec_cameras().spec_cameras(),
                self.spec_mode(),
                r@,
            ),
    {
        match self.active_level_idx {
            Some(_) => ordered_view_cameras(&self.mode, &self.cameras),
            None => Vec::new(),
        }
    }

    /// Positions (`f32` bits) of the active cameras, which drive partition
    /// activation: one per active camera, in the registry's iteration order.
    pub fn active_camera_positions(&self) -> (r: Vec<[u32; 3]>)
        requires
            self.wf(),
        ensures
            exists|ks: Seq<u64>| {
                &&& ks.len() == r@.len()
                &&& ks.no_duplicates()
                &&& forall|i: int| 0 <= i < ks.len() ==> {
                    &&& self.spec_cameras().spec_cameras().contains_key(#[trigger] ks[i])
                    &&& self.spec_cameras().spec_cameras()[ks[i]].active
                    &&& self.spec_cameras().spec_cameras()[ks[i]].position == r@[i]
                }
                &&& forall|k: u64| #[trigger] self.spec_cameras().spec_cameras().contains_key(k)
                    && self.spec_cameras().spec_cameras()[k].active ==> ks.contains(k)
            },
    {
        let ids = self.cameras.camera_ids();
        let ghost cams = self.cameras.spec_cameras();
        let ghost mut ks: Seq<u64> = Seq::empty();
        let mut r: Vec<[u32; 3]> = Vec::new();
        let mut i: usize = 0;
        while i < ids.len()
            invariant
                i <= ids@.len(),
                cams == self.cameras.spec_cameras(),
                forall|t: int| 0 <= t < ids@.len() ==> cams.contains_key(#[trigger] ids@[t].0),
                forall|a: int, b: int| 0 <= a < b < ids@.len() ==> ids@[a] != ids@[b],
                ks.len() == r@.len(),
                ks.no_duplicates(),
                forall|t: int| 0 <= t < ks.len() ==> {
                    &&& cams.contains_key(#[trigger] ks[t])
                    &&& cams[ks[t]].active
                    &&& cams[ks[t]].position == r@[t]
                    &&& exists|u: int| 0 <= u < i && ids@[u].0 == ks[t]
                },
                forall|u: int| 0 <= u < i && cams[(#[trigger] ids@[u]).0].active ==> ks.contains(ids@[u].0),
            decreases ids@.len() - i,
        {
            let cam = self.cameras.get_camera(ids[i]).unwrap();
            let ghost ks0 = ks;
            if cam.active {
                r.push(cam.position);
                proof {
                    let k = ids@[i as int].0;
                    assert(*cam == cams[k]);
                    assert(!ks0.contains(k)) by {
                        if ks0.contains(k) {
                            let t = choose|t: int| 0 <= t < ks0.len() && ks0[t] == k;
                            let u = choose|u: int| 0 <= u < i && ids@[u].0 == ks0[t];
                            assert(ids@[u] != ids@[i as int]);
                        }
                    }
                    ks = ks0.push(k);
                    assert forall|t: int| 0 <= t < ks.len() implies {
                        &&& cams.contains_key(#[trigger] ks[t])
                        &&& cams[ks[t]].active
                        &&& cams[ks[t]].position == r@[t]
                        &&& exists|u: int| 0 <= u < i + 1 && ids@[u].0 == ks[t]
                    } by {
                        if t < ks0.len() {
                            let u = choose|u: int| 0 <= u < i && ids@[u].0 == ks0[t];
                        } else {
                            assert(ids@[i as int].0 == ks[t]);
                        }
                    }
                    assert forall|u: int| 0 <= u < i + 1 && cams[(#[trigger] ids@[u]).0].active implies ks.contains(ids@[u].0) by {
                        if u < i {
                            let t = choose|t: int| 0 <= t < ks0.len() && ks0[t] == ids@[u].0;
                            assert(ks[t] == ks0[t]);
                        } else {
                            assert(ks[ks.len() - 1] == k);
                        }
                    }
                }
            } else {
                proof {
                    assert forall|t: int| 0 <= t < ks.len() implies exists|u: int| 0 <= u < i + 1 && ids@[u].0 == #[trigger] ks[t] by {
                        let u = choose|u: int| 0 <= u < i && ids@[u].0 == ks[t];
                    }
                }
            }
            i = i + 1;
        }
        proof {
            assert forall|k: u64| #[trigger] cams.contains_key(k) && cams[k].active implies ks.contains(k) by {
                let u = choose|u: int| 0 <= u < ids@.len() && #[trigger] ids@[u].0 == k;
            }
        }
        r
    }

    /// Advance the world one frame. In `Game` mode the simulation clock takes
    /// the value `advanced_time` (the caller's `time + delta`, as `f32` bits);
    /// in `Editor` mode it stays frozen. The active level's cells are then
    /// activated from `wanted`, the cells the active cameras want resident.
    pub fn tick(&mut self, wanted: &Vec<ChunkCoord>, advanced_time: u32)
        requires
            old(self).wf(),
        ensures
            final(self).wf(),
            final(self).spec_simulation_time() == (if old(self).spec_mode() == SimulationMode::Game {
                advanced_time
            } else {
                old(self).spec_simulation_time()
            }),
            final(self).spec_active() == old(self).spec_active(),
            final(self).spec_mode() == old(self).spec_mode(),
            final(self).spec_cameras() == old(self).spec_cameras(),
            final(self).spec_level_id_seq() == old(self).spec_level_id_seq(),
            final(self).spec_levels().len() == old(self).spec_levels().len(),
            forall|j: int| 0 <= j < old(self).spec_levels().len() && old(self).spec_active() != Some(j as usize)
                ==> #[trigger] final(self).spec_levels()[j] == old(self).spec_levels()[j],
            old(self).spec_active() matches Some(i) ==> {
                let o = old(self).spec_levels()[i as int];
                let n = final(self).spec_levels()[i as int];
                &&& n.spec_store() == o.spec_store()
                &&& n.spec_id() == o.spec_id()
                &&& n.spec_name() == o.spec_name()
                &&& n.spec_streaming_state() == o.spec_streaming_state()
                &&& n.spec_partition().spec_chunk_size() == o.spec_partition().spec_chunk_size()
                &&& n.spec_partition().spec_activation_radius() == o.spec_partition().spec_activation_radius()
                &&& forall|d: ChunkCoord| (#[trigger] n.spec_partition().spec_cell(d) is Some) == (o.spec_partition().spec_cell(d) is Some
                    || wanted@.contains(d))
                &&& forall|d: ChunkCoord| #[trigger] n.spec_partition().spec_cell(d) matches Some(c) ==> {
                    &&& Some(c.state) == activated_state(
                        match o.spec_partition().spec_cell(d) {
                            Some(oc) => Some(oc.state),
                            None => None,
                        },
                        wanted@.contains(d),
                    )
                    &&& c.entities@ == (match o.spec_partition().spec_cell(d) {
                        Some(oc) => oc.entities@,
                        None => Seq::<EntityId>::empty(),
                    })
                }
            },
    {
        if self.mode.is_game() {
            self.simulation_time = advanced_time;
        }
        match self.active_level_idx {
            Some(i) => {
                let ghost before = self.levels@;
                self.levels[i].activate_partition_around(wanted);
                proof {
                    assert forall|j: int| 0 <= j < self.levels@.len() implies (#[trigger] self.levels@[j]).wf() by {
                        if j != i {
                            assert(self.levels@[j] == before[j]);
                        }
                    }
                }
            },
            None => {},
        }
    }

    /// Elapsed simulation time (`f32` bits; Game mode only, frozen in Editor).
    pub fn simulation_time(&self) -> (t: u32)
        ensures
            t == self.spec_simulation_time(),
    {
        self.simulation_time
    }
}

/// Ids that `create_level` hands out are distinct: each call returns the
/// current counter and moves it forward.
pub proof fn lemma_created_level_ids_distinct(seq0: u64, seq1: u64)
    requires
        seq1 == seq0 + 1,
    ensures
        LevelId(seq0) != LevelId(seq1),
{
}

} // verus!
