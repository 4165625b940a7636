//! World partition manager: chunk state tracking, LOD / visibility decisions
//! and the bookkeeping of asynchronous chunk loads.
//!
//! Distances, frustum tests and the disk I/O itself belong to the caller:
//! each tick it hands this manager one [`ChunkVerdict`] per chunk (what the
//! cameras want of it) and the finished loads, and it sends out the load
//! requests this manager returns.
use std::collections::HashMap;
use std::collections::HashSet;
use std::sync::Arc;
use vstd::prelude::*;
use vstd::std_specs::hash::*;
use crate::chunk::{
    evicted_chunk, fresh_chunk, loaded_chunk, loaded_state, visibility_state, Chunk, ChunkError,
    ChunkData, ChunkMetadata, CHUNK_DATA_VERSION,
};
use crate::keyed::{map_get_mut, map_keys, set_members};
use crate::metrics::WorldPartitionMetrics;
use crate::types::{ChunkId, ChunkState};

verus! {

broadcast use vstd::std_specs::hash::group_hash_axioms;

/// Load request for async disk IO.
#[derive(Debug)]
pub struct ChunkLoadRequest {
    pub chunk_id: ChunkId,
    pub file_path: String,
    pub compressed: bool,
}

/// Outcome of one asynchronous chunk load: the chunk's bytes as they are
/// kept in memory, or the error that stopped the load.
#[derive(Debug)]
pub struct ChunkLoadResult {
    pub chunk_id: ChunkId,
    pub data: Result<Arc<Vec<u8>>, ChunkError>,
}

/// Streaming budget constraints (per tick).
#[derive(Debug, Clone, Copy, PartialEq, Eq, Structural)]
pub struct StreamingBudget {
    pub max_io_ms_per_frame: u64,
    pub max_upload_bytes_per_frame: usize,
    pub max_concurrent_tasks: usize,
}

impl Default for StreamingBudget {
    /// 6 ms of I/O, 5 MiB of uploads and 6 concurrent loads per frame.
    fn default() -> (b: Self)
        ensures
            b == (StreamingBudget {
                max_io_ms_per_frame: 6,
                max_upload_bytes_per_frame: 5242880usize,
                max_concurrent_tasks: 6,
            }),
    {
        StreamingBudget {
            max_io_ms_per_frame: 6,
            max_upload_bytes_per_frame: 5 * 1024 * 1024,
            max_concurrent_tasks: 6,
        }
    }
}

/// What the cameras want of one chunk this tick.
#[derive(Debug, Clone, Copy, PartialEq, Eq, Structural)]
pub struct ChunkVerdict {
    /// Some camera is within the preload radius.
    pub should_be_loaded: bool,
    /// Some camera sees the chunk and is within the visible radius.
    pub should_be_visible: bool,
    /// Every camera is beyond the unload radius.
    pub should_be_evicted: bool,
}

/// Whether a verdict starts loading a chunk in state `s`.
pub open spec fn starts_load(s: ChunkState, v: ChunkVerdict) -> bool {
    s == ChunkState::Unloaded && v.should_be_loaded
}

/// Whether a verdict evicts a chunk in state `s`.
pub open spec fn evicts(s: ChunkState, v: ChunkVerdict) -> bool {
    v.should_be_evicted && (s == ChunkState::Loading || loaded_state(s))
}

/// The chunk after its verdict is applied (its load start time aside, which
/// a started load stamps with the clock).
pub open spec fn after_verdict(c: Chunk, v: ChunkVerdict) -> Chunk {
    if evicts(c.state, v) {
        evicted_chunk(c)
    } else if starts_load(c.state, v) {
        Chunk { state: ChunkState::Loading, ..c }
    } else if loaded_state(c.state) {
        Chunk { state: visibility_state(c.state, v.should_be_visible), ..c }
    } else {
        c
    }
}

/// What a verdict does to a chunk's state: an unloaded chunk that should
/// load starts loading; a loading or loaded chunk that should be evicted
/// ends unloaded; otherwise a loaded chunk that should be visible becomes
/// visible, a visible chunk that should not be visible falls back to
/// loaded, and a loaded or hidden one keeps its state; a chunk in any other
/// state keeps it.
pub proof fn lemma_verdict_states(c: Chunk, v: ChunkVerdict)
    ensures
        c.state == ChunkState::Unloaded && v.should_be_loaded ==> after_verdict(c, v).state == ChunkState::Loading,
        c.state == ChunkState::Unloaded && !v.should_be_loaded ==> after_verdict(c, v).state == ChunkState::Unloaded,
        c.state == ChunkState::Evicting ==> after_verdict(c, v).state == ChunkState::Evicting,
        c.state == ChunkState::Loading ==> after_verdict(c, v).state == (if v.should_be_evicted {
            ChunkState::Unloaded
        } else {
            ChunkState::Loading
        }),
        (c.state == ChunkState::Loaded || c.state == ChunkState::Visible || c.state == ChunkState::Hidden)
            && v.should_be_evicted ==> after_verdict(c, v).state == ChunkState::Unloaded,
        (c.state == ChunkState::Loaded || c.state == ChunkState::Visible || c.state == ChunkState::Hidden)
            && !v.should_be_evicted && v.should_be_visible ==> after_verdict(c, v).state == ChunkState::Visible,
        c.state == ChunkState::Visible && !v.should_be_evicted && !v.should_be_visible
            ==> after_verdict(c, v).state == ChunkState::Loaded,
        (c.state == ChunkState::Loaded || c.state == ChunkState::Hidden) && !v.should_be_evicted
            && !v.should_be_visible ==> after_verdict(c, v).state == c.state,
        !v.should_be_visible || v.should_be_evicted ==> after_verdict(c, v).state != ChunkState::Visible,
{
}

/// The ids of the chunks that the verdicts evict.
pub open spec fn evicted_ids(chunks: Map<u64, Chunk>, verdicts: Map<u64, ChunkVerdict>) -> Set<u64> {
    chunks.dom().filter(|k: u64| verdicts.contains_key(k) && evicts(chunks[k].state, verdicts[k]))
}

/// The ids of the chunks that the verdicts start loading.
pub open spec fn started_ids(chunks: Map<u64, Chunk>, verdicts: Map<u64, ChunkVerdict>) -> Set<u64> {
    chunks.dom().filter(|k: u64| verdicts.contains_key(k) && starts_load(chunks[k].state, verdicts[k]))
}

/// The started chunks that a load can be requested for: they have a file
/// path and no load of theirs is pending.
pub open spec fn requestable_ids(chunks: Map<u64, Chunk>, verdicts: Map<u64, ChunkVerdict>, pending: Set<u64>) -> Set<u64> {
    started_ids(chunks, verdicts).filter(|k: u64| chunks[k].file_path is Some && !pending.contains(k))
}

/// How many more loads the concurrent-task budget admits while `pending`
/// loads are outstanding.
pub open spec fn request_room(pending: nat, max_concurrent: usize) -> nat {
    if pending < max_concurrent {
        (max_concurrent - pending) as nat
    } else {
        0
    }
}

/// The chunk ids that the requests are for.
pub open spec fn requested_ids(rs: Seq<ChunkLoadRequest>) -> Set<u64> {
    Set::new(|k: u64| exists|i: int| 0 <= i < rs.len() && (#[trigger] rs[i]).chunk_id.0 == k)
}

/// The chunk after one load result for it.
pub open spec fn after_result(c: Chunk, data: Result<Arc<Vec<u8>>, ChunkError>) -> Chunk {
    match data {
        Ok(d) => loaded_chunk(c, d),
        Err(_) => Chunk { state: ChunkState::Unloaded, ..c },
    }
}

/// The chunks after a sequence of load results, applied in order; results
/// for unknown chunks change nothing.
pub open spec fn after_results(chunks: Map<u64, Chunk>, rs: Seq<ChunkLoadResult>) -> Map<u64, Chunk>
    decreases rs.len(),
{
    if rs.len() == 0 {
        chunks
    } else {
        let m = after_results(chunks, rs.drop_last());
        let r = rs.last();
        if m.contains_key(r.chunk_id.0) {
            m.insert(r.chunk_id.0, after_result(m[r.chunk_id.0], r.data))
        } else {
            m
        }
    }
}

/// How many of the results are successful loads of known chunks.
pub open spec fn loads_counted(dom: Set<u64>, rs: Seq<ChunkLoadResult>) -> nat
    decreases rs.len(),
{
    if rs.len() == 0 {
        0
    } else {
        loads_counted(dom, rs.drop_last()) + if rs.last().data is Ok && dom.contains(
            rs.last().chunk_id.0,
        ) {
            1nat
        } else {
            0nat
        }
    }
}

/// How many of the results are failures.
pub open spec fn failures_counted(rs: Seq<ChunkLoadResult>) -> nat
    decreases rs.len(),
{
    if rs.len() == 0 {
        0
    } else {
        failures_counted(rs.drop_last()) + if rs.last().data is Err {
            1nat
        } else {
            0nat
        }
    }
}

/// The chunk ids that the results are about.
pub open spec fn result_ids(rs: Seq<ChunkLoadResult>) -> Set<u64> {
    Set::new(|k: u64| exists|i: int| 0 <= i < rs.len() && (#[trigger] rs[i]).chunk_id.0 == k)
}

/// World partition manager with chunk state tracking and load bookkeeping.
pub struct WorldPartitionManager {
    chunk_size: u32,
    visible_radius: u32,
    preload_radius: u32,
    unload_radius: u32,
    max_lod: u8,
    chunks: HashMap<u64, Chunk>,
    budget: StreamingBudget,
    metrics: WorldPartitionMetrics,
    pending_loads: HashSet<u64>,
}

impl WorldPartitionManager {
    /// The chunks, by raw chunk id.
    pub closed spec fn spec_chunks(&self) -> Map<u64, Chunk> {
        self.chunks@
    }

    /// The chunks whose load was requested and has not finished.
    pub closed spec fn spec_pending(&self) -> Set<u64> {
        self.pending_loads@
    }

    pub closed spec fn spec_metrics(&self) -> WorldPartitionMetrics {
        self.metrics
    }

    pub closed spec fn spec_budget(&self) -> StreamingBudget {
        self.budget
    }

    /// Chunk size and the visible, preload and unload radii (`f32` bits), and
    /// the maximum LOD.
    pub closed spec fn spec_config(&self) -> (u32, u32, u32, u32, u8) {
        (self.chunk_size, self.visible_radius, self.preload_radius, self.unload_radius, self.max_lod)
    }

    /// The pending-load counter always equals the number of pending loads.
    pub open spec fn wf(&self) -> bool {
        &&& self.spec_chunks().dom().finite()
        &&& self.spec_pending().finite()
        &&& self.spec_metrics().pending_load_tasks == self.spec_pending().len()
    }

    /// Create a manager with the given chunk size and radii (`f32` bits; the
    /// caller clamps the radii into a sane progression first).
    pub fn new(chunk_size: u32, visible_radius: u32, preload_radius: u32, unload_radius: u32) -> (m: Self)
        ensures
            m.wf(),
            m.spec_config() == (chunk_size, visible_radius, preload_radius, unload_radius, 0u8),
            m.spec_chunks() == Map::<u64, Chunk>::empty(),
            m.spec_pending() == Set::<u64>::empty(),
            m.spec_metrics() == crate::metrics::zero_metrics(),
            m.spec_budget() == (StreamingBudget {
                max_io_ms_per_frame: 6,
                max_upload_bytes_per_frame: 5242880usize,
                max_concurrent_tasks: 6,
            }),
    {
        let m = WorldPartitionManager {
            chunk_size,
            visible_radius,
            preload_radius,
            unload_radius,
            max_lod: 0,
            chunks: HashMap::new(),
            budget: StreamingBudget::default(),
            metrics: WorldPartitionMetrics::default(),
            pending_loads: HashSet::new(),
        };
        proof {
            assert(m.pending_loads@ =~= Set::<u64>::empty());
        }
        m
    }

    pub fn chunk_size(&self) -> (r: u32)
        ensures
            r == self.spec_config().0,
    {
        self.chunk_size
    }

    pub fn visible_radius(&self) -> (r: u32)
        ensures
            r == self.spec_config().1,
    {
        self.visible_radius
    }

    pub fn preload_radius(&self) -> (r: u32)
        ensures
            r == self.spec_config().2,
    {
        self.preload_radius
    }

    pub fn unload_radius(&self) -> (r: u32)
        ensures
            r == self.spec_config().3,
    {
        self.unload_radius
    }

    /// Prepare a chunk for streaming and disk load path: a new chunk starts
    /// fresh; an existing one keeps its state and data.
    pub fn upsert_chunk(&mut self, metadata: ChunkMetadata, file_path: String)
        requires
            old(self).wf(),
        ensures
            final(self).wf(),
            final(self).spec_chunks() == old(self).spec_chunks().insert(
                metadata.id.0,
                Chunk {
                    metadata,
                    file_path: Some(file_path),
                    ..(if old(self).spec_chunks().contains_key(metadata.id.0) {
                        old(self).spec_chunks()[metadata.id.0]
                    } else {
                        fresh_chunk(metadata)
                    })
                },
            ),
            final(self).spec_pending() == old(self).spec_pending(),
            final(self).spec_metrics() == old(self).spec_metrics(),
            final(self).spec_budget() == old(self).spec_budget(),
            final(self).spec_config() == old(self).spec_config(),
    {
        let id = metadata.id.0;
        match map_get_mut(&mut self.chunks, id) {
            Some(chunk) => {
                chunk.metadata = metadata;
                chunk.file_path = Some(file_path);
            },
            None => {
                let mut chunk = Chunk::new(metadata);
                chunk.file_path = Some(file_path);
                self.chunks.insert(id, chunk);
            },
        }
    }

    /// Set streaming budget.
    pub fn set_budget(&mut self, budget: StreamingBudget)
        requires
            old(self).wf(),
        ensures
            final(self).wf(),
            final(self).spec_budget() == budget,
            final(self).spec_chunks() == old(self).spec_chunks(),
            final(self).spec_pending() == old(self).spec_pending(),
            final(self).spec_metrics() == old(self).spec_metrics(),
            final(self).spec_config() == old(self).spec_config(),
    {
        self.budget = budget;
    }

    /// Count a new frame (the start of a tick).
    pub fn begin_tick(&mut self)
        requires
            old(self).wf(),
            old(self).spec_metrics().frames < u64::MAX,
        ensures
            final(self).wf(),
            final(self).spec_metrics() == (WorldPartitionMetrics {
                frames: (old(self).spec_metrics().frames + 1) as u64,
                ..old(self).spec_metrics()
            }),
            final(self).spec_chunks() == old(self).spec_chunks(),
            final(self).spec_pending() == old(self).spec_pending(),
            final(self).spec_budget() == old(self).spec_budget(),
            final(self).spec_config() == old(self).spec_config(),
    {
        self.metrics.frames = self.metrics.frames + 1;
    }

    /// Record how long the tick's commit took, in nanoseconds.
    pub fn end_tick(&mut self, elapsed_ns: u64)
        requires
            old(self).wf(),
        ensures
            final(self).wf(),
            final(self).spec_metrics() == (WorldPartitionMetrics {
                last_commit_ns: elapsed_ns,
                ..old(self).spec_metrics()
            }),
            final(self).spec_chunks() == old(self).spec_chunks(),
            final(self).spec_pending() == old(self).spec_pending(),
            final(self).spec_budget() == old(self).spec_budget(),
            final(self).spec_config() == old(self).spec_config(),
    {
        self.metrics.last_commit_ns = elapsed_ns;
    }

    /// Ask for a chunk's load: only for a known chunk that has a file path
    /// and whose load is not pending; the chunk becomes pending.
    fn request_chunk_load(&mut self, chunk_id: ChunkId) -> (r: Option<ChunkLoadRequest>)
        requires
            old(self).pending_loads@.finite(),
        ensures
            final(self).chunks@ == old(self).chunks@,
            final(self).metrics == old(self).metrics,
            final(self).budget == old(self).budget,
            final(self).chunk_size == old(self).chunk_size,
            final(self).visible_radius == old(self).visible_radius,
            final(self).preload_radius == old(self).preload_radius,
            final(self).unload_radius == old(self).unload_radius,
            final(self).max_lod == old(self).max_lod,
            final(self).pending_loads@.finite(),
            ({
                let ok = !old(self).pending_loads@.contains(chunk_id.0) && old(self).chunks@.contains_key(chunk_id.0)
                    && old(self).chunks@[chunk_id.0].file_path is Some;
                &&& ok ==> (r matches Some(req) && req.chunk_id == chunk_id && req.compressed
                    && Some(req.file_path) == old(self).chunks@[chunk_id.0].file_path
                    && final(self).pending_loads@ == old(self).pending_loads@.insert(chunk_id.0))
                &&& !ok ==> r is None && final(self).pending_loads@ == old(self).pending_loads@
            }),
    {
        if !self.pending_loads.contains(&chunk_id.0) {
            match self.chunks.get(&chunk_id.0) {
                Some(chunk) => {
                    match &chunk.file_path {
                        Some(path) => {
                            let req = ChunkLoadRequest {
                                chunk_id,
                                file_path: path.clone(),
                                compressed: true,
                            };
                            self.pending_loads.insert(chunk_id.0);
                            return Some(req);
                        },
                        None => {},
                    }
                },
                None => {},
            }
        }
        None
    }

    /// Apply this tick's verdicts (by raw chunk id) and return the load
    /// requests to send.
    ///
    /// Each chunk with a verdict moves as [`after_verdict`] says: an unloaded
    /// chunk that should load starts loading; a loading or loaded chunk that
    /// should be evicted is evicted (its data dropped, its pending load
    /// forgotten); a loaded chunk becomes visible or stops being visible.
    /// Chunks without a verdict are left alone (an empty map, as when there
    /// is no camera, changes nothing). For the chunks that just started
    /// loading, loads are requested (compressed, from the chunk's file) one
    /// by one while fewer loads than the concurrent-task budget are pending:
    /// a chunk without a file path or with its load already pending is
    /// skipped, and each requested chunk becomes pending. Which of the
    /// started chunks are requested first follows the chunk map's order.
    pub fn evaluate_lod_and_visibility(&mut self, verdicts: &HashMap<u64, ChunkVerdict>) -> (r: Vec<ChunkLoadRequest>)
        requires
            old(self).wf(),
            old(self).spec_metrics().chunks_evicted + old(self).spec_chunks().len() <= u64::MAX,
        ensures
            final(self).wf(),
            forall|i: int| 0 <= i < r@.len() ==> {
                let q = #[trigger] r@[i];
                &&& requestable_ids(old(self).spec_chunks(), verdicts@, old(self).spec_pending()).contains(q.chunk_id.0)
                &&& q.compressed
                &&& Some(q.file_path) == old(self).spec_chunks()[q.chunk_id.0].file_path
            },
            forall|i: int, j: int| 0 <= i < j < r@.len() ==> r@[i].chunk_id != r@[j].chunk_id,
            r@.len() == vstd::math::min(
                requestable_ids(old(self).spec_chunks(), verdicts@, old(self).spec_pending()).len() as int,
                request_room(old(self).spec_pending().len(), old(self).spec_budget().max_concurrent_tasks) as int,
            ),
            final(self).spec_chunks().dom() == old(self).spec_chunks().dom(),
            forall|k: u64| #[trigger] old(self).spec_chunks().contains_key(k) ==> {
                let c = old(self).spec_chunks()[k];
                let n = final(self).spec_chunks()[k];
                if verdicts@.contains_key(k) {
                    let v = verdicts@[k];
                    &&& n == Chunk { load_start_time: n.load_start_time, ..after_verdict(c, v) }
                    &&& starts_load(c.state, v) ==> n.load_start_time is Some
                    &&& !starts_load(c.state, v) ==> n.load_start_time == after_verdict(c, v).load_start_time
                } else {
                    n == c
                }
            },
            forall|k: u64| #[trigger] old(self).spec_chunks().contains_key(k) && verdicts@.contains_key(k) ==> {
                let s = old(self).spec_chunks()[k].state;
                let v = verdicts@[k];
                let t = final(self).spec_chunks()[k].state;
                &&& s == ChunkState::Unloaded && v.should_be_loaded ==> t == ChunkState::Loading
                &&& v.should_be_evicted && s != ChunkState::Unloaded && s != ChunkState::Evicting ==> t == ChunkState::Unloaded
                &&& !v.should_be_evicted && v.should_be_visible && (s == ChunkState::Loaded || s == ChunkState::Visible
                    || s == ChunkState::Hidden) ==> t == ChunkState::Visible
                &&& !v.should_be_evicted && !v.should_be_visible && s == ChunkState::Visible ==> t == ChunkState::Loaded
                &&& !v.should_be_visible || v.should_be_evicted ==> t != ChunkState::Visible
            },
            final(self).spec_pending() == old(self).spec_pending().union(requested_ids(r@)).difference(
                evicted_ids(old(self).spec_chunks(), verdicts@),
            ),
            final(self).spec_metrics() == (WorldPartitionMetrics {
                chunks_evicted: (old(self).spec_metrics().chunks_evicted + evicted_ids(
                    old(self).spec_chunks(),
                    verdicts@,
                ).len()) as u64,
                pending_load_tasks: final(self).spec_pending().len() as usize,
                ..old(self).spec_metrics()
            }),
            final(self).spec_budget() == old(self).spec_budget(),
            final(self).spec_config() == old(self).spec_config(),
    {
        let ghost old_chunks = self.chunks@;
        let ghost vs = verdicts@;
        let ids = map_keys(&self.chunks);
        let mut to_load: Vec<u64> = Vec::new();
        let mut to_evict: Vec<u64> = Vec::new();
        let mut i: usize = 0;
        while i < ids.len()
            invariant
                i <= ids@.len(),
                ids@.to_set() == old_chunks.dom(),
                ids@.no_duplicates(),
                vs == verdicts@,
                self.chunks@.dom() == old_chunks.dom(),
                self.pending_loads@ == old(self).pending_loads@,
                self.metrics == old(self).metrics,
                self.budget == old(self).budget,
                self.chunk_size == old(self).chunk_size,
                self.visible_radius == old(self).visible_radius,
                self.preload_radius == old(self).preload_radius,
                self.unload_radius == old(self).unload_radius,
                self.max_lod == old(self).max_lod,
                forall|k: u64| #[trigger] old_chunks.contains_key(k) ==> {
                    let c = old_chunks[k];
                    let n = self.chunks@[k];
                    if ids@.take(i as int).contains(k) && vs.contains_key(k) {
                        let v = vs[k];
                        if evicts(c.state, v) {
                            n == Chunk { state: ChunkState::Evicting, ..c }
                        } else {
                            &&& n == Chunk { load_start_time: n.load_start_time, ..after_verdict(c, v) }
                            &&& starts_load(c.state, v) ==> n.load_start_time is Some
                            &&& !starts_load(c.state, v) ==> n.load_start_time == c.load_start_time
                        }
                    } else {
                        n == c
                    }
                },
                forall|j: int| 0 <= j < to_load@.len() ==> old_chunks.contains_key(#[trigger] to_load@[j])
                    && self.chunks@[to_load@[j]].state == ChunkState::Loading
                    && ids@.take(i as int).contains(to_load@[j]),
                to_evict@.no_duplicates(),
                to_evict@.to_set() == old_chunks.dom().filter(|k: u64| ids@.take(i as int).contains(k) && vs.contains_key(k) && evicts(old_chunks[k].state, vs[k])),
                to_load@.no_duplicates(),
                to_load@.to_set() == old_chunks.dom().filter(|k: u64| ids@.take(i as int).contains(k) && vs.contains_key(k) && starts_load(old_chunks[k].state, vs[k])),
            decreases ids@.len() - i,
        {
            let id = ids[i];
            proof {
                assert(ids@.to_set().contains(id));
                assert(ids@.take(i + 1) == ids@.take(i as int).push(id));
                assert(!ids@.take(i as int).contains(id)) by {
                    if ids@.take(i as int).contains(id) {
                        let t = choose|t: int| 0 <= t < i && #[trigger] ids@.take(i as int)[t] == id;
                        assert(ids@[t] == ids@[i as int]);
                    }
                }
            }
            let ghost pre_chunks = self.chunks@;
            let ghost pre_evict = to_evict@;
            let ghost pre_load = to_load@;
            match verdicts.get(&id) {
                None => {},
                Some(v) => {
                    let v = *v;
                    let chunk = map_get_mut(&mut self.chunks, id).unwrap();
                    match chunk.state {
                        ChunkState::Unloaded => {
                            if v.should_be_loaded {
                                chunk.begin_loading();
                                to_load.push(id);
                            }
                        },
                        ChunkState::Loading => {
                            if v.should_be_evicted {
                                chunk.begin_evicting();
                                to_evict.push(id);
                            }
                        },
                        ChunkState::Loaded | ChunkState::Hidden | ChunkState::Visible => {
                            chunk.set_visible(v.should_be_visible);
                            if v.should_be_evicted {
                                chunk.begin_evicting();
                                to_evict.push(id);
                            }
                        },
                        _ => {},
                    }
                },
            }
            proof {
                assert forall|k: u64| #[trigger] old_chunks.contains_key(k) implies self.chunks@[k] == (if k == id {
                    self.chunks@[id]
                } else {
                    pre_chunks[k]
                }) by {}
                assert(pre_chunks[id] == old_chunks[id]);
                assert forall|j: int| 0 <= j < to_load@.len() implies old_chunks.contains_key(#[trigger] to_load@[j])
                    && self.chunks@[to_load@[j]].state == ChunkState::Loading
                    && ids@.take(i + 1).contains(to_load@[j]) by {
                    if j < pre_load.len() {
                        assert(to_load@[j] == pre_load[j]);
                        assert(ids@.take(i as int).contains(pre_load[j]));
                        let t = choose|t: int| 0 <= t < i && #[trigger] ids@.take(i as int)[t] == pre_load[j];
                        assert(ids@.take(i + 1)[t] == pre_load[j]);
                    } else {
                        assert(to_load@[j] == id);
                        assert(ids@.take(i + 1)[i as int] == id);
                    }
                }
                let pushed = vs.contains_key(id) && evicts(old_chunks[id].state, vs[id]);
                if pushed {
                    assert(to_evict@ == pre_evict.push(id));
                    pre_evict.lemma_push_to_set_commute(id);
                } else {
                    assert(to_evict@ == pre_evict);
                }
                assert forall|k: u64| #[trigger] ids@.take(i + 1).contains(k) == (ids@.take(i as int).contains(k) || k == id) by {
                    if ids@.take(i as int).contains(k) {
                        let t = choose|t: int| 0 <= t < i && #[trigger] ids@.take(i as int)[t] == k;
                        assert(ids@.take(i + 1)[t] == k);
                    }
                    if k == id {
                        assert(ids@.take(i + 1)[i as int] == k);
                    }
                    if ids@.take(i + 1).contains(k) {
                        let t = choose|t: int| 0 <= t < i + 1 && #[trigger] ids@.take(i + 1)[t] == k;
                        if t < i {
                            assert(ids@.take(i as int)[t] == k);
                        }
                    }
                }
                assert(to_evict@.to_set() =~= old_chunks.dom().filter(|k: u64| ids@.take(i + 1).contains(k) && vs.contains_key(k) && evicts(old_chunks[k].state, vs[k])));
                let loaded = vs.contains_key(id) && starts_load(old_chunks[id].state, vs[id]);
                if loaded {
                    assert(to_load@ == pre_load.push(id));
                    pre_load.lemma_push_to_set_commute(id);
                } else {
                    assert(to_load@ == pre_load);
                }
                assert(to_load@.to_set() =~= old_chunks.dom().filter(|k: u64| ids@.take(i + 1).contains(k) && vs.contains_key(k) && starts_load(old_chunks[k].state, vs[k])));
                assert forall|a: int, b: int| 0 <= a < b < to_load@.len() implies to_load@[a] != to_load@[b] by {
                    if to_load@.len() > pre_load.len() && b == to_load@.len() - 1 {
                        assert(pre_load.to_set().contains(pre_load[a]));
                    }
                }
                assert forall|a: int, b: int| 0 <= a < b < to_evict@.len() implies to_evict@[a] != to_evict@[b] by {
                    if to_evict@.len() > pre_evict.len() && b == to_evict@.len() - 1 {
                        assert(pre_evict.to_set().contains(pre_evict[a]));
                    }
                }
            }
            i = i + 1;
        }
        proof {
            assert(ids@.take(ids@.len() as int) == ids@);
        }
        let ghost mid_chunks = self.chunks@;
        let ghost pend0 = old(self).pending_loads@;
        let ghost req_set = requestable_ids(old_chunks, vs, pend0);
        proof {
            assert(ids@.take(ids@.len() as int) == ids@);
            assert(to_load@.to_set() =~= started_ids(old_chunks, vs));
            assert forall|k: u64| #[trigger] old_chunks.contains_key(k) implies mid_chunks[k].file_path == old_chunks[k].file_path by {}
        }
        // Request loads within the concurrent-task budget.
        let mut requests: Vec<ChunkLoadRequest> = Vec::new();
        let mut j: usize = 0;
        while j < to_load.len() && self.pending_loads.len() < self.budget.max_concurrent_tasks
            invariant
                j <= to_load@.len(),
                self.chunks@ == mid_chunks,
                self.metrics == old(self).metrics,
                self.budget == old(self).budget,
                self.chunk_size == old(self).chunk_size,
                self.visible_radius == old(self).visible_radius,
                self.preload_radius == old(self).preload_radius,
                self.unload_radius == old(self).unload_radius,
                self.max_lod == old(self).max_lod,
                pend0 == old(self).pending_loads@,
                pend0.finite(),
                req_set == requestable_ids(old_chunks, vs, pend0),
                to_load@.no_duplicates(),
                to_load@.to_set() == started_ids(old_chunks, vs),
                forall|k: u64| #[trigger] old_chunks.contains_key(k) ==> mid_chunks[k].file_path == old_chunks[k].file_path,
                mid_chunks.dom() == old_chunks.dom(),
                forall|i: int| 0 <= i < requests@.len() ==> {
                    let q = #[trigger] requests@[i];
                    &&& req_set.contains(q.chunk_id.0)
                    &&& q.compressed
                    &&& Some(q.file_path) == old_chunks[q.chunk_id.0].file_path
                },
                forall|a: int, b: int| 0 <= a < b < requests@.len() ==> requests@[a].chunk_id != requests@[b].chunk_id,
                requested_ids(requests@) == req_set.filter(|k: u64| to_load@.take(j as int).contains(k)),
                self.pending_loads@ == pend0.union(requested_ids(requests@)),
                self.pending_loads@.len() == pend0.len() + requests@.len(),
                pend0.len() < self.budget.max_concurrent_tasks ==> requests@.len() <= self.budget.max_concurrent_tasks - pend0.len(),
                pend0.len() >= self.budget.max_concurrent_tasks ==> requests@.len() == 0,
            decreases to_load@.len() - j,
        {
            let id = to_load[j];
            let ghost pre_req = requests@;
            let ghost pre_pend = self.pending_loads@;
            proof {
                assert(to_load@.to_set().contains(id));
                assert(to_load@.take(j + 1) == to_load@.take(j as int).push(id));
                assert(!to_load@.take(j as int).contains(id)) by {
                    if to_load@.take(j as int).contains(id) {
                        let t = choose|t: int| 0 <= t < j && #[trigger] to_load@.take(j as int)[t] == id;
                        assert(to_load@[t] == to_load@[j as int]);
                    }
                }
                assert forall|k: u64| #[trigger] to_load@.take(j + 1).contains(k) == (to_load@.take(j as int).contains(k) || k == id) by {
                    if to_load@.take(j as int).contains(k) {
                        let t = choose|t: int| 0 <= t < j && #[trigger] to_load@.take(j as int)[t] == k;
                        assert(to_load@.take(j + 1)[t] == k);
                    }
                    if k == id {
                        assert(to_load@.take(j + 1)[j as int] == k);
                    }
                    if to_load@.take(j + 1).contains(k) {
                        let t = choose|t: int| 0 <= t < j + 1 && #[trigger] to_load@.take(j + 1)[t] == k;
                        if t < j {
                            assert(to_load@.take(j as int)[t] == k);
                        }
                    }
                }
                assert(!requested_ids(pre_req).contains(id)) by {
                    if requested_ids(pre_req).contains(id) {
                        assert(req_set.filter(|k: u64| to_load@.take(j as int).contains(k)).contains(id));
                    }
                }
                assert(started_ids(old_chunks, vs).contains(id));
                assert(pre_pend.contains(id) == pend0.contains(id));
            }
            let req = self.request_chunk_load(ChunkId(id));
            match req {
                Some(q) => {
                    requests.push(q);
                    proof {
                        assert(req_set.contains(id));
                        assert(requested_ids(requests@) =~= requested_ids(pre_req).insert(id)) by {
                            assert forall|k: u64| requested_ids(requests@).contains(k) implies requested_ids(pre_req).insert(k).contains(k) by {}
                            assert forall|k: u64| requested_ids(requests@).contains(k) <==> (requested_ids(pre_req).contains(k) || k == id) by {
                                if requested_ids(pre_req).contains(k) {
                                    let i = choose|i: int| 0 <= i < pre_req.len() && (#[trigger] pre_req[i]).chunk_id.0 == k;
                                    assert(requests@[i] == pre_req[i]);
                                }
                                if k == id {
                                    assert(requests@[pre_req.len() as int].chunk_id.0 == k);
                                }
                                if requested_ids(requests@).contains(k) {
                                    let i = choose|i: int| 0 <= i < requests@.len() && (#[trigger] requests@[i]).chunk_id.0 == k;
                                    if i < pre_req.len() {
                                        assert(pre_req[i] == requests@[i]);
                                    }
                                }
                            }
                        }
                        assert(requested_ids(requests@) =~= req_set.filter(|k: u64| to_load@.take(j + 1).contains(k)));
                        assert(self.pending_loads@ =~= pend0.union(requested_ids(requests@)));
                        assert(!pre_pend.contains(id));
                        assert forall|a: int, b: int| 0 <= a < b < requests@.len() implies requests@[a].chunk_id != requests@[b].chunk_id by {
                            if b == requests@.len() - 1 {
                                if requests@[a].chunk_id == requests@[b].chunk_id {
                                    assert(pre_req[a].chunk_id.0 == id);
                                    assert(requested_ids(pre_req).contains(id));
                                }
                            }
                        }
                    }
                },
                None => {
                    proof {
                        assert(!req_set.contains(id));
                        assert(requested_ids(requests@) =~= req_set.filter(|k: u64| to_load@.take(j + 1).contains(k)));
                    }
                },
            }
            j = j + 1;
        }
        let ghost mid_pending = self.pending_loads@;
        proof {
            let got = req_set.filter(|k: u64| to_load@.take(j as int).contains(k));
            // requests are distinct, so their number is that of their ids
            let ks = requests@.map_values(|q: ChunkLoadRequest| q.chunk_id.0);
            assert(ks.no_duplicates()) by {
                assert forall|a: int, b: int| 0 <= a < b < ks.len() implies ks[a] != ks[b] by {
                    assert(requests@[a].chunk_id != requests@[b].chunk_id);
                }
            }
            assert(ks.to_set() =~= requested_ids(requests@)) by {
                assert forall|k: u64| ks.to_set().contains(k) <==> requested_ids(requests@).contains(k) by {
                    if requested_ids(requests@).contains(k) {
                        let i = choose|i: int| 0 <= i < requests@.len() && (#[trigger] requests@[i]).chunk_id.0 == k;
                        assert(ks[i] == k);
                    }
                }
            }
            ks.unique_seq_to_set();
            assert(req_set.finite()) by {
                vstd::set_lib::lemma_len_subset(started_ids(old_chunks, vs), old_chunks.dom());
            }
            vstd::set_lib::lemma_len_subset(got, req_set);
            if j == to_load@.len() {
                assert(to_load@.take(j as int) == to_load@);
                assert(got =~= req_set) by {
                    assert forall|k: u64| req_set.contains(k) implies to_load@.contains(k) by {
                        assert(to_load@.to_set().contains(k));
                    }
                }
            }
        }
        // Complete the evictions.
        proof {
            assert(to_evict@.to_set() =~= evicted_ids(old_chunks, vs)) by {
                assert(ids@.take(ids@.len() as int) == ids@);
            }
            to_evict@.unique_seq_to_set();
            vstd::set_lib::lemma_len_subset(evicted_ids(old_chunks, vs), old_chunks.dom());
        }
        let mut e: usize = 0;
        while e < to_evict.len()
            invariant
                e <= to_evict@.len(),
                to_evict@.no_duplicates(),
                to_evict@.to_set() == evicted_ids(old_chunks, vs),
                self.chunks@.dom() == old_chunks.dom(),
                forall|k: u64| #[trigger] old_chunks.contains_key(k) ==> self.chunks@[k] == (if to_evict@.take(e as int).contains(k) {
                    evicted_chunk(mid_chunks[k])
                } else {
                    mid_chunks[k]
                }),
                self.pending_loads@ == mid_pending.difference(to_evict@.take(e as int).to_set()),
                self.pending_loads@.finite(),
                self.metrics == (WorldPartitionMetrics {
                    chunks_evicted: (old(self).metrics.chunks_evicted + e) as u64,
                    ..old(self).metrics
                }),
                old(self).metrics.chunks_evicted + old_chunks.len() <= u64::MAX,
                to_evict@.len() <= old_chunks.len(),
                self.budget == old(self).budget,
                self.chunk_size == old(self).chunk_size,
                self.visible_radius == old(self).visible_radius,
                self.preload_radius == old(self).preload_radius,
                self.unload_radius == old(self).unload_radius,
                self.max_lod == old(self).max_lod,
            decreases to_evict@.len() - e,
        {
            let id = to_evict[e];
            let ghost pre_chunks = self.chunks@;
            let ghost pre_pending = self.pending_loads@;
            proof {
                assert(to_evict@.to_set().contains(id));
                assert(to_evict@.take(e + 1) == to_evict@.take(e as int).push(id));
                to_evict@.take(e as int).lemma_push_to_set_commute(id);
                assert(!to_evict@.take(e as int).contains(id)) by {
                    if to_evict@.take(e as int).contains(id) {
                        let t = choose|t: int| 0 <= t < e && #[trigger] to_evict@.take(e as int)[t] == id;
                        assert(to_evict@[t] == to_evict@[e as int]);
                    }
                }
            }
            proof {
                assert(evicted_ids(old_chunks, vs).contains(id));
                assert(self.chunks@[id] == mid_chunks[id]);
            }
            match map_get_mut(&mut self.chunks, id) {
                Some(chunk) => {
                    chunk.finish_evicting();
                    self.metrics.chunks_evicted = self.metrics.chunks_evicted + 1;
                    self.pending_loads.remove(&id);
                },
                None => {},
            }
            proof {
                assert(self.pending_loads@ =~= mid_pending.difference(to_evict@.take(e + 1).to_set()));
                assert forall|k: u64| #[trigger] to_evict@.take(e + 1).contains(k) == (to_evict@.take(e as int).contains(k) || k == id) by {
                    if to_evict@.take(e as int).contains(k) {
                        let t = choose|t: int| 0 <= t < e && #[trigger] to_evict@.take(e as int)[t] == k;
                        assert(to_evict@.take(e + 1)[t] == k);
                    }
                    if k == id {
                        assert(to_evict@.take(e + 1)[e as int] == k);
                    }
                    if to_evict@.take(e + 1).contains(k) {
                        let t = choose|t: int| 0 <= t < e + 1 && #[trigger] to_evict@.take(e + 1)[t] == k;
                        if t < e {
                            assert(to_evict@.take(e as int)[t] == k);
                        }
                    }
                }
            }
            e = e + 1;
        }
        proof {
            assert(to_evict@.take(to_evict@.len() as int) == to_evict@);
            to_evict@.unique_seq_to_set();
            assert(evicted_ids(old_chunks, vs) =~= old_chunks.dom().filter(|k: u64| ids@.contains(k) && vs.contains_key(k) && evicts(old_chunks[k].state, vs[k])));
        }
        self.metrics.pending_load_tasks = self.pending_loads.len();
        proof {
            assert forall|k: u64| #[trigger] old_chunks.contains_key(k) implies {
                let c = old_chunks[k];
                let n = self.chunks@[k];
                if vs.contains_key(k) {
                    let v = vs[k];
                    &&& n == Chunk { load_start_time: n.load_start_time, ..after_verdict(c, v) }
                    &&& starts_load(c.state, v) ==> n.load_start_time is Some
                    &&& !starts_load(c.state, v) ==> n.load_start_time == after_verdict(c, v).load_start_time
                } else {
                    n == c
                }
            } by {
                if vs.contains_key(k) {
                    lemma_verdict_states(old_chunks[k], vs[k]);
                }
                if vs.contains_key(k) && evicts(old_chunks[k].state, vs[k]) {
                    assert(evicted_ids(old_chunks, vs).contains(k));
                    assert(to_evict@.to_set().contains(k));
                } else {
                    assert(!evicted_ids(old_chunks, vs).contains(k));
                    assert(!to_evict@.contains(k)) by {
                        if to_evict@.contains(k) {
                            assert(to_evict@.to_set().contains(k));
                        }
                    }
                }
            }
        }
        requests
    }

    /// Apply finished loads in order: a successful load caches the bytes and
    /// marks a known chunk `Loaded`; a failure marks it `Unloaded` (keeping
    /// what it cached); results for unknown chunks only count. Every result's
    /// chunk stops being pending.
    pub fn process_io_results(&mut self, results: Vec<ChunkLoadResult>)
        requires
            old(self).wf(),
            old(self).spec_metrics().chunks_loaded + results@.len() <= u64::MAX,
            old(self).spec_metrics().chunks_failed + results@.len() <= u64::MAX,
        ensures
            final(self).wf(),
            final(self).spec_chunks() == after_results(old(self).spec_chunks(), results@),
            final(self).spec_pending() == old(self).spec_pending().difference(result_ids(results@)),
            final(self).spec_metrics() == (WorldPartitionMetrics {
                chunks_loaded: (old(self).spec_metrics().chunks_loaded + loads_counted(
                    old(self).spec_chunks().dom(),
                    results@,
                )) as u64,
                chunks_failed: (old(self).spec_metrics().chunks_failed + failures_counted(results@)) as u64,
                pending_load_tasks: final(self).spec_pending().len() as usize,
                ..old(self).spec_metrics()
            }),
            final(self).spec_budget() == old(self).spec_budget(),
            final(self).spec_config() == old(self).spec_config(),
    {
        let ghost rs = results@;
        let ghost old_chunks = self.chunks@;
        for r in iter: results.into_iter()
            invariant
                rs == iter.seq(),
                self.chunks@ == after_results(old_chunks, rs.take(iter.index() as int)),
                self.chunks@.dom() == old_chunks.dom(),
                self.pending_loads@ == old(self).pending_loads@.difference(result_ids(rs.take(iter.index() as int))),
                self.pending_loads@.finite(),
                self.metrics == (WorldPartitionMetrics {
                    chunks_loaded: (old(self).metrics.chunks_loaded + loads_counted(old_chunks.dom(), rs.take(iter.index() as int))) as u64,
                    chunks_failed: (old(self).metrics.chunks_failed + failures_counted(rs.take(iter.index() as int))) as u64,
                    ..old(self).metrics
                }),
                loads_counted(old_chunks.dom(), rs.take(iter.index() as int)) <= iter.index(),
                failures_counted(rs.take(iter.index() as int)) <= iter.index(),
                old(self).metrics.chunks_loaded + rs.len() <= u64::MAX,
                old(self).metrics.chunks_failed + rs.len() <= u64::MAX,
                self.budget == old(self).budget,
                self.chunk_size == old(self).chunk_size,
                self.visible_radius == old(self).visible_radius,
                self.preload_radius == old(self).preload_radius,
                self.unload_radius == old(self).unload_radius,
                self.max_lod == old(self).max_lod,
        {
            let ghost i = iter.index();
            proof {
                assert(rs.take(i + 1).drop_last() == rs.take(iter.index() as int));
                assert(rs.take(i + 1).last() == r);
                assert(result_ids(rs.take(i + 1)) =~= result_ids(rs.take(iter.index() as int)).insert(r.chunk_id.0)) by {
                    assert forall|k: u64| result_ids(rs.take(i + 1)).contains(k) implies result_ids(rs.take(iter.index() as int)).insert(r.chunk_id.0).contains(k) by {
                        let t = choose|t: int| 0 <= t < i + 1 && (#[trigger] rs.take(i + 1)[t]).chunk_id.0 == k;
                        if t < i {
                            assert(rs.take(iter.index() as int)[t].chunk_id.0 == k);
                        }
                    }
                    assert forall|k: u64| result_ids(rs.take(iter.index() as int)).insert(r.chunk_id.0).contains(k) implies result_ids(rs.take(i + 1)).contains(k) by {
                        if k == r.chunk_id.0 {
                            assert(rs.take(i + 1)[i as int].chunk_id.0 == k);
                        } else {
                            let t = choose|t: int| 0 <= t < i && (#[trigger] rs.take(iter.index() as int)[t]).chunk_id.0 == k;
                            assert(rs.take(i + 1)[t].chunk_id.0 == k);
                        }
                    }
                }
            }
            let id = r.chunk_id.0;
            self.pending_loads.remove(&id);
            match r.data {
                Ok(data) => {
                    match map_get_mut(&mut self.chunks, id) {
                        Some(chunk) => {
                            chunk.finish_loading(data);
                            chunk.state = ChunkState::Loaded;
                            self.metrics.chunks_loaded = self.metrics.chunks_loaded + 1;
                        },
                        None => {},
                    }
                },
                Err(_) => {
                    self.metrics.chunks_failed = self.metrics.chunks_failed + 1;
                    match map_get_mut(&mut self.chunks, id) {
                        Some(chunk) => {
                            chunk.state = ChunkState::Unloaded;
                        },
                        None => {},
                    }
                },
            }
            proof {
                assert(self.pending_loads@ =~= old(self).pending_loads@.difference(result_ids(rs.take(i + 1))));
            }
        }
        proof {
            assert(rs.take(rs.len() as int) == rs);
        }
        self.metrics.pending_load_tasks = self.pending_loads.len();
    }

    /// Get all currently visible chunk ids, each once.
    pub fn visible_chunk_ids(&self) -> (r: Vec<ChunkId>)
        ensures
            forall|i: int| 0 <= i < r@.len() ==> self.spec_chunks().contains_key(#[trigger] r@[i].0)
                && self.spec_chunks()[r@[i].0].state == ChunkState::Visible,
            forall|k: u64| #[trigger] self.spec_chunks().contains_key(k) && self.spec_chunks()[k].state
                == ChunkState::Visible ==> exists|i: int| 0 <= i < r@.len() && r@[i].0 == k,
            forall|i: int, j: int| 0 <= i < j < r@.len() ==> r@[i] != r@[j],
    {
        let ks = map_keys(&self.chunks);
        let mut r: Vec<ChunkId> = Vec::new();
        let mut i: usize = 0;
        while i < ks.len()
            invariant
                i <= ks@.len(),
                ks@.to_set() == self.chunks@.dom(),
                ks@.no_duplicates(),
                forall|t: int| 0 <= t < r@.len() ==> self.chunks@.contains_key(#[trigger] r@[t].0)
                    && self.chunks@[r@[t].0].state == ChunkState::Visible && ks@.take(i as int).contains(r@[t].0),
                forall|k: u64| #[trigger] ks@.take(i as int).contains(k) && self.chunks@[k].state == ChunkState::Visible
                    ==> exists|t: int| 0 <= t < r@.len() && r@[t].0 == k,
                forall|a: int, b: int| 0 <= a < b < r@.len() ==> r@[a] != r@[b],
            decreases ks@.len() - i,
        {
            let k = ks[i];
            proof {
                assert(ks@.to_set().contains(k));
                assert(ks@.take(i + 1) == ks@.take(i as int).push(k));
                assert(!ks@.take(i as int).contains(k)) by {
                    if ks@.take(i as int).contains(k) {
                        let t = choose|t: int| 0 <= t < i && #[trigger] ks@.take(i as int)[t] == k;
                        assert(ks@[t] == ks@[i as int]);
                    }
                }
            }
            let ghost r0 = r@;
            proof {
                assert forall|t: int| 0 <= t < r0.len() implies r0[t].0 != k by {
                    assert(ks@.take(i as int).contains(r0[t].0));
                }
            }
            let c = self.chunks.get(&k).unwrap();
            if c.is_visible() {
                r.push(ChunkId(k));
            }
            proof {
                assert forall|t: int| 0 <= t < r@.len() implies self.chunks@.contains_key(#[trigger] r@[t].0)
                    && self.chunks@[r@[t].0].state == ChunkState::Visible && ks@.take(i + 1).contains(r@[t].0) by {
                    if t < r0.len() {
                        let u = choose|u: int| 0 <= u < i && #[trigger] ks@.take(i as int)[u] == r@[t].0;
                        assert(ks@.take(i + 1)[u] == r@[t].0);
                    } else {
                        assert(ks@.take(i + 1)[i as int] == k);
                    }
                }
                assert forall|x: u64| #[trigger] ks@.take(i + 1).contains(x) && self.chunks@[x].state == ChunkState::Visible
                    implies exists|t: int| 0 <= t < r@.len() && r@[t].0 == x by {
                    if x != k {
                        let u = choose|u: int| 0 <= u < i + 1 && #[trigger] ks@.take(i + 1)[u] == x;
                        assert(u != i);
                        assert(ks@.take(i as int)[u] == x);
                        assert(ks@.take(i as int).contains(x));
                        let t = choose|t: int| 0 <= t < r0.len() && (#[trigger] r0[t]).0 == x;
                        assert(r@[t] == r0[t]);
                    } else {
                        assert(r@[r@.len() - 1].0 == x);
                    }
                }
            }
            i = i + 1;
        }
        proof {
            assert(ks@.take(ks@.len() as int) == ks@);
            assert forall|k: u64| #[trigger] self.spec_chunks().contains_key(k) && self.spec_chunks()[k].state
                == ChunkState::Visible implies exists|t: int| 0 <= t < r@.len() && r@[t].0 == k by {
                assert(ks@.to_set().contains(k));
                assert(ks@.take(ks@.len() as int).contains(k));
            }
        }
        r
    }

    /// Get a metric snapshot.
    pub fn metrics(&self) -> (m: WorldPartitionMetrics)
        ensures
            m == self.spec_metrics(),
    {
        self.metrics
    }

    pub fn budget(&self) -> (b: StreamingBudget)
        ensures
            b == self.spec_budget(),
    {
        self.budget
    }

    /// The chunk with this id, if known.
    pub fn chunk(&self, id: ChunkId) -> (r: Option<&Chunk>)
        ensures
            r == (if self.spec_chunks().contains_key(id.0) {
                Some(&self.spec_chunks()[id.0])
            } else {
                None
            }),
    {
        self.chunks.get(&id.0)
    }

    /// What flushing a chunk to disk writes and where: a fresh `ChunkData` of
    /// the chunk's metadata, and the chunk's file path if one is set. Fails
    /// with `ChunkNotFound` for an unknown id.
    pub fn chunk_flush_payload(&self, chunk_id: ChunkId) -> (r: Result<(ChunkData, Option<String>), ChunkError>)
        ensures
            !self.spec_chunks().contains_key(chunk_id.0) ==> (r matches Err(ChunkError::ChunkNotFound(i))
                && i == chunk_id),
            self.spec_chunks().contains_key(chunk_id.0) ==> (r matches Ok((d, p)) && {
                let c = self.spec_chunks()[chunk_id.0];
                &&& d.metadata == c.metadata
                &&& d.version == CHUNK_DATA_VERSION
                &&& d.object_data@ == Seq::<u8>::empty()
                &&& d.mesh_data is None
                &&& d.texture_data is None
                &&& p == c.file_path
            }),
    {
        match self.chunks.get(&chunk_id.0) {
            Some(c) => {
                let data = ChunkData::new(c.metadata);
                let path = match &c.file_path {
                    Some(p) => Some(p.clone()),
                    None => None,
                };
                Ok((data, path))
            },
            None => Err(ChunkError::ChunkNotFound(chunk_id)),
        }
    }

    /// All known chunk ids, each once.
    pub fn chunk_ids(&self) -> (r: Vec<ChunkId>)
        ensures
            r@.len() == self.spec_chunks().dom().len(),
            forall|i: int| 0 <= i < r@.len() ==> self.spec_chunks().contains_key(#[trigger] r@[i].0),
            forall|i: int, j: int| 0 <= i < j < r@.len() ==> r@[i] != r@[j],
    {
        let ks = map_keys(&self.chunks);
        let mut r: Vec<ChunkId> = Vec::new();
        let mut i: usize = 0;
        while i < ks.len()
            invariant
                i <= ks@.len(),
                r@.len() == i,
                forall|t: int| 0 <= t < i ==> #[trigger] r@[t].0 == ks@[t],
            decreases ks@.len() - i,
        {
            r.push(ChunkId(ks[i]));
            i = i + 1;
        }
        proof {
            assert forall|t: int| 0 <= t < r@.len() implies self.spec_chunks().contains_key(#[trigger] r@[t].0) by {
                assert(ks@.to_set().contains(ks@[t]));
            }
            assert forall|a: int, b: int| 0 <= a < b < r@.len() implies r@[a] != r@[b] by {
                assert(r@[a].0 == ks@[a] && r@[b].0 == ks@[b]);
            }
        }
        r
    }
}

/// Applying load results never adds or removes chunks.
pub proof fn lemma_after_results_dom(chunks: Map<u64, Chunk>, rs: Seq<ChunkLoadResult>)
    ensures
        after_results(chunks, rs).dom() == chunks.dom(),
    decreases rs.len(),
{
    if rs.len() > 0 {
        lemma_after_results_dom(chunks, rs.drop_last());
        let m = after_results(chunks, rs.drop_last());
        if m.contains_key(rs.last().chunk_id.0) {
            assert(m.insert(rs.last().chunk_id.0, after_result(m[rs.last().chunk_id.0], rs.last().data)).dom() =~= m.dom());
        }
    }
}

} // verus!
