//! Render view graph — what each frame's views are made of.
//!
//! Per frame the orchestrator decides which cameras produce a view (those
//! active and of a kind that renders in the current mode), in which order
//! they are drawn (by priority, lowest first), and which entities are
//! candidates for each view's visibility test: geometry from active cells
//! only, plus lights from every cell since a light's range reaches across
//! cell boundaries. The visibility test itself is real-valued and is the
//! caller's.
use vstd::prelude::*;
use crate::camera::{CameraId, CameraKind, CameraRegistry, StratumCamera};
use crate::entity::{EntityId, EntityStore};
use crate::level::Level;
use crate::mode::SimulationMode;
use crate::partition::{entities_of, lemma_concat_contains, lemma_entities_of_members, GridChunk, GridChunkState};

verus! {

/// Whether a camera of `kind` produces a render view in `mode`: editor
/// cameras in Editor mode, game cameras in Game mode.
pub open spec fn renders_in(mode: SimulationMode, kind: CameraKind) -> bool {
    match (mode, kind) {
        (SimulationMode::Editor, CameraKind::EditorPerspective) => true,
        (SimulationMode::Editor, CameraKind::EditorOrthographic) => true,
        (SimulationMode::Editor, CameraKind::GameCamera { .. }) => false,
        (SimulationMode::Game, CameraKind::GameCamera { .. }) => true,
        (SimulationMode::Game, _) => false,
    }
}

/// Decide whether a camera of `kind` produces a render view in `mode`.
pub fn camera_active_in_mode(mode: &SimulationMode, kind: &CameraKind) -> (b: bool)
    ensures
        b == renders_in(*mode, *kind),
{
    match (mode, kind) {
        (SimulationMode::Editor, CameraKind::EditorPerspective) => true,
        (SimulationMode::Editor, CameraKind::EditorOrthographic) => true,
        (SimulationMode::Editor, CameraKind::GameCamera { .. }) => false,
        (SimulationMode::Game, CameraKind::GameCamera { .. }) => true,
        (SimulationMode::Game, _) => false,
    }
}

/// Whether the registered camera `k` produces a view in `mode`.
pub open spec fn makes_view(cams: Map<u64, StratumCamera>, mode: SimulationMode, k: u64) -> bool {
    cams.contains_key(k) && cams[k].active && renders_in(mode, cams[k].kind)
}

/// `r` lists each camera that produces a view in `mode` exactly once, by
/// ascending priority.
pub open spec fn is_view_order(cams: Map<u64, StratumCamera>, mode: SimulationMode, r: Seq<CameraId>) -> bool {
    &&& forall|i: int| 0 <= i < r.len() ==> makes_view(cams, mode, #[trigger] r[i].0)
    &&& forall|k: u64| makes_view(cams, mode, k) ==> exists|i: int| 0 <= i < r.len() && #[trigger] r[i].0 == k
    &&& forall|i: int, j: int| 0 <= i < j < r.len() ==> r[i] != r[j]
    &&& forall|i: int, j: int| 0 <= i < j < r.len() ==> cams[r[i].0].priority <= cams[r[j].0].priority
}

/// The cameras that produce a view this frame, ordered by priority (lowest
/// first; equal priorities keep the registry's iteration order).
pub fn ordered_view_cameras(mode: &SimulationMode, cameras: &CameraRegistry<StratumCamera>) -> (r: Vec<CameraId>)
    ensures
        forall|i: int| 0 <= i < r@.len() ==> makes_view(cameras.spec_cameras(), *mode, #[trigger] r@[i].0),
        forall|k: u64| makes_view(cameras.spec_cameras(), *mode, k) ==> exists|i: int| 0 <= i < r@.len() && #[trigger] r@[i].0 == k,
        forall|i: int, j: int| 0 <= i < j < r@.len() ==> r@[i] != r@[j],
        forall|i: int, j: int| 0 <= i < j < r@.len() ==> cameras.spec_cameras()[r@[i].0].priority
            <= cameras.spec_cameras()[r@[j].0].priority,
{
    let ghost cams = cameras.spec_cameras();
    let ids = cameras.camera_ids();
    let mut out: Vec<(CameraId, i32)> = Vec::new();
    // src[t]: where out[t] came from in ids; dst[u]: where ids[u] went in out
    let ghost mut src: Seq<int> = Seq::empty();
    let ghost mut dst: Seq<int> = Seq::empty();
    let mut i: usize = 0;
    while i < ids.len()
        invariant
            i <= ids@.len(),
            cams == cameras.spec_cameras(),
            forall|a: int, b: int| 0 <= a < b < ids@.len() ==> ids@[a] != ids@[b],
            forall|t: int| 0 <= t < ids@.len() ==> cams.contains_key(#[trigger] ids@[t].0),
            forall|k: u64| cams.contains_key(k) ==> exists|t: int| 0 <= t < ids@.len() && #[trigger] ids@[t].0 == k,
            src.len() == out@.len(),
            dst.len() == i,
            forall|t: int| 0 <= t < out@.len() ==> 0 <= #[trigger] src[t] < i && out@[t].0 == ids@[src[t]]
                && makes_view(cams, *mode, out@[t].0.0) && out@[t].1 == cams[out@[t].0.0].priority,
            forall|a: int, b: int| 0 <= a < b < out@.len() ==> src[a] != src[b],
            forall|u: int| 0 <= u < i && makes_view(cams, *mode, ids@[u].0) ==> 0 <= #[trigger] dst[u] < out@.len()
                && out@[dst[u]].0 == ids@[u],
            forall|a: int, b: int| 0 <= a < b < out@.len() ==> out@[a].1 <= out@[b].1,
        decreases ids@.len() - i,
    {
        let id = ids[i];
        let cam = cameras.get_camera(id).unwrap();
        if cam.active && camera_active_in_mode(mode, &cam.kind) {
            let p = cam.priority;
            let ghost old_out = out@;
            let ghost old_src = src;
            let ghost old_dst = dst;
            let pos = insert_by_priority(&mut out, id, p);
            proof {
                src = old_src.insert(pos as int, i as int);
                dst = Seq::new((i + 1) as nat, |u: int| if u == i {
                    pos as int
                } else if old_dst[u] >= pos {
                    old_dst[u] + 1
                } else {
                    old_dst[u]
                });
                assert forall|t: int| 0 <= t < out@.len() implies 0 <= #[trigger] src[t] < i + 1 && out@[t].0 == ids@[src[t]]
                    && makes_view(cams, *mode, out@[t].0.0) && out@[t].1 == cams[out@[t].0.0].priority by {
                    if t < pos {
                        assert(out@[t] == old_out[t] && src[t] == old_src[t]);
                    } else if t > pos {
                        assert(out@[t] == old_out[t - 1] && src[t] == old_src[t - 1]);
                    } else {
                        assert(*cam == cams[id.0]);
                        assert(out@[t] == (id, p));
                    }
                }
                assert forall|a: int, b: int| 0 <= a < b < out@.len() implies src[a] != src[b] by {
                    if a < pos {
                        assert(src[a] == old_src[a]);
                    } else if a > pos {
                        assert(src[a] == old_src[a - 1]);
                    }
                    if b < pos {
                        assert(src[b] == old_src[b]);
                    } else if b > pos {
                        assert(src[b] == old_src[b - 1]);
                    }
                }
                assert forall|u: int| 0 <= u < i + 1 && makes_view(cams, *mode, ids@[u].0) implies 0 <= #[trigger] dst[u] < out@.len()
                    && out@[dst[u]].0 == ids@[u] by {
                    if u < i {
                        let d = old_dst[u];
                        if d < pos {
                            assert(out@[d] == old_out[d]);
                        } else {
                            assert(out@[d + 1] == old_out[d]);
                        }
                    }
                }
            }
        } else {
            proof {
                let old_dst = dst;
                dst = dst.push(0);
                assert forall|u: int| 0 <= u < i + 1 && makes_view(cams, *mode, ids@[u].0) implies 0 <= #[trigger] dst[u] < out@.len()
                    && out@[dst[u]].0 == ids@[u] by {
                    if u < i {
                        assert(dst[u] == old_dst[u]);
                    }
                }
            }
        }
        i = i + 1;
    }
    let mut r: Vec<CameraId> = Vec::new();
    let mut j: usize = 0;
    while j < out.len()
        invariant
            j <= out@.len(),
            r@.len() == j,
            forall|t: int| 0 <= t < j ==> #[trigger] r@[t] == out@[t].0,
        decreases out@.len() - j,
    {
        r.push(out[j].0);
        j = j + 1;
    }
    proof {
        assert forall|k: u64| makes_view(cameras.spec_cameras(), *mode, k) implies exists|t: int| 0 <= t < r@.len() && #[trigger] r@[t].0 == k by {
            let u = choose|u: int| 0 <= u < ids@.len() && #[trigger] ids@[u].0 == k;
            let t = dst[u];
            assert(r@[t] == out@[t].0);
        }
        assert forall|a: int, b: int| 0 <= a < b < r@.len() implies cameras.spec_cameras()[r@[a].0].priority
            <= cameras.spec_cameras()[r@[b].0].priority by {
            assert(r@[a] == out@[a].0 && r@[b] == out@[b].0);
            assert(0 <= src[a] && 0 <= src[b]);
        }
        assert forall|t: int| 0 <= t < r@.len() implies makes_view(cameras.spec_cameras(), *mode, #[trigger] r@[t].0) by {
            assert(r@[t] == out@[t].0);
            assert(0 <= src[t]);
        }
        assert forall|a: int, b: int| 0 <= a < b < r@.len() implies r@[a] != r@[b] by {
            assert(r@[a] == out@[a].0 && r@[b] == out@[b].0);
            assert(src[a] != src[b]);
            if src[a] < src[b] {
                assert(ids@[src[a]] != ids@[src[b]]);
            } else {
                assert(ids@[src[b]] != ids@[src[a]]);
            }
        }
    }
    r
}

/// Insert `(id, p)` after every entry of priority at most `p`, keeping the
/// entries ordered by priority; returns where it went.
fn insert_by_priority(out: &mut Vec<(CameraId, i32)>, id: CameraId, p: i32) -> (pos: usize)
    requires
        forall|a: int, b: int| 0 <= a < b < old(out)@.len() ==> old(out)@[a].1 <= old(out)@[b].1,
    ensures
        pos <= old(out)@.len(),
        final(out)@ == old(out)@.insert(pos as int, (id, p)),
        forall|a: int, b: int| 0 <= a < b < final(out)@.len() ==> final(out)@[a].1 <= final(out)@[b].1,
{
    let mut pos: usize = 0;
    while pos < out.len() && out[pos].1 <= p
        invariant
            pos <= out@.len(),
            forall|t: int| 0 <= t < pos ==> out@[t].1 <= p,
        decreases out@.len() - pos,
    {
        pos = pos + 1;
    }
    let ghost old_out = out@;
    proof {
        assert forall|t: int| pos <= t < old_out.len() implies old_out[t].1 > p by {
            assert(old_out[pos as int].1 > p);
        }
    }
    out.insert(pos, (id, p));
    proof {
        assert forall|a: int, b: int| 0 <= a < b < out@.len() implies out@[a].1 <= out@[b].1 by {
            if a < pos {
                assert(out@[a] == old_out[a]);
            } else if a > pos {
                assert(out@[a] == old_out[a - 1]);
            }
            if b < pos {
                assert(out@[b] == old_out[b]);
            } else if b > pos {
                assert(out@[b] == old_out[b - 1]);
            }
        }
    }
    pos
}

/// Whether the entity `id` is stored with a light.
pub open spec fn is_light(store: EntityStore, id: EntityId) -> bool {
    store.spec_entities().contains_key(id.0) && store.spec_entities()[id.0].light is Some
}

/// Render candidates of a level: every entity of the active cells, then
/// every light entity of the other cells (once per listing, skipping those
/// already among the active ones).
pub open spec fn candidates_of(level: Level) -> Seq<EntityId> {
    let active = entities_of(level.spec_partition().spec_cells(), true);
    let all = entities_of(level.spec_partition().spec_cells(), false);
    active + all.filter(|id: EntityId| !active.contains(id) && is_light(level.spec_store(), id))
}

/// What the render candidates are: an entity is a candidate exactly when an
/// active cell lists it, or some cell lists it and it is a stored light; and
/// when no entity is listed twice across the cells, no candidate occurs
/// twice.
pub proof fn lemma_candidates(level: Level)
    ensures
        forall|id: EntityId| #[trigger] candidates_of(level).contains(id) <==> ((exists|i: int|
            0 <= i < level.spec_partition().spec_cells().len() && level.spec_partition().spec_cells()[i].state
                == GridChunkState::Active && (#[trigger] level.spec_partition().spec_cells()[i]).entities@.contains(id))
            || ((exists|i: int|
            0 <= i < level.spec_partition().spec_cells().len()
                && (#[trigger] level.spec_partition().spec_cells()[i]).entities@.contains(id)) && is_light(
            level.spec_store(),
            id,
        ))),
        entities_of(level.spec_partition().spec_cells(), false).no_duplicates() ==> candidates_of(
            level,
        ).no_duplicates(),
{
    let cells = level.spec_partition().spec_cells();
    let active = entities_of(cells, true);
    let all = entities_of(cells, false);
    let pred = |id: EntityId| !active.contains(id) && is_light(level.spec_store(), id);
    let f = all.filter(pred);
    assert(candidates_of(level) == active + f);
    assert forall|id: EntityId| #[trigger] candidates_of(level).contains(id) <==> ((exists|i: int|
        0 <= i < cells.len() && cells[i].state == GridChunkState::Active && (#[trigger] cells[i]).entities@.contains(id))
        || ((exists|i: int| 0 <= i < cells.len() && (#[trigger] cells[i]).entities@.contains(id)) && is_light(
        level.spec_store(),
        id,
    ))) by {
        lemma_entities_of_members(cells, true, id);
        lemma_entities_of_members(cells, false, id);
        lemma_concat_contains(active, f, id);
        lemma_filter_contains_iff(all, pred, id);
    }
    if all.no_duplicates() {
        lemma_active_no_duplicates(cells);
        lemma_filter_no_duplicates(all, pred);
        assert forall|x: EntityId| active.contains(x) implies !f.contains(x) by {
            lemma_filter_contains_iff(all, pred, x);
        }
        lemma_concat_no_duplicates(active, f);
    }
}

/// Membership in a filtered sequence.
proof fn lemma_filter_contains_iff<A>(s: Seq<A>, pred: spec_fn(A) -> bool, x: A)
    ensures
        s.filter(pred).contains(x) <==> (s.contains(x) && pred(x)),
{
    if s.filter(pred).contains(x) {
        s.lemma_filter_contains_rev(pred, x);
        let i = choose|i: int| 0 <= i < s.filter(pred).len() && s.filter(pred)[i] == x;
        s.lemma_filter_pred(pred, i);
    }
    if s.contains(x) && pred(x) {
        let i = choose|i: int| 0 <= i < s.len() && s[i] == x;
        s.lemma_filter_contains(pred, i);
    }
}

/// A concatenation repeats nothing exactly when neither part does and they
/// share no element.
proof fn lemma_concat_no_duplicates<A>(a: Seq<A>, b: Seq<A>)
    ensures
        (a + b).no_duplicates() <==> (a.no_duplicates() && b.no_duplicates() && forall|x: A|
            a.contains(x) ==> !b.contains(x)),
{
    let c = a + b;
    if c.no_duplicates() {
        assert forall|i: int, j: int| 0 <= i < a.len() && 0 <= j < a.len() && i != j implies a[i] != a[j] by {
            assert(c[i] == a[i] && c[j] == a[j]);
        }
        assert forall|i: int, j: int| 0 <= i < b.len() && 0 <= j < b.len() && i != j implies b[i] != b[j] by {
            assert(c[a.len() + i] == b[i] && c[a.len() + j] == b[j]);
        }
        assert forall|x: A| a.contains(x) implies !b.contains(x) by {
            if b.contains(x) {
                let i = choose|i: int| 0 <= i < a.len() && a[i] == x;
                let k = choose|k: int| 0 <= k < b.len() && b[k] == x;
                assert(c[i] == c[a.len() + k]);
            }
        }
    }
    if a.no_duplicates() && b.no_duplicates() && forall|x: A| a.contains(x) ==> !b.contains(x) {
        assert forall|i: int, j: int| 0 <= i < c.len() && 0 <= j < c.len() && i != j implies c[i] != c[j] by {
            if i < a.len() && j < a.len() {
            } else if i >= a.len() && j >= a.len() {
                assert(c[i] == b[i - a.len()] && c[j] == b[j - a.len()]);
            } else if i < a.len() {
                assert(a.contains(c[i]));
                assert(c[j] == b[j - a.len()]);
                assert(b.contains(c[j]));
            } else {
                assert(a.contains(c[j]));
                assert(c[i] == b[i - a.len()]);
                assert(b.contains(c[i]));
            }
        }
    }
}

/// Filtering keeps a sequence free of repeats.
proof fn lemma_filter_no_duplicates<A>(s: Seq<A>, pred: spec_fn(A) -> bool)
    requires
        s.no_duplicates(),
    ensures
        s.filter(pred).no_duplicates(),
    decreases s.len(),
{
    if s.len() > 0 {
        let d = s.drop_last();
        let x = s.last();
        assert(s == d + seq![x]);
        lemma_concat_no_duplicates(d, seq![x]);
        lemma_filter_no_duplicates(d, pred);
        assert(s == d.push(x));
        d.lemma_filter_push(x, pred);
        if pred(x) {
            assert(d.filter(pred).push(x) == d.filter(pred) + seq![x]);
            assert forall|y: A| d.filter(pred).contains(y) implies !seq![x].contains(y) by {
                lemma_filter_contains_iff(d, pred, y);
                assert(seq![x].contains(y) ==> y == x);
                assert(seq![x].contains(x)) by {
                    assert(seq![x][0] == x);
                }
            }
            lemma_concat_no_duplicates(d.filter(pred), seq![x]);
        }
    }
}

/// When the cells list no entity twice, neither do the active cells.
proof fn lemma_active_no_duplicates(cells: Seq<GridChunk>)
    requires
        entities_of(cells, false).no_duplicates(),
    ensures
        entities_of(cells, true).no_duplicates(),
    decreases cells.len(),
{
    if cells.len() > 0 {
        let rest = cells.drop_last();
        let last = cells.last();
        lemma_concat_no_duplicates(entities_of(rest, false), last.entities@);
        lemma_active_no_duplicates(rest);
        if last.state == GridChunkState::Active {
            assert forall|x: EntityId| entities_of(rest, true).contains(x) implies !last.entities@.contains(x) by {
                lemma_entities_of_members(rest, true, x);
                lemma_entities_of_members(rest, false, x);
            }
            lemma_concat_no_duplicates(entities_of(rest, true), last.entities@);
        }
    }
}

/// Entities that each camera's visibility test considers this frame.
pub fn render_candidates(level: &Level) -> (r: Vec<EntityId>)
    ensures
        r@ == candidates_of(*level),
        forall|id: EntityId| #[trigger] r@.contains(id) <==> ((exists|i: int|
            0 <= i < level.spec_partition().spec_cells().len() && level.spec_partition().spec_cells()[i].state
                == GridChunkState::Active && (#[trigger] level.spec_partition().spec_cells()[i]).entities@.contains(id))
            || ((exists|i: int|
            0 <= i < level.spec_partition().spec_cells().len()
                && (#[trigger] level.spec_partition().spec_cells()[i]).entities@.contains(id)) && is_light(
            level.spec_store(),
            id,
        ))),
        entities_of(level.spec_partition().spec_cells(), false).no_duplicates() ==> r@.no_duplicates(),
{
    let store = level.entities();
    let active = level.partition().active_entities();
    let all = level.partition().all_entities();
    let ghost pred = |id: EntityId| !active@.contains(id) && is_light(level.spec_store(), id);
    let mut r: Vec<EntityId> = Vec::new();
    let mut i: usize = 0;
    while i < active.len()
        invariant
            i <= active@.len(),
            r@ == active@.take(i as int),
        decreases active@.len() - i,
    {
        r.push(active[i]);
        proof {
            assert(active@.take(i + 1) == active@.take(i as int).push(active@[i as int]));
        }
        i = i + 1;
    }
    proof {
        assert(active@.take(active@.len() as int) == active@);
    }
    let mut j: usize = 0;
    while j < all.len()
        invariant
            j <= all@.len(),
            r@ == active@ + all@.take(j as int).filter(pred),
            *store == level.spec_store(),
            pred == (|id: EntityId| !active@.contains(id) && is_light(level.spec_store(), id)),
        decreases all@.len() - j,
    {
        let id = all[j];
        proof {
            assert(all@.take(j + 1).drop_last() == all@.take(j as int));
            reveal(Seq::filter);
        }
        if !contains_entity(&active, id) {
            match store.get(id) {
                Some(c) => {
                    if c.light.is_some() {
                        r.push(id);
                        proof {
                            assert(r@ =~= active@ + all@.take(j + 1).filter(pred));
                        }
                    }
                },
                None => {},
            }
        }
        j = j + 1;
    }
    proof {
        assert(all@.take(all@.len() as int) == all@);
        lemma_candidates(*level);
        let cells = level.spec_partition().spec_cells();
        assert forall|id: EntityId| #[trigger] r@.contains(id) <==> ((exists|i: int|
            0 <= i < cells.len() && cells[i].state == GridChunkState::Active && (#[trigger] cells[i]).entities@.contains(id))
            || ((exists|i: int| 0 <= i < cells.len() && (#[trigger] cells[i]).entities@.contains(id)) && is_light(
            level.spec_store(),
            id,
        ))) by {
            assert(candidates_of(*level).contains(id) == r@.contains(id));
        }
    }
    r
}

/// Whether `id` occurs in `v`.
pub fn contains_entity(v: &Vec<EntityId>, id: EntityId) -> (b: bool)
    ensures
        b == v@.contains(id),
{
    let mut i: usize = 0;
    while i < v.len()
        invariant
            i <= v@.len(),
            forall|j: int| 0 <= j < i ==> v@[j] != id,
        decreases v@.len() - i,
    {
        if v[i] == id {
            return true;
        }
        i = i + 1;
    }
    false
}

} // verus!
