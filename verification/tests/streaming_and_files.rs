use std::collections::HashMap;
use std::sync::Arc;
use stratum::chunk::{ChunkError, ChunkMetadata};
use stratum::entity::{Components, EntityId, LightData, MeshHandle, Transform};
use stratum::level::{Level, LevelId};
use stratum::level_fs::{
    chunk_file_path, default_mode, manifest_path, plan_level_save, sector_for, sector_index_path,
    sector_index_path_for, DEFAULT_BUCKET_SIZE, FORMAT_VERSION,
};
use stratum::partition::ChunkCoord;
use stratum::entity::BillboardData;
use stratum::scene_sync::{
    billboard_instances, plan_light_sync, plan_object_sync, shadow_flags, BillboardInstance,
    SHADOW_CAST_AND_RECEIVE,
};
use stratum::types::{ChunkId, ChunkState};
use stratum::world_partition::{ChunkLoadResult, ChunkVerdict, StreamingBudget, WorldPartitionManager};

fn bits(v: f32) -> u32 {
    v.to_bits()
}

fn verdict(load: bool, visible: bool, evict: bool) -> ChunkVerdict {
    ChunkVerdict { should_be_loaded: load, should_be_visible: visible, should_be_evicted: evict }
}

// ── World partition manager ───────────────────────────────────────────────────

#[test]
fn test_chunk_lod_and_evict_cycle() {
    let mut wm = WorldPartitionManager::new(bits(16.0), bits(10.0), bits(20.0), bits(40.0));

    let metadata = ChunkMetadata::new(0, 0, 0, 0, bits(16.0));
    wm.upsert_chunk(metadata, "/tmp/world_chunk_0_0_0.bin".to_string());

    // Camera at the origin: the chunk should load.
    let mut near = HashMap::new();
    near.insert(metadata.id.0, verdict(true, true, false));
    wm.begin_tick();
    let requests = wm.evaluate_lod_and_visibility(&near);
    wm.process_io_results(Vec::new());
    wm.end_tick(1_000);
    assert_eq!(requests.len(), 1);
    assert_eq!(requests[0].chunk_id, metadata.id);
    assert_eq!(requests[0].file_path, "/tmp/world_chunk_0_0_0.bin");
    assert!(requests[0].compressed);
    assert_eq!(wm.metrics().pending_load_tasks, 1);
    assert!(wm.chunk(metadata.id).is_some());
    assert_eq!(wm.chunk(metadata.id).unwrap().state, ChunkState::Loading);

    // Camera far away: the chunk is evicted.
    let mut far = HashMap::new();
    far.insert(metadata.id.0, verdict(false, false, true));
    wm.begin_tick();
    wm.evaluate_lod_and_visibility(&far);
    wm.end_tick(2_000);

    assert_eq!(wm.metrics().chunks_evicted, 1);
    assert_eq!(wm.metrics().pending_load_tasks, 0);
    assert_eq!(wm.metrics().frames, 2);
    assert_eq!(wm.metrics().last_commit_ns, 2_000);
    assert_eq!(wm.chunk(metadata.id).unwrap().state, ChunkState::Unloaded);
}

#[test]
fn load_results_drive_chunk_states_and_counters() {
    let mut wm = WorldPartitionManager::new(bits(16.0), bits(10.0), bits(20.0), bits(40.0));
    let a = ChunkMetadata::new(0, 0, 0, 0, bits(16.0));
    let b = ChunkMetadata::new(1, 0, 0, 0, bits(16.0));
    wm.upsert_chunk(a, "a.bin".to_string());
    wm.upsert_chunk(b, "b.bin".to_string());
    wm.process_io_results(vec![
        ChunkLoadResult { chunk_id: a.id, data: Ok(Arc::new(vec![1, 2, 3])) },
        ChunkLoadResult { chunk_id: b.id, data: Err(ChunkError::DecompressionFailed("bad".into())) },
        ChunkLoadResult { chunk_id: ChunkId::from_coords(9, 9, 9, 0), data: Ok(Arc::new(vec![])) },
    ]);
    let m = wm.metrics();
    assert_eq!(m.chunks_loaded, 1);
    assert_eq!(m.chunks_failed, 1);
    assert_eq!(wm.chunk(a.id).unwrap().state, ChunkState::Loaded);
    assert_eq!(wm.chunk(a.id).unwrap().data_size_bytes, 3);
    assert_eq!(wm.chunk(b.id).unwrap().state, ChunkState::Unloaded);
    assert_eq!(wm.chunk_ids().len(), 2);

    // A loaded chunk that should be visible becomes visible.
    let mut vs = HashMap::new();
    vs.insert(a.id.0, verdict(true, true, false));
    wm.evaluate_lod_and_visibility(&vs);
    assert_eq!(wm.visible_chunk_ids(), vec![a.id]);
}

#[test]
fn load_requests_respect_budget_and_paths() {
    let mut wm = WorldPartitionManager::new(bits(16.0), bits(10.0), bits(20.0), bits(40.0));
    wm.set_budget(StreamingBudget { max_io_ms_per_frame: 6, max_upload_bytes_per_frame: 1, max_concurrent_tasks: 2 });
    let mut vs = HashMap::new();
    for x in 0..4 {
        let m = ChunkMetadata::new(x, 0, 0, 0, bits(16.0));
        wm.upsert_chunk(m, format!("c{}.bin", x));
        vs.insert(m.id.0, verdict(true, false, false));
    }
    let requests = wm.evaluate_lod_and_visibility(&vs);
    assert_eq!(requests.len(), 2);
    assert_ne!(requests[0].chunk_id, requests[1].chunk_id);
    for r in &requests {
        let (x, _, _, _) = r.chunk_id.to_coords();
        assert_eq!(r.file_path, format!("c{}.bin", x));
    }
    assert_eq!(wm.metrics().pending_load_tasks, 2);
    // All four are loading now; the next evaluation starts nothing new.
    assert!(wm.evaluate_lod_and_visibility(&vs).is_empty());
    // A finished load frees budget, but no chunk is freshly started.
    wm.process_io_results(vec![ChunkLoadResult { chunk_id: requests[0].chunk_id, data: Ok(Arc::new(vec![1])) }]);
    assert_eq!(wm.metrics().pending_load_tasks, 1);
}

#[test]
fn no_verdicts_change_nothing() {
    let mut wm = WorldPartitionManager::new(bits(16.0), bits(10.0), bits(20.0), bits(40.0));
    let a = ChunkMetadata::new(2, 0, 0, 1, bits(16.0));
    wm.upsert_chunk(a, "a.bin".to_string());
    assert!(wm.evaluate_lod_and_visibility(&HashMap::new()).is_empty());
    assert_eq!(wm.chunk(a.id).unwrap().state, ChunkState::Unloaded);
    assert_eq!(wm.metrics().chunks_evicted, 0);
}

#[test]
fn manager_defaults_and_budget() {
    let mut wm = WorldPartitionManager::new(bits(16.0), bits(10.0), bits(20.0), bits(40.0));
    assert_eq!(wm.budget(), StreamingBudget::default());
    assert_eq!(StreamingBudget::default().max_upload_bytes_per_frame, 5 * 1024 * 1024);
    let tight = StreamingBudget { max_io_ms_per_frame: 1, max_upload_bytes_per_frame: 1, max_concurrent_tasks: 1 };
    wm.set_budget(tight);
    assert_eq!(wm.budget(), tight);
    assert_eq!(f32::from_bits(wm.unload_radius()), 40.0);
    assert_eq!(f32::from_bits(wm.chunk_size()), 16.0);
}

#[test]
fn flush_payload_reports_unknown_chunk() {
    let mut wm = WorldPartitionManager::new(bits(16.0), bits(10.0), bits(20.0), bits(40.0));
    let a = ChunkMetadata::new(3, 4, 5, 0, bits(16.0));
    match wm.chunk_flush_payload(a.id) {
        Err(ChunkError::ChunkNotFound(id)) => assert_eq!(id, a.id),
        _ => panic!("expected ChunkNotFound"),
    }
    wm.upsert_chunk(a, "c.bin".to_string());
    let (data, path) = wm.chunk_flush_payload(a.id).ok().unwrap();
    assert_eq!(data.metadata, a);
    assert_eq!(data.version, 1);
    assert_eq!(path, Some("c.bin".to_string()));
}

// ── Level file system layout ──────────────────────────────────────────────────

#[test]
fn sector_for_positive() {
    let c = ChunkCoord::new(65, 0, 0);
    assert_eq!(sector_for(c, 64), [1, 0, 0]);
}

#[test]
fn sector_for_negative() {
    let c = ChunkCoord::new(-1, 0, 0);
    assert_eq!(sector_for(c, 64), [-1, 0, 0]);
}

#[test]
fn sector_for_edges() {
    assert_eq!(sector_for(ChunkCoord::new(-64, 63, 64), 64), [-1, 0, 1]);
    assert_eq!(sector_for(ChunkCoord::new(-65, -128, 0), 64), [-2, -2, 0]);
    assert_eq!(sector_for(ChunkCoord::new(7, -7, 0), -3), [-2, 3, 0]);
}

#[test]
fn level_paths() {
    assert_eq!(manifest_path("/levels/a"), "/levels/a/level.json");
    assert_eq!(manifest_path("/levels/a/"), "/levels/a/level.json");
    assert_eq!(sector_index_path("lv", [-3, 0, 12]), "lv/indexes/-3/0/12/index.json");
    assert_eq!(chunk_file_path("lv", ChunkCoord::new(1, -2, 3)), "lv/chunks/1_-2_3.chunk.json");
    assert_eq!(
        sector_index_path_for("lv", ChunkCoord::new(-1, 130, 5), DEFAULT_BUCKET_SIZE),
        "lv/indexes/-1/2/0/index.json"
    );
    assert_eq!(default_mode(), "ref");
    assert_eq!(FORMAT_VERSION, 1);
}

#[test]
fn save_plan_lists_cells_and_sectors() {
    let mut level = Level::new(LevelId::new(42), "test_level", bits(16.0), bits(32.0));
    let a = level.spawn_entity(Components::new().with_mesh(MeshHandle(1)), ChunkCoord::new(0, 0, 0));
    let b = level.spawn_entity(Components::new(), ChunkCoord::new(70, 0, 0));
    let gone = level.spawn_entity(Components::new(), ChunkCoord::new(70, 0, 0));
    level.entities_mut().despawn(gone);
    let plan = plan_level_save(&level);
    assert_eq!(plan.chunk_count, 2);
    assert_eq!(plan.chunks.len(), 2);
    let c0 = plan.chunks.iter().find(|c| c.coord == ChunkCoord::new(0, 0, 0)).unwrap();
    assert_eq!(c0.entities, vec![a]);
    let c1 = plan.chunks.iter().find(|c| c.coord == ChunkCoord::new(70, 0, 0)).unwrap();
    assert_eq!(c1.entities, vec![b]);
    assert_eq!(plan.sectors.len(), 2);
    let s1 = plan.sectors.iter().find(|s| s.sector == [1, 0, 0]).unwrap();
    assert_eq!(s1.version, FORMAT_VERSION);
    assert_eq!(s1.entries.len(), 1);
    assert_eq!(s1.entries[0].coord, [70, 0, 0]);
    assert_eq!(s1.entries[0].entity_count, 1);
}

// ── Scene synchronisation ─────────────────────────────────────────────────────

#[test]
fn shadow_flags_opt_out_tag() {
    assert_eq!(shadow_flags(&Components::new()), SHADOW_CAST_AND_RECEIVE);
    assert_eq!(SHADOW_CAST_AND_RECEIVE, 0b11);
    assert_eq!(shadow_flags(&Components::new().with_tag("static").with_tag("no_shadow")), 0);
    assert_eq!(shadow_flags(&Components::new().with_tag("no_shadows")), 0b11);
}

#[test]
fn object_sync_adds_and_drops() {
    let mut level = Level::new(LevelId::new(1), "sync", bits(16.0), bits(32.0));
    let active_mesh = level.spawn_entity(Components::new().with_mesh(MeshHandle(1)), ChunkCoord::new(0, 0, 0));
    let active_bare = level.spawn_entity(Components::new(), ChunkCoord::new(0, 0, 0));
    level.activate_all_chunks();
    let far_mesh = level.spawn_entity(Components::new().with_mesh(MeshHandle(2)), ChunkCoord::new(5, 0, 0));
    let despawned = EntityId::new(77);

    let resident = vec![far_mesh, despawned, active_bare];
    let plan = plan_object_sync(&level, &resident);
    assert_eq!(plan.remove, vec![far_mesh, despawned, active_bare]);
    assert_eq!(plan.insert, vec![active_mesh]);

    let plan2 = plan_object_sync(&level, &vec![active_mesh]);
    assert!(plan2.remove.is_empty());
    assert!(plan2.insert.is_empty());
}

#[test]
fn light_sync_covers_every_cell() {
    let mut level = Level::new(LevelId::new(1), "lights", bits(16.0), bits(32.0));
    let light = LightData::Point { color: [bits(1.0); 3], intensity: bits(1.0), range: bits(4.0) };
    let near = level.spawn_entity(
        Components::new().with_transform(Transform::from_position([0; 3])).with_light(light),
        ChunkCoord::new(0, 0, 0),
    );
    let far = level.spawn_entity(Components::new().with_light(light), ChunkCoord::new(50, 0, 0));
    let plain = level.spawn_entity(Components::new(), ChunkCoord::new(0, 0, 0));
    let plan = plan_light_sync(level.entities(), &vec![near, plain, EntityId::new(500)]);
    assert_eq!(plan.update, vec![near]);
    assert_eq!(plan.remove, vec![plain, EntityId::new(500)]);
    assert_eq!(plan.insert, vec![far]);
}

#[test]
fn billboards_need_a_position() {
    let mut level = Level::new(LevelId::new(1), "bb", bits(16.0), bits(32.0));
    let bb = BillboardData::new(bits(2.0), bits(1.0), [bits(1.0), bits(0.5), bits(0.25), bits(1.0)]).with_screen_scale();
    level.spawn_entity(
        Components::new().with_transform(Transform::from_position([bits(1.0), bits(2.0), bits(3.0)])).with_billboard(bb),
        ChunkCoord::new(0, 0, 0),
    );
    level.spawn_entity(Components::new().with_billboard(bb), ChunkCoord::new(0, 0, 0));
    let extra = BillboardInstance { world_pos: [7; 4], scale_flags: [8; 4], color: [9; 4] };
    let out = billboard_instances(level.entities(), &vec![extra]);
    assert_eq!(out.len(), 2);
    assert_eq!(out[0].world_pos, [bits(1.0), bits(2.0), bits(3.0), bits(0.0)]);
    assert_eq!(out[0].scale_flags, [bits(2.0), bits(1.0), bits(1.0), bits(0.0)]);
    assert_eq!(out[0].color, [bits(1.0), bits(0.5), bits(0.25), bits(1.0)]);
    assert_eq!(out[1], extra);
}
