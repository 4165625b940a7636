use stratum::entity::{Components, EntityId, MeshHandle, Transform};
use stratum::level::{Level, LevelId, StreamingState};
use stratum::partition::{ChunkCoord, GridChunkState, WorldPartition};

fn bits(v: f32) -> u32 {
    v.to_bits()
}

fn bits3(x: f32, y: f32, z: f32) -> [u32; 3] {
    [x.to_bits(), y.to_bits(), z.to_bits()]
}

fn make_partition() -> WorldPartition {
    WorldPartition::new(bits(16.0), bits(32.0))
}

fn make_level() -> Level {
    Level::new(LevelId::new(1), "test", bits(16.0), bits(32.0))
}

/// The eight cells whose centres lie within 20 m of the origin for 16 m cells.
fn cells_around_origin() -> Vec<ChunkCoord> {
    let mut v = Vec::new();
    for x in -1..=0 {
        for y in -1..=0 {
            for z in -1..=0 {
                v.push(ChunkCoord::new(x, y, z));
            }
        }
    }
    v
}

fn cell_state(wp: &WorldPartition, c: ChunkCoord) -> Option<GridChunkState> {
    wp.chunks().iter().find(|g| g.coord == c).map(|g| g.state)
}

#[test]
fn get_or_create_inserts_new_chunk() {
    let mut wp = make_partition();
    let coord = ChunkCoord::new(1, 0, 0);
    let chunk = wp.get_or_create(coord);
    assert_eq!(chunk.coord, coord);
    assert_eq!(chunk.state, GridChunkState::Unloaded);
}

#[test]
fn get_or_create_returns_existing() {
    let mut wp = make_partition();
    let coord = ChunkCoord::new(0, 0, 0);
    wp.get_or_create(coord).activate();
    assert_eq!(wp.get_or_create(coord).state, GridChunkState::Active);
}

#[test]
fn place_entity_creates_chunk() {
    let mut wp = make_partition();
    // (5, 0, 5) lies in cell (0, 0, 0) of 16 m cells.
    let coord = ChunkCoord::new(0, 0, 0);
    wp.place_entity(EntityId::new(1), coord);
    assert!(wp.get_or_create(coord).entities.contains(&EntityId::new(1)));
}

#[test]
fn remove_entity_cleans_chunk() {
    let mut wp = make_partition();
    let id = EntityId::new(99);
    let coord = ChunkCoord::new(0, 0, 0);
    wp.place_entity(id, coord);
    wp.remove_entity(id, coord);
    assert!(!wp.get_or_create(coord).entities.contains(&id));
}

#[test]
fn activation_brings_nearby_chunks_active() {
    let mut wp = WorldPartition::new(bits(16.0), bits(20.0));
    wp.get_or_create(ChunkCoord::new(0, 0, 0));
    wp.update_activation(&cells_around_origin());
    assert_eq!(wp.get_or_create(ChunkCoord::new(0, 0, 0)).state, GridChunkState::Active);
}

#[test]
fn activation_deactivates_far_chunks() {
    let mut wp = WorldPartition::new(bits(16.0), bits(20.0));
    wp.get_or_create(ChunkCoord::new(100, 0, 100)).activate();
    wp.update_activation(&cells_around_origin());
    assert_eq!(cell_state(&wp, ChunkCoord::new(100, 0, 100)), Some(GridChunkState::Unloaded));
}

#[test]
fn activate_all_sets_all_active() {
    let mut wp = make_partition();
    for i in 0..4 {
        wp.get_or_create(ChunkCoord::new(i, 0, 0));
    }
    wp.activate_all();
    assert!(wp.chunks().iter().all(|c| c.state == GridChunkState::Active));
}

#[test]
fn active_entities_only_from_active_chunks() {
    let mut wp = make_partition();
    let id_active = EntityId::new(1);
    let id_inactive = EntityId::new(2);
    wp.place_entity(id_active, ChunkCoord::new(0, 0, 0));
    // (500, 0, 0) lies in cell (31, 0, 0).
    wp.place_entity(id_inactive, ChunkCoord::new(31, 0, 0));
    wp.get_or_create(ChunkCoord::new(0, 0, 0)).activate();
    let active = wp.active_entities();
    assert!(active.contains(&id_active));
    assert!(!active.contains(&id_inactive));
}

#[test]
fn all_entities_includes_inactive_chunks() {
    let mut wp = make_partition();
    let id_active = EntityId::new(1);
    let id_inactive = EntityId::new(2);
    wp.place_entity(id_active, ChunkCoord::new(0, 0, 0));
    wp.place_entity(id_inactive, ChunkCoord::new(31, 0, 0));
    wp.get_or_create(ChunkCoord::new(0, 0, 0)).activate();
    assert!(!wp.active_entities().contains(&id_inactive));
    let all = wp.all_entities();
    assert!(all.contains(&id_active));
    assert!(all.contains(&id_inactive));
}

#[test]
fn active_entities_empty_when_no_active_chunks() {
    let mut wp = make_partition();
    wp.place_entity(EntityId::new(5), ChunkCoord::new(0, 0, 0));
    assert!(wp.active_entities().is_empty());
}

#[test]
fn placing_twice_lists_entity_once() {
    let mut wp = make_partition();
    let c = ChunkCoord::new(2, -3, 4);
    wp.place_entity(EntityId::new(7), c);
    wp.place_entity(EntityId::new(7), c);
    assert_eq!(wp.get_or_create(c).entities, vec![EntityId::new(7)]);
    assert_eq!(wp.chunks().len(), 1);
}

#[test]
fn activation_keeps_loading_cells_and_creates_wanted_ones() {
    let mut wp = make_partition();
    wp.get_or_create(ChunkCoord::new(5, 5, 5)).state = GridChunkState::Loading;
    wp.update_activation(&vec![ChunkCoord::new(1, 1, 1)]);
    assert_eq!(cell_state(&wp, ChunkCoord::new(5, 5, 5)), Some(GridChunkState::Loading));
    assert_eq!(cell_state(&wp, ChunkCoord::new(1, 1, 1)), Some(GridChunkState::Active));
    assert_eq!(wp.active_chunks().len(), 1);
}

#[test]
fn partition_parameters_are_kept() {
    let wp = make_partition();
    assert_eq!(f32::from_bits(wp.chunk_size), 16.0);
    assert_eq!(f32::from_bits(wp.activation_radius), 32.0);
}

#[test]
fn spawn_entity_is_retrievable() {
    let mut level = make_level();
    let id = level.spawn_entity(Components::new().with_mesh(MeshHandle(1)), ChunkCoord::new(0, 0, 0));
    assert!(level.entities().get(id).is_some());
}

#[test]
fn spawn_places_entity_in_partition() {
    let mut level = make_level();
    let pos = bits3(5.0, 0.0, 5.0);
    let coord = ChunkCoord::new(0, 0, 0);
    let id = level.spawn_entity(
        Components::new().with_transform(Transform::from_position(pos)).with_mesh(MeshHandle(1)),
        coord,
    );
    let found = level
        .partition()
        .chunks()
        .iter()
        .find(|c| c.coord == coord)
        .map(|c| c.entities.contains(&id))
        .unwrap_or(false);
    assert!(found);
}

#[test]
fn despawn_removes_from_entity_store() {
    let mut level = make_level();
    let coord = ChunkCoord::new(0, 0, 0);
    let id = level.spawn_entity(Components::new().with_mesh(MeshHandle(2)), coord);
    assert!(level.despawn_entity(id, coord).is_some());
    assert!(level.entities().get(id).is_none());
}

#[test]
fn despawn_removes_from_partition() {
    let mut level = make_level();
    // (8, 0, 0) lies in cell (0, 0, 0).
    let coord = ChunkCoord::new(0, 0, 0);
    let id = level.spawn_entity(
        Components::new().with_transform(Transform::from_position(bits3(8.0, 0.0, 0.0))),
        coord,
    );
    level.despawn_entity(id, coord);
    let found = level
        .partition()
        .chunks()
        .iter()
        .find(|c| c.coord == coord)
        .map(|c| c.entities.contains(&id))
        .unwrap_or(false);
    assert!(!found);
}

#[test]
fn despawn_nonexistent_returns_none() {
    let mut level = make_level();
    assert!(level.despawn_entity(EntityId::new(99999), ChunkCoord::new(0, 0, 0)).is_none());
}

#[test]
fn activate_all_chunks_sets_active() {
    let mut level = make_level();
    level.spawn_entity(
        Components::new().with_transform(Transform::from_position(bits3(0.0, 0.0, 0.0))),
        ChunkCoord::new(0, 0, 0),
    );
    level.activate_all_chunks();
    assert!(level.partition().chunks().iter().all(|c| c.state == GridChunkState::Active));
}

#[test]
fn activate_partition_around_activates_nearby() {
    let mut level = make_level();
    level.spawn_entity(
        Components::new().with_transform(Transform::from_position(bits3(0.0, 0.0, 0.0))),
        ChunkCoord::new(0, 0, 0),
    );
    level.activate_partition_around(&cells_around_origin());
    let coord = ChunkCoord::new(0, 0, 0);
    let state = level.partition().chunks().iter().find(|c| c.coord == coord).map(|c| c.state);
    assert_eq!(state, Some(GridChunkState::Active));
}

#[test]
fn new_level_is_active_by_default() {
    let level = make_level();
    assert_eq!(level.streaming_state(), StreamingState::Active);
}

#[test]
fn set_streaming_state_persists() {
    let mut level = make_level();
    level.set_streaming_state(StreamingState::Unloaded);
    assert_eq!(level.streaming_state(), StreamingState::Unloaded);
}

#[test]
fn level_id_is_stable() {
    let level = make_level();
    assert_eq!(level.id(), LevelId::new(1));
}

#[test]
fn spawn_then_despawn_restores_store_and_cell() {
    let mut level = make_level();
    let coord = ChunkCoord::new(3, 0, 0);
    let keep = level.spawn_entity(Components::new(), coord);
    let id = level.spawn_entity(Components::new().with_tag("temp"), coord);
    let removed = level.despawn_entity(id, coord).unwrap();
    assert_eq!(removed.tags, vec!["temp"]);
    assert_eq!(level.entities().len(), 1);
    let cell = level.partition().chunks().iter().find(|c| c.coord == coord).unwrap().entities.clone();
    assert_eq!(cell, vec![keep]);
}

#[test]
fn level_id_display() {
    assert_eq!(LevelId::new(3).to_string(), "Level(3)");
    assert_eq!(LevelId::new(3).raw(), 3);
}
