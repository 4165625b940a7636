use stratum::entity::{
    BillboardData, Components, EntityId, EntityStore, LightData, MeshHandle, Transform,
    F32_MAX_BITS, F32_ONE_BITS, F32_ZERO_BITS,
};

fn bits3(x: f32, y: f32, z: f32) -> [u32; 3] {
    [x.to_bits(), y.to_bits(), z.to_bits()]
}

#[test]
fn entity_id_round_trip() {
    let id = EntityId::new(42);
    assert_eq!(id.raw(), 42);
}

#[test]
fn entity_id_display() {
    assert_eq!(EntityId::new(7).to_string(), "Entity(7)");
}

#[test]
fn entity_id_ordering() {
    assert!(EntityId::new(1) < EntityId::new(2));
}

#[test]
fn transform_default_is_identity() {
    let t = Transform::default();
    assert_eq!(t.position, bits3(0.0, 0.0, 0.0));
    assert_eq!(t.rotation, [0.0f32.to_bits(), 0.0f32.to_bits(), 0.0f32.to_bits(), 1.0f32.to_bits()]);
    assert_eq!(t.scale, bits3(1.0, 1.0, 1.0));
}

#[test]
fn transform_from_position() {
    let p = bits3(1.0, 2.0, 3.0);
    let t = Transform::from_position(p);
    assert_eq!(t.position, p);
    assert_eq!(t.scale, bits3(1.0, 1.0, 1.0));
}

#[test]
fn components_is_renderable_with_mesh() {
    let c = Components::new().with_mesh(MeshHandle(1));
    assert!(c.is_renderable());
}

#[test]
fn components_is_renderable_with_light() {
    let c = Components::new().with_light(LightData::Point {
        color: bits3(1.0, 1.0, 1.0),
        intensity: 1.0f32.to_bits(),
        range: 5.0f32.to_bits(),
    });
    assert!(c.is_renderable());
}

#[test]
fn components_not_renderable_empty() {
    let c = Components::new();
    assert!(!c.is_renderable());
}

#[test]
fn components_builder_chain() {
    let c = Components::new()
        .with_transform(Transform::from_position(bits3(1.0, 1.0, 1.0)))
        .with_mesh(MeshHandle(7))
        .with_tag("player");
    assert!(c.transform.is_some());
    assert!(c.mesh.is_some());
    assert_eq!(c.tags, vec!["player"]);
}

#[test]
fn components_multiple_tags() {
    let c = Components::new().with_tag("a").with_tag("b").with_tag("c");
    assert_eq!(c.tags.len(), 3);
    assert!(c.tags.contains(&"b".to_string()));
}

#[test]
fn light_data_bounding_radius_point() {
    let l = LightData::Point { color: bits3(1.0, 1.0, 1.0), intensity: 1.0f32.to_bits(), range: 10.0f32.to_bits() };
    assert_eq!(f32::from_bits(l.bounding_radius()), 10.0);
}

#[test]
fn light_data_bounding_radius_directional_is_infinite() {
    let l = LightData::Directional {
        direction: bits3(0.0, -1.0, 0.0),
        color: bits3(1.0, 1.0, 1.0),
        intensity: 1.0f32.to_bits(),
    };
    assert_eq!(f32::from_bits(l.bounding_radius()), f32::MAX);
}

#[test]
fn light_data_bounding_radius_spot() {
    let l = LightData::Spot {
        direction: bits3(0.0, -1.0, 0.0),
        color: bits3(1.0, 1.0, 1.0),
        intensity: 1.0f32.to_bits(),
        range: 15.0f32.to_bits(),
        inner_angle: 0.2f32.to_bits(),
        outer_angle: 0.4f32.to_bits(),
    };
    assert_eq!(f32::from_bits(l.bounding_radius()), 15.0);
}

#[test]
fn entity_store_spawn_assigns_unique_ids() {
    let mut store = EntityStore::new();
    let id1 = store.spawn(Components::new());
    let id2 = store.spawn(Components::new());
    assert_ne!(id1, id2);
}

#[test]
fn entity_store_spawn_ids_monotonically_increasing() {
    let mut store = EntityStore::new();
    let id1 = store.spawn(Components::new());
    let id2 = store.spawn(Components::new());
    assert!(id1 < id2);
}

#[test]
fn entity_store_despawn_removes_entity() {
    let mut store = EntityStore::new();
    let id = store.spawn(Components::new().with_tag("temp"));
    assert!(store.get(id).is_some());
    let removed = store.despawn(id);
    assert!(removed.is_some());
    assert!(store.get(id).is_none());
}

#[test]
fn entity_store_despawn_nonexistent_returns_none() {
    let mut store = EntityStore::new();
    assert!(store.despawn(EntityId::new(9999)).is_none());
}

#[test]
fn entity_store_get_mut_allows_modification() {
    let mut store = EntityStore::new();
    let id = store.spawn(Components::new().with_mesh(MeshHandle(1)));
    store.get_mut(id).unwrap().mesh = None;
    assert!(store.get(id).unwrap().mesh.is_none());
}

#[test]
fn entity_store_len_and_is_empty() {
    let mut store = EntityStore::new();
    assert!(store.is_empty());
    store.spawn(Components::new());
    assert_eq!(store.len(), 1);
}

#[test]
fn entity_store_iter_yields_all() {
    let mut store = EntityStore::new();
    let ids: Vec<EntityId> = (0..5).map(|_| store.spawn(Components::new())).collect();
    let seen: Vec<EntityId> = store.iter().iter().map(|(id, _)| *id).collect();
    for id in ids {
        assert!(seen.contains(&id));
    }
}

#[test]
fn entity_ids_start_at_one_and_count_up() {
    let mut store = EntityStore::new();
    assert_eq!(store.spawn(Components::new()).raw(), 1);
    assert_eq!(store.spawn(Components::new()).raw(), 2);
    assert_eq!(store.spawn(Components::new()).raw(), 3);
}

#[test]
fn despawn_then_spawn_never_reuses_an_id() {
    let mut store = EntityStore::new();
    let a = store.spawn(Components::new());
    store.despawn(a);
    let b = store.spawn(Components::new());
    assert_ne!(a, b);
    assert!(store.get(a).is_none());
}

#[test]
fn entity_id_display_large() {
    assert_eq!(EntityId::new(18_446_744_073_709_551_615).to_string(), "Entity(18446744073709551615)");
    assert_eq!(EntityId::new(0).to_string(), "Entity(0)");
}

#[test]
fn bit_constants_match_f32() {
    assert_eq!(F32_ZERO_BITS, 0.0f32.to_bits());
    assert_eq!(F32_ONE_BITS, 1.0f32.to_bits());
    assert_eq!(F32_MAX_BITS, f32::MAX.to_bits());
}

#[test]
fn billboard_screen_scale_flag() {
    let b = BillboardData::new(2.0f32.to_bits(), 1.0f32.to_bits(), [F32_ONE_BITS; 4]);
    assert!(!b.screen_scale);
    assert!(b.with_screen_scale().screen_scale);
}
