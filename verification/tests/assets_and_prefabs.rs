use stratum::asset_registry::{AssetRegistry, MaterialHandle, MeshHandle as AssetMeshHandle, TextureHandle};
use stratum::bridge::stratum_camera_to_external;
use stratum::entity::{Components, MeshHandle, Transform};
use stratum::prefab::{LocalBounds, Prefab, PrefabId, PrefabRegistry, PrefabVolume};

fn cube(half: f32) -> LocalBounds {
    LocalBounds {
        min: [(-half).to_bits(), (-half).to_bits(), (-half).to_bits()],
        max: [half.to_bits(), half.to_bits(), half.to_bits()],
    }
}

fn simple_prefab(name: &str, solid: bool) -> Prefab {
    Prefab::builder(name)
        .with_entity(
            Components::new()
                .with_transform(Transform::from_position([0; 3]))
                .with_mesh(MeshHandle(1)),
        )
        .with_volume(if solid { PrefabVolume::solid(cube(1.0)) } else { PrefabVolume::hollow(cube(1.0)) })
        .build()
}

// ── Asset registry ────────────────────────────────────────────────────────────

#[test]
fn test_mesh_reference_counting() {
    let mut registry = AssetRegistry::new();

    let (handle1, is_new1) = registry.register_mesh(100);
    assert!(is_new1);

    let (handle2, is_new2) = registry.register_mesh(100);
    assert!(!is_new2);
    assert_eq!(handle1, handle2);

    assert_eq!(registry.mesh_count(), 1);

    assert!(registry.unregister_mesh(100).is_none());
    assert!(registry.unregister_mesh(100).is_some());
    assert_eq!(registry.mesh_count(), 0);
}

#[test]
fn test_multiple_asset_types() {
    let mut registry = AssetRegistry::new();

    registry.register_mesh(1);
    registry.register_material(1);
    registry.register_texture(1);

    assert_eq!(registry.mesh_count(), 1);
    assert_eq!(registry.material_count(), 1);
    assert_eq!(registry.texture_count(), 1);

    registry.clear();
    assert_eq!(registry.mesh_count(), 0);
}

#[test]
fn asset_handles_count_up_per_kind() {
    let mut registry = AssetRegistry::default();
    assert_eq!(registry.register_mesh(10).0, AssetMeshHandle(1));
    assert_eq!(registry.register_mesh(11).0, AssetMeshHandle(2));
    assert_eq!(registry.register_material(10).0, MaterialHandle(1));
    assert_eq!(registry.register_texture(99).0, TextureHandle(1));
    assert_eq!(registry.unregister_mesh(10), Some(AssetMeshHandle(1)));
    // A released id gets a fresh handle when registered again.
    assert_eq!(registry.register_mesh(10), (AssetMeshHandle(3), true));
}

#[test]
fn asset_unregister_unknown_is_none() {
    let mut registry = AssetRegistry::new();
    assert!(registry.unregister_material(5).is_none());
    assert!(registry.unregister_texture(5).is_none());
    assert_eq!(registry.material_count(), 0);
}

// ── Prefabs ───────────────────────────────────────────────────────────────────

#[test]
fn register_and_lookup_by_name() {
    let mut reg = PrefabRegistry::new();
    let id = reg.register(simple_prefab("tree", true));
    assert!(reg.get(id).is_some());
    assert!(reg.get_by_name("tree").is_some());
}

#[test]
fn registry_assigns_unique_ids() {
    let mut reg = PrefabRegistry::new();
    let a = reg.register(simple_prefab("a", true));
    let b = reg.register(simple_prefab("b", true));
    assert_ne!(a, b);
}

#[test]
fn registered_prefab_carries_its_id() {
    let mut reg = PrefabRegistry::default();
    let a = reg.register(simple_prefab("a", true));
    assert_eq!(a, PrefabId::new(1));
    assert_eq!(reg.get(a).unwrap().id, a);
    assert_eq!(reg.get(a).unwrap().name, "a");
    assert!(reg.get(PrefabId::new(2)).is_none());
    assert!(reg.get_by_name("b").is_none());
}

#[test]
fn reregistering_a_name_points_it_at_the_newest() {
    let mut reg = PrefabRegistry::new();
    let first = reg.register(simple_prefab("house", true));
    let second = reg.register(simple_prefab("house", false));
    assert_eq!(reg.get_by_name("house").unwrap().id, second);
    assert!(reg.get_by_name("house").unwrap().volumes[0].hollow);
    // The older prefab stays reachable by id.
    assert_eq!(reg.get(first).unwrap().id, first);
    assert_eq!(second.raw(), 2);
}

#[test]
fn builder_keeps_entities_and_volumes_in_order() {
    let p = Prefab::builder("wall")
        .with_entity(Components::new().with_tag("a"))
        .with_entity(Components::new().with_tag("b"))
        .with_volume(PrefabVolume::solid(cube(2.0)))
        .with_volume(PrefabVolume::hollow(cube(3.0)))
        .build();
    assert_eq!(p.id, PrefabId(0));
    assert_eq!(p.name, "wall");
    assert_eq!(p.entities.len(), 2);
    assert_eq!(p.entities[1].tags, vec!["b"]);
    assert_eq!(p.volumes, vec![PrefabVolume::solid(cube(2.0)), PrefabVolume::hollow(cube(3.0))]);
    assert!(!p.volumes[0].hollow);
}

// ── Bridge ────────────────────────────────────────────────────────────────────

#[test]
fn bridge_camera_conversion_roundtrip() {
    let pos = [1.0f32.to_bits(), 2.0f32.to_bits(), 3.0f32.to_bits()];
    let identity: [f32; 16] = [1.0, 0.0, 0.0, 0.0, 0.0, 1.0, 0.0, 0.0, 0.0, 0.0, 1.0, 0.0, 0.0, 0.0, 0.0, 1.0];
    let (p, v, pr) = stratum_camera_to_external(pos, identity, identity);
    assert_eq!(p, pos);
    assert_eq!(v, identity);
    assert_eq!(pr, identity);
}

#[test]
fn last_of_three_releases_hands_back_the_handle() {
    let mut registry = AssetRegistry::new();
    let (h, _) = registry.register_texture(5);
    registry.register_texture(5);
    registry.register_texture(5);
    assert_eq!(registry.unregister_texture(5), None);
    assert_eq!(registry.unregister_texture(5), None);
    assert_eq!(registry.texture_count(), 1);
    assert_eq!(registry.unregister_texture(5), Some(h));
    assert_eq!(registry.texture_count(), 0);
    assert_eq!(registry.unregister_texture(5), None);
}
