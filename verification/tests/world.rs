use stratum::camera::{CameraId, CameraKind, CameraRegistry, Projection, StratumCamera};
use stratum::entity::{Components, LightData, MeshHandle, Transform};
use stratum::level::LevelId;
use stratum::mode::SimulationMode;
use stratum::partition::ChunkCoord;
use stratum::render_graph::{camera_active_in_mode, ordered_view_cameras, render_candidates};
use stratum::render_view::RenderTargetHandle;
use stratum::stratum::Stratum;

fn bits(v: f32) -> u32 {
    v.to_bits()
}

fn bits3(x: f32, y: f32, z: f32) -> [u32; 3] {
    [x.to_bits(), y.to_bits(), z.to_bits()]
}

fn full_viewport() -> [u32; 4] {
    [bits(0.0), bits(0.0), bits(1.0), bits(1.0)]
}

fn make_stratum(mode: SimulationMode) -> Stratum {
    Stratum::new(mode)
}

fn game_camera() -> StratumCamera {
    StratumCamera {
        id: CameraId::new(0),
        kind: CameraKind::GameCamera { tag: "main".into() },
        position: bits3(0.0, 2.0, 10.0),
        yaw: bits(0.0),
        pitch: bits(-0.1),
        projection: Projection::perspective(bits(std::f32::consts::FRAC_PI_4), bits(0.1), bits(200.0)),
        render_target: RenderTargetHandle::PrimarySurface,
        viewport: full_viewport(),
        priority: 0,
        active: true,
    }
}

fn editor_camera() -> StratumCamera {
    StratumCamera {
        id: CameraId::new(0),
        kind: CameraKind::EditorPerspective,
        position: bits3(0.0, 5.0, 15.0),
        yaw: bits(0.0),
        pitch: bits(-0.3),
        projection: Projection::perspective(bits(std::f32::consts::FRAC_PI_4), bits(0.1), bits(200.0)),
        render_target: RenderTargetHandle::PrimarySurface,
        viewport: full_viewport(),
        priority: 0,
        active: true,
    }
}

fn populate_level(s: &mut Stratum, level_id: LevelId) {
    let level = s.level_mut(level_id).unwrap();
    level.spawn_entity(
        Components::new().with_transform(Transform::from_position(bits3(0.0, 0.5, 0.0))).with_mesh(MeshHandle(1)),
        ChunkCoord::new(0, 0, 0),
    );
    level.activate_all_chunks();
}

// ── Camera registry ───────────────────────────────────────────────────────────

#[test]
fn test_camera_registry() {
    let mut registry: CameraRegistry<[u32; 3]> = CameraRegistry::new();

    let id1 = registry.register_camera(bits3(0.0, 0.0, 0.0));
    let id2 = registry.register_camera(bits3(10.0, 0.0, 0.0));

    assert_eq!(registry.camera_count(), 2);
    assert_eq!(registry.primary_camera_id(), Some(id1));

    registry.set_primary_camera(id2).unwrap();
    assert_eq!(registry.primary_camera_id(), Some(id2));
    assert_eq!(registry.primary_camera(), Some(&bits3(10.0, 0.0, 0.0)));

    registry.unregister_camera(id1);
    assert_eq!(registry.camera_count(), 1);
}

#[test]
fn camera_registry_primary_moves_when_primary_leaves() {
    let mut registry: CameraRegistry<u8> = CameraRegistry::new();
    assert!(registry.primary_camera().is_none());
    let a = registry.register_camera(1);
    let b = registry.register_camera(2);
    assert_eq!(registry.unregister_camera(a), Some(1));
    assert_eq!(registry.primary_camera_id(), Some(b));
    assert_eq!(registry.unregister_camera(b), Some(2));
    assert_eq!(registry.primary_camera_id(), None);
    assert!(registry.set_primary_camera(a).is_err());
}

#[test]
fn camera_registry_ids_count_up_from_zero() {
    let mut registry: CameraRegistry<u8> = CameraRegistry::new();
    assert_eq!(registry.peek_next_id(), CameraId::new(0));
    assert_eq!(registry.register_camera(7), CameraId::new(0));
    assert_eq!(registry.register_camera(8), CameraId::new(1));
    let mut ids = registry.camera_ids();
    ids.sort_by_key(|i| i.0);
    assert_eq!(ids, vec![CameraId::new(0), CameraId::new(1)]);
    *registry.get_camera_mut(CameraId::new(1)).unwrap() = 9;
    assert_eq!(registry.get_camera(CameraId::new(1)), Some(&9));
    assert_eq!(registry.cameras().len(), 2);
}

#[test]
fn camera_modes() {
    assert!(camera_active_in_mode(&SimulationMode::Editor, &CameraKind::EditorPerspective));
    assert!(camera_active_in_mode(&SimulationMode::Editor, &CameraKind::EditorOrthographic));
    assert!(!camera_active_in_mode(&SimulationMode::Editor, &CameraKind::GameCamera { tag: "x".into() }));
    assert!(camera_active_in_mode(&SimulationMode::Game, &CameraKind::GameCamera { tag: "x".into() }));
    assert!(!camera_active_in_mode(&SimulationMode::Game, &CameraKind::EditorOrthographic));
}

// ── Stratum: mode ─────────────────────────────────────────────────────────────

#[test]
fn initial_mode_is_respected() {
    let s = make_stratum(SimulationMode::Editor);
    assert!(s.mode().is_editor());
}

#[test]
fn set_mode_changes_mode() {
    let mut s = make_stratum(SimulationMode::Editor);
    s.set_mode(SimulationMode::Game);
    assert!(s.mode().is_game());
}

#[test]
fn toggle_mode_flips_between_states() {
    let mut s = make_stratum(SimulationMode::Editor);
    s.toggle_mode();
    assert!(s.mode().is_game());
    s.toggle_mode();
    assert!(s.mode().is_editor());
}

// ── Stratum: levels ───────────────────────────────────────────────────────────

#[test]
fn create_level_returns_unique_ids() {
    let mut s = make_stratum(SimulationMode::Game);
    let id1 = s.create_level("a", bits(16.0), bits(32.0));
    let id2 = s.create_level("b", bits(16.0), bits(32.0));
    assert_ne!(id1, id2);
}

#[test]
fn first_level_is_auto_active() {
    let mut s = make_stratum(SimulationMode::Game);
    let id = s.create_level("main", bits(16.0), bits(32.0));
    assert_eq!(s.active_level().unwrap().id(), id);
}

#[test]
fn set_active_level_switches() {
    let mut s = make_stratum(SimulationMode::Game);
    let _id1 = s.create_level("a", bits(16.0), bits(32.0));
    let id2 = s.create_level("b", bits(16.0), bits(32.0));
    assert!(s.set_active_level(id2));
    assert_eq!(s.active_level().unwrap().id(), id2);
}

#[test]
fn set_active_level_unknown_returns_false() {
    let mut s = make_stratum(SimulationMode::Game);
    assert!(!s.set_active_level(LevelId::new(9999)));
}

#[test]
fn level_lookup_by_id() {
    let mut s = make_stratum(SimulationMode::Game);
    let id = s.create_level("foo", bits(16.0), bits(32.0));
    assert!(s.level(id).is_some());
    assert!(s.level(LevelId::new(9999)).is_none());
}

#[test]
fn created_level_ids_start_at_one() {
    let mut s = make_stratum(SimulationMode::Game);
    assert_eq!(s.create_level("a", bits(16.0), bits(32.0)), LevelId::new(1));
    assert_eq!(s.create_level("b", bits(16.0), bits(32.0)), LevelId::new(2));
    assert_eq!(s.levels().len(), 2);
    // The first level stays active.
    assert_eq!(s.active_level().unwrap().id(), LevelId::new(1));
}

// ── Stratum: cameras ──────────────────────────────────────────────────────────

#[test]
fn register_camera_returns_unique_id() {
    let mut s = make_stratum(SimulationMode::Game);
    let id1 = s.register_camera(game_camera());
    let id2 = s.register_camera(game_camera());
    assert_ne!(id1, id2);
}

#[test]
fn unregister_camera_removes_it() {
    let mut s = make_stratum(SimulationMode::Game);
    let id = s.register_camera(game_camera());
    assert!(s.unregister_camera(id).is_some());
    assert!(s.cameras().get_camera(id).is_none());
}

#[test]
fn registered_camera_carries_its_id() {
    let mut s = make_stratum(SimulationMode::Game);
    s.register_camera(game_camera());
    let id = s.register_camera(editor_camera());
    assert_eq!(s.cameras().get_camera(id).unwrap().id, id);
}

// ── Stratum: which cameras produce views ──────────────────────────────────────

#[test]
fn no_active_level_build_views_returns_empty() {
    let mut s = make_stratum(SimulationMode::Game);
    s.register_camera(game_camera());
    assert!(s.view_cameras().is_empty());
}

#[test]
fn build_views_game_mode_uses_game_camera() {
    let mut s = make_stratum(SimulationMode::Game);
    let level_id = s.create_level("world", bits(16.0), bits(48.0));
    populate_level(&mut s, level_id);
    s.register_camera(game_camera());
    s.register_camera(editor_camera());
    let views = s.view_cameras();
    assert_eq!(views.len(), 1, "only the game camera should render in Game mode");
}

#[test]
fn build_views_editor_mode_uses_editor_camera() {
    let mut s = make_stratum(SimulationMode::Editor);
    let level_id = s.create_level("world", bits(16.0), bits(48.0));
    populate_level(&mut s, level_id);
    s.register_camera(game_camera());
    s.register_camera(editor_camera());
    let views = s.view_cameras();
    assert_eq!(views.len(), 1, "only the editor camera should render in Editor mode");
}

#[test]
fn build_views_no_cameras_returns_empty() {
    let mut s = make_stratum(SimulationMode::Game);
    let level_id = s.create_level("world", bits(16.0), bits(48.0));
    populate_level(&mut s, level_id);
    assert!(s.view_cameras().is_empty());
}

#[test]
fn build_views_inactive_camera_not_rendered() {
    let mut s = make_stratum(SimulationMode::Game);
    let level_id = s.create_level("world", bits(16.0), bits(48.0));
    populate_level(&mut s, level_id);
    let mut cam = game_camera();
    cam.active = false;
    s.register_camera(cam);
    assert!(s.view_cameras().is_empty());
}

#[test]
fn build_views_two_game_cameras() {
    let mut s = make_stratum(SimulationMode::Game);
    let level_id = s.create_level("world", bits(16.0), bits(48.0));
    populate_level(&mut s, level_id);
    let mut c1 = game_camera();
    let mut c2 = game_camera();
    c1.kind = CameraKind::GameCamera { tag: "p1".into() };
    c2.kind = CameraKind::GameCamera { tag: "p2".into() };
    c1.viewport = [bits(0.0), bits(0.0), bits(0.5), bits(1.0)];
    c2.viewport = [bits(0.5), bits(0.0), bits(0.5), bits(1.0)];
    s.register_camera(c1);
    s.register_camera(c2);
    let views = s.view_cameras();
    assert_eq!(views.len(), 2);
}

#[test]
fn build_views_sorted_by_priority() {
    let mut s = make_stratum(SimulationMode::Game);
    let level_id = s.create_level("world", bits(16.0), bits(48.0));
    populate_level(&mut s, level_id);
    let mut hi = game_camera();
    let mut lo = game_camera();
    hi.kind = CameraKind::GameCamera { tag: "hi".into() };
    lo.kind = CameraKind::GameCamera { tag: "lo".into() };
    hi.priority = 10;
    lo.priority = -1;
    s.register_camera(hi);
    s.register_camera(lo);
    let views = s.view_cameras();
    assert_eq!(views.len(), 2);
    let p0 = s.cameras().get_camera(views[0]).unwrap().priority;
    let p1 = s.cameras().get_camera(views[1]).unwrap().priority;
    assert!(p0 <= p1);
    assert_eq!((p0, p1), (-1, 10));
}

#[test]
fn mode_switch_changes_which_cameras_render() {
    let mut s = make_stratum(SimulationMode::Game);
    let level_id = s.create_level("world", bits(16.0), bits(48.0));
    populate_level(&mut s, level_id);
    let game = s.register_camera(game_camera());
    let editor = s.register_camera(editor_camera());

    assert_eq!(s.view_cameras(), vec![game]);
    s.set_mode(SimulationMode::Editor);
    assert_eq!(s.view_cameras(), vec![editor]);
    s.set_mode(SimulationMode::Game);
    assert_eq!(s.view_cameras(), vec![game]);
}

#[test]
fn ordered_view_cameras_many_priorities() {
    let mut reg: CameraRegistry<StratumCamera> = CameraRegistry::new();
    for p in [5, -3, 9, 0, -3, 7] {
        let mut c = game_camera();
        c.priority = p;
        reg.register_camera(c);
    }
    let mut off = game_camera();
    off.active = false;
    reg.register_camera(off);
    let order = ordered_view_cameras(&SimulationMode::Game, &reg);
    let prios: Vec<i32> = order.iter().map(|id| reg.get_camera(*id).unwrap().priority).collect();
    assert_eq!(prios, vec![-3, -3, 0, 5, 7, 9]);
}

// ── Stratum: tick ─────────────────────────────────────────────────────────────

#[test]
fn tick_advances_simulation_time_in_game_mode() {
    let mut s = make_stratum(SimulationMode::Game);
    s.create_level("world", bits(16.0), bits(32.0));
    s.register_camera(game_camera());
    let next = f32::from_bits(s.simulation_time()) + 0.016;
    s.tick(&Vec::new(), next.to_bits());
    assert!((f32::from_bits(s.simulation_time()) - 0.016).abs() < 1e-6);
}

#[test]
fn tick_does_not_advance_time_in_editor_mode() {
    let mut s = make_stratum(SimulationMode::Editor);
    s.create_level("world", bits(16.0), bits(32.0));
    s.register_camera(editor_camera());
    let next = f32::from_bits(s.simulation_time()) + 0.016;
    s.tick(&Vec::new(), next.to_bits());
    assert_eq!(f32::from_bits(s.simulation_time()), 0.0);
}

#[test]
fn tick_accumulates_over_multiple_frames() {
    let mut s = make_stratum(SimulationMode::Game);
    s.create_level("world", bits(16.0), bits(32.0));
    s.register_camera(game_camera());
    for _ in 0..60 {
        let next = f32::from_bits(s.simulation_time()) + 1.0 / 60.0;
        s.tick(&Vec::new(), next.to_bits());
    }
    assert!((f32::from_bits(s.simulation_time()) - 1.0).abs() < 0.001);
}

#[test]
fn tick_activates_wanted_cells_of_active_level() {
    let mut s = make_stratum(SimulationMode::Game);
    let id = s.create_level("world", bits(16.0), bits(32.0));
    s.register_camera(game_camera());
    s.tick(&vec![ChunkCoord::new(0, 0, 0)], 0);
    let level = s.level(id).unwrap();
    assert_eq!(level.partition().active_chunks().len(), 1);
}

#[test]
fn active_camera_positions_skip_inactive() {
    let mut s = make_stratum(SimulationMode::Game);
    s.register_camera(game_camera());
    let mut off = editor_camera();
    off.active = false;
    s.register_camera(off);
    assert_eq!(s.active_camera_positions(), vec![bits3(0.0, 2.0, 10.0)]);
}

// ── Render candidates ─────────────────────────────────────────────────────────

#[test]
fn lights_outside_active_cells_stay_candidates() {
    // Lights stay candidates even when their cell is not active.
    let mut s = make_stratum(SimulationMode::Game);
    let level_id = s.create_level("demo", bits(16.0), bits(48.0));
    let level = s.level_mut(level_id).unwrap();
    let light = LightData::Point { color: bits3(1.0, 0.55, 0.15), intensity: bits(6.0), range: bits(5.0) };
    let lamp = level.spawn_entity(
        Components::new().with_transform(Transform::from_position(bits3(0.0, 2.2, 0.0))).with_light(light),
        ChunkCoord::new(0, 0, 0),
    );
    let far_mesh = level.spawn_entity(Components::new().with_mesh(MeshHandle(3)), ChunkCoord::new(9, 0, 0));
    let cands = render_candidates(s.level(level_id).unwrap());
    assert!(cands.contains(&lamp));
    assert!(!cands.contains(&far_mesh));
}

#[test]
fn render_candidates_active_geometry_first() {
    let mut s = make_stratum(SimulationMode::Game);
    let level_id = s.create_level("demo", bits(16.0), bits(48.0));
    let level = s.level_mut(level_id).unwrap();
    let a = level.spawn_entity(Components::new().with_mesh(MeshHandle(1)), ChunkCoord::new(0, 0, 0));
    level.activate_all_chunks();
    let light = LightData::Point { color: bits3(1.0, 1.0, 1.0), intensity: bits(1.0), range: bits(1.0) };
    let l = level.spawn_entity(Components::new().with_light(light), ChunkCoord::new(4, 0, 0));
    let cands = render_candidates(s.level(level_id).unwrap());
    assert_eq!(cands, vec![a, l]);
}
