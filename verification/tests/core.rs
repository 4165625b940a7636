use std::sync::Arc;
use stratum::chunk::{decode_chunk_bytes, encode_chunk_bytes, Chunk, ChunkError, ChunkMetadata};
use stratum::metrics::WorldPartitionMetrics;
use stratum::mode::SimulationMode;
use stratum::render_view::RenderTargetHandle;
use stratum::streaming::StreamingPolicy;
use stratum::types::{ChunkId, ChunkState};

#[test]
fn test_chunk_id_encoding() {
    let id = ChunkId::from_coords(10, -5, 127, 3);
    let (x, y, z, lod) = id.to_coords();
    assert_eq!((x, y, z, lod), (10, -5, 127, 3));
}

#[test]
fn test_chunk_id_negative_coords() {
    let id = ChunkId::from_coords(-100, -200, -50, 2);
    let (x, y, z, lod) = id.to_coords();
    assert_eq!((x, y, z, lod), (-100, -200, -50, 2));
}

#[test]
fn chunk_id_packs_fields_in_order() {
    // [LOD:8][reserved:2][X:18][Y:18][Z:18], coordinates in two's complement.
    assert_eq!(ChunkId::from_coords(0, 0, 0, 0).0, 0);
    assert_eq!(ChunkId::from_coords(0, 0, 1, 0).0, 1);
    assert_eq!(ChunkId::from_coords(0, 1, 0, 0).0, 1 << 18);
    assert_eq!(ChunkId::from_coords(1, 0, 0, 0).0, 1 << 36);
    assert_eq!(ChunkId::from_coords(0, 0, 0, 7).0, 7 << 56);
    assert_eq!(ChunkId::from_coords(0, 0, -1, 0).0, 0x3ffff);
}

#[test]
fn chunk_id_coordinate_range_edges_round_trip() {
    for &(x, y, z) in &[(131_071, -131_072, 0), (-1, -1, -1), (-131_072, 131_071, 12_345)] {
        let id = ChunkId::from_coords(x, y, z, 255);
        assert_eq!(id.to_coords(), (x, y, z, 255));
    }
}

#[test]
fn chunk_id_wraps_out_of_range_coordinates() {
    // 2^18 + 3 keeps only its low 18 bits; 2^17 reads back as -2^17.
    assert_eq!(ChunkId::from_coords(262_147, 0, 0, 0).to_coords(), (3, 0, 0, 0));
    assert_eq!(ChunkId::from_coords(131_072, 0, 0, 0).to_coords(), (-131_072, 0, 0, 0));
}

#[test]
fn chunk_id_display() {
    assert_eq!(ChunkId::from_coords(1, -2, 3, 4).to_string(), "ChunkId(1, -2, 3 @ LOD4)");
}

#[test]
fn chunk_state_default_is_unloaded() {
    assert_eq!(ChunkState::default(), ChunkState::Unloaded);
}

#[test]
fn editor_is_editor() {
    assert!(SimulationMode::Editor.is_editor());
    assert!(!SimulationMode::Editor.is_game());
}

#[test]
fn game_is_game() {
    assert!(SimulationMode::Game.is_game());
    assert!(!SimulationMode::Game.is_editor());
}

#[test]
fn toggle_editor_to_game() {
    let mut mode = SimulationMode::Editor;
    mode.toggle();
    assert!(mode.is_game());
}

#[test]
fn toggle_game_to_editor() {
    let mut mode = SimulationMode::Game;
    mode.toggle();
    assert!(mode.is_editor());
}

#[test]
fn toggle_twice_returns_to_original() {
    let mut mode = SimulationMode::Editor;
    mode.toggle();
    mode.toggle();
    assert!(mode.is_editor());
}

#[test]
fn test_metrics_reset() {
    let mut metrics = WorldPartitionMetrics::default();
    metrics.chunks_loaded = 100;
    metrics.reset();
    assert_eq!(metrics.chunks_loaded, 0);
}

#[test]
fn metrics_reset_clears_every_counter() {
    let mut m = WorldPartitionMetrics {
        frames: 9,
        chunks_loaded: 8,
        chunks_evicted: 7,
        chunks_failed: 6,
        pending_load_tasks: 5,
        last_commit_ns: 4,
    };
    m.reset();
    assert_eq!(m, WorldPartitionMetrics::default());
}

#[test]
fn metrics_format_summary_text() {
    let m = WorldPartitionMetrics {
        frames: 60,
        chunks_loaded: 10,
        chunks_evicted: 3,
        chunks_failed: 2,
        pending_load_tasks: 4,
        last_commit_ns: 1_234_567,
    };
    let ms = format!("{:.2}", std::time::Duration::from_nanos(m.last_commit_ns).as_secs_f64() * 1000.0);
    assert_eq!(ms, "1.23");
    assert_eq!(
        m.format_summary(&ms),
        "Frames: 60 | Loaded: 10 | Evicted: 3 | Failed: 2 | Pending: 4 | Last Commit: 1.23ms"
    );
}

#[test]
fn metrics_format_summary_zero() {
    let m = WorldPartitionMetrics::default();
    assert_eq!(
        m.format_summary("0.00"),
        "Frames: 0 | Loaded: 0 | Evicted: 0 | Failed: 0 | Pending: 0 | Last Commit: 0.00ms"
    );
}

#[test]
fn test_streaming_policy_presets() {
    let conservative = StreamingPolicy::conservative();
    assert_eq!(conservative.min_eval_interval_ms, 33);

    let aggressive = StreamingPolicy::aggressive();
    assert_eq!(aggressive.min_eval_interval_ms, 8);
    assert!(aggressive.predictive_loading);
}

#[test]
fn streaming_policy_default_values() {
    let p = StreamingPolicy::default();
    assert_eq!(p.min_eval_interval_ms, 16);
    assert_eq!(f32::from_bits(p.distance_scale), 1.0);
    assert_eq!(f32::from_bits(p.lod_hysteresis), 0.1);
    assert!(p.predictive_loading);
    assert_eq!(f32::from_bits(p.prediction_time), 2.0);
    assert!(!StreamingPolicy::conservative().predictive_loading);
}

#[test]
fn render_target_handle_equality() {
    let a = RenderTargetHandle::PrimarySurface;
    let b = RenderTargetHandle::PrimarySurface;
    let c = RenderTargetHandle::OffscreenTexture("foo".into());
    let d = RenderTargetHandle::OffscreenTexture("foo".into());
    let e = RenderTargetHandle::ViewportSlot(1);
    assert_eq!(a, b);
    assert_eq!(c, d);
    assert_ne!(a, c);
    assert_ne!(c, e);
}

#[test]
fn render_target_same_as_follows_names() {
    let c = RenderTargetHandle::OffscreenTexture("foo".into());
    let d = RenderTargetHandle::OffscreenTexture("foo".into());
    let f = RenderTargetHandle::OffscreenTexture("bar".into());
    assert!(c.same_as(&d));
    assert!(!c.same_as(&f));
    assert!(RenderTargetHandle::ViewportSlot(2).same_as(&RenderTargetHandle::ViewportSlot(2)));
    assert!(!RenderTargetHandle::ViewportSlot(2).same_as(&RenderTargetHandle::ViewportSlot(3)));
    assert!(!RenderTargetHandle::PrimarySurface.same_as(&c));
}

#[test]
fn test_chunk_metadata_creation() {
    let metadata = ChunkMetadata::new(0, 0, 0, 0, 100.0f32.to_bits());
    assert_eq!(metadata.grid_coords, (0, 0, 0));
    assert_eq!(metadata.lod, 0);
    assert_eq!(metadata.id, ChunkId::from_coords(0, 0, 0, 0));
}

#[test]
fn test_chunk_state_transitions() {
    let metadata = ChunkMetadata::new(0, 0, 0, 0, 100.0f32.to_bits());
    let mut chunk = Chunk::new(metadata);

    assert!(chunk.is_unloaded());

    chunk.begin_loading();
    assert!(chunk.is_loading());

    let data = Arc::new(vec![1, 2, 3, 4]);
    chunk.finish_loading(data);
    assert!(chunk.is_loaded());
    assert!(!chunk.is_visible());

    chunk.set_visible(true);
    assert!(chunk.is_visible());

    chunk.set_visible(false);
    assert!(chunk.is_loaded());
    assert!(!chunk.is_visible());
}

#[test]
fn chunk_load_and_evict_keeps_accounting() {
    let mut chunk = Chunk::new(ChunkMetadata::new(1, 2, 3, 0, 16.0f32.to_bits()));
    chunk.begin_loading();
    assert!(chunk.loading_duration().is_some());
    chunk.finish_loading(Arc::new(vec![0u8; 32]));
    assert_eq!(chunk.data_size_bytes, 32);
    assert!(chunk.loading_duration().is_none());
    chunk.begin_evicting();
    assert_eq!(chunk.state, ChunkState::Evicting);
    chunk.finish_evicting();
    assert!(chunk.is_unloaded());
    assert!(chunk.cached_data.is_none());
    assert_eq!(chunk.data_size_bytes, 0);
}

#[test]
fn set_visible_on_unloaded_chunk_does_nothing() {
    let mut chunk = Chunk::new(ChunkMetadata::new(0, 0, 0, 0, 16.0f32.to_bits()));
    chunk.set_visible(true);
    assert!(chunk.is_unloaded());
}

#[test]
fn chunk_bytes_uncompressed_pass_through() {
    let json = b"{\"version\":1}".to_vec();
    let framed = encode_chunk_bytes(json.clone(), false).unwrap();
    assert_eq!(framed, json);
    assert_eq!(decode_chunk_bytes(&framed, false).unwrap(), json);
}

#[test]
fn chunk_bytes_compression_shrinks_repetitive_data() {
    let zeros = vec![0u8; 10000];
    let framed = encode_chunk_bytes(zeros.clone(), true).unwrap();
    assert!(framed.len() < 10000);
    assert_ne!(framed, zeros);
}

#[test]
fn chunk_bytes_short_compressed_input_fails() {
    match decode_chunk_bytes(&[1, 2], true) {
        Err(ChunkError::DecompressionFailed(_)) => {}
        other => panic!("unexpected: {:?}", other.map(|v| v.len())),
    }
}

#[test]
fn chunk_error_texts() {
    assert_eq!(ChunkError::CompressionFailed("x".into()).to_string(), "Compression failed: x");
    assert_eq!(
        ChunkError::ChunkNotFound(ChunkId::from_coords(1, 2, 3, 0)).to_string(),
        "Chunk not found: ChunkId(1, 2, 3 @ LOD0)"
    );
    let io = ChunkError::IoError(std::io::Error::new(std::io::ErrorKind::NotFound, "gone"));
    assert_eq!(io.to_string(), "IO error: gone");
}

#[test]
fn chunk_bytes_decode_reads_size_prefixed_blocks() {
    let payload: Vec<u8> = (0..5000u32).map(|i| (i % 7) as u8).collect();
    let block = lz4::block::compress(&payload, None, true).unwrap();
    assert_ne!(block, payload);
    assert_eq!(decode_chunk_bytes(&block, true).unwrap(), payload);
}

#[test]
fn chunk_bytes_compressed_round_trip() {
    let json: Vec<u8> = b"{\"version\":1,\"object_data\":[0,0,0,0,0,0,0,0]}".iter().cycle().take(10_000).copied().collect();
    let framed = encode_chunk_bytes(json.clone(), true).unwrap();
    assert!(framed.len() < json.len());
    assert_eq!(decode_chunk_bytes(&framed, true).unwrap(), json);
    let zeros = vec![0u8; 10000];
    let framed = encode_chunk_bytes(zeros.clone(), true).unwrap();
    assert_eq!(decode_chunk_bytes(&framed, true).unwrap().len(), 10000);
}

#[test]
fn chunk_id_pack_of_unpacked_gives_it_back() {
    for &raw in &[0u64, 0x3ffff, (5u64 << 56) | (0x3ffffu64 << 36) | (7 << 18) | 0x20000, 0xff3f_ffff_ffff_ffff] {
        let id = ChunkId(raw);
        let (x, y, z, lod) = id.to_coords();
        assert_eq!(ChunkId::from_coords(x, y, z, lod), id);
    }
    assert_eq!(ChunkId::from_coords(3, 4, 5, 6), ChunkId::from_coords(3 + 262_144, 4 - 262_144, 5, 6));
    assert_ne!(ChunkId::from_coords(3, 4, 5, 6), ChunkId::from_coords(3, 4, 5, 7));
}
