//! Streaming policy presets.
use vstd::prelude::*;

verus! {

/// Streaming policy for determining which chunks to load/unload
/// (real-valued fields as `f32` bits).
#[derive(Debug, Clone, Copy, PartialEq, Eq)]
pub struct StreamingPolicy {
    /// Minimum time between LOD evaluations (ms).
    pub min_eval_interval_ms: u64,
    /// Distance scale factor for screen-space size calculation.
    pub distance_scale: u32,
    /// Hysteresis factor to prevent LOD thrashing (0.0-1.0).
    pub lod_hysteresis: u32,
    /// Enable predictive loading based on camera velocity.
    pub predictive_loading: bool,
    /// Time ahead to predict for preloading (seconds).
    pub prediction_time: u32,
}

impl Default for StreamingPolicy {
    /// ~60 FPS evaluation, scale 1.0, hysteresis 0.1, prediction 2 s ahead.
    fn default() -> (p: Self)
        ensures
            p == (StreamingPolicy {
                min_eval_interval_ms: 16,
                distance_scale: 0x3f80_0000,
                lod_hysteresis: 0x3dcc_cccd,
                predictive_loading: true,
                prediction_time: 0x4000_0000,
            }),
    {
        StreamingPolicy {
            min_eval_interval_ms: 16,
            distance_scale: 0x3f80_0000,
            lod_hysteresis: 0x3dcc_cccd,
            predictive_loading: true,
            prediction_time: 0x4000_0000,
        }
    }
}

impl StreamingPolicy {
    /// Create a conservative policy for low-end hardware: ~30 FPS evaluation,
    /// scale 0.8, hysteresis 0.2, no prediction (1 s horizon).
    pub fn conservative() -> (p: Self)
        ensures
            p == (StreamingPolicy {
                min_eval_interval_ms: 33,
                distance_scale: 0x3f4c_cccd,
                lod_hysteresis: 0x3e4c_cccd,
                predictive_loading: false,
                prediction_time: 0x3f80_0000,
            }),
    {
        StreamingPolicy {
            min_eval_interval_ms: 33,
            distance_scale: 0x3f4c_cccd,
            lod_hysteresis: 0x3e4c_cccd,
            predictive_loading: false,
            prediction_time: 0x3f80_0000,
        }
    }

    /// Create an aggressive policy for high-end hardware: ~120 FPS
    /// evaluation, scale 1.2, hysteresis 0.05, prediction 3 s ahead.
    pub fn aggressive() -> (p: Self)
        ensures
            p == (StreamingPolicy {
                min_eval_interval_ms: 8,
                distance_scale: 0x3f99_999a,
                lod_hysteresis: 0x3d4c_cccd,
                predictive_loading: true,
                prediction_time: 0x4040_0000,
            }),
    {
        StreamingPolicy {
            min_eval_interval_ms: 8,
            distance_scale: 0x3f99_999a,
            lod_hysteresis: 0x3d4c_cccd,
            predictive_loading: true,
            prediction_time: 0x4040_0000,
        }
    }
}

} // verus!
