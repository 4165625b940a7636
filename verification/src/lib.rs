//! Stratum — world orchestration for large streamed 3D worlds.
//!
//! This crate holds the verified core of the world layer: chunk identifiers,
//! chunk and level lifecycles, entity and camera bookkeeping, render-view
//! ordering, the on-disk layout of levels, the streaming decisions, prefab
//! templates, renderer asset reference counts and the changes that keep a
//! renderer's scene in step with a level.
pub mod asset_registry;
pub mod bridge;
pub mod camera;
pub mod chunk;
mod keyed;
pub mod entity;
pub mod level;
pub mod level_fs;
pub mod metrics;
pub mod mode;
pub mod partition;
pub mod prefab;
pub mod render_graph;
pub mod render_view;
pub mod scene_sync;
pub mod stratum;
pub mod streaming;
pub mod text;
pub mod types;
pub mod world_partition;
