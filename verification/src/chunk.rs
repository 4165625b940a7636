//! Chunks of the streaming world: metadata, runtime lifecycle and the byte
//! framing of chunk files on disk.
use std::sync::Arc;
use std::time::{Duration, Instant};
use vstd::prelude::*;
use crate::text::{signed_decimal, push_signed_decimal};
use crate::types::{spec_pack, chunk_id_text, ChunkId, ChunkState};

verus! {

#[verifier::external_type_specification]
#[verifier::external_body]
pub struct ExInstant(std::time::Instant);

#[verifier::external_type_specification]
#[verifier::external_body]
pub struct ExIoError(std::io::Error);

/// `Instant::now`: the current instant. Nothing is claimed of it: it
/// depends on the clock.
#[verifier::external_body]
fn instant_now() -> Instant {
    Instant::now()
}

/// `Instant::elapsed`: the time since `start`. Nothing is claimed of it: it
/// depends on the clock.
#[verifier::external_body]
fn instant_elapsed(start: &Instant) -> Duration {
    start.elapsed()
}

/// What `lz4::block::compress(src, None, true)` produces for `src`
/// (`None` when it reports an error): a little-endian `i32` size prefix and
/// an LZ4 block. LZ4 block compression is a deterministic function of its
/// input.
pub uninterp spec fn lz4_block_compressed(src: Seq<u8>) -> Option<Seq<u8>>;

/// What `lz4::block::decompress(src, None)` produces for `src` (`None` when
/// it reports an error).
pub uninterp spec fn lz4_block_decompressed(src: Seq<u8>) -> Option<Seq<u8>>;

/// The little-endian `u32` in the first four bytes of `s`.
pub open spec fn le_u32_prefix(s: Seq<u8>) -> int {
    s[0] as int + s[1] as int * 0x100 + s[2] as int * 0x10000 + s[3] as int * 0x1000000
}

/// `lz4::block::compress(src, None, true)`: the input's length as a size
/// prefix, then an LZ4 block. Claimed: the outcome is the named one for
/// `src`; inputs longer than `i32::MAX` bytes are refused (the crate checks
/// this before calling the C library); and what it produces decompresses
/// back to `src` (LZ4 is lossless, and the prefix is the size that
/// `decompress` reads).
#[verifier::external_body]
fn lz4_compress(src: &[u8]) -> (r: Result<Vec<u8>, std::io::Error>)
    ensures
        match r {
            Ok(v) => lz4_block_compressed(src@) == Some(v@) && lz4_block_decompressed(v@) == Some(src@),
            Err(_) => lz4_block_compressed(src@) is None,
        },
        src@.len() > 0x7fff_ffff ==> r is Err,
{
    lz4::block::compress(src, None, true)
}

/// `lz4::block::decompress(src, None)`: the block's size is read from the
/// first four bytes (little-endian). Claimed: the outcome is the named one
/// for `src`; inputs shorter than four bytes are refused; a successful
/// result is never longer than the size prefix announces (the crate
/// decompresses into a buffer of that size and truncates it).
#[verifier::external_body]
fn lz4_decompress(src: &[u8]) -> (r: Result<Vec<u8>, std::io::Error>)
    ensures
        match r {
            Ok(v) => lz4_block_decompressed(src@) == Some(v@),
            Err(_) => lz4_block_decompressed(src@) is None,
        },
        src@.len() < 4 ==> r is Err,
        r matches Ok(v) ==> v@.len() <= le_u32_prefix(src@),
{
    lz4::block::decompress(src, None)
}

/// `io::Error`'s display text. Nothing is claimed of it.
#[verifier::external_body]
fn io_error_text(e: &std::io::Error) -> String {
    e.to_string()
}

/// Metadata describing a chunk's place in the grid. Its world-space box is
/// `grid * chunk_size ± chunk_size / 2` (computed by the caller, which owns
/// real arithmetic).
#[derive(Debug, Clone, Copy, PartialEq, Eq)]
pub struct ChunkMetadata {
    /// Unique identifier for this chunk.
    pub id: ChunkId,
    /// Level of detail (0 = highest detail).
    pub lod: u8,
    /// Grid coordinates in the world partition.
    pub grid_coords: (i32, i32, i32),
    /// Side length of the chunk (`f32` bits).
    pub chunk_size: u32,
}

impl ChunkMetadata {
    /// Create new chunk metadata from grid coordinates and chunk size.
    pub fn new(grid_x: i32, grid_y: i32, grid_z: i32, lod: u8, chunk_size: u32) -> (m: Self)
        ensures
            m.id.0 as int == spec_pack(grid_x as int, grid_y as int, grid_z as int, lod as int),
            m.lod == lod,
            m.grid_coords == (grid_x, grid_y, grid_z),
            m.chunk_size == chunk_size,
    {
        ChunkMetadata {
            id: ChunkId::from_coords(grid_x, grid_y, grid_z, lod),
            lod,
            grid_coords: (grid_x, grid_y, grid_z),
            chunk_size,
        }
    }
}

/// Whether a chunk in this state holds its data in memory.
pub open spec fn loaded_state(s: ChunkState) -> bool {
    s == ChunkState::Loaded || s == ChunkState::Visible || s == ChunkState::Hidden
}

/// Represents a chunk's runtime state and data.
pub struct Chunk {
    /// Metadata describing the chunk's spatial properties.
    pub metadata: ChunkMetadata,
    /// Current loading/visibility state.
    pub state: ChunkState,
    /// Priority for loading, higher = more important (`f32` bits).
    pub priority: u32,
    /// Frame number when this chunk was last evaluated.
    pub last_eval_frame: u64,
    /// Timestamp when loading started (for timeout detection).
    pub load_start_time: Option<Instant>,
    /// Path to the chunk file on disk.
    pub file_path: Option<String>,
    /// Compressed chunk data (cached in memory after loading).
    pub cached_data: Option<Arc<Vec<u8>>>,
    /// Size of the chunk data in bytes (for memory tracking).
    pub data_size_bytes: usize,
}

/// A fresh chunk: unloaded, no data, no path, priority `0.0`.
pub open spec fn fresh_chunk(metadata: ChunkMetadata) -> Chunk {
    Chunk {
        metadata,
        state: ChunkState::Unloaded,
        priority: 0,
        last_eval_frame: 0,
        load_start_time: None,
        file_path: None,
        cached_data: None,
        data_size_bytes: 0,
    }
}

/// The chunk after a successful load of `data`.
pub open spec fn loaded_chunk(c: Chunk, data: Arc<Vec<u8>>) -> Chunk {
    Chunk {
        state: ChunkState::Loaded,
        data_size_bytes: data@.len() as usize,
        cached_data: Some(data),
        load_start_time: None,
        ..c
    }
}

/// The chunk after its eviction completed.
pub open spec fn evicted_chunk(c: Chunk) -> Chunk {
    Chunk { state: ChunkState::Unloaded, cached_data: None, data_size_bytes: 0, load_start_time: None, ..c }
}

/// The state after a visibility request.
pub open spec fn visibility_state(s: ChunkState, visible: bool) -> ChunkState {
    if visible && loaded_state(s) {
        ChunkState::Visible
    } else if !visible && s == ChunkState::Visible {
        ChunkState::Loaded
    } else {
        s
    }
}

impl Chunk {
    /// Create a new chunk in the Unloaded state.
    pub fn new(metadata: ChunkMetadata) -> (c: Self)
        ensures
            c == fresh_chunk(metadata),
    {
        Chunk {
            metadata,
            state: ChunkState::Unloaded,
            priority: 0,
            last_eval_frame: 0,
            load_start_time: None,
            file_path: None,
            cached_data: None,
            data_size_bytes: 0,
        }
    }

    /// Check if the chunk is currently loaded in memory (any loaded state).
    pub fn is_loaded(&self) -> (b: bool)
        ensures
            b == loaded_state(self.state),
    {
        match self.state {
            ChunkState::Loaded | ChunkState::Visible | ChunkState::Hidden => true,
            _ => false,
        }
    }

    /// Check if the chunk is visible and should be rendered.
    pub fn is_visible(&self) -> (b: bool)
        ensures
            b == (self.state == ChunkState::Visible),
    {
        match self.state {
            ChunkState::Visible => true,
            _ => false,
        }
    }

    /// Check if the chunk is currently being loaded.
    pub fn is_loading(&self) -> (b: bool)
        ensures
            b == (self.state == ChunkState::Loading),
    {
        match self.state {
            ChunkState::Loading => true,
            _ => false,
        }
    }

    /// Mark chunk as loaded without actually loading from disk (for demos/testing).
    pub fn mark_loaded(&mut self)
        ensures
            (old(self).state == ChunkState::Unloaded || old(self).state == ChunkState::Loading)
                ==> *final(self) == (Chunk { state: ChunkState::Loaded, load_start_time: None, ..*old(self) }),
            !(old(self).state == ChunkState::Unloaded || old(self).state == ChunkState::Loading)
                ==> *final(self) == *old(self),
    {
        match self.state {
            ChunkState::Unloaded | ChunkState::Loading => {
                self.state = ChunkState::Loaded;
                self.load_start_time = None;
            },
            _ => {},
        }
    }

    /// Check if the chunk is unloaded or being evicted.
    pub fn is_unloaded(&self) -> (b: bool)
        ensures
            b == (self.state == ChunkState::Unloaded || self.state == ChunkState::Evicting),
    {
        match self.state {
            ChunkState::Unloaded | ChunkState::Evicting => true,
            _ => false,
        }
    }

    /// Transition to Loading state, stamping the start time.
    pub fn begin_loading(&mut self)
        ensures
            *final(self) == (Chunk {
                state: ChunkState::Loading,
                load_start_time: final(self).load_start_time,
                ..*old(self)
            }),
            final(self).load_start_time is Some,
    {
        self.state = ChunkState::Loading;
        self.load_start_time = Some(instant_now());
    }

    /// Transition to Loaded state after successful load.
    pub fn finish_loading(&mut self, data: Arc<Vec<u8>>)
        ensures
            *final(self) == loaded_chunk(*old(self), data),
    {
        self.state = ChunkState::Loaded;
        self.data_size_bytes = data.len();
        self.cached_data = Some(data);
        self.load_start_time = None;
    }

    /// Transition to or from the Visible state.
    pub fn set_visible(&mut self, visible: bool)
        ensures
            *final(self) == (Chunk { state: visibility_state(old(self).state, visible), ..*old(self) }),
    {
        if visible && self.is_loaded() {
            self.state = ChunkState::Visible;
        } else if !visible && self.is_visible() {
            self.state = ChunkState::Loaded;
        }
    }

    /// Begin eviction process.
    pub fn begin_evicting(&mut self)
        ensures
            *final(self) == (Chunk { state: ChunkState::Evicting, ..*old(self) }),
    {
        self.state = ChunkState::Evicting;
    }

    /// Complete eviction and return to Unloaded state.
    pub fn finish_evicting(&mut self)
        ensures
            *final(self) == evicted_chunk(*old(self)),
    {
        self.state = ChunkState::Unloaded;
        self.cached_data = None;
        self.data_size_bytes = 0;
        self.load_start_time = None;
    }

    /// Get loading duration if currently loading.
    pub fn loading_duration(&self) -> (d: Option<Duration>)
        ensures
            d is Some == self.load_start_time is Some,
    {
        match &self.load_start_time {
            Some(start) => Some(instant_elapsed(start)),
            None => None,
        }
    }
}

/// Serializable chunk data format for disk storage.
#[derive(Debug)]
pub struct ChunkData {
    /// Chunk metadata.
    pub metadata: ChunkMetadata,
    /// Version number for format compatibility.
    pub version: u32,
    /// Serialized object data (positions, meshes, materials, etc.).
    pub object_data: Vec<u8>,
    /// Optional compressed mesh data.
    pub mesh_data: Option<Vec<u8>>,
    /// Optional compressed texture data.
    pub texture_data: Option<Vec<u8>>,
}

/// One chunk file to read: which chunk, from where, and whether its bytes
/// are compressed.
#[derive(Debug, Clone)]
pub struct ChunkIoTask {
    pub chunk_id: ChunkId,
    pub file_path: String,
    pub compressed: bool,
}

/// Current version of the chunk data format.
pub const CHUNK_DATA_VERSION: u32 = 1;

impl ChunkData {
    /// Create a new ChunkData with the current version.
    pub fn new(metadata: ChunkMetadata) -> (d: Self)
        ensures
            d.metadata == metadata,
            d.version == CHUNK_DATA_VERSION,
            d.object_data@ == Seq::<u8>::empty(),
            d.mesh_data is None,
            d.texture_data is None,
    {
        ChunkData {
            metadata,
            version: CHUNK_DATA_VERSION,
            object_data: Vec::new(),
            mesh_data: None,
            texture_data: None,
        }
    }
}

/// Errors that can occur during chunk operations.
#[derive(Debug)]
pub enum ChunkError {
    SerializationFailed(String),
    DeserializationFailed(String),
    CompressionFailed(String),
    DecompressionFailed(String),
    IoError(std::io::Error),
    InvalidStateTransition(String),
    ChunkNotFound(ChunkId),
}

impl ChunkError {
    /// Display text of the error (`IoError` shows the I/O error's own text).
    pub fn to_string(&self) -> (s: String)
        ensures
            match self {
                ChunkError::SerializationFailed(m) => s@ == "Serialization failed: "@ + m@,
                ChunkError::DeserializationFailed(m) => s@ == "Deserialization failed: "@ + m@,
                ChunkError::CompressionFailed(m) => s@ == "Compression failed: "@ + m@,
                ChunkError::DecompressionFailed(m) => s@ == "Decompression failed: "@ + m@,
                ChunkError::IoError(_) => s@.take(10) == "IO error: "@,
                ChunkError::InvalidStateTransition(m) => s@ == "Invalid chunk state transition: "@ + m@,
                ChunkError::ChunkNotFound(id) => s@ == "Chunk not found: "@ + chunk_id_text(id.0 as int),
            },
    {
        match self {
            ChunkError::SerializationFailed(m) => String::from_str("Serialization failed: ").concat(m.as_str()),
            ChunkError::DeserializationFailed(m) => String::from_str("Deserialization failed: ").concat(m.as_str()),
            ChunkError::CompressionFailed(m) => String::from_str("Compression failed: ").concat(m.as_str()),
            ChunkError::DecompressionFailed(m) => String::from_str("Decompression failed: ").concat(m.as_str()),
            ChunkError::IoError(e) => {
                let t = io_error_text(e);
                let s = String::from_str("IO error: ").concat(t.as_str());
                proof {
                    reveal_strlit("IO error: ");
                    assert(s@.take(10) =~= "IO error: "@);
                }
                s
            },
            ChunkError::InvalidStateTransition(m) => String::from_str("Invalid chunk state transition: ").concat(m.as_str()),
            ChunkError::ChunkNotFound(id) => {
                let t = id.to_string();
                String::from_str("Chunk not found: ").concat(t.as_str())
            },
        }
    }
}

/// Frame serialized chunk bytes for disk: LZ4-compressed behind a size
/// prefix when `compress`, unchanged otherwise. Framed bytes decode back to
/// the input under the same setting (see [`decode_chunk_bytes`]).
pub fn encode_chunk_bytes(json_bytes: Vec<u8>, compress: bool) -> (r: Result<Vec<u8>, ChunkError>)
    ensures
        !compress ==> (r matches Ok(v) && v@ == json_bytes@),
        compress ==> match lz4_block_compressed(json_bytes@) {
            Some(c) => r matches Ok(v) && v@ == c,
            None => r matches Err(ChunkError::CompressionFailed(_)),
        },
        compress ==> (r matches Ok(v) ==> lz4_block_decompressed(v@) == Some(json_bytes@)),
{
    if compress {
        match lz4_compress(json_bytes.as_slice()) {
            Ok(v) => Ok(v),
            Err(e) => Err(ChunkError::CompressionFailed(io_error_text(&e))),
        }
    } else {
        Ok(json_bytes)
    }
}

/// Undo the disk framing of chunk bytes: LZ4-decompress (reading the size
/// from the first four bytes) when `compressed`, copy otherwise.
pub fn decode_chunk_bytes(bytes: &[u8], compressed: bool) -> (r: Result<Vec<u8>, ChunkError>)
    ensures
        !compressed ==> (r matches Ok(v) && v@ == bytes@),
        compressed ==> match lz4_block_decompressed(bytes@) {
            Some(d) => r matches Ok(v) && v@ == d,
            None => r matches Err(ChunkError::DecompressionFailed(_)),
        },
        compressed && bytes@.len() < 4 ==> (r matches Err(ChunkError::DecompressionFailed(_))),
{
    if compressed {
        match lz4_decompress(bytes) {
            Ok(v) => Ok(v),
            Err(e) => Err(ChunkError::DecompressionFailed(io_error_text(&e))),
        }
    } else {
        Ok(vstd::slice::slice_to_vec(bytes))
    }
}

} // verus!
