//! Core identifiers and states of the streaming world.
use vstd::arithmetic::div_mod::{lemma_div_multiples_vanish_fancy, lemma_mod_multiples_vanish};
use vstd::prelude::*;
use crate::text::{push_signed_decimal, push_decimal, signed_decimal, decimal};

verus! {

/// Number of bits that each grid coordinate occupies inside a [`ChunkId`].
pub const COORD_BITS: u64 = 18;

/// `2^18`: the number of distinct values of one packed coordinate.
pub open spec fn coord_span() -> int {
    0x40000
}

/// The 18-bit field that a signed coordinate is stored as (two's complement).
pub open spec fn coord_field(v: int) -> int {
    v % coord_span()
}

/// The signed coordinate that an 18-bit field stands for (sign extension).
pub open spec fn field_coord(f: int) -> int {
    if f >= 0x20000 {
        f - coord_span()
    } else {
        f
    }
}

/// The coordinate that survives packing: `v` folded into `[-2^17, 2^17)`.
pub open spec fn wrap_coord(v: int) -> int {
    field_coord(coord_field(v))
}

/// Whether `v` survives packing unchanged.
pub open spec fn coord_in_range(v: int) -> bool {
    -0x20000 <= v < 0x20000
}

/// The packed value: `[LOD:8][reserved:2][X:18][Y:18][Z:18]`.
pub open spec fn spec_pack(x: int, y: int, z: int, lod: int) -> int {
    lod * 0x100_0000_0000_0000 + coord_field(x) * 0x10_0000_0000 + coord_field(y) * coord_span()
        + coord_field(z)
}

/// The coordinates and LOD that a packed value holds.
pub open spec fn spec_unpack(id: int) -> (int, int, int, int) {
    (
        field_coord((id / 0x10_0000_0000) % coord_span()),
        field_coord((id / coord_span()) % coord_span()),
        field_coord(id % coord_span()),
        id / 0x100_0000_0000_0000,
    )
}

/// Unique identifier for a chunk in the world partition system.
/// Encoded as a 64-bit integer for efficient storage and hashing.
#[derive(Debug, Clone, Copy, PartialEq, Eq, Hash, Structural)]
pub struct ChunkId(pub u64);

proof fn lemma_field_of_i32(v: i32)
    ensures
        (#[verifier::truncate] (v as u32) & 0x3ffffu32) as int == coord_field(v as int),
{
    let u = #[verifier::truncate] (v as u32);
    assert(u & 0x3ffffu32 == u % 0x40000u32) by (bit_vector);
    assert((v as int) % 0x40000 == (u as int) % 0x40000) by {
        // u == v + k * 2^32 for k in {0, 1}
        assert(v < 0 ==> (v as u32) as int == v as int + 0x1_0000_0000) by (bit_vector);
        assert(v >= 0 ==> (v as u32) as int == v as int) by (bit_vector);
        if v < 0 {
            vstd::arithmetic::div_mod::lemma_mod_multiples_vanish(0x4000, v as int, 0x40000);
        }
    }
}

proof fn lemma_pack_bits(l: u64, a: u64, b: u64, c: u64)
    requires
        l < 0x100,
        a < 0x40000,
        b < 0x40000,
        c < 0x40000,
    ensures
        (l << 56u64) | (a << 36u64) | (b << 18u64) | c == l * 0x100_0000_0000_0000 + a
            * 0x10_0000_0000 + b * 0x40000 + c,
{
    assert((l << 56u64) | (a << 36u64) | (b << 18u64) | c == l * 0x100_0000_0000_0000 + a
        * 0x10_0000_0000 + b * 0x40000 + c) by (bit_vector)
        requires
            l < 0x100,
            a < 0x40000,
            b < 0x40000,
            c < 0x40000,
    ;
}

proof fn lemma_field_bits(id: u64)
    ensures
        (id >> 36u64) & 0x3ffffu64 == (id as int / 0x10_0000_0000) % coord_span(),
        (id >> 18u64) & 0x3ffffu64 == (id as int / coord_span()) % coord_span(),
        id & 0x3ffffu64 == id as int % coord_span(),
        (id >> 56u64) as int == id as int / 0x100_0000_0000_0000,
        (id >> 56u64) < 0x100,
{
    assert((id >> 36u64) & 0x3ffffu64 == (id / 0x10_0000_0000u64) % 0x40000u64) by (bit_vector);
    assert((id >> 18u64) & 0x3ffffu64 == (id / 0x40000u64) % 0x40000u64) by (bit_vector);
    assert(id & 0x3ffffu64 == id % 0x40000u64) by (bit_vector);
    assert(id >> 56u64 == id / 0x100_0000_0000_0000u64) by (bit_vector);
    assert(id >> 56u64 < 0x100u64) by (bit_vector);
}

/// The field that an 18-bit value decodes to, as an `i32`.
fn decode_field(f: u64) -> (v: i32)
    requires
        f < 0x40000,
    ensures
        v as int == field_coord(f as int),
{
    if f >= 0x20000 {
        (f as i32) - 0x40000
    } else {
        f as i32
    }
}

/// Packing and unpacking agree: the LOD always survives, and each coordinate
/// comes back folded into `[-2^17, 2^17)` (unchanged when it was in range).
pub proof fn lemma_unpack_pack(x: int, y: int, z: int, lod: int)
    requires
        0 <= lod < 0x100,
    ensures
        spec_unpack(spec_pack(x, y, z, lod)) == (wrap_coord(x), wrap_coord(y), wrap_coord(z), lod),
        coord_in_range(x) ==> wrap_coord(x) == x,
        coord_in_range(y) ==> wrap_coord(y) == y,
        coord_in_range(z) ==> wrap_coord(z) == z,
{
    let s = coord_span();
    let a = coord_field(x);
    let b = coord_field(y);
    let c = coord_field(z);
    let id = spec_pack(x, y, z, lod);
    // id = s * (lod * 2^38 + a * 2^18 + b) + c
    let q1 = lod * 0x40_0000_0000 + a * 0x40000 + b;
    assert(id == s * q1 + c);
    lemma_mod_multiples_vanish(q1, c, s);
    lemma_div_multiples_vanish_fancy(q1, c, s);
    // q1 = s * (lod * 2^20 + a) + b
    let q2 = lod * 0x100000 + a;
    assert(q1 == s * q2 + b);
    lemma_mod_multiples_vanish(q2, b, s);
    // id = 2^36 * (lod * 2^20 + a) + (b * s + c)
    let r2 = b * s + c;
    assert(id == 0x10_0000_0000 * q2 + r2);
    lemma_div_multiples_vanish_fancy(q2, r2, 0x10_0000_0000);
    // q2 = s * (4 * lod) + a
    assert(q2 == s * (4 * lod) + a);
    lemma_mod_multiples_vanish(4 * lod, a, s);
    // id = 2^56 * lod + (a * 2^36 + r2)
    let r3 = a * 0x10_0000_0000 + r2;
    assert(id == 0x100_0000_0000_0000 * lod + r3);
    lemma_div_multiples_vanish_fancy(lod, r3, 0x100_0000_0000_0000);
}

/// Packing the fields of a packed value gives it back, provided its two
/// reserved bits (54 and 55) are clear; the fields then fit an `i32` each and
/// a `u8`.
pub proof fn lemma_pack_unpack(id: u64)
    requires
        id & 0x00c0_0000_0000_0000u64 == 0,
    ensures
        ({
            let (a, b, c, l) = spec_unpack(id as int);
            &&& spec_pack(a, b, c, l) == id
            &&& coord_in_range(a) && coord_in_range(b) && coord_in_range(c)
            &&& 0 <= l < 0x100
        }),
{
    lemma_field_bits(id);
    let fx = (id >> 36u64) & 0x3ffffu64;
    let fy = (id >> 18u64) & 0x3ffffu64;
    let fz = id & 0x3ffffu64;
    let l = id >> 56u64;
    assert(fx < 0x40000 && fy < 0x40000 && fz < 0x40000 && l < 0x100) by (bit_vector)
        requires
            fx == (id >> 36u64) & 0x3ffffu64,
            fy == (id >> 18u64) & 0x3ffffu64,
            fz == id & 0x3ffffu64,
            l == id >> 56u64,
    ;
    assert(id == (l << 56u64) | (fx << 36u64) | (fy << 18u64) | fz) by (bit_vector)
        requires
            id & 0x00c0_0000_0000_0000u64 == 0,
            fx == (id >> 36u64) & 0x3ffffu64,
            fy == (id >> 18u64) & 0x3ffffu64,
            fz == id & 0x3ffffu64,
            l == id >> 56u64,
    ;
    lemma_pack_bits(l, fx, fy, fz);
    lemma_field_round(fx as int);
    lemma_field_round(fy as int);
    lemma_field_round(fz as int);
}

/// A field's coordinate is stored as that field again.
proof fn lemma_field_round(f: int)
    requires
        0 <= f < coord_span(),
    ensures
        coord_field(field_coord(f)) == f,
        coord_in_range(field_coord(f)),
{
    if f >= 0x20000 {
        vstd::arithmetic::div_mod::lemma_mod_multiples_vanish(-1, f, coord_span());
    } else {
        vstd::arithmetic::div_mod::lemma_small_mod(f as nat, coord_span() as nat);
    }
}

/// Two packings are equal exactly when the LODs are equal and each pair of
/// coordinates agrees modulo `2^18`.
pub proof fn lemma_pack_injective(x1: int, y1: int, z1: int, l1: int, x2: int, y2: int, z2: int, l2: int)
    requires
        0 <= l1 < 0x100,
        0 <= l2 < 0x100,
    ensures
        (spec_pack(x1, y1, z1, l1) == spec_pack(x2, y2, z2, l2)) <==> (l1 == l2 && x1 % coord_span() == x2
            % coord_span() && y1 % coord_span() == y2 % coord_span() && z1 % coord_span() == z2 % coord_span()),
{
    lemma_unpack_pack(x1, y1, z1, l1);
    lemma_unpack_pack(x2, y2, z2, l2);
    if spec_pack(x1, y1, z1, l1) == spec_pack(x2, y2, z2, l2) {
        lemma_field_unique(x1, x2);
        lemma_field_unique(y1, y2);
        lemma_field_unique(z1, z2);
    }
}

/// Coordinates that wrap to the same value have the same field.
proof fn lemma_field_unique(a: int, b: int)
    requires
        wrap_coord(a) == wrap_coord(b),
    ensures
        a % coord_span() == b % coord_span(),
{
    lemma_field_round(a % coord_span());
    lemma_field_round(b % coord_span());
}

impl ChunkId {
    /// Create a ChunkId from 3D grid coordinates with LOD level.
    /// Format: [LOD:8][X:18][Y:18][Z:18] (2 bits reserved)
    pub fn from_coords(x: i32, y: i32, z: i32, lod: u8) -> (id: Self)
        ensures
            id.0 as int == spec_pack(x as int, y as int, z as int, lod as int),
            id.0 == ((lod as u64) << 56u64) | (((x & 0x3ffffi32) as u64) << 36u64) | (((y & 0x3ffffi32)
                as u64) << 18u64) | ((z & 0x3ffffi32) as u64),
            id.0 & 0x00c0_0000_0000_0000u64 == 0,
    {
        let x_encoded: u64 = ((#[verifier::truncate] (x as u32)) & 0x3ffffu32) as u64;
        let y_encoded: u64 = ((#[verifier::truncate] (y as u32)) & 0x3ffffu32) as u64;
        let z_encoded: u64 = ((#[verifier::truncate] (z as u32)) & 0x3ffffu32) as u64;
        let lod_encoded: u64 = lod as u64;
        proof {
            lemma_field_of_i32(x);
            lemma_field_of_i32(y);
            lemma_field_of_i32(z);
            assert((x as u32) & 0x3ffffu32 < 0x40000u32) by (bit_vector);
            assert((y as u32) & 0x3ffffu32 < 0x40000u32) by (bit_vector);
            assert((z as u32) & 0x3ffffu32 < 0x40000u32) by (bit_vector);
            lemma_pack_bits(lod_encoded, x_encoded, y_encoded, z_encoded);
            assert(((#[verifier::truncate] (x as u32)) & 0x3ffffu32) as u64 == (x & 0x3ffffi32) as u64) by (bit_vector);
            assert(((#[verifier::truncate] (y as u32)) & 0x3ffffu32) as u64 == (y & 0x3ffffi32) as u64) by (bit_vector);
            assert(((#[verifier::truncate] (z as u32)) & 0x3ffffu32) as u64 == (z & 0x3ffffi32) as u64) by (bit_vector);
            assert(((lod_encoded << 56u64) | (x_encoded << 36u64) | (y_encoded << 18u64) | z_encoded)
                & 0x00c0_0000_0000_0000u64 == 0) by (bit_vector)
                requires
                    lod_encoded < 0x100,
                    x_encoded < 0x40000,
                    y_encoded < 0x40000,
                    z_encoded < 0x40000,
            ;
        }
        ChunkId((lod_encoded << 56u64) | (x_encoded << 36u64) | (y_encoded << 18u64) | z_encoded)
    }

    /// Decode the ChunkId back to grid coordinates and LOD.
    pub fn to_coords(self) -> (r: (i32, i32, i32, u8))
        ensures
            (r.0 as int, r.1 as int, r.2 as int, r.3 as int) == spec_unpack(self.0 as int),
    {
        let id = self.0;
        proof {
            lemma_field_bits(id);
        }
        let lod = (id >> 56u64) as u8;
        let x = decode_field((id >> 36u64) & 0x3ffffu64);
        let y = decode_field((id >> 18u64) & 0x3ffffu64);
        let z = decode_field(id & 0x3ffffu64);
        (x, y, z, lod)
    }
}

/// The text that `ChunkId`'s display form shows: `ChunkId(x, y, z @ LODl)`.
pub open spec fn chunk_id_text(id: int) -> Seq<char> {
    let (x, y, z, lod) = spec_unpack(id);
    "ChunkId("@ + signed_decimal(x) + ", "@ + signed_decimal(y) + ", "@ + signed_decimal(z)
        + " @ LOD"@ + decimal(lod as nat) + ")"@
}

impl ChunkId {
    /// Human-readable form, `ChunkId(x, y, z @ LODl)`.
    pub fn to_string(&self) -> (s: String)
        ensures
            s@ == chunk_id_text(self.0 as int),
    {
        let (x, y, z, lod) = self.to_coords();
        let mut s = String::from_str("ChunkId(");
        push_signed_decimal(&mut s, x as i64);
        s.append(", ");
        push_signed_decimal(&mut s, y as i64);
        s.append(", ");
        push_signed_decimal(&mut s, z as i64);
        s.append(" @ LOD");
        push_decimal(&mut s, lod as u64);
        s.append(")");
        s
    }
}

/// Represents the loading and visibility state of a chunk.
#[derive(Debug, Clone, Copy, PartialEq, Eq, Structural)]
pub enum ChunkState {
    /// Chunk is not loaded and not in memory.
    Unloaded,
    /// Chunk is being loaded from disk (async operation in progress).
    Loading,
    /// Chunk is loaded into memory but not currently visible.
    Loaded,
    /// Chunk is loaded and currently visible/rendered.
    Visible,
    /// Chunk is hidden (loaded but visibility toggled off).
    Hidden,
    /// Chunk is being evicted from memory.
    Evicting,
}

impl Default for ChunkState {
    fn default() -> (s: Self)
        ensures
            s == ChunkState::Unloaded,
    {
        ChunkState::Unloaded
    }
}

} // verus!
