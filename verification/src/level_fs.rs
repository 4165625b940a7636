//! Level file system layout: where each part of a saved level lives on disk,
//! and what a save writes.
//!
//! ```text
//! {level_dir}/
//!   level.json                               Root manifest
//!   indexes/{sector_x}/{sector_y}/{sector_z}/index.json
//!   chunks/{x}_{y}_{z}.chunk.json            Entity data for one partition cell
//! ```
//!
//! Sector coordinates are `coord.div_euclid(bucket_size)`, so negative cells
//! are bucketed correctly: cell `(-1, 0, 0)` with bucket 64 is in sector
//! `(-1, 0, 0)`.
use vstd::prelude::*;
use crate::entity::{EntityId, EntityStore};
use crate::level::Level;
use crate::partition::{cells_wf, ChunkCoord, GridChunk};
use crate::render_graph::contains_entity;
use crate::text::{push_signed_decimal, signed_decimal};

verus! {

/// Version written into every file of the level format.
pub const FORMAT_VERSION: u32 = 1;

/// Default index bucket size in chunk-coordinate units.
pub const DEFAULT_BUCKET_SIZE: i32 = 64;

/// Lightweight descriptor for one chunk within a `SectorIndex`.
#[derive(Debug, Clone, Copy, PartialEq, Eq)]
pub struct ChunkEntry {
    /// Grid coordinate of the chunk `[x, y, z]`.
    pub coord: [i32; 3],
    pub entity_count: usize,
}

/// Sector index: every chunk within the sector's region.
#[derive(Debug, Clone)]
pub struct SectorIndex {
    pub version: u32,
    /// Sector grid coordinate `[x, y, z]`.
    pub sector: [i32; 3],
    pub entries: Vec<ChunkEntry>,
}

/// Floor quotient for a positive divisor.
fn floor_div(x: i64, b: i64) -> (q: i64)
    requires
        b > 0,
        -0x8000_0000 <= x <= 0x7fff_ffff,
        b <= 0x8000_0000,
    ensures
        q as int == x as int / b as int,
        -0x8000_0000 <= q <= 0x7fff_ffff,
{
    let bu = b as u64;
    if x >= 0 {
        let xu = x as u64;
        let c = xu / bu;
        proof {
            vstd::arithmetic::div_mod::lemma_fundamental_div_mod(xu as int, bu as int);
            let s = xu % bu;
            assert(0 <= s < bu);
            lemma_euclid_unique(x as int, b as int, c as int, s as int);
            assert(c <= xu) by (nonlinear_arith)
                requires
                    bu * c + s == xu,
                    bu >= 1,
                    s >= 0,
                    c >= 0,
            ;
        }
        c as i64
    } else {
        let m = (-x) as u64;
        let t = m + bu - 1;
        let c = t / bu;
        proof {
            vstd::arithmetic::div_mod::lemma_fundamental_div_mod(t as int, bu as int);
            let s = t % bu;
            assert(0 <= s < bu);
            assert(bu * c + s == t);
            let q = -(c as int);
            let r = x as int - b as int * q;
            assert(r == b * c + x) by (nonlinear_arith)
                requires
                    q == -(c as int),
                    r == x as int - b as int * q,
            ;
            assert(0 <= r < b);
            lemma_euclid_unique(x as int, b as int, q, r);
            assert(c <= m) by (nonlinear_arith)
                requires
                    bu * c + s == m + bu - 1,
                    bu >= 1,
                    m >= 1,
                    s >= 0,
                    c >= 0,
            ;
        }
        -(c as i64)
    }
}

/// Euclidean quotient, as `i32::div_euclid`: the `q` with
/// `x == b * q + r` and `0 <= r < |b|`.
fn div_euclid(x: i32, b: i32) -> (q: i32)
    requires
        b != 0,
        !(x == i32::MIN && b == -1),
    ensures
        q as int == x as int / b as int,
{
    if b > 0 {
        floor_div(x as i64, b as i64) as i32
    } else {
        let q = floor_div(x as i64, -(b as i64));
        proof {
            // x == (-b) * q + r, 0 <= r < -b, so x == b * (-q) + r
            let r = x as int - (-(b as int)) * (q as int);
            vstd::arithmetic::div_mod::lemma_fundamental_div_mod(x as int, -(b as int));
            assert(r == x as int % (-(b as int)));
            assert(x as int == (b as int) * (-(q as int)) + r) by (nonlinear_arith)
                requires
                    r == x as int - (-(b as int)) * (q as int),
            ;
            lemma_euclid_unique(x as int, b as int, -(q as int), r);
            lemma_quotient_range(x as int, -(b as int), q as int, r);
        }
        (-q) as i32
    }
}

proof fn lemma_quotient_range(x: int, d: int, q: int, r: int)
    requires
        d >= 1,
        x == d * q + r,
        0 <= r < d,
        -0x8000_0000 <= x <= 0x7fff_ffff,
        !(x == -0x8000_0000 && d == 1),
    ensures
        -0x7fff_ffff <= q <= 0x7fff_ffff,
{
    if q < -0x7fff_ffff {
        assert(d * q <= d * (-0x8000_0000)) by (nonlinear_arith)
            requires
                d >= 1,
                q <= -0x8000_0000,
        ;
        if d == 1 {
            assert(x <= -0x8000_0000);
        } else {
            assert(d * (-0x8000_0000) + d - 1 < -0x8000_0000) by (nonlinear_arith)
                requires
                    d >= 2,
            ;
        }
    }
    if q > 0x7fff_ffff {
        assert(d * q >= q) by (nonlinear_arith)
            requires
                d >= 1,
                q >= 0,
        ;
    }
}

proof fn lemma_euclid_unique(x: int, b: int, q: int, r: int)
    requires
        b != 0,
        x == b * q + r,
        0 <= r < if b > 0 { b } else { -b },
    ensures
        x / b == q,
{
    vstd::arithmetic::div_mod::lemma_fundamental_div_mod(x, b);
    let q2 = x / b;
    let r2 = x % b;
    assert(0 <= r2 < if b > 0 { b } else { -b });
    assert(x == b * q2 + r2);
    if q2 != q {
        if b > 0 {
            assert(false) by (nonlinear_arith)
                requires
                    b > 0,
                    b * q + r == b * q2 + r2,
                    0 <= r < b,
                    0 <= r2 < b,
                    q != q2,
            ;
        } else {
            assert(false) by (nonlinear_arith)
                requires
                    b < 0,
                    b * q + r == b * q2 + r2,
                    0 <= r < -b,
                    0 <= r2 < -b,
                    q != q2,
            ;
        }
    }
}

/// Whether every coordinate of `c` can be divided by `bucket_size`.
pub open spec fn bucketable(c: ChunkCoord, bucket_size: i32) -> bool {
    &&& bucket_size != 0
    &&& bucket_size == -1 ==> c.x != i32::MIN && c.y != i32::MIN && c.z != i32::MIN
}

/// The sector that contains cell `c`.
pub open spec fn spec_sector(c: ChunkCoord, bucket_size: i32) -> [i32; 3] {
    [(c.x / bucket_size) as i32, (c.y / bucket_size) as i32, (c.z / bucket_size) as i32]
}

/// Return the sector coordinate that contains `coord` for the given bucket
/// size, by Euclidean (floor) division.
pub fn sector_for(coord: ChunkCoord, bucket_size: i32) -> (s: [i32; 3])
    requires
        bucketable(coord, bucket_size),
    ensures
        s[0] as int == coord.x as int / bucket_size as int,
        s[1] as int == coord.y as int / bucket_size as int,
        s[2] as int == coord.z as int / bucket_size as int,
{
    [div_euclid(coord.x, bucket_size), div_euclid(coord.y, bucket_size), div_euclid(coord.z, bucket_size)]
}

/// `base` joined with the relative path segment `seg`, as `Path::join` does
/// on Unix: a `/` is put between them unless `base` is empty or already ends
/// with one.
pub open spec fn path_join(base: Seq<char>, seg: Seq<char>) -> Seq<char> {
    if base.len() == 0 {
        seg
    } else if base.last() == '/' {
        base + seg
    } else {
        base + seq!['/'] + seg
    }
}

fn join_segment(base: String, seg: &str) -> (r: String)
    ensures
        r@ == path_join(base@, seg@),
{
    let n = base.as_str().unicode_len();
    if n == 0 {
        String::from_str(seg)
    } else {
        let last = base.as_str().get_char(n - 1);
        if last == '/' {
            base.concat(seg)
        } else {
            proof {
                reveal_strlit("/");
            }
            let with_sep = base.concat("/");
            let r = with_sep.concat(seg);
            proof {
                assert(r@ =~= path_join(base@, seg@));
            }
            r
        }
    }
}

/// `{level_dir}/level.json`
pub fn manifest_path(level_dir: &str) -> (p: String)
    ensures
        p@ == path_join(level_dir@, "level.json"@),
{
    join_segment(String::from_str(level_dir), "level.json")
}

/// The path of a sector's index file.
pub open spec fn spec_sector_index_path(level_dir: Seq<char>, sector: [i32; 3]) -> Seq<char> {
    path_join(
        path_join(
            path_join(path_join(path_join(level_dir, "indexes"@), signed_decimal(sector[0] as int)), signed_decimal(sector[1] as int)),
            signed_decimal(sector[2] as int),
        ),
        "index.json"@,
    )
}

fn decimal_string(v: i32) -> (s: String)
    ensures
        s@ == signed_decimal(v as int),
{
    let mut s = String::new();
    push_signed_decimal(&mut s, v as i64);
    s
}

/// `{level_dir}/indexes/{sx}/{sy}/{sz}/index.json`
pub fn sector_index_path(level_dir: &str, sector: [i32; 3]) -> (p: String)
    ensures
        p@ == spec_sector_index_path(level_dir@, sector),
{
    let a = join_segment(String::from_str(level_dir), "indexes");
    let sx = decimal_string(sector[0]);
    let b = join_segment(a, sx.as_str());
    let sy = decimal_string(sector[1]);
    let c = join_segment(b, sy.as_str());
    let sz = decimal_string(sector[2]);
    let d = join_segment(c, sz.as_str());
    join_segment(d, "index.json")
}

/// The path of the sector index that covers cell `coord` when sectors are
/// `bucket_size` cells wide.
pub fn sector_index_path_for(level_dir: &str, coord: ChunkCoord, bucket_size: i32) -> (p: String)
    requires
        bucketable(coord, bucket_size),
    ensures
        p@ == spec_sector_index_path(level_dir@, spec_sector(coord, bucket_size)),
{
    let sector = sector_for(coord, bucket_size);
    proof {
        assert(sector =~= spec_sector(coord, bucket_size));
    }
    sector_index_path(level_dir, sector)
}

/// The placement mode of a recorded prefab instance whose record names none:
/// `"ref"`, entities resolved from the prefab definition at load time.
pub fn default_mode() -> (m: String)
    ensures
        m@ == "ref"@,
{
    String::from_str("ref")
}

/// The file name of a cell's chunk file, `{x}_{y}_{z}.chunk.json`.
pub open spec fn chunk_file_name(c: ChunkCoord) -> Seq<char> {
    signed_decimal(c.x as int) + "_"@ + signed_decimal(c.y as int) + "_"@ + signed_decimal(c.z as int)
        + ".chunk.json"@
}

/// `{level_dir}/chunks/{x}_{y}_{z}.chunk.json`
pub fn chunk_file_path(level_dir: &str, coord: ChunkCoord) -> (p: String)
    ensures
        p@ == path_join(path_join(level_dir@, "chunks"@), chunk_file_name(coord)),
{
    let a = join_segment(String::from_str(level_dir), "chunks");
    let mut name = String::new();
    push_signed_decimal(&mut name, coord.x as i64);
    name.append("_");
    push_signed_decimal(&mut name, coord.y as i64);
    name.append("_");
    push_signed_decimal(&mut name, coord.z as i64);
    name.append(".chunk.json");
    join_segment(a, name.as_str())
}

/// The ids among `ids` that the store still holds, in order.
pub open spec fn stored_ids(store: EntityStore, ids: Seq<EntityId>) -> Seq<EntityId>
    decreases ids.len(),
{
    if ids.len() == 0 {
        Seq::empty()
    } else {
        let rest = stored_ids(store, ids.drop_last());
        if store.spec_entities().contains_key(ids.last().0) {
            rest.push(ids.last())
        } else {
            rest
        }
    }
}

/// The sector index entry of a cell.
pub open spec fn entry_of(store: EntityStore, c: GridChunk) -> ChunkEntry {
    ChunkEntry {
        coord: [c.coord.x, c.coord.y, c.coord.z],
        entity_count: stored_ids(store, c.entities@).len() as usize,
    }
}

/// The entries, in cell order, of the cells that fall in sector `sec`.
pub open spec fn sector_entries(store: EntityStore, cells: Seq<GridChunk>, sec: [i32; 3]) -> Seq<ChunkEntry>
    decreases cells.len(),
{
    if cells.len() == 0 {
        Seq::empty()
    } else {
        let rest = sector_entries(store, cells.drop_last(), sec);
        if spec_sector(cells.last().coord, DEFAULT_BUCKET_SIZE) == sec {
            rest.push(entry_of(store, cells.last()))
        } else {
            rest
        }
    }
}

/// Whether cell `c` lies in sector `sec` (with the default bucket size).
pub open spec fn in_sector(c: ChunkCoord, sec: [i32; 3]) -> bool {
    spec_sector(c, DEFAULT_BUCKET_SIZE) == sec
}

/// Whether `coord` names one of the cells in sector `sec`.
pub open spec fn names_cell_in(cells: Seq<GridChunk>, sec: [i32; 3], coord: [i32; 3]) -> bool {
    exists|i: int| 0 <= i < cells.len() && in_sector((#[trigger] cells[i]).coord, sec) && same_coord(coord, cells[i].coord)
}

/// Whether `entries` hold an entry for cell `c`: its coordinate, with the
/// number of its entities that the store still holds.
pub open spec fn lists_cell(store: EntityStore, entries: Seq<ChunkEntry>, c: GridChunk) -> bool {
    exists|t: int| 0 <= t < entries.len() && same_coord((#[trigger] entries[t]).coord, c.coord)
        && entries[t].entity_count == stored_ids(store, c.entities@).len() as usize
}

/// Whether an index coordinate `[x, y, z]` names cell `c`.
pub open spec fn same_coord(a: [i32; 3], c: ChunkCoord) -> bool {
    a[0] == c.x && a[1] == c.y && a[2] == c.z
}

/// What a sector's index lists: every cell of the sector has an entry with
/// its coordinate and the number of its entities still stored; every entry
/// is that of a cell of the sector; and with distinct cell coordinates no
/// coordinate is listed twice.
pub proof fn lemma_sector_entries(store: EntityStore, cells: Seq<GridChunk>, sec: [i32; 3])
    ensures
        forall|i: int| 0 <= i < cells.len() && in_sector((#[trigger] cells[i]).coord, sec)
            ==> lists_cell(store, sector_entries(store, cells, sec), cells[i]),
        forall|t: int| 0 <= t < sector_entries(store, cells, sec).len() ==> names_cell_in(
            cells,
            sec,
            (#[trigger] sector_entries(store, cells, sec)[t]).coord,
        ),
        cells_wf(cells) ==> forall|t: int, u: int| 0 <= t < u < sector_entries(store, cells, sec).len()
            ==> (#[trigger] sector_entries(store, cells, sec)[t]).coord != (#[trigger] sector_entries(store, cells, sec)[u]).coord,
{
    lemma_sector_entries_cover_all(store, cells, sec);
    lemma_sector_entries_of_cells(store, cells, sec);
    if cells_wf(cells) {
        lemma_sector_entries_distinct(store, cells, sec);
    }
}

proof fn lemma_sector_entries_cover_all(store: EntityStore, cells: Seq<GridChunk>, sec: [i32; 3])
    ensures
        forall|i: int| 0 <= i < cells.len() && in_sector((#[trigger] cells[i]).coord, sec)
            ==> lists_cell(store, sector_entries(store, cells, sec), cells[i]),
{
    assert forall|i: int| 0 <= i < cells.len() && in_sector((#[trigger] cells[i]).coord, sec)
        implies lists_cell(store, sector_entries(store, cells, sec), cells[i]) by {
        lemma_entries_cover(store, cells, sec, i);
    }
}

proof fn lemma_sector_entries_of_cells(store: EntityStore, cells: Seq<GridChunk>, sec: [i32; 3])
    ensures
        forall|t: int| 0 <= t < sector_entries(store, cells, sec).len() ==> names_cell_in(
            cells,
            sec,
            (#[trigger] sector_entries(store, cells, sec)[t]).coord,
        ),
{
    assert forall|t: int| 0 <= t < sector_entries(store, cells, sec).len() implies names_cell_in(
        cells,
        sec,
        (#[trigger] sector_entries(store, cells, sec)[t]).coord,
    ) by {
        lemma_entries_from_cells(store, cells, sec, t);
    }
}

proof fn lemma_sector_entries_distinct(store: EntityStore, cells: Seq<GridChunk>, sec: [i32; 3])
    requires
        cells_wf(cells),
    ensures
        forall|t: int, u: int| 0 <= t < u < sector_entries(store, cells, sec).len()
            ==> (#[trigger] sector_entries(store, cells, sec)[t]).coord != (#[trigger] sector_entries(store, cells, sec)[u]).coord,
{
    assert forall|t: int, u: int| 0 <= t < u < sector_entries(store, cells, sec).len() implies
        (#[trigger] sector_entries(store, cells, sec)[t]).coord != (#[trigger] sector_entries(store, cells, sec)[u]).coord by {
        lemma_entries_order(store, cells, sec, t, u);
        let (a, b) = choose|a: int, b: int| 0 <= a < b < cells.len()
            && same_coord(sector_entries(store, cells, sec)[t].coord, (#[trigger] cells[a]).coord)
            && same_coord(sector_entries(store, cells, sec)[u].coord, (#[trigger] cells[b]).coord);
        assert(cells[a].coord != cells[b].coord);
        if sector_entries(store, cells, sec)[t].coord == sector_entries(store, cells, sec)[u].coord {
            assert(sector_entries(store, cells, sec)[t].coord[0] == sector_entries(store, cells, sec)[u].coord[0]);
            assert(sector_entries(store, cells, sec)[t].coord[1] == sector_entries(store, cells, sec)[u].coord[1]);
            assert(sector_entries(store, cells, sec)[t].coord[2] == sector_entries(store, cells, sec)[u].coord[2]);
            assert(cells[a].coord == cells[b].coord);
        }
    }
}

/// A cell of the sector has its entry in the sector's entries.
proof fn lemma_entries_cover(store: EntityStore, cells: Seq<GridChunk>, sec: [i32; 3], i: int)
    requires
        0 <= i < cells.len(),
        in_sector(cells[i].coord, sec),
    ensures
        lists_cell(store, sector_entries(store, cells, sec), cells[i]),
    decreases cells.len(),
{
    let e = sector_entries(store, cells, sec);
    let er = sector_entries(store, cells.drop_last(), sec);
    if i == cells.len() - 1 {
        let t = er.len() as int;
        assert(e[t] == entry_of(store, cells[i]));
        assert(same_coord(e[t].coord, cells[i].coord));
    } else {
        assert(cells.drop_last()[i] == cells[i]);
        lemma_entries_cover(store, cells.drop_last(), sec, i);
        let t = choose|t: int| 0 <= t < er.len() && same_coord((#[trigger] er[t]).coord, cells[i].coord)
            && er[t].entity_count == stored_ids(store, cells[i].entities@).len() as usize;
        assert(e[t] == er[t]);
    }
}

/// Each entry names a cell of the sector.
proof fn lemma_entries_from_cells(store: EntityStore, cells: Seq<GridChunk>, sec: [i32; 3], t: int)
    requires
        0 <= t < sector_entries(store, cells, sec).len(),
    ensures
        names_cell_in(cells, sec, sector_entries(store, cells, sec)[t].coord),
    decreases cells.len(),
{
    let e = sector_entries(store, cells, sec);
    let er = sector_entries(store, cells.drop_last(), sec);
    let n = cells.len() - 1;
    if t == er.len() {
        assert(in_sector(cells[n].coord, sec));
        assert(same_coord(e[t].coord, cells[n].coord));
        assert(names_cell_in(cells, sec, e[t].coord));
    } else {
        assert(e[t] == er[t]);
        lemma_entries_from_cells(store, cells.drop_last(), sec, t);
        let i = choose|i: int| 0 <= i < cells.drop_last().len() && in_sector((#[trigger] cells.drop_last()[i]).coord, sec)
            && same_coord(er[t].coord, cells.drop_last()[i].coord);
        assert(cells[i] == cells.drop_last()[i]);
        assert(in_sector(cells[i].coord, sec));
    }
}

/// Entries come in cell order: two entries name two cells, the earlier
/// entry's cell first.
proof fn lemma_entries_order(store: EntityStore, cells: Seq<GridChunk>, sec: [i32; 3], t: int, u: int)
    requires
        0 <= t < u < sector_entries(store, cells, sec).len(),
    ensures
        exists|a: int, b: int| 0 <= a < b < cells.len() && same_coord(sector_entries(store, cells, sec)[t].coord, (#[trigger] cells[a]).coord)
            && same_coord(sector_entries(store, cells, sec)[u].coord, (#[trigger] cells[b]).coord),
    decreases cells.len(),
{
    let e = sector_entries(store, cells, sec);
    let rest = cells.drop_last();
    let er = sector_entries(store, rest, sec);
    let n = cells.len() - 1;
    if u == er.len() {
        assert(e[t] == er[t]);
        lemma_entries_from_cells(store, rest, sec, t);
        let a = choose|a: int| 0 <= a < rest.len() && in_sector((#[trigger] rest[a]).coord, sec)
            && same_coord(er[t].coord, rest[a].coord);
        assert(cells[a] == rest[a]);
        assert(same_coord(e[u].coord, cells[n].coord));
        assert(same_coord(e[t].coord, cells[a].coord));
    } else {
        assert(e[t] == er[t] && e[u] == er[u]);
        lemma_entries_order(store, rest, sec, t, u);
        let (a, b) = choose|a: int, b: int| 0 <= a < b < rest.len() && same_coord(er[t].coord, (#[trigger] rest[a]).coord)
            && same_coord(er[u].coord, (#[trigger] rest[b]).coord);
        assert(cells[a] == rest[a] && cells[b] == rest[b]);
    }
}

/// One chunk file of a save: the cell and its entities that are still stored.
#[derive(Debug, Clone)]
pub struct ChunkSave {
    pub coord: ChunkCoord,
    pub entities: Vec<EntityId>,
}

/// Everything a level save writes besides entity data: one chunk file per
/// cell, one index per occupied sector, and the chunk count of the manifest.
#[derive(Debug, Clone)]
pub struct LevelSavePlan {
    pub chunks: Vec<ChunkSave>,
    pub sectors: Vec<SectorIndex>,
    pub chunk_count: usize,
}

fn stored_in(store: &EntityStore, ids: &Vec<EntityId>) -> (r: Vec<EntityId>)
    ensures
        r@ == stored_ids(*store, ids@),
{
    let mut r: Vec<EntityId> = Vec::new();
    let mut i: usize = 0;
    while i < ids.len()
        invariant
            i <= ids@.len(),
            r@ == stored_ids(*store, ids@.take(i as int)),
        decreases ids@.len() - i,
    {
        proof {
            assert(ids@.take(i + 1).drop_last() == ids@.take(i as int));
        }
        if store.get(ids[i]).is_some() {
            r.push(ids[i]);
        }
        i = i + 1;
    }
    proof {
        assert(ids@.take(ids@.len() as int) == ids@);
    }
    r
}

/// Lay out the save of `level` (with the default bucket size): each cell,
/// in partition order, gets a chunk file listing its entities that are still
/// in the store; each sector that holds a cell gets one index listing its
/// cells' entries in partition order.
pub fn plan_level_save(level: &Level) -> (p: LevelSavePlan)
    requires
        level.wf(),
    ensures
        ({
            let cells = level.spec_partition().spec_cells();
            let store = level.spec_store();
            &&& p.chunk_count == cells.len()
            &&& p.chunks@.len() == cells.len()
            &&& forall|i: int| 0 <= i < cells.len() ==> (#[trigger] p.chunks@[i]).coord == cells[i].coord
                && p.chunks@[i].entities@ == stored_ids(store, cells[i].entities@)
            &&& forall|a: int, b: int| 0 <= a < b < p.sectors@.len() ==> (#[trigger] p.sectors@[a]).sector
                != (#[trigger] p.sectors@[b]).sector
            &&& forall|j: int| 0 <= j < p.sectors@.len() ==> (#[trigger] p.sectors@[j]).version == FORMAT_VERSION
                && p.sectors@[j].entries@ == sector_entries(store, cells, p.sectors@[j].sector)
                && p.sectors@[j].entries@.len() > 0
            &&& forall|i: int| 0 <= i < cells.len() ==> exists|j: int| 0 <= j < p.sectors@.len()
                && (#[trigger] p.sectors@[j]).sector == spec_sector(#[trigger] cells[i].coord, DEFAULT_BUCKET_SIZE)
            &&& forall|i: int| 0 <= i < cells.len() ==> exists|j: int| 0 <= j < p.sectors@.len()
                && in_sector((#[trigger] cells[i]).coord, p.sectors@[j].sector)
                && lists_cell(store, (#[trigger] p.sectors@[j]).entries@, cells[i])
            &&& forall|j: int, t: int| 0 <= j < p.sectors@.len() && 0 <= t < p.sectors@[j].entries@.len()
                ==> names_cell_in(cells, p.sectors@[j].sector, (#[trigger] p.sectors@[j].entries@[t]).coord)
            &&& forall|j: int, t: int, u: int| 0 <= j < p.sectors@.len() && 0 <= t < u < p.sectors@[j].entries@.len()
                ==> (#[trigger] p.sectors@[j].entries@[t]).coord != (#[trigger] p.sectors@[j].entries@[u]).coord
        }),
{
    let store = level.entities();
    let cells = level.partition().chunks();
    let ghost cs = cells@;
    let mut chunks: Vec<ChunkSave> = Vec::new();
    let mut sectors: Vec<SectorIndex> = Vec::new();
    let ghost mut home: Seq<int> = Seq::empty();
    let mut i: usize = 0;
    while i < cells.len()
        invariant
            i <= cs.len(),
            cells@ == cs,
            cs == level.spec_partition().spec_cells(),
            *store == level.spec_store(),
            chunks@.len() == i,
            forall|t: int| 0 <= t < i ==> (#[trigger] chunks@[t]).coord == cs[t].coord
                && chunks@[t].entities@ == stored_ids(*store, cs[t].entities@),
            forall|a: int, b: int| 0 <= a < b < sectors@.len() ==> (#[trigger] sectors@[a]).sector
                != (#[trigger] sectors@[b]).sector,
            forall|j: int| 0 <= j < sectors@.len() ==> (#[trigger] sectors@[j]).version == FORMAT_VERSION
                && sectors@[j].entries@ == sector_entries(*store, cs.take(i as int), sectors@[j].sector)
                && sectors@[j].entries@.len() > 0,
            forall|sec: [i32; 3]| (forall|j: int| 0 <= j < sectors@.len() ==> (#[trigger] sectors@[j]).sector != sec)
                ==> #[trigger] sector_entries(*store, cs.take(i as int), sec).len() == 0,
            home.len() == i,
            forall|t: int| 0 <= t < i ==> 0 <= #[trigger] home[t] < sectors@.len()
                && sectors@[home[t]].sector == spec_sector(cs[t].coord, DEFAULT_BUCKET_SIZE),
        decreases cs.len() - i,
    {
        let cell = &cells[i];
        let ents = stored_in(store, &cell.entities);
        let entry = ChunkEntry {
            coord: [cell.coord.x, cell.coord.y, cell.coord.z],
            entity_count: ents.len(),
        };
        let sec = sector_for(cell.coord, DEFAULT_BUCKET_SIZE);
        proof {
            assert(cs.take(i + 1).drop_last() == cs.take(i as int));
            assert(cs.take(i + 1).last() == cs[i as int]);
            assert(sec == spec_sector(cs[i as int].coord, DEFAULT_BUCKET_SIZE));
            assert(entry == entry_of(*store, cs[i as int]));
        }
        let ghost old_sectors = sectors@;
        let mut j: usize = 0;
        while j < sectors.len() && !(sectors[j].sector[0] == sec[0] && sectors[j].sector[1] == sec[1]
            && sectors[j].sector[2] == sec[2])
            invariant
                j <= sectors@.len(),
                forall|t: int| 0 <= t < j ==> (#[trigger] sectors@[t]).sector != sec,
            decreases sectors@.len() - j,
        {
            proof {
                assert(sectors@[j as int].sector != sec);
            }
            j = j + 1;
        }
        if j < sectors.len() {
            proof {
                assert(sectors@[j as int].sector =~= sec);
            }
            sectors[j].entries.push(entry);
            proof {
                home = home.push(j as int);
                assert forall|t: int| 0 <= t < sectors@.len() implies (#[trigger] sectors@[t]).version == FORMAT_VERSION
                    && sectors@[t].entries@ == sector_entries(*store, cs.take(i + 1), sectors@[t].sector)
                    && sectors@[t].entries@.len() > 0 by {
                    if t != j {
                        assert(sectors@[t] == old_sectors[t]);
                        assert(old_sectors[t].sector != old_sectors[j as int].sector);
                    }
                }
            }
        } else {
            let mut entries: Vec<ChunkEntry> = Vec::new();
            entries.push(entry);
            sectors.push(SectorIndex { version: FORMAT_VERSION, sector: sec, entries });
            proof {
                home = home.push(old_sectors.len() as int);
                assert(sector_entries(*store, cs.take(i as int), sec).len() == 0);
                assert(sector_entries(*store, cs.take(i as int), sec) =~= Seq::<ChunkEntry>::empty());
                assert forall|t: int| 0 <= t < sectors@.len() implies (#[trigger] sectors@[t]).version == FORMAT_VERSION
                    && sectors@[t].entries@ == sector_entries(*store, cs.take(i + 1), sectors@[t].sector)
                    && sectors@[t].entries@.len() > 0 by {
                    if t < old_sectors.len() {
                        assert(sectors@[t] == old_sectors[t]);
                    }
                }
            }
        }
        proof {
            assert forall|sec2: [i32; 3]| (forall|t: int| 0 <= t < sectors@.len() ==> (#[trigger] sectors@[t]).sector != sec2)
                implies #[trigger] sector_entries(*store, cs.take(i + 1), sec2).len() == 0 by {
                assert forall|t: int| 0 <= t < old_sectors.len() implies (#[trigger] old_sectors[t]).sector != sec2 by {
                    assert(sectors@[t].sector == old_sectors[t].sector);
                }
                assert(sec2 != sec) by {
                    assert(sectors@[home[i as int]].sector == sec);
                }
                assert(sector_entries(*store, cs.take(i as int), sec2).len() == 0);
                assert(sector_entries(*store, cs.take(i + 1), sec2) == sector_entries(*store, cs.take(i as int), sec2));
            }
            assert forall|t: int| 0 <= t < i + 1 implies 0 <= #[trigger] home[t] < sectors@.len()
                && sectors@[home[t]].sector == spec_sector(cs[t].coord, DEFAULT_BUCKET_SIZE) by {
                if t < i {
                    assert(sectors@[home[t]].sector == old_sectors[home[t]].sector);
                }
            }
        }
        chunks.push(ChunkSave { coord: cell.coord, entities: ents });
        i = i + 1;
    }
    proof {
        assert(cs.take(cs.len() as int) == cs);
        assert forall|j: int| 0 <= j < sectors@.len() implies (#[trigger] sectors@[j]).version == FORMAT_VERSION
            && sectors@[j].entries@ == sector_entries(*store, cs, sectors@[j].sector)
            && sectors@[j].entries@.len() > 0 by {}
        assert forall|t: int| 0 <= t < cs.len() implies exists|j: int| 0 <= j < sectors@.len()
            && (#[trigger] sectors@[j]).sector == spec_sector(#[trigger] cs[t].coord, DEFAULT_BUCKET_SIZE) by {
            assert(sectors@[home[t]].sector == spec_sector(cs[t].coord, DEFAULT_BUCKET_SIZE));
        }
    }
    let plan = LevelSavePlan { chunks, sectors, chunk_count: cells.len() };
    proof {
        assert forall|t: int| 0 <= t < level.spec_partition().spec_cells().len() implies exists|j: int| 0 <= j < plan.sectors@.len()
            && (#[trigger] plan.sectors@[j]).sector == spec_sector(#[trigger] level.spec_partition().spec_cells()[t].coord, DEFAULT_BUCKET_SIZE) by {
            let j = home[t];
            assert(plan.sectors@[j].sector == spec_sector(cs[t].coord, DEFAULT_BUCKET_SIZE));
        }
        let store_v = level.spec_store();
        assert(cs == level.spec_partition().spec_cells());
        assert forall|t: int| 0 <= t < cs.len() implies exists|j: int| 0 <= j < plan.sectors@.len()
            && in_sector((#[trigger] cs[t]).coord, plan.sectors@[j].sector)
            && lists_cell(store_v, (#[trigger] plan.sectors@[j]).entries@, cs[t]) by {
            let j = home[t];
            let sec = plan.sectors@[j].sector;
            assert(in_sector(cs[t].coord, sec));
            lemma_sector_entries(store_v, cs, sec);
            assert(plan.sectors@[j].entries@ == sector_entries(store_v, cs, sec));
            assert(lists_cell(store_v, plan.sectors@[j].entries@, cs[t]));
        }
        assert forall|j: int, t: int| 0 <= j < plan.sectors@.len() && 0 <= t < plan.sectors@[j].entries@.len()
            implies names_cell_in(cs, plan.sectors@[j].sector, (#[trigger] plan.sectors@[j].entries@[t]).coord) by {
            let sec = plan.sectors@[j].sector;
            lemma_sector_entries(store_v, cs, sec);
            assert(plan.sectors@[j].entries@ == sector_entries(store_v, cs, sec));
        }
        assert forall|j: int, t: int, u: int| 0 <= j < plan.sectors@.len() && 0 <= t < u < plan.sectors@[j].entries@.len()
            implies (#[trigger] plan.sectors@[j].entries@[t]).coord != (#[trigger] plan.sectors@[j].entries@[u]).coord by {
            let sec = plan.sectors@[j].sector;
            lemma_sector_entries(store_v, cs, sec);
            assert(plan.sectors@[j].entries@ == sector_entries(store_v, cs, sec));
        }
    }
    plan
}

} // verus!
