//! The uniform spatial grid: a fixed square partition of the world
//! into cells, with one bucket of (location-record, handle) pairs per
//! cell and per entity category, incremental relocation, and range
//! queries.

use vstd::prelude::*;

use crate::constants::COORD_LIMIT;
use crate::constants::GRID_AREA_SIZE;
use crate::constants::GRID_RESOLUTION;
use crate::utils::floor_div;
use crate::utils::Vec2i;

verus! {

/// The three kinds of entity the grid keeps apart.
#[derive(Clone, Copy, Debug, PartialEq, Eq, Structural)]
pub enum GridEntityType {
    Ant,
    Food,
    Pheromone,
}

/// Cell coordinates within the grid.
#[derive(Clone, Copy, Debug, PartialEq, Eq, Structural)]
pub struct CellPos {
    pub x: u32,
    pub y: u32,
}

impl CellPos {
    pub fn new(x: u32, y: u32) -> (c: CellPos)
        ensures
            c.x == x && c.y == y,
    {
        CellPos { x, y }
    }
}

/// Per-entity record of the cell it was last filed under and the cell
/// it is in now, kept by the entity itself and refreshed once per
/// tick, strictly before the grid reconciles its buckets.
#[derive(Clone, Copy, Debug, PartialEq, Eq, Structural)]
pub struct GridEntity {
    pub last_position: CellPos,
    pub current_position: CellPos,
}

impl GridEntity {
    pub fn new(position: CellPos) -> (e: GridEntity)
        ensures
            e.last_position == position,
            e.current_position == position,
    {
        GridEntity { last_position: position, current_position: position }
    }
}

impl Default for GridEntity {
    fn default() -> (e: GridEntity)
        ensures
            e.last_position == (CellPos { x: 0, y: 0 }),
            e.current_position == (CellPos { x: 0, y: 0 }),
    {
        GridEntity {
            last_position: CellPos { x: 0, y: 0 },
            current_position: CellPos { x: 0, y: 0 },
        }
    }
}

/// An entry of a bucket: the entity's location record and its handle.
pub type GridEntry = (GridEntity, u64);

/// The spatial grid resource. The shape (cell counts, cell size,
/// offset) is fixed at construction; only the buckets change.
pub struct Grid {
    pub size: CellPos,
    pub cell_size: i64,
    pub offset: Vec2i,
    pub pheromones: Vec<Vec<GridEntry>>,
    pub ants: Vec<Vec<GridEntry>>,
    pub food: Vec<Vec<GridEntry>>,
}

impl Grid {
    /// Total number of cells.
    pub open spec fn cell_count(self) -> int {
        self.size.x * self.size.y
    }

    /// Row-major index of a cell.
    pub open spec fn idx(self, pos: CellPos) -> int {
        pos.x + pos.y * self.size.x
    }

    /// Whether cell coordinates lie inside the grid.
    pub open spec fn cell_in_bounds(self, pos: CellPos) -> bool {
        pos.x < self.size.x && pos.y < self.size.y
    }

    /// The bucket array of one category.
    pub open spec fn buckets(self, ty: GridEntityType) -> Seq<Vec<GridEntry>> {
        match ty {
            GridEntityType::Ant => self.ants@,
            GridEntityType::Food => self.food@,
            GridEntityType::Pheromone => self.pheromones@,
        }
    }

    /// The entries filed under one cell for one category.
    pub open spec fn bucket(self, ty: GridEntityType, i: int) -> Seq<GridEntry> {
        self.buckets(ty)[i]@
    }

    /// The handle stored at one position of one bucket.
    pub open spec fn entry_id(self, ty: GridEntityType, i: int, k: int) -> u64 {
        self.bucket(ty, i)[k].1
    }

    /// Whether the bucket of cell `i` holds the handle `id`.
    pub open spec fn slot_has(self, ty: GridEntityType, i: int, id: u64) -> bool {
        seq_has_id(self.bucket(ty, i), id)
    }

    /// Whether any bucket of the category holds the handle.
    pub open spec fn has_anywhere(self, ty: GridEntityType, id: u64) -> bool {
        exists|i: int| 0 <= i < self.cell_count() && #[trigger] self.slot_has(ty, i, id)
    }

    /// The shape of the grid is sane: at least one cell on each axis,
    /// cell counts and cell size small enough that every coordinate
    /// computation stays well within `i64`.
    pub open spec fn geometry_wf(self) -> bool {
        &&& 1 <= self.size.x <= 1000
        &&& 1 <= self.size.y <= 1000
        &&& 1 <= self.cell_size <= COORD_LIMIT
        &&& self.size.x * self.cell_size <= COORD_LIMIT
        &&& self.size.y * self.cell_size <= COORD_LIMIT
        &&& self.offset.bounded(COORD_LIMIT as int)
    }

    /// Each category has exactly one bucket per cell.
    pub open spec fn buckets_wf(self) -> bool {
        &&& self.ants@.len() == self.cell_count()
        &&& self.food@.len() == self.cell_count()
        &&& self.pheromones@.len() == self.cell_count()
    }

    /// No handle occurs twice within a category: any two distinct
    /// occupied positions across all of its buckets hold distinct
    /// handles.
    pub open spec fn no_dups(self, ty: GridEntityType) -> bool {
        forall|i: int, k1: int, j: int, k2: int|
            0 <= i < self.cell_count() && 0 <= k1 < self.bucket(ty, i).len() && 0 <= j
                < self.cell_count() && 0 <= k2 < self.bucket(ty, j).len() && (i != j || k1 != k2)
                ==> #[trigger] self.entry_id(ty, i, k1) != #[trigger] self.entry_id(ty, j, k2)
    }

    /// The grid invariant: sane shape, one bucket per cell, and each
    /// handle filed at most once per category.
    pub open spec fn wf(self) -> bool {
        &&& self.geometry_wf()
        &&& self.buckets_wf()
        &&& self.no_dups(GridEntityType::Ant)
        &&& self.no_dups(GridEntityType::Food)
        &&& self.no_dups(GridEntityType::Pheromone)
    }

    /// The handle is filed nowhere in the category except possibly at
    /// the cells indexed `a` or `b`.
    pub open spec fn confined_to(self, ty: GridEntityType, id: u64, a: int, b: int) -> bool {
        forall|i: int|
            0 <= i < self.cell_count() && #[trigger] self.slot_has(ty, i, id) ==> i == a || i == b
    }

    /// A fresh grid of `area_size / resolution` cells per axis, each
    /// `resolution` wide, centred on the origin, with every bucket
    /// empty.
    pub fn new(area_size: i64, resolution: i64) -> (grid: Grid)
        requires
            1 <= resolution <= COORD_LIMIT,
            resolution <= area_size <= COORD_LIMIT,
            area_size <= 1000 * resolution,
        ensures
            grid.wf(),
            grid.size.x == area_size as int / resolution as int,
            grid.size.y == grid.size.x,
            grid.cell_size == resolution,
            grid.offset.x == -((grid.size.x * resolution) / 2),
            grid.offset.y == grid.offset.x,
            forall|ty: GridEntityType, i: int|
                0 <= i < grid.cell_count() ==> #[trigger] grid.bucket(ty, i).len() == 0,
    {
        let n: i64 = floor_div(area_size, resolution);
        proof {
            assert(1 <= area_size as int / resolution as int <= 1000) by {
                vstd::arithmetic::div_mod::lemma_div_is_ordered(
                    resolution as int,
                    area_size as int,
                    resolution as int,
                );
                vstd::arithmetic::div_mod::lemma_div_by_self(resolution as int);
                vstd::arithmetic::div_mod::lemma_div_is_ordered(
                    area_size as int,
                    1000 * resolution as int,
                    resolution as int,
                );
                vstd::arithmetic::div_mod::lemma_div_by_multiple(1000, resolution as int);
            }
            assert(n * resolution <= area_size) by {
                vstd::arithmetic::div_mod::lemma_fundamental_div_mod(
                    area_size as int,
                    resolution as int,
                );
                assert(resolution as int * (area_size as int / resolution as int) == (area_size
                    as int / resolution as int) * resolution as int) by (nonlinear_arith);
            }
        }
        let size = CellPos { x: n as u32, y: n as u32 };
        proof {
            assert(n as usize * n as usize <= 1_000_000) by (nonlinear_arith)
                requires
                    1 <= n as usize <= 1000,
            ;
        }
        let num_cells: usize = (n as usize) * (n as usize);
        let grid_dim: i64 = n * resolution;
        let half: i64 = floor_div(grid_dim, 2);
        proof {
            vstd::arithmetic::div_mod::lemma_div_pos_is_pos(grid_dim as int, 2);
            vstd::arithmetic::div_mod::lemma_div_nonincreasing(grid_dim as int, 2);
        }
        let offset = Vec2i { x: -half, y: -half };
        let grid = Grid {
            size,
            cell_size: resolution,
            offset,
            ants: make_buckets(num_cells),
            food: make_buckets(num_cells),
            pheromones: make_buckets(num_cells),
        };
        proof {
            assert(grid.cell_count() == num_cells) by (nonlinear_arith)
                requires
                    grid.size.x == n as int,
                    grid.size.y == n as int,
                    num_cells == n as usize * n as usize,
                    1 <= n <= 1000,
            ;
            assert(grid.size.x * grid.cell_size <= COORD_LIMIT);
        }
        grid
    }

    /// The world coordinates of the middle of a cell, where a
    /// renderer centres the cell's highlight; purely observational.
    pub fn cell_center(&self, pos: CellPos) -> (c: Vec2i)
        requires
            self.geometry_wf(),
            self.cell_in_bounds(pos),
        ensures
            c.x == self.offset.x + pos.x * self.cell_size + self.cell_size / 2,
            c.y == self.offset.y + pos.y * self.cell_size + self.cell_size / 2,
    {
        proof {
            assert(0 <= pos.x as int * self.cell_size && pos.x as int * self.cell_size
                <= COORD_LIMIT) by (nonlinear_arith)
                requires
                    0 <= pos.x as int,
                    (pos.x as int) < (self.size.x as int),
                    1 <= self.cell_size,
                    self.size.x as int * self.cell_size <= COORD_LIMIT,
            ;
            assert(0 <= pos.y as int * self.cell_size && pos.y as int * self.cell_size
                <= COORD_LIMIT) by (nonlinear_arith)
                requires
                    0 <= pos.y as int,
                    (pos.y as int) < (self.size.y as int),
                    1 <= self.cell_size,
                    self.size.y as int * self.cell_size <= COORD_LIMIT,
            ;
            vstd::arithmetic::div_mod::lemma_div_pos_is_pos(self.cell_size as int, 2);
            vstd::arithmetic::div_mod::lemma_div_nonincreasing(self.cell_size as int, 2);
        }
        let half: i64 = ((self.cell_size as u64) / 2) as i64;
        Vec2i {
            x: self.offset.x + (pos.x as i64) * self.cell_size + half,
            y: self.offset.y + (pos.y as i64) * self.cell_size + half,
        }
    }

    /// The lowest and highest world coordinates the grid covers.
    pub fn get_boundaries(&self) -> (bounds: (Vec2i, Vec2i))
        requires
            self.geometry_wf(),
        ensures
            bounds.0 == self.offset,
            bounds.1.x == self.offset.x + self.size.x * self.cell_size,
            bounds.1.y == self.offset.y + self.size.y * self.cell_size,
            bounds.0.x < bounds.1.x && bounds.0.y < bounds.1.y,
            bounds.0.bounded(COORD_LIMIT as int),
            bounds.1.bounded(2 * COORD_LIMIT as int),
    {
        proof {
            assert(1 * self.cell_size <= self.size.x * self.cell_size && 1 * self.cell_size
                <= self.size.y * self.cell_size) by (nonlinear_arith)
                requires
                    1 <= self.size.x,
                    1 <= self.size.y,
                    1 <= self.cell_size,
            ;
        }
        let min = self.offset;
        let max = Vec2i {
            x: self.offset.x + (self.size.x as i64) * self.cell_size,
            y: self.offset.y + (self.size.y as i64) * self.cell_size,
        };
        (min, max)
    }

    /// One axis of the world-to-cell mapping: the floor of
    /// `rel / cell`, clamped into `[0, n)`.
    pub open spec fn spec_cell_axis(rel: int, cell: int, n: int) -> int {
        let q = rel / cell;
        if q < 0 {
            0
        } else if q >= n {
            n - 1
        } else {
            q
        }
    }

    /// The cell a world position falls in, out-of-range positions
    /// clamping to the nearest border cell.
    pub open spec fn spec_world_to_cell(self, p: Vec2i) -> CellPos {
        CellPos {
            x: Self::spec_cell_axis(p.x - self.offset.x, self.cell_size as int, self.size.x as int)
                as u32,
            y: Self::spec_cell_axis(p.y - self.offset.y, self.cell_size as int, self.size.y as int)
                as u32,
        }
    }

    /// Maps a world position to the cell containing it; always
    /// succeeds, clamping positions outside the world to the nearest
    /// border cell.
    pub fn get_grid_pos(&self, world_pos: Vec2i) -> (cell: CellPos)
        requires
            self.geometry_wf(),
            world_pos.bounded(1_000_000_000),
        ensures
            cell == self.spec_world_to_cell(world_pos),
            self.cell_in_bounds(cell),
            world_pos.x - self.offset.x < 0 ==> cell.x == 0,
            world_pos.x - self.offset.x >= self.size.x * self.cell_size ==> cell.x == self.size.x
                - 1,
            0 <= world_pos.x - self.offset.x < self.size.x * self.cell_size ==> cell.x == (
            world_pos.x - self.offset.x) / (self.cell_size as int),
            world_pos.y - self.offset.y < 0 ==> cell.y == 0,
            world_pos.y - self.offset.y >= self.size.y * self.cell_size ==> cell.y == self.size.y
                - 1,
            0 <= world_pos.y - self.offset.y < self.size.y * self.cell_size ==> cell.y == (
            world_pos.y - self.offset.y) / (self.cell_size as int),
    {
        let cx: u32 = Self::cell_axis(world_pos.x - self.offset.x, self.cell_size, self.size.x);
        let cy: u32 = Self::cell_axis(world_pos.y - self.offset.y, self.cell_size, self.size.y);
        CellPos { x: cx, y: cy }
    }

    /// One clamped axis of the world-to-cell mapping.
    fn cell_axis(rel: i64, cell: i64, n: u32) -> (c: u32)
        requires
            1 <= cell <= COORD_LIMIT,
            1 <= n <= 1000,
            n * cell <= COORD_LIMIT,
            -2_000_000_000 <= rel <= 2_000_000_000,
        ensures
            c == Self::spec_cell_axis(rel as int, cell as int, n as int),
            c < n,
            rel < 0 ==> c == 0,
            rel >= n * cell ==> c == n - 1,
            0 <= rel < n * cell ==> c == rel as int / cell as int,
    {
        let q: i64 = floor_div(rel, cell);
        proof {
            if rel < 0 {
                vstd::arithmetic::div_mod::lemma_div_is_ordered(rel as int, -1, cell as int);
                vstd::arithmetic::div_mod::lemma_fundamental_div_mod_converse_div(
                    -1,
                    cell as int,
                    -1,
                    cell as int - 1,
                );
            } else {
                vstd::arithmetic::div_mod::lemma_div_pos_is_pos(rel as int, cell as int);
                if rel >= n as i64 * cell {
                    vstd::arithmetic::div_mod::lemma_div_is_ordered(
                        n as int * cell as int,
                        rel as int,
                        cell as int,
                    );
                    vstd::arithmetic::div_mod::lemma_div_by_multiple(n as int, cell as int);
                } else {
                    vstd::arithmetic::div_mod::lemma_div_is_ordered(
                        rel as int,
                        n as int * cell as int - 1,
                        cell as int,
                    );
                    assert((n as int - 1) * cell as int + (cell as int - 1) == n as int * cell
                        as int - 1) by (nonlinear_arith);
                    vstd::arithmetic::div_mod::lemma_fundamental_div_mod_converse_div(
                        n as int * cell as int - 1,
                        cell as int,
                        n as int - 1,
                        cell as int - 1,
                    );
                }
            }
        }
        if q < 0 {
            0
        } else if q >= n as i64 {
            n - 1
        } else {
            q as u32
        }
    }
}

impl Default for Grid {
    /// The default world: `GRID_AREA_SIZE` wide at `GRID_RESOLUTION`
    /// per cell.
    fn default() -> (grid: Grid)
        ensures
            grid.wf(),
            grid.size.x == GRID_AREA_SIZE as int / GRID_RESOLUTION as int,
            grid.size.y == grid.size.x,
            grid.cell_size == GRID_RESOLUTION,
            forall|ty: GridEntityType, i: int|
                0 <= i < grid.cell_count() ==> #[trigger] grid.bucket(ty, i).len() == 0,
    {
        Grid::new(GRID_AREA_SIZE, GRID_RESOLUTION)
    }
}

/// `n` empty buckets.
fn make_buckets(n: usize) -> (buckets: Vec<Vec<GridEntry>>)
    ensures
        buckets@.len() == n,
        forall|i: int| 0 <= i < n ==> #[trigger] buckets@[i]@.len() == 0,
{
    let mut buckets: Vec<Vec<GridEntry>> = Vec::new();
    let mut i: usize = 0;
    while i < n
        invariant
            i <= n,
            buckets@.len() == i,
            forall|j: int| 0 <= j < i ==> #[trigger] buckets@[j]@.len() == 0,
        decreases n - i,
    {
        buckets.push(Vec::new());
        i = i + 1;
    }
    buckets
}

/// Whether a sequence of entries holds the handle.
pub open spec fn seq_has_id(s: Seq<GridEntry>, id: u64) -> bool {
    exists|k: int| 0 <= k < s.len() && (#[trigger] s[k]).1 == id
}

/// The entries of a sequence with every entry of the given handle
/// left out, order kept.
pub open spec fn without_id(s: Seq<GridEntry>, id: u64) -> Seq<GridEntry>
    decreases s.len(),
{
    if s.len() == 0 {
        Seq::empty()
    } else {
        let rest = without_id(s.drop_last(), id);
        if s.last().1 != id {
            rest.push(s.last())
        } else {
            rest
        }
    }
}

/// A handle occurs at most once in a sequence of entries.
pub open spec fn ids_distinct(s: Seq<GridEntry>) -> bool {
    forall|k1: int, k2: int| 0 <= k1 < k2 < s.len() ==> (#[trigger] s[k1]).1 != (#[trigger] s[k2]).1
}

/// A copy of one bucket.
fn copy_bucket(bucket: &Vec<GridEntry>) -> (r: Vec<GridEntry>)
    ensures
        r@ == bucket@,
{
    let mut r: Vec<GridEntry> = Vec::new();
    let mut k: usize = 0;
    while k < bucket.len()
        invariant
            k <= bucket@.len(),
            r@ == bucket@.take(k as int),
        decreases bucket@.len() - k,
    {
        let pair: GridEntry = bucket[k];
        r.push(pair);
        proof {
            assert(r@ =~= bucket@.take(k as int + 1));
        }
        k = k + 1;
    }
    proof {
        assert(r@ =~= bucket@);
    }
    r
}

/// The entries of one bucket with every entry of the given handle
/// left out.
fn bucket_without(bucket: &Vec<GridEntry>, id: u64) -> (r: Vec<GridEntry>)
    ensures
        r@ == without_id(bucket@, id),
{
    let mut r: Vec<GridEntry> = Vec::new();
    let mut k: usize = 0;
    proof {
        assert(bucket@.take(0) =~= Seq::<GridEntry>::empty());
    }
    while k < bucket.len()
        invariant
            k <= bucket@.len(),
            r@ == without_id(bucket@.take(k as int), id),
        decreases bucket@.len() - k,
    {
        let pair: GridEntry = bucket[k];
        proof {
            let taken = bucket@.take(k as int + 1);
            assert(taken.drop_last() =~= bucket@.take(k as int));
            assert(taken.last() == pair);
            assert(without_id(taken, id) == if pair.1 != id {
                without_id(bucket@.take(k as int), id).push(pair)
            } else {
                without_id(bucket@.take(k as int), id)
            });
        }
        if pair.1 != id {
            r.push(pair);
        }
        k = k + 1;
    }
    proof {
        assert(bucket@.take(bucket@.len() as int) =~= bucket@);
    }
    r
}

/// Filtering a bucket by handle keeps only entries it already held,
/// keeps handles distinct, and leaves no entry of the filtered
/// handle.
proof fn lemma_bucket_filter(s: Seq<GridEntry>, id: u64, out: Seq<GridEntry>)
    requires
        out == without_id(s, id),
    ensures
        forall|k: int| 0 <= k < out.len() ==> s.contains(#[trigger] out[k]) && out[k].1 != id,
        ids_distinct(s) ==> ids_distinct(out),
    decreases s.len(),
{
    if s.len() > 0 {
        let prefix = s.drop_last();
        let sub = without_id(prefix, id);
        lemma_bucket_filter(prefix, id, sub);
        assert forall|k: int| 0 <= k < out.len() implies s.contains(#[trigger] out[k])
            && out[k].1 != id by {
            if k < sub.len() {
                assert(out[k] == sub[k]);
                assert(prefix.contains(sub[k]));
                let j = choose|j: int| 0 <= j < prefix.len() && prefix[j] == sub[k];
                assert(s[j] == out[k]);
            } else {
                assert(out[k] == s.last());
                assert(s[s.len() - 1] == s.last());
            }
        }
        if ids_distinct(s) {
            assert(ids_distinct(prefix)) by {
                assert forall|k1: int, k2: int| 0 <= k1 < k2 < prefix.len() implies (
                #[trigger] prefix[k1]).1 != (#[trigger] prefix[k2]).1 by {
                    assert(s[k1] == prefix[k1] && s[k2] == prefix[k2]);
                }
            }
            assert forall|k1: int, k2: int| 0 <= k1 < k2 < out.len() implies (
            #[trigger] out[k1]).1 != (#[trigger] out[k2]).1 by {
                if k2 < sub.len() {
                    assert(out[k1] == sub[k1] && out[k2] == sub[k2]);
                } else {
                    assert(out[k2] == s.last());
                    assert(out[k1] == sub[k1]);
                    assert(prefix.contains(sub[k1]));
                    let j = choose|j: int| 0 <= j < prefix.len() && prefix[j] == sub[k1];
                    assert(s[j] == out[k1] && s[s.len() - 1] == s.last());
                }
            }
        }
    }
}

/// Whether one bucket holds the handle.
fn bucket_contains(bucket: &Vec<GridEntry>, id: u64) -> (r: bool)
    ensures
        r == exists|k: int| 0 <= k < bucket@.len() && (#[trigger] bucket@[k]).1 == id,
{
    let mut k: usize = 0;
    while k < bucket.len()
        invariant
            k <= bucket@.len(),
            forall|j: int| 0 <= j < k ==> (#[trigger] bucket@[j]).1 != id,
        decreases bucket@.len() - k,
    {
        if bucket[k].1 == id {
            return true;
        }
        k = k + 1;
    }
    false
}

impl Grid {
    /// The shape (cell counts, cell size, offset) of two grid values
    /// agrees.
    pub open spec fn same_shape(a: Grid, b: Grid) -> bool {
        a.size == b.size && a.cell_size == b.cell_size && a.offset == b.offset
    }

    /// All buckets of `a` and `b` agree except possibly the one
    /// singled out.
    pub open spec fn buckets_same_except(a: Grid, b: Grid, ty: GridEntityType, i: int) -> bool {
        forall|ty2: GridEntityType, j: int|
            0 <= j < a.cell_count() && (ty2 != ty || j != i) ==> #[trigger] a.bucket(ty2, j)
                == b.bucket(ty2, j)
    }

    /// A cell inside the grid has a row-major index inside the bucket
    /// arrays.
    pub proof fn lemma_idx_bounds(self, pos: CellPos)
        requires
            self.cell_in_bounds(pos),
            1 <= self.size.x,
            1 <= self.size.y,
        ensures
            0 <= self.idx(pos) < self.cell_count(),
    {
        assert(pos.x + pos.y * self.size.x < self.size.x * self.size.y) by (nonlinear_arith)
            requires
                pos.x < self.size.x,
                pos.y < self.size.y,
                1 <= self.size.x,
                1 <= self.size.y,
        ;
    }

    /// Distinct in-bounds cells have distinct row-major indices.
    pub proof fn lemma_idx_injective(self, a: CellPos, b: CellPos)
        requires
            self.cell_in_bounds(a),
            self.cell_in_bounds(b),
            1 <= self.size.x,
            1 <= self.size.y,
            a != b,
        ensures
            self.idx(a) != self.idx(b),
    {
        assert(a.x + a.y * self.size.x != b.x + b.y * self.size.x) by (nonlinear_arith)
            requires
                a.x < self.size.x,
                b.x < self.size.x,
                1 <= self.size.x,
                !(a.x == b.x && a.y == b.y),
        ;
    }

    /// Whether the bucket at `pos` holds the entity's handle;
    /// out-of-range cells hold nothing. Never fails.
    pub fn has_entity(
        &self,
        pos: CellPos,
        entity_type: GridEntityType,
        entity: (&GridEntity, u64),
    ) -> (r: Result<bool, ()>)
        requires
            self.geometry_wf(),
            self.buckets_wf(),
        ensures
            r == Ok::<bool, ()>(
                self.cell_in_bounds(pos) && self.slot_has(
                    entity_type,
                    self.idx(pos),
                    entity.1,
                ),
            ),
    {
        if pos.x >= self.size.x || pos.y >= self.size.y {
            return Ok(false);
        }
        proof {
            self.lemma_idx_bounds(pos);
            assert(pos.y as int * self.size.x as int <= 1_000_000) by (nonlinear_arith)
                requires
                    0 <= pos.y as int <= 1000,
                    0 <= self.size.x as int <= 1000,
            ;
        }
        let index: usize = (pos.x as usize) + (pos.y as usize) * (self.size.x as usize);
        let found: bool = match entity_type {
            GridEntityType::Ant => bucket_contains(&self.ants[index], entity.1),
            GridEntityType::Food => bucket_contains(&self.food[index], entity.1),
            GridEntityType::Pheromone => bucket_contains(&self.pheromones[index], entity.1),
        };
        proof {
            let ty = entity_type;
            let i0 = index as int;
            let b = self.bucket(ty, i0);
            match ty {
                GridEntityType::Ant => {
                    assert(b == self.ants@[i0]@);
                },
                GridEntityType::Food => {
                    assert(b == self.food@[i0]@);
                },
                GridEntityType::Pheromone => {
                    assert(b == self.pheromones@[i0]@);
                },
            }
            if found {
                let k = choose|k: int| 0 <= k < b.len() && (#[trigger] b[k]).1 == entity.1;
                assert(self.entry_id(ty, i0, k) == entity.1);
                assert(self.slot_has(ty, i0, entity.1));
            } else {
                if self.slot_has(ty, i0, entity.1) {
                    let k = choose|k: int|
                        0 <= k < b.len() && self.entry_id(ty, i0, k) == entity.1;
                    assert((b[k]).1 == entity.1);
                    assert(false);
                }
            }
        }
        Ok(found)
    }

    /// Appends the pair to the bucket of the entity's current cell;
    /// fails, changing nothing, when that cell lies outside the grid.
    /// The handle must not be filed anywhere in the category yet, so
    /// the at-most-once invariant carries over.
    pub fn add_entity(
        &mut self,
        entity_type: GridEntityType,
        entity: (&GridEntity, u64),
    ) -> (r: Result<(), ()>)
        requires
            old(self).wf(),
            !old(self).has_anywhere(entity_type, entity.1),
        ensures
            final(self).wf(),
            Self::same_shape(*final(self), *old(self)),
            r is Ok <==> old(self).cell_in_bounds(entity.0.current_position),
            r is Err ==> *final(self) == *old(self),
            r is Ok ==> {
                let i = old(self).idx(entity.0.current_position);
                &&& final(self).bucket(entity_type, i) == old(self).bucket(
                    entity_type,
                    i,
                ).push((*entity.0, entity.1))
                &&& Self::buckets_same_except(*final(self), *old(self), entity_type, i)
                &&& final(self).slot_has(entity_type, i, entity.1)
                &&& final(self).confined_to(entity_type, entity.1, i, i)
            },
            forall|i: int, id2: u64|
                0 <= i < old(self).cell_count() && id2 != entity.1 ==> (
                #[trigger] final(self).slot_has(entity_type, i, id2) == old(self).slot_has(
                    entity_type,
                    i,
                    id2,
                )),
    {
        let ghost g0 = *self;
        let curr = entity.0.current_position;
        if curr.x >= self.size.x || curr.y >= self.size.y {
            return Err(());
        }
        proof {
            self.lemma_idx_bounds(curr);
            assert(curr.y as int * self.size.x as int <= 1_000_000) by (nonlinear_arith)
                requires
                    0 <= curr.y as int <= 1000,
                    0 <= self.size.x as int <= 1000,
            ;
        }
        let index: usize = (curr.x as usize) + (curr.y as usize) * (self.size.x as usize);
        let pair: GridEntry = (*entity.0, entity.1);
        match entity_type {
            GridEntityType::Ant => {
                let mut nb = copy_bucket(&self.ants[index]);
                nb.push(pair);
                self.ants.set(index, nb);
            },
            GridEntityType::Food => {
                let mut nb = copy_bucket(&self.food[index]);
                nb.push(pair);
                self.food.set(index, nb);
            },
            GridEntityType::Pheromone => {
                let mut nb = copy_bucket(&self.pheromones[index]);
                nb.push(pair);
                self.pheromones.set(index, nb);
            },
        }
        proof {
            let g1 = *self;
            let ty = entity_type;
            let i0 = index as int;
            assert(g1.bucket(ty, i0) == g0.bucket(ty, i0).push(pair));
            assert(Self::buckets_same_except(g1, g0, ty, i0));
            assert(g1.slot_has(ty, i0, entity.1)) by {
                assert(g1.entry_id(ty, i0, g0.bucket(ty, i0).len() as int) == entity.1);
            }
            lemma_insert_keeps_no_dups(g0, g1, ty, i0, pair);
            assert forall|j: int, id2: u64|
                0 <= j < g0.cell_count() && id2 != entity.1 implies (#[trigger] g1.slot_has(
                ty,
                j,
                id2,
            ) == g0.slot_has(ty, j, id2)) by {
                lemma_push_keeps_others(g0, g1, ty, i0, pair, j, id2);
            }
            assert(g1.confined_to(ty, entity.1, i0, i0)) by {
                assert forall|j: int|
                    0 <= j < g1.cell_count() && #[trigger] g1.slot_has(ty, j, entity.1) implies j
                    == i0 by {
                    if j != i0 {
                        let k = choose|k: int|
                            0 <= k < g1.bucket(ty, j).len() && (#[trigger] g1.bucket(ty, j)[k]).1
                                == entity.1;
                        assert(g0.entry_id(ty, j, k) == entity.1);
                        assert(g0.slot_has(ty, j, entity.1));
                        assert(g0.has_anywhere(ty, entity.1));
                    }
                }
            }
        }
        Ok(())
    }
}

/// Appending a fresh handle to one bucket keeps every category free
/// of duplicates.
proof fn lemma_insert_keeps_no_dups(g0: Grid, g1: Grid, ty: GridEntityType, i0: int, pair: GridEntry)
    requires
        g0.wf(),
        !g0.has_anywhere(ty, pair.1),
        0 <= i0 < g0.cell_count(),
        Grid::same_shape(g1, g0),
        g1.buckets_wf(),
        g1.bucket(ty, i0) == g0.bucket(ty, i0).push(pair),
        Grid::buckets_same_except(g1, g0, ty, i0),
    ensures
        g1.wf(),
{
    let tys = [GridEntityType::Ant, GridEntityType::Food, GridEntityType::Pheromone];
    assert forall|ty2: GridEntityType| true implies #[trigger] g1.no_dups(ty2) by {
        assert forall|i: int, k1: int, j: int, k2: int|
            0 <= i < g1.cell_count() && 0 <= k1 < g1.bucket(ty2, i).len() && 0 <= j
                < g1.cell_count() && 0 <= k2 < g1.bucket(ty2, j).len() && (i != j || k1
                != k2) implies #[trigger] g1.entry_id(ty2, i, k1) != #[trigger] g1.entry_id(
            ty2,
            j,
            k2,
        ) by {
            let new_slot_1 = ty2 == ty && i == i0 && k1 == g0.bucket(ty, i0).len();
            let new_slot_2 = ty2 == ty && j == i0 && k2 == g0.bucket(ty, i0).len();
            if new_slot_1 && new_slot_2 {
                assert(false);
            } else if new_slot_1 {
                assert(g1.entry_id(ty2, i, k1) == pair.1);
                assert(g1.entry_id(ty2, j, k2) == g0.entry_id(ty2, j, k2));
                if g0.entry_id(ty2, j, k2) == pair.1 {
                    assert(g0.slot_has(ty, j, pair.1));
                    assert(g0.has_anywhere(ty, pair.1));
                }
            } else if new_slot_2 {
                assert(g1.entry_id(ty2, j, k2) == pair.1);
                assert(g1.entry_id(ty2, i, k1) == g0.entry_id(ty2, i, k1));
                if g0.entry_id(ty2, i, k1) == pair.1 {
                    assert(g0.slot_has(ty, i, pair.1));
                    assert(g0.has_anywhere(ty, pair.1));
                }
            } else {
                assert(g1.entry_id(ty2, i, k1) == g0.entry_id(ty2, i, k1));
                assert(g1.entry_id(ty2, j, k2) == g0.entry_id(ty2, j, k2));
            }
        }
    }
}

/// Appending an entry for one handle does not change which cells hold
/// any other handle.
proof fn lemma_push_keeps_others(
    g0: Grid,
    g1: Grid,
    ty: GridEntityType,
    i0: int,
    pair: GridEntry,
    j: int,
    id2: u64,
)
    requires
        g0.buckets_wf(),
        g1.buckets_wf(),
        Grid::same_shape(g1, g0),
        0 <= i0 < g0.cell_count(),
        0 <= j < g0.cell_count(),
        id2 != pair.1,
        g1.bucket(ty, i0) == g0.bucket(ty, i0).push(pair),
        Grid::buckets_same_except(g1, g0, ty, i0),
    ensures
        g1.slot_has(ty, j, id2) == g0.slot_has(ty, j, id2),
{
    if j != i0 {
        assert(g1.bucket(ty, j) == g0.bucket(ty, j));
    } else {
        if g0.slot_has(ty, j, id2) {
            let k = choose|k: int|
                0 <= k < g0.bucket(ty, j).len() && (#[trigger] g0.bucket(ty, j)[k]).1 == id2;
            assert((g1.bucket(ty, j)[k]).1 == id2);
            assert(g1.slot_has(ty, j, id2));
        }
        if g1.slot_has(ty, j, id2) {
            let k = choose|k: int|
                0 <= k < g1.bucket(ty, j).len() && (#[trigger] g1.bucket(ty, j)[k]).1 == id2;
            assert(k < g0.bucket(ty, j).len() + 1);
            if k < g0.bucket(ty, j).len() {
                assert((g0.bucket(ty, j)[k]).1 == id2);
                assert(g0.slot_has(ty, j, id2));
            } else {
                assert((g1.bucket(ty, j)[k]).1 == pair.1);
            }
        }
    }
}

/// Filtering a handle out of a bucket removes exactly that handle:
/// the handle itself is gone and every other handle's presence is
/// unchanged.
proof fn lemma_bucket_filter_membership(s: Seq<GridEntry>, id: u64, out: Seq<GridEntry>)
    requires
        out == without_id(s, id),
    ensures
        !seq_has_id(out, id),
        forall|id2: u64| id2 != id ==> seq_has_id(out, id2) == seq_has_id(s, id2),
{
    lemma_bucket_filter(s, id, out);
    assert forall|id2: u64| id2 != id implies seq_has_id(out, id2) == seq_has_id(s, id2) by {
        if seq_has_id(out, id2) {
            let k = choose|k: int| 0 <= k < out.len() && (#[trigger] out[k]).1 == id2;
            assert(s.contains(out[k]));
            let j = choose|j: int| 0 <= j < s.len() && s[j] == out[k];
            assert((s[j]).1 == id2);
            assert(seq_has_id(s, id2));
        }
        if seq_has_id(s, id2) {
            let k = choose|k: int| 0 <= k < s.len() && (#[trigger] s[k]).1 == id2;
            lemma_without_id_keeps(s, id, k);
            assert(out.contains(s[k]));
            let j = choose|j: int| 0 <= j < out.len() && out[j] == s[k];
            assert((out[j]).1 == id2);
            assert(seq_has_id(out, id2));
        }
    }
    if seq_has_id(out, id) {
        let k = choose|k: int| 0 <= k < out.len() && (#[trigger] out[k]).1 == id;
        assert(out[k].1 != id);
    }
}

/// An entry of another handle survives the filtering.
proof fn lemma_without_id_keeps(s: Seq<GridEntry>, id: u64, k: int)
    requires
        0 <= k < s.len(),
        s[k].1 != id,
    ensures
        without_id(s, id).contains(s[k]),
    decreases s.len(),
{
    let prefix = s.drop_last();
    if k == s.len() - 1 {
        assert(s.last() == s[k]);
        let out = without_id(s, id);
        assert(out[out.len() - 1] == s[k]);
    } else {
        lemma_without_id_keeps(prefix, id, k);
        let sub = without_id(prefix, id);
        let j = choose|j: int| 0 <= j < sub.len() && sub[j] == prefix[k];
        assert(without_id(s, id)[j] == prefix[k]);
        assert(prefix[k] == s[k]);
    }
}

/// Replacing any set of buckets of one category by filtered versions
/// of themselves keeps every category free of duplicates.
#[verifier::rlimit(60)]
proof fn lemma_filtered_keeps_no_dups(g0: Grid, g1: Grid, ty: GridEntityType, id: u64)
    requires
        g0.wf(),
        Grid::same_shape(g1, g0),
        g1.buckets_wf(),
        forall|i: int|
            0 <= i < g0.cell_count() ==> (#[trigger] g1.bucket(ty, i) == g0.bucket(ty, i)
                || g1.bucket(ty, i) == without_id(g0.bucket(ty, i), id)),
        forall|ty2: GridEntityType, i: int|
            ty2 != ty && 0 <= i < g0.cell_count() ==> #[trigger] g1.bucket(ty2, i) == g0.bucket(
                ty2,
                i,
            ),
    ensures
        g1.wf(),
{
    assert forall|ty2: GridEntityType| true implies #[trigger] g1.no_dups(ty2) by {
        assert forall|i: int, k1: int, j: int, k2: int|
            0 <= i < g1.cell_count() && 0 <= k1 < g1.bucket(ty2, i).len() && 0 <= j
                < g1.cell_count() && 0 <= k2 < g1.bucket(ty2, j).len() && (i != j || k1
                != k2) implies #[trigger] g1.entry_id(ty2, i, k1) != #[trigger] g1.entry_id(
            ty2,
            j,
            k2,
        ) by {
            if ty2 != ty {
                assert(g1.bucket(ty2, i) == g0.bucket(ty2, i));
                assert(g1.bucket(ty2, j) == g0.bucket(ty2, j));
                assert(g0.entry_id(ty2, i, k1) != g0.entry_id(ty2, j, k2));
            } else {
                if i == j {
                    assert(ids_distinct(g0.bucket(ty2, i))) by {
                        assert forall|a: int, b: int|
                            0 <= a < b < g0.bucket(ty2, i).len() implies (#[trigger] g0.bucket(
                            ty2,
                            i,
                        )[a]).1 != (#[trigger] g0.bucket(ty2, i)[b]).1 by {
                            assert(g0.entry_id(ty2, i, a) != g0.entry_id(ty2, i, b));
                        }
                    }
                    if g1.bucket(ty2, i) != g0.bucket(ty2, i) {
                        lemma_bucket_filter(g0.bucket(ty2, i), id, g1.bucket(ty2, i));
                        assert(ids_distinct(g1.bucket(ty2, i)));
                        if k1 < k2 {
                            assert((g1.bucket(ty2, i)[k1]).1 != (g1.bucket(ty2, i)[k2]).1);
                        } else {
                            assert((g1.bucket(ty2, i)[k2]).1 != (g1.bucket(ty2, i)[k1]).1);
                        }
                    } else {
                        assert(g0.entry_id(ty2, i, k1) != g0.entry_id(ty2, i, k2));
                    }
                } else {
                    let a1 = lemma_map_back(g0, g1, ty2, id, i, k1);
                    let a2 = lemma_map_back(g0, g1, ty2, id, j, k2);
                    assert(g0.entry_id(ty2, i, a1) != g0.entry_id(ty2, j, a2));
                }
            }
        }
    }
}

/// Every entry of a (possibly filtered) bucket of `g1` sits somewhere
/// in the matching bucket of `g0`; returns such a position.
proof fn lemma_map_back(g0: Grid, g1: Grid, ty: GridEntityType, id: u64, i: int, k: int) -> (a:
    int)
    requires
        g0.buckets_wf(),
        g1.buckets_wf(),
        Grid::same_shape(g1, g0),
        0 <= i < g0.cell_count(),
        0 <= k < g1.bucket(ty, i).len(),
        g1.bucket(ty, i) == g0.bucket(ty, i) || g1.bucket(ty, i) == without_id(
            g0.bucket(ty, i),
            id,
        ),
    ensures
        0 <= a < g0.bucket(ty, i).len(),
        g0.bucket(ty, i)[a] == g1.bucket(ty, i)[k],
{
    if g1.bucket(ty, i) == g0.bucket(ty, i) {
        k
    } else {
        lemma_bucket_filter(g0.bucket(ty, i), id, g1.bucket(ty, i));
        assert(g0.bucket(ty, i).contains(g1.bucket(ty, i)[k]));
        let a = choose|a: int|
            0 <= a < g0.bucket(ty, i).len() && g0.bucket(ty, i)[a] == g1.bucket(ty, i)[k];
        a
    }
}

impl Grid {
    /// Removes the entity's handle from the bucket at the given cell,
    /// a no-op (not an error) when the handle is not there; fails,
    /// changing nothing, only when the cell lies outside the grid.
    pub fn remove_from(
        &mut self,
        entity_type: GridEntityType,
        pos: CellPos,
        entity: (&GridEntity, u64),
    ) -> (r: Result<(), ()>)
        requires
            old(self).wf(),
        ensures
            final(self).wf(),
            Self::same_shape(*final(self), *old(self)),
            r is Ok <==> old(self).cell_in_bounds(pos),
            r is Err ==> *final(self) == *old(self),
            r is Ok ==> {
                let i = old(self).idx(pos);
                &&& final(self).bucket(entity_type, i) == without_id(
                    old(self).bucket(entity_type, i),
                    entity.1,
                )
                &&& Self::buckets_same_except(*final(self), *old(self), entity_type, i)
                &&& !final(self).slot_has(entity_type, i, entity.1)
            },
            forall|i: int, id2: u64|
                0 <= i < old(self).cell_count() && id2 != entity.1 ==> (
                #[trigger] final(self).slot_has(entity_type, i, id2) == old(self).slot_has(
                    entity_type,
                    i,
                    id2,
                )),
    {
        let ghost g0 = *self;
        if pos.x >= self.size.x || pos.y >= self.size.y {
            return Err(());
        }
        proof {
            self.lemma_idx_bounds(pos);
            assert(pos.y as int * self.size.x as int <= 1_000_000) by (nonlinear_arith)
                requires
                    0 <= pos.y as int <= 1000,
                    0 <= self.size.x as int <= 1000,
            ;
        }
        let index: usize = (pos.x as usize) + (pos.y as usize) * (self.size.x as usize);
        match entity_type {
            GridEntityType::Ant => {
                let nb = bucket_without(&self.ants[index], entity.1);
                self.ants.set(index, nb);
            },
            GridEntityType::Food => {
                let nb = bucket_without(&self.food[index], entity.1);
                self.food.set(index, nb);
            },
            GridEntityType::Pheromone => {
                let nb = bucket_without(&self.pheromones[index], entity.1);
                self.pheromones.set(index, nb);
            },
        }
        proof {
            let g1 = *self;
            let ty = entity_type;
            let i0 = index as int;
            assert(g1.bucket(ty, i0) == without_id(g0.bucket(ty, i0), entity.1));
            assert(Grid::buckets_same_except(g1, g0, ty, i0));
            lemma_filtered_keeps_no_dups(g0, g1, ty, entity.1);
            lemma_bucket_filter_membership(g0.bucket(ty, i0), entity.1, g1.bucket(ty, i0));
            assert forall|i: int, id2: u64|
                0 <= i < g0.cell_count() && id2 != entity.1 implies (#[trigger] g1.slot_has(
                ty,
                i,
                id2,
            ) == g0.slot_has(ty, i, id2)) by {
                if i != i0 {
                    assert(g1.bucket(ty, i) == g0.bucket(ty, i));
                }
            }
        }
        Ok(())
    }

    /// Sweeps the entity's handle out of every bucket of the
    /// category, wherever it is filed; never fails.
    pub fn lazy_remove(
        &mut self,
        entity_type: GridEntityType,
        entity: (&GridEntity, u64),
    ) -> (r: Result<(), ()>)
        requires
            old(self).wf(),
        ensures
            final(self).wf(),
            Self::same_shape(*final(self), *old(self)),
            r is Ok,
            forall|i: int|
                0 <= i < old(self).cell_count() ==> #[trigger] final(self).bucket(entity_type, i)
                    == without_id(old(self).bucket(entity_type, i), entity.1),
            forall|ty2: GridEntityType, i: int|
                ty2 != entity_type && 0 <= i < old(self).cell_count()
                    ==> #[trigger] final(self).bucket(ty2, i) == old(self).bucket(ty2, i),
            !final(self).has_anywhere(entity_type, entity.1),
            forall|i: int, id2: u64|
                0 <= i < old(self).cell_count() && id2 != entity.1 ==> (
                #[trigger] final(self).slot_has(entity_type, i, id2) == old(self).slot_has(
                    entity_type,
                    i,
                    id2,
                )),
    {
        let ghost g0 = *self;
        match entity_type {
            GridEntityType::Ant => filter_all(&mut self.ants, entity.1),
            GridEntityType::Food => filter_all(&mut self.food, entity.1),
            GridEntityType::Pheromone => filter_all(&mut self.pheromones, entity.1),
        }
        proof {
            let g1 = *self;
            let ty = entity_type;
            assert forall|i: int| 0 <= i < g0.cell_count() implies #[trigger] g1.bucket(ty, i)
                == without_id(g0.bucket(ty, i), entity.1) by {}
            lemma_filtered_keeps_no_dups(g0, g1, ty, entity.1);
            assert forall|i: int, id2: u64|
                0 <= i < g0.cell_count() && id2 != entity.1 implies (#[trigger] g1.slot_has(
                ty,
                i,
                id2,
            ) == g0.slot_has(ty, i, id2)) by {
                lemma_bucket_filter_membership(g0.bucket(ty, i), entity.1, g1.bucket(ty, i));
            }
            assert forall|i: int|
                0 <= i < g1.cell_count() implies !(#[trigger] g1.slot_has(ty, i, entity.1)) by {
                lemma_bucket_filter_membership(g0.bucket(ty, i), entity.1, g1.bucket(ty, i));
            }
        }
        Ok(())
    }
}

/// Replaces every bucket by a copy with the handle filtered out.
fn filter_all(buckets: &mut Vec<Vec<GridEntry>>, id: u64)
    ensures
        final(buckets)@.len() == old(buckets)@.len(),
        forall|i: int|
            0 <= i < old(buckets)@.len() ==> #[trigger] final(buckets)@[i]@ == without_id(
                old(buckets)@[i]@,
                id,
            ),
{
    let mut i: usize = 0;
    let n: usize = buckets.len();
    while i < n
        invariant
            n == buckets@.len(),
            n == old(buckets)@.len(),
            i <= n,
            forall|j: int|
                0 <= j < i ==> #[trigger] buckets@[j]@ == without_id(old(buckets)@[j]@, id),
            forall|j: int| i <= j < n ==> #[trigger] buckets@[j] == old(buckets)@[j],
        decreases n - i,
    {
        let nb = bucket_without(&buckets[i], id);
        buckets.set(i, nb);
        i = i + 1;
    }
}

/// What one reconciliation step found and did.
#[derive(Clone, Copy, Debug, PartialEq, Eq, Structural)]
pub enum ReconcileOutcome {
    /// The handle was already filed under its current cell.
    AlreadyCurrent,
    /// The handle moved from its last cell to its current cell.
    Moved,
    /// The handle was filed nowhere and was inserted afresh: a
    /// recoverable anomaly, not a fatal error.
    FirstInsert,
    /// The current cell lies outside the grid; the handle is not
    /// filed this tick.
    OutOfBounds,
}

impl Grid {
    /// Within one category a handle sits in at most one cell.
    pub proof fn lemma_at_most_one_slot(self, ty: GridEntityType, id: u64, i: int, j: int)
        requires
            self.wf(),
            0 <= i < self.cell_count(),
            0 <= j < self.cell_count(),
            self.slot_has(ty, i, id),
            self.slot_has(ty, j, id),
        ensures
            i == j,
    {
        if i != j {
            let k1 = choose|k: int|
                0 <= k < self.bucket(ty, i).len() && (#[trigger] self.bucket(ty, i)[k]).1 == id;
            let k2 = choose|k: int|
                0 <= k < self.bucket(ty, j).len() && (#[trigger] self.bucket(ty, j)[k]).1 == id;
            assert(self.entry_id(ty, i, k1) == id && self.entry_id(ty, j, k2) == id);
        }
    }

    /// Re-files the entity under its current cell: nothing happens if
    /// it is already filed there; otherwise it is removed from its
    /// last cell (if filed there) and inserted at the current cell.
    /// An entity filed nowhere is inserted afresh and reported as a
    /// recoverable anomaly; a current cell outside the grid leaves
    /// the entity unfiled. The handle must not be filed anywhere
    /// except under its last or current cell.
    pub fn reconcile(
        &mut self,
        entity_type: GridEntityType,
        entity: (&GridEntity, u64),
    ) -> (outcome: ReconcileOutcome)
        requires
            old(self).wf(),
            forall|i: int|
                0 <= i < old(self).cell_count() && #[trigger] old(self).slot_has(
                    entity_type,
                    i,
                    entity.1,
                ) ==> (old(self).cell_in_bounds(entity.0.last_position) && i == old(self).idx(
                    entity.0.last_position,
                )) || (old(self).cell_in_bounds(entity.0.current_position) && i == old(self).idx(
                    entity.0.current_position,
                )),
        ensures
            final(self).wf(),
            Self::same_shape(*final(self), *old(self)),
            forall|ty2: GridEntityType, i: int|
                ty2 != entity_type && 0 <= i < old(self).cell_count()
                    ==> #[trigger] final(self).bucket(ty2, i) == old(self).bucket(ty2, i),
            forall|i: int, id2: u64|
                0 <= i < old(self).cell_count() && id2 != entity.1 ==> (
                #[trigger] final(self).slot_has(entity_type, i, id2) == old(self).slot_has(
                    entity_type,
                    i,
                    id2,
                )),
            old(self).cell_in_bounds(entity.0.current_position) ==> final(self).slot_has(
                entity_type,
                old(self).idx(entity.0.current_position),
                entity.1,
            ) && final(self).confined_to(
                entity_type,
                entity.1,
                old(self).idx(entity.0.current_position),
                old(self).idx(entity.0.current_position),
            ),
            !old(self).cell_in_bounds(entity.0.current_position) ==> forall|i: int|
                0 <= i < old(self).cell_count() ==> !(#[trigger] final(self).slot_has(
                    entity_type,
                    i,
                    entity.1,
                )),
            (outcome == ReconcileOutcome::AlreadyCurrent) <==> (old(self).cell_in_bounds(
                entity.0.current_position,
            ) && old(self).slot_has(
                entity_type,
                old(self).idx(entity.0.current_position),
                entity.1,
            )),
            (outcome == ReconcileOutcome::OutOfBounds) <==> !old(self).cell_in_bounds(
                entity.0.current_position,
            ),
            (outcome == ReconcileOutcome::Moved) <==> (old(self).cell_in_bounds(
                entity.0.current_position,
            ) && !old(self).slot_has(
                entity_type,
                old(self).idx(entity.0.current_position),
                entity.1,
            ) && old(self).cell_in_bounds(entity.0.last_position) && old(self).slot_has(
                entity_type,
                old(self).idx(entity.0.last_position),
                entity.1,
            )),
            outcome == ReconcileOutcome::AlreadyCurrent ==> *final(self) == *old(self),
    {
        let ghost g0 = *self;
        let ty = entity_type;
        let curr = entity.0.current_position;
        let last = entity.0.last_position;
        let in_curr: bool = match self.has_entity(curr, ty, entity) {
            Ok(b) => b,
            Err(_) => false,
        };
        if in_curr {
            proof {
                g0.lemma_idx_bounds(curr);
                let ci = g0.idx(curr);
                assert forall|i: int|
                    0 <= i < g0.cell_count() && #[trigger] g0.slot_has(ty, i, entity.1) implies i
                    == ci by {
                    g0.lemma_at_most_one_slot(ty, entity.1, i, ci);
                }
            }
            return ReconcileOutcome::AlreadyCurrent;
        }
        let in_last: bool = match self.has_entity(last, ty, entity) {
            Ok(b) => b,
            Err(_) => false,
        };
        if in_last {
            let removed = self.remove_from(ty, last, entity);
            proof {
                assert(removed is Ok);
            }
        }
        proof {
            let g2 = *self;
            assert forall|i: int|
                0 <= i < g2.cell_count() implies !(#[trigger] g2.slot_has(ty, i, entity.1)) by {
                if in_last {
                    let li = g0.idx(last);
                    if i == li {
                        assert(!g2.slot_has(ty, li, entity.1));
                    } else {
                        assert(g2.slot_has(ty, i, entity.1) == g0.slot_has(ty, i, entity.1)) by {
                            assert(g2.bucket(ty, i) == g0.bucket(ty, i));
                        }
                        if g0.slot_has(ty, i, entity.1) {
                            assert(i == g0.idx(curr) && g0.cell_in_bounds(curr));
                            assert(false);
                        }
                    }
                } else {
                    if g0.slot_has(ty, i, entity.1) {
                        assert((g0.cell_in_bounds(last) && i == g0.idx(last)) || (
                        g0.cell_in_bounds(curr) && i == g0.idx(curr)));
                        assert(false);
                    }
                }
            }
            assert(!g2.has_anywhere(ty, entity.1));
        }
        let added = self.add_entity(ty, entity);
        match added {
            Ok(_) => {
                proof {
                    let g2 = *self;
                    assert(g2.slot_has(ty, g0.idx(curr), entity.1));
                }
                if in_last {
                    ReconcileOutcome::Moved
                } else {
                    ReconcileOutcome::FirstInsert
                }
            },
            Err(_) => ReconcileOutcome::OutOfBounds,
        }
    }

    /// Refreshes an entity's location record from its live world
    /// position: the current cell becomes the last cell, and the cell
    /// under the position becomes current. Runs once per entity per
    /// tick, strictly before reconciliation. Never fails.
    pub fn update_location(&self, entity: &mut GridEntity, world_pos: Vec2i)
        requires
            self.geometry_wf(),
            world_pos.bounded(1_000_000_000),
        ensures
            final(entity).last_position == old(entity).current_position,
            final(entity).current_position == self.spec_world_to_cell(world_pos),
            self.cell_in_bounds(final(entity).current_position),
    {
        entity.last_position = entity.current_position;
        entity.current_position = self.get_grid_pos(world_pos);
    }
}

/// Whether the point `(ax, ay)` lies within distance `radius` of
/// `(px, py)`, compared on squares.
pub open spec fn point_within(ax: int, ay: int, px: int, py: int, radius: int) -> bool {
    (ax - px) * (ax - px) + (ay - py) * (ay - py) <= radius * radius
}

/// As `point_within`, but strictly inside the radius.
pub open spec fn point_strictly_within(ax: int, ay: int, px: int, py: int, radius: int) -> bool {
    (ax - px) * (ax - px) + (ay - py) * (ay - py) < radius * radius
}

impl Grid {
    /// The lowest world x coordinate of a cell.
    pub open spec fn cell_min_x(self, c: CellPos) -> int {
        self.offset.x + c.x * self.cell_size
    }

    /// The lowest world y coordinate of a cell.
    pub open spec fn cell_min_y(self, c: CellPos) -> int {
        self.offset.y + c.y * self.cell_size
    }

    /// The approximate circle-against-cell test of the range query: a
    /// cell counts as in range when any of its four corners lies
    /// within `radius` of the query point. Conservative in both
    /// directions: it can admit cells whose entities are all farther
    /// than `radius`, and near-boundary geometry can miss entities
    /// within `radius` whose cell corners all lie outside it, so
    /// consumers re-test candidates with an exact distance check.
    pub open spec fn corner_in_range(self, c: CellPos, p: Vec2i, radius: int) -> bool {
        let x0 = self.cell_min_x(c);
        let y0 = self.cell_min_y(c);
        let x1 = x0 + self.cell_size;
        let y1 = y0 + self.cell_size;
        ||| point_within(x0, y0, p.x as int, p.y as int, radius)
        ||| point_within(x0, y1, p.x as int, p.y as int, radius)
        ||| point_within(x1, y0, p.x as int, p.y as int, radius)
        ||| point_within(x1, y1, p.x as int, p.y as int, radius)
    }

    /// As `corner_in_range`, but asking for a corner strictly inside
    /// the radius.
    pub open spec fn corner_strictly_in_range(self, c: CellPos, p: Vec2i, radius: int) -> bool {
        let x0 = self.cell_min_x(c);
        let y0 = self.cell_min_y(c);
        let x1 = x0 + self.cell_size;
        let y1 = y0 + self.cell_size;
        ||| point_strictly_within(x0, y0, p.x as int, p.y as int, radius)
        ||| point_strictly_within(x0, y1, p.x as int, p.y as int, radius)
        ||| point_strictly_within(x1, y0, p.x as int, p.y as int, radius)
        ||| point_strictly_within(x1, y1, p.x as int, p.y as int, radius)
    }

    /// First cell column the range query scans.
    pub open spec fn query_min_x(self, p: Vec2i, radius: int) -> int {
        (p.x - radius - self.offset.x) / (self.cell_size as int)
    }

    /// Last cell column the range query scans.
    pub open spec fn query_max_x(self, p: Vec2i, radius: int) -> int {
        (p.x + radius - self.offset.x + self.cell_size - 1) / (self.cell_size as int)
    }

    /// First cell row the range query scans.
    pub open spec fn query_min_y(self, p: Vec2i, radius: int) -> int {
        (p.y - radius - self.offset.y) / (self.cell_size as int)
    }

    /// Last cell row the range query scans.
    pub open spec fn query_max_y(self, p: Vec2i, radius: int) -> int {
        (p.y + radius - self.offset.y + self.cell_size - 1) / (self.cell_size as int)
    }

    /// Whether the range query returns this cell: inside the grid,
    /// inside the scanned bounding box of the query circle, and with
    /// a corner within the radius.
    pub open spec fn cell_selected(self, c: CellPos, p: Vec2i, radius: int) -> bool {
        &&& self.cell_in_bounds(c)
        &&& self.query_min_x(p, radius) <= c.x <= self.query_max_x(p, radius)
        &&& self.query_min_y(p, radius) <= c.y <= self.query_max_y(p, radius)
        &&& self.corner_in_range(c, p, radius)
    }

    /// The corner test, executed: whether any of the cell's four
    /// corners lies within `radius` of the point.
    fn cell_corner_test(&self, c: CellPos, p: Vec2i, radius: i64) -> (r: bool)
        requires
            self.geometry_wf(),
            self.cell_in_bounds(c),
            p.bounded(COORD_LIMIT as int),
            0 <= radius <= COORD_LIMIT,
        ensures
            r == self.corner_in_range(c, p, radius as int),
    {
        proof {
            assert(0 <= c.x as int * self.cell_size && c.x as int * self.cell_size
                + self.cell_size <= COORD_LIMIT) by (nonlinear_arith)
                requires
                    0 <= c.x as int,
                    (c.x as int) < (self.size.x as int),
                    1 <= self.cell_size,
                    self.size.x as int * self.cell_size <= COORD_LIMIT,
            ;
            assert(0 <= c.y as int * self.cell_size && c.y as int * self.cell_size
                + self.cell_size <= COORD_LIMIT) by (nonlinear_arith)
                requires
                    0 <= c.y as int,
                    (c.y as int) < (self.size.y as int),
                    1 <= self.cell_size,
                    self.size.y as int * self.cell_size <= COORD_LIMIT,
            ;
        }
        let x0: i64 = self.offset.x + (c.x as i64) * self.cell_size;
        let y0: i64 = self.offset.y + (c.y as i64) * self.cell_size;
        let x1: i64 = x0 + self.cell_size;
        let y1: i64 = y0 + self.cell_size;
        proof {
            assert(0 <= radius as int * radius as int <= 1_000_000_000_000) by (nonlinear_arith)
                requires
                    0 <= radius <= 1_000_000,
            ;
        }
        let r2: i64 = radius * radius;
        let d00: i64 = crate::utils::distance_squared(Vec2i { x: x0, y: y0 }, p);
        let d01: i64 = crate::utils::distance_squared(Vec2i { x: x0, y: y1 }, p);
        let d10: i64 = crate::utils::distance_squared(Vec2i { x: x1, y: y0 }, p);
        let d11: i64 = crate::utils::distance_squared(Vec2i { x: x1, y: y1 }, p);
        d00 <= r2 || d01 <= r2 || d10 <= r2 || d11 <= r2
    }

    /// How many cells on each side of a centre cell a radius spans:
    /// the radius divided by the cell size, rounded up.
    pub open spec fn radius_cells(radius: int, cell: int) -> int {
        (radius + cell - 1) / cell
    }

    /// The cells of the square block of grid coordinates within
    /// `ceil(radius / cell_size)` of the given cell, clipped to the
    /// grid; each in-range cell appears exactly once.
    pub fn get_cells_in_area_from_grid(&self, grid_pos: CellPos, radius: i64) -> (cells: Vec<
        CellPos,
    >)
        requires
            self.geometry_wf(),
            self.cell_in_bounds(grid_pos),
            0 <= radius <= COORD_LIMIT,
        ensures
            forall|c: CellPos|
                #[trigger] cells@.contains(c) <==> (self.cell_in_bounds(c) && grid_pos.x
                    - Self::radius_cells(radius as int, self.cell_size as int) <= c.x <= grid_pos.x
                    + Self::radius_cells(radius as int, self.cell_size as int) && grid_pos.y
                    - Self::radius_cells(radius as int, self.cell_size as int) <= c.y <= grid_pos.y
                    + Self::radius_cells(radius as int, self.cell_size as int)),
            forall|k1: int, k2: int|
                0 <= k1 < k2 < cells@.len() ==> cells@[k1] != cells@[k2],
    {
        let rc: i64 = floor_div(radius + self.cell_size - 1, self.cell_size);
        proof {
            vstd::arithmetic::div_mod::lemma_div_pos_is_pos(
                radius as int + self.cell_size - 1,
                self.cell_size as int,
            );
            vstd::arithmetic::div_mod::lemma_div_nonincreasing(
                radius as int + self.cell_size - 1,
                self.cell_size as int,
            );
        }
        let gx: i64 = grid_pos.x as i64;
        let gy: i64 = grid_pos.y as i64;
        let x0: i64 = if gx - rc < 0 {
            0
        } else {
            gx - rc
        };
        let x1: i64 = if gx + rc > self.size.x as i64 - 1 {
            self.size.x as i64 - 1
        } else {
            gx + rc
        };
        let y0: i64 = if gy - rc < 0 {
            0
        } else {
            gy - rc
        };
        let y1: i64 = if gy + rc > self.size.y as i64 - 1 {
            self.size.y as i64 - 1
        } else {
            gy + rc
        };
        let mut cells: Vec<CellPos> = Vec::new();
        let mut y: i64 = y0;
        #[verifier::loop_isolation(false)]
        while y <= y1
            invariant
                y0 <= y <= y1 + 1,
                forall|c: CellPos|
                    #[trigger] cells@.contains(c) <==> (x0 <= c.x <= x1 && y0 <= c.y < y),
                forall|k: int|
                    0 <= k < cells@.len() ==> (#[trigger] cells@[k]).y < y,
                forall|k1: int, k2: int|
                    0 <= k1 < k2 < cells@.len() ==> cells@[k1] != cells@[k2],
            decreases y1 + 1 - y,
        {
            let mut x: i64 = x0;
            #[verifier::loop_isolation(false)]
            while x <= x1
                invariant
                    x0 <= x <= x1 + 1,
                    y <= y1,
                    forall|c: CellPos|
                        #[trigger] cells@.contains(c) <==> ((x0 <= c.x <= x1 && y0 <= c.y < y) || (
                        c.y == y && x0 <= c.x < x)),
                    forall|k: int|
                        0 <= k < cells@.len() ==> ((#[trigger] cells@[k]).y < y || (cells@[k].y == y
                            && cells@[k].x < x)),
                    forall|k1: int, k2: int|
                        0 <= k1 < k2 < cells@.len() ==> cells@[k1] != cells@[k2],
                decreases x1 + 1 - x,
            {
                let c = CellPos { x: x as u32, y: y as u32 };
                let ghost pre = cells@;
                cells.push(c);
                proof {
                    assert(cells@ == pre.push(c));
                    assert forall|c2: CellPos| #[trigger] cells@.contains(c2) implies ((x0 <= c2.x
                        <= x1 && y0 <= c2.y < y) || (c2.y == y && x0 <= c2.x < x + 1)) by {
                        let k = choose|k: int| 0 <= k < cells@.len() && cells@[k] == c2;
                        if k < pre.len() {
                            assert(pre[k] == c2);
                            assert(pre.contains(c2));
                        } else {
                            assert(c2 == c);
                        }
                    }
                    assert forall|c2: CellPos|
                        ((x0 <= c2.x <= x1 && y0 <= c2.y < y) || (c2.y == y && x0 <= c2.x < x
                            + 1)) implies #[trigger] cells@.contains(c2) by {
                        if c2 == c {
                            assert(cells@[pre.len() as int] == c);
                        } else {
                            assert(pre.contains(c2));
                            let k = choose|k: int| 0 <= k < pre.len() && pre[k] == c2;
                            assert(cells@[k] == c2);
                        }
                    }
                    assert forall|k1: int, k2: int|
                        0 <= k1 < k2 < cells@.len() implies cells@[k1] != cells@[k2] by {
                        if k2 == pre.len() {
                            assert(cells@[k1] == pre[k1] && cells@[k2] == c);
                        } else {
                            assert(cells@[k1] == pre[k1] && cells@[k2] == pre[k2]);
                        }
                    }
                }
                x = x + 1;
            }
            y = y + 1;
        }
        cells
    }
}

/// What the range query returns for one cell: the cell's coordinates
/// and copies of its three buckets (agents, food, pheromones).
pub type CellContents = (Vec<GridEntry>, Vec<GridEntry>, Vec<GridEntry>);

impl Grid {
    /// The range query: every cell of the grid whose square footprint
    /// may intersect the circle of `radius` around `world_pos` by the
    /// corner test, paired with copies of its buckets. Exactly the
    /// cells satisfying `cell_selected` appear, each once; consumers
    /// re-test the entities with exact distance and angle checks.
    #[verifier::rlimit(60)]
    pub fn get_cells_in_area_from_world(&self, world_pos: Vec2i, radius: i64) -> (out: Vec<
        (CellPos, CellContents),
    >)
        requires
            self.geometry_wf(),
            self.buckets_wf(),
            world_pos.bounded(COORD_LIMIT as int),
            0 <= radius <= COORD_LIMIT,
        ensures
            forall|k: int|
                0 <= k < out@.len() ==> self.cell_selected(
                    (#[trigger] out@[k]).0,
                    world_pos,
                    radius as int,
                ) && out@[k].1.0@ == self.bucket(GridEntityType::Ant, self.idx(out@[k].0))
                    && out@[k].1.1@ == self.bucket(GridEntityType::Food, self.idx(out@[k].0))
                    && out@[k].1.2@ == self.bucket(GridEntityType::Pheromone, self.idx(out@[k].0)),
            forall|c: CellPos|
                #[trigger] self.cell_selected(c, world_pos, radius as int) ==> exists|k: int|
                    0 <= k < out@.len() && (#[trigger] out@[k]).0 == c,
            forall|k1: int, k2: int|
                0 <= k1 < k2 < out@.len() ==> out@[k1].0 != out@[k2].0,
    {
        let cell: i64 = self.cell_size;
        let min_x: i64 = floor_div(world_pos.x - radius - self.offset.x, cell);
        let max_x: i64 = floor_div(world_pos.x + radius - self.offset.x + cell - 1, cell);
        let min_y: i64 = floor_div(world_pos.y - radius - self.offset.y, cell);
        let max_y: i64 = floor_div(world_pos.y + radius - self.offset.y + cell - 1, cell);
        let x0: i64 = if min_x < 0 {
            0
        } else {
            min_x
        };
        let x1: i64 = if max_x > self.size.x as i64 - 1 {
            self.size.x as i64 - 1
        } else {
            max_x
        };
        let y0: i64 = if min_y < 0 {
            0
        } else {
            min_y
        };
        let y1: i64 = if max_y > self.size.y as i64 - 1 {
            self.size.y as i64 - 1
        } else {
            max_y
        };
        let mut out: Vec<(CellPos, CellContents)> = Vec::new();
        let mut y: i64 = y0;
        #[verifier::loop_isolation(false)]
        while y <= y1
            invariant
                y0 <= y <= if y0 <= y1 {
                    y1 + 1
                } else {
                    y0 as int
                },
                forall|k: int|
                    0 <= k < out@.len() ==> self.cell_selected(
                        (#[trigger] out@[k]).0,
                        world_pos,
                        radius as int,
                    ) && out@[k].1.0@ == self.bucket(GridEntityType::Ant, self.idx(out@[k].0))
                        && out@[k].1.1@ == self.bucket(GridEntityType::Food, self.idx(out@[k].0))
                        && out@[k].1.2@ == self.bucket(
                        GridEntityType::Pheromone,
                        self.idx(out@[k].0),
                    ) && (out@[k].0.y as int) < y,
                forall|c: CellPos|
                    #[trigger] self.cell_selected(c, world_pos, radius as int) && c.y < y
                        ==> exists|k: int| 0 <= k < out@.len() && (#[trigger] out@[k]).0 == c,
                forall|k1: int, k2: int|
                    0 <= k1 < k2 < out@.len() ==> out@[k1].0 != out@[k2].0,
            decreases y1 + 1 - y,
        {
            let mut x: i64 = x0;
            #[verifier::loop_isolation(false)]
            while x <= x1
                invariant
                    x0 <= x <= if x0 <= x1 {
                        x1 + 1
                    } else {
                        x0 as int
                    },
                    y <= y1,
                    forall|k: int|
                        0 <= k < out@.len() ==> self.cell_selected(
                            (#[trigger] out@[k]).0,
                            world_pos,
                            radius as int,
                        ) && out@[k].1.0@ == self.bucket(GridEntityType::Ant, self.idx(out@[k].0))
                            && out@[k].1.1@ == self.bucket(
                            GridEntityType::Food,
                            self.idx(out@[k].0),
                        ) && out@[k].1.2@ == self.bucket(
                            GridEntityType::Pheromone,
                            self.idx(out@[k].0),
                        ) && ((out@[k].0.y as int) < y || (out@[k].0.y == y && (out@[k].0.x as int)
                            < x)),
                    forall|c: CellPos|
                        #[trigger] self.cell_selected(c, world_pos, radius as int) && (c.y < y || (
                        c.y == y && c.x < x)) ==> exists|k: int|
                            0 <= k < out@.len() && (#[trigger] out@[k]).0 == c,
                    forall|k1: int, k2: int|
                        0 <= k1 < k2 < out@.len() ==> out@[k1].0 != out@[k2].0,
                decreases x1 + 1 - x,
            {
                let c = CellPos { x: x as u32, y: y as u32 };
                if self.cell_corner_test(c, world_pos, radius) {
                    proof {
                        self.lemma_idx_bounds(c);
                        assert(c.y as int * self.size.x as int <= 1_000_000) by (nonlinear_arith)
                            requires
                                0 <= c.y as int <= 1000,
                                0 <= self.size.x as int <= 1000,
                        ;
                    }
                    let index: usize = (c.x as usize) + (c.y as usize) * (self.size.x as usize);
                    let bucket_ants = copy_bucket(&self.ants[index]);
                    let bucket_food = copy_bucket(&self.food[index]);
                    let bucket_pher = copy_bucket(&self.pheromones[index]);
                    let ghost pre = out@;
                    out.push((c, (bucket_ants, bucket_food, bucket_pher)));
                    proof {
                        assert(out@ == pre.push((c, (bucket_ants, bucket_food, bucket_pher))));
                        assert(self.cell_selected(c, world_pos, radius as int));
                        assert forall|c2: CellPos|
                            #[trigger] self.cell_selected(c2, world_pos, radius as int) && (c2.y < y
                                || (c2.y == y && c2.x < x + 1)) implies exists|k: int|
                                0 <= k < out@.len() && (#[trigger] out@[k]).0 == c2 by {
                            if c2 == c {
                                assert(out@[pre.len() as int].0 == c2);
                            } else {
                                let k = choose|k: int| 0 <= k < pre.len() && (#[trigger] pre[k]).0
                                    == c2;
                                assert(out@[k].0 == c2);
                            }
                        }
                        assert forall|k1: int, k2: int|
                            0 <= k1 < k2 < out@.len() implies out@[k1].0 != out@[k2].0 by {
                            if k2 == pre.len() {
                                assert(out@[k1] == pre[k1]);
                            } else {
                                assert(out@[k1] == pre[k1] && out@[k2] == pre[k2]);
                            }
                        }
                    }
                } else {
                    proof {
                        assert(!self.corner_in_range(c, world_pos, radius as int));
                    }
                }
                x = x + 1;
            }
            proof {
                assert forall|c2: CellPos|
                    #[trigger] self.cell_selected(c2, world_pos, radius as int) && c2.y < y
                        + 1 implies exists|k: int|
                        0 <= k < out@.len() && (#[trigger] out@[k]).0 == c2 by {
                    if c2.y == y {
                        assert(c2.x <= x1);
                    }
                }
            }
            y = y + 1;
        }
        proof {
            assert forall|c2: CellPos|
                #[trigger] self.cell_selected(c2, world_pos, radius as int) implies exists|k: int|
                    0 <= k < out@.len() && (#[trigger] out@[k]).0 == c2 by {
                assert(c2.y <= y1);
            }
        }
        out
    }
}

impl Grid {
    /// Range-query soundness, in the form the corner test supports:
    /// an in-bounds cell one of whose corners lies strictly within
    /// the radius is always among the cells the range query returns,
    /// so no entity filed under such a cell is missed. (An entity
    /// within the radius whose cell passes near the circle only
    /// between its corners can be missed by the corner test itself;
    /// the query promises exactly the corner test, and consumers
    /// re-test candidates with exact distance and angle checks.)
    #[verifier::rlimit(60)]
    pub proof fn lemma_range_query_sound(self, p: Vec2i, radius: int, c: CellPos)
        requires
            self.geometry_wf(),
            p.bounded(COORD_LIMIT as int),
            0 <= radius <= COORD_LIMIT,
            self.cell_in_bounds(c),
            self.corner_strictly_in_range(c, p, radius),
        ensures
            self.cell_selected(c, p, radius),
    {
        let cell = self.cell_size as int;
        let x0 = self.cell_min_x(c);
        let y0 = self.cell_min_y(c);
        let x1 = x0 + cell;
        let y1 = y0 + cell;
        let px = p.x as int;
        let py = p.y as int;
        assert(0 <= c.x as int * cell && c.x as int * cell + cell <= COORD_LIMIT)
            by (nonlinear_arith)
            requires
                0 <= c.x as int,
                (c.x as int) < (self.size.x as int),
                1 <= cell,
                self.size.x as int * cell <= COORD_LIMIT,
        ;
        assert(0 <= c.y as int * cell && c.y as int * cell + cell <= COORD_LIMIT)
            by (nonlinear_arith)
            requires
                0 <= c.y as int,
                (c.y as int) < (self.size.y as int),
                1 <= cell,
                self.size.y as int * cell <= COORD_LIMIT,
        ;
        let axy: (int, int) = if point_strictly_within(x0, y0, px, py, radius) {
            (x0, y0)
        } else if point_strictly_within(x0, y1, px, py, radius) {
            (x0, y1)
        } else if point_strictly_within(x1, y0, px, py, radius) {
            (x1, y0)
        } else {
            (x1, y1)
        };
        let ax = axy.0;
        let ay = axy.1;
        assert((ax == x0 || ax == x1) && (ay == y0 || ay == y1) && point_strictly_within(
            ax,
            ay,
            px,
            py,
            radius,
        ));
        assert(px - radius < ax < px + radius && py - radius < ay < py + radius)
            by (nonlinear_arith)
            requires
                point_strictly_within(ax, ay, px, py, radius),
                0 <= radius,
        ;
        // The scanned box covers the cell's columns.
        assert(self.query_min_x(p, radius) <= c.x) by {
            assert(px - radius - self.offset.x < (c.x as int + 1) * cell) by (nonlinear_arith)
                requires
                    px - radius < ax,
                    ax <= x1,
                    x1 == self.offset.x + c.x as int * cell + cell,
            ;
            assert((c.x as int + 1) * cell + (cell - 1) - cell + 1 - 1 >= px - radius
                - self.offset.x);
            assert((c.x as int) * cell + (cell - 1) >= px - radius - self.offset.x)
                by (nonlinear_arith)
                requires
                    px - radius - self.offset.x < (c.x as int + 1) * cell,
                    1 <= cell,
            ;
            vstd::arithmetic::div_mod::lemma_div_is_ordered(
                px - radius - self.offset.x,
                c.x as int * cell + (cell - 1),
                cell,
            );
            assert(c.x as int * cell + (cell - 1) == (c.x as int) * cell + (cell - 1));
            vstd::arithmetic::div_mod::lemma_fundamental_div_mod_converse_div(
                c.x as int * cell + (cell - 1),
                cell,
                c.x as int,
                cell - 1,
            );
        }
        assert(c.x <= self.query_max_x(p, radius)) by {
            assert(c.x as int * cell <= px + radius - self.offset.x);
            vstd::arithmetic::div_mod::lemma_div_is_ordered(
                c.x as int * cell,
                px + radius - self.offset.x + cell - 1,
                cell,
            );
            vstd::arithmetic::div_mod::lemma_div_by_multiple(c.x as int, cell);
        }
        assert(self.query_min_y(p, radius) <= c.y) by {
            assert(py - radius - self.offset.y < (c.y as int + 1) * cell) by (nonlinear_arith)
                requires
                    py - radius < ay,
                    ay <= y1,
                    y1 == self.offset.y + c.y as int * cell + cell,
            ;
            assert((c.y as int) * cell + (cell - 1) >= py - radius - self.offset.y)
                by (nonlinear_arith)
                requires
                    py - radius - self.offset.y < (c.y as int + 1) * cell,
                    1 <= cell,
            ;
            vstd::arithmetic::div_mod::lemma_div_is_ordered(
                py - radius - self.offset.y,
                c.y as int * cell + (cell - 1),
                cell,
            );
            vstd::arithmetic::div_mod::lemma_fundamental_div_mod_converse_div(
                c.y as int * cell + (cell - 1),
                cell,
                c.y as int,
                cell - 1,
            );
        }
        assert(c.y <= self.query_max_y(p, radius)) by {
            assert(c.y as int * cell <= py + radius - self.offset.y);
            vstd::arithmetic::div_mod::lemma_div_is_ordered(
                c.y as int * cell,
                py + radius - self.offset.y + cell - 1,
                cell,
            );
            vstd::arithmetic::div_mod::lemma_div_by_multiple(c.y as int, cell);
        }
        // A strict corner is in particular a corner within the radius.
        assert(self.corner_in_range(c, p, radius));
    }
}

} // verus!
