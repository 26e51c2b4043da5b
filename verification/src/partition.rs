use vstd::prelude::*;

use vstd::arithmetic::div_mod::{
    lemma_div_is_ordered, lemma_fundamental_div_mod, lemma_fundamental_div_mod_converse,
    lemma_mod_division_less_than_divisor,
};

use crate::collide::overlaps;
use crate::geom::{BLOCK_SIZE, Vec2i, pos_in_range, size_in_range};
use crate::world::Collider;

verus! {

/// Edge length of one grid cell, in world units: four tiles, so that a
/// typical static cluster spans only a handful of cells.
pub const CELL_SIZE: i64 = BLOCK_SIZE * 4;

/// Largest world dimension the partition accepts.
pub const WORLD_LIMIT: i64 = 32_768;

/// A point-in-time snapshot of one static body, as filed in the grid:
/// the body's id, its position when the grid was built, and its collider.
/// Snapshots are safe because static geometry does not move mid-tick.
#[derive(Debug, Clone, Copy, PartialEq, Eq, Structural)]
pub struct PartitionEntry {
    pub id: usize,
    pub position: Vec2i,
    pub collider: Collider,
}

pub open spec fn entry_wf(e: PartitionEntry) -> bool {
    pos_in_range(e.position) && size_in_range(e.collider.size)
}

/// The clamped cell index holding the doubled coordinate `v`. Queries and
/// insertions clamp defensively into `[0, dim)`, so out-of-world boxes
/// land in the border cells instead of being lost.
pub open spec fn cell_of(v: int, dim: int) -> int {
    let q = v / (2 * CELL_SIZE as int);
    if q < 0 {
        0
    } else if q > dim - 1 {
        dim - 1
    } else {
        q
    }
}

/// Clamped cell index of doubled world coordinate `v`.
fn cell_index(v: i64, dim: usize) -> (r: usize)
    requires
        1 <= dim <= 1024,
        -0x2_0000_0000 <= v <= 0x2_0000_0000,
    ensures
        r as int == cell_of(v as int, dim as int),
        r < dim,
{
    if v < 0 {
        proof {
            lemma_fundamental_div_mod(v as int, 2 * CELL_SIZE as int);
            lemma_mod_division_less_than_divisor(v as int, 2 * CELL_SIZE as int);
            assert((v as int) / (2 * CELL_SIZE as int) < 0);
            assert(cell_of(v as int, dim as int) == 0);
        }
        0
    } else {
        let q = ((v as u64) / ((2 * CELL_SIZE) as u64)) as usize;
        proof {
            assert(q as int == (v as int) / (2 * CELL_SIZE as int));
        }
        if q >= dim {
            dim - 1
        } else {
            q
        }
    }
}

/// Grid indices are packed as `column * rows + row`; distinct cells get
/// distinct packed indices.
proof fn lemma_cell_index_inj(cx1: int, cy1: int, cx2: int, cy2: int, rows: int)
    requires
        rows >= 1,
        0 <= cy1 < rows,
        0 <= cy2 < rows,
        cx1 * rows + cy1 == cx2 * rows + cy2,
    ensures
        cx1 == cx2,
        cy1 == cy2,
{
    assert(cx1 == cx2 && cy1 == cy2) by (nonlinear_arith)
        requires
            rows >= 1,
            0 <= cy1 < rows,
            0 <= cy2 < rows,
            cx1 * rows + cy1 == cx2 * rows + cy2,
    ;
}

proof fn lemma_cell_index_bound(cx: int, cy: int, cols: int, rows: int)
    requires
        0 <= cx < cols,
        0 <= cy < rows,
        cols <= 1024,
        rows <= 1024,
    ensures
        0 <= cx * rows + cy < cols * rows,
        cx * rows + cy < 0x100000,
{
    assert(0 <= cx * rows + cy < cols * rows && cols * rows <= 0x100000) by (nonlinear_arith)
        requires
            0 <= cx < cols,
            0 <= cy < rows,
            cols <= 1024,
            rows <= 1024,
    ;
}

/// Bounds for the grid sizing arithmetic: the rounded-up cell count of a
/// world dimension, and the halved re-centering offset.
proof fn lemma_ceil_div_bounds(w: int)
    requires
        1 <= w <= WORLD_LIMIT,
    ensures
        1 <= (w + CELL_SIZE - 1) / (CELL_SIZE as int) <= 86,
        0 <= w / 2 <= WORLD_LIMIT,
{
    lemma_fundamental_div_mod_converse(CELL_SIZE as int, CELL_SIZE as int, 1, 0);
    lemma_fundamental_div_mod_converse(WORLD_LIMIT as int + CELL_SIZE - 1, CELL_SIZE as int, 86, 127);
    lemma_div_is_ordered(CELL_SIZE as int, w + CELL_SIZE - 1, CELL_SIZE as int);
    lemma_div_is_ordered(w + CELL_SIZE - 1, WORLD_LIMIT as int + CELL_SIZE - 1, CELL_SIZE as int);
    lemma_fundamental_div_mod_converse(WORLD_LIMIT as int, 2, 16384, 0);
    lemma_div_is_ordered(0, w, 2);
    lemma_div_is_ordered(w, WORLD_LIMIT as int, 2);
}

/// Appending to a sequence keeps every element it already contains.
pub proof fn lemma_push_keeps_contains<T>(s: Seq<T>, e: T)
    ensures
        forall|x: T| s.contains(x) ==> #[trigger] s.push(e).contains(x),
        s.push(e).contains(e),
{
    assert(s.push(e)[s.len() as int] == e);
    assert forall|x: T| s.contains(x) implies #[trigger] s.push(e).contains(x) by {
        let j = choose|j: int| 0 <= j < s.len() && s[j] == x;
        assert(s.push(e)[j] == x);
    }
}

/// A uniform grid over the world, filed with snapshots of static bodies,
/// answering "which statics might overlap this box" without a full scan.
/// Rebuilt from scratch every tick; never outlives one.
pub struct SpatialPartition {
    pub cols: usize,
    pub rows: usize,
    /// Offset re-centering world coordinates (which may be negative) into
    /// the grid's non-negative index space.
    pub adjust: Vec2i,
    /// The cells, packed column-major: cell `(cx, cy)` is `cells[cx * rows + cy]`.
    pub cells: Vec<Vec<PartitionEntry>>,
    /// All snapshots ever filed, in order.
    pub filled: Ghost<Seq<PartitionEntry>>,
}

impl SpatialPartition {
    /// First column an entry's box reaches, from its doubled left edge.
    pub open spec fn col_lo(self, p: Vec2i, s: Vec2i) -> int {
        cell_of(2 * (p.x + self.adjust.x) - s.x, self.cols as int)
    }

    pub open spec fn col_hi(self, p: Vec2i, s: Vec2i) -> int {
        cell_of(2 * (p.x + self.adjust.x) + s.x, self.cols as int)
    }

    pub open spec fn row_lo(self, p: Vec2i, s: Vec2i) -> int {
        cell_of(2 * (p.y + self.adjust.y) - s.y, self.rows as int)
    }

    pub open spec fn row_hi(self, p: Vec2i, s: Vec2i) -> int {
        cell_of(2 * (p.y + self.adjust.y) + s.y, self.rows as int)
    }

    /// The box of `e` reaches cell `(cx, cy)`.
    pub open spec fn covers(self, e: PartitionEntry, cx: int, cy: int) -> bool {
        self.col_lo(e.position, e.collider.size) <= cx <= self.col_hi(
            e.position,
            e.collider.size,
        ) && self.row_lo(e.position, e.collider.size) <= cy <= self.row_hi(
            e.position,
            e.collider.size,
        )
    }

    pub open spec fn cell_at(self, cx: int, cy: int) -> Seq<PartitionEntry> {
        self.cells@[cx * self.rows as int + cy]@
    }

    pub open spec fn dims_ok(self) -> bool {
        &&& 1 <= self.cols <= 1024
        &&& 1 <= self.rows <= 1024
        &&& 0 <= self.adjust.x <= WORLD_LIMIT
        &&& 0 <= self.adjust.y <= WORLD_LIMIT
        &&& self.cells@.len() == self.cols * self.rows
    }

    /// Every filed snapshot is well-formed, sits exactly in the cells its
    /// box covers, and every cell holds only filed snapshots.
    pub open spec fn wf(self) -> bool {
        &&& self.dims_ok()
        &&& forall|i: int| 0 <= i < self.filled@.len() ==> entry_wf(#[trigger] self.filled@[i])
        &&& forall|cx: int, cy: int, k: int|
            0 <= cx < self.cols && 0 <= cy < self.rows && 0 <= k < self.cell_at(cx, cy).len()
                ==> self.filled@.contains(#[trigger] self.cell_at(cx, cy)[k]) && self.covers(
                self.cell_at(cx, cy)[k],
                cx,
                cy,
            )
        &&& forall|i: int, cx: int, cy: int|
            0 <= i < self.filled@.len() && 0 <= cx < self.cols && 0 <= cy < self.rows
                && #[trigger] self.covers(self.filled@[i], cx, cy) ==> self.cell_at(
                cx,
                cy,
            ).contains(self.filled@[i])
    }

    /// An empty grid sized for a world of the given dimensions, with four
    /// times more cells per axis than strictly needed so that clusters
    /// stay spread out, and an adjustment that re-centers world
    /// coordinates into non-negative grid space.
    pub fn new(real_width: i64, real_height: i64) -> (r: SpatialPartition)
        requires
            1 <= real_width <= WORLD_LIMIT,
            1 <= real_height <= WORLD_LIMIT,
        ensures
            r.wf(),
            r.filled@.len() == 0,
            r.cols as int == 4 * ((real_width + CELL_SIZE - 1) / (CELL_SIZE as int)),
            r.rows as int == 4 * ((real_height + CELL_SIZE - 1) / (CELL_SIZE as int)),
            r.adjust.x == real_width / 2,
            r.adjust.y == real_height / 2,
    {
        proof {
            lemma_ceil_div_bounds(real_width as int);
            lemma_ceil_div_bounds(real_height as int);
        }
        let cols = ((((real_width as u64) + (CELL_SIZE as u64) - 1) / (CELL_SIZE as u64))
            as usize) * 4;
        let rows = ((((real_height as u64) + (CELL_SIZE as u64) - 1) / (CELL_SIZE as u64))
            as usize) * 4;
        let adjust = Vec2i { x: (real_width as u64 / 2) as i64, y: (real_height as u64 / 2) as i64 };
        proof {
            assert(cols * rows <= 0x100000) by (nonlinear_arith)
                requires
                    cols <= 1024,
                    rows <= 1024,
            ;
        }
        let total = cols * rows;
        let mut cells: Vec<Vec<PartitionEntry>> = Vec::new();
        while cells.len() < total
            invariant
                cells@.len() <= total,
                forall|k: int| 0 <= k < cells@.len() ==> (#[trigger] cells@[k])@.len() == 0,
            decreases total - cells@.len(),
        {
            cells.push(Vec::new());
        }
        let r = SpatialPartition { cols, rows, adjust, cells, filled: Ghost(Seq::empty()) };
        proof {
            assert forall|cx2: int, cy2: int| 0 <= cx2 < r.cols && 0 <= cy2 < r.rows implies (
            #[trigger] r.cell_at(cx2, cy2)).len() == 0 by {
                lemma_cell_index_bound(cx2, cy2, r.cols as int, r.rows as int);
            }
        }
        r
    }

    /// Files one snapshot into every cell its box covers.
    pub fn file_entry(&mut self, e: PartitionEntry)
        requires
            old(self).wf(),
            entry_wf(e),
        ensures
            final(self).wf(),
            final(self).filled@ == old(self).filled@.push(e),
            final(self).cols == old(self).cols,
            final(self).rows == old(self).rows,
            final(self).adjust == old(self).adjust,
    {
        let min_x = cell_index(2 * (e.position.x + self.adjust.x) - e.collider.size.x, self.cols);
        let max_x = cell_index(2 * (e.position.x + self.adjust.x) + e.collider.size.x, self.cols);
        let min_y = cell_index(2 * (e.position.y + self.adjust.y) - e.collider.size.y, self.rows);
        let max_y = cell_index(2 * (e.position.y + self.adjust.y) + e.collider.size.y, self.rows);
        proof {
            lemma_push_keeps_contains(self.filled@, e);
            self.filled@ = self.filled@.push(e);
            assert(self.filled@[self.filled@.len() - 1] == e);
            assert(self.filled@.contains(e));
        }
        let ghost orig = *self;
        proof {
            // Everything the grid held before is still filed and still
            // sits in cells it covers; coverage does not depend on the
            // filed sequence.
            assert forall|ccx: int, ccy: int, k: int|
                0 <= ccx < orig.cols && 0 <= ccy < orig.rows && 0 <= k < orig.cell_at(
                    ccx,
                    ccy,
                ).len() implies orig.filled@.contains(#[trigger] orig.cell_at(ccx, ccy)[k])
                && orig.covers(orig.cell_at(ccx, ccy)[k], ccx, ccy) by {
                assert(orig.cell_at(ccx, ccy) == old(self).cell_at(ccx, ccy));
                assert(old(self).filled@.contains(old(self).cell_at(ccx, ccy)[k]));
                assert(old(self).covers(old(self).cell_at(ccx, ccy)[k], ccx, ccy));
            }
            assert forall|i: int, ccx: int, ccy: int|
                0 <= i < orig.filled@.len() - 1 && 0 <= ccx < orig.cols && 0 <= ccy < orig.rows
                    && #[trigger] orig.covers(orig.filled@[i], ccx, ccy) implies orig.cell_at(
                ccx,
                ccy,
            ).contains(orig.filled@[i]) by {
                assert(orig.filled@[i] == old(self).filled@[i]);
                assert(old(self).covers(old(self).filled@[i], ccx, ccy));
                assert(old(self).cell_at(ccx, ccy).contains(old(self).filled@[i]));
            }
        }
        let mut cx = min_x;
        while cx <= max_x
            invariant
                orig.dims_ok(),
                self.cols == orig.cols,
                self.rows == orig.rows,
                self.adjust == orig.adjust,
                self.filled == orig.filled,
                self.cells@.len() == orig.cells@.len(),
                min_x as int == orig.col_lo(e.position, e.collider.size),
                max_x as int == orig.col_hi(e.position, e.collider.size),
                min_y as int == orig.row_lo(e.position, e.collider.size),
                max_y as int == orig.row_hi(e.position, e.collider.size),
                max_x < orig.cols,
                max_y < orig.rows,
                min_x <= cx,
                entry_wf(e),
                orig.filled@.len() >= 1,
                orig.filled@[orig.filled@.len() - 1] == e,
                forall|i: int|
                    0 <= i < orig.filled@.len() ==> entry_wf(#[trigger] orig.filled@[i]),
                // soundness of all cells
                forall|ccx: int, ccy: int, k: int|
                    0 <= ccx < orig.cols && 0 <= ccy < orig.rows && 0 <= k < self.cell_at(
                        ccx,
                        ccy,
                    ).len() ==> orig.filled@.contains(#[trigger] self.cell_at(ccx, ccy)[k])
                        && orig.covers(self.cell_at(ccx, ccy)[k], ccx, ccy),
                // completeness for previously filed entries
                forall|i: int, ccx: int, ccy: int|
                    0 <= i < orig.filled@.len() - 1 && 0 <= ccx < orig.cols && 0 <= ccy
                        < orig.rows && #[trigger] orig.covers(orig.filled@[i], ccx, ccy)
                        ==> self.cell_at(ccx, ccy).contains(orig.filled@[i]),
                // completeness for e, in the columns already finished
                forall|ccx: int, ccy: int|
                    0 <= ccx < cx && 0 <= ccy < orig.rows && #[trigger] orig.covers(e, ccx, ccy)
                        ==> self.cell_at(ccx, ccy).contains(e),
            decreases max_x + 1 - cx,
        {
            let mut cy = min_y;
            while cy <= max_y
                invariant
                    orig.dims_ok(),
                    self.cols == orig.cols,
                    self.rows == orig.rows,
                    self.adjust == orig.adjust,
                    self.filled == orig.filled,
                    self.cells@.len() == orig.cells@.len(),
                    min_x as int == orig.col_lo(e.position, e.collider.size),
                    max_x as int == orig.col_hi(e.position, e.collider.size),
                    min_y as int == orig.row_lo(e.position, e.collider.size),
                    max_y as int == orig.row_hi(e.position, e.collider.size),
                    max_x < orig.cols,
                    max_y < orig.rows,
                    min_x <= cx <= max_x,
                    min_y <= cy,
                    entry_wf(e),
                    orig.filled@.len() >= 1,
                    orig.filled@[orig.filled@.len() - 1] == e,
                    forall|i: int|
                        0 <= i < orig.filled@.len() ==> entry_wf(#[trigger] orig.filled@[i]),
                    forall|ccx: int, ccy: int, k: int|
                        0 <= ccx < orig.cols && 0 <= ccy < orig.rows && 0 <= k < self.cell_at(
                            ccx,
                            ccy,
                        ).len() ==> orig.filled@.contains(#[trigger] self.cell_at(ccx, ccy)[k])
                            && orig.covers(self.cell_at(ccx, ccy)[k], ccx, ccy),
                    forall|i: int, ccx: int, ccy: int|
                        0 <= i < orig.filled@.len() - 1 && 0 <= ccx < orig.cols && 0 <= ccy
                            < orig.rows && #[trigger] orig.covers(orig.filled@[i], ccx, ccy)
                            ==> self.cell_at(ccx, ccy).contains(orig.filled@[i]),
                    forall|ccx: int, ccy: int|
                        0 <= ccx < cx && 0 <= ccy < orig.rows && #[trigger] orig.covers(
                            e,
                            ccx,
                            ccy,
                        ) ==> self.cell_at(ccx, ccy).contains(e),
                    // completeness for e in the current column, below cy
                    forall|ccy: int|
                        min_y <= ccy < cy ==> (#[trigger] self.cell_at(cx as int, ccy)).contains(
                            e,
                        ),
                decreases max_y + 1 - cy,
            {
                proof {
                    lemma_cell_index_bound(cx as int, cy as int, orig.cols as int, orig.rows as int);
                }
                let idx = cx * self.rows + cy;
                let ghost before = *self;
                self.cells[idx].push(e);
                proof {
                    assert(self.cells@ == before.cells@.update(
                        idx as int,
                        self.cells@[idx as int],
                    ));
                    assert(self.cell_at(cx as int, cy as int) == before.cell_at(
                        cx as int,
                        cy as int,
                    ).push(e));
                    lemma_push_keeps_contains(before.cell_at(cx as int, cy as int), e);
                    assert(self.cell_at(cx as int, cy as int).contains(e));
                    assert forall|ccx: int, ccy: int|
                        0 <= ccx < orig.cols && 0 <= ccy < orig.rows && !(ccx == cx && ccy == cy)
                        implies self.cell_at(ccx, ccy) == before.cell_at(ccx, ccy) by {
                        lemma_cell_index_bound(ccx, ccy, orig.cols as int, orig.rows as int);
                        if ccx * orig.rows as int + ccy == cx as int * orig.rows as int
                            + cy as int {
                            lemma_cell_index_inj(
                                ccx,
                                ccy,
                                cx as int,
                                cy as int,
                                orig.rows as int,
                            );
                        } else {
                            assert(self.cells@[ccx * orig.rows as int + ccy] == before.cells@[ccx
                                * orig.rows as int + ccy]);
                        }
                    }
                    assert forall|ccx: int, ccy: int, k: int|
                        0 <= ccx < orig.cols && 0 <= ccy < orig.rows && 0 <= k < self.cell_at(
                            ccx,
                            ccy,
                        ).len() implies orig.filled@.contains(#[trigger] self.cell_at(ccx, ccy)[k])
                        && orig.covers(self.cell_at(ccx, ccy)[k], ccx, ccy) by {
                        if ccx == cx && ccy == cy {
                            if k < before.cell_at(ccx, ccy).len() {
                                assert(self.cell_at(ccx, ccy)[k] == before.cell_at(ccx, ccy)[k]);
                            } else {
                                assert(self.cell_at(ccx, ccy)[k] == e);
                                assert(orig.filled@[orig.filled@.len() - 1] == e);
                                assert(orig.filled@.contains(e));
                                assert(orig.covers(e, ccx, ccy));
                            }
                        } else {
                            assert(self.cell_at(ccx, ccy) == before.cell_at(ccx, ccy));
                        }
                    }
                    assert forall|i: int, ccx: int, ccy: int|
                        0 <= i < orig.filled@.len() - 1 && 0 <= ccx < orig.cols && 0 <= ccy
                            < orig.rows && #[trigger] orig.covers(orig.filled@[i], ccx, ccy)
                        implies self.cell_at(ccx, ccy).contains(orig.filled@[i]) by {
                        if ccx == cx && ccy == cy {
                            assert(before.cell_at(ccx, ccy).contains(orig.filled@[i]));
                        } else {
                            assert(self.cell_at(ccx, ccy) == before.cell_at(ccx, ccy));
                        }
                    }
                    assert forall|ccx: int, ccy: int|
                        0 <= ccx < cx && 0 <= ccy < orig.rows && #[trigger] orig.covers(
                            e,
                            ccx,
                            ccy,
                        ) implies self.cell_at(ccx, ccy).contains(e) by {
                        assert(self.cell_at(ccx, ccy) == before.cell_at(ccx, ccy));
                    }
                    assert forall|ccy: int| min_y <= ccy < cy + 1 implies (#[trigger] self.cell_at(
                        cx as int,
                        ccy,
                    )).contains(e) by {
                        if ccy < cy {
                            assert(self.cell_at(cx as int, ccy) == before.cell_at(cx as int, ccy));
                        }
                    }
                }
                cy = cy + 1;
            }
            cx = cx + 1;
        }
        proof {
            assert forall|cx2: int, cy2: int, k: int|
                0 <= cx2 < self.cols && 0 <= cy2 < self.rows && 0 <= k < self.cell_at(
                    cx2,
                    cy2,
                ).len() implies self.filled@.contains(#[trigger] self.cell_at(cx2, cy2)[k])
                && self.covers(self.cell_at(cx2, cy2)[k], cx2, cy2) by {
                assert(orig.filled@.contains(self.cell_at(cx2, cy2)[k]));
                assert(orig.covers(self.cell_at(cx2, cy2)[k], cx2, cy2));
            }
            assert forall|i: int, cx2: int, cy2: int|
                0 <= i < self.filled@.len() && 0 <= cx2 < self.cols && 0 <= cy2 < self.rows
                    && #[trigger] self.covers(self.filled@[i], cx2, cy2) implies self.cell_at(
                cx2,
                cy2,
            ).contains(self.filled@[i]) by {
                assert(orig.covers(orig.filled@[i], cx2, cy2));
                if i == self.filled@.len() - 1 {
                    assert(self.filled@[i] == e);
                }
            }
        }
    }

    /// Builds the filed set from a list of snapshots.
    pub fn fill(&mut self, entities: &Vec<PartitionEntry>)
        requires
            old(self).wf(),
            forall|i: int| 0 <= i < entities@.len() ==> entry_wf(#[trigger] entities@[i]),
        ensures
            final(self).wf(),
            final(self).filled@ == old(self).filled@ + entities@,
            final(self).cols == old(self).cols,
            final(self).rows == old(self).rows,
            final(self).adjust == old(self).adjust,
    {
        let n = entities.len();
        let mut t: usize = 0;
        while t < n
            invariant
                n == entities@.len(),
                t <= n,
                self.wf(),
                self.cols == old(self).cols,
                self.rows == old(self).rows,
                self.adjust == old(self).adjust,
                forall|i: int| 0 <= i < n ==> entry_wf(#[trigger] entities@[i]),
                self.filled@ == old(self).filled@ + entities@.subrange(0, t as int),
            decreases n - t,
        {
            self.file_entry(entities[t]);
            proof {
                assert(entities@.subrange(0, t as int).push(entities@[t as int])
                    == entities@.subrange(0, t + 1 as int));
            }
            t = t + 1;
        }
        proof {
            assert(entities@.subrange(0, n as int) == entities@);
        }
    }

    /// Every snapshot filed in any cell the queried box covers, in cell
    /// order, duplicates included. The result is sound — only filed
    /// snapshots — and complete: every filed snapshot whose box overlaps
    /// the queried box is in it.
    pub fn possibilities(&self, position: Vec2i, size: Vec2i) -> (r: Vec<PartitionEntry>)
        requires
            self.wf(),
            pos_in_range(position),
            size_in_range(size),
        ensures
            forall|k: int|
                0 <= k < r@.len() ==> self.filled@.contains(#[trigger] r@[k]) && entry_wf(r@[k]),
            forall|i: int|
                0 <= i < self.filled@.len() && overlaps(
                    (#[trigger] self.filled@[i]).position,
                    self.filled@[i].collider.size,
                    position,
                    size,
                ) ==> r@.contains(self.filled@[i]),
    {
        let min_x = cell_index(2 * (position.x + self.adjust.x) - size.x, self.cols);
        let max_x = cell_index(2 * (position.x + self.adjust.x) + size.x, self.cols);
        let min_y = cell_index(2 * (position.y + self.adjust.y) - size.y, self.rows);
        let max_y = cell_index(2 * (position.y + self.adjust.y) + size.y, self.rows);
        let mut nearby: Vec<PartitionEntry> = Vec::new();
        let mut cx = min_x;
        while cx <= max_x
            invariant
                self.wf(),
                min_x as int == self.col_lo(position, size),
                max_x as int == self.col_hi(position, size),
                min_y as int == self.row_lo(position, size),
                max_y as int == self.row_hi(position, size),
                max_x < self.cols,
                max_y < self.rows,
                min_x <= cx,
                pos_in_range(position),
                size_in_range(size),
                forall|k: int|
                    0 <= k < nearby@.len() ==> self.filled@.contains(#[trigger] nearby@[k])
                        && entry_wf(nearby@[k]),
                forall|ccx: int, ccy: int, k: int|
                    min_x <= ccx < cx && min_y <= ccy <= max_y && 0 <= k < self.cell_at(
                        ccx,
                        ccy,
                    ).len() ==> nearby@.contains(#[trigger] self.cell_at(ccx, ccy)[k]),
            decreases max_x + 1 - cx,
        {
            let mut cy = min_y;
            while cy <= max_y
                invariant
                    self.wf(),
                    min_x as int == self.col_lo(position, size),
                    max_x as int == self.col_hi(position, size),
                    min_y as int == self.row_lo(position, size),
                    max_y as int == self.row_hi(position, size),
                    max_x < self.cols,
                    max_y < self.rows,
                    min_x <= cx <= max_x,
                    min_y <= cy,
                    forall|k: int|
                        0 <= k < nearby@.len() ==> self.filled@.contains(#[trigger] nearby@[k])
                            && entry_wf(nearby@[k]),
                    forall|ccx: int, ccy: int, k: int|
                        min_x <= ccx < cx && min_y <= ccy <= max_y && 0 <= k < self.cell_at(
                            ccx,
                            ccy,
                        ).len() ==> nearby@.contains(#[trigger] self.cell_at(ccx, ccy)[k]),
                    forall|ccy: int, k: int|
                        min_y <= ccy < cy && 0 <= k < self.cell_at(cx as int, ccy).len()
                            ==> nearby@.contains(#[trigger] self.cell_at(cx as int, ccy)[k]),
                decreases max_y + 1 - cy,
            {
                proof {
                    lemma_cell_index_bound(cx as int, cy as int, self.cols as int, self.rows as int);
                }
                let idx = cx * self.rows + cy;
                let cell_len = self.cells[idx].len();
                let mut k: usize = 0;
                while k < cell_len
                    invariant
                        self.wf(),
                        idx == cx * self.rows + cy,
                        idx < self.cells@.len(),
                        cx < self.cols,
                        cy < self.rows,
                        cell_len == self.cell_at(cx as int, cy as int).len(),
                        k <= cell_len,
                        forall|j: int|
                            0 <= j < nearby@.len() ==> self.filled@.contains(#[trigger] nearby@[j])
                                && entry_wf(nearby@[j]),
                        forall|ccx: int, ccy: int, j: int|
                            min_x <= ccx < cx && min_y <= ccy <= max_y && 0 <= j < self.cell_at(
                                ccx,
                                ccy,
                            ).len() ==> nearby@.contains(#[trigger] self.cell_at(ccx, ccy)[j]),
                        forall|ccy: int, j: int|
                            min_y <= ccy < cy && 0 <= j < self.cell_at(cx as int, ccy).len()
                                ==> nearby@.contains(#[trigger] self.cell_at(cx as int, ccy)[j]),
                        forall|j: int|
                            0 <= j < k ==> nearby@.contains(
                                #[trigger] self.cell_at(cx as int, cy as int)[j],
                            ),
                    decreases cell_len - k,
                {
                    let item = self.cells[idx][k];
                    let ghost prev = nearby@;
                    nearby.push(item);
                    proof {
                        lemma_push_keeps_contains(prev, item);
                        assert(nearby@.contains(item));
                        assert(item == self.cell_at(cx as int, cy as int)[k as int]);
                    }
                    k = k + 1;
                }
                cy = cy + 1;
            }
            cx = cx + 1;
        }
        proof {
            assert forall|i: int|
                0 <= i < self.filled@.len() && overlaps(
                    (#[trigger] self.filled@[i]).position,
                    self.filled@[i].collider.size,
                    position,
                    size,
                ) implies nearby@.contains(self.filled@[i]) by {
                let e = self.filled@[i];
                // The overlapping box's cell range meets the queried range.
                lemma_div_is_ordered(
                    2 * (e.position.x + self.adjust.x) - e.collider.size.x,
                    2 * (position.x + self.adjust.x) + size.x,
                    2 * CELL_SIZE as int,
                );
                lemma_div_is_ordered(
                    2 * (position.x + self.adjust.x) - size.x,
                    2 * (e.position.x + self.adjust.x) + e.collider.size.x,
                    2 * CELL_SIZE as int,
                );
                lemma_div_is_ordered(
                    2 * (e.position.y + self.adjust.y) - e.collider.size.y,
                    2 * (position.y + self.adjust.y) + size.y,
                    2 * CELL_SIZE as int,
                );
                lemma_div_is_ordered(
                    2 * (position.y + self.adjust.y) - size.y,
                    2 * (e.position.y + self.adjust.y) + e.collider.size.y,
                    2 * CELL_SIZE as int,
                );
                lemma_div_is_ordered(
                    2 * (e.position.x + self.adjust.x) - e.collider.size.x,
                    2 * (e.position.x + self.adjust.x) + e.collider.size.x,
                    2 * CELL_SIZE as int,
                );
                lemma_div_is_ordered(
                    2 * (e.position.y + self.adjust.y) - e.collider.size.y,
                    2 * (e.position.y + self.adjust.y) + e.collider.size.y,
                    2 * CELL_SIZE as int,
                );
                let ccx = if self.col_lo(e.position, e.collider.size) < min_x as int {
                    min_x as int
                } else {
                    self.col_lo(e.position, e.collider.size)
                };
                let ccy = if self.row_lo(e.position, e.collider.size) < min_y as int {
                    min_y as int
                } else {
                    self.row_lo(e.position, e.collider.size)
                };
                assert(self.covers(e, ccx, ccy));
                assert(self.cell_at(ccx, ccy).contains(e));
                let j = choose|j: int|
                    0 <= j < self.cell_at(ccx, ccy).len() && self.cell_at(ccx, ccy)[j] == e;
                assert(nearby@.contains(self.cell_at(ccx, ccy)[j]));
            }
        }
        nearby
    }
}

} // verus!
