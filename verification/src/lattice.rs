//! The integer lattice the engine scans: bounds, cell coordinates, the
//! iteration order over cells, and the flattened key that identifies a cell
//! inside the vertex map.

use vstd::prelude::*;

verus! {

/// Three half-open integer ranges, one per axis, describing the lattice
/// region to scan. Each axis must span at least 3 integers so that at least
/// one cell and its positive corner exist.
#[derive(Clone, Copy)]
pub struct DCBounds {
    pub x: (i32, i32),
    pub y: (i32, i32),
    pub z: (i32, i32),
}

/// An integer lattice coordinate. An active cell is identified by the
/// coordinate of its most-negative corner; the emitted vertex sits at the
/// cell's geometric center, half a unit above the coordinate on each axis.
#[derive(Clone, Copy, PartialEq, Eq, Structural, Hash, Debug)]
pub struct LatticePoint {
    pub x: i32,
    pub y: i32,
    pub z: i32,
}

/// One coordinate axis; pairs of distinct axes span the three lattice planes
/// the stitcher walks.
#[derive(Clone, Copy, PartialEq, Eq, Structural, Debug)]
pub enum Axis {
    X,
    Y,
    Z,
}

impl DCBounds {
    /// Non-degenerate bounds: every axis spans at least 3 integers, so every
    /// axis holds at least one cell.
    pub open spec fn valid(self) -> bool {
        &&& self.x.1 - self.x.0 - 1 > 0
        &&& self.y.1 - self.y.0 - 1 > 0
        &&& self.z.1 - self.z.0 - 1 > 0
    }

    /// Cells per axis: one less than the number of lattice points, since a
    /// cell's corners reach one unit beyond its own coordinate.
    pub open spec fn extent_x(self) -> int {
        self.x.1 - self.x.0 - 1
    }

    pub open spec fn extent_y(self) -> int {
        self.y.1 - self.y.0 - 1
    }

    pub open spec fn extent_z(self) -> int {
        self.z.1 - self.z.0 - 1
    }

    /// Total number of cells the scan visits.
    pub open spec fn cell_count(self) -> int {
        self.extent_x() * self.extent_y() * self.extent_z()
    }

    /// The cell region: each coordinate lies in the half-open interval that
    /// leaves room for the cell's positive corner.
    pub open spec fn in_region(self, c: LatticePoint) -> bool {
        &&& self.x.0 <= c.x < self.x.1 - 1
        &&& self.y.0 <= c.y < self.y.1 - 1
        &&& self.z.0 <= c.z < self.z.1 - 1
    }

    /// Whether a run of the scan stays within the machine limits of the
    /// output: vertex indices are 32-bit, so the cell count (an upper bound
    /// on the vertex count) must fit.
    pub open spec fn fits_u32(self) -> bool {
        self.valid() ==> self.cell_count() <= u32::MAX
    }

    /// Checks validity of the bounds, exactly as `valid` states it.
    pub fn check_valid(&self) -> (r: bool)
        ensures
            r == self.valid(),
    {
        let sx: i64 = self.x.1 as i64 - self.x.0 as i64 - 1;
        let sy: i64 = self.y.1 as i64 - self.y.0 as i64 - 1;
        let sz: i64 = self.z.1 as i64 - self.z.0 as i64 - 1;
        sx > 0 && sy > 0 && sz > 0
    }

    /// Checks that a scan of these bounds stays within the 32-bit index
    /// space, exactly as `fits_u32` states it: how callers establish the
    /// meshing entry points' precondition.
    pub fn check_fits_u32(&self) -> (r: bool)
        ensures
            r == self.fits_u32(),
    {
        let sx: i64 = self.x.1 as i64 - self.x.0 as i64 - 1;
        let sy: i64 = self.y.1 as i64 - self.y.0 as i64 - 1;
        let sz: i64 = self.z.1 as i64 - self.z.0 as i64 - 1;
        if sx <= 0 || sy <= 0 || sz <= 0 {
            return true;
        }
        let cx: u128 = sx as u128;
        let cy: u128 = sy as u128;
        let cz: u128 = sz as u128;
        proof {
            assert(0 < cx * cy < 0x4_0000_0000_0000_0000) by (nonlinear_arith)
                requires
                    0 < cx < 0x2_0000_0000,
                    0 < cy < 0x2_0000_0000,
            ;
            assert((cx * cy) * cz < 0x8_0000_0000_0000_0000_0000_0000) by (nonlinear_arith)
                requires
                    0 < cx * cy < 0x4_0000_0000_0000_0000,
                    0 < cz < 0x2_0000_0000,
            ;
        }
        let count: u128 = cx * cy * cz;
        count <= u32::MAX as u128
    }
}

/// Strict lexicographic order of a cell against a scan position, x first,
/// then y, then z: exactly "visited earlier" for the scan order.
pub open spec fn lex_before(c: LatticePoint, x: int, y: int, z: int) -> bool {
    ||| c.x < x
    ||| (c.x == x && c.y < y)
    ||| (c.x == x && c.y == y && c.z < z)
}

/// The cells with fixed `x` and `y` whose z-coordinate lies in `[z_lo, z_hi)`,
/// in ascending z order.
pub open spec fn cells_z(x: int, y: int, z_lo: int, z_hi: int) -> Seq<LatticePoint>
    decreases z_hi - z_lo,
{
    if z_hi <= z_lo {
        Seq::empty()
    } else {
        cells_z(x, y, z_lo, z_hi - 1).push(
            LatticePoint { x: x as i32, y: y as i32, z: (z_hi - 1) as i32 },
        )
    }
}

/// The cells with fixed `x` whose y-coordinate lies in `[y_lo, y_hi)`, each
/// y paired with the full z range of `b`, in scan order.
pub open spec fn cells_y(b: DCBounds, x: int, y_lo: int, y_hi: int) -> Seq<LatticePoint>
    decreases y_hi - y_lo,
{
    if y_hi <= y_lo {
        Seq::empty()
    } else {
        cells_y(b, x, y_lo, y_hi - 1) + cells_z(x, y_hi - 1, b.z.0 as int, b.z.1 - 1)
    }
}

/// The cells whose x-coordinate lies in `[x_lo, x_hi)`, each x paired with
/// the full y and z ranges of `b`, in scan order.
pub open spec fn cells_x(b: DCBounds, x_lo: int, x_hi: int) -> Seq<LatticePoint>
    decreases x_hi - x_lo,
{
    if x_hi <= x_lo {
        Seq::empty()
    } else {
        cells_x(b, x_lo, x_hi - 1) + cells_y(b, x_hi - 1, b.y.0 as int, b.y.1 - 1)
    }
}

/// Every cell of the region, in scan order: x outermost, y middle, z
/// innermost, each ascending.
pub open spec fn all_cells(b: DCBounds) -> Seq<LatticePoint> {
    cells_x(b, b.x.0 as int, b.x.1 - 1)
}

/// The scan prefix: every cell visited strictly before position `(x, y, z)`.
pub open spec fn visited_upto(b: DCBounds, x: int, y: int, z: int) -> Seq<LatticePoint> {
    cells_x(b, b.x.0 as int, x) + cells_y(b, x, b.y.0 as int, y) + cells_z(x, y, b.z.0 as int, z)
}

/// Cells listed by `cells_z` carry exactly the fixed x and y and a z in
/// range; the run's length is the width of the range.
pub proof fn lemma_cells_z_shape(x: int, y: int, z_lo: int, z_hi: int)
    requires
        i32::MIN <= x <= i32::MAX,
        i32::MIN <= y <= i32::MAX,
        i32::MIN <= z_lo,
        z_hi <= i32::MAX + 1,
    ensures
        cells_z(x, y, z_lo, z_hi).len() == if z_hi <= z_lo { 0int } else { z_hi - z_lo },
        forall|i: int| 0 <= i < cells_z(x, y, z_lo, z_hi).len() ==> {
            let c = #[trigger] cells_z(x, y, z_lo, z_hi)[i];
            c.x == x && c.y == y && c.z == z_lo + i
        },
    decreases z_hi - z_lo,
{
    if z_hi > z_lo {
        lemma_cells_z_shape(x, y, z_lo, z_hi - 1);
    }
}

/// Cells listed by `cells_y` carry the fixed x, a y in range, and a z in the
/// z range of `b`.
pub proof fn lemma_cells_y_shape(b: DCBounds, x: int, y_lo: int, y_hi: int)
    requires
        i32::MIN <= x <= i32::MAX,
        i32::MIN <= y_lo,
        y_hi <= i32::MAX + 1,
    ensures
        forall|i: int| 0 <= i < cells_y(b, x, y_lo, y_hi).len() ==> {
            let c = #[trigger] cells_y(b, x, y_lo, y_hi)[i];
            c.x == x && y_lo <= c.y < y_hi && b.z.0 <= c.z < b.z.1 - 1
        },
    decreases y_hi - y_lo,
{
    if y_hi > y_lo {
        lemma_cells_y_shape(b, x, y_lo, y_hi - 1);
        lemma_cells_z_shape(x, y_hi - 1, b.z.0 as int, b.z.1 - 1);
        let pre = cells_y(b, x, y_lo, y_hi - 1);
        let row = cells_z(x, y_hi - 1, b.z.0 as int, b.z.1 - 1);
        assert forall|i: int| 0 <= i < cells_y(b, x, y_lo, y_hi).len() implies {
            let c = #[trigger] cells_y(b, x, y_lo, y_hi)[i];
            c.x == x && y_lo <= c.y < y_hi && b.z.0 <= c.z < b.z.1 - 1
        } by {
            if i < pre.len() {
                assert(cells_y(b, x, y_lo, y_hi)[i] == pre[i]);
            } else {
                assert(cells_y(b, x, y_lo, y_hi)[i] == row[i - pre.len()]);
            }
        }
    }
}

/// Cells listed by `cells_x` have an x in range and y and z in the ranges of
/// `b`: with the full x range, every listed cell lies in the region.
pub proof fn lemma_cells_x_shape(b: DCBounds, x_lo: int, x_hi: int)
    requires
        i32::MIN <= x_lo,
        x_hi <= i32::MAX + 1,
    ensures
        forall|i: int| 0 <= i < cells_x(b, x_lo, x_hi).len() ==> {
            let c = #[trigger] cells_x(b, x_lo, x_hi)[i];
            x_lo <= c.x < x_hi && b.y.0 <= c.y < b.y.1 - 1 && b.z.0 <= c.z < b.z.1 - 1
        },
    decreases x_hi - x_lo,
{
    if x_hi > x_lo {
        lemma_cells_x_shape(b, x_lo, x_hi - 1);
        lemma_cells_y_shape(b, x_hi - 1, b.y.0 as int, b.y.1 - 1);
        let pre = cells_x(b, x_lo, x_hi - 1);
        let slab = cells_y(b, x_hi - 1, b.y.0 as int, b.y.1 - 1);
        assert forall|i: int| 0 <= i < cells_x(b, x_lo, x_hi).len() implies {
            let c = #[trigger] cells_x(b, x_lo, x_hi)[i];
            x_lo <= c.x < x_hi && b.y.0 <= c.y < b.y.1 - 1 && b.z.0 <= c.z < b.z.1 - 1
        } by {
            if i < pre.len() {
                assert(cells_x(b, x_lo, x_hi)[i] == pre[i]);
            } else {
                assert(cells_x(b, x_lo, x_hi)[i] == slab[i - pre.len()]);
            }
        }
    }
}

/// The length of a full z run of cells.
proof fn lemma_cells_z_len(x: int, y: int, z_lo: int, z_hi: int)
    requires
        z_lo <= z_hi,
    ensures
        cells_z(x, y, z_lo, z_hi).len() == z_hi - z_lo,
    decreases z_hi - z_lo,
{
    if z_hi > z_lo {
        lemma_cells_z_len(x, y, z_lo, z_hi - 1);
    }
}

/// The length of a run of y rows: rows times the z extent.
proof fn lemma_cells_y_len(b: DCBounds, x: int, y_lo: int, y_hi: int)
    requires
        b.valid(),
        y_lo <= y_hi,
    ensures
        cells_y(b, x, y_lo, y_hi).len() == (y_hi - y_lo) * b.extent_z(),
    decreases y_hi - y_lo,
{
    if y_hi > y_lo {
        lemma_cells_y_len(b, x, y_lo, y_hi - 1);
        lemma_cells_z_len(x, y_hi - 1, b.z.0 as int, b.z.1 - 1);
        assert((y_hi - y_lo) * b.extent_z() == (y_hi - 1 - y_lo) * b.extent_z() + b.extent_z())
            by (nonlinear_arith);
    } else {
        assert((y_hi - y_lo) * b.extent_z() == 0) by (nonlinear_arith)
            requires
                y_hi == y_lo,
        ;
    }
}

/// The length of a run of x slabs: slabs times the y and z extents.
proof fn lemma_cells_x_len(b: DCBounds, x_lo: int, x_hi: int)
    requires
        b.valid(),
        x_lo <= x_hi,
    ensures
        cells_x(b, x_lo, x_hi).len() == (x_hi - x_lo) * (b.extent_y() * b.extent_z()),
    decreases x_hi - x_lo,
{
    if x_hi > x_lo {
        lemma_cells_x_len(b, x_lo, x_hi - 1);
        lemma_cells_y_len(b, x_hi - 1, b.y.0 as int, b.y.1 - 1);
        assert((x_hi - x_lo) * (b.extent_y() * b.extent_z()) == (x_hi - 1 - x_lo) * (b.extent_y()
            * b.extent_z()) + b.extent_y() * b.extent_z()) by (nonlinear_arith);
    } else {
        assert((x_hi - x_lo) * (b.extent_y() * b.extent_z()) == 0) by (nonlinear_arith)
            requires
                x_hi == x_lo,
        ;
    }
}

/// How many cells the scan has visited when it stands at `(x, y, z)`: the
/// scan prefix is strictly shorter than the cell count while the position
/// is inside the region.
pub proof fn lemma_visited_len(b: DCBounds, x: int, y: int, z: int)
    requires
        b.valid(),
        b.x.0 <= x < b.x.1 - 1,
        b.y.0 <= y < b.y.1 - 1,
        b.z.0 <= z < b.z.1 - 1,
    ensures
        visited_upto(b, x, y, z).len() < b.cell_count(),
{
    lemma_cells_x_len(b, b.x.0 as int, x);
    lemma_cells_y_len(b, x, b.y.0 as int, y);
    lemma_cells_z_len(x, y, b.z.0 as int, z);
    let dx = x - b.x.0;
    let dy = y - b.y.0;
    let dz = z - b.z.0;
    let ex = b.extent_x();
    let ey = b.extent_y();
    let ez = b.extent_z();
    lemma_digit_bound(dx, dy, ey, ex);
    lemma_digit_bound(dx * ey + dy, dz, ez, ex * ey);
    assert(dx * (ey * ez) + dy * ez + dz == (dx * ey + dy) * ez + dz) by (nonlinear_arith);
}

/// The flattened scan index of a cell within the region of `b`: the key the
/// vertex map stores the cell under. For an in-region cell it equals the
/// number of cells the scan visits before it.
pub open spec fn flat_key(b: DCBounds, c: LatticePoint) -> int {
    ((c.x - b.x.0) * b.extent_y() + (c.y - b.y.0)) * b.extent_z() + (c.z - b.z.0)
}

/// A two-digit mixed-radix number is bounded by the product of the radixes.
proof fn lemma_digit_bound(a: int, r: int, radix_r: int, radix_a: int)
    by (nonlinear_arith)
    requires
        0 <= a < radix_a,
        0 <= r < radix_r,
    ensures
        0 <= a * radix_r + r < radix_a * radix_r,
{
}

/// Mixed-radix uniqueness: equal two-digit numbers have equal digits.
proof fn lemma_digit_unique(a1: int, r1: int, a2: int, r2: int, radix: int)
    by (nonlinear_arith)
    requires
        0 <= r1 < radix,
        0 <= r2 < radix,
        a1 * radix + r1 == a2 * radix + r2,
    ensures
        a1 == a2,
        r1 == r2,
{
}

/// The flat key of an in-region cell lies below the cell count.
pub proof fn lemma_flat_key_bound(b: DCBounds, c: LatticePoint)
    requires
        b.in_region(c),
    ensures
        0 <= flat_key(b, c) < b.cell_count(),
{
    lemma_digit_bound(c.x - b.x.0, c.y - b.y.0, b.extent_y(), b.extent_x());
    lemma_digit_bound(
        (c.x - b.x.0) * b.extent_y() + (c.y - b.y.0),
        c.z - b.z.0,
        b.extent_z(),
        b.extent_x() * b.extent_y(),
    );
    assert(b.extent_x() * b.extent_y() * b.extent_z() == b.cell_count())
        by (nonlinear_arith);
}

/// Distinct in-region cells have distinct flat keys.
pub proof fn lemma_flat_key_injective(b: DCBounds, c1: LatticePoint, c2: LatticePoint)
    requires
        b.in_region(c1),
        b.in_region(c2),
        flat_key(b, c1) == flat_key(b, c2),
    ensures
        c1 == c2,
{
    let m1 = (c1.x - b.x.0) * b.extent_y() + (c1.y - b.y.0);
    let m2 = (c2.x - b.x.0) * b.extent_y() + (c2.y - b.y.0);
    lemma_digit_bound(c1.x - b.x.0, c1.y - b.y.0, b.extent_y(), b.extent_x());
    lemma_digit_bound(c2.x - b.x.0, c2.y - b.y.0, b.extent_y(), b.extent_x());
    lemma_digit_unique(m1, c1.z - b.z.0, m2, c2.z - b.z.0, b.extent_z());
    lemma_digit_unique(c1.x - b.x.0, c1.y - b.y.0, c2.x - b.x.0, c2.y - b.y.0, b.extent_y());
}

/// Computes the flat key of an in-region cell, exactly as `flat_key` states
/// it.
pub fn flat_index(b: &DCBounds, c: LatticePoint) -> (k: u64)
    requires
        b.valid(),
        b.cell_count() <= u32::MAX,
        b.in_region(c),
    ensures
        k == flat_key(*b, c),
{
    proof {
        lemma_flat_key_bound(*b, c);
        lemma_digit_bound(c.x - b.x.0, c.y - b.y.0, b.extent_y(), b.extent_x());
        assert(b.extent_x() * b.extent_y() <= b.cell_count()) by (nonlinear_arith)
            requires
                b.valid(),
                b.cell_count() == b.extent_x() * b.extent_y() * b.extent_z(),
        ;
    }
    let dx: u64 = (c.x as i64 - b.x.0 as i64) as u64;
    let dy: u64 = (c.y as i64 - b.y.0 as i64) as u64;
    let dz: u64 = (c.z as i64 - b.z.0 as i64) as u64;
    let ey: u64 = (b.y.1 as i64 - b.y.0 as i64 - 1) as u64;
    let ez: u64 = (b.z.1 as i64 - b.z.0 as i64 - 1) as u64;
    (dx * ey + dy) * ez + dz
}

/// Every cell of the region is listed by `all_cells`.
pub proof fn lemma_all_cells_contains(b: DCBounds, c: LatticePoint)
    requires
        b.in_region(c),
    ensures
        all_cells(b).contains(c),
{
    lemma_cells_x_contains(b, b.x.0 as int, b.x.1 - 1, c);
}

proof fn lemma_cells_z_contains(x: int, y: int, z_lo: int, z_hi: int, c: LatticePoint)
    requires
        c.x == x,
        c.y == y,
        z_lo <= c.z < z_hi,
    ensures
        cells_z(x, y, z_lo, z_hi).contains(c),
    decreases z_hi - z_lo,
{
    if c.z == z_hi - 1 {
        assert(cells_z(x, y, z_lo, z_hi).last() == c);
    } else {
        lemma_cells_z_contains(x, y, z_lo, z_hi - 1, c);
        let s = cells_z(x, y, z_lo, z_hi - 1);
        let i = choose|i: int| 0 <= i < s.len() && s[i] == c;
        assert(cells_z(x, y, z_lo, z_hi)[i] == c);
    }
}

proof fn lemma_cells_y_contains(b: DCBounds, x: int, y_lo: int, y_hi: int, c: LatticePoint)
    requires
        c.x == x,
        y_lo <= c.y < y_hi,
        b.z.0 <= c.z < b.z.1 - 1,
    ensures
        cells_y(b, x, y_lo, y_hi).contains(c),
    decreases y_hi - y_lo,
{
    if c.y == y_hi - 1 {
        lemma_cells_z_contains(x, y_hi - 1, b.z.0 as int, b.z.1 - 1, c);
        let s = cells_z(x, y_hi - 1, b.z.0 as int, b.z.1 - 1);
        let i = choose|i: int| 0 <= i < s.len() && s[i] == c;
        assert(cells_y(b, x, y_lo, y_hi)[cells_y(b, x, y_lo, y_hi - 1).len() + i] == c);
    } else {
        lemma_cells_y_contains(b, x, y_lo, y_hi - 1, c);
        let s = cells_y(b, x, y_lo, y_hi - 1);
        let i = choose|i: int| 0 <= i < s.len() && s[i] == c;
        assert(cells_y(b, x, y_lo, y_hi)[i] == c);
    }
}

proof fn lemma_cells_x_contains(b: DCBounds, x_lo: int, x_hi: int, c: LatticePoint)
    requires
        x_lo <= c.x < x_hi,
        b.y.0 <= c.y < b.y.1 - 1,
        b.z.0 <= c.z < b.z.1 - 1,
    ensures
        cells_x(b, x_lo, x_hi).contains(c),
    decreases x_hi - x_lo,
{
    if c.x == x_hi - 1 {
        lemma_cells_y_contains(b, x_hi - 1, b.y.0 as int, b.y.1 - 1, c);
        let s = cells_y(b, x_hi - 1, b.y.0 as int, b.y.1 - 1);
        let i = choose|i: int| 0 <= i < s.len() && s[i] == c;
        assert(cells_x(b, x_lo, x_hi)[cells_x(b, x_lo, x_hi - 1).len() + i] == c);
    } else {
        lemma_cells_x_contains(b, x_lo, x_hi - 1, c);
        let s = cells_x(b, x_lo, x_hi - 1);
        let i = choose|i: int| 0 <= i < s.len() && s[i] == c;
        assert(cells_x(b, x_lo, x_hi)[i] == c);
    }
}

} // verus!
