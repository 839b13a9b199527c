//! The scalar field as the engine sees it: the sign of each lattice sample,
//! the sampler capability the caller supplies, and the edge test that makes
//! a cell active.

use vstd::prelude::*;
use crate::lattice::{DCBounds, LatticePoint, all_cells};

verus! {

/// The sign of a scalar field sample. Negative means inside the surface,
/// positive outside, zero on the surface; only the sign of a sample ever
/// influences the mesh.
#[derive(Clone, Copy, PartialEq, Eq, Structural, Debug)]
pub enum Sign {
    Negative,
    Zero,
    Positive,
}

/// The scalar field sampler the caller supplies: iteration bounds, the sign
/// of the field at any lattice point, and a gradient of the caller's chosen
/// representation, passed through to the output untouched.
///
/// The three spec functions pin each answer down, so a sampler is pure and
/// deterministic by contract: two queries at one point return one value.
pub trait DCInput {
    /// The gradient representation; the engine never inspects it.
    type Normal;

    /// The bounds every call to `get_bounds` returns.
    spec fn spec_bounds(&self) -> DCBounds;

    /// The field sign every call to `get_value` returns at `(x, y, z)`.
    spec fn spec_value(&self, x: int, y: int, z: int) -> Sign;

    /// The gradient every call to `get_gradient` returns at `(x, y, z)`.
    spec fn spec_gradient(&self, x: int, y: int, z: int) -> Self::Normal;

    /// The lattice region to scan.
    fn get_bounds(&self) -> (b: DCBounds)
        ensures
            b == self.spec_bounds(),
    ;

    /// The sign of the field at a lattice point.
    fn get_value(&self, x: i32, y: i32, z: i32) -> (v: Sign)
        ensures
            v == self.spec_value(x as int, y as int, z as int),
    ;

    /// The field gradient at a lattice point, unnormalized and caller
    /// defined.
    fn get_gradient(&self, x: i32, y: i32, z: i32) -> (g: Self::Normal)
        ensures
            g == self.spec_gradient(x as int, y as int, z as int),
    ;
}

/// A sign change between two samples: one strictly positive, the other
/// strictly negative. A zero sample never counts.
pub open spec fn spec_sign_change(a: Sign, b: Sign) -> bool {
    ||| (a == Sign::Positive && b == Sign::Negative)
    ||| (a == Sign::Negative && b == Sign::Positive)
}

/// Decides a sign change, exactly as `spec_sign_change` states it.
pub fn sign_change(a: Sign, b: Sign) -> (r: bool)
    ensures
        r == spec_sign_change(a, b),
{
    match (a, b) {
        (Sign::Positive, Sign::Negative) => true,
        (Sign::Negative, Sign::Positive) => true,
        _ => false,
    }
}

/// The x offset of corner `k` in the fixed cyclic corner order
/// `(0,0,0), (1,0,0), (1,1,0), (0,1,0), (0,0,1), (1,0,1), (1,1,1), (0,1,1)`.
pub open spec fn corner_dx(k: int) -> int {
    if k == 1 || k == 2 || k == 5 || k == 6 {
        1
    } else {
        0
    }
}

/// The y offset of corner `k` in the fixed cyclic corner order.
pub open spec fn corner_dy(k: int) -> int {
    if k == 2 || k == 3 || k == 6 || k == 7 {
        1
    } else {
        0
    }
}

/// The z offset of corner `k` in the fixed cyclic corner order.
pub open spec fn corner_dz(k: int) -> int {
    if 4 <= k <= 7 {
        1
    } else {
        0
    }
}

/// The field sign at corner `k` of the unit cube of cell `c`.
pub open spec fn corner_sign<I: DCInput>(i: I, c: LatticePoint, k: int) -> Sign {
    i.spec_value(c.x + corner_dx(k), c.y + corner_dy(k), c.z + corner_dz(k))
}

/// An active cell: one of the 7 consecutive edges of the corner order shows
/// a sign change. The closing edge and the remaining cube edges are not
/// tested; this deliberate simplification is part of the algorithm.
pub open spec fn is_active<I: DCInput>(i: I, c: LatticePoint) -> bool {
    exists|k: int|
        0 <= k < 7 && spec_sign_change(
            #[trigger] corner_sign(i, c, k),
            corner_sign(i, c, k + 1),
        )
}

/// A field that never turns strictly positive, or never strictly negative
/// (a constant field in particular), shows no sign change on any edge, so
/// no cell activates.
pub proof fn lemma_one_sided_field_inactive<I: DCInput>(i: I, c: LatticePoint)
    requires
        (forall|x: int, y: int, z: int| #[trigger] i.spec_value(x, y, z) != Sign::Positive)
            || (forall|x: int, y: int, z: int| #[trigger] i.spec_value(x, y, z)
            != Sign::Negative),
    ensures
        !is_active(i, c),
{
}

/// The active cells among `cells`, in unchanged order.
pub open spec fn active_cells<I: DCInput>(i: I, cells: Seq<LatticePoint>) -> Seq<LatticePoint> {
    cells.filter(|c: LatticePoint| is_active(i, c))
}

/// The vertex list of the mesh over `b`: one entry per active cell of the
/// region, in scan order.
pub open spec fn mesh_vertices<I: DCInput>(i: I, b: DCBounds) -> Seq<LatticePoint> {
    active_cells(i, all_cells(b))
}

} // verus!
