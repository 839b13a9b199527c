//! The contouring engine: vertex placement over the scanned lattice,
//! connectivity stitching between neighboring active cells, and the output
//! mesh with its contract.

use vstd::prelude::*;
use std::collections::HashMap;
use crate::lattice::{
    DCBounds, LatticePoint, Axis, all_cells, cells_x, cells_y, cells_z, visited_upto, flat_key,
    flat_index, lex_before, lemma_flat_key_bound, lemma_flat_key_injective,
    lemma_all_cells_contains, lemma_cells_x_shape, lemma_visited_len,
};
use crate::field::{
    Sign, DCInput, spec_sign_change, sign_change, corner_sign, is_active, active_cells,
    mesh_vertices,
};

verus! {

broadcast use {vstd::std_specs::hash::group_hash_axioms, vstd::seq_lib::group_filter_ensures};

/// The extracted mesh. `vertices` holds one cell coordinate per active cell,
/// in scan order; the vertex's position is the cell's geometric center, half
/// a unit above the coordinate on each axis. `normals` holds the sampled
/// gradient of each vertex's cell, index-aligned and untouched. `indices` is
/// a flat triangle list: each run of 3 entries is one triangle, each entry
/// the position of a vertex in `vertices`.
pub struct DCOutput<N> {
    pub vertices: Vec<LatticePoint>,
    pub normals: Vec<N>,
    pub indices: Vec<u32>,
}

/// The failure of a meshing call.
#[derive(Clone, Copy, PartialEq, Eq, Structural, Debug)]
pub enum DCError {
    /// The sampler's bounds have an axis spanning fewer than 3 integers.
    InvalidBounds,
}

/// The six indices of one stitched quad, two triangles over the four
/// neighboring vertices, in the winding the local field sign selects.
pub open spec fn quad_indices(
    top_left: u32,
    top_right: u32,
    bottom_left: u32,
    bottom_right: u32,
    clockwise: bool,
) -> Seq<u32> {
    if clockwise {
        seq![top_left, top_right, bottom_left, bottom_right, bottom_left, top_right]
    } else {
        seq![top_left, bottom_left, top_right, bottom_right, top_right, bottom_left]
    }
}

/// Appends one quad, two triangles over four vertex indices, to the index
/// list. `clockwise` selects the diagonal and winding.
pub fn create_quad(
    index_list: &mut Vec<u32>,
    top_left: u32,
    top_right: u32,
    bottom_left: u32,
    bottom_right: u32,
    clockwise: bool,
)
    ensures
        final(index_list)@ == old(index_list)@ + quad_indices(
            top_left,
            top_right,
            bottom_left,
            bottom_right,
            clockwise,
        ),
{
    if clockwise {
        // Top left triangle
        index_list.push(top_left);
        index_list.push(top_right);
        index_list.push(bottom_left);

        // Bottom right triangle
        index_list.push(bottom_right);
        index_list.push(bottom_left);
        index_list.push(top_right);
    } else {
        // Top left triangle
        index_list.push(top_left);
        index_list.push(bottom_left);
        index_list.push(top_right);

        // Bottom right triangle
        index_list.push(bottom_right);
        index_list.push(top_right);
        index_list.push(bottom_left);
    }
    proof {
        assert(index_list@ =~= old(index_list)@ + quad_indices(
            top_left,
            top_right,
            bottom_left,
            bottom_right,
            clockwise,
        ));
    }
}

/// The x component of an axis unit vector.
pub open spec fn axis_dx(a: Axis) -> int {
    match a {
        Axis::X => 1,
        _ => 0,
    }
}

/// The y component of an axis unit vector.
pub open spec fn axis_dy(a: Axis) -> int {
    match a {
        Axis::Y => 1,
        _ => 0,
    }
}

/// The z component of an axis unit vector.
pub open spec fn axis_dz(a: Axis) -> int {
    match a {
        Axis::Z => 1,
        _ => 0,
    }
}

/// The lattice point at an integer offset from `c`. The offsets the engine
/// uses never leave the i32 range.
pub open spec fn offset_point(c: LatticePoint, dx: int, dy: int, dz: int) -> LatticePoint {
    LatticePoint { x: (c.x + dx) as i32, y: (c.y + dy) as i32, z: (c.z + dz) as i32 }
}

/// The stitcher's boundary guard: every coordinate of `c + basis_1 +
/// basis_2` is strictly positive. The guard is asymmetric by design, checked
/// only on the positive-sum side; near the most-negative lattice boundary
/// it leaves faces unstitched, a behavior this engine preserves.
pub open spec fn stitch_guard(c: LatticePoint, basis_1: Axis, basis_2: Axis) -> bool {
    &&& c.x + axis_dx(basis_1) + axis_dx(basis_2) > 0
    &&& c.y + axis_dy(basis_1) + axis_dy(basis_2) > 0
    &&& c.z + axis_dz(basis_1) + axis_dz(basis_2) > 0
}

/// The indices one coordinate-plane pair contributes for the newly activated
/// cell `c`, given the active cells placed before it, in scan order. The
/// quad exists when the guard passes and the three backward neighbors in the
/// plane are active and already placed; its winding follows the field sign
/// at `c`.
pub open spec fn plane_indices<I: DCInput>(
    i: I,
    prior: Seq<LatticePoint>,
    c: LatticePoint,
    basis_1: Axis,
    basis_2: Axis,
) -> Seq<u32> {
    let d1x = axis_dx(basis_1);
    let d1y = axis_dy(basis_1);
    let d1z = axis_dz(basis_1);
    let d2x = axis_dx(basis_2);
    let d2y = axis_dy(basis_2);
    let d2z = axis_dz(basis_2);
    let top_left = offset_point(c, -d1x, -d1y, -d1z);
    let bottom_left = offset_point(c, -d1x - d2x, -d1y - d2y, -d1z - d2z);
    let bottom_right = offset_point(c, -d2x, -d2y, -d2z);
    if stitch_guard(c, basis_1, basis_2) && prior.contains(top_left) && prior.contains(
        bottom_left,
    ) && prior.contains(bottom_right) {
        quad_indices(
            prior.index_of(top_left) as u32,
            prior.len() as u32,
            prior.index_of(bottom_left) as u32,
            prior.index_of(bottom_right) as u32,
            i.spec_value(c.x as int, c.y as int, c.z as int) == Sign::Positive,
        )
    } else {
        Seq::empty()
    }
}

/// All indices the stitcher emits for the newly activated cell `c`: the
/// three coordinate-plane pairs in fixed order.
pub open spec fn cell_indices<I: DCInput>(
    i: I,
    prior: Seq<LatticePoint>,
    c: LatticePoint,
) -> Seq<u32> {
    plane_indices(i, prior, c, Axis::X, Axis::Y) + plane_indices(i, prior, c, Axis::X, Axis::Z)
        + plane_indices(i, prior, c, Axis::Y, Axis::Z)
}

/// The full index list of a mesh whose vertex cells are `acts`, in placement
/// order: each cell contributes its stitched quads right when it is placed,
/// seeing exactly the cells placed before it.
pub open spec fn stitch_indices<I: DCInput>(i: I, acts: Seq<LatticePoint>) -> Seq<u32>
    decreases acts.len(),
{
    if acts.len() == 0 {
        Seq::empty()
    } else {
        stitch_indices(i, acts.drop_last()) + cell_indices(i, acts.drop_last(), acts.last())
    }
}

/// What the engine returns for sampler `i` over valid bounds: the vertex
/// cells are exactly the active cells in scan order, the normals are the
/// gradients sampled at those cells, index-aligned and untouched, and the
/// index list is the stitch of the placement order. Triangle indices stay
/// below the vertex count and come in whole triangles.
pub open spec fn is_mesh_of<I: DCInput>(i: I, out: DCOutput<<I as DCInput>::Normal>) -> bool {
    let b = i.spec_bounds();
    &&& out.vertices@ == mesh_vertices(i, b)
    &&& out.normals@.len() == out.vertices@.len()
    &&& forall|j: int| 0 <= j < out.vertices@.len() ==> {
        let c = out.vertices@[j];
        #[trigger] out.normals@[j] == i.spec_gradient(c.x as int, c.y as int, c.z as int)
    }
    &&& out.indices@ == stitch_indices(i, out.vertices@)
    &&& forall|t: int| 0 <= t < out.indices@.len() ==> (#[trigger] out.indices@[t]) < out.vertices@.len()
    &&& out.indices@.len() % 3 == 0
}

/// Samples the 8 corners of the cell at `(x, y, z)` in the fixed cyclic
/// order and tests its 7 consecutive edges: the cell's coordinate is
/// returned exactly when some tested edge shows a sign change.
fn dc_place_vertex<I: DCInput>(input: &I, x: i32, y: i32, z: i32) -> (r: Option<LatticePoint>)
    requires
        x < i32::MAX,
        y < i32::MAX,
        z < i32::MAX,
    ensures
        r == if is_active(*input, LatticePoint { x, y, z }) {
            Some(LatticePoint { x, y, z })
        } else {
            None::<LatticePoint>
        },
{
    let ghost c = LatticePoint { x, y, z };
    let p0 = input.get_value(x, y, z);
    let p1 = input.get_value(x + 1, y, z);
    let p2 = input.get_value(x + 1, y + 1, z);
    let p3 = input.get_value(x, y + 1, z);
    let p4 = input.get_value(x, y, z + 1);
    let p5 = input.get_value(x + 1, y, z + 1);
    let p6 = input.get_value(x + 1, y + 1, z + 1);
    let p7 = input.get_value(x, y + 1, z + 1);
    proof {
        assert(corner_sign(*input, c, 0) == p0);
        assert(corner_sign(*input, c, 1) == p1);
        assert(corner_sign(*input, c, 2) == p2);
        assert(corner_sign(*input, c, 3) == p3);
        assert(corner_sign(*input, c, 4) == p4);
        assert(corner_sign(*input, c, 5) == p5);
        assert(corner_sign(*input, c, 6) == p6);
        assert(corner_sign(*input, c, 7) == p7);
    }
    if sign_change(p0, p1) {
        return Some(LatticePoint { x, y, z });
    }
    if sign_change(p1, p2) {
        return Some(LatticePoint { x, y, z });
    }
    if sign_change(p2, p3) {
        return Some(LatticePoint { x, y, z });
    }
    if sign_change(p3, p4) {
        return Some(LatticePoint { x, y, z });
    }
    if sign_change(p4, p5) {
        return Some(LatticePoint { x, y, z });
    }
    if sign_change(p5, p6) {
        return Some(LatticePoint { x, y, z });
    }
    if sign_change(p6, p7) {
        return Some(LatticePoint { x, y, z });
    }
    proof {
        assert forall|k: int| 0 <= k < 7 implies !spec_sign_change(
            #[trigger] corner_sign(*input, c, k),
            corner_sign(*input, c, k + 1),
        ) by {}
        assert(!is_active(*input, c));
    }
    None
}

/// The vertex map mirrors the placed cells: it holds exactly the flat keys
/// of the cells of `acts`, each mapped to the cell's position in `acts`.
pub(crate) open spec fn map_inv(b: DCBounds, acts: Seq<LatticePoint>, m: Map<u64, u32>) -> bool {
    &&& acts.len() <= u32::MAX
    &&& forall|j: int| 0 <= j < acts.len() ==> b.in_region(#[trigger] acts[j])
    &&& forall|j: int| 0 <= j < acts.len() ==> {
        let k = flat_key(b, #[trigger] acts[j]) as u64;
        m.contains_key(k) && m[k] == j as u32
    }
    &&& forall|k: u64| m.contains_key(k) ==> exists|j: int|
        0 <= j < acts.len() && flat_key(b, #[trigger] acts[j]) as u64 == k
}

/// Looks a cell up in the vertex map: the answer is its position among the
/// placed cells, present exactly when the cell has been placed.
fn map_lookup(
    vertex_map: &HashMap<u64, u32>,
    b: &DCBounds,
    c: LatticePoint,
    Ghost(acts): Ghost<Seq<LatticePoint>>,
) -> (r: Option<u32>)
    requires
        b.valid(),
        b.cell_count() <= u32::MAX,
        map_inv(*b, acts, vertex_map@),
    ensures
        match r {
            Some(j) => acts.contains(c) && 0 <= j < acts.len() && acts[j as int] == c
                && acts.index_of(c) == j,
            None => !acts.contains(c),
        },
{
    let in_region = c.x >= b.x.0 && c.x < b.x.1 - 1 && c.y >= b.y.0 && c.y < b.y.1 - 1 && c.z
        >= b.z.0 && c.z < b.z.1 - 1;
    if !in_region {
        proof {
            if acts.contains(c) {
                let j = choose|j: int| 0 <= j < acts.len() && acts[j] == c;
                assert(b.in_region(acts[j]));
            }
        }
        return None;
    }
    let key = flat_index(b, c);
    match vertex_map.get(&key) {
        Some(j_ref) => {
            let j = *j_ref;
            proof {
                let jw = choose|jw: int|
                    0 <= jw < acts.len() && flat_key(*b, acts[jw]) as u64 == key;
                lemma_flat_key_bound(*b, acts[jw]);
                lemma_flat_key_bound(*b, c);
                lemma_flat_key_injective(*b, acts[jw], c);
                assert(acts[jw] == c);
                assert(acts.contains(c));
                assert(vertex_map@[key] == jw as u32);
                assert(j == jw as u32);
                assert(jw == j as int);
                let jo = acts.index_of(c);
                assert(0 <= jo < acts.len() && acts[jo] == c);
                assert(flat_key(*b, acts[jo]) as u64 == key);
                assert(vertex_map@[key] == jo as u32);
                assert(jo == j as int);
            }
            Some(j)
        },
        None => {
            proof {
                if acts.contains(c) {
                    let j = choose|j: int| 0 <= j < acts.len() && acts[j] == c;
                    assert(vertex_map@.contains_key(flat_key(*b, acts[j]) as u64));
                }
            }
            None
        },
    }
}

/// The x component of an axis unit vector, exactly as `axis_dx` states it.
fn axis_unit_x(a: Axis) -> (d: i32)
    ensures
        d as int == axis_dx(a),
{
    match a {
        Axis::X => 1,
        _ => 0,
    }
}

/// The y component of an axis unit vector, exactly as `axis_dy` states it.
fn axis_unit_y(a: Axis) -> (d: i32)
    ensures
        d as int == axis_dy(a),
{
    match a {
        Axis::Y => 1,
        _ => 0,
    }
}

/// The z component of an axis unit vector, exactly as `axis_dz` states it.
fn axis_unit_z(a: Axis) -> (d: i32)
    ensures
        d as int == axis_dz(a),
{
    match a {
        Axis::Z => 1,
        _ => 0,
    }
}

/// Attempts the quad of one coordinate-plane pair for the newly placed cell
/// at `position`, appending exactly the indices `plane_indices` states: two
/// triangles when the guard passes and the three backward neighbors are
/// placed, nothing otherwise.
fn check_quad<I: DCInput>(
    input: &I,
    vertex_map: &HashMap<u64, u32>,
    bounds: &DCBounds,
    position: LatticePoint,
    basis_1: Axis,
    basis_2: Axis,
    index_list: &mut Vec<u32>,
    Ghost(prior): Ghost<Seq<LatticePoint>>,
)
    requires
        bounds.valid(),
        bounds.cell_count() <= u32::MAX,
        bounds.in_region(position),
        map_inv(*bounds, prior.push(position), vertex_map@),
    ensures
        final(index_list)@ == old(index_list)@ + plane_indices(
            *input,
            prior,
            position,
            basis_1,
            basis_2,
        ),
        forall|t: int| old(index_list)@.len() <= t < final(index_list)@.len() ==> (#[trigger]
        final(index_list)@[t]) < prior.len() + 1,
        (final(index_list)@.len() - old(index_list)@.len()) % 3 == 0,
{
    let ghost acts = prior.push(position);
    let ghost part = plane_indices(*input, prior, position, basis_1, basis_2);
    let d1x = axis_unit_x(basis_1);
    let d1y = axis_unit_y(basis_1);
    let d1z = axis_unit_z(basis_1);
    let d2x = axis_unit_x(basis_2);
    let d2y = axis_unit_y(basis_2);
    let d2z = axis_unit_z(basis_2);

    if position.x + d1x + d2x > 0 && position.y + d1y + d2y > 0 && position.z + d1z + d2z > 0 {
        assert(stitch_guard(position, basis_1, basis_2));
        let top_left = LatticePoint {
            x: position.x - d1x,
            y: position.y - d1y,
            z: position.z - d1z,
        };
        let bottom_left = LatticePoint {
            x: position.x - d1x - d2x,
            y: position.y - d1y - d2y,
            z: position.z - d1z - d2z,
        };
        let bottom_right = LatticePoint {
            x: position.x - d2x,
            y: position.y - d2y,
            z: position.z - d2z,
        };
        proof {
            assert(top_left == offset_point(
                position,
                -axis_dx(basis_1),
                -axis_dy(basis_1),
                -axis_dz(basis_1),
            ));
            assert(bottom_left == offset_point(
                position,
                -axis_dx(basis_1) - axis_dx(basis_2),
                -axis_dy(basis_1) - axis_dy(basis_2),
                -axis_dz(basis_1) - axis_dz(basis_2),
            ));
            assert(bottom_right == offset_point(
                position,
                -axis_dx(basis_2),
                -axis_dy(basis_2),
                -axis_dz(basis_2),
            ));
            // Each neighbor differs from the placed cell on a basis axis.
            match basis_1 {
                Axis::X => assert(top_left.x != position.x && bottom_left.x != position.x),
                Axis::Y => assert(top_left.y != position.y && bottom_left.y != position.y),
                Axis::Z => assert(top_left.z != position.z && bottom_left.z != position.z),
            }
            match basis_2 {
                Axis::X => assert(bottom_right.x != position.x),
                Axis::Y => assert(bottom_right.y != position.y),
                Axis::Z => assert(bottom_right.z != position.z),
            }
        }
        let tl = map_lookup(vertex_map, bounds, top_left, Ghost(acts));
        let bl = map_lookup(vertex_map, bounds, bottom_left, Ghost(acts));
        let br = map_lookup(vertex_map, bounds, bottom_right, Ghost(acts));
        match (tl, bl, br) {
            (Some(tl_i), Some(bl_i), Some(br_i)) => {
                proof {
                    lemma_acts_index_to_prior(*bounds, prior, position, top_left, tl_i,
                        vertex_map@);
                    lemma_acts_index_to_prior(*bounds, prior, position, bottom_left, bl_i,
                        vertex_map@);
                    lemma_acts_index_to_prior(*bounds, prior, position, bottom_right, br_i,
                        vertex_map@);
                }
                match vertex_map.get(&flat_index(bounds, position)) {
                    Some(tr_ref) => {
                        let tr_i = *tr_ref;
                        proof {
                            assert(acts[prior.len() as int] == position);
                            assert(vertex_map@[flat_key(*bounds, position) as u64] == prior.len()
                                as u32);
                            assert(tr_i == prior.len() as u32);
                        }
                        let clockwise = match input.get_value(
                            position.x,
                            position.y,
                            position.z,
                        ) {
                            Sign::Positive => true,
                            _ => false,
                        };
                        create_quad(index_list, tl_i, tr_i, bl_i, br_i, clockwise);
                        proof {
                            assert(part == quad_indices(tl_i, tr_i, bl_i, br_i, clockwise));
                            assert forall|t: int|
                                old(index_list)@.len() <= t < index_list@.len() implies (
                            #[trigger] index_list@[t]) < prior.len() + 1 by {
                                let q = quad_indices(tl_i, tr_i, bl_i, br_i, clockwise);
                                assert(index_list@[t] == q[t - old(index_list)@.len()]);
                                assert(tl_i < prior.len() + 1 && tr_i < prior.len() + 1 && bl_i
                                    < prior.len() + 1 && br_i < prior.len() + 1);
                            }
                        }
                    },
                    None => {
                        proof {
                            // The placed cell itself is always in the map.
                            assert(acts[prior.len() as int] == position);
                            assert(vertex_map@.contains_key(
                                flat_key(*bounds, position) as u64,
                            ));
                            assert(false);
                        }
                    },
                }
            },
            _ => {
                proof {
                    lemma_absent_in_prior(prior, position, top_left, tl);
                    lemma_absent_in_prior(prior, position, bottom_left, bl);
                    lemma_absent_in_prior(prior, position, bottom_right, br);
                    assert(part =~= Seq::<u32>::empty());
                    assert(index_list@ =~= old(index_list)@ + part);
                }
            },
        }
    } else {
        proof {
            assert(!stitch_guard(position, basis_1, basis_2));
            assert(index_list@ =~= old(index_list)@ + part);
        }
    }
}

/// An index the vertex map returns for a neighbor of the newly placed cell
/// is an index into the cells placed before it, and agrees with the
/// position `plane_indices` speaks of.
proof fn lemma_acts_index_to_prior(
    b: DCBounds,
    prior: Seq<LatticePoint>,
    position: LatticePoint,
    nbr: LatticePoint,
    j: u32,
    m: Map<u64, u32>,
)
    requires
        map_inv(b, prior.push(position), m),
        nbr != position,
        prior.push(position).contains(nbr),
        j < prior.push(position).len(),
        prior.push(position)[j as int] == nbr,
    ensures
        prior.contains(nbr),
        j < prior.len(),
        prior.index_of(nbr) == j as int,
{
    let acts = prior.push(position);
    assert(j != prior.len() as u32);
    assert(prior[j as int] == nbr);
    assert(prior.contains(nbr));
    let jo = prior.index_of(nbr);
    assert(0 <= jo < prior.len() && prior[jo] == nbr);
    assert(acts[jo] == nbr);
    assert(m[flat_key(b, acts[jo]) as u64] == jo as u32);
    assert(m[flat_key(b, acts[j as int]) as u64] == j);
    assert(jo as u32 == j);
}

/// Appending a cell to a scan prefix extends its active cells by the cell
/// exactly when the cell is active.
proof fn lemma_active_push<I: DCInput>(i: I, s: Seq<LatticePoint>, e: LatticePoint)
    ensures
        active_cells(i, s.push(e)) == if is_active(i, e) {
            active_cells(i, s).push(e)
        } else {
            active_cells(i, s)
        },
{
    reveal_with_fuel(Seq::filter, 2);
    assert(s.push(e).drop_last() =~= s);
    assert(s.push(e).last() == e);
}

/// Placing one more cell extends the stitched index list by exactly that
/// cell's quads.
proof fn lemma_stitch_push<I: DCInput>(i: I, acts: Seq<LatticePoint>, e: LatticePoint)
    ensures
        stitch_indices(i, acts.push(e)) == stitch_indices(i, acts) + cell_indices(i, acts, e),
{
    assert(acts.push(e).drop_last() =~= acts);
    assert(acts.push(e).last() == e);
}

/// A neighbor the vertex map does not hold was not placed before the
/// current cell.
proof fn lemma_absent_in_prior(
    prior: Seq<LatticePoint>,
    position: LatticePoint,
    nbr: LatticePoint,
    r: Option<u32>,
)
    requires
        match r {
            Some(j) => prior.push(position).contains(nbr),
            None => !prior.push(position).contains(nbr),
        },
    ensures
        r is None ==> !prior.contains(nbr),
{
    if r is None {
        if prior.contains(nbr) {
            let j = choose|j: int| 0 <= j < prior.len() && prior[j] == nbr;
            assert(prior.push(position)[j] == nbr);
            assert(prior.push(position).contains(nbr));
        }
    }
}

/// Every member of the active cells of `s` is a member of `s`.
proof fn lemma_active_subset<I: DCInput>(i: I, s: Seq<LatticePoint>, t: int)
    requires
        0 <= t < active_cells(i, s).len(),
    ensures
        s.contains(active_cells(i, s)[t]),
    decreases s.len(),
{
    reveal_with_fuel(Seq::filter, 2);
    if s.len() > 0 {
        let dl = s.drop_last();
        let sub = active_cells(i, dl);
        if is_active(i, s.last()) && t == sub.len() {
            assert(active_cells(i, s)[t] == s.last());
            assert(s.contains(s.last()));
        } else {
            assert(active_cells(i, s)[t] == sub[t]);
            lemma_active_subset(i, dl, t);
            let j = choose|j: int| 0 <= j < dl.len() && dl[j] == sub[t];
            assert(s[j] == sub[t]);
        }
    }
}

/// Determinism: the mesh contract pins every output array down, so two
/// meshes of one sampler are identical, array for array.
pub proof fn lemma_mesh_deterministic<I: DCInput>(
    i: I,
    out1: DCOutput<<I as DCInput>::Normal>,
    out2: DCOutput<<I as DCInput>::Normal>,
)
    requires
        is_mesh_of(i, out1),
        is_mesh_of(i, out2),
    ensures
        out1.vertices@ == out2.vertices@,
        out1.normals@ == out2.normals@,
        out1.indices@ == out2.indices@,
{
    assert(out1.normals@ =~= out2.normals@);
}

/// A true sign change inside the region forces a non-empty mesh: the active
/// cell places a vertex, and the index list always comes in whole
/// triangles.
pub proof fn lemma_active_cell_meshes<I: DCInput>(
    i: I,
    out: DCOutput<<I as DCInput>::Normal>,
    c: LatticePoint,
)
    requires
        is_mesh_of(i, out),
        i.spec_bounds().in_region(c),
        is_active(i, c),
    ensures
        out.vertices@.len() > 0,
        out.indices@.len() % 3 == 0,
{
    let b = i.spec_bounds();
    let cells = all_cells(b);
    lemma_all_cells_contains(b, c);
    let j = choose|j: int| 0 <= j < cells.len() && cells[j] == c;
    assert(active_cells(i, cells).contains(cells[j]));
}

/// A field with no sign change on any tested edge of the region yields the
/// empty mesh: no vertices, no normals, no triangles.
pub proof fn lemma_no_sign_change_empty<I: DCInput>(i: I, out: DCOutput<<I as DCInput>::Normal>)
    requires
        is_mesh_of(i, out),
        forall|c: LatticePoint| i.spec_bounds().in_region(c) ==> !is_active(i, c),
    ensures
        out.vertices@.len() == 0,
        out.normals@.len() == 0,
        out.indices@.len() == 0,
{
    let b = i.spec_bounds();
    let cells = all_cells(b);
    let acts = active_cells(i, cells);
    if acts.len() > 0 {
        lemma_active_subset(i, cells, 0);
        let j = choose|j: int| 0 <= j < cells.len() && cells[j] == acts[0];
        lemma_cells_x_shape(b, b.x.0 as int, b.x.1 - 1);
        assert(b.in_region(acts[0]));
        assert(is_active(i, acts[0]));
        assert(false);
    }
}

/// The rolling state of the scan: the placed cells are exactly the active
/// cells of the visited prefix; normals mirror the placed cells'
/// gradients; the index list is the stitch of the placement order; the
/// vertex map mirrors the placed cells; every placed cell was visited
/// strictly before the scan position; and emitted indices point at placed
/// cells, in whole triangles.
pub(crate) open spec fn engine_inv<I: DCInput>(
    i: I,
    b: DCBounds,
    done: Seq<LatticePoint>,
    vb: Seq<LatticePoint>,
    nb: Seq<<I as DCInput>::Normal>,
    il: Seq<u32>,
    m: Map<u64, u32>,
    px: int,
    py: int,
    pz: int,
) -> bool {
    &&& vb == active_cells(i, done)
    &&& nb.len() == vb.len()
    &&& forall|j: int| 0 <= j < vb.len() ==> {
        let c = vb[j];
        #[trigger] nb[j] == i.spec_gradient(c.x as int, c.y as int, c.z as int)
    }
    &&& il == stitch_indices(i, vb)
    &&& map_inv(b, vb, m)
    &&& forall|j: int| 0 <= j < vb.len() ==> lex_before(#[trigger] vb[j], px, py, pz)
    &&& forall|t: int| 0 <= t < il.len() ==> (#[trigger] il[t]) < vb.len()
    &&& il.len() % 3 == 0
}

/// One scan step: samples the cell at `(x, y, z)` and, when it is active,
/// places its vertex and normal, records it in the vertex map, and stitches
/// its backward quads, carrying the scan state to the next position.
#[verifier::rlimit(100)]
fn process_cell<I: DCInput>(
    input: &I,
    bounds: &DCBounds,
    vertex_buffer: &mut Vec<LatticePoint>,
    normal_buffer: &mut Vec<<I as DCInput>::Normal>,
    index_list: &mut Vec<u32>,
    vertex_map: &mut HashMap<u64, u32>,
    x: i32,
    y: i32,
    z: i32,
    Ghost(done): Ghost<Seq<LatticePoint>>,
)
    requires
        *bounds == input.spec_bounds(),
        bounds.valid(),
        bounds.cell_count() <= u32::MAX,
        bounds.in_region(LatticePoint { x, y, z }),
        done.len() < bounds.cell_count(),
        engine_inv(
            *input,
            *bounds,
            done,
            old(vertex_buffer)@,
            old(normal_buffer)@,
            old(index_list)@,
            old(vertex_map)@,
            x as int,
            y as int,
            z as int,
        ),
    ensures
        engine_inv(
            *input,
            *bounds,
            done.push(LatticePoint { x, y, z }),
            final(vertex_buffer)@,
            final(normal_buffer)@,
            final(index_list)@,
            final(vertex_map)@,
            x as int,
            y as int,
            z as int + 1,
        ),
{
    match dc_place_vertex(input, x, y, z) {
        Some(vertex) => {
            let ghost prior = vertex_buffer@;
            proof {
                assert(prior.len() <= done.len());
                assert forall|j: int| 0 <= j < prior.len() implies prior[j] != vertex by {
                    assert(lex_before(prior[j], x as int, y as int, z as int));
                }
            }
            let idx: u32 = vertex_buffer.len() as u32;
            let key: u64 = flat_index(bounds, vertex);
            vertex_map.insert(key, idx);
            vertex_buffer.push(vertex);
            normal_buffer.push(input.get_gradient(x, y, z));
            proof {
                lemma_flat_key_bound(*bounds, vertex);
                assert forall|j: int| 0 <= j < prior.len() implies flat_key(*bounds, prior[j])
                    as u64 != key by {
                    lemma_flat_key_bound(*bounds, prior[j]);
                    if flat_key(*bounds, prior[j]) as u64 == key {
                        lemma_flat_key_injective(*bounds, prior[j], vertex);
                    }
                }
                let acts = prior.push(vertex);
                assert forall|j: int| 0 <= j < acts.len() implies {
                    let k = flat_key(*bounds, #[trigger] acts[j]) as u64;
                    vertex_map@.contains_key(k) && vertex_map@[k] == j as u32
                } by {
                    if j < prior.len() {
                        assert(acts[j] == prior[j]);
                    }
                }
                assert forall|k: u64| vertex_map@.contains_key(k) implies exists|j: int|
                    0 <= j < acts.len() && flat_key(*bounds, #[trigger] acts[j]) as u64 == k by {
                    if k == key {
                        assert(flat_key(*bounds, acts[prior.len() as int]) as u64 == k);
                    } else {
                        let j = choose|j: int|
                            0 <= j < prior.len() && flat_key(*bounds, prior[j]) as u64 == k;
                        assert(flat_key(*bounds, acts[j]) as u64 == k);
                    }
                }
                assert(map_inv(*bounds, acts, vertex_map@));
            }
            let ghost il0 = index_list@;
            check_quad(input, &vertex_map, bounds, vertex, Axis::X, Axis::Y, &mut *index_list,
                Ghost(prior));
            check_quad(input, &vertex_map, bounds, vertex, Axis::X, Axis::Z, &mut *index_list,
                Ghost(prior));
            check_quad(input, &vertex_map, bounds, vertex, Axis::Y, Axis::Z, &mut *index_list,
                Ghost(prior));
            proof {
                lemma_active_push(*input, done, vertex);
                lemma_stitch_push(*input, prior, vertex);
                assert(index_list@ =~= il0 + cell_indices(*input, prior, vertex));
                assert(index_list@ == stitch_indices(*input, vertex_buffer@));
            }
        },
        None => {},
    }
    proof {
        let c = LatticePoint { x, y, z };
        lemma_active_push(*input, done, c);
        assert forall|j: int| 0 <= j < vertex_buffer@.len() implies lex_before(
            #[trigger] vertex_buffer@[j],
            x as int,
            y as int,
            z as int + 1,
        ) by {}
    }
}

/// One full scan of the validated lattice region: places a vertex in every
/// active cell in scan order and stitches each newly placed cell backward,
/// producing exactly the mesh `is_mesh_of` states.
#[verifier::loop_isolation(false)]
#[verifier::rlimit(100)]
fn mesh_core<I: DCInput>(input: &I, bounds: &DCBounds) -> (out: DCOutput<<I as DCInput>::Normal>)
    requires
        *bounds == input.spec_bounds(),
        bounds.valid(),
        bounds.cell_count() <= u32::MAX,
    ensures
        is_mesh_of(*input, out),
{
    let mut vertex_buffer: Vec<LatticePoint> = Vec::new();
    let mut normal_buffer: Vec<<I as DCInput>::Normal> = Vec::new();
    let mut index_list: Vec<u32> = Vec::new();
    let mut vertex_map: HashMap<u64, u32> = HashMap::new();

    let x_end: i32 = bounds.x.1 - 1;
    let y_end: i32 = bounds.y.1 - 1;
    let z_end: i32 = bounds.z.1 - 1;

    proof {
        assert(visited_upto(*bounds, bounds.x.0 as int, bounds.y.0 as int, bounds.z.0 as int)
            =~= Seq::<LatticePoint>::empty());
        assert(active_cells(*input, Seq::<LatticePoint>::empty())
            =~= Seq::<LatticePoint>::empty());
        assert(engine_inv(
            *input,
            *bounds,
            Seq::<LatticePoint>::empty(),
            vertex_buffer@,
            normal_buffer@,
            index_list@,
            vertex_map@,
            bounds.x.0 as int,
            bounds.y.0 as int,
            bounds.z.0 as int,
        ));
    }

    let mut x: i32 = bounds.x.0;
    while x < x_end
        invariant
            bounds.x.0 <= x <= x_end,
            engine_inv(
                *input,
                *bounds,
                visited_upto(*bounds, x as int, bounds.y.0 as int, bounds.z.0 as int),
                vertex_buffer@,
                normal_buffer@,
                index_list@,
                vertex_map@,
                x as int,
                bounds.y.0 as int,
                bounds.z.0 as int,
            ),
        decreases x_end - x,
    {
        let mut y: i32 = bounds.y.0;
        while y < y_end
            invariant
                bounds.x.0 <= x < x_end,
                bounds.y.0 <= y <= y_end,
                engine_inv(
                    *input,
                    *bounds,
                    visited_upto(*bounds, x as int, y as int, bounds.z.0 as int),
                    vertex_buffer@,
                    normal_buffer@,
                    index_list@,
                    vertex_map@,
                    x as int,
                    y as int,
                    bounds.z.0 as int,
                ),
            decreases y_end - y,
        {
            let mut z: i32 = bounds.z.0;
            while z < z_end
                invariant
                    bounds.x.0 <= x < x_end,
                    bounds.y.0 <= y < y_end,
                    bounds.z.0 <= z <= z_end,
                    engine_inv(
                        *input,
                        *bounds,
                        visited_upto(*bounds, x as int, y as int, z as int),
                        vertex_buffer@,
                        normal_buffer@,
                        index_list@,
                        vertex_map@,
                        x as int,
                        y as int,
                        z as int,
                    ),
                decreases z_end - z,
            {
                let ghost done = visited_upto(*bounds, x as int, y as int, z as int);
                proof {
                    lemma_visited_len(*bounds, x as int, y as int, z as int);
                }
                process_cell(input, bounds, &mut vertex_buffer, &mut normal_buffer,
                    &mut index_list, &mut vertex_map, x, y, z, Ghost(done));
                proof {
                    let c = LatticePoint { x, y, z };
                    assert(cells_z(x as int, y as int, bounds.z.0 as int, z as int + 1)
                        == cells_z(x as int, y as int, bounds.z.0 as int, z as int).push(c));
                    assert(visited_upto(*bounds, x as int, y as int, z as int + 1) =~= done.push(
                        c,
                    ));
                }
                z = z + 1;
            }
            proof {
                assert(cells_y(*bounds, x as int, bounds.y.0 as int, y as int + 1) == cells_y(
                    *bounds,
                    x as int,
                    bounds.y.0 as int,
                    y as int,
                ) + cells_z(x as int, y as int, bounds.z.0 as int, bounds.z.1 - 1));
                assert(cells_z(x as int, y as int + 1, bounds.z.0 as int, bounds.z.0 as int)
                    =~= Seq::<LatticePoint>::empty());
                assert(visited_upto(*bounds, x as int, y as int + 1, bounds.z.0 as int)
                    =~= visited_upto(*bounds, x as int, y as int, z_end as int));
            }
            y = y + 1;
        }
        proof {
            assert(cells_x(*bounds, bounds.x.0 as int, x as int + 1) == cells_x(
                *bounds,
                bounds.x.0 as int,
                x as int,
            ) + cells_y(*bounds, x as int, bounds.y.0 as int, bounds.y.1 - 1));
            assert(cells_y(*bounds, x as int + 1, bounds.y.0 as int, bounds.y.0 as int)
                =~= Seq::<LatticePoint>::empty());
            assert(cells_z(x as int + 1, bounds.y.0 as int, bounds.z.0 as int, bounds.z.0 as int)
                =~= Seq::<LatticePoint>::empty());
            assert(visited_upto(*bounds, x as int + 1, bounds.y.0 as int, bounds.z.0 as int)
                =~= visited_upto(*bounds, x as int, y_end as int, bounds.z.0 as int));
        }
        x = x + 1;
    }
    proof {
        assert(cells_y(*bounds, x_end as int, bounds.y.0 as int, bounds.y.0 as int)
            =~= Seq::<LatticePoint>::empty());
        assert(cells_z(x_end as int, bounds.y.0 as int, bounds.z.0 as int, bounds.z.0 as int)
            =~= Seq::<LatticePoint>::empty());
        assert(visited_upto(*bounds, x_end as int, bounds.y.0 as int, bounds.z.0 as int)
            =~= all_cells(*bounds));
        assert(vertex_buffer@ == mesh_vertices(*input, *bounds));
    }
    DCOutput { vertices: vertex_buffer, normals: normal_buffer, indices: index_list }
}

/// Extracts the triangle mesh of the zero level-set of the sampler's field
/// over its declared bounds. Degenerate bounds are rejected before any work
/// begins; on success the mesh is exactly the one `is_mesh_of` states.
pub fn dc_meshing<I: DCInput>(input: I) -> (out: Result<
    DCOutput<<I as DCInput>::Normal>,
    DCError,
>)
    requires
        input.spec_bounds().fits_u32(),
    ensures
        match out {
            Result::Ok(mesh) => input.spec_bounds().valid() && is_mesh_of(input, mesh),
            Result::Err(e) => !input.spec_bounds().valid() && e == DCError::InvalidBounds,
        },
{
    let bounds = input.get_bounds();
    if !bounds.check_valid() {
        return Result::Err(DCError::InvalidBounds);
    }
    Result::Ok(mesh_core(&input, &bounds))
}

/// The compatibility entry point: like `dc_meshing`, but degenerate bounds
/// silently yield an empty mesh instead of an error, matching callers that
/// skip validation.
pub fn dc_meshing_lenient<I: DCInput>(input: I) -> (out: DCOutput<<I as DCInput>::Normal>)
    requires
        input.spec_bounds().fits_u32(),
    ensures
        input.spec_bounds().valid() ==> is_mesh_of(input, out),
        !input.spec_bounds().valid() ==> out.vertices@.len() == 0 && out.normals@.len() == 0
            && out.indices@.len() == 0,
{
    let bounds = input.get_bounds();
    if bounds.check_valid() {
        mesh_core(&input, &bounds)
    } else {
        DCOutput {
            vertices: Vec::new(),
            normals: Vec::new(),
            indices: Vec::new(),
        }
    }
}

} // verus!
