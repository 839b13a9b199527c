use dual_contouring::{
    create_quad, dc_meshing, dc_meshing_lenient, DCBounds, DCError, GridSampler, LatticePoint,
    Sign,
};

/// Tabulates the sign of a real-valued field over the closed sample region
/// of `bounds`, x outermost, z innermost, as `GridSampler` expects.
fn tabulate(
    bounds: DCBounds,
    field: impl Fn(i32, i32, i32) -> f32,
    gradient: impl Fn(i32, i32, i32) -> [f32; 3],
) -> GridSampler<[f32; 3]> {
    let mut values = Vec::new();
    let mut normals = Vec::new();
    for x in bounds.x.0..=bounds.x.1 {
        for y in bounds.y.0..=bounds.y.1 {
            for z in bounds.z.0..=bounds.z.1 {
                let v = field(x, y, z);
                values.push(if v > 0.0 {
                    Sign::Positive
                } else if v < 0.0 {
                    Sign::Negative
                } else {
                    Sign::Zero
                });
                normals.push(gradient(x, y, z));
            }
        }
    }
    GridSampler {
        bounds,
        values,
        normals,
        fill_sign: Sign::Positive,
        fill_normal: [0.0, 0.0, 0.0],
    }
}

fn cube_bounds(lo: i32, hi: i32) -> DCBounds {
    DCBounds { x: (lo, hi), y: (lo, hi), z: (lo, hi) }
}

fn sphere_sampler() -> GridSampler<[f32; 3]> {
    tabulate(
        cube_bounds(-2, 2),
        |x, y, z| ((x * x + y * y + z * z) as f32).sqrt() - 1.5,
        |x, y, z| {
            let len = ((x * x + y * y + z * z) as f32).sqrt();
            if len == 0.0 {
                [0.0, 0.0, 0.0]
            } else {
                [x as f32 / len, y as f32 / len, z as f32 / len]
            }
        },
    )
}

/// A field that is negative for z <= 1 and positive for z >= 2: every cell
/// in the z = 1 layer is active, nothing else.
fn slab_sampler() -> GridSampler<[f32; 3]> {
    tabulate(
        cube_bounds(0, 4),
        |_, _, z| if z <= 1 { -1.0 } else { 1.0 },
        |_, _, _| [0.0, 0.0, 1.0],
    )
}

#[test]
fn constant_positive_yields_empty_mesh() {
    let sampler = tabulate(cube_bounds(-2, 2), |_, _, _| 1.0, |_, _, _| [0.0, 0.0, 0.0]);
    let mesh = dc_meshing(sampler).unwrap();
    assert_eq!(mesh.vertices.len(), 0);
    assert_eq!(mesh.normals.len(), 0);
    assert_eq!(mesh.indices.len(), 0);
}

#[test]
fn degenerate_bounds_rejected() {
    let sampler = tabulate(cube_bounds(0, 1), |_, _, _| 1.0, |_, _, _| [0.0, 0.0, 0.0]);
    assert!(matches!(dc_meshing(sampler), Err(DCError::InvalidBounds)));
}

#[test]
fn degenerate_axis_rejected() {
    let bounds = DCBounds { x: (0, 4), y: (0, 1), z: (0, 4) };
    let sampler = tabulate(bounds, |_, _, z| if z <= 1 { -1.0 } else { 1.0 }, |_, _, _| {
        [0.0, 0.0, 0.0]
    });
    assert!(matches!(dc_meshing(sampler), Err(DCError::InvalidBounds)));
}

#[test]
fn degenerate_bounds_lenient_empty() {
    let sampler = tabulate(cube_bounds(0, 1), |_, _, _| -1.0, |_, _, _| [0.0, 0.0, 0.0]);
    let mesh = dc_meshing_lenient(sampler);
    assert_eq!(mesh.vertices.len(), 0);
    assert_eq!(mesh.normals.len(), 0);
    assert_eq!(mesh.indices.len(), 0);
}

#[test]
fn lenient_matches_checked_on_valid_bounds() {
    let checked = dc_meshing(slab_sampler()).unwrap();
    let lenient = dc_meshing_lenient(slab_sampler());
    assert_eq!(checked.vertices, lenient.vertices);
    assert_eq!(checked.normals, lenient.normals);
    assert_eq!(checked.indices, lenient.indices);
}

#[test]
fn meshing_is_deterministic() {
    let first = dc_meshing(sphere_sampler()).unwrap();
    let second = dc_meshing(sphere_sampler()).unwrap();
    assert_eq!(first.vertices, second.vertices);
    assert_eq!(first.normals, second.normals);
    assert_eq!(first.indices, second.indices);
}

#[test]
fn mesh_arrays_are_consistent() {
    let mesh = dc_meshing(sphere_sampler()).unwrap();
    assert!(mesh.vertices.len() > 0);
    assert_eq!(mesh.normals.len(), mesh.vertices.len());
    assert_eq!(mesh.indices.len() % 3, 0);
    for &index in &mesh.indices {
        assert!((index as usize) < mesh.vertices.len());
    }
}

#[test]
fn sphere_vertices_near_surface() {
    let mesh = dc_meshing(sphere_sampler()).unwrap();
    assert!(mesh.vertices.len() > 0);
    for cell in &mesh.vertices {
        let px = cell.x as f32 + 0.5;
        let py = cell.y as f32 + 0.5;
        let pz = cell.z as f32 + 0.5;
        let dist = (px * px + py * py + pz * pz).sqrt();
        assert!(dist >= 0.5 && dist <= 2.5, "vertex at distance {}", dist);
    }
}

#[test]
fn sphere_normals_point_outward_mostly() {
    let mesh = dc_meshing(sphere_sampler()).unwrap();
    let mut outward = 0usize;
    for (cell, normal) in mesh.vertices.iter().zip(mesh.normals.iter()) {
        let px = cell.x as f32 + 0.5;
        let py = cell.y as f32 + 0.5;
        let pz = cell.z as f32 + 0.5;
        let dot = px * normal[0] + py * normal[1] + pz * normal[2];
        if dot > 0.0 {
            outward += 1;
        }
    }
    assert!(outward * 2 > mesh.vertices.len());
}

#[test]
fn normals_pass_through_untouched() {
    let bounds = cube_bounds(0, 4);
    let sampler = GridSampler {
        bounds,
        values: tabulate(bounds, |_, _, z| if z <= 1 { -1.0 } else { 1.0 }, |_, _, _| {
            [0.0, 0.0, 0.0]
        })
            .values,
        normals: Vec::new(),
        fill_sign: Sign::Positive,
        fill_normal: [2.0, 0.0, 0.0],
    };
    let mesh = dc_meshing(sampler).unwrap();
    assert!(mesh.vertices.len() > 0);
    for normal in &mesh.normals {
        assert_eq!(*normal, [2.0, 0.0, 0.0]);
    }
}

#[test]
fn slab_mesh_exact_output() {
    let mesh = dc_meshing(slab_sampler()).unwrap();
    let expected_cells = [
        (0, 0, 1),
        (0, 1, 1),
        (0, 2, 1),
        (1, 0, 1),
        (1, 1, 1),
        (1, 2, 1),
        (2, 0, 1),
        (2, 1, 1),
        (2, 2, 1),
    ];
    assert_eq!(mesh.vertices.len(), expected_cells.len());
    for (cell, &(x, y, z)) in mesh.vertices.iter().zip(expected_cells.iter()) {
        assert_eq!(*cell, LatticePoint { x, y, z });
    }
    let expected_indices = vec![
        1, 0, 4, 3, 4, 0, 2, 1, 5, 4, 5, 1, 4, 3, 7, 6, 7, 3, 5, 4, 8, 7, 8, 4,
    ];
    assert_eq!(mesh.indices, expected_indices);
}

#[test]
fn slab_mesh_inverted_field_flips_winding() {
    // The same active layer as `slab_mesh_exact_output`, but the field sign
    // is inverted, so each stitched quad takes the mirrored winding.
    let sampler = tabulate(
        cube_bounds(0, 4),
        |_, _, z| if z <= 1 { 1.0 } else { -1.0 },
        |_, _, _| [0.0, 0.0, -1.0],
    );
    let mesh = dc_meshing(sampler).unwrap();
    assert_eq!(mesh.vertices.len(), 9);
    let expected_indices = vec![
        1, 4, 0, 3, 0, 4, 2, 5, 1, 4, 1, 5, 4, 7, 3, 6, 3, 7, 5, 8, 4, 7, 4, 8,
    ];
    assert_eq!(mesh.indices, expected_indices);
}

#[test]
fn create_quad_clockwise_winding() {
    let mut indices = Vec::new();
    create_quad(&mut indices, 10, 11, 12, 13, true);
    assert_eq!(indices, vec![10, 11, 12, 13, 12, 11]);
}

#[test]
fn create_quad_counterclockwise_winding() {
    let mut indices = Vec::new();
    create_quad(&mut indices, 10, 11, 12, 13, false);
    assert_eq!(indices, vec![10, 12, 11, 13, 11, 12]);
}

#[test]
fn zero_samples_are_never_sign_changes() {
    // A field that is zero on the z = 1 plane and changes side across it:
    // no tested edge is strictly positive at one end and strictly negative
    // at the other, so no cell activates.
    let sampler = tabulate(
        cube_bounds(0, 4),
        |_, _, z| if z < 1 { -1.0 } else if z == 1 { 0.0 } else { 1.0 },
        |_, _, _| [0.0, 0.0, 0.0],
    );
    let mesh = dc_meshing(sampler).unwrap();
    assert_eq!(mesh.vertices.len(), 0);
    assert_eq!(mesh.indices.len(), 0);
}

#[test]
fn single_active_cell_has_no_quads() {
    // Only the cell at the origin touches the lone negative sample, so one
    // vertex is placed; a lone vertex has no placed neighbors, and no
    // triangles are stitched.
    let sampler = tabulate(
        cube_bounds(0, 4),
        |x, y, z| if x == 0 && y == 0 && z == 0 { -1.0 } else { 1.0 },
        |_, _, _| [0.0, 0.0, 0.0],
    );
    let mesh = dc_meshing(sampler).unwrap();
    assert_eq!(mesh.vertices.len(), 1);
    assert_eq!(mesh.vertices[0], LatticePoint { x: 0, y: 0, z: 0 });
    assert_eq!(mesh.indices.len(), 0);
}

#[test]
fn lenient_produces_mesh_on_valid_bounds() {
    let mesh = dc_meshing_lenient(sphere_sampler());
    assert!(mesh.vertices.len() > 0);
    assert_eq!(mesh.normals.len(), mesh.vertices.len());
}
