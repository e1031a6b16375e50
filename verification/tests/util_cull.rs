use voxel_terrain::cull::{box_fully_outside, cull, is_visible, Plane};
use voxel_terrain::field::Field;
use voxel_terrain::mesh::VoxelMesh;
use voxel_terrain::util::{align, hash, knuth, rescale, stride_of, xoshiro128};

fn lin3(e: usize, x: usize, y: usize, z: usize) -> usize {
    (x * e + y) * e + z
}

#[test]
fn test_rescale() {
    let r = rescale(0, (-1, 1), (1, 2));
    assert_eq!(r, 1);
}

#[test]
fn rescale_maps_span_endpoints() {
    assert_eq!(rescale(2, (2, 6), (10, 30)), 10);
    assert_eq!(rescale(6, (2, 6), (10, 30)), 30);
    assert_eq!(rescale(4, (2, 6), (10, 30)), 20);
}

#[test]
fn align_rounds_up_to_multiples() {
    assert_eq!(align(5, 4), 8);
    assert_eq!(align(8, 4), 8);
    assert_eq!(align(0, 16), 0);
    assert_eq!(align(17, 16), 32);
}

#[test]
fn xoshiro_step_is_exact() {
    let mut s: [u32; 4] = [1, 2, 3, 4];
    let out = xoshiro128(&mut s);
    assert_eq!(out, 5);
    assert_eq!(s, [7, 0, 1026, 12288]);
    // The generator is deterministic in its state.
    let mut s2: [u32; 4] = [1, 2, 3, 4];
    let out2 = xoshiro128(&mut s2);
    assert_eq!(out2, 5);
    assert_eq!(s2, s);
}

#[test]
fn stride_covers_whole_elements() {
    assert_eq!(stride_of::<u32>(), 4);
    assert_eq!(stride_of::<(u8, u32)>(), 8);
    assert_eq!(stride_of::<[u16; 3]>(), 6);
}

#[test]
fn hash_of_nothing_is_zero() {
    assert_eq!(knuth(0), 0);
    assert_eq!(hash(&vec![]), 0);
}

#[test]
fn hash_mixes_its_keys() {
    let a = hash(&vec![1, 2, 3]);
    let b = hash(&vec![3, 2, 1]);
    let c = hash(&vec![1, 2, 3]);
    assert_eq!(a, c);
    assert_ne!(a, b);
}

#[test]
fn box_behind_one_plane_is_culled() {
    // The half-space x > 3 leaves the whole unit box [0, 2]^3 outside.
    let p = Plane { a: 1, b: 0, c: 0, d: -3 };
    assert!(box_fully_outside(&p, 2));
    let planes = vec![p];
    assert!(!is_visible(&planes, 2));
}

#[test]
fn box_with_interior_point_survives_every_plane() {
    // Five planes all strictly containing the point (1, 1, 1): conservative
    // culling must keep the box.
    let planes = vec![
        Plane { a: 1, b: 0, c: 0, d: 0 },
        Plane { a: -1, b: 0, c: 0, d: 2 },
        Plane { a: 0, b: 1, c: 0, d: 0 },
        Plane { a: 0, b: -1, c: 0, d: 2 },
        Plane { a: 0, b: 0, c: 1, d: 0 },
    ];
    assert!(is_visible(&planes, 2));
}

#[test]
fn cull_counts_surviving_chunks() {
    let outside = vec![Plane { a: 1, b: 0, c: 0, d: -3 }];
    let inside = vec![Plane { a: 1, b: 1, c: 1, d: 1 }];
    let (flags, stats) = cull(&vec![outside, inside.clone(), inside], 2);
    assert_eq!(flags, vec![false, true, true]);
    assert_eq!(stats.chunk_count, 2);
}

#[test]
fn mesh_of_lone_cell_is_a_full_cube() {
    let mut cells = vec![false; 27];
    cells[lin3(3, 1, 1, 1)] = true;
    let occ = Field::from_data(cells, 3);
    let env = occ.environment();
    let shell = occ.shell(&env);
    let vis = env.visibility();
    let colors = Field::from_data(vec![5u32; 27], 3);
    let mesh = VoxelMesh::new(&shell, &vis, &colors, (7, 8, 9), 2);
    // Six exposed faces, two triangles each, three vertices per triangle.
    assert_eq!(mesh.count(), 36);
    assert_eq!(mesh.symmetry.tx, 7);
    assert_eq!(mesh.symmetry.scale, 2);
    for v in mesh.vertices.iter() {
        assert!(1 <= v.px && v.px <= 2);
        assert!(1 <= v.py && v.py <= 2);
        assert!(1 <= v.pz && v.pz <= 2);
        assert_eq!(v.color, 5);
        assert_eq!(v.nx * v.nx + v.ny * v.ny + v.nz * v.nz, 1);
    }
}

#[test]
fn mesh_of_empty_field_is_empty() {
    let occ = Field::from_data(vec![false; 27], 3);
    let env = occ.environment();
    let shell = occ.shell(&env);
    let vis = env.visibility();
    let colors = Field::from_data(vec![0u32; 27], 3);
    let mesh = VoxelMesh::new(&shell, &vis, &colors, (0, 0, 0), 1);
    assert_eq!(mesh.count(), 0);
}
