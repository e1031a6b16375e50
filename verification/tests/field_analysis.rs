use voxel_terrain::bits::{VIS_XN, VIS_XP, VIS_YN, VIS_YP, VIS_ZN, VIS_ZP};
use voxel_terrain::bits::{test_bit32, test_bit8, ENV_FULL, ENV_ZZZ};
use voxel_terrain::field::{coordinates, Field};

fn lin3(e: usize, x: usize, y: usize, z: usize) -> usize {
    (x * e + y) * e + z
}

#[test]
fn coordinates_enumerate_in_row_major_order() {
    let cs = coordinates(2);
    assert_eq!(cs.len(), 8);
    assert_eq!(cs[0], (0, 0, 0));
    assert_eq!(cs[1], (0, 0, 1));
    assert_eq!(cs[2], (0, 1, 0));
    assert_eq!(cs[3], (0, 1, 1));
    assert_eq!(cs[4], (1, 0, 0));
    assert_eq!(cs[7], (1, 1, 1));
}

#[test]
fn coordinates_of_empty_extent() {
    let cs = coordinates(0);
    assert_eq!(cs.len(), 0);
}

#[test]
fn field_new_evaluates_generator_everywhere() {
    let f: Field<usize> = Field::new(3, |x, y, z| 100 * x + 10 * y + z);
    assert_eq!(f.extent(), 3);
    assert_eq!(*f.at(0, 0, 0), 0);
    assert_eq!(*f.at(2, 1, 0), 210);
    assert_eq!(*f.at(1, 2, 2), 122);
}

#[test]
fn field_map_applies_per_cell() {
    let f: Field<usize> = Field::new(2, |x, y, z| x + y + z);
    let g = f.map(|v| v * 2);
    for (x, y, z) in f.coordinates() {
        assert_eq!(*g.at(x, y, z), 2 * (x + y + z));
    }
}

#[test]
fn field_map_with_coordinate_sees_coordinates() {
    let f: Field<bool> = Field::new(2, |_, _, _| true);
    let g = f.map_with_coordinate(|v, x, y, z| if v { x + 10 * y + 100 * z } else { 999 });
    assert_eq!(*g.at(1, 0, 0), 1);
    assert_eq!(*g.at(0, 1, 1), 110);
}

#[test]
fn environment_of_lone_cell_has_only_own_bit() {
    let mut cells = vec![false; 27];
    cells[lin3(3, 1, 1, 1)] = true;
    let occ = Field::from_data(cells, 3);
    let env = occ.environment();
    let center = *env.at(1, 1, 1);
    assert!(test_bit32(center, ENV_ZZZ));
    assert_ne!(center, ENV_FULL);
    for bit in 1..27 {
        assert!(!test_bit32(center, bit));
    }
    // Each direct neighbour of the centre sees exactly one occupied cell.
    let corner = *env.at(0, 0, 0);
    assert!(!test_bit32(corner, ENV_ZZZ));
}

#[test]
fn environment_of_full_cube_is_full_only_in_the_interior() {
    let occ = Field::from_data(vec![true; 27], 3);
    let env = occ.environment();
    assert_eq!(*env.at(1, 1, 1), ENV_FULL);
    assert_ne!(*env.at(0, 1, 1), ENV_FULL);
    assert_ne!(*env.at(2, 2, 2), ENV_FULL);
}

#[test]
fn shell_prunes_exactly_the_interior() {
    let occ = Field::from_data(vec![true; 27], 3);
    let env = occ.environment();
    let shell = occ.shell(&env);
    assert!(!*shell.at(1, 1, 1));
    for (x, y, z) in occ.coordinates() {
        if (x, y, z) != (1, 1, 1) {
            assert!(*shell.at(x, y, z));
        }
    }
}

#[test]
fn shell_is_idempotent() {
    // An arbitrary but deterministic occupancy pattern.
    let e = 4;
    let occ: Field<bool> = Field::new(e, |x, y, z| (x * 5 + y * 3 + z * 7) % 3 != 0);
    let env = occ.environment();
    let s1 = occ.shell(&env);
    let env2 = s1.environment();
    let s2 = s1.shell(&env2);
    for (x, y, z) in occ.coordinates() {
        assert_eq!(*s1.at(x, y, z), *s2.at(x, y, z));
    }
}

#[test]
fn visibility_boundary_faces_are_never_visible() {
    // Every cell occupied: no face of any cell is visible, and in particular
    // outward faces of boundary cells are suppressed whatever the occupancy.
    let occ = Field::from_data(vec![true; 27], 3);
    let env = occ.environment();
    let vis = env.visibility();
    for (x, y, z) in occ.coordinates() {
        assert_eq!(*vis.at(x, y, z), 0u8);
    }
    // A lone corner cell: faces into the field are exposed, boundary faces
    // are not, regardless of it being occupied.
    let mut cells = vec![false; 8];
    cells[lin3(2, 0, 0, 0)] = true;
    let occ = Field::from_data(cells, 2);
    let env = occ.environment();
    let vis = env.visibility();
    let corner = *vis.at(0, 0, 0);
    assert!(test_bit8(corner, VIS_XP));
    assert!(test_bit8(corner, VIS_YP));
    assert!(test_bit8(corner, VIS_ZP));
    assert!(!test_bit8(corner, VIS_XN));
    assert!(!test_bit8(corner, VIS_YN));
    assert!(!test_bit8(corner, VIS_ZN));
}

#[test]
fn lone_interior_cell_exposes_all_six_faces() {
    let mut cells = vec![false; 27];
    cells[lin3(3, 1, 1, 1)] = true;
    let occ = Field::from_data(cells, 3);
    let env = occ.environment();
    let shell = occ.shell(&env);
    let vis = env.visibility();
    let center = *vis.at(1, 1, 1);
    for bit in [VIS_XP, VIS_XN, VIS_YP, VIS_YN, VIS_ZP, VIS_ZN] {
        assert!(test_bit8(center, bit));
    }
    assert_eq!(center.count_ones(), 6);
    for (x, y, z) in occ.coordinates() {
        if (x, y, z) != (1, 1, 1) {
            assert!(!*shell.at(x, y, z));
        }
    }
}

#[test]
fn smooth_averages_masked_neighbours() {
    // A 2x2x2 block fully occupied: every cell has seven set neighbour bits,
    // so each smoothed value is the mean of all eight values.
    let vals: Vec<i64> = (0..8).collect();
    let sum: i64 = vals.iter().sum();
    let field = Field::from_data(vals, 2);
    let mask = Field::from_data(vec![true; 8], 2);
    let env = mask.environment();
    let smoothed = field.smooth(&mask, &env);
    for (x, y, z) in mask.coordinates() {
        assert_eq!(*smoothed.at(x, y, z), sum / 8);
    }
}

#[test]
fn smooth_leaves_unmasked_cells_alone() {
    let field = Field::from_data(vec![7i64; 8], 2);
    let mask = Field::from_data(vec![false; 8], 2);
    let env = mask.environment();
    let smoothed = field.smooth(&mask, &env);
    for (x, y, z) in mask.coordinates() {
        assert_eq!(*smoothed.at(x, y, z), 7);
    }
}
