use sol_grid::vox;
use sol_grid::Grid;
use sol_grid::Rotation;
use sol_grid::Voxel;

fn gen_test_road_edge() -> Grid<Voxel> {
    let width = 3;
    let depth = 3;
    let height = 3;
    let mut grid = Grid::new(width, depth, height);
    let grey = Voxel::from_rgba(&[108, 108, 127, 255]);
    let green = Voxel::from_rgba(&[90, 120, 20, 255]);
    let brown = Voxel::from_rgba(&[120, 80, 50, 255]);
    for x in 0..width {
        for y in 0..depth {
            for z in 0..height {
                if z == height - 1 && x <= width / 2 {
                    *grid.get_mut(x, y, z) = grey;
                } else if z == height - 1 {
                    *grid.get_mut(x, y, z) = green;
                } else {
                    *grid.get_mut(x, y, z) = brown;
                }
            }
        }
    }
    grid
}

#[test]
fn test_voxel_rotated_z_0() {
    let grid = gen_test_road_edge();
    let rotated = grid.rotated_z(&Rotation::R0);
    let bytes = vox::encode(&rotated);
    assert_eq!(&bytes[0..4], b"VOX ");
}

#[test]
fn test_voxel_rotated_z_90() {
    let grid = gen_test_road_edge();
    let rotated = grid.rotated_z(&Rotation::R90);
    let bytes = vox::encode(&rotated);
    assert_eq!(&bytes[0..4], b"VOX ");
}

#[test]
fn test_voxel_rotated_z_180() {
    let grid = gen_test_road_edge();
    let rotated = grid.rotated_z(&Rotation::R180);
    let bytes = vox::encode(&rotated);
    assert_eq!(&bytes[0..4], b"VOX ");
}

#[test]
fn test_voxel_rotated_z_270() {
    let grid = gen_test_road_edge();
    let rotated = grid.rotated_z(&Rotation::R270);
    let bytes = vox::encode(&rotated);
    assert_eq!(&bytes[0..4], b"VOX ");
}

fn numbered_cube(e: u32) -> Grid<u32> {
    let mut grid = Grid::new(e, e, e);
    let mut order = 0;
    for x in 0..e {
        for y in 0..e {
            for z in 0..e {
                order += 1;
                *grid.get_mut(x, y, z) = order;
            }
        }
    }
    grid
}

fn grids_equal(a: &Grid<u32>, b: &Grid<u32>, e: u32) -> bool {
    for x in 0..e {
        for y in 0..e {
            for z in 0..e {
                if a.get(x, y, z) != b.get(x, y, z) {
                    return false;
                }
            }
        }
    }
    true
}

#[test]
fn test_rotation_0_is_identity_odd_and_even() {
    for e in [3u32, 4] {
        let grid = numbered_cube(e);
        let rotated = grid.rotated_z(&Rotation::R0);
        assert!(grids_equal(&grid, &rotated, e));
    }
}

#[test]
fn test_rotation_90_four_times_is_identity_odd_and_even() {
    for e in [3u32, 4] {
        let grid = numbered_cube(e);
        let r1 = grid.rotated_z(&Rotation::R90);
        let r2 = r1.rotated_z(&Rotation::R90);
        let r3 = r2.rotated_z(&Rotation::R90);
        let r4 = r3.rotated_z(&Rotation::R90);
        assert!(grids_equal(&grid, &r4, e));
    }
}

#[test]
fn test_rotation_preserves_cells_in_bounds() {
    // Every cell value lands on exactly one in-bounds destination: the
    // rotated grid holds the same multiset of values as the source.
    for e in [3u32, 4] {
        for rotation in [Rotation::R0, Rotation::R90, Rotation::R180, Rotation::R270] {
            let grid = numbered_cube(e);
            let rotated = grid.rotated_z(&rotation);
            let mut source = Vec::new();
            let mut landed = Vec::new();
            for x in 0..e {
                for y in 0..e {
                    for z in 0..e {
                        source.push(*grid.get(x, y, z));
                        landed.push(*rotated.get(x, y, z));
                    }
                }
            }
            source.sort();
            landed.sort();
            assert_eq!(source, landed);
        }
    }
}

#[test]
fn test_rotation_90_even_cube_corner() {
    // In a 4-cube, 90 degrees carries (x, y) to (3 - y, x): the even-width
    // parity correction keeps the image inside the cube.
    let e = 4;
    let mut grid = Grid::<u32>::new(e, e, e);
    *grid.get_mut(0, 0, 0) = 7;
    let rotated = grid.rotated_z(&Rotation::R90);
    assert_eq!(*rotated.get(3, 0, 0), 7);
    let back = rotated.rotated_z(&Rotation::R270);
    assert_eq!(*back.get(0, 0, 0), 7);
}
