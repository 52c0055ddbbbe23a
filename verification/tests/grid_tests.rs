use sol_grid::Codec;
use sol_grid::Grid;
use sol_grid::Voxel;

#[test]
fn test_grid() {
    let grid_width = 3;
    let grid_depth = 3;
    let grid_height = 3;
    let mut grid = Grid::new(grid_width, grid_depth, grid_height);

    let mut order = 0;
    for x in 0..grid_width {
        for y in 0..grid_depth {
            for z in 0..grid_height {
                order += 1;
                *grid.get_mut(x, y, z) = order;
            }
        }
    }
    order = 0;
    for x in 0..grid_width {
        for y in 0..grid_depth {
            for z in 0..grid_height {
                order += 1;
                let value = grid.get(x, y, z);
                assert_eq!(*value, order);
            }
        }
    }
}

#[test]
fn test_grid_voxel() {
    let grid_width = 3;
    let grid_depth = 3;
    let grid_height = 3;
    let mut grid = Grid::new(grid_width, grid_depth, grid_height);

    let red = [255, 0, 0, 255];
    let voxel = Voxel::from_rgba(&red);
    for x in 0..grid_width {
        for y in 0..grid_depth {
            for z in 0..grid_height {
                *grid.get_mut(x, y, z) = voxel;
            }
        }
    }
    for x in 0..grid_width {
        for y in 0..grid_depth {
            for z in 0..grid_height {
                let value = grid.get(x, y, z);
                assert_eq!(value.as_rgba(), red);
            }
        }
    }
}

#[test]
fn test_grid_enumerate_cells() {
    let grid_width = 3;
    let grid_depth = 3;
    let grid_height = 3;
    let mut grid = Grid::new(grid_width, grid_depth, grid_height);
    for x in 0..grid_width {
        for y in 0..grid_depth {
            for z in 0..grid_height {
                let color = [x as u8, y as u8, z as u8, 255];
                let voxel = Voxel::from_rgba(&color);
                *grid.get_mut(x, y, z) = voxel;
            }
        }
    }
    let mut it = grid.enumerate_cells();
    while let Some((x, y, z, v)) = it.next(&grid) {
        let rgba = v.as_rgba();
        assert_eq!(x as u8, rgba[0]);
        assert_eq!(y as u8, rgba[1]);
        assert_eq!(z as u8, rgba[2]);
    }
}

#[test]
fn test_grid_cell_count() {
    let grid_width = 3;
    let grid_depth = 3;
    let grid_height = 3;
    let grid = Grid::<u32>::new(grid_width, grid_depth, grid_height);
    assert_eq!(grid.cell_count(), 27);
}

#[test]
fn test_grid_starts_zero_filled() {
    let grid = Grid::<u32>::new(2, 3, 4);
    for x in 0..2 {
        for y in 0..3 {
            for z in 0..4 {
                assert_eq!(*grid.get(x, y, z), 0);
            }
        }
    }
    let vgrid = Grid::<Voxel>::new(2, 2, 2);
    assert_eq!(vgrid.get(1, 1, 1).as_slice(), [0u8; 8]);
}

#[test]
fn test_grid_enumeration_order_x_fastest() {
    let grid = Grid::<u32>::new(2, 2, 2);
    let expected = [
        (0, 0, 0),
        (1, 0, 0),
        (0, 1, 0),
        (1, 1, 0),
        (0, 0, 1),
        (1, 0, 1),
        (0, 1, 1),
        (1, 1, 1),
    ];
    let mut it = grid.enumerate_cells();
    let mut seen = Vec::new();
    while let Some((x, y, z, _)) = it.next(&grid) {
        seen.push((x, y, z));
    }
    assert_eq!(seen, expected);
}

#[test]
fn test_grid_enumerate_cells_mut_write() {
    let mut grid = Grid::<u32>::new(2, 2, 2);
    let mut order = 0;
    for x in 0..2 {
        for y in 0..2 {
            for z in 0..2 {
                order += 1;
                *grid.get_mut(x, y, z) = order;
            }
        }
    }
    let mut it = grid.enumerate_cells_mut();
    while let Some((_, _, _, v)) = it.next(&mut grid) {
        it.write(&mut grid, v * 2);
    }
    for x in 0..2 {
        for y in 0..2 {
            for z in 0..2 {
                assert_eq!(*grid.get(x, y, z) % 2, 0);
                assert!(*grid.get(x, y, z) >= 2);
            }
        }
    }
}

#[test]
fn test_grid_overflow_is_rejected() {
    let r = Grid::<Voxel>::try_new(u32::MAX, u32::MAX, u32::MAX);
    assert!(r.is_none());
    let r = Grid::<u32>::try_new(u32::MAX, u32::MAX, 2);
    assert!(r.is_none());
    let r = Grid::<u32>::try_new(4, 4, 4);
    assert!(r.is_some());
}

#[test]
fn test_grid_accessors() {
    let grid = Grid::<u32>::new(2, 3, 4);
    assert_eq!(grid.width(), 2);
    assert_eq!(grid.depth(), 3);
    assert_eq!(grid.height(), 4);
    assert_eq!(grid.cell_count(), 24);
}
