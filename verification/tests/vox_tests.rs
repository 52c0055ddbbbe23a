use sol_grid::vox;
use sol_grid::Grid;
use sol_grid::Voxel;

fn u32_at(bytes: &[u8], off: usize) -> u32 {
    u32::from_le_bytes([bytes[off], bytes[off + 1], bytes[off + 2], bytes[off + 3]])
}

#[test]
fn test_vox_write() {
    let grid_width = 3;
    let grid_depth = 3;
    let grid_height = 3;
    let mut grid = Grid::new(grid_width, grid_depth, grid_height);
    let black = [0, 0, 0, 255];
    let white = [255, 255, 255, 255];
    let voxel_black = Voxel::from_rgba(&black);
    let voxel_white = Voxel::from_rgba(&white);
    for x in 0..grid_width {
        for y in 0..grid_depth {
            for z in 0..grid_height {
                if z == 0 {
                    *grid.get_mut(x, y, z) = voxel_black;
                } else {
                    *grid.get_mut(x, y, z) = voxel_white;
                }
            }
        }
    }
    let bytes = vox::encode(&grid);
    assert_eq!(bytes.len(), 1096 + 4 * 27);
    assert_eq!(&bytes[0..4], b"VOX ");
    assert_eq!(u32_at(&bytes, 4), 150);
}

#[test]
fn test_vox_write_transparent_voxel() {
    let grid_width = 3;
    let grid_depth = 3;
    let grid_height = 3;
    let mut grid = Grid::new(grid_width, grid_depth, grid_height);

    let blue = [0, 0, 255, 0];
    let voxel = Voxel::from_rgba(&blue);
    for x in 0..grid_width {
        for y in 0..grid_depth {
            for z in 0..grid_height {
                *grid.get_mut(x, y, z) = voxel;
            }
        }
    }
    let bytes = vox::encode(&grid);
    // No cell has nonzero alpha, so no position record is emitted at all.
    assert_eq!(bytes.len(), 1096);
    assert_eq!(&bytes[44..48], b"XYZI");
    assert_eq!(u32_at(&bytes, 48), 4);
    assert_eq!(u32_at(&bytes, 56), 0);
    // The color still claimed palette index 1 when it was first seen.
    assert_eq!(&bytes[60..64], b"RGBA");
    assert_eq!(&bytes[72..76], &blue);
}

#[test]
fn test_vox_single_red_voxel_exact_bytes() {
    let mut grid = Grid::new(1, 1, 1);
    *grid.get_mut(0, 0, 0) = Voxel::from_rgba(&[255, 0, 0, 255]);
    let bytes = vox::encode(&grid);

    assert_eq!(bytes.len(), 1100);
    assert_eq!(&bytes[0..4], b"VOX ");
    assert_eq!(u32_at(&bytes, 4), 150);
    assert_eq!(&bytes[8..12], b"MAIN");
    assert_eq!(u32_at(&bytes, 12), 0);
    assert_eq!(u32_at(&bytes, 16), 1080);
    assert_eq!(&bytes[20..24], b"SIZE");
    assert_eq!(u32_at(&bytes, 24), 12);
    assert_eq!(u32_at(&bytes, 28), 0);
    assert_eq!(u32_at(&bytes, 32), 1);
    assert_eq!(u32_at(&bytes, 36), 1);
    assert_eq!(u32_at(&bytes, 40), 1);
    assert_eq!(&bytes[44..48], b"XYZI");
    assert_eq!(u32_at(&bytes, 48), 8);
    assert_eq!(u32_at(&bytes, 52), 0);
    assert_eq!(u32_at(&bytes, 56), 1);
    assert_eq!(&bytes[60..64], &[0, 0, 0, 1]);
    assert_eq!(&bytes[64..68], b"RGBA");
    assert_eq!(u32_at(&bytes, 68), 1024);
    assert_eq!(u32_at(&bytes, 72), 0);
    assert_eq!(&bytes[76..80], &[255, 0, 0, 255]);
    for i in 80..1100 {
        assert_eq!(bytes[i], 0);
    }
}

#[test]
fn test_vox_two_colors_palette_and_records() {
    let e = 3;
    let mut grid = Grid::new(e, e, e);
    let black = [0, 0, 0, 255];
    let white = [255, 255, 255, 255];
    for x in 0..e {
        for y in 0..e {
            for z in 0..e {
                let color = if z == 0 { black } else { white };
                *grid.get_mut(x, y, z) = Voxel::from_rgba(&color);
            }
        }
    }
    let bytes = vox::encode(&grid);
    assert_eq!(u32_at(&bytes, 56), 27);
    for i in 0..27 {
        let off = 60 + 4 * i;
        let record = &bytes[off..off + 4];
        let (x, y, z, idx) = (record[0], record[1], record[2], record[3]);
        assert!(x < 3 && y < 3 && z < 3);
        if z == 0 {
            assert_eq!(idx, 1);
        } else {
            assert_eq!(idx, 2);
        }
    }
    let palette_off = 60 + 4 * 27 + 12;
    assert_eq!(&bytes[palette_off..palette_off + 4], &black);
    assert_eq!(&bytes[palette_off + 4..palette_off + 8], &white);
    for i in palette_off + 8..bytes.len() {
        assert_eq!(bytes[i], 0);
    }
}

#[test]
fn test_vox_position_bytes_wrap_past_256() {
    // Extents beyond 256 are not rejected; position bytes wrap to 8 bits.
    let mut grid = Grid::new(257, 1, 1);
    let opaque = Voxel::from_rgba(&[9, 9, 9, 255]);
    for x in 0..257 {
        *grid.get_mut(x, 0, 0) = opaque;
    }
    let bytes = vox::encode(&grid);
    assert_eq!(u32_at(&bytes, 56), 257);
    // Record 255 still carries its coordinate; record 256 wraps to 0.
    assert_eq!(bytes[60 + 4 * 255], 255);
    assert_eq!(bytes[60 + 4 * 256], 0);
    assert_eq!(bytes[60 + 4 * 256 + 3], 1);
}

#[test]
fn test_vox_records_follow_enumeration_order() {
    // 2x2x1 grid, all opaque: records come x fastest, then y, each cell once.
    let mut grid = Grid::new(2, 2, 1);
    for x in 0..2 {
        for y in 0..2 {
            *grid.get_mut(x, y, 0) = Voxel::from_rgba(&[x as u8 * 10, y as u8 * 10, 0, 255]);
        }
    }
    let bytes = vox::encode(&grid);
    assert_eq!(u32_at(&bytes, 56), 4);
    let expected = [(0u8, 0u8), (1, 0), (0, 1), (1, 1)];
    for (i, (x, y)) in expected.iter().enumerate() {
        let off = 60 + 4 * i;
        assert_eq!(bytes[off], *x);
        assert_eq!(bytes[off + 1], *y);
        assert_eq!(bytes[off + 2], 0);
    }
}
