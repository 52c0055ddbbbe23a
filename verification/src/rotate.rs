//! Rotation of a cubic grid by a multiple of 90 degrees about the vertical
//! (height) axis.
//!
//! A source coordinate is recentered by subtracting each extent's integer
//! half, turned by the rotation matrix in the x-y plane, and translated back.
//! Because integer halving truncates, even extents need a parity correction:
//! 1 is subtracted from the x result for 90/180 degrees when the width is
//! even, and from the y result for 180/270 degrees when the depth is even;
//! the remaining branches keep the legacy correction for `depth > width`,
//! which is never taken on a cube. The corrected coordinate always lands
//! back inside the cube, proved below.

use crate::codec::Codec;
use crate::grid::cell_index_math;
use crate::grid::coords_of;
use crate::grid::lemma_cell_index_bound;
use crate::grid::lemma_cell_index_injective;
use crate::grid::lemma_coords_of_inverse;
use crate::grid::Grid;
use vstd::prelude::*;

verus! {

/// A rotation angle about the vertical axis, in 90-degree increments.
#[derive(Debug)]
pub enum Rotation {
    R0,
    R90,
    R180,
    R270,
}

/// The parity correction subtracted from the recentered x result.
pub open spec fn x_correction(rot: Rotation, w: int, d: int) -> int {
    match rot {
        Rotation::R90 | Rotation::R180 => if w % 2 == 0 {
            1
        } else {
            0
        },
        _ => if d > w {
            1
        } else {
            0
        },
    }
}

/// The parity correction subtracted from the recentered y result.
pub open spec fn y_correction(rot: Rotation, d: int) -> int {
    match rot {
        Rotation::R180 | Rotation::R270 => if d % 2 == 0 {
            1
        } else {
            0
        },
        _ => 0,
    }
}

/// Where rotation about the vertical axis carries the source coordinate
/// `(x, y, z)` in a grid of extents `w`, `d`, `h`: recenter, turn in the x-y
/// plane, translate back, and apply the parity corrections.
pub open spec fn rotated_coords(rot: Rotation, w: int, d: int, h: int, x: int, y: int, z: int) -> (
    int,
    int,
    int,
) {
    let cx = x - w / 2;
    let cy = y - d / 2;
    let cz = z - h / 2;
    let m = match rot {
        Rotation::R0 => (cx, cy),
        Rotation::R90 => (-cy, cx),
        Rotation::R180 => (-cx, -cy),
        Rotation::R270 => (cy, -cx),
    };
    (m.0 + w / 2 - x_correction(rot, w, d), m.1 + d / 2 - y_correction(rot, d), cz + h / 2)
}

/// `dst` holds `src` rotated by `rot`: same extents, and every source cell's
/// value sits at its rotated coordinate.
pub open spec fn rotation_of<T: Codec + Copy>(src: Grid<T>, dst: Grid<T>, rot: Rotation) -> bool {
    &&& dst.spec_width() == src.spec_width()
    &&& dst.spec_depth() == src.spec_depth()
    &&& dst.spec_height() == src.spec_height()
    &&& forall|x: u32, y: u32, z: u32|
        src.in_bounds(x, y, z) ==> {
            let (rx, ry, rz) = rotated_coords(
                rot,
                src.spec_width() as int,
                src.spec_depth() as int,
                src.spec_height() as int,
                x as int,
                y as int,
                z as int,
            );
            dst.cell(rx as u32, ry as u32, rz as u32) == #[trigger] src.cell(x, y, z)
        }
}

/// Rotation bounds: on a cube of extent `e`, every in-bounds source
/// coordinate is carried to an in-bounds destination coordinate, at every
/// angle and at either parity of `e`.
pub proof fn lemma_rotation_bounds(rot: Rotation, e: int, x: int, y: int, z: int)
    requires
        0 < e,
        0 <= x < e,
        0 <= y < e,
        0 <= z < e,
    ensures
        ({
            let (rx, ry, rz) = rotated_coords(rot, e, e, e, x, y, z);
            0 <= rx < e && 0 <= ry < e && 0 <= rz < e
        }),
{
    vstd::arithmetic::div_mod::lemma_fundamental_div_mod(e, 2);
    vstd::arithmetic::div_mod::lemma_mod_bound(e, 2);
}

/// Rotation is injective: on a cube, distinct source coordinates land on
/// distinct destination coordinates.
pub proof fn lemma_rotation_injective(
    rot: Rotation,
    e: int,
    x1: int,
    y1: int,
    z1: int,
    x2: int,
    y2: int,
    z2: int,
)
    requires
        0 < e,
        0 <= x1 < e,
        0 <= y1 < e,
        0 <= z1 < e,
        0 <= x2 < e,
        0 <= y2 < e,
        0 <= z2 < e,
        rotated_coords(rot, e, e, e, x1, y1, z1) == rotated_coords(rot, e, e, e, x2, y2, z2),
    ensures
        x1 == x2,
        y1 == y2,
        z1 == z2,
{
}

/// Rotating by 0 degrees carries every coordinate of a cube to itself.
pub proof fn lemma_rotation_0_identity_coords(e: int, x: int, y: int, z: int)
    requires
        0 < e,
        0 <= x < e,
        0 <= y < e,
        0 <= z < e,
    ensures
        rotated_coords(Rotation::R0, e, e, e, x, y, z) == (x, y, z),
{
}

/// Four 90-degree rotations carry every coordinate of a cube back to itself,
/// at either parity of the extent.
pub proof fn lemma_rotation_90_cycle(e: int, x: int, y: int, z: int)
    requires
        0 < e,
        0 <= x < e,
        0 <= y < e,
        0 <= z < e,
    ensures
        ({
            let c1 = rotated_coords(Rotation::R90, e, e, e, x, y, z);
            let c2 = rotated_coords(Rotation::R90, e, e, e, c1.0, c1.1, c1.2);
            let c3 = rotated_coords(Rotation::R90, e, e, e, c2.0, c2.1, c2.2);
            let c4 = rotated_coords(Rotation::R90, e, e, e, c3.0, c3.1, c3.2);
            c4 == (x, y, z)
        }),
{
    vstd::arithmetic::div_mod::lemma_fundamental_div_mod(e, 2);
    vstd::arithmetic::div_mod::lemma_mod_bound(e, 2);
}

impl<T: Codec + Copy> Grid<T> {
    /// A new grid holding this cube rotated by `rotation` about the vertical
    /// axis. The grid must be a cube (width == depth == height); rotation of
    /// other boxes is unsupported.
    pub fn rotated_z(&self, rotation: &Rotation) -> (r: Grid<T>)
        requires
            self.wf(),
            self.spec_width() == self.spec_depth(),
            self.spec_width() == self.spec_height(),
        ensures
            r.wf(),
            rotation_of(*self, r, *rotation),
    {
        let width = self.width();
        let depth = self.depth();
        let height = self.height();
        let mut output = Grid::new(width, depth, height);
        let ghost wi = width as int;
        let ghost di = depth as int;
        let ghost hi = height as int;

        let x_offset = (width / 2) as i64;
        let y_offset = (depth / 2) as i64;
        let z_offset = (height / 2) as i64;
        let x_even_correction: i64 = match rotation {
            Rotation::R90 | Rotation::R180 => if width % 2 == 0 {
                1
            } else {
                0
            },
            _ => if depth > width {
                1
            } else {
                0
            },
        };
        let y_even_correction: i64 = match rotation {
            Rotation::R180 | Rotation::R270 => if depth % 2 == 0 {
                1
            } else {
                0
            },
            _ => 0,
        };
        let total = self.cell_count();
        let mut it = self.enumerate_cells();
        let mut n: usize = 0;
        while n < total
            invariant
                self.wf(),
                wi == width as int,
                di == depth as int,
                hi == height as int,
                self.spec_width() == width,
                self.spec_depth() == depth,
                self.spec_height() == height,
                width == depth,
                width == height,
                output.wf(),
                output.spec_width() == width,
                output.spec_depth() == depth,
                output.spec_height() == height,
                it.spec_pos() == n,
                n <= total,
                total == self.cells_seq().len(),
                x_offset == wi / 2,
                y_offset == di / 2,
                z_offset == hi / 2,
                x_even_correction == x_correction(*rotation, wi, di),
                y_even_correction == y_correction(*rotation, di),
                forall|m: int|
                    0 <= m < n ==> {
                        let (x, y, z) = coords_of(wi, di, m);
                        let (rx, ry, rz) = rotated_coords(*rotation, wi, di, hi, x, y, z);
                        output.cells_seq()[cell_index_math(wi, di, rx, ry, rz)]
                            == #[trigger] self.cells_seq()[m]
                    },
            decreases total - n,
        {
            let item = it.next(self);
            match item {
                None => {
                    proof {
                        assert(false);
                    }
                },
                Some((gx, gy, gz, t)) => {
                    let cx = gx as i64 - x_offset;
                    let cy = gy as i64 - y_offset;
                    let cz = gz as i64 - z_offset;
                    let m: (i64, i64) = match rotation {
                        Rotation::R0 => (cx, cy),
                        Rotation::R90 => (-cy, cx),
                        Rotation::R180 => (-cx, -cy),
                        Rotation::R270 => (cy, -cx),
                    };
                    let rx = m.0 + x_offset - x_even_correction;
                    let ry = m.1 + y_offset - y_even_correction;
                    let rz = cz + z_offset;
                    proof {
                        assert((rx as int, ry as int, rz as int) == rotated_coords(
                            *rotation,
                            wi,
                            di,
                            hi,
                            gx as int,
                            gy as int,
                            gz as int,
                        ));
                        lemma_rotation_bounds(*rotation, wi, gx as int, gy as int, gz as int);
                    }
                    let rxu = rx as u32;
                    let ryu = ry as u32;
                    let rzu = rz as u32;
                    let ghost output_before = output;
                    let dst = output.get_mut(rxu, ryu, rzu);
                    *dst = t;
                    proof {
                        lemma_cell_index_bound(wi, di, hi, rx as int, ry as int, rz as int);
                        assert forall|m2: int| 0 <= m2 < n + 1 implies {
                            let (x, y, z) = coords_of(wi, di, m2);
                            let (rx2, ry2, rz2) = rotated_coords(*rotation, wi, di, hi, x, y, z);
                            output.cells_seq()[cell_index_math(wi, di, rx2, ry2, rz2)]
                                == #[trigger] self.cells_seq()[m2]
                        } by {
                            if m2 < n {
                                crate::grid::lemma_coords_of_cell_index(wi, di, hi, m2);
                                let (x, y, z) = coords_of(wi, di, m2);
                                let (rx2, ry2, rz2) = rotated_coords(
                                    *rotation,
                                    wi,
                                    di,
                                    hi,
                                    x,
                                    y,
                                    z,
                                );
                                lemma_coords_of_inverse(wi, di, hi, gx as int, gy as int, gz as int);
                                assert(coords_of(wi, di, n as int) == (gx as int, gy as int, gz as int));
                                if (x, y, z) == (gx as int, gy as int, gz as int) {
                                    assert(cell_index_math(wi, di, x, y, z) == m2);
                                    assert(cell_index_math(wi, di, gx as int, gy as int, gz as int)
                                        == n);
                                    assert(false);
                                }
                                lemma_rotation_bounds(*rotation, wi, x, y, z);
                                if (rx2, ry2, rz2) == (rx as int, ry as int, rz as int) {
                                    lemma_rotation_injective(
                                        *rotation,
                                        wi,
                                        x,
                                        y,
                                        z,
                                        gx as int,
                                        gy as int,
                                        gz as int,
                                    );
                                    assert(false);
                                }
                                lemma_cell_index_bound(wi, di, hi, rx2, ry2, rz2);
                                if cell_index_math(wi, di, rx2, ry2, rz2) == cell_index_math(
                                    wi,
                                    di,
                                    rx as int,
                                    ry as int,
                                    rz as int,
                                ) {
                                    lemma_cell_index_injective(
                                        wi,
                                        di,
                                        hi,
                                        rx2,
                                        ry2,
                                        rz2,
                                        rx as int,
                                        ry as int,
                                        rz as int,
                                    );
                                    assert(false);
                                }
                            }
                        }
                    }
                },
            }
            n = n + 1;
        }
        proof {
            assert forall|x: u32, y: u32, z: u32| self.in_bounds(x, y, z) implies {
                let (rx, ry, rz) = rotated_coords(
                    *rotation,
                    self.spec_width() as int,
                    self.spec_depth() as int,
                    self.spec_height() as int,
                    x as int,
                    y as int,
                    z as int,
                );
                output.cell(rx as u32, ry as u32, rz as u32) == #[trigger] self.cell(x, y, z)
            } by {
                lemma_cell_index_bound(wi, di, hi, x as int, y as int, z as int);
                let m = cell_index_math(wi, di, x as int, y as int, z as int);
                lemma_coords_of_inverse(wi, di, hi, x as int, y as int, z as int);
                let (rx, ry, rz) = rotated_coords(
                    *rotation,
                    wi,
                    di,
                    hi,
                    x as int,
                    y as int,
                    z as int,
                );
                lemma_rotation_bounds(*rotation, wi, x as int, y as int, z as int);
                assert(output.cells_seq()[cell_index_math(wi, di, rx, ry, rz)]
                    == self.cells_seq()[m]);
            }
        }
        output
    }
}

/// Rotating a cube by 0 degrees is the identity: the result holds exactly
/// the source's cells.
pub proof fn lemma_rotation_0_identity<T: Codec + Copy>(g0: Grid<T>, g1: Grid<T>)
    requires
        g0.wf(),
        g1.wf(),
        g0.spec_width() == g0.spec_depth(),
        g0.spec_width() == g0.spec_height(),
        rotation_of(g0, g1, Rotation::R0),
    ensures
        g1.cells_seq() == g0.cells_seq(),
{
    let e = g0.spec_width() as int;
    let len = g0.cells_seq().len() as int;
    assert forall|m: int| 0 <= m < len implies g1.cells_seq()[m] == g0.cells_seq()[m] by {
        crate::grid::lemma_coords_of_cell_index(e, e, e, m);
        let (x, y, z) = coords_of(e, e, m);
        lemma_rotation_0_identity_coords(e, x, y, z);
        assert(g0.in_bounds(x as u32, y as u32, z as u32));
        assert(g1.cell(x as u32, y as u32, z as u32) == g0.cell(x as u32, y as u32, z as u32));
    }
    assert(g1.cells_seq() =~= g0.cells_seq());
}

/// Rotation round trip: rotating a cube by 90 degrees four times reproduces
/// the original grid exactly, cell for cell.
pub proof fn lemma_rotation_round_trip<T: Codec + Copy>(
    g0: Grid<T>,
    g1: Grid<T>,
    g2: Grid<T>,
    g3: Grid<T>,
    g4: Grid<T>,
)
    requires
        g0.wf(),
        g1.wf(),
        g2.wf(),
        g3.wf(),
        g4.wf(),
        g0.spec_width() == g0.spec_depth(),
        g0.spec_width() == g0.spec_height(),
        rotation_of(g0, g1, Rotation::R90),
        rotation_of(g1, g2, Rotation::R90),
        rotation_of(g2, g3, Rotation::R90),
        rotation_of(g3, g4, Rotation::R90),
    ensures
        g4.cells_seq() == g0.cells_seq(),
{
    let e = g0.spec_width() as int;
    let len = g0.cells_seq().len() as int;
    assert forall|m: int| 0 <= m < len implies g4.cells_seq()[m] == g0.cells_seq()[m] by {
        crate::grid::lemma_coords_of_cell_index(e, e, e, m);
        let (x, y, z) = coords_of(e, e, m);
        let c0 = (x, y, z);
        let c1 = rotated_coords(Rotation::R90, e, e, e, x, y, z);
        let c2 = rotated_coords(Rotation::R90, e, e, e, c1.0, c1.1, c1.2);
        let c3 = rotated_coords(Rotation::R90, e, e, e, c2.0, c2.1, c2.2);
        let c4 = rotated_coords(Rotation::R90, e, e, e, c3.0, c3.1, c3.2);
        lemma_rotation_bounds(Rotation::R90, e, x, y, z);
        lemma_rotation_bounds(Rotation::R90, e, c1.0, c1.1, c1.2);
        lemma_rotation_bounds(Rotation::R90, e, c2.0, c2.1, c2.2);
        lemma_rotation_bounds(Rotation::R90, e, c3.0, c3.1, c3.2);
        lemma_rotation_90_cycle(e, x, y, z);
        assert(g1.cell(c1.0 as u32, c1.1 as u32, c1.2 as u32) == g0.cell(
            x as u32,
            y as u32,
            z as u32,
        ));
        assert(g2.cell(c2.0 as u32, c2.1 as u32, c2.2 as u32) == g1.cell(
            c1.0 as u32,
            c1.1 as u32,
            c1.2 as u32,
        ));
        assert(g3.cell(c3.0 as u32, c3.1 as u32, c3.2 as u32) == g2.cell(
            c2.0 as u32,
            c2.1 as u32,
            c2.2 as u32,
        ));
        assert(g4.cell(c4.0 as u32, c4.1 as u32, c4.2 as u32) == g3.cell(
            c3.0 as u32,
            c3.1 as u32,
            c3.2 as u32,
        ));
    }
    assert(g4.cells_seq() =~= g0.cells_seq());
}

} // verus!
