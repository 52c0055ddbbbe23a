//! Cell enumeration: finite, non-restartable cursors that visit every cell
//! exactly once in buffer order (x fastest, then y, then z), yielding each
//! cell's coordinate together with its value.
//!
//! A cursor holds no borrow of its grid; each call takes the grid instead, a
//! shared borrow for reading and an exclusive one for writing, so the
//! language's borrow discipline still rules out a write overlapping any other
//! access. The coordinate yielded for the n-th buffer slot equals the
//! coordinate that `get` and `get_mut` require to address that same slot.

use crate::codec::Codec;
use crate::grid::coords_of;
use crate::grid::lemma_coords_of_cell_index;
use crate::grid::Grid;
use vstd::prelude::*;

verus! {

/// What one step of enumeration yields on a well-formed grid: `None` exactly
/// at the end; otherwise the coordinate of buffer slot `n` and the cell held
/// there, with the coordinate mapping back to `n` through the index formula.
pub open spec fn step_spec<T: Codec + Copy>(
    grid: Grid<T>,
    n: nat,
    r: Option<(u32, u32, u32, T)>,
) -> bool {
    match r {
        Some((x, y, z, v)) => {
            &&& n < grid.cells_seq().len()
            &&& grid.in_bounds(x, y, z)
            &&& (x as int, y as int, z as int) == coords_of(
                grid.spec_width() as int,
                grid.spec_depth() as int,
                n as int,
            )
            &&& grid.cell_index(x, y, z) == n
            &&& v == grid.cells_seq()[n as int]
        },
        None => n >= grid.cells_seq().len(),
    }
}

/// Advances past the cell at buffer slot `pos` of `grid` and yields it, as
/// `step_spec` says; yields `None` once every cell has been visited.
///
/// Shared by both cursors: the read-only one calls it as is, the exclusive
/// one through its own `next`.
fn step<T: Codec + Copy>(pos: &mut usize, grid: &Grid<T>) -> (r: Option<(u32, u32, u32, T)>)
    requires
        grid.wf(),
    ensures
        step_spec(*grid, *old(pos) as nat, r),
        r is Some ==> *final(pos) == *old(pos) + 1,
        r is None ==> *final(pos) == *old(pos),
{
    let total = grid.cell_count();
    let n = *pos;
    if n >= total {
        return None;
    }
    let w = grid.width();
    let d = grid.depth();
    proof {
        assert(w > 0 && d > 0 && grid.spec_height() > 0) by (nonlinear_arith)
            requires
                n < w * d * grid.spec_height(),
                0 <= n,
        ;
        lemma_coords_of_cell_index(
            w as int,
            d as int,
            grid.spec_height() as int,
            n as int,
        );
        assert((w as int) * (d as int) <= 0xffff_ffff * 0xffff_ffff) by (nonlinear_arith)
            requires
                w <= 0xffff_ffff,
                d <= 0xffff_ffff,
        ;
    }
    let n64 = n as u64;
    let wd: u64 = (w as u64) * (d as u64);
    proof {
        assert(wd > 0) by (nonlinear_arith)
            requires
                wd == (w as u64) * (d as u64),
                w >= 1,
                d >= 1,
        ;
    }
    let x = (n64 % (w as u64)) as u32;
    let y = ((n64 / (w as u64)) % (d as u64)) as u32;
    let z = (n64 / wd) as u32;
    let v = *grid.get(x, y, z);
    *pos = n + 1;
    Some((x, y, z, v))
}

/// A read-only enumeration cursor over a grid's cells, in buffer order.
pub struct EnumerateCells {
    pos: usize,
}

/// An exclusive enumeration cursor: it also yields each cell in buffer order,
/// and can overwrite the cell it yielded last.
pub struct EnumerateCellsMut {
    pos: usize,
}

impl<T: Codec + Copy> Grid<T> {
    /// A fresh read-only cursor over this grid's cells.
    pub fn enumerate_cells(&self) -> (it: EnumerateCells)
        ensures
            it.spec_pos() == 0,
    {
        EnumerateCells { pos: 0 }
    }

    /// A fresh exclusive cursor over this grid's cells.
    pub fn enumerate_cells_mut(&mut self) -> (it: EnumerateCellsMut)
        ensures
            it.spec_pos() == 0,
            *final(self) == *old(self),
    {
        EnumerateCellsMut { pos: 0 }
    }
}

impl EnumerateCells {
    /// How many cells this cursor has yielded so far.
    pub closed spec fn spec_pos(&self) -> nat {
        self.pos as nat
    }

    /// Yields the next cell of `grid` and its coordinate, or `None` once all
    /// cells have been visited.
    pub fn next<T: Codec + Copy>(&mut self, grid: &Grid<T>) -> (r: Option<(u32, u32, u32, T)>)
        requires
            grid.wf(),
        ensures
            step_spec(*grid, old(self).spec_pos(), r),
            r is Some ==> final(self).spec_pos() == old(self).spec_pos() + 1,
            r is None ==> final(self).spec_pos() == old(self).spec_pos(),
    {
        step(&mut self.pos, grid)
    }
}

impl EnumerateCellsMut {
    /// How many cells this cursor has yielded so far.
    pub closed spec fn spec_pos(&self) -> nat {
        self.pos as nat
    }

    /// Yields the next cell of `grid` and its coordinate, or `None` once all
    /// cells have been visited. The grid itself is left unchanged; `write`
    /// overwrites the yielded cell.
    pub fn next<T: Codec + Copy>(&mut self, grid: &mut Grid<T>) -> (r: Option<(u32, u32, u32, T)>)
        requires
            old(grid).wf(),
        ensures
            *final(grid) == *old(grid),
            step_spec(*old(grid), old(self).spec_pos(), r),
            r is Some ==> final(self).spec_pos() == old(self).spec_pos() + 1,
            r is None ==> final(self).spec_pos() == old(self).spec_pos(),
    {
        step(&mut self.pos, grid)
    }

    /// Overwrites the cell this cursor yielded last (the one at buffer slot
    /// `spec_pos() - 1`) with `v`; every other cell keeps its value.
    pub fn write<T: Codec + Copy>(&self, grid: &mut Grid<T>, v: T)
        requires
            old(grid).wf(),
            1 <= self.spec_pos() <= old(grid).cells_seq().len(),
        ensures
            final(grid).wf(),
            final(grid).spec_width() == old(grid).spec_width(),
            final(grid).spec_depth() == old(grid).spec_depth(),
            final(grid).spec_height() == old(grid).spec_height(),
            final(grid).cells_seq() == old(grid).cells_seq().update(
                self.spec_pos() - 1,
                v,
            ),
    {
        let n = self.pos - 1;
        let w = grid.width();
        let d = grid.depth();
        proof {
            assert(w > 0 && d > 0 && grid.spec_height() > 0) by (nonlinear_arith)
                requires
                    n < w * d * grid.spec_height(),
                    0 <= n,
            ;
            lemma_coords_of_cell_index(
                w as int,
                d as int,
                grid.spec_height() as int,
                n as int,
            );
            assert((w as int) * (d as int) <= 0xffff_ffff * 0xffff_ffff) by (nonlinear_arith)
                requires
                    w <= 0xffff_ffff,
                    d <= 0xffff_ffff,
            ;
        }
        let n64 = n as u64;
        let wd: u64 = (w as u64) * (d as u64);
        proof {
            assert(wd > 0) by (nonlinear_arith)
                requires
                    wd == (w as u64) * (d as u64),
                    w >= 1,
                    d >= 1,
            ;
        }
        let x = (n64 % (w as u64)) as u32;
        let y = ((n64 / (w as u64)) % (d as u64)) as u32;
        let z = (n64 / wd) as u32;
        let dst = grid.get_mut(x, y, z);
        *dst = v;
    }
}

} // verus!
