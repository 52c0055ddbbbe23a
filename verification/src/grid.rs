//! A dense three-dimensional grid: a flat buffer of fixed-width cells
//! addressed by `(x, y, z)` coordinates through the `Codec` capability.
//!
//! Cell `(x, y, z)` lives at buffer index `x + y*width + z*width*depth`; that
//! mapping is a bijection between in-bounds coordinates and buffer slots,
//! proved below.

use crate::codec::Codec;
use vstd::arithmetic::div_mod::lemma_fundamental_div_mod_converse;
use vstd::prelude::*;

verus! {

/// The buffer index of coordinate `(x, y, z)` in a grid of extents
/// `w` (width) and `d` (depth): x runs fastest, then y, then z.
pub open spec fn cell_index_math(w: int, d: int, x: int, y: int, z: int) -> int {
    x + y * w + z * w * d
}

/// The coordinate addressing the `n`-th buffer slot of a grid of extents
/// `w` and `d`: the inverse of `cell_index_math`.
pub open spec fn coords_of(w: int, d: int, n: int) -> (int, int, int) {
    (n % w, (n / w) % d, n / (w * d))
}

/// The all-zero byte window of width `n`: the image of a freshly created cell.
pub open spec fn zero_bytes(n: nat) -> Seq<u8> {
    Seq::new(n, |i: int| 0u8)
}

/// Every in-bounds coordinate maps into the buffer, and the partial sums of
/// the index formula stay below the cell count on the way there.
pub proof fn lemma_cell_index_bound(w: int, d: int, h: int, x: int, y: int, z: int)
    by (nonlinear_arith)
    requires
        0 <= x < w,
        0 <= y < d,
        0 <= z < h,
    ensures
        0 <= cell_index_math(w, d, x, y, z) < w * d * h,
        y * w < w * d,
        z * (w * d) < w * d * h,
{
}

/// No two distinct in-bounds coordinates share a buffer index.
pub proof fn lemma_cell_index_injective(
    w: int,
    d: int,
    h: int,
    x1: int,
    y1: int,
    z1: int,
    x2: int,
    y2: int,
    z2: int,
)
    requires
        0 <= x1 < w,
        0 <= y1 < d,
        0 <= z1 < h,
        0 <= x2 < w,
        0 <= y2 < d,
        0 <= z2 < h,
        cell_index_math(w, d, x1, y1, z1) == cell_index_math(w, d, x2, y2, z2),
    ensures
        x1 == x2,
        y1 == y2,
        z1 == z2,
{
    let n = cell_index_math(w, d, x1, y1, z1);
    assert(n == (y1 + d * z1) * w + x1) by (nonlinear_arith)
        requires
            n == cell_index_math(w, d, x1, y1, z1),
    ;
    assert(n == (y2 + d * z2) * w + x2) by (nonlinear_arith)
        requires
            n == cell_index_math(w, d, x2, y2, z2),
    ;
    lemma_fundamental_div_mod_converse(n, w, y1 + d * z1, x1);
    lemma_fundamental_div_mod_converse(n, w, y2 + d * z2, x2);
    let m = y1 + d * z1;
    assert(m == z1 * d + y1) by (nonlinear_arith)
        requires
            m == y1 + d * z1,
    ;
    assert(m == z2 * d + y2) by (nonlinear_arith)
        requires
            m == y2 + d * z2,
    ;
    lemma_fundamental_div_mod_converse(m, d, z1, y1);
    lemma_fundamental_div_mod_converse(m, d, z2, y2);
}

/// The coordinate recovered from a buffer slot is in bounds and maps back to
/// that slot: together with `lemma_cell_index_injective`, the index formula
/// is a bijection between in-bounds coordinates and buffer slots.
pub proof fn lemma_coords_of_cell_index(w: int, d: int, h: int, n: int)
    requires
        0 <= n < w * d * h,
        0 < w,
        0 < d,
        0 < h,
    ensures
        ({
            let (x, y, z) = coords_of(w, d, n);
            &&& 0 <= x < w
            &&& 0 <= y < d
            &&& 0 <= z < h
            &&& cell_index_math(w, d, x, y, z) == n
        }),
{
    let x = n % w;
    let q = n / w;
    let y = q % d;
    let z = q / d;
    vstd::arithmetic::div_mod::lemma_fundamental_div_mod(n, w);
    vstd::arithmetic::div_mod::lemma_mod_bound(n, w);
    vstd::arithmetic::div_mod::lemma_fundamental_div_mod(q, d);
    vstd::arithmetic::div_mod::lemma_mod_bound(q, d);
    assert(n == x + y * w + (z * d) * w) by (nonlinear_arith)
        requires
            n == w * q + x,
            q == d * z + y,
    ;
    assert(z * d * w == z * (w * d)) by (nonlinear_arith);
    // z == n / (w * d)
    assert(n == z * (w * d) + (x + y * w));
    assert(0 <= x + y * w < w * d) by (nonlinear_arith)
        requires
            0 <= x < w,
            0 <= y < d,
    ;
    assert(0 < w * d) by (nonlinear_arith)
        requires
            0 < w,
            0 < d,
    ;
    lemma_fundamental_div_mod_converse(n, w * d, z, x + y * w);
    // z < h
    assert(z < h) by (nonlinear_arith)
        requires
            n == z * (w * d) + (x + y * w),
            n < w * d * h,
            0 <= x + y * w,
            0 < w * d,
    ;
    assert(x + y * w + z * w * d == x + y * w + (z * d) * w) by (nonlinear_arith);
}

/// The index formula and the coordinate recovery invert each other in the
/// other direction too: recovering the coordinate of a coordinate's own
/// buffer slot gives that coordinate back.
pub proof fn lemma_coords_of_inverse(w: int, d: int, h: int, x: int, y: int, z: int)
    requires
        0 <= x < w,
        0 <= y < d,
        0 <= z < h,
    ensures
        coords_of(w, d, cell_index_math(w, d, x, y, z)) == (x, y, z),
{
    let n = cell_index_math(w, d, x, y, z);
    lemma_cell_index_bound(w, d, h, x, y, z);
    lemma_coords_of_cell_index(w, d, h, n);
    let (x2, y2, z2) = coords_of(w, d, n);
    lemma_cell_index_injective(w, d, h, x2, y2, z2, x, y, z);
}

/// Distinct in-bounds coordinates own disjoint byte windows of width `s` in
/// the backing buffer: the window of the smaller index ends at or before the
/// window of the larger one begins.
pub proof fn lemma_byte_windows_disjoint(
    w: int,
    d: int,
    h: int,
    s: int,
    x1: int,
    y1: int,
    z1: int,
    x2: int,
    y2: int,
    z2: int,
)
    requires
        0 <= x1 < w,
        0 <= y1 < d,
        0 <= z1 < h,
        0 <= x2 < w,
        0 <= y2 < d,
        0 <= z2 < h,
        (x1, y1, z1) != (x2, y2, z2),
        0 < s,
    ensures
        cell_index_math(w, d, x1, y1, z1) * s + s <= cell_index_math(w, d, x2, y2, z2) * s
            || cell_index_math(w, d, x2, y2, z2) * s + s <= cell_index_math(w, d, x1, y1, z1) * s,
{
    let n1 = cell_index_math(w, d, x1, y1, z1);
    let n2 = cell_index_math(w, d, x2, y2, z2);
    if n1 == n2 {
        lemma_cell_index_injective(w, d, h, x1, y1, z1, x2, y2, z2);
        assert(false);
    }
    assert(n1 * s + s <= n2 * s || n2 * s + s <= n1 * s) by (nonlinear_arith)
        requires
            n1 != n2,
            0 < s,
    ;
}

/// A dense grid of `width * depth * height` cells of type `T`, stored as one
/// flat buffer in x-fastest order. Extents are fixed at construction.
pub struct Grid<T> {
    width: u32,
    depth: u32,
    height: u32,
    cells: Vec<T>,
}

impl<T: Codec + Copy> Grid<T> {
    /// The x extent.
    pub closed spec fn spec_width(&self) -> u32 {
        self.width
    }

    /// The y extent.
    pub closed spec fn spec_depth(&self) -> u32 {
        self.depth
    }

    /// The z extent.
    pub closed spec fn spec_height(&self) -> u32 {
        self.height
    }

    /// The cells of the backing buffer, in x-fastest order.
    pub closed spec fn cells_seq(&self) -> Seq<T> {
        self.cells@
    }

    /// Well-formedness: the buffer holds exactly one cell per coordinate, and
    /// the buffer's byte size fits the platform's addressable range.
    pub open spec fn wf(&self) -> bool {
        &&& self.cells_seq().len() == self.spec_width() * self.spec_depth() * self.spec_height()
        &&& self.spec_width() * self.spec_depth() * self.spec_height() * T::size_spec()
            <= usize::MAX
    }

    /// Whether each coordinate lies below its extent.
    pub open spec fn in_bounds(&self, x: u32, y: u32, z: u32) -> bool {
        x < self.spec_width() && y < self.spec_depth() && z < self.spec_height()
    }

    /// The buffer index of coordinate `(x, y, z)`.
    pub open spec fn cell_index(&self, x: u32, y: u32, z: u32) -> int {
        cell_index_math(
            self.spec_width() as int,
            self.spec_depth() as int,
            x as int,
            y as int,
            z as int,
        )
    }

    /// The cell stored at coordinate `(x, y, z)`.
    pub open spec fn cell(&self, x: u32, y: u32, z: u32) -> T {
        self.cells_seq()[self.cell_index(x, y, z)]
    }

    /// Builds a zero-filled grid, or returns `None` exactly when the byte
    /// size `width * depth * height * SIZE` overflows the platform's
    /// addressable range (no partial grid is ever returned).
    pub fn try_new(width: u32, depth: u32, height: u32) -> (r: Option<Grid<T>>)
        ensures
            match r {
                Some(g) => {
                    &&& width * depth * height * T::size_spec() <= usize::MAX
                    &&& g.spec_width() == width
                    &&& g.spec_depth() == depth
                    &&& g.spec_height() == height
                    &&& g.wf()
                    &&& forall|i: int|
                        0 <= i < g.cells_seq().len() ==> (#[trigger] g.cells_seq()[i]).encoded()
                            == zero_bytes(T::size_spec())
                },
                None => width * depth * height * T::size_spec() > usize::MAX,
            },
    {
        let size = T::size();
        proof {
            T::lemma_size();
        }
        let w128: u128 = width as u128;
        let d128: u128 = depth as u128;
        let h128: u128 = height as u128;
        proof {
            assert(w128 * d128 <= 0xffff_ffff * 0xffff_ffff) by (nonlinear_arith)
                requires
                    w128 <= 0xffff_ffff,
                    d128 <= 0xffff_ffff,
            ;
        }
        let wd128: u128 = w128 * d128;
        proof {
            assert(wd128 * h128 <= 0x1_0000_0000_0000_0000u128 * 0xffff_ffff) by (nonlinear_arith)
                requires
                    wd128 <= 0x1_0000_0000_0000_0000u128,
                    h128 <= 0xffff_ffff,
            ;
        }
        let count128: u128 = wd128 * h128;
        proof {
            assert(count128 * (size as u128) <= 0x1_0000_0000_0000_0000_0000_0000u128 * 0xff)
                by (nonlinear_arith)
                requires
                    count128 <= 0x1_0000_0000_0000_0000_0000_0000u128,
                    (size as u128) <= 0xff,
            ;
        }
        let bytes128: u128 = count128 * (size as u128);
        if bytes128 > usize::MAX as u128 {
            proof {
                assert(width * depth * height * T::size_spec() == bytes128) by (nonlinear_arith)
                    requires
                        wd128 == w128 * d128,
                        count128 == wd128 * h128,
                        bytes128 == count128 * (size as u128),
                        w128 == width,
                        d128 == depth,
                        h128 == height,
                        size as nat == T::size_spec(),
                ;
            }
            return None;
        }
        proof {
            assert(width * depth * height * T::size_spec() == bytes128) by (nonlinear_arith)
                requires
                    wd128 == w128 * d128,
                    count128 == wd128 * h128,
                    bytes128 == count128 * (size as u128),
                    w128 == width,
                    d128 == depth,
                    h128 == height,
                    size as nat == T::size_spec(),
            ;
            assert(count128 <= bytes128) by (nonlinear_arith)
                requires
                    bytes128 == count128 * (size as u128),
                    size >= 1,
            ;
            assert(count128 == width * depth * height) by (nonlinear_arith)
                requires
                    wd128 == w128 * d128,
                    count128 == wd128 * h128,
                    w128 == width,
                    d128 == depth,
                    h128 == height,
            ;
        }
        let count: usize = count128 as usize;

        let mut zeros: Vec<u8> = Vec::new();
        let mut i: usize = 0;
        while i < size as usize
            invariant
                i <= size as usize,
                zeros@ =~= zero_bytes(i as nat),
            decreases size as usize - i,
        {
            zeros.push(0);
            i = i + 1;
            proof {
                assert(zeros@ =~= zero_bytes(i as nat));
            }
        }
        let zero_cell = T::from_slice(zeros.as_slice());

        let mut cells: Vec<T> = Vec::new();
        let mut j: usize = 0;
        while j < count
            invariant
                j <= count,
                cells@.len() == j,
                forall|k: int| 0 <= k < j ==> cells@[k] == zero_cell,
            decreases count - j,
        {
            cells.push(zero_cell);
            j = j + 1;
        }
        Some(Grid { width, depth, height, cells })
    }

    /// Builds a zero-filled grid. The byte size must fit the platform's
    /// addressable range; `try_new` reports the overflow case instead.
    pub fn new(width: u32, depth: u32, height: u32) -> (g: Grid<T>)
        requires
            width * depth * height * T::size_spec() <= usize::MAX,
        ensures
            g.spec_width() == width,
            g.spec_depth() == depth,
            g.spec_height() == height,
            g.wf(),
            forall|i: int|
                0 <= i < g.cells_seq().len() ==> (#[trigger] g.cells_seq()[i]).encoded()
                    == zero_bytes(T::size_spec()),
    {
        let r = Self::try_new(width, depth, height);
        match r {
            Some(g) => g,
            None => {
                proof {
                    assert(false);
                }
                vstd::pervasive::unreached()
            },
        }
    }

    /// The x extent.
    pub fn width(&self) -> (r: u32)
        ensures
            r == self.spec_width(),
    {
        self.width
    }

    /// The y extent.
    pub fn depth(&self) -> (r: u32)
        ensures
            r == self.spec_depth(),
    {
        self.depth
    }

    /// The z extent.
    pub fn height(&self) -> (r: u32)
        ensures
            r == self.spec_height(),
    {
        self.height
    }

    /// The number of cells, `width * depth * height`, always equal to the
    /// buffer's capacity in cells.
    pub fn cell_count(&self) -> (r: usize)
        requires
            self.wf(),
        ensures
            r == self.spec_width() * self.spec_depth() * self.spec_height(),
    {
        self.cells.len()
    }

    /// The buffer position of an in-bounds coordinate, as a runtime value.
    fn offset_of(&self, x: u32, y: u32, z: u32) -> (r: usize)
        requires
            self.wf(),
            self.in_bounds(x, y, z),
        ensures
            r == self.cell_index(x, y, z),
            r < self.cells_seq().len(),
    {
        proof {
            T::lemma_size();
            lemma_cell_index_bound(
                self.spec_width() as int,
                self.spec_depth() as int,
                self.spec_height() as int,
                x as int,
                y as int,
                z as int,
            );
            assert(self.spec_width() * self.spec_depth() * self.spec_height() <= self.spec_width()
                * self.spec_depth() * self.spec_height() * T::size_spec()) by (nonlinear_arith)
                requires
                    T::size_spec() >= 1,
                    self.spec_width() >= 0,
                    self.spec_depth() >= 0,
                    self.spec_height() >= 0,
            ;
            assert((self.spec_width() as int) * (self.spec_depth() as int) <= 0xffff_ffff
                * 0xffff_ffff) by (nonlinear_arith)
                requires
                    self.spec_width() <= 0xffff_ffff,
                    self.spec_depth() <= 0xffff_ffff,
            ;
            assert((z as int) * ((self.spec_width() as int) * (self.spec_depth() as int)) == (
            z as int) * (self.spec_width() as int) * (self.spec_depth() as int))
                by (nonlinear_arith);
        }
        let w = self.width as u64;
        let d = self.depth as u64;
        let wd: u64 = w * d;
        let idx: u64 = x as u64 + (y as u64) * w + (z as u64) * wd;
        idx as usize
    }

    /// A shared view of the cell at `(x, y, z)`. The coordinate must be in
    /// bounds; `in_bounds` tells a caller which are.
    pub fn get(&self, x: u32, y: u32, z: u32) -> (r: &T)
        requires
            self.wf(),
            self.in_bounds(x, y, z),
        ensures
            *r == self.cell(x, y, z),
    {
        let idx = self.offset_of(x, y, z);
        &self.cells[idx]
    }

    /// An exclusive view of the cell at `(x, y, z)`: writing through it
    /// updates exactly that buffer slot. The coordinate must be in bounds.
    pub fn get_mut(&mut self, x: u32, y: u32, z: u32) -> (r: &mut T)
        requires
            old(self).wf(),
            old(self).in_bounds(x, y, z),
        ensures
            *r == old(self).cell(x, y, z),
            final(self).spec_width() == old(self).spec_width(),
            final(self).spec_depth() == old(self).spec_depth(),
            final(self).spec_height() == old(self).spec_height(),
            final(self).cells_seq() == old(self).cells_seq().update(
                old(self).cell_index(x, y, z),
                *final(r),
            ),
            final(self).wf(),
    {
        let idx = self.offset_of(x, y, z);
        &mut self.cells[idx]
    }
}

/// Round-trip addressing: writing a cell through its buffer index and reading
/// the same coordinate back returns the written value, and every other
/// in-bounds coordinate still reads its old value.
pub proof fn lemma_write_read<T: Codec + Copy>(
    g0: Grid<T>,
    g1: Grid<T>,
    x: u32,
    y: u32,
    z: u32,
    v: T,
)
    requires
        g0.wf(),
        g0.in_bounds(x, y, z),
        g1.spec_width() == g0.spec_width(),
        g1.spec_depth() == g0.spec_depth(),
        g1.spec_height() == g0.spec_height(),
        g1.cells_seq() == g0.cells_seq().update(g0.cell_index(x, y, z), v),
    ensures
        g1.cell(x, y, z) == v,
        forall|x2: u32, y2: u32, z2: u32|
            g0.in_bounds(x2, y2, z2) && (x2, y2, z2) != (x, y, z) ==> #[trigger] g1.cell(
                x2,
                y2,
                z2,
            ) == g0.cell(x2, y2, z2),
{
    let w = g0.spec_width() as int;
    let d = g0.spec_depth() as int;
    let h = g0.spec_height() as int;
    lemma_cell_index_bound(w, d, h, x as int, y as int, z as int);
    assert forall|x2: u32, y2: u32, z2: u32|
        g0.in_bounds(x2, y2, z2) && (x2, y2, z2) != (x, y, z) implies #[trigger] g1.cell(
        x2,
        y2,
        z2,
    ) == g0.cell(x2, y2, z2) by {
        lemma_cell_index_bound(w, d, h, x2 as int, y2 as int, z2 as int);
        if g1.cell_index(x2, y2, z2) == g0.cell_index(x, y, z) {
            lemma_cell_index_injective(
                w,
                d,
                h,
                x2 as int,
                y2 as int,
                z2 as int,
                x as int,
                y as int,
                z as int,
            );
        }
    }
}

} // verus!
