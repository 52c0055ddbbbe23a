//! Encoding a voxel grid into the MagicaVoxel `.vox` chunked binary format.
//!
//! The output is a 4-byte format tag and a version number, followed by a
//! `MAIN` container chunk holding three children: `SIZE` (the three extents),
//! `XYZI` (a count and one position record per cell with nonzero alpha) and
//! `RGBA` (a 256-entry palette). Colors are palette-indexed in first-seen
//! order starting at index 1; index 0 is reserved and never emitted. All
//! multi-byte integers are little-endian, and every size field is computed
//! from the actual payload; `vox_encoding` below pins the output down to the
//! byte.

use crate::codec::Voxel;
use crate::grid::coords_of;
use crate::grid::Grid;
use vstd::bytes::spec_u32_to_le_bytes;
use vstd::prelude::*;

verus! {

broadcast use crate::codec::lemma_voxel_view_len;

/// The RGBA color of a voxel: the first 4 bytes of its record.
pub open spec fn rgba_of(v: Voxel) -> Seq<u8> {
    v@.subrange(0, 4)
}

/// The palette a cell sequence gives rise to: its distinct colors in
/// first-seen order. A color's position here, plus 1, is its palette index.
pub open spec fn palette_seq(cells: Seq<Voxel>) -> Seq<Seq<u8>>
    decreases cells.len(),
{
    if cells.len() == 0 {
        Seq::empty()
    } else {
        let prefix = palette_seq(cells.drop_last());
        let c = rgba_of(cells.last());
        if prefix.contains(c) {
            prefix
        } else {
            prefix.push(c)
        }
    }
}

/// How many position records the encoder emits: one per cell whose alpha is
/// nonzero.
pub open spec fn emitted_count(cells: Seq<Voxel>) -> nat
    decreases cells.len(),
{
    if cells.len() == 0 {
        0
    } else {
        emitted_count(cells.drop_last()) + if rgba_of(cells.last())[3] > 0 {
            1nat
        } else {
            0nat
        }
    }
}

/// One `XYZI` position record: the coordinate of buffer slot `n`, each
/// component truncated to 8 bits, then the cell's palette index.
pub open spec fn record_bytes(w: int, d: int, n: int, idx: int) -> Seq<u8> {
    let (x, y, z) = coords_of(w, d, n);
    seq![(x % 256) as u8, (y % 256) as u8, (z % 256) as u8, (idx % 256) as u8]
}

/// The concatenated position records of every nonzero-alpha cell, in buffer
/// order. Each record carries the 1-based position of its color in the
/// palette of the cells seen so far, which first-seen ordering keeps equal to
/// the color's position in the final palette.
pub open spec fn records_bytes(cells: Seq<Voxel>, w: int, d: int) -> Seq<u8>
    decreases cells.len(),
{
    if cells.len() == 0 {
        Seq::empty()
    } else {
        let prefix = records_bytes(cells.drop_last(), w, d);
        let v = cells.last();
        if rgba_of(v)[3] > 0 {
            prefix + record_bytes(
                w,
                d,
                cells.len() - 1,
                palette_seq(cells).index_of(rgba_of(v)) + 1,
            )
        } else {
            prefix
        }
    }
}

/// The first `k` entries of the `RGBA` chunk content: 4 color bytes per
/// palette slot, all-zero for slots past the palette's end.
pub open spec fn palette_bytes_upto(pal: Seq<Seq<u8>>, k: int) -> Seq<u8> {
    Seq::new(
        (4 * k) as nat,
        |i: int|
            if i / 4 < pal.len() {
                pal[i / 4][i % 4]
            } else {
                0u8
            },
    )
}

/// The full `RGBA` chunk content: 256 four-byte entries.
pub open spec fn palette_bytes(pal: Seq<Seq<u8>>) -> Seq<u8> {
    palette_bytes_upto(pal, 256)
}

/// The complete `.vox` byte image of a grid with extents `w`, `d`, `h` and
/// the given cells: format tag, version 150, and the `MAIN` chunk with its
/// `SIZE`, `XYZI` and `RGBA` children. The `MAIN` child size counts the three
/// child headers (36 bytes) plus their contents (12, 4 plus 4 per record, and
/// 1024 bytes), which is 1076 plus 4 per record.
pub open spec fn vox_encoding(w: u32, d: u32, h: u32, cells: Seq<Voxel>) -> Seq<u8> {
    let count = emitted_count(cells);
    seq![86u8, 79u8, 88u8, 32u8]  // "VOX "
     + spec_u32_to_le_bytes(150) + seq![77u8, 65u8, 73u8, 78u8]  // "MAIN"
     + spec_u32_to_le_bytes(0) + spec_u32_to_le_bytes(((1076 + 4 * count) as u32)) + seq![
        83u8,
        73u8,
        90u8,
        69u8,
    ]  // "SIZE"
     + spec_u32_to_le_bytes(12) + spec_u32_to_le_bytes(0) + spec_u32_to_le_bytes(w)
        + spec_u32_to_le_bytes(d) + spec_u32_to_le_bytes(h) + seq![88u8, 89u8, 90u8, 73u8]  // "XYZI"
     + spec_u32_to_le_bytes(((4 + 4 * count) as u32)) + spec_u32_to_le_bytes(0)
        + spec_u32_to_le_bytes((count as u32)) + records_bytes(cells, w as int, d as int) + seq![
        82u8,
        71u8,
        66u8,
        65u8,
    ]  // "RGBA"
     + spec_u32_to_le_bytes(1024) + spec_u32_to_le_bytes(0) + palette_bytes(palette_seq(cells))
}

/// Every palette entry is a 4-byte color.
pub proof fn lemma_palette_entry_len(cells: Seq<Voxel>)
    ensures
        forall|i: int|
            0 <= i < palette_seq(cells).len() ==> (#[trigger] palette_seq(cells)[i]).len() == 4,
    decreases cells.len(),
{
    if cells.len() > 0 {
        lemma_palette_entry_len(cells.drop_last());
        let prefix = palette_seq(cells.drop_last());
        let c = rgba_of(cells.last());
        assert(c.len() == 4);
        if !prefix.contains(c) {
            assert(palette_seq(cells) == prefix.push(c));
            assert forall|i: int|
                0 <= i < palette_seq(cells).len() implies (#[trigger] palette_seq(
                cells,
            )[i]).len() == 4 by {
                if i < prefix.len() {
                    assert(palette_seq(cells)[i] == prefix[i]);
                } else {
                    assert(palette_seq(cells)[i] == c);
                }
            }
        }
    }
}

/// Palette entries are pairwise distinct: a color is inserted only on its
/// first occurrence.
pub proof fn lemma_palette_distinct(cells: Seq<Voxel>)
    ensures
        forall|i: int, j: int|
            0 <= i < j < palette_seq(cells).len() ==> palette_seq(cells)[i] != palette_seq(
                cells,
            )[j],
    decreases cells.len(),
{
    if cells.len() > 0 {
        lemma_palette_distinct(cells.drop_last());
        let prefix = palette_seq(cells.drop_last());
        let c = rgba_of(cells.last());
        if !prefix.contains(c) {
            assert(palette_seq(cells) == prefix.push(c));
            assert forall|i: int, j: int|
                0 <= i < j < palette_seq(cells).len() implies palette_seq(cells)[i] != palette_seq(
                cells,
            )[j] by {
                if j == prefix.len() {
                    assert(palette_seq(cells)[i] == prefix[i]);
                    assert(palette_seq(cells)[j] == c);
                    if prefix[i] == c {
                        assert(prefix.contains(c));
                    }
                }
            }
        }
    }
}

/// The palette of a prefix is never longer than the palette of the whole.
pub proof fn lemma_palette_take_len(cells: Seq<Voxel>, n: int)
    requires
        0 <= n <= cells.len(),
    ensures
        palette_seq(cells.take(n)).len() <= palette_seq(cells).len(),
    decreases cells.len() - n,
{
    if n == cells.len() {
        assert(cells.take(n) =~= cells);
    } else {
        lemma_palette_take_len(cells, n + 1);
        assert(cells.take(n + 1).drop_last() =~= cells.take(n));
    }
}

/// No more records are emitted than there are cells.
pub proof fn lemma_emitted_count_bound(cells: Seq<Voxel>)
    ensures
        emitted_count(cells) <= cells.len(),
    decreases cells.len(),
{
    if cells.len() > 0 {
        lemma_emitted_count_bound(cells.drop_last());
    }
}

/// Appends the four given bytes to `out`.
fn push4(out: &mut Vec<u8>, a: u8, b: u8, c: u8, d: u8)
    ensures
        final(out)@ == old(out)@ + seq![a, b, c, d],
{
    out.push(a);
    out.push(b);
    out.push(c);
    out.push(d);
    proof {
        assert(out@ =~= old(out)@ + seq![a, b, c, d]);
    }
}

/// Appends the little-endian image of `v` to `out`.
fn push_u32(out: &mut Vec<u8>, v: u32)
    ensures
        final(out)@ == old(out)@ + spec_u32_to_le_bytes(v),
{
    let mut b = vstd::bytes::u32_to_le_bytes(v);
    out.append(&mut b);
}

/// Serializes a voxel grid into the `.vox` byte format, exactly as
/// `vox_encoding` lays it out. The output is built in memory, so nothing can
/// fail along the way; the format itself bounds what the grid may hold: at
/// most 255 distinct colors (index 0 is reserved), and few enough cells for
/// the chunk size fields to fit 32 bits. Extents beyond 256 are not rejected;
/// position bytes simply wrap, as the format's users expect.
pub fn encode(grid: &Grid<Voxel>) -> (r: Vec<u8>)
    requires
        grid.wf(),
        palette_seq(grid.cells_seq()).len() <= 255,
        1076 + 4 * grid.cells_seq().len() <= u32::MAX,
    ensures
        r@ == vox_encoding(
            grid.spec_width(),
            grid.spec_depth(),
            grid.spec_height(),
            grid.cells_seq(),
        ),
{
    let ghost cells = grid.cells_seq();
    let ghost wi = grid.spec_width() as int;
    let ghost di = grid.spec_depth() as int;

    let mut palette: Vec<[u8; 4]> = Vec::new();
    let mut xyzis: Vec<u8> = Vec::new();
    let mut voxel_count: u32 = 0;
    let total = grid.cell_count();
    let mut it = grid.enumerate_cells();
    let mut n: usize = 0;
    proof {
        assert(cells.take(0) =~= Seq::<Voxel>::empty());
    }
    while n < total
        invariant
            grid.wf(),
            wi == grid.spec_width() as int,
            di == grid.spec_depth() as int,
            cells == grid.cells_seq(),
            total == cells.len(),
            palette_seq(cells).len() <= 255,
            1076 + 4 * cells.len() <= u32::MAX,
            it.spec_pos() == n,
            n <= total,
            palette@.map_values(|e: [u8; 4]| e@) == palette_seq(cells.take(n as int)),
            xyzis@ == records_bytes(cells.take(n as int), wi, di),
            voxel_count == emitted_count(cells.take(n as int)),
            voxel_count <= n,
        decreases total - n,
    {
        let item = it.next(grid);
        match item {
            None => {
                proof {
                    assert(false);
                }
            },
            Some((x, y, z, v)) => {
                let ghost prefix = cells.take(n as int);
                let ghost prefix1 = cells.take(n as int + 1);
                proof {
                    assert(prefix1.drop_last() =~= prefix);
                    assert(prefix1.last() == cells[n as int]);
                    lemma_palette_take_len(cells, n as int);
                    lemma_palette_take_len(cells, n as int + 1);
                    lemma_palette_distinct(prefix1);
                }
                let rgba = v.as_rgba();
                let mut i: usize = 0;
                let mut found: bool = false;
                let mut found_i: usize = 0;
                while i < palette.len()
                    invariant
                        rgba@.len() == 4,
                        palette@.map_values(|e: [u8; 4]| e@) == palette_seq(prefix),
                        i <= palette.len(),
                        !found ==> forall|k: int| 0 <= k < i ==> palette@[k]@ != rgba@,
                        found ==> found_i < palette@.len() && palette@[found_i as int]@ == rgba@,
                    decreases palette.len() - i,
                {
                    if !found {
                        let pr = palette[i];
                        if pr[0] == rgba[0] && pr[1] == rgba[1] && pr[2] == rgba[2] && pr[3]
                            == rgba[3] {
                            proof {
                                assert(palette@[i as int]@ =~= rgba@);
                            }
                            found = true;
                            found_i = i;
                        } else {
                            proof {
                                assert(palette@[i as int]@ != rgba@) by {
                                    if palette@[i as int]@ == rgba@ {
                                        assert(pr@ == palette@[i as int]@);
                                        assert(pr@[0] == rgba@[0] && pr@[1] == rgba@[1] && pr@[2]
                                            == rgba@[2] && pr@[3] == rgba@[3]);
                                    }
                                }
                            }
                        }
                    }
                    i = i + 1;
                }
                proof {
                    if found {
                        assert(palette_seq(prefix)[found_i as int] == palette@[found_i as int]@);
                        assert(palette_seq(prefix).contains(rgba@));
                        assert(palette_seq(prefix1) == palette_seq(prefix));
                    } else {
                        if palette_seq(prefix).contains(rgba@) {
                            let k = choose|k: int|
                                0 <= k < palette_seq(prefix).len() && palette_seq(prefix)[k]
                                    == rgba@;
                            assert(palette@[k]@ == rgba@);
                        }
                        assert(!palette_seq(prefix).contains(rgba@));
                        assert(palette_seq(prefix1) == palette_seq(prefix).push(rgba@));
                    }
                }
                let idx_byte: u8;
                if found {
                    idx_byte = (found_i + 1) as u8;
                    proof {
                        lemma_index_of_distinct(palette_seq(prefix1), rgba@, found_i as int);
                    }
                } else {
                    let ghost old_len = palette@.len();
                    palette.push(rgba);
                    idx_byte = palette.len() as u8;
                    proof {
                        assert(palette@.map_values(|e: [u8; 4]| e@) =~= palette_seq(prefix).push(
                            rgba@,
                        ));
                        lemma_index_of_distinct(palette_seq(prefix1), rgba@, old_len as int);
                    }
                }
                if rgba[3] > 0 {
                    push4(
                        &mut xyzis,
                        (x % 256) as u8,
                        (y % 256) as u8,
                        (z % 256) as u8,
                        idx_byte,
                    );
                    voxel_count = voxel_count + 1;
                }
                proof {
                    assert(rgba@ == rgba_of(prefix1.last()));
                    assert(coords_of(wi, di, n as int) == (x as int, y as int, z as int));
                    let idx = palette_seq(prefix1).index_of(rgba_of(prefix1.last())) + 1;
                    assert(idx == idx_byte as int);
                    if rgba_of(prefix1.last())[3] > 0 {
                        assert(record_bytes(wi, di, n as int, idx) =~= seq![
                            ((x as int) % 256) as u8,
                            ((y as int) % 256) as u8,
                            ((z as int) % 256) as u8,
                            idx_byte,
                        ]);
                        assert(xyzis@ == records_bytes(prefix1, wi, di));
                    } else {
                        assert(records_bytes(prefix1, wi, di) == records_bytes(prefix, wi, di));
                    }
                    assert(voxel_count == emitted_count(prefix1));
                }
            },
        }
        n = n + 1;
    }
    proof {
        assert(cells.take(total as int) =~= cells);
        lemma_emitted_count_bound(cells);
        lemma_palette_entry_len(cells);
    }
    let width = grid.width();
    let depth = grid.depth();
    let height = grid.height();
    let xyzi_chunk_size: u32 = 4 + 4 * voxel_count;
    let main_child_size: u32 = 1076 + 4 * voxel_count;

    let mut out: Vec<u8> = Vec::new();
    push4(&mut out, 86, 79, 88, 32);  // "VOX "
    push_u32(&mut out, 150);
    push4(&mut out, 77, 65, 73, 78);  // "MAIN"
    push_u32(&mut out, 0);
    push_u32(&mut out, main_child_size);
    push4(&mut out, 83, 73, 90, 69);  // "SIZE"
    push_u32(&mut out, 12);
    push_u32(&mut out, 0);
    push_u32(&mut out, width);
    push_u32(&mut out, depth);
    push_u32(&mut out, height);
    push4(&mut out, 88, 89, 90, 73);  // "XYZI"
    push_u32(&mut out, xyzi_chunk_size);
    push_u32(&mut out, 0);
    push_u32(&mut out, voxel_count);
    out.append(&mut xyzis);
    push4(&mut out, 82, 71, 66, 65);  // "RGBA"
    push_u32(&mut out, 1024);
    push_u32(&mut out, 0);

    let ghost pal_view = palette_seq(cells);
    let ghost base = out@;
    proof {
        assert(base + palette_bytes_upto(pal_view, 0) =~= base);
    }
    let mut j: usize = 0;
    while j < 256
        invariant
            j <= 256,
            palette@.map_values(|e: [u8; 4]| e@) == pal_view,
            pal_view.len() <= 255,
            forall|k: int| 0 <= k < pal_view.len() ==> (#[trigger] pal_view[k]).len() == 4,
            out@ == base + palette_bytes_upto(pal_view, j as int),
        decreases 256 - j,
    {
        let entry: [u8; 4] = if j < palette.len() {
            palette[j]
        } else {
            [0, 0, 0, 0]
        };
        push4(&mut out, entry[0], entry[1], entry[2], entry[3]);
        proof {
            let ji = j as int;
            vstd::arithmetic::div_mod::lemma_fundamental_div_mod_converse(4 * ji, 4, ji, 0);
            vstd::arithmetic::div_mod::lemma_fundamental_div_mod_converse(4 * ji + 1, 4, ji, 1);
            vstd::arithmetic::div_mod::lemma_fundamental_div_mod_converse(4 * ji + 2, 4, ji, 2);
            vstd::arithmetic::div_mod::lemma_fundamental_div_mod_converse(4 * ji + 3, 4, ji, 3);
            assert(palette_bytes_upto(pal_view, ji + 1) =~= palette_bytes_upto(pal_view, ji)
                + seq![entry@[0], entry@[1], entry@[2], entry@[3]]);
            assert(out@ =~= base + palette_bytes_upto(pal_view, ji + 1));
        }
        j = j + 1;
    }
    proof {
        assert(palette_bytes_upto(pal_view, 256) == palette_bytes(pal_view));
        assert(out@ == vox_encoding(
            grid.spec_width(),
            grid.spec_depth(),
            grid.spec_height(),
            cells,
        ));
    }
    out
}

/// In a pairwise-distinct sequence, `index_of` returns the one position that
/// holds the needle.
pub proof fn lemma_index_of_distinct(pal: Seq<Seq<u8>>, c: Seq<u8>, i: int)
    requires
        forall|a: int, b: int| 0 <= a < b < pal.len() ==> pal[a] != pal[b],
        0 <= i < pal.len(),
        pal[i] == c,
    ensures
        pal.index_of(c) == i,
{
    assert(exists|k: int| 0 <= k < pal.len() && pal[k] == c);
    let j = pal.index_of(c);
    assert(0 <= j < pal.len() && pal[j] == c);
    if j < i {
        assert(pal[j] != pal[i]);
    } else if i < j {
        assert(pal[i] != pal[j]);
    }
}

} // verus!
