//! Index layout of the projected ocean grid.
//!
//! The grid has `resolution` rows of `resolution` vertices, stored row by
//! row. Each square cell between four neighbouring vertices is drawn as two
//! counter-clockwise triangles.

use vstd::prelude::*;

verus! {

/// Vertex indices of the two triangles of the cell whose top-left vertex is
/// in column `i` of row `j`: top-left, bottom-left, top-right, then
/// top-right, bottom-left, bottom-right.
pub open spec fn cell_indices(resolution: nat, i: nat, j: nat) -> Seq<u32> {
    let top_left = (j * resolution + i) as u32;
    let top_right = (j * resolution + i + 1) as u32;
    let bottom_left = ((j + 1) * resolution + i) as u32;
    let bottom_right = ((j + 1) * resolution + i + 1) as u32;
    seq![top_left, bottom_left, top_right, top_right, bottom_left, bottom_right]
}

/// Position in the index list of the first index of the cell at column `i`
/// of row `j`, for a grid of `cells` cells a side.
pub open spec fn cell_offset(cells: nat, i: nat, j: nat) -> int {
    ((j * cells + i) * 6) as int
}

/// Triangle-list indices of a projected grid of `resolution` vertices a
/// side: six for each cell, cells row by row.
pub fn projected_grid_indices(resolution: u32) -> (r: Vec<u32>)
    requires
        resolution >= 1,
        resolution * resolution <= u32::MAX,
    ensures
        ({
            let cells = (resolution - 1) as nat;
            &&& r@.len() == cells * cells * 6
            &&& forall|i: nat, j: nat|
                i < cells && j < cells ==> #[trigger] cell_indices(resolution as nat, i, j)
                    == r@.subrange(cell_offset(cells, i, j), cell_offset(cells, i, j) + 6)
        }),
{
    let cells = resolution - 1;
    let ghost res = resolution as nat;
    let ghost w = cells as nat;
    let mut out: Vec<u32> = Vec::new();
    assert(0 * w * 6 == 0);
    for j in 0..cells
        invariant
            cells == resolution - 1,
            res == resolution,
            w == cells,
            resolution * resolution <= u32::MAX,
            out@.len() == j * w * 6,
            forall|ii: nat, jj: nat|
                ii < w && jj < j ==> #[trigger] cell_indices(res, ii, jj) == out@.subrange(
                    cell_offset(w, ii, jj),
                    cell_offset(w, ii, jj) + 6,
                ),
    {
        for i in 0..cells
            invariant
                cells == resolution - 1,
                res == resolution,
                w == cells,
                j < cells,
                resolution * resolution <= u32::MAX,
                out@.len() == (j * w + i) * 6,
                forall|ii: nat, jj: nat|
                    ii < w && (jj < j || (jj == j && ii < i)) ==> #[trigger] cell_indices(
                        res,
                        ii,
                        jj,
                    ) == out@.subrange(cell_offset(w, ii, jj), cell_offset(w, ii, jj) + 6),
        {
            assert((j + 1) * resolution + i + 1 <= resolution * resolution) by (nonlinear_arith)
                requires
                    j + 1 < resolution,
                    i + 1 < resolution,
            ;
            assert(j * resolution + i < (j + 1) * resolution + i) by (nonlinear_arith)
                requires
                    resolution >= 1,
            ;
            let top_left = j * resolution + i;
            let top_right = top_left + 1;
            let bottom_left = (j + 1) * resolution + i;
            let bottom_right = bottom_left + 1;
            let ghost before = out@;
            out.push(top_left);
            out.push(bottom_left);
            out.push(top_right);
            out.push(top_right);
            out.push(bottom_left);
            out.push(bottom_right);
            proof {
                let start = cell_offset(w, i as nat, j as nat);
                assert(start == before.len());
                assert(out@.subrange(start, start + 6) =~= cell_indices(res, i as nat, j as nat));
                assert forall|ii: nat, jj: nat|
                    ii < w && (jj < j || (jj == j && ii <= i)) implies #[trigger] cell_indices(
                        res,
                        ii,
                        jj,
                    ) == out@.subrange(cell_offset(w, ii, jj), cell_offset(w, ii, jj) + 6) by {
                    if jj < j || ii < i {
                        assert(jj * w + ii + 1 <= j * w + i) by (nonlinear_arith)
                            requires
                                ii < w,
                                jj < j || (jj == j && ii < i),
                        ;
                        assert(out@.subrange(cell_offset(w, ii, jj), cell_offset(w, ii, jj) + 6)
                            =~= before.subrange(
                            cell_offset(w, ii, jj),
                            cell_offset(w, ii, jj) + 6,
                        ));
                    }
                }
                assert((j * w + i + 1) * 6 == (j * w + i) * 6 + 6) by (nonlinear_arith);
            }
        }
        assert(j * w + w == (j + 1) * w) by (nonlinear_arith);
    }
    out
}

} // verus!
