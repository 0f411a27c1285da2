//! The grid of masks that tiles a target image.

use vstd::prelude::*;
use crate::engine::ProcessWrapper;
use vstd::arithmetic::div_mod::lemma_fundamental_div_mod_converse;

verus! {

/// A rectangle `(x, y, width, height)` in the pixel coordinates of the target image.
pub type Mask = (u32, u32, u32, u32);

/// Number of grid cells needed to span `extent` pixels with cells of side `size`.
pub open spec fn cells(extent: int, size: int) -> int {
    (extent + size - 1) / size
}

/// Length of the cell with number `k` along an axis of `extent` pixels: the
/// tile size, or what is left of the axis where that is less.
pub open spec fn span(extent: int, size: int, k: int) -> int {
    if extent - k * size < size {
        extent - k * size
    } else {
        size
    }
}

/// The mask in row `row` and column `col` of the grid.
pub open spec fn cell(size: u32, width: u32, height: u32, row: int, col: int) -> Mask {
    (
        (col * size) as u32,
        (row * size) as u32,
        span(width as int, size as int, col) as u32,
        span(height as int, size as int, row) as u32,
    )
}

/// The masks of an image of `width` by `height` pixels, row by row from the
/// top, and from left to right within a row.
pub open spec fn grid(size: u32, width: u32, height: u32) -> Seq<Mask> {
    let cols = cells(width as int, size as int);
    let rows = cells(height as int, size as int);
    Seq::new((rows * cols) as nat, |i: int| cell(size, width, height, i / cols, i % cols))
}

/// Whether the pixel `(px, py)` lies inside the mask `m`.
pub open spec fn covers(m: Mask, px: int, py: int) -> bool {
    m.0 <= px < m.0 + m.2 && m.1 <= py < m.1 + m.3
}

/// Position in the grid of the mask that holds the pixel `(px, py)`.
pub open spec fn cell_of(size: u32, width: u32, px: int, py: int) -> int {
    (py / (size as int)) * cells(width as int, size as int) + px / (size as int)
}

proof fn lemma_cells(extent: int, size: int, k: int)
    by (nonlinear_arith)
    requires
        size > 0,
        extent >= 0,
        k >= 0,
    ensures
        cells(extent, size) >= 0,
        k < cells(extent, size) <==> k * size < extent,
        (extent == 0) <==> (cells(extent, size) == 0),
{
}

pub(crate) proof fn lemma_cell_index(cols: int, row: int, col: int)
    requires
        cols > 0,
        0 <= col < cols,
        row >= 0,
    ensures
        (row * cols + col) / cols == row,
        (row * cols + col) % cols == col,
{
    assert(row * cols == cols * row) by (nonlinear_arith);
    lemma_fundamental_div_mod_converse(row * cols + col, cols, row, col);
}

pub(crate) proof fn lemma_index_cell(cols: int, rows: int, i: int)
    by (nonlinear_arith)
    requires
        cols > 0,
        rows >= 0,
        0 <= i < rows * cols,
    ensures
        0 <= i / cols < rows,
        0 <= i % cols < cols,
        i == (i / cols) * cols + i % cols,
{
}

proof fn lemma_in_cell(p: int, size: int, k: int)
    by (nonlinear_arith)
    requires
        size > 0,
        p >= 0,
        k >= 0,
    ensures
        (k * size <= p < k * size + size) <==> p / size == k,
{
}

/// Every mask of the grid is non-empty, no larger than the tile size in
/// either direction, and lies within the image.
pub proof fn lemma_masks_fit(size: u32, width: u32, height: u32, i: int)
    requires
        size > 0,
        0 <= i < grid(size, width, height).len(),
    ensures
        0 < grid(size, width, height)[i].2 <= size,
        0 < grid(size, width, height)[i].3 <= size,
        grid(size, width, height)[i].0 + grid(size, width, height)[i].2 <= width,
        grid(size, width, height)[i].1 + grid(size, width, height)[i].3 <= height,
        grid(size, width, height)[i].0 == (i % cells(width as int, size as int)) * size,
        grid(size, width, height)[i].1 == (i / cells(width as int, size as int)) * size,
{
    let cols = cells(width as int, size as int);
    let rows = cells(height as int, size as int);
    lemma_cells(width as int, size as int, 0);
    lemma_cells(height as int, size as int, 0);
    assert(cols > 0) by (nonlinear_arith)
        requires
            0 <= i < rows * cols,
            cols >= 0,
            rows >= 0,
    ;
    lemma_index_cell(cols, rows, i);
    lemma_cells(width as int, size as int, i % cols);
    lemma_cells(height as int, size as int, i / cols);
    assert((i % cols) * size >= 0) by (nonlinear_arith)
        requires
            i % cols >= 0,
            size > 0,
    ;
    assert((i / cols) * size >= 0) by (nonlinear_arith)
        requires
            i / cols >= 0,
            size > 0,
    ;
}

/// The masks tile the image: a pixel of the image lies in the mask at
/// position `cell_of(..)` of the grid and in no other, so the masks leave no
/// gap and no two of them overlap.
pub proof fn lemma_masks_tile(size: u32, width: u32, height: u32, px: int, py: int, i: int)
    requires
        size > 0,
        0 <= px < width,
        0 <= py < height,
        0 <= i < grid(size, width, height).len(),
    ensures
        0 <= cell_of(size, width, px, py) < grid(size, width, height).len(),
        covers(grid(size, width, height)[i], px, py) <==> i == cell_of(size, width, px, py),
{
    let cols = cells(width as int, size as int);
    let rows = cells(height as int, size as int);
    let s = size as int;
    lemma_masks_fit(size, width, height, i);
    lemma_cells(width as int, s, 0);
    lemma_cells(height as int, s, 0);
    lemma_index_cell(cols, rows, i);
    let r = i / cols;
    let c = i % cols;
    lemma_in_cell(px, s, c);
    lemma_in_cell(py, s, r);
    lemma_cells(width as int, s, c);
    lemma_cells(height as int, s, r);
    // the cell that holds the pixel is a cell of the grid
    let pr = py / s;
    let pc = px / s;
    lemma_in_cell(px, s, pc);
    lemma_in_cell(py, s, pr);
    assert(pc >= 0 && pr >= 0) by (nonlinear_arith)
        requires
            px >= 0,
            py >= 0,
            s > 0,
            pc == px / s,
            pr == py / s,
    ;
    lemma_cells(width as int, s, pc);
    lemma_cells(height as int, s, pr);
    assert(0 <= pr * cols + pc < rows * cols) by (nonlinear_arith)
        requires
            0 <= pr < rows,
            0 <= pc < cols,
    ;
    lemma_cell_index(cols, pr, pc);
    if i == pr * cols + pc {
        assert(r == pr && c == pc);
    }
    if r == pr && c == pc {
        assert(i == pr * cols + pc);
    }
}

impl ProcessWrapper {
    /// Cuts an image of `width` by `height` pixels into masks of side `size`,
    /// clipping the last column and the last row to what is left of the image.
    pub fn mask(size: u32, width: u32, height: u32) -> (masks: Vec<Mask>)
        requires
            size > 0,
        ensures
            masks@ == grid(size, width, height),
    {
        let ghost cols = cells(width as int, size as int);
        let ghost rows = cells(height as int, size as int);
        let mut masks: Vec<Mask> = Vec::new();
        let mut y: u32 = 0;
        let ghost mut row: int = 0;
        proof {
            lemma_cells(width as int, size as int, 0);
            lemma_cells(height as int, size as int, 0);
        }
        while y < height
            invariant
                size > 0,
                cols == cells(width as int, size as int),
                rows == cells(height as int, size as int),
                0 <= row <= rows,
                y < height ==> y == row * size,
                y >= height ==> y == height && row == rows,
                masks@.len() == row * cols,
                forall|i: int|
                    0 <= i < masks@.len() ==> masks@[i] == cell(size, width, height, i / cols, i % cols),
            decreases height - y,
        {
            let h: u32 = if height - y < size { height - y } else { size };
            let mut x: u32 = 0;
            let ghost mut col: int = 0;
            proof {
                lemma_cells(height as int, size as int, row);
                lemma_cells(height as int, size as int, row + 1);
                lemma_cells(width as int, size as int, 0);
                assert((row + 1) * size == row * size + size) by (nonlinear_arith);
            }
            while x < width
                invariant
                    size > 0,
                    cols == cells(width as int, size as int),
                    rows == cells(height as int, size as int),
                    0 <= row < rows,
                    y < height,
                    y == row * size,
                    h == span(height as int, size as int, row),
                    0 <= col <= cols,
                    x < width ==> x == col * size,
                    x >= width ==> x == width && col == cols,
                    masks@.len() == row * cols + col,
                    forall|i: int|
                        0 <= i < masks@.len() ==> masks@[i] == cell(
                            size,
                            width,
                            height,
                            i / cols,
                            i % cols,
                        ),
                decreases width - x,
            {
                let w: u32 = if width - x < size { width - x } else { size };
                proof {
                    lemma_cells(width as int, size as int, col);
                    lemma_cells(width as int, size as int, col + 1);
                    assert((col + 1) * size == col * size + size) by (nonlinear_arith);
                    lemma_cell_index(cols, row, col);
                }
                masks.push((x, y, w, h));
                x = x + w;
                proof {
                    col = col + 1;
                }
            }
            y = y + h;
            proof {
                assert((row + 1) * cols == row * cols + cols) by (nonlinear_arith);
                row = row + 1;
            }
        }
        proof {
            assert(masks@.len() == rows * cols);
            assert(masks@ =~= grid(size, width, height));
        }
        masks
    }
}

} // verus!
