//! The predefined ternary kernels.

use vstd::prelude::*;

use crate::matrix::{Grid, TernaryMatrix};

verus! {

/// The 3 x 3 edge detection kernel (a horizontal gradient).
pub open spec fn edge_detect_grid() -> Grid {
    Grid { rows: 3, cols: 3, cells: seq![1, 1, 1, 0, 0, 0, -1, -1, -1] }
}

/// The 3 x 3 cross-shaped blur kernel.
pub open spec fn blur_grid() -> Grid {
    Grid { rows: 3, cols: 3, cells: seq![0, 1, 0, 1, 0, 1, 0, 1, 0] }
}

/// The 3 x 3 sharpen kernel.
pub open spec fn sharpen_grid() -> Grid {
    Grid { rows: 3, cols: 3, cells: seq![0, -1, 0, -1, 1, -1, 0, -1, 0] }
}

/// The 3 x 3 emboss kernel (a diagonal difference).
pub open spec fn emboss_grid() -> Grid {
    Grid { rows: 3, cols: 3, cells: seq![-1, -1, 0, -1, 0, 1, 0, 1, 1] }
}

/// The 1 x 1 identity kernel.
pub open spec fn identity_grid() -> Grid {
    Grid { rows: 1, cols: 1, cells: seq![1] }
}

/// Ternary edge detection kernel (Sobel-like 3 x 3).
///
/// ```text
///  1  1  1
///  0  0  0
/// -1 -1 -1
/// ```
pub fn kernel_edge_detect() -> (k: TernaryMatrix)
    ensures
        k@.wf(),
        k@ == edge_detect_grid(),
{
    let k = TernaryMatrix::from_vec(3, 3, vec![1, 1, 1, 0, 0, 0, -1, -1, -1]);
    assert(k@.cells =~= edge_detect_grid().cells);
    k
}

/// Ternary blur kernel (3 x 3 box blur over the four neighbours).
///
/// ```text
///  0  1  0
///  1  0  1
///  0  1  0
/// ```
pub fn kernel_blur() -> (k: TernaryMatrix)
    ensures
        k@.wf(),
        k@ == blur_grid(),
{
    let k = TernaryMatrix::from_vec(3, 3, vec![0, 1, 0, 1, 0, 1, 0, 1, 0]);
    assert(k@.cells =~= blur_grid().cells);
    k
}

/// Ternary sharpen kernel.
///
/// ```text
///  0 -1  0
/// -1  1 -1
///  0 -1  0
/// ```
pub fn kernel_sharpen() -> (k: TernaryMatrix)
    ensures
        k@.wf(),
        k@ == sharpen_grid(),
{
    let k = TernaryMatrix::from_vec(3, 3, vec![0, -1, 0, -1, 1, -1, 0, -1, 0]);
    assert(k@.cells =~= sharpen_grid().cells);
    k
}

/// Ternary emboss kernel.
///
/// ```text
/// -1 -1  0
/// -1  0  1
///  0  1  1
/// ```
pub fn kernel_emboss() -> (k: TernaryMatrix)
    ensures
        k@.wf(),
        k@ == emboss_grid(),
{
    let k = TernaryMatrix::from_vec(3, 3, vec![-1, -1, 0, -1, 0, 1, 0, 1, 1]);
    assert(k@.cells =~= emboss_grid().cells);
    k
}

/// Identity kernel (1 x 1 with value 1).
pub fn kernel_identity() -> (k: TernaryMatrix)
    ensures
        k@.wf(),
        k@ == identity_grid(),
{
    let k = TernaryMatrix::from_vec(1, 1, vec![1]);
    assert(k@.cells =~= identity_grid().cells);
    k
}

} // verus!
