//! One- and two-dimensional ternary convolution in "same" mode: the output has
//! the shape of the input, the input is padded with zeros, every product is a
//! trit product and every output cell is the sign of its accumulated sum.

use vstd::prelude::*;

use crate::matrix::{Grid, TernaryMatrix, lemma_index_in_bounds};
use crate::trit::{is_trit, sign, trit_mul};

verus! {

// ---------------------------------------------------------------------------
// Specification
// ---------------------------------------------------------------------------

/// The term that kernel element `j` contributes to output `i` of a 1D convolution:
/// the product with the signal element it lies over, or 0 where it lies over padding.
pub open spec fn tap_1d(signal: Seq<i8>, kernel: Seq<i8>, i: int, j: int) -> int {
    let s = i - (kernel.len() / 2) as int + j;
    if 0 <= s < signal.len() {
        signal[s] * kernel[j]
    } else {
        0
    }
}

/// The sum of the terms of kernel elements `0 .. n` for output `i`.
pub open spec fn sum_1d(signal: Seq<i8>, kernel: Seq<i8>, i: int, n: int) -> int
    decreases n,
{
    if n <= 0 {
        0
    } else {
        sum_1d(signal, kernel, i, n - 1) + tap_1d(signal, kernel, i, n - 1)
    }
}

/// The 1D ternary convolution: output `i` is the sign of the sum over the whole kernel.
pub open spec fn conv1d_spec(signal: Seq<i8>, kernel: Seq<i8>) -> Seq<i8> {
    Seq::new(signal.len(), |i: int| sign(sum_1d(signal, kernel, i, kernel.len() as int)) as i8)
}

/// Every signal element and kernel element that the 1D convolution multiplies is a
/// trit. With a non-empty kernel every signal element is multiplied (by the centre of
/// the kernel); kernel element `j` is multiplied when its offset `j - kernel.len() / 2`
/// from the centre is less than the signal's length in size.
pub open spec fn conv1d_operands_are_trits(signal: Seq<i8>, kernel: Seq<i8>) -> bool {
    &&& kernel.len() > 0 ==> forall|s: int| 0 <= s < signal.len() ==> is_trit(#[trigger] signal[s] as int)
    &&& forall|j: int|
        0 <= j < kernel.len() && -signal.len() < j - ((kernel.len() / 2) as int) < signal.len()
            ==> is_trit(#[trigger] kernel[j] as int)
}

/// Every running sum of the 1D convolution, the sum over kernel elements `0 .. m` for
/// each output and each `m`, lies in the range of `i32`, the accumulator's type.
pub open spec fn conv1d_sums_fit_i32(signal: Seq<i8>, kernel: Seq<i8>) -> bool {
    forall|i: int, m: int|
        0 <= i < signal.len() && 0 <= m <= kernel.len() ==> i32::MIN <= #[trigger] sum_1d(
            signal,
            kernel,
            i,
            m,
        ) <= i32::MAX
}

/// The term that kernel cell `(ki, kj)` contributes to output cell `(i, j)` when the
/// kernel is spread by `dilation` and the window is shifted back by `(pad_r, pad_c)`.
pub open spec fn tap_2d(
    input: Grid,
    kernel: Grid,
    dilation: int,
    pad_r: int,
    pad_c: int,
    i: int,
    j: int,
    ki: int,
    kj: int,
) -> int {
    let si = i - pad_r + ki * dilation;
    let sj = j - pad_c + kj * dilation;
    if 0 <= si < input.rows && 0 <= sj < input.cols {
        input.at(si, sj) * kernel.at(ki, kj)
    } else {
        0
    }
}

/// The sum of the terms of kernel cells `(ki, 0 .. n)` for output cell `(i, j)`.
pub open spec fn row_sum_2d(
    input: Grid,
    kernel: Grid,
    dilation: int,
    pad_r: int,
    pad_c: int,
    i: int,
    j: int,
    ki: int,
    n: int,
) -> int
    decreases n,
{
    if n <= 0 {
        0
    } else {
        row_sum_2d(input, kernel, dilation, pad_r, pad_c, i, j, ki, n - 1) + tap_2d(
            input,
            kernel,
            dilation,
            pad_r,
            pad_c,
            i,
            j,
            ki,
            n - 1,
        )
    }
}

/// The sum of the terms of kernel rows `0 .. m` for output cell `(i, j)`.
pub open spec fn window_sum_2d(
    input: Grid,
    kernel: Grid,
    dilation: int,
    pad_r: int,
    pad_c: int,
    i: int,
    j: int,
    m: int,
) -> int
    decreases m,
{
    if m <= 0 {
        0
    } else {
        window_sum_2d(input, kernel, dilation, pad_r, pad_c, i, j, m - 1) + row_sum_2d(
            input,
            kernel,
            dilation,
            pad_r,
            pad_c,
            i,
            j,
            m - 1,
            kernel.cols as int,
        )
    }
}

/// The grid of the shape of `input` whose cell `(i, j)` is the sign of the sum over
/// the whole kernel.
pub open spec fn conv_grid(input: Grid, kernel: Grid, dilation: int, pad_r: int, pad_c: int) -> Grid {
    Grid::from_fn(
        input.rows,
        input.cols,
        |i: int, j: int|
            sign(window_sum_2d(input, kernel, dilation, pad_r, pad_c, i, j, kernel.rows as int)),
    )
}

/// Every running sum of `conv_grid`, the sum over kernel rows `0 .. ki` and then cells
/// `(ki, 0 .. n)` for each output cell, lies in the range of `i32`, the accumulator's type.
pub open spec fn conv_grid_sums_fit_i32(
    input: Grid,
    kernel: Grid,
    dilation: int,
    pad_r: int,
    pad_c: int,
) -> bool {
    forall|i: int, j: int, ki: int, n: int|
        0 <= i < input.rows && 0 <= j < input.cols && 0 <= ki < kernel.rows && 0 <= n
            <= kernel.cols ==> i32::MIN <= window_sum_2d(
            input,
            kernel,
            dilation,
            pad_r,
            pad_c,
            i,
            j,
            ki,
        ) + #[trigger] row_sum_2d(input, kernel, dilation, pad_r, pad_c, i, j, ki, n) <= i32::MAX
}

/// The running sums of the 2D convolution fit in `i32`.
pub open spec fn conv2d_sums_fit_i32(input: Grid, kernel: Grid) -> bool {
    conv_grid_sums_fit_i32(input, kernel, 1, (kernel.rows / 2) as int, (kernel.cols / 2) as int)
}

/// The running sums of the dilated 2D convolution fit in `i32`.
pub open spec fn conv2d_dilated_sums_fit_i32(input: Grid, kernel: Grid, dilation: nat) -> bool {
    conv_grid_sums_fit_i32(
        input,
        kernel,
        dilation as int,
        ((kernel.rows / 2) * dilation) as int,
        ((kernel.cols / 2) * dilation) as int,
    )
}

/// The 2D ternary convolution: the kernel centred at `(rows / 2, cols / 2)`.
pub open spec fn conv2d_spec(input: Grid, kernel: Grid) -> Grid {
    conv_grid(input, kernel, 1, (kernel.rows / 2) as int, (kernel.cols / 2) as int)
}

/// The dilated 2D ternary convolution: kernel elements `dilation` cells apart, the
/// kernel's centre cell `(rows / 2, cols / 2)` over the output cell, so that the
/// window is shifted back by `(rows / 2 * dilation, cols / 2 * dilation)`.
///
/// For an even kernel side this is half the spread side, `side * dilation / 2`. For
/// an odd side it is less than that by `dilation / 2`: shifting by half the spread
/// side there would move a 1 x 1 kernel off the output cell as soon as the dilation
/// is 2 or more, and would move every odd kernel off its centre, while the spread
/// kernel, `side + (side - 1) * (dilation - 1)` cells wide, has its centre cell
/// `(side / 2) * dilation` cells from its first.
pub open spec fn conv2d_dilated_spec(input: Grid, kernel: Grid, dilation: nat) -> Grid {
    conv_grid(
        input,
        kernel,
        dilation as int,
        ((kernel.rows / 2) * dilation) as int,
        ((kernel.cols / 2) * dilation) as int,
    )
}

/// The depthwise separable convolution: the 2D convolution by the spatial kernel, each
/// cell then multiplied by the single cell of the 1 x 1 point kernel.
pub open spec fn depthwise_separable_spec(input: Grid, depth_kernel: Grid, point_kernel: Grid) -> Grid {
    let spatial = conv2d_spec(input, depth_kernel);
    Grid::from_fn(spatial.rows, spatial.cols, |i: int, j: int| spatial.at(i, j) * point_kernel.at(0, 0))
}

// ---------------------------------------------------------------------------
// Bounds on the running sums
// ---------------------------------------------------------------------------

/// A product of two trits is a trit.
pub proof fn lemma_trit_product(a: int, b: int)
    requires
        is_trit(a),
        is_trit(b),
    ensures
        is_trit(a * b),
{
    assert(-1 <= a * b <= 1) by (nonlinear_arith)
        requires
            -1 <= a <= 1,
            -1 <= b <= 1,
    ;
}

/// The sum over kernel elements `0 .. m` of the 1D convolution is at most `m` in size.
pub proof fn lemma_sum_1d_bounded(signal: Seq<i8>, kernel: Seq<i8>, i: int, m: int)
    requires
        conv1d_operands_are_trits(signal, kernel),
        0 <= i < signal.len(),
        0 <= m <= kernel.len(),
    ensures
        -m <= sum_1d(signal, kernel, i, m) <= m,
    decreases m,
{
    if m > 0 {
        lemma_sum_1d_bounded(signal, kernel, i, m - 1);
        let j = m - 1;
        let s = i - (kernel.len() / 2) as int + j;
        if 0 <= s < signal.len() {
            assert(is_trit(signal[s] as int));
            assert(is_trit(kernel[j] as int));
            lemma_trit_product(signal[s] as int, kernel[j] as int);
        }
    }
}

/// With trit operands and a kernel of at most `i32::MAX` elements, every running sum of
/// the 1D convolution fits in `i32`.
pub proof fn lemma_conv1d_sums_fit(signal: Seq<i8>, kernel: Seq<i8>)
    requires
        conv1d_operands_are_trits(signal, kernel),
        kernel.len() <= i32::MAX,
    ensures
        conv1d_sums_fit_i32(signal, kernel),
{
    assert forall|i: int, m: int| 0 <= i < signal.len() && 0 <= m <= kernel.len() implies i32::MIN
        <= #[trigger] sum_1d(signal, kernel, i, m) <= i32::MAX by {
        lemma_sum_1d_bounded(signal, kernel, i, m);
    }
}

/// The sum over kernel cells `(ki, 0 .. n)` of a 2D convolution of valid grids is at
/// most `n` in size.
pub proof fn lemma_row_sum_2d_bounded(
    input: Grid,
    kernel: Grid,
    dilation: int,
    pad_r: int,
    pad_c: int,
    i: int,
    j: int,
    ki: int,
    n: int,
)
    requires
        input.wf(),
        kernel.wf(),
        0 <= ki < kernel.rows,
        0 <= n <= kernel.cols,
    ensures
        -n <= row_sum_2d(input, kernel, dilation, pad_r, pad_c, i, j, ki, n) <= n,
    decreases n,
{
    if n > 0 {
        lemma_row_sum_2d_bounded(input, kernel, dilation, pad_r, pad_c, i, j, ki, n - 1);
        let kj = n - 1;
        let si = i - pad_r + ki * dilation;
        let sj = j - pad_c + kj * dilation;
        if 0 <= si < input.rows && 0 <= sj < input.cols {
            lemma_index_in_bounds(input.rows, input.cols, si, sj);
            lemma_index_in_bounds(kernel.rows, kernel.cols, ki, kj);
            assert(is_trit(input.cells[input.index(si, sj)]));
            assert(is_trit(kernel.cells[kernel.index(ki, kj)]));
            lemma_trit_product(input.at(si, sj), kernel.at(ki, kj));
        }
    }
}

/// The sum over kernel rows `0 .. m` of a 2D convolution of valid grids is at most
/// `m * kernel.cols` in size.
pub proof fn lemma_window_sum_2d_bounded(
    input: Grid,
    kernel: Grid,
    dilation: int,
    pad_r: int,
    pad_c: int,
    i: int,
    j: int,
    m: int,
)
    requires
        input.wf(),
        kernel.wf(),
        0 <= m <= kernel.rows,
    ensures
        -(m * kernel.cols) <= window_sum_2d(input, kernel, dilation, pad_r, pad_c, i, j, m) <= m
            * kernel.cols,
    decreases m,
{
    if m > 0 {
        lemma_window_sum_2d_bounded(input, kernel, dilation, pad_r, pad_c, i, j, m - 1);
        lemma_row_sum_2d_bounded(
            input,
            kernel,
            dilation,
            pad_r,
            pad_c,
            i,
            j,
            m - 1,
            kernel.cols as int,
        );
        assert(m * kernel.cols == (m - 1) * kernel.cols + kernel.cols) by (nonlinear_arith);
    }
}

/// For valid grids and a kernel of at most `i32::MAX` cells, every running sum of
/// `conv_grid` fits in `i32`.
pub proof fn lemma_conv_grid_sums_fit(
    input: Grid,
    kernel: Grid,
    dilation: int,
    pad_r: int,
    pad_c: int,
)
    requires
        input.wf(),
        kernel.wf(),
        kernel.rows * kernel.cols <= i32::MAX,
    ensures
        conv_grid_sums_fit_i32(input, kernel, dilation, pad_r, pad_c),
{
    assert forall|i: int, j: int, ki: int, n: int|
        0 <= i < input.rows && 0 <= j < input.cols && 0 <= ki < kernel.rows && 0 <= n
            <= kernel.cols implies i32::MIN <= window_sum_2d(
        input,
        kernel,
        dilation,
        pad_r,
        pad_c,
        i,
        j,
        ki,
    ) + #[trigger] row_sum_2d(input, kernel, dilation, pad_r, pad_c, i, j, ki, n) <= i32::MAX by {
        lemma_window_sum_2d_bounded(input, kernel, dilation, pad_r, pad_c, i, j, ki);
        lemma_row_sum_2d_bounded(input, kernel, dilation, pad_r, pad_c, i, j, ki, n);
        let kc = kernel.cols as int;
        assert(ki * kc + n <= kernel.rows * kc) by (nonlinear_arith)
            requires
                0 <= ki < kernel.rows,
                0 <= n <= kc,
        ;
    }
}

// ---------------------------------------------------------------------------
// Implementation
// ---------------------------------------------------------------------------

/// The index `i + off - pad` when it lies in `0 .. len`, computed without leaving
/// the range of `usize`.
fn shifted_index(i: usize, off: usize, pad: usize, len: usize) -> (s: Option<usize>)
    ensures
        match s {
            Some(x) => 0 <= i + off - pad < len && x == i + off - pad,
            None => !(0 <= i + off - pad < len),
        },
{
    if i >= pad {
        let base = i - pad;
        if base < len && off < len - base {
            Some(base + off)
        } else {
            None
        }
    } else {
        let d = pad - i;
        if off >= d && off - d < len {
            Some(off - d)
        } else {
            None
        }
    }
}

/// 1D ternary convolution in same mode: the output has the length of the signal.
/// The signal is padded with zeros and the kernel is centred at `kernel.len() / 2`.
pub fn conv1d(signal: &[i8], kernel: &[i8]) -> (out: Vec<i8>)
    requires
        conv1d_operands_are_trits(signal@, kernel@),
        conv1d_sums_fit_i32(signal@, kernel@),
    ensures
        out.len() == signal.len(),
        out@ == conv1d_spec(signal@, kernel@),
{
    let n = signal.len();
    let k = kernel.len();
    let pad = k / 2;
    let mut out: Vec<i8> = Vec::new();
    for i in 0..n
        invariant
            n == signal.len(),
            k == kernel.len(),
            pad == k / 2,
            conv1d_operands_are_trits(signal@, kernel@),
            conv1d_sums_fit_i32(signal@, kernel@),
            out.len() == i,
            forall|t: int| 0 <= t < i ==> #[trigger] out@[t] == conv1d_spec(signal@, kernel@)[t],
    {
        let mut acc: i32 = 0;
        for j in 0..k
            invariant
                n == signal.len(),
                k == kernel.len(),
                pad == k / 2,
                i < n,
                conv1d_operands_are_trits(signal@, kernel@),
                conv1d_sums_fit_i32(signal@, kernel@),
                acc == sum_1d(signal@, kernel@, i as int, j as int),
        {
            assert(i32::MIN <= sum_1d(signal@, kernel@, i as int, j + 1) <= i32::MAX);
            match shifted_index(i, j, pad, n) {
                Some(s) => {
                    assert(is_trit(signal@[s as int] as int));
                    assert(is_trit(kernel@[j as int] as int));
                    let t = trit_mul(signal[s], kernel[j]);
                    acc = acc + t as i32;
                },
                None => {},
            }
        }
        out.push(TernaryMatrix::round_to_trit(acc));
    }
    assert(out@ =~= conv1d_spec(signal@, kernel@));
    out
}

/// The grid `conv_grid(input, kernel, dilation, pad_r, pad_c)`, computed cell by cell
/// in row-major order.
fn conv_grid_exec(
    input: &TernaryMatrix,
    kernel: &TernaryMatrix,
    dilation: usize,
    pad_r: usize,
    pad_c: usize,
) -> (out: TernaryMatrix)
    requires
        conv_grid_sums_fit_i32(input@, kernel@, dilation as int, pad_r as int, pad_c as int),
        kernel@.rows * dilation <= usize::MAX,
        kernel@.cols * dilation <= usize::MAX,
    ensures
        out@.wf(),
        out@ == conv_grid(input@, kernel@, dilation as int, pad_r as int, pad_c as int),
{
    let rows = input.rows();
    let cols = input.cols();
    let kr = kernel.rows();
    let kc = kernel.cols();
    let ghost target = conv_grid(input@, kernel@, dilation as int, pad_r as int, pad_c as int);
    let mut data: Vec<i8> = Vec::new();
    assert(0 * cols == 0);
    for i in 0..rows
        invariant
            rows == input@.rows,
            cols == input@.cols,
            kr == kernel@.rows,
            kc == kernel@.cols,
            input@.wf(),
            kernel@.wf(),
            conv_grid_sums_fit_i32(input@, kernel@, dilation as int, pad_r as int, pad_c as int),
            kr * dilation <= usize::MAX,
            kc * dilation <= usize::MAX,
            target == conv_grid(input@, kernel@, dilation as int, pad_r as int, pad_c as int),
            data.len() == i * cols,
            forall|p: int| 0 <= p < data.len() ==> #[trigger] data@[p] as int == target.cells[p],
    {
        for j in 0..cols
            invariant
                rows == input@.rows,
                cols == input@.cols,
                kr == kernel@.rows,
                kc == kernel@.cols,
                input@.wf(),
                kernel@.wf(),
                conv_grid_sums_fit_i32(input@, kernel@, dilation as int, pad_r as int, pad_c as int),
                kr * dilation <= usize::MAX,
                kc * dilation <= usize::MAX,
                target == conv_grid(input@, kernel@, dilation as int, pad_r as int, pad_c as int),
                i < rows,
                data.len() == i * cols + j,
                forall|p: int| 0 <= p < data.len() ==> #[trigger] data@[p] as int == target.cells[p],
        {
            let mut acc: i32 = 0;
            for ki in 0..kr
                invariant
                    rows == input@.rows,
                    cols == input@.cols,
                    kr == kernel@.rows,
                    kc == kernel@.cols,
                    input@.wf(),
                    kernel@.wf(),
                    conv_grid_sums_fit_i32(input@, kernel@, dilation as int, pad_r as int, pad_c as int),
                    kr * dilation <= usize::MAX,
                    kc * dilation <= usize::MAX,
                    i < rows,
                    j < cols,
                    acc == window_sum_2d(
                        input@,
                        kernel@,
                        dilation as int,
                        pad_r as int,
                        pad_c as int,
                        i as int,
                        j as int,
                        ki as int,
                    ),
            {
                proof {
                    assert(ki * dilation <= kr * dilation) by (nonlinear_arith)
                        requires
                            ki < kr,
                    ;
                }
                let row_off = ki * dilation;
                for kj in 0..kc
                    invariant
                        rows == input@.rows,
                        cols == input@.cols,
                        kr == kernel@.rows,
                        kc == kernel@.cols,
                        input@.wf(),
                        kernel@.wf(),
                        conv_grid_sums_fit_i32(input@, kernel@, dilation as int, pad_r as int, pad_c as int),
                        kc * dilation <= usize::MAX,
                        i < rows,
                        j < cols,
                        ki < kr,
                        row_off == ki * dilation,
                        acc == window_sum_2d(
                            input@,
                            kernel@,
                            dilation as int,
                            pad_r as int,
                            pad_c as int,
                            i as int,
                            j as int,
                            ki as int,
                        ) + row_sum_2d(
                            input@,
                            kernel@,
                            dilation as int,
                            pad_r as int,
                            pad_c as int,
                            i as int,
                            j as int,
                            ki as int,
                            kj as int,
                        ),
                {
                    assert(i32::MIN <= window_sum_2d(
                        input@,
                        kernel@,
                        dilation as int,
                        pad_r as int,
                        pad_c as int,
                        i as int,
                        j as int,
                        ki as int,
                    ) + row_sum_2d(
                        input@,
                        kernel@,
                        dilation as int,
                        pad_r as int,
                        pad_c as int,
                        i as int,
                        j as int,
                        ki as int,
                        kj + 1,
                    ) <= i32::MAX);
                    proof {
                        assert(kj * dilation <= kc * dilation) by (nonlinear_arith)
                            requires
                                kj < kc,
                        ;
                    }
                    let col_off = kj * dilation;
                    match shifted_index(i, row_off, pad_r, rows) {
                        Some(si) => match shifted_index(j, col_off, pad_c, cols) {
                            Some(sj) => {
                                proof {
                                    lemma_index_in_bounds(rows as nat, cols as nat, si as int, sj as int);
                                    lemma_index_in_bounds(kr as nat, kc as nat, ki as int, kj as int);
                                }
                                let a = input.get(si, sj);
                                let b = kernel.get(ki, kj);
                                proof {
                                    assert(is_trit(a as int));
                                    assert(is_trit(b as int));
                                }
                                let t = trit_mul(a, b);
                                acc = acc + t as i32;
                            },
                            None => {},
                        },
                        None => {},
                    }
                }
            }
            let v = TernaryMatrix::round_to_trit(acc);
            proof {
                let p = i * cols + j;
                lemma_index_in_bounds(rows as nat, cols as nat, i as int, j as int);
                vstd::arithmetic::div_mod::lemma_fundamental_div_mod_converse(
                    p as int,
                    cols as int,
                    i as int,
                    j as int,
                );
            }
            data.push(v);
        }
        proof {
            assert((i + 1) * cols == i * cols + cols) by (nonlinear_arith);
        }
    }
    proof {
        assert forall|p: int| 0 <= p < data.len() implies is_trit(#[trigger] data@[p] as int) by {
            assert(data@[p] as int == target.cells[p]);
        }
    }
    let out = TernaryMatrix::from_vec(rows, cols, data);
    proof {
        assert(out@.cells =~= target.cells);
    }
    out
}

/// 2D ternary convolution in same mode: the output has the shape of the input.
/// The input is padded with zeros and the kernel is centred at
/// `(kernel.rows() / 2, kernel.cols() / 2)`.
pub fn conv2d(input: &TernaryMatrix, kernel: &TernaryMatrix) -> (out: TernaryMatrix)
    requires
        conv2d_sums_fit_i32(input@, kernel@),
    ensures
        out@.wf(),
        out@.rows == input@.rows,
        out@.cols == input@.cols,
        out@ == conv2d_spec(input@, kernel@),
{
    let kr = kernel.rows();
    let kc = kernel.cols();
    conv_grid_exec(input, kernel, 1, kr / 2, kc / 2)
}

/// 2D dilated ternary convolution: kernel elements are applied `dilation` cells
/// apart, and a dilation of 1 is the standard convolution. The kernel's centre cell
/// stays over the output cell, so a 1 x 1 kernel is unaffected by the dilation: the
/// window is shifted back by `(kernel.rows() / 2 * dilation, kernel.cols() / 2 * dilation)`,
/// which for an odd kernel side is `dilation / 2` less than `side * dilation / 2`
/// (see `conv2d_dilated_spec`).
pub fn conv2d_dilated(input: &TernaryMatrix, kernel: &TernaryMatrix, dilation: usize) -> (out:
    TernaryMatrix)
    requires
        dilation >= 1,
        conv2d_dilated_sums_fit_i32(input@, kernel@, dilation as nat),
        kernel@.rows * dilation <= usize::MAX,
        kernel@.cols * dilation <= usize::MAX,
    ensures
        out@.wf(),
        out@.rows == input@.rows,
        out@.cols == input@.cols,
        out@ == conv2d_dilated_spec(input@, kernel@, dilation as nat),
{
    let kr = kernel.rows();
    let kc = kernel.cols();
    proof {
        assert((kr / 2) * dilation <= kr * dilation) by (nonlinear_arith);
        assert((kc / 2) * dilation <= kc * dilation) by (nonlinear_arith);
    }
    let pad_r = (kr / 2) * dilation;
    let pad_c = (kc / 2) * dilation;
    conv_grid_exec(input, kernel, dilation, pad_r, pad_c)
}

/// Depthwise separable 2D convolution: the spatial convolution by `depth_kernel`,
/// followed by the 1 x 1 pointwise convolution by `point_kernel`, which multiplies
/// every cell by its single trit.
pub fn depthwise_separable_conv2d(
    input: &TernaryMatrix,
    depth_kernel: &TernaryMatrix,
    point_kernel: &TernaryMatrix,
) -> (out: TernaryMatrix)
    requires
        point_kernel@.rows == 1,
        point_kernel@.cols == 1,
        conv2d_sums_fit_i32(input@, depth_kernel@),
    ensures
        out@.wf(),
        out@.rows == input@.rows,
        out@.cols == input@.cols,
        out@ == depthwise_separable_spec(input@, depth_kernel@, point_kernel@),
{
    let spatial = conv2d(input, depth_kernel);
    let scalar = point_kernel.get(0, 0);
    let rows = spatial.rows();
    let cols = spatial.cols();
    let ghost target = depthwise_separable_spec(input@, depth_kernel@, point_kernel@);
    proof {
        assert(is_trit(scalar as int));
    }
    let mut data: Vec<i8> = Vec::new();
    assert(0 * cols == 0);
    for i in 0..rows
        invariant
            rows == spatial@.rows,
            cols == spatial@.cols,
            spatial@.wf(),
            spatial@ == conv2d_spec(input@, depth_kernel@),
            is_trit(scalar as int),
            scalar == point_kernel@.at(0, 0),
            target == depthwise_separable_spec(input@, depth_kernel@, point_kernel@),
            data.len() == i * cols,
            forall|p: int|
                0 <= p < data.len() ==> #[trigger] data@[p] as int == target.cells[p] && is_trit(
                    data@[p] as int,
                ),
    {
        for j in 0..cols
            invariant
                rows == spatial@.rows,
                cols == spatial@.cols,
                spatial@.wf(),
                spatial@ == conv2d_spec(input@, depth_kernel@),
                is_trit(scalar as int),
                scalar == point_kernel@.at(0, 0),
                target == depthwise_separable_spec(input@, depth_kernel@, point_kernel@),
                i < rows,
                data.len() == i * cols + j,
                forall|p: int|
                0 <= p < data.len() ==> #[trigger] data@[p] as int == target.cells[p] && is_trit(
                    data@[p] as int,
                ),
        {
            proof {
                lemma_index_in_bounds(rows as nat, cols as nat, i as int, j as int);
            }
            let a = spatial.get(i, j);
            proof {
                assert(is_trit(a as int));
                let p = i * cols + j;
                vstd::arithmetic::div_mod::lemma_fundamental_div_mod_converse(
                    p as int,
                    cols as int,
                    i as int,
                    j as int,
                );
            }
            data.push(trit_mul(a, scalar));
        }
        proof {
            assert((i + 1) * cols == i * cols + cols) by (nonlinear_arith);
        }
    }
    let out = TernaryMatrix::from_vec(rows, cols, data);
    proof {
        assert(out@.cells =~= target.cells);
    }
    out
}

} // verus!
