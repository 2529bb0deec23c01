//! Properties that span the operations of the library: identity kernels, the
//! standard convolution as dilation 1, 1 x 1 kernels under dilation, negation,
//! single-row images against 1D signals, the pointwise step of the separable
//! convolution, what a read gives back after a write, the 1D convolution of 0/1
//! data, and the impulse responses of the 2D convolutions.

use vstd::prelude::*;

use crate::conv::{
    conv1d_spec, conv2d_dilated_spec, conv2d_spec, conv_grid, depthwise_separable_spec, row_sum_2d,
    sum_1d, tap_1d, tap_2d, window_sum_2d,
};
use crate::kernels::identity_grid;
use crate::matrix::{Grid, lemma_from_fn_at, lemma_grid_ext, lemma_index_in_bounds, lemma_index_split};
use crate::trit::{is_trit, lemma_sign_by_cases, sign};

verus! {

/// The 1D convolution by the one-element kernel `[1]` gives back the signal.
pub proof fn lemma_conv1d_identity_kernel(signal: Seq<i8>)
    requires
        forall|s: int| 0 <= s < signal.len() ==> is_trit(#[trigger] signal[s] as int),
    ensures
        conv1d_spec(signal, seq![1i8]) == signal,
{
    let kernel = seq![1i8];
    let out = conv1d_spec(signal, kernel);
    assert forall|i: int| 0 <= i < signal.len() implies out[i] == signal[i] by {
        assert(sum_1d(signal, kernel, i, 0) == 0);
        assert(tap_1d(signal, kernel, i, 0) == signal[i] * 1);
        assert(sum_1d(signal, kernel, i, 1) == signal[i]);
        assert(is_trit(signal[i] as int));
    }
    assert(out =~= signal);
}

/// The 2D convolution of a valid grid by the 1 x 1 identity kernel gives back the grid.
pub proof fn lemma_conv2d_identity_kernel(input: Grid)
    requires
        input.wf(),
    ensures
        conv2d_spec(input, identity_grid()) == input,
{
    let kernel = identity_grid();
    let out = conv2d_spec(input, kernel);
    assert forall|r: int, c: int| 0 <= r < input.rows && 0 <= c < input.cols implies #[trigger] out.at(
        r,
        c,
    ) == input.at(r, c) by {
        lemma_from_fn_at(
            input.rows,
            input.cols,
            |i: int, j: int| sign(window_sum_2d(input, kernel, 1, 0, 0, i, j, kernel.rows as int)),
            r,
            c,
        );
        lemma_index_in_bounds(input.rows, input.cols, r, c);
        assert(kernel.at(0, 0) == 1);
        assert(tap_2d(input, kernel, 1, 0, 0, r, c, 0, 0) == input.at(r, c));
        assert(row_sum_2d(input, kernel, 1, 0, 0, r, c, 0, 0) == 0);
        assert(row_sum_2d(input, kernel, 1, 0, 0, r, c, 0, 1) == input.at(r, c));
        assert(window_sum_2d(input, kernel, 1, 0, 0, r, c, 0) == 0);
        assert(window_sum_2d(input, kernel, 1, 0, 0, r, c, 1) == input.at(r, c));
        assert(is_trit(input.cells[input.index(r, c)]));
    }
    lemma_grid_ext(out, input);
}

/// The dilated convolution with dilation 1 is the standard 2D convolution.
pub proof fn lemma_dilation_one_is_conv2d(input: Grid, kernel: Grid)
    ensures
        conv2d_dilated_spec(input, kernel, 1) == conv2d_spec(input, kernel),
{
}

/// The depthwise separable convolution whose point kernel is the identity is the
/// 2D convolution by its spatial kernel.
pub proof fn lemma_depthwise_identity_point(input: Grid, depth_kernel: Grid)
    ensures
        depthwise_separable_spec(input, depth_kernel, identity_grid()) == conv2d_spec(
            input,
            depth_kernel,
        ),
{
    let spatial = conv2d_spec(input, depth_kernel);
    let out = depthwise_separable_spec(input, depth_kernel, identity_grid());
    assert(identity_grid().at(0, 0) == 1);
    assert forall|r: int, c: int| 0 <= r < spatial.rows && 0 <= c < spatial.cols implies #[trigger] out.at(
        r,
        c,
    ) == spatial.at(r, c) by {
        lemma_from_fn_at(
            spatial.rows,
            spatial.cols,
            |i: int, j: int| spatial.at(i, j) * identity_grid().at(0, 0),
            r,
            c,
        );
    }
    lemma_grid_ext(out, spatial);
}

/// After cell `(r, c)` is overwritten with `v`, reading cell `(r, c)` gives `v` and
/// reading any other cell gives what it held before.
pub proof fn lemma_read_after_write(g: Grid, r: int, c: int, v: int, r2: int, c2: int)
    requires
        g.cells.len() == g.rows * g.cols,
        0 <= r < g.rows,
        0 <= c < g.cols,
        0 <= r2 < g.rows,
        0 <= c2 < g.cols,
    ensures
        (Grid { cells: g.cells.update(g.index(r, c), v), ..g }).at(r2, c2) == if r == r2 && c == c2 {
            v
        } else {
            g.at(r2, c2)
        },
{
    lemma_index_in_bounds(g.rows, g.cols, r, c);
    lemma_index_in_bounds(g.rows, g.cols, r2, c2);
    let p = g.index(r, c);
    let q = g.index(r2, c2);
    vstd::arithmetic::div_mod::lemma_fundamental_div_mod_converse(p, g.cols as int, r, c);
    vstd::arithmetic::div_mod::lemma_fundamental_div_mod_converse(q, g.cols as int, r2, c2);
}

/// A 1 x 1 kernel is unaffected by the dilation: the dilated convolution by it is the
/// standard 2D convolution, for every dilation.
pub proof fn lemma_one_by_one_kernel_ignores_dilation(input: Grid, kernel: Grid, dilation: nat)
    requires
        kernel.rows == 1,
        kernel.cols == 1,
    ensures
        conv2d_dilated_spec(input, kernel, dilation) == conv2d_spec(input, kernel),
{
    let d = dilation as int;
    assert((kernel.rows / 2) * dilation == 0);
    assert((kernel.cols / 2) * dilation == 0);
    let dilated = conv2d_dilated_spec(input, kernel, dilation);
    let standard = conv2d_spec(input, kernel);
    assert forall|p: int| 0 <= p < dilated.cells.len() implies dilated.cells[p] == standard.cells[p] by {
        let i = p / (input.cols as int);
        let j = p % (input.cols as int);
        assert(row_sum_2d(input, kernel, d, 0, 0, i, j, 0, 0) == 0);
        assert(row_sum_2d(input, kernel, 1, 0, 0, i, j, 0, 0) == 0);
        assert(tap_2d(input, kernel, d, 0, 0, i, j, 0, 0) == tap_2d(input, kernel, 1, 0, 0, i, j, 0, 0));
        assert(window_sum_2d(input, kernel, d, 0, 0, i, j, 0) == 0);
        assert(window_sum_2d(input, kernel, 1, 0, 0, i, j, 0) == 0);
        assert(window_sum_2d(input, kernel, d, 0, 0, i, j, 1) == window_sum_2d(
            input,
            kernel,
            1,
            0,
            0,
            i,
            j,
            1,
        ));
    }
    assert(dilated.cells =~= standard.cells);
}

/// The sequence with every element negated.
pub open spec fn negated_seq(s: Seq<i8>) -> Seq<i8> {
    s.map_values(|v: i8| (-v) as i8)
}

/// Every element of the sequence is a trit.
pub open spec fn all_trits(s: Seq<i8>) -> bool {
    forall|p: int| 0 <= p < s.len() ==> is_trit(#[trigger] s[p] as int)
}

/// The sign of a negated integer is the negated sign.
proof fn lemma_sign_negate(x: int)
    ensures
        sign(-x) == -sign(x),
{
}

/// Negating the signal, or the kernel, negates each running sum of the 1D convolution.
proof fn lemma_sum_1d_negate(signal: Seq<i8>, kernel: Seq<i8>, i: int, m: int)
    requires
        all_trits(signal),
        all_trits(kernel),
        0 <= m <= kernel.len(),
    ensures
        sum_1d(negated_seq(signal), kernel, i, m) == -sum_1d(signal, kernel, i, m),
        sum_1d(signal, negated_seq(kernel), i, m) == -sum_1d(signal, kernel, i, m),
    decreases m,
{
    if m > 0 {
        lemma_sum_1d_negate(signal, kernel, i, m - 1);
        let j = m - 1;
        let s = i - (kernel.len() / 2) as int + j;
        assert(negated_seq(signal).len() == signal.len());
        assert(negated_seq(kernel).len() == kernel.len());
        assert(is_trit(kernel[j] as int));
        assert(negated_seq(kernel)[j] as int == -(kernel[j] as int));
        if 0 <= s < signal.len() {
            assert(is_trit(signal[s] as int));
            assert(negated_seq(signal)[s] as int == -(signal[s] as int));
            let a = signal[s] as int;
            let b = kernel[j] as int;
            assert((-a) * b == -(a * b)) by (nonlinear_arith);
            assert(a * (-b) == -(a * b)) by (nonlinear_arith);
            assert(tap_1d(negated_seq(signal), kernel, i, j) == -tap_1d(signal, kernel, i, j));
            assert(tap_1d(signal, negated_seq(kernel), i, j) == -tap_1d(signal, kernel, i, j));
        }
    }
}

/// Negating the signal negates the 1D convolution, and so does negating the kernel.
pub proof fn lemma_conv1d_negation(signal: Seq<i8>, kernel: Seq<i8>)
    requires
        all_trits(signal),
        all_trits(kernel),
    ensures
        conv1d_spec(negated_seq(signal), kernel) == negated_seq(conv1d_spec(signal, kernel)),
        conv1d_spec(signal, negated_seq(kernel)) == negated_seq(conv1d_spec(signal, kernel)),
{
    let k = kernel.len() as int;
    let out = conv1d_spec(signal, kernel);
    assert forall|i: int| 0 <= i < signal.len() implies conv1d_spec(negated_seq(signal), kernel)[i]
        == negated_seq(out)[i] && conv1d_spec(signal, negated_seq(kernel))[i] == negated_seq(
        out,
    )[i] by {
        lemma_sum_1d_negate(signal, kernel, i, k);
        lemma_sign_negate(sum_1d(signal, kernel, i, k));
    }
    assert(conv1d_spec(negated_seq(signal), kernel) =~= negated_seq(out));
    assert(conv1d_spec(signal, negated_seq(kernel)) =~= negated_seq(out));
}

/// The grid with every cell negated.
pub open spec fn negated_grid(g: Grid) -> Grid {
    Grid { cells: g.cells.map_values(|v: int| -v), ..g }
}

/// Negating the input, or the kernel, negates each running sum over one kernel row.
proof fn lemma_row_sum_2d_negate(
    input: Grid,
    kernel: Grid,
    dilation: int,
    pad_r: int,
    pad_c: int,
    i: int,
    j: int,
    ki: int,
    n: int,
)
    requires
        input.wf(),
        kernel.wf(),
        0 <= ki < kernel.rows,
        0 <= n <= kernel.cols,
    ensures
        row_sum_2d(negated_grid(input), kernel, dilation, pad_r, pad_c, i, j, ki, n) == -row_sum_2d(
            input,
            kernel,
            dilation,
            pad_r,
            pad_c,
            i,
            j,
            ki,
            n,
        ),
        row_sum_2d(input, negated_grid(kernel), dilation, pad_r, pad_c, i, j, ki, n) == -row_sum_2d(
            input,
            kernel,
            dilation,
            pad_r,
            pad_c,
            i,
            j,
            ki,
            n,
        ),
    decreases n,
{
    if n > 0 {
        lemma_row_sum_2d_negate(input, kernel, dilation, pad_r, pad_c, i, j, ki, n - 1);
        let kj = n - 1;
        let si = i - pad_r + ki * dilation;
        let sj = j - pad_c + kj * dilation;
        if 0 <= si < input.rows && 0 <= sj < input.cols {
            lemma_index_in_bounds(input.rows, input.cols, si, sj);
            lemma_index_in_bounds(kernel.rows, kernel.cols, ki, kj);
            let a = input.at(si, sj);
            let b = kernel.at(ki, kj);
            assert(negated_grid(input).at(si, sj) == -a);
            assert(negated_grid(kernel).at(ki, kj) == -b);
            assert((-a) * b == -(a * b)) by (nonlinear_arith);
            assert(a * (-b) == -(a * b)) by (nonlinear_arith);
        }
    }
}

/// Negating the input, or the kernel, negates each running sum over kernel rows.
proof fn lemma_window_sum_2d_negate(
    input: Grid,
    kernel: Grid,
    dilation: int,
    pad_r: int,
    pad_c: int,
    i: int,
    j: int,
    m: int,
)
    requires
        input.wf(),
        kernel.wf(),
        0 <= m <= kernel.rows,
    ensures
        window_sum_2d(negated_grid(input), kernel, dilation, pad_r, pad_c, i, j, m) == -window_sum_2d(
            input,
            kernel,
            dilation,
            pad_r,
            pad_c,
            i,
            j,
            m,
        ),
        window_sum_2d(input, negated_grid(kernel), dilation, pad_r, pad_c, i, j, m) == -window_sum_2d(
            input,
            kernel,
            dilation,
            pad_r,
            pad_c,
            i,
            j,
            m,
        ),
    decreases m,
{
    if m > 0 {
        lemma_window_sum_2d_negate(input, kernel, dilation, pad_r, pad_c, i, j, m - 1);
        lemma_row_sum_2d_negate(
            input,
            kernel,
            dilation,
            pad_r,
            pad_c,
            i,
            j,
            m - 1,
            kernel.cols as int,
        );
    }
}

/// Negating the input negates the 2D convolution, and so does negating the kernel.
/// This holds for every dilation and window shift, so for `conv2d_spec` and
/// `conv2d_dilated_spec` alike.
pub proof fn lemma_conv_grid_negation(
    input: Grid,
    kernel: Grid,
    dilation: int,
    pad_r: int,
    pad_c: int,
)
    requires
        input.wf(),
        kernel.wf(),
    ensures
        conv_grid(negated_grid(input), kernel, dilation, pad_r, pad_c) == negated_grid(
            conv_grid(input, kernel, dilation, pad_r, pad_c),
        ),
        conv_grid(input, negated_grid(kernel), dilation, pad_r, pad_c) == negated_grid(
            conv_grid(input, kernel, dilation, pad_r, pad_c),
        ),
{
    let out = conv_grid(input, kernel, dilation, pad_r, pad_c);
    let neg_in = conv_grid(negated_grid(input), kernel, dilation, pad_r, pad_c);
    let neg_k = conv_grid(input, negated_grid(kernel), dilation, pad_r, pad_c);
    let kr = kernel.rows as int;
    assert forall|p: int| 0 <= p < out.cells.len() implies neg_in.cells[p] == -out.cells[p]
        && neg_k.cells[p] == -out.cells[p] by {
        let i = p / (input.cols as int);
        let j = p % (input.cols as int);
        lemma_window_sum_2d_negate(input, kernel, dilation, pad_r, pad_c, i, j, kr);
        lemma_sign_negate(window_sum_2d(input, kernel, dilation, pad_r, pad_c, i, j, kr));
    }
    assert(neg_in.cells =~= negated_grid(out).cells);
    assert(neg_k.cells =~= negated_grid(out).cells);
}

/// On single-row data the 2D convolution is the 1D convolution: a one-row image
/// convolved with a one-row kernel is the one-row image of the 1D convolution of
/// their rows.
pub proof fn lemma_single_row_conv2d_is_conv1d(signal: Seq<i8>, kernel: Seq<i8>)
    ensures
        conv2d_spec(
            Grid { rows: 1, cols: signal.len(), cells: signal.map_values(|v: i8| v as int) },
            Grid { rows: 1, cols: kernel.len(), cells: kernel.map_values(|v: i8| v as int) },
        ) == (Grid {
            rows: 1,
            cols: signal.len(),
            cells: conv1d_spec(signal, kernel).map_values(|v: i8| v as int),
        }),
{
    let a = Grid { rows: 1, cols: signal.len(), cells: signal.map_values(|v: i8| v as int) };
    let b = Grid { rows: 1, cols: kernel.len(), cells: kernel.map_values(|v: i8| v as int) };
    let out = conv2d_spec(a, b);
    let expected = conv1d_spec(signal, kernel).map_values(|v: i8| v as int);
    let k = kernel.len() as int;
    let pc = (kernel.len() / 2) as int;
    assert forall|j: int| 0 <= j < signal.len() implies out.cells[j] == expected[j] by {
        assert(j / (signal.len() as int) == 0 && j % (signal.len() as int) == j) by {
            vstd::arithmetic::div_mod::lemma_fundamental_div_mod_converse(
                j,
                signal.len() as int,
                0,
                j,
            );
        }
        lemma_row_sum_matches_sum_1d(signal, kernel, j, k);
        assert(window_sum_2d(a, b, 1, 0, pc, 0, j, 0) == 0);
    }
    assert(out.cells =~= expected);
}

/// The running sum over the single kernel row of a one-row convolution is the running
/// sum of the 1D convolution.
proof fn lemma_row_sum_matches_sum_1d(signal: Seq<i8>, kernel: Seq<i8>, j: int, n: int)
    requires
        0 <= n <= kernel.len(),
    ensures
        row_sum_2d(
            Grid { rows: 1, cols: signal.len(), cells: signal.map_values(|v: i8| v as int) },
            Grid { rows: 1, cols: kernel.len(), cells: kernel.map_values(|v: i8| v as int) },
            1,
            0,
            (kernel.len() / 2) as int,
            0,
            j,
            0,
            n,
        ) == sum_1d(signal, kernel, j, n),
    decreases n,
{
    if n > 0 {
        lemma_row_sum_matches_sum_1d(signal, kernel, j, n - 1);
        let a = Grid { rows: 1, cols: signal.len(), cells: signal.map_values(|v: i8| v as int) };
        let b = Grid { rows: 1, cols: kernel.len(), cells: kernel.map_values(|v: i8| v as int) };
        let kj = n - 1;
        let sj = j - (kernel.len() / 2) as int + kj;
        if 0 <= sj < signal.len() {
            assert(a.at(0, sj) == signal[sj] as int);
            assert(b.at(0, kj) == kernel[kj] as int);
        }
        assert(tap_2d(a, b, 1, 0, (kernel.len() / 2) as int, 0, j, 0, kj) == tap_1d(
            signal,
            kernel,
            j,
            kj,
        ));
    }
}

/// The pointwise step of the separable convolution: a point kernel of -1 negates the
/// spatial convolution, and a point kernel of 0 gives the zero grid of its shape.
pub proof fn lemma_depthwise_point_negate_and_zero(input: Grid, depth_kernel: Grid)
    ensures
        depthwise_separable_spec(input, depth_kernel, Grid { rows: 1, cols: 1, cells: seq![-1] })
            == negated_grid(conv2d_spec(input, depth_kernel)),
        depthwise_separable_spec(input, depth_kernel, Grid { rows: 1, cols: 1, cells: seq![0] })
            == (Grid {
            rows: input.rows,
            cols: input.cols,
            cells: Seq::new(input.rows * input.cols, |p: int| 0),
        }),
{
    let spatial = conv2d_spec(input, depth_kernel);
    let minus = Grid { rows: 1, cols: 1, cells: seq![-1] };
    let zero = Grid { rows: 1, cols: 1, cells: seq![0] };
    assert(minus.at(0, 0) == -1);
    assert(zero.at(0, 0) == 0);
    let neg = depthwise_separable_spec(input, depth_kernel, minus);
    let zer = depthwise_separable_spec(input, depth_kernel, zero);
    assert forall|p: int| 0 <= p < spatial.cells.len() implies neg.cells[p] == -spatial.cells[p]
        && zer.cells[p] == 0 by {
        lemma_index_split(spatial.rows, spatial.cols, p);
        let r = p / (spatial.cols as int);
        let c = p % (spatial.cols as int);
        assert(spatial.index(r, c) == p);
    }
    assert(neg.cells =~= negated_grid(spatial).cells);
    assert(zer.cells =~= Seq::new(input.rows * input.cols, |p: int| 0int));
}

// ---------------------------------------------------------------------------
// Characterisations that do not go through the convolution's own sums
// ---------------------------------------------------------------------------

/// Every element of the sequence is 0 or 1.
pub open spec fn is_binary(s: Seq<i8>) -> bool {
    forall|p: int| 0 <= p < s.len() ==> #[trigger] s[p] == 0 || s[p] == 1
}

/// For output `i` of the 1D convolution, kernel element `j` is 1 and lies over a
/// signal element that is 1 (the kernel centred at `kernel.len() / 2`).
pub open spec fn ones_meet_1d(signal: Seq<i8>, kernel: Seq<i8>, i: int, j: int) -> bool {
    let s = i - (kernel.len() / 2) as int + j;
    &&& 0 <= j < kernel.len()
    &&& 0 <= s < signal.len()
    &&& signal[s] == 1
    &&& kernel[j] == 1
}

/// With 0/1 operands each running sum is non-negative, and positive exactly when some
/// kernel element among the first `m` is a 1 over a 1.
proof fn lemma_sum_1d_binary(signal: Seq<i8>, kernel: Seq<i8>, i: int, m: int)
    requires
        is_binary(signal),
        is_binary(kernel),
        0 <= m <= kernel.len(),
    ensures
        sum_1d(signal, kernel, i, m) >= 0,
        sum_1d(signal, kernel, i, m) > 0 <==> exists|j: int|
            0 <= j < m && #[trigger] ones_meet_1d(signal, kernel, i, j),
    decreases m,
{
    if m > 0 {
        lemma_sum_1d_binary(signal, kernel, i, m - 1);
        let j = m - 1;
        let s = i - (kernel.len() / 2) as int + j;
        assert(kernel[j] == 0 || kernel[j] == 1);
        if 0 <= s < signal.len() {
            assert(signal[s] == 0 || signal[s] == 1);
        }
        assert(tap_1d(signal, kernel, i, j) == if ones_meet_1d(signal, kernel, i, j) {
            1int
        } else {
            0int
        });
        if sum_1d(signal, kernel, i, m) > 0 {
            if !ones_meet_1d(signal, kernel, i, j) {
                let w = choose|w: int| 0 <= w < m - 1 && #[trigger] ones_meet_1d(signal, kernel, i, w);
                assert(0 <= w < m && ones_meet_1d(signal, kernel, i, w));
            }
        }
        if exists|w: int| 0 <= w < m && #[trigger] ones_meet_1d(signal, kernel, i, w) {
            let w = choose|w: int| 0 <= w < m && #[trigger] ones_meet_1d(signal, kernel, i, w);
            if w < m - 1 {
                assert(0 <= w < m - 1 && ones_meet_1d(signal, kernel, i, w));
            }
        }
    }
}

/// On 0/1 signals and kernels the 1D convolution is a 0/1 sequence: output `i` is 1
/// exactly when some 1 of the kernel lies over a 1 of the signal, however many do.
pub proof fn lemma_conv1d_binary_inputs(signal: Seq<i8>, kernel: Seq<i8>)
    requires
        is_binary(signal),
        is_binary(kernel),
    ensures
        conv1d_spec(signal, kernel).len() == signal.len(),
        forall|i: int|
            0 <= i < signal.len() ==> #[trigger] conv1d_spec(signal, kernel)[i] == if exists|j: int|
                ones_meet_1d(signal, kernel, i, j) {
                1i8
            } else {
                0i8
            },
{
    let k = kernel.len() as int;
    assert forall|i: int| 0 <= i < signal.len() implies #[trigger] conv1d_spec(signal, kernel)[i]
        == if exists|j: int| ones_meet_1d(signal, kernel, i, j) {
        1i8
    } else {
        0i8
    } by {
        lemma_sum_1d_binary(signal, kernel, i, k);
        lemma_sign_by_cases(sum_1d(signal, kernel, i, k));
        if exists|j: int| ones_meet_1d(signal, kernel, i, j) {
            let j = choose|j: int| ones_meet_1d(signal, kernel, i, j);
            assert(0 <= j < k && ones_meet_1d(signal, kernel, i, j));
        }
    }
}

/// The image of the given shape that is 1 at cell `(a, b)` and 0 everywhere else.
pub open spec fn impulse(rows: nat, cols: nat, a: int, b: int) -> Grid {
    Grid::from_fn(rows, cols, |r: int, c: int| if r == a && c == b { 1int } else { 0int })
}

/// Over one kernel row, the convolution of an impulse picks out at most one kernel cell.
proof fn lemma_impulse_row_sum(
    rows: nat,
    cols: nat,
    a: int,
    b: int,
    kernel: Grid,
    i: int,
    j: int,
    ki: int,
    n: int,
)
    requires
        0 <= a < rows,
        0 <= b < cols,
        kernel.wf(),
        0 <= ki < kernel.rows,
        0 <= n <= kernel.cols,
    ensures
        row_sum_2d(
            impulse(rows, cols, a, b),
            kernel,
            1,
            ((kernel.rows / 2) as int),
            ((kernel.cols / 2) as int),
            i,
            j,
            ki,
            n,
        ) == if i - ((kernel.rows / 2) as int) + ki == a && 0 <= b - j + ((kernel.cols / 2) as int) < n {
            kernel.at(ki, b - j + ((kernel.cols / 2) as int))
        } else {
            0
        },
    decreases n,
{
    let g = impulse(rows, cols, a, b);
    let pr = ((kernel.rows / 2) as int);
    let pc = ((kernel.cols / 2) as int);
    if n > 0 {
        lemma_impulse_row_sum(rows, cols, a, b, kernel, i, j, ki, n - 1);
        let kj = n - 1;
        let si = i - pr + ki;
        let sj = j - pc + kj;
        if 0 <= si < rows && 0 <= sj < cols {
            lemma_index_in_bounds(rows, cols, si, sj);
            vstd::arithmetic::div_mod::lemma_fundamental_div_mod_converse(
                si * cols + sj,
                cols as int,
                si,
                sj,
            );
            assert(g.at(si, sj) == if si == a && sj == b { 1int } else { 0int });
        }
        assert(tap_2d(g, kernel, 1, pr, pc, i, j, ki, kj) == if si == a && sj == b {
            kernel.at(ki, kj)
        } else {
            0
        });
    }
}

/// Over kernel rows `0 .. m`, the convolution of an impulse picks out at most one
/// kernel cell.
proof fn lemma_impulse_window_sum(
    rows: nat,
    cols: nat,
    a: int,
    b: int,
    kernel: Grid,
    i: int,
    j: int,
    m: int,
)
    requires
        0 <= a < rows,
        0 <= b < cols,
        kernel.wf(),
        0 <= m <= kernel.rows,
    ensures
        window_sum_2d(
            impulse(rows, cols, a, b),
            kernel,
            1,
            ((kernel.rows / 2) as int),
            ((kernel.cols / 2) as int),
            i,
            j,
            m,
        ) == if 0 <= a - i + ((kernel.rows / 2) as int) < m && 0 <= b - j + ((kernel.cols / 2) as int)
            < kernel.cols {
            kernel.at(a - i + ((kernel.rows / 2) as int), b - j + ((kernel.cols / 2) as int))
        } else {
            0
        },
    decreases m,
{
    if m > 0 {
        lemma_impulse_window_sum(rows, cols, a, b, kernel, i, j, m - 1);
        lemma_impulse_row_sum(rows, cols, a, b, kernel, i, j, m - 1, kernel.cols as int);
    }
}

/// The impulse response of the 2D convolution: convolving the image that is 1 at
/// `(a, b)` and 0 elsewhere by any valid kernel gives, at cell `(i, j)`, the kernel
/// cell `(a - i + kernel.rows / 2, b - j + kernel.cols / 2)`, or 0 where that lies
/// outside the kernel. So the output holds the kernel turned by 180 degrees, its
/// centre cell at `(a, b)`.
pub proof fn lemma_conv2d_impulse_response(rows: nat, cols: nat, a: int, b: int, kernel: Grid)
    requires
        0 <= a < rows,
        0 <= b < cols,
        kernel.wf(),
    ensures
        conv2d_spec(impulse(rows, cols, a, b), kernel).rows == rows,
        conv2d_spec(impulse(rows, cols, a, b), kernel).cols == cols,
        forall|i: int, j: int|
            0 <= i < rows && 0 <= j < cols ==> #[trigger] conv2d_spec(
                impulse(rows, cols, a, b),
                kernel,
            ).at(i, j) == if 0 <= a - i + ((kernel.rows / 2) as int) < kernel.rows && 0 <= b - j + ((kernel.cols / 2) as int) < kernel.cols {
                kernel.at(a - i + ((kernel.rows / 2) as int), b - j + ((kernel.cols / 2) as int))
            } else {
                0
            },
{
    let g = impulse(rows, cols, a, b);
    let pr = ((kernel.rows / 2) as int);
    let pc = ((kernel.cols / 2) as int);
    assert forall|i: int, j: int| 0 <= i < rows && 0 <= j < cols implies #[trigger] conv2d_spec(
        g,
        kernel,
    ).at(i, j) == if 0 <= a - i + pr < kernel.rows && 0 <= b - j + pc < kernel.cols {
        kernel.at(a - i + pr, b - j + pc)
    } else {
        0
    } by {
        lemma_from_fn_at(
            rows,
            cols,
            |r: int, c: int| sign(window_sum_2d(g, kernel, 1, pr, pc, r, c, kernel.rows as int)),
            i,
            j,
        );
        lemma_impulse_window_sum(rows, cols, a, b, kernel, i, j, kernel.rows as int);
        let w = window_sum_2d(g, kernel, 1, pr, pc, i, j, kernel.rows as int);
        if 0 <= a - i + pr < kernel.rows && 0 <= b - j + pc < kernel.cols {
            lemma_index_in_bounds(kernel.rows, kernel.cols, a - i + pr, b - j + pc);
            assert(is_trit(kernel.cells[kernel.index(a - i + pr, b - j + pc)]));
        }
        lemma_sign_by_cases(w);
    }
}

/// Convolving the 3 x 3 image whose only 1 is its centre by any valid 3 x 3 kernel
/// gives the kernel turned by 180 degrees.
pub proof fn lemma_conv2d_centre_impulse_rotates_kernel(kernel: Grid)
    requires
        kernel.rows == 3,
        kernel.cols == 3,
        kernel.wf(),
    ensures
        conv2d_spec(impulse(3, 3, 1, 1), kernel) == Grid::from_fn(
            3,
            3,
            |r: int, c: int| kernel.at(2 - r, 2 - c),
        ),
{
    let out = conv2d_spec(impulse(3, 3, 1, 1), kernel);
    let turned = Grid::from_fn(3, 3, |r: int, c: int| kernel.at(2 - r, 2 - c));
    lemma_conv2d_impulse_response(3, 3, 1, 1, kernel);
    assert forall|r: int, c: int| 0 <= r < 3 && 0 <= c < 3 implies #[trigger] out.at(r, c)
        == turned.at(r, c) by {
        lemma_from_fn_at(3, 3, |r: int, c: int| kernel.at(2 - r, 2 - c), r, c);
        assert(out.at(r, c) == kernel.at(1 - r + 1, 1 - c + 1));
    }
    lemma_grid_ext(out, turned);
}

/// For a positive `d`, `k * d` is `t` exactly when `d` divides `t` and `k` is `t / d`.
proof fn lemma_multiple_of(t: int, d: int, k: int)
    requires
        d > 0,
    ensures
        k * d == t <==> (t % d == 0 && t / d == k),
{
    if k * d == t {
        vstd::arithmetic::div_mod::lemma_fundamental_div_mod_converse(t, d, k, 0);
    }
    if t % d == 0 && t / d == k {
        vstd::arithmetic::div_mod::lemma_fundamental_div_mod(t, d);
        vstd::arithmetic::mul::lemma_mul_is_commutative(d, k);
    }
}

/// Over one kernel row, the dilated convolution of an impulse picks out at most one
/// kernel cell: the one whose spread position lands on the impulse.
proof fn lemma_impulse_row_sum_dilated(
    rows: nat,
    cols: nat,
    a: int,
    b: int,
    kernel: Grid,
    d: int,
    pr: int,
    pc: int,
    i: int,
    j: int,
    ki: int,
    n: int,
)
    requires
        0 <= a < rows,
        0 <= b < cols,
        kernel.wf(),
        d >= 1,
        0 <= ki < kernel.rows,
        0 <= n <= kernel.cols,
    ensures
        row_sum_2d(impulse(rows, cols, a, b), kernel, d, pr, pc, i, j, ki, n) == if i - pr + ki * d
            == a && (b - j + pc) % d == 0 && 0 <= (b - j + pc) / d < n {
            kernel.at(ki, (b - j + pc) / d)
        } else {
            0
        },
    decreases n,
{
    let g = impulse(rows, cols, a, b);
    if n > 0 {
        lemma_impulse_row_sum_dilated(rows, cols, a, b, kernel, d, pr, pc, i, j, ki, n - 1);
        let kj = n - 1;
        let si = i - pr + ki * d;
        let sj = j - pc + kj * d;
        lemma_multiple_of(b - j + pc, d, kj);
        if 0 <= si < rows && 0 <= sj < cols {
            lemma_index_in_bounds(rows, cols, si, sj);
            vstd::arithmetic::div_mod::lemma_fundamental_div_mod_converse(
                si * cols + sj,
                cols as int,
                si,
                sj,
            );
            assert(g.at(si, sj) == if si == a && sj == b { 1int } else { 0int });
        }
        assert(tap_2d(g, kernel, d, pr, pc, i, j, ki, kj) == if si == a && sj == b {
            kernel.at(ki, kj)
        } else {
            0
        });
    }
}

/// Over kernel rows `0 .. m`, the dilated convolution of an impulse picks out at most
/// one kernel cell.
proof fn lemma_impulse_window_sum_dilated(
    rows: nat,
    cols: nat,
    a: int,
    b: int,
    kernel: Grid,
    d: int,
    pr: int,
    pc: int,
    i: int,
    j: int,
    m: int,
)
    requires
        0 <= a < rows,
        0 <= b < cols,
        kernel.wf(),
        d >= 1,
        0 <= m <= kernel.rows,
    ensures
        window_sum_2d(impulse(rows, cols, a, b), kernel, d, pr, pc, i, j, m) == if (a - i + pr) % d
            == 0 && 0 <= (a - i + pr) / d < m && (b - j + pc) % d == 0 && 0 <= (b - j + pc) / d
            < kernel.cols {
            kernel.at((a - i + pr) / d, (b - j + pc) / d)
        } else {
            0
        },
    decreases m,
{
    if m > 0 {
        lemma_impulse_window_sum_dilated(rows, cols, a, b, kernel, d, pr, pc, i, j, m - 1);
        lemma_impulse_row_sum_dilated(
            rows,
            cols,
            a,
            b,
            kernel,
            d,
            pr,
            pc,
            i,
            j,
            m - 1,
            kernel.cols as int,
        );
        lemma_multiple_of(a - i + pr, d, m - 1);
    }
}

/// The impulse response of the dilated 2D convolution: convolving the image that is 1
/// at `(a, b)` and 0 elsewhere by any valid kernel with dilation `d` gives, at cell
/// `(i, j)`, the kernel cell `(ki, kj)` with `ki * d == a - i + (kernel.rows / 2) * d`
/// and `kj * d == b - j + (kernel.cols / 2) * d` when there is one, and 0 otherwise.
/// So the kernel appears turned by 180 degrees, spread `d` cells apart, its centre cell
/// at `(a, b)`.
pub proof fn lemma_conv2d_dilated_impulse_response(
    rows: nat,
    cols: nat,
    a: int,
    b: int,
    kernel: Grid,
    dilation: nat,
)
    requires
        0 <= a < rows,
        0 <= b < cols,
        kernel.wf(),
        dilation >= 1,
    ensures
        conv2d_dilated_spec(impulse(rows, cols, a, b), kernel, dilation).rows == rows,
        conv2d_dilated_spec(impulse(rows, cols, a, b), kernel, dilation).cols == cols,
        forall|i: int, j: int, ki: int, kj: int|
            0 <= i < rows && 0 <= j < cols && 0 <= ki < kernel.rows && 0 <= kj < kernel.cols && ki
                * dilation == a - i + ((kernel.rows / 2) * dilation) as int && kj * dilation == b - j
                + ((kernel.cols / 2) * dilation) as int ==> #[trigger] conv2d_dilated_spec(
                impulse(rows, cols, a, b),
                kernel,
                dilation,
            ).at(i, j) == #[trigger] kernel.at(ki, kj),
        forall|i: int, j: int|
            0 <= i < rows && 0 <= j < cols && !(exists|ki: int, kj: int|
                0 <= ki < kernel.rows && 0 <= kj < kernel.cols && #[trigger] (ki * dilation) == a
                    - i + ((kernel.rows / 2) * dilation) as int && #[trigger] (kj * dilation) == b
                    - j + ((kernel.cols / 2) * dilation) as int) ==> #[trigger] conv2d_dilated_spec(
                impulse(rows, cols, a, b),
                kernel,
                dilation,
            ).at(i, j) == 0,
{
    let g = impulse(rows, cols, a, b);
    let d = dilation as int;
    let pr = ((kernel.rows / 2) * dilation) as int;
    let pc = ((kernel.cols / 2) * dilation) as int;
    let out = conv2d_dilated_spec(g, kernel, dilation);
    assert forall|i: int, j: int| 0 <= i < rows && 0 <= j < cols implies #[trigger] out.at(i, j)
        == if (a - i + pr) % d == 0 && 0 <= (a - i + pr) / d < kernel.rows && (b - j + pc) % d == 0
        && 0 <= (b - j + pc) / d < kernel.cols {
        kernel.at((a - i + pr) / d, (b - j + pc) / d)
    } else {
        0
    } by {
        lemma_from_fn_at(
            rows,
            cols,
            |r: int, c: int| sign(window_sum_2d(g, kernel, d, pr, pc, r, c, kernel.rows as int)),
            i,
            j,
        );
        lemma_impulse_window_sum_dilated(rows, cols, a, b, kernel, d, pr, pc, i, j, kernel.rows as int);
        let w = window_sum_2d(g, kernel, d, pr, pc, i, j, kernel.rows as int);
        if (a - i + pr) % d == 0 && 0 <= (a - i + pr) / d < kernel.rows && (b - j + pc) % d == 0
            && 0 <= (b - j + pc) / d < kernel.cols {
            lemma_index_in_bounds(kernel.rows, kernel.cols, (a - i + pr) / d, (b - j + pc) / d);
            assert(is_trit(kernel.cells[kernel.index((a - i + pr) / d, (b - j + pc) / d)]));
        }
        lemma_sign_by_cases(w);
    }
    assert forall|i: int, j: int, ki: int, kj: int|
        0 <= i < rows && 0 <= j < cols && 0 <= ki < kernel.rows && 0 <= kj < kernel.cols && ki * d
            == a - i + pr && kj * d == b - j + pc implies #[trigger] out.at(i, j)
        == #[trigger] kernel.at(ki, kj) by {
        lemma_multiple_of(a - i + pr, d, ki);
        lemma_multiple_of(b - j + pc, d, kj);
    }
    assert forall|i: int, j: int|
        0 <= i < rows && 0 <= j < cols && !(exists|ki: int, kj: int|
            0 <= ki < kernel.rows && 0 <= kj < kernel.cols && #[trigger] (ki * d) == a - i + pr
                && #[trigger] (kj * d) == b - j + pc) implies #[trigger] out.at(i, j) == 0 by {
        if (a - i + pr) % d == 0 && 0 <= (a - i + pr) / d < kernel.rows && (b - j + pc) % d == 0
            && 0 <= (b - j + pc) / d < kernel.cols {
            let ki = (a - i + pr) / d;
            let kj = (b - j + pc) / d;
            lemma_multiple_of(a - i + pr, d, ki);
            lemma_multiple_of(b - j + pc, d, kj);
            assert(0 <= ki < kernel.rows && 0 <= kj < kernel.cols && (ki * d) == a - i + pr && (kj
                * d) == b - j + pc);
        }
    }
}

} // verus!
