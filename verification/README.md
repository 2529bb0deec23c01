# ternary_conv

Convolution of signals and images whose elements are trits (-1, 0, +1), with
every function's behaviour stated as a Verus contract and proved.

- `src/trit.rs`: trits, the sign function, `trit_mul`.
- `src/matrix.rs`: `TernaryMatrix` and its model `Grid` (shape plus row-major
  cells), whose validity is the matrix's type invariant; construction, cell access,
  and the text form of a matrix (`render`).
- `src/conv.rs`: the specifications of 1D, 2D, dilated and depthwise separable
  convolution, bounds on their running sums, and the verified implementations.
- `src/kernels.rs`: the predefined kernels and their exact contents.
- `src/laws.rs`: identity kernels, dilation 1, 1 x 1 kernels under any dilation,
  negation of input or kernel, single-row images against 1D signals, the point
  kernels 1, -1 and 0, and reading a cell after writing it.
- `tests/`: scenarios on concrete values.
- `app/`: a wrapper that gives a matrix `Display`.
