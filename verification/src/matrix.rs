//! The ternary matrix: a row-major grid of trits, and its mathematical model.

use vstd::prelude::*;

use crate::trit::{is_trit, sign};

verus! {

/// The mathematical model of a matrix: its shape and its cells in row-major order.
pub struct Grid {
    pub rows: nat,
    pub cols: nat,
    pub cells: Seq<int>,
}

impl Grid {
    /// The grid holds exactly `rows * cols` cells, each a trit.
    pub open spec fn wf(self) -> bool {
        &&& self.cells.len() == self.rows * self.cols
        &&& forall|p: int| 0 <= p < self.cells.len() ==> is_trit(#[trigger] self.cells[p])
    }

    /// The position of cell `(r, c)` in the row-major sequence of cells.
    pub open spec fn index(self, r: int, c: int) -> int {
        r * self.cols + c
    }

    /// The cell at row `r`, column `c`.
    pub open spec fn at(self, r: int, c: int) -> int {
        self.cells[self.index(r, c)]
    }

    /// The grid of the given shape whose cell `(r, c)` is `f(r, c)`.
    pub open spec fn from_fn(rows: nat, cols: nat, f: spec_fn(int, int) -> int) -> Grid {
        Grid {
            rows,
            cols,
            cells: Seq::new(rows * cols, |p: int| f(p / (cols as int), p % (cols as int))),
        }
    }
}

/// The position `r * cols + c` of a cell inside the grid lies in `0 .. rows * cols`.
pub proof fn lemma_index_in_bounds(rows: nat, cols: nat, r: int, c: int)
    requires
        0 <= r < rows,
        0 <= c < cols,
    ensures
        0 <= r * cols + c < rows * cols,
        r * cols + c + 1 <= rows * cols,
        r * cols <= r * cols + c,
{
    assert(0 <= r * cols) by (nonlinear_arith)
        requires
            0 <= r,
            0 <= cols,
    ;
    assert(r * cols + c < rows * cols) by (nonlinear_arith)
        requires
            0 <= r < rows,
            0 <= c < cols,
    ;
}

/// A position `p` of a grid with `cols` columns is cell `(p / cols, p % cols)`.
pub proof fn lemma_index_split(rows: nat, cols: nat, p: int)
    requires
        0 <= p < rows * cols,
    ensures
        cols > 0,
        0 <= p / (cols as int) < rows,
        0 <= p % (cols as int) < cols,
        p == (p / (cols as int)) * cols + p % (cols as int),
{
    if cols == 0 {
        assert(rows * cols == 0) by (nonlinear_arith)
            requires
                cols == 0,
        ;
    }
    vstd::arithmetic::div_mod::lemma_fundamental_div_mod(p, cols as int);
    let q = p / (cols as int);
    let m = p % (cols as int);
    vstd::arithmetic::mul::lemma_mul_is_commutative(q, cols as int);
    assert(0 <= m < cols);
    assert(0 <= q) by (nonlinear_arith)
        requires
            p == cols * q + m,
            0 <= p,
            0 <= m < cols,
    ;
    assert(q < rows) by (nonlinear_arith)
        requires
            p == cols * q + m,
            p < rows * cols,
            0 <= m,
            cols > 0,
    ;
}

/// Cell `(r, c)` of `Grid::from_fn(rows, cols, f)` is `f(r, c)`.
pub proof fn lemma_from_fn_at(rows: nat, cols: nat, f: spec_fn(int, int) -> int, r: int, c: int)
    requires
        0 <= r < rows,
        0 <= c < cols,
    ensures
        Grid::from_fn(rows, cols, f).cells.len() == rows * cols,
        Grid::from_fn(rows, cols, f).at(r, c) == f(r, c),
{
    lemma_index_in_bounds(rows, cols, r, c);
    let p = r * cols + c;
    vstd::arithmetic::div_mod::lemma_fundamental_div_mod_converse(p, cols as int, r, c);
}

/// Two grids of one shape, each holding `rows * cols` cells, are equal when they
/// agree on every cell.
pub proof fn lemma_grid_ext(a: Grid, b: Grid)
    requires
        a.rows == b.rows,
        a.cols == b.cols,
        a.cells.len() == a.rows * a.cols,
        b.cells.len() == b.rows * b.cols,
        forall|r: int, c: int| 0 <= r < a.rows && 0 <= c < a.cols ==> #[trigger] a.at(r, c) == b.at(r, c),
    ensures
        a == b,
{
    assert forall|p: int| 0 <= p < a.cells.len() implies a.cells[p] == b.cells[p] by {
        lemma_index_split(a.rows, a.cols, p);
        let r = p / (a.cols as int);
        let c = p % (a.cols as int);
        assert(a.at(r, c) == b.at(r, c));
    }
    assert(a.cells =~= b.cells);
}

/// How one cell is written out: the trit right-aligned in two characters, then a space.
pub open spec fn cell_text(v: int) -> Seq<char> {
    if v < 0 {
        seq!['-', '1', ' ']
    } else if v == 0 {
        seq![' ', '0', ' ']
    } else {
        seq![' ', '1', ' ']
    }
}

/// The text of cells `(r, 0 .. n)`.
pub open spec fn row_text(g: Grid, r: int, n: int) -> Seq<char>
    decreases n,
{
    if n <= 0 {
        Seq::empty()
    } else {
        row_text(g, r, n - 1) + cell_text(g.at(r, n - 1))
    }
}

/// The text of rows `0 .. m`, each row's cells followed by a line break.
pub open spec fn grid_text(g: Grid, m: int) -> Seq<char>
    decreases m,
{
    if m <= 0 {
        Seq::empty()
    } else {
        grid_text(g, m - 1) + row_text(g, m - 1, g.cols as int) + seq!['\n']
    }
}

/// A ternary signal or image: `rows * cols` trits stored in row-major order.
#[derive(Debug, PartialEq, Eq)]
pub struct TernaryMatrix {
    rows: usize,
    cols: usize,
    data: Vec<i8>,
}

impl View for TernaryMatrix {
    type V = Grid;

    closed spec fn view(&self) -> Grid {
        Grid {
            rows: self.rows as nat,
            cols: self.cols as nat,
            cells: self.data@.map_values(|v: i8| v as int),
        }
    }
}

impl Clone for TernaryMatrix {
    /// A matrix of the same shape holding the same cells.
    fn clone(&self) -> (m: Self)
        ensures
            m@ == self@,
    {
        proof {
            use_type_invariant(self);
        }
        let data = self.data.clone();
        proof {
            assert forall|p: int| 0 <= p < data.len() implies data@[p] == self.data@[p] by {
                assert(cloned::<i8>(self.data@[p], data@[p]));
            }
            assert(data@ =~= self.data@);
        }
        TernaryMatrix { rows: self.rows, cols: self.cols, data }
    }
}

impl TernaryMatrix {
    /// Every matrix holds exactly `rows * cols` cells, each a trit.
    #[verifier::type_invariant]
    spec fn holds_trits(self) -> bool {
        self@.wf()
    }

    /// The `rows` x `cols` matrix of zeros.
    pub fn zeros(rows: usize, cols: usize) -> (m: Self)
        requires
            rows * cols <= usize::MAX,
        ensures
            m@.wf(),
            m@.rows == rows,
            m@.cols == cols,
            forall|p: int| 0 <= p < rows * cols ==> #[trigger] m@.cells[p] == 0,
    {
        let n = rows * cols;
        let mut data: Vec<i8> = Vec::new();
        while data.len() < n
            invariant
                data.len() <= n,
                forall|p: int| 0 <= p < data.len() ==> #[trigger] data@[p] == 0,
            decreases n - data.len(),
        {
            data.push(0);
        }
        let m = TernaryMatrix { rows, cols, data };
        assert(m@.cells.len() == rows * cols);
        m
    }

    /// The `rows` x `cols` matrix whose cells, in row-major order, are `data`.
    /// Every element must be a trit and there must be exactly `rows * cols` of them.
    pub fn from_vec(rows: usize, cols: usize, data: Vec<i8>) -> (m: Self)
        requires
            data.len() == rows * cols,
            forall|p: int| 0 <= p < data.len() ==> is_trit(#[trigger] data@[p] as int),
        ensures
            m@.wf(),
            m@.rows == rows,
            m@.cols == cols,
            m@.cells == data@.map_values(|v: i8| v as int),
    {
        TernaryMatrix { rows, cols, data }
    }

    /// The number of rows.
    /// Its contract also states that the matrix is valid (`self@.wf()`) and that its
    /// number of cells fits in `usize`, which hold of every matrix.
    pub fn rows(&self) -> (r: usize)
        ensures
            r == self@.rows,
            self@.wf(),
            self@.rows * self@.cols <= usize::MAX,
    {
        proof {
            use_type_invariant(self);
            assert(self@.cells.len() == self.data.len());
        }
        self.rows
    }

    /// The number of columns.
    /// Its contract also states that the matrix is valid (`self@.wf()`) and that its
    /// number of cells fits in `usize`, which hold of every matrix.
    pub fn cols(&self) -> (c: usize)
        ensures
            c == self@.cols,
            self@.wf(),
            self@.rows * self@.cols <= usize::MAX,
    {
        proof {
            use_type_invariant(self);
            assert(self@.cells.len() == self.data.len());
        }
        self.cols
    }

    /// A position that lies inside the model's cells lies inside the stored data.
    proof fn lemma_position_fits(&self, r: usize, c: usize)
        requires
            self@.wf(),
            r * self@.cols + c < self@.rows * self@.cols,
        ensures
            0 <= r * self.cols,
            r * self.cols + c < self.data.len(),
            self@.cells.len() == self.data@.len(),
    {
        assert(self@.cells.len() == self.data@.len());
        assert(0 <= r * self.cols) by (nonlinear_arith);
    }

    /// The cell at position `r * cols + c` of the row-major data, which is cell
    /// `(r, c)` when `c < cols`.
    pub fn get(&self, r: usize, c: usize) -> (v: i8)
        requires
            r * self@.cols + c < self@.rows * self@.cols,
        ensures
            v == self@.at(r as int, c as int),
            is_trit(v as int),
            self@.wf(),
    {
        proof {
            use_type_invariant(self);
            self.lemma_position_fits(r, c);
            assert(is_trit(self@.cells[self@.index(r as int, c as int)]));
        }
        self.data[r * self.cols + c]
    }

    /// Overwrites the cell at position `r * cols + c` of the row-major data with the
    /// trit `v`, leaving the shape and every other cell as they were.
    pub fn set(&mut self, r: usize, c: usize, v: i8)
        requires
            is_trit(v as int),
            r * old(self)@.cols + c < old(self)@.rows * old(self)@.cols,
        ensures
            final(self)@.wf(),
            final(self)@ == (Grid {
                cells: old(self)@.cells.update(old(self)@.index(r as int, c as int), v as int),
                ..old(self)@
            }),
    {
        proof {
            use_type_invariant(&*self);
            self.lemma_position_fits(r, c);
        }
        let idx = r * self.cols + c;
        let empty: Vec<i8> = Vec::new();
        proof {
            assert(0 * 0 == 0);
            assert(empty@.map_values(|x: i8| x as int) =~= Seq::<int>::empty());
        }
        let mut taken = TernaryMatrix { rows: 0, cols: 0, data: empty };
        std::mem::swap(self, &mut taken);
        let TernaryMatrix { rows, cols, mut data } = taken;
        data.set(idx, v);
        proof {
            assert(data@.map_values(|x: i8| x as int) =~= old(self)@.cells.update(
                idx as int,
                v as int,
            ));
        }
        *self = TernaryMatrix { rows, cols, data };
        assert(self@.cells =~= old(self)@.cells.update(idx as int, v as int));
    }

    /// Projects an integer back onto the trits by its sign.
    pub fn round_to_trit(v: i32) -> (t: i8)
        ensures
            t == sign(v as int),
            is_trit(t as int),
            v < 0 ==> t == -1,
            v == 0 ==> t == 0,
            v > 0 ==> t == 1,
    {
        if v < 0 {
            -1
        } else if v == 0 {
            0
        } else {
            1
        }
    }

    /// The matrix written out row by row: every cell right-aligned in two characters
    /// and followed by a space, every row followed by a line break.
    pub fn render(&self) -> (text: String)
        ensures
            text@ == grid_text(self@, self@.rows as int),
    {
        proof {
            use_type_invariant(self);
        }
        let mut text = String::new();
        for i in 0..self.rows
            invariant
                self@.wf(),
                text@ == grid_text(self@, i as int),
        {
            for j in 0..self.cols
                invariant
                    self@.wf(),
                    i < self@.rows,
                    text@ == grid_text(self@, i as int) + row_text(self@, i as int, j as int),
            {
                proof {
                    lemma_index_in_bounds(self@.rows, self@.cols, i as int, j as int);
                }
                let v = self.get(i, j);
                let ghost before = text@;
                if v < 0 {
                    text.append("-1 ");
                    proof {
                        reveal_strlit("-1 ");
                    }
                } else if v == 0 {
                    text.append(" 0 ");
                    proof {
                        reveal_strlit(" 0 ");
                    }
                } else {
                    text.append(" 1 ");
                    proof {
                        reveal_strlit(" 1 ");
                    }
                }
                assert(text@ == before + cell_text(v as int));
                assert(text@ =~= grid_text(self@, i as int) + row_text(self@, i as int, j + 1));
            }
            text.append("\n");
            proof {
                reveal_strlit("\n");
                assert(text@ =~= grid_text(self@, i + 1));
            }
        }
        text
    }
}

} // verus!
