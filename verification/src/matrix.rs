//! The matrix container: row-major storage, bounds-checked cell access, and
//! in-place row/column swaps.

use vstd::prelude::*;

verus! {

/// Mathematical model of a matrix: the shape together with a grid of cells,
/// one sequence per row.
#[verifier::ext_equal]
pub ghost struct MatrixV<T> {
    pub rows: nat,
    pub cols: nat,
    pub grid: Seq<Seq<T>>,
}

impl<T> MatrixV<T> {
    /// A well-formed model is non-empty and rectangular.
    pub open spec fn wf(self) -> bool {
        &&& self.rows >= 1
        &&& self.cols >= 1
        &&& self.grid.len() == self.rows
        &&& forall|i: int| 0 <= i < self.grid.len() ==> (#[trigger] self.grid[i]).len() == self.cols
    }

    /// The cell at row `i`, column `j`.
    pub open spec fn index(self, i: int, j: int) -> T {
        self.grid[i][j]
    }

    /// Whether `(i, j)` addresses a cell of the matrix.
    pub open spec fn in_bounds(self, i: int, j: int) -> bool {
        0 <= i < self.rows && 0 <= j < self.cols
    }

    /// The model with the cell at `(i, j)` replaced by `v`.
    pub open spec fn set_cell(self, i: int, j: int, v: T) -> MatrixV<T> {
        MatrixV { grid: self.grid.update(i, self.grid[i].update(j, v)), ..self }
    }

    /// The model with rows `r1` and `r2` exchanged.
    pub open spec fn swap_rows_v(self, r1: int, r2: int) -> MatrixV<T> {
        MatrixV { grid: self.grid.update(r1, self.grid[r2]).update(r2, self.grid[r1]), ..self }
    }

    /// The model with columns `c1` and `c2` exchanged.
    pub open spec fn swap_cols_v(self, c1: int, c2: int) -> MatrixV<T> {
        MatrixV {
            grid: Seq::new(
                self.grid.len(),
                |i: int|
                    self.grid[i].update(c1, self.grid[i][c2]).update(c2, self.grid[i][c1]),
            ),
            ..self
        }
    }

    /// Row `i` as a sequence.
    pub open spec fn row_v(self, i: int) -> Seq<T> {
        self.grid[i]
    }

    /// Column `j` as a sequence.
    pub open spec fn col_v(self, j: int) -> Seq<T> {
        Seq::new(self.rows, |i: int| self.grid[i][j])
    }

    /// The transposed model: cell `(i, j)` of the result is cell `(j, i)` of
    /// the source.
    pub open spec fn transpose_v(self) -> MatrixV<T> {
        MatrixV {
            rows: self.cols,
            cols: self.rows,
            grid: Seq::new(self.cols, |i: int| Seq::new(self.rows, |j: int| self.grid[j][i])),
        }
    }
}

/// A 2-dimensional, non-resizable container. The cells are stored row-major
/// in one flat buffer of length `rows * cols`; both dimensions are strictly
/// positive for the whole lifetime of a value.
#[derive(Clone, Debug, Hash, PartialEq, Eq, PartialOrd)]
pub struct Matrix<T> {
    rows: usize,
    cols: usize,
    data: Vec<T>,
}

impl<T> View for Matrix<T> {
    type V = MatrixV<T>;

    closed spec fn view(&self) -> MatrixV<T> {
        MatrixV {
            rows: self.rows as nat,
            cols: self.cols as nat,
            grid: Seq::new(
                self.rows as nat,
                |i: int| Seq::new(self.cols as nat, |j: int| self.data@[i * (self.cols as int) + j]),
            ),
        }
    }
}

/// The flat offset `c + r * cols` stays within a buffer of `rows * cols`
/// cells whenever `(r, c)` is in range.
pub proof fn lemma_flat_index(rows: int, cols: int, r: int, c: int)
    requires
        0 <= r < rows,
        0 <= c < cols,
    ensures
        0 <= c + r * cols < rows * cols,
{
    assert(0 <= c + r * cols < rows * cols) by (nonlinear_arith)
        requires
            0 <= r < rows,
            0 <= c < cols,
    ;
}

/// Distinct in-range positions map to distinct flat offsets.
proof fn lemma_flat_index_injective(cols: int, r1: int, c1: int, r2: int, c2: int)
    requires
        0 <= c1 < cols,
        0 <= c2 < cols,
        0 <= r1,
        0 <= r2,
        c1 + r1 * cols == c2 + r2 * cols,
    ensures
        r1 == r2 && c1 == c2,
{
    assert(r1 == r2 && c1 == c2) by (nonlinear_arith)
        requires
            0 <= c1 < cols,
            0 <= c2 < cols,
            0 <= r1,
            0 <= r2,
            c1 + r1 * cols == c2 + r2 * cols,
    ;
}

impl<T> Matrix<T> {
    /// Structural invariant of the container: positive shape, and a backing
    /// buffer of exactly `rows * cols` cells.
    pub closed spec fn wf(&self) -> bool {
        &&& self.rows >= 1
        &&& self.cols >= 1
        &&& self.data@.len() == self.rows * self.cols
    }

    /// A well-formed container has a well-formed model whose total size fits
    /// the machine.
    pub proof fn lemma_wf(&self)
        requires
            self.wf(),
        ensures
            self@.wf(),
            self@.rows * self@.cols <= usize::MAX,
    {
        assert(self.data.len() == self.data@.len());
    }

    /// Constructs a matrix of the given shape, filling the cells row by row
    /// with the first `rows * cols` values of `data`; the rest of `data` is
    /// ignored. An empty shape, or a `data` too short for it, is a caller
    /// contract violation (a hard failure, not a checked one), so both are
    /// excluded by `requires`.
    pub fn from_iter(rows: usize, cols: usize, data: Vec<T>) -> (r: Matrix<T>)
        requires
            rows >= 1,
            cols >= 1,
            rows * cols <= usize::MAX,
            data@.len() >= rows * cols,
        ensures
            r.wf(),
            r@.rows == rows,
            r@.cols == cols,
            forall|i: int, j: int|
                0 <= i < rows && 0 <= j < cols ==> r@.index(i, j) == data@[i * (cols as int) + j],
    {
        let mut data = data;
        let ghost orig = data@;
        data.truncate(rows * cols);
        let r = Matrix { rows, cols, data };
        proof {
            assert forall|i: int, j: int| 0 <= i < rows && 0 <= j < cols implies r@.index(i, j)
                == orig[i * (cols as int) + j] by {
                lemma_flat_index(rows as int, cols as int, i, j);
            }
        }
        r
    }

    /// The number of rows.
    pub fn rows(&self) -> (r: usize)
        ensures
            r == self@.rows,
    {
        self.rows
    }

    /// The number of columns.
    pub fn cols(&self) -> (r: usize)
        ensures
            r == self@.cols,
    {
        self.cols
    }

    /// A reference to the cell at `(row, col)`, or `None` when either index
    /// is out of range.
    pub fn get_ref(&self, row: usize, col: usize) -> (r: Option<&T>)
        requires
            self.wf(),
        ensures
            self@.in_bounds(row as int, col as int) ==> r == Some(
                &self@.index(row as int, col as int),
            ),
            !self@.in_bounds(row as int, col as int) ==> r is None,
    {
        if row < self.rows && col < self.cols {
            proof {
                lemma_flat_index(self.rows as int, self.cols as int, row as int, col as int);
                assert(self.data.len() == self.data@.len());
            }
            Some(&self.data[col + row * self.cols])
        } else {
            None
        }
    }

    /// Writes `value` to the cell at `(row, col)` and returns `true`; when
    /// either index is out of range, leaves the matrix unchanged and returns
    /// `false`.
    pub fn set(&mut self, row: usize, col: usize, value: T) -> (r: bool)
        requires
            old(self).wf(),
        ensures
            final(self).wf(),
            r == old(self)@.in_bounds(row as int, col as int),
            old(self)@.in_bounds(row as int, col as int) ==> final(self)@ == old(self)@.set_cell(
                row as int,
                col as int,
                value,
            ),
            !old(self)@.in_bounds(row as int, col as int) ==> *final(self) == *old(self),
    {
        if row < self.rows && col < self.cols {
            proof {
                lemma_flat_index(self.rows as int, self.cols as int, row as int, col as int);
                assert(self.data.len() == self.data@.len());
            }
            let ghost pre = *self;
            self.data[col + row * self.cols] = value;
            proof {
                lemma_set_view(pre, *self, row as int, col as int, value);
            }
            true
        } else {
            false
        }
    }
}

impl<T: Copy> Matrix<T> {
    /// The value of the cell at `(row, col)`, or `None` when either index is
    /// out of range.
    pub fn get(&self, row: usize, col: usize) -> (r: Option<T>)
        requires
            self.wf(),
        ensures
            self@.in_bounds(row as int, col as int) ==> r == Some(
                self@.index(row as int, col as int),
            ),
            !self@.in_bounds(row as int, col as int) ==> r is None,
    {
        match self.get_ref(row, col) {
            Some(p) => Some(*p),
            None => None,
        }
    }

    /// Row `row` as a freshly copied vector, or `None` when `row` is out of
    /// range.
    pub fn get_row(&self, row: usize) -> (r: Option<Vec<T>>)
        requires
            self.wf(),
        ensures
            row < self@.rows ==> (r matches Some(v) && v@ == self@.row_v(row as int)),
            row >= self@.rows ==> r is None,
    {
        if row < self.rows {
            let mut v: Vec<T> = Vec::new();
            let mut c: usize = 0;
            while c < self.cols
                invariant
                    self.wf(),
                    row < self@.rows,
                    c <= self@.cols,
                    v@.len() == c,
                    forall|j: int| 0 <= j < c ==> v@[j] == self@.index(row as int, j),
                decreases self@.cols - c,
            {
                v.push(*self.get_ref(row, c).unwrap());
                c += 1;
            }
            proof {
                assert(v@ =~= self@.row_v(row as int));
            }
            Some(v)
        } else {
            None
        }
    }

    /// Column `col` as a freshly copied vector, or `None` when `col` is out
    /// of range.
    pub fn get_col(&self, col: usize) -> (r: Option<Vec<T>>)
        requires
            self.wf(),
        ensures
            col < self@.cols ==> (r matches Some(v) && v@ == self@.col_v(col as int)),
            col >= self@.cols ==> r is None,
    {
        if col < self.cols {
            let mut v: Vec<T> = Vec::new();
            let mut i: usize = 0;
            while i < self.rows
                invariant
                    self.wf(),
                    col < self@.cols,
                    i <= self@.rows,
                    v@.len() == i,
                    forall|k: int| 0 <= k < i ==> v@[k] == self@.index(k, col as int),
                decreases self@.rows - i,
            {
                v.push(*self.get_ref(i, col).unwrap());
                i += 1;
            }
            proof {
                assert(v@ =~= self@.col_v(col as int));
            }
            Some(v)
        } else {
            None
        }
    }

    /// Exchanges rows `row1` and `row2` in place. Unlike the checked
    /// accessors, out-of-range rows are a caller contract violation and are
    /// excluded by `requires`.
    pub fn swap_rows(&mut self, row1: usize, row2: usize)
        requires
            old(self).wf(),
            row1 < old(self)@.rows,
            row2 < old(self)@.rows,
        ensures
            final(self).wf(),
            final(self)@ == old(self)@.swap_rows_v(row1 as int, row2 as int),
    {
        let ghost m0 = *self;
        let cols = self.cols;
        let mut c: usize = 0;
        while c < cols
            invariant
                self.wf(),
                self@.rows == m0@.rows,
                self@.cols == m0@.cols,
                cols == m0@.cols,
                row1 < m0@.rows,
                row2 < m0@.rows,
                m0.wf(),
                c <= cols,
                forall|j: int|
                    0 <= j < c ==> self@.index(row1 as int, j) == m0@.index(row2 as int, j)
                        && self@.index(row2 as int, j) == m0@.index(row1 as int, j),
                forall|j: int|
                    c <= j < cols ==> self@.index(row1 as int, j) == m0@.index(row1 as int, j)
                        && self@.index(row2 as int, j) == m0@.index(row2 as int, j),
                forall|i: int, j: int|
                    0 <= i < self@.rows && 0 <= j < self@.cols && i != row1 && i != row2
                        ==> self@.index(i, j) == m0@.index(i, j),
            decreases cols - c,
        {
            let a = *self.get_ref(row1, c).unwrap();
            let b = *self.get_ref(row2, c).unwrap();
            self.set(row1, c, b);
            self.set(row2, c, a);
            c += 1;
        }
        proof {
            let target = m0@.swap_rows_v(row1 as int, row2 as int);
            assert forall|i: int| 0 <= i < self@.grid.len() implies self@.grid[i]
                =~= target.grid[i] by {
                assert forall|j: int| 0 <= j < self@.cols implies self@.grid[i][j]
                    == target.grid[i][j] by {
                    assert(self@.index(row1 as int, j) == m0@.index(row2 as int, j));
                    assert(self@.index(row2 as int, j) == m0@.index(row1 as int, j));
                    if i != row1 as int && i != row2 as int {
                        assert(self@.index(i, j) == m0@.index(i, j));
                    }
                }
            }
            assert(self@.grid =~= target.grid);
            assert(self@ =~= target);
        }
    }

    /// Exchanges columns `col1` and `col2` in place. Unlike the checked
    /// accessors, out-of-range columns are a caller contract violation and
    /// are excluded by `requires`.
    pub fn swap_cols(&mut self, col1: usize, col2: usize)
        requires
            old(self).wf(),
            col1 < old(self)@.cols,
            col2 < old(self)@.cols,
        ensures
            final(self).wf(),
            final(self)@ == old(self)@.swap_cols_v(col1 as int, col2 as int),
    {
        let ghost m0 = *self;
        let rows = self.rows;
        let mut i: usize = 0;
        while i < rows
            invariant
                self.wf(),
                self@.rows == m0@.rows,
                self@.cols == m0@.cols,
                rows == m0@.rows,
                col1 < m0@.cols,
                col2 < m0@.cols,
                m0.wf(),
                i <= rows,
                forall|k: int|
                    0 <= k < i ==> self@.index(k, col1 as int) == m0@.index(k, col2 as int)
                        && self@.index(k, col2 as int) == m0@.index(k, col1 as int),
                forall|k: int|
                    i <= k < rows ==> self@.index(k, col1 as int) == m0@.index(k, col1 as int)
                        && self@.index(k, col2 as int) == m0@.index(k, col2 as int),
                forall|k: int, j: int|
                    0 <= k < self@.rows && 0 <= j < self@.cols && j != col1 && j != col2
                        ==> self@.index(k, j) == m0@.index(k, j),
            decreases rows - i,
        {
            let a = *self.get_ref(i, col1).unwrap();
            let b = *self.get_ref(i, col2).unwrap();
            self.set(i, col1, b);
            self.set(i, col2, a);
            i += 1;
        }
        proof {
            let target = m0@.swap_cols_v(col1 as int, col2 as int);
            assert forall|k: int| 0 <= k < self@.grid.len() implies self@.grid[k]
                =~= target.grid[k] by {
                assert forall|j: int| 0 <= j < self@.cols implies self@.grid[k][j]
                    == target.grid[k][j] by {
                    assert(self@.index(k, col1 as int) == m0@.index(k, col2 as int));
                    assert(self@.index(k, col2 as int) == m0@.index(k, col1 as int));
                    if j != col1 as int && j != col2 as int {
                        assert(self@.index(k, j) == m0@.index(k, j));
                    }
                }
            }
            assert(self@.grid =~= target.grid);
            assert(self@ =~= target);
        }
    }

    /// Builds the transposed matrix: the result has the two dimensions
    /// exchanged and cell `(i, j)` of the result equals cell `(j, i)` of
    /// `self`. The backing buffer is read column by column and written row-
    /// major.
    pub fn transpose(&self) -> (r: Matrix<T>)
        requires
            self.wf(),
        ensures
            r.wf(),
            r@ == self@.transpose_v(),
    {
        proof {
            self.lemma_wf();
            assert(self@.cols * self@.rows <= usize::MAX) by (nonlinear_arith)
                requires
                    self@.rows * self@.cols <= usize::MAX,
            ;
        }
        let rows = self.rows;
        let cols = self.cols;
        let mut v: Vec<T> = Vec::new();
        let mut c: usize = 0;
        while c < cols
            invariant
                self.wf(),
                rows == self@.rows,
                cols == self@.cols,
                c <= cols,
                v@.len() == c * rows,
                forall|cc: int, rr: int|
                    0 <= cc < c && 0 <= rr < rows ==> v@[cc * (rows as int) + rr] == self@.index(
                        rr,
                        cc,
                    ),
            decreases cols - c,
        {
            let mut rr: usize = 0;
            while rr < rows
                invariant
                    self.wf(),
                    rows == self@.rows,
                    cols == self@.cols,
                    c < cols,
                    rr <= rows,
                    v@.len() == c * rows + rr,
                    forall|cc: int, r2: int|
                        0 <= cc < c && 0 <= r2 < rows ==> v@[cc * (rows as int) + r2]
                            == self@.index(r2, cc),
                    forall|r2: int|
                        0 <= r2 < rr ==> v@[c * (rows as int) + r2] == self@.index(
                            r2,
                            c as int,
                        ),
                decreases rows - rr,
            {
                proof {
                    lemma_flat_index(cols as int, rows as int, c as int, rr as int);
                    self.lemma_wf();
                    assert(cols * rows == self@.rows * self@.cols) by (nonlinear_arith)
                        requires
                            rows == self@.rows,
                            cols == self@.cols,
                    ;
                    assert(c * (rows as int) <= v@.len()) by (nonlinear_arith)
                        requires
                            v@.len() == c * (rows as int) + rr,
                            rr >= 0,
                    ;
                }
                let ghost vpre = v@;
                v.push(*self.get_ref(rr, c).unwrap());
                proof {
                    assert forall|cc: int, r2: int| 0 <= cc < c && 0 <= r2 < rows implies v@[cc
                        * (rows as int) + r2] == self@.index(r2, cc) by {
                        lemma_flat_index(c as int, rows as int, cc, r2);
                        assert(cc * (rows as int) + r2 < c * (rows as int));
                        assert(vpre[cc * (rows as int) + r2] == self@.index(r2, cc));
                    }
                    assert forall|r2: int| 0 <= r2 < rr + 1 implies v@[c * (rows as int) + r2]
                        == self@.index(r2, c as int) by {
                        if r2 < rr {
                            assert(vpre[c * (rows as int) + r2] == self@.index(r2, c as int));
                        }
                    }
                }
                rr += 1;
            }
            proof {
                assert((c + 1) * (rows as int) == c * (rows as int) + rows) by (nonlinear_arith);
            }
            c += 1;
        }
        let r = Matrix::from_iter(cols, rows, v);
        proof {
            let target = self@.transpose_v();
            assert forall|i: int| 0 <= i < r@.grid.len() implies r@.grid[i] =~= target.grid[i] by {
                assert forall|j: int| 0 <= j < rows implies r@.grid[i][j] == target.grid[i][j] by {
                    assert(r@.index(i, j) == r@.grid[i][j]);
                    assert(r@.index(i, j) == self@.index(j, i));
                }
            }
            assert(r@.grid =~= target.grid);
            assert(r@ =~= target);
        }
        r
    }
}

impl<T> Matrix<T> {
    /// A mutable reference to the cell at `(row, col)`, or `None` when
    /// either index is out of range; the caller may write through the
    /// reference, and the matrix then holds the written value at that cell.
    pub fn get_mut(&mut self, row: usize, col: usize) -> (r: Option<&mut T>)
        requires
            old(self).wf(),
        ensures
            old(self)@.in_bounds(row as int, col as int) <==> r is Some,
            (r matches Some(p) ==> *p == old(self)@.index(row as int, col as int)
                && final(self).wf()
                && final(self)@ == old(self)@.set_cell(row as int, col as int, *final(p))),
            r is None ==> *final(self) == *old(self),
    {
        if row < self.rows && col < self.cols {
            proof {
                lemma_flat_index(self.rows as int, self.cols as int, row as int, col as int);
                assert(self.data.len() == self.data@.len());
            }
            let ghost pre = *self;
            let p = &mut self.data[col + row * self.cols];
            proof {
                assert forall|post: Matrix<T>, value: T|
                    #![trigger post.data@, pre.data@.update(col + row * (pre.cols as int), value)]
                    post.rows == pre.rows && post.cols == pre.cols && post.data@
                        == pre.data@.update(
                        col + row * (pre.cols as int),
                        value,
                    ) implies post.wf() && post@ == pre@.set_cell(
                    row as int,
                    col as int,
                    value,
                ) by {
                    lemma_set_view(pre, post, row as int, col as int, value);
                }
            }
            Some(p)
        } else {
            None
        }
    }
}

impl<T: Copy> Matrix<T> {
    /// Constructs a matrix from a nested array, flattening the literal and
    /// refilling the cells row by row: the result has `R` rows (the inner
    /// length) and `C` columns (the outer length), and its cell at `(i, j)`
    /// is the `(i * C + j)`-th value of the flattened literal. Empty
    /// dimensions are a caller contract violation, excluded by
    /// `requires`.
    pub fn new<const R: usize, const C: usize>(values: [[T; R]; C]) -> (r: Matrix<T>)
        requires
            R >= 1,
            C >= 1,
            R * C <= usize::MAX,
        ensures
            r.wf(),
            r@.rows == R,
            r@.cols == C,
            forall|i: int, j: int|
                0 <= i < R && 0 <= j < C ==> #[trigger] r@.index(i, j) == values@[(i * (
                C as int) + j) / (R as int)]@[(i * (C as int) + j) % (R as int)],
    {
        let mut v: Vec<T> = Vec::new();
        let mut a: usize = 0;
        while a < C
            invariant
                a <= C,
                R >= 1,
                C >= 1,
                R * C <= usize::MAX,
                v@.len() == a * R,
                forall|x: int, y: int|
                    0 <= x < a && 0 <= y < R ==> v@[x * (R as int) + y] == values@[x]@[y],
            decreases C - a,
        {
            let mut b: usize = 0;
            while b < R
                invariant
                    a < C,
                    b <= R,
                    R >= 1,
                    C >= 1,
                    R * C <= usize::MAX,
                    v@.len() == a * R + b,
                    forall|x: int, y: int|
                        0 <= x < a && 0 <= y < R ==> v@[x * (R as int) + y] == values@[x]@[y],
                    forall|y: int| 0 <= y < b ==> v@[a * (R as int) + y] == values@[a as int]@[y],
                decreases R - b,
            {
                proof {
                    lemma_flat_index(C as int, R as int, a as int, b as int);
                    assert(a * (R as int) <= v@.len()) by (nonlinear_arith)
                        requires
                            v@.len() == a * (R as int) + b,
                            b >= 0,
                    ;
                    assert(C * (R as int) == R * (C as int)) by (nonlinear_arith);
                }
                let ghost vpre = v@;
                v.push(values[a][b]);
                proof {
                    assert forall|x: int, y: int| 0 <= x < a && 0 <= y < R implies v@[x * (
                    R as int) + y] == values@[x]@[y] by {
                        lemma_flat_index(a as int, R as int, x, y);
                        assert(vpre[x * (R as int) + y] == values@[x]@[y]);
                    }
                    assert forall|y: int| 0 <= y < b + 1 implies v@[a * (R as int) + y]
                        == values@[a as int]@[y] by {
                        if y < b {
                            assert(vpre[a * (R as int) + y] == values@[a as int]@[y]);
                        }
                    }
                }
                b += 1;
            }
            proof {
                assert((a + 1) * (R as int) == a * (R as int) + R) by (nonlinear_arith);
            }
            a += 1;
        }
        proof {
            assert(C * (R as int) == R * (C as int)) by (nonlinear_arith);
        }
        let r = Matrix::from_iter(R, C, v);
        proof {
            assert forall|i: int, j: int| 0 <= i < R && 0 <= j < C implies #[trigger] r@.index(
                i,
                j,
            ) == values@[(i * (C as int) + j) / (R as int)]@[(i * (C as int) + j) % (
            R as int)] by {
                let k = i * (C as int) + j;
                lemma_flat_index(R as int, C as int, i, j);
                vstd::arithmetic::div_mod::lemma_fundamental_div_mod(k, R as int);
                vstd::arithmetic::div_mod::lemma_mod_bound(k, R as int);
                let x = k / (R as int);
                let y = k % (R as int);
                assert(0 <= x < C) by (nonlinear_arith)
                    requires
                        k == (R as int) * x + y,
                        0 <= y < R,
                        0 <= k < R * C,
                ;
                assert(x * (R as int) + y == k) by (nonlinear_arith)
                    requires
                        k == (R as int) * x + y,
                ;
                assert(v@[x * (R as int) + y] == values@[x]@[y]);
            }
        }
        r
    }

    /// Calls `func` on a copy of every cell, row by row; a copy of a `Copy`
    /// element carries the same information as a reference to it.
    pub fn apply<F: Fn(T)>(&self, func: F)
        requires
            self.wf(),
            forall|i: int, j: int|
                0 <= i < self@.rows && 0 <= j < self@.cols ==> call_requires(
                    func,
                    (#[trigger] self@.index(i, j),),
                ),
    {
        let rows = self.rows();
        let cols = self.cols();
        let mut i: usize = 0;
        while i < rows
            invariant
                self.wf(),
                rows == self@.rows,
                cols == self@.cols,
                i <= rows,
                forall|a: int, b: int|
                    0 <= a < rows && 0 <= b < cols ==> call_requires(
                        func,
                        (#[trigger] self@.index(a, b),),
                    ),
            decreases rows - i,
        {
            let mut j: usize = 0;
            while j < cols
                invariant
                    self.wf(),
                    rows == self@.rows,
                    cols == self@.cols,
                    i < rows,
                    j <= cols,
                    forall|a: int, b: int|
                        0 <= a < rows && 0 <= b < cols ==> call_requires(
                            func,
                            (#[trigger] self@.index(a, b),),
                        ),
                decreases cols - j,
            {
                func(self.get(i, j).unwrap());
                j += 1;
            }
            i += 1;
        }
    }

    /// Replaces every cell by `func` of it, row by row: the function maps
    /// the old cell value to the new one, mutating the backing store in
    /// place.
    pub fn apply_mut<F: Fn(T) -> T>(&mut self, func: F)
        requires
            old(self).wf(),
            forall|i: int, j: int|
                0 <= i < old(self)@.rows && 0 <= j < old(self)@.cols ==> call_requires(
                    func,
                    (#[trigger] old(self)@.index(i, j),),
                ),
        ensures
            final(self).wf(),
            final(self)@.rows == old(self)@.rows,
            final(self)@.cols == old(self)@.cols,
            forall|i: int, j: int|
                0 <= i < old(self)@.rows && 0 <= j < old(self)@.cols ==> call_ensures(
                    func,
                    (old(self)@.index(i, j),),
                    #[trigger] final(self)@.index(i, j),
                ),
    {
        let ghost m0 = *self;
        let rows = self.rows();
        let cols = self.cols();
        let mut i: usize = 0;
        while i < rows
            invariant
                self.wf(),
                m0.wf(),
                rows == m0@.rows,
                cols == m0@.cols,
                self@.rows == m0@.rows,
                self@.cols == m0@.cols,
                i <= rows,
                forall|a: int, b: int|
                    0 <= a < rows && 0 <= b < cols ==> call_requires(
                        func,
                        (#[trigger] m0@.index(a, b),),
                    ),
                forall|a: int, b: int|
                    0 <= a < i && 0 <= b < cols ==> call_ensures(
                        func,
                        (m0@.index(a, b),),
                        #[trigger] self@.index(a, b),
                    ),
                forall|a: int, b: int|
                    i <= a < rows && 0 <= b < cols ==> #[trigger] self@.index(a, b) == m0@.index(
                        a,
                        b,
                    ),
            decreases rows - i,
        {
            let mut j: usize = 0;
            while j < cols
                invariant
                    self.wf(),
                    m0.wf(),
                    rows == m0@.rows,
                    cols == m0@.cols,
                    self@.rows == m0@.rows,
                    self@.cols == m0@.cols,
                    i < rows,
                    j <= cols,
                    forall|a: int, b: int|
                        0 <= a < rows && 0 <= b < cols ==> call_requires(
                            func,
                            (#[trigger] m0@.index(a, b),),
                        ),
                    forall|a: int, b: int|
                        0 <= a < i && 0 <= b < cols ==> call_ensures(
                            func,
                            (m0@.index(a, b),),
                            #[trigger] self@.index(a, b),
                        ),
                    forall|b: int|
                        0 <= b < j ==> call_ensures(
                            func,
                            (m0@.index(i as int, b),),
                            #[trigger] self@.index(i as int, b),
                        ),
                    forall|b: int|
                        j <= b < cols ==> #[trigger] self@.index(i as int, b) == m0@.index(
                            i as int,
                            b,
                        ),
                    forall|a: int, b: int|
                        i < a < rows && 0 <= b < cols ==> #[trigger] self@.index(a, b)
                            == m0@.index(a, b),
                decreases cols - j,
            {
                proof {
                    self.lemma_wf();
                }
                let cur = self.get(i, j).unwrap();
                let w = func(cur);
                let ghost pre = self@;
                self.set(i, j, w);
                proof {
                    assert forall|a: int, b: int| 0 <= a < i && 0 <= b < cols implies call_ensures(
                        func,
                        (m0@.index(a, b),),
                        #[trigger] self@.index(a, b),
                    ) by {
                        assert(call_ensures(func, (m0@.index(a, b),), pre.index(a, b)));
                    }
                    assert forall|b: int| 0 <= b < j + 1 implies call_ensures(
                        func,
                        (m0@.index(i as int, b),),
                        #[trigger] self@.index(i as int, b),
                    ) by {
                        if b < j {
                            assert(call_ensures(func, (m0@.index(i as int, b),), pre.index(i as int, b)));
                        }
                    }
                    assert forall|b: int| j + 1 <= b < cols implies #[trigger] self@.index(
                        i as int,
                        b,
                    ) == m0@.index(i as int, b) by {
                        assert(pre.index(i as int, b) == m0@.index(i as int, b));
                    }
                    assert forall|a: int, b: int|
                        i < a < rows && 0 <= b < cols implies #[trigger] self@.index(a, b)
                        == m0@.index(a, b) by {
                        assert(pre.index(a, b) == m0@.index(a, b));
                    }
                }
                j += 1;
            }
            i += 1;
        }
    }
}

/// Transposing twice gives back the model it started from: the same shape
/// and every cell.
pub proof fn lemma_transpose_involution<T>(m: MatrixV<T>)
    requires
        m.wf(),
    ensures
        m.transpose_v().transpose_v() == m,
{
    let u = m.transpose_v().transpose_v();
    assert forall|i: int| 0 <= i < u.grid.len() implies u.grid[i] =~= m.grid[i] by {
        assert forall|j: int| 0 <= j < m.cols implies u.grid[i][j] == m.grid[i][j] by {
        }
    }
    assert(u.grid =~= m.grid);
    assert(u =~= m);
}

/// Writing a cell of the model and reading it back gives the written
/// value, and no other cell changes.
pub proof fn lemma_set_cell_get<T>(v: MatrixV<T>, i: int, j: int, x: T)
    requires
        v.wf(),
        v.in_bounds(i, j),
    ensures
        v.set_cell(i, j, x).wf(),
        v.set_cell(i, j, x).index(i, j) == x,
        forall|a: int, b: int|
            v.in_bounds(a, b) && (a != i || b != j) ==> v.set_cell(i, j, x).index(a, b)
                == v.index(a, b),
{
}

/// Replacing one flat cell updates exactly one cell of the model.
proof fn lemma_set_view<T>(pre: Matrix<T>, post: Matrix<T>, row: int, col: int, value: T)
    requires
        pre.wf(),
        0 <= row < pre@.rows,
        0 <= col < pre@.cols,
        post.rows == pre.rows,
        post.cols == pre.cols,
        post.data@ == pre.data@.update(col + row * (pre.cols as int), value),
    ensures
        post.wf(),
        post@ == pre@.set_cell(row, col, value),
{
    lemma_flat_index(pre.rows as int, pre.cols as int, row, col);
    let target = pre@.set_cell(row, col, value);
    assert forall|i: int| 0 <= i < post@.grid.len() implies post@.grid[i] =~= target.grid[i] by {
        assert forall|j: int| 0 <= j < pre.cols implies post@.grid[i][j] == target.grid[i][j] by {
            lemma_flat_index(pre.rows as int, pre.cols as int, i, j);
            if j + i * (pre.cols as int) == col + row * (pre.cols as int) {
                lemma_flat_index_injective(pre.cols as int, i, j, row, col);
            }
        }
    }
    assert(post@.grid =~= target.grid);
    assert(post@ =~= target);
}

} // verus!
