//! Element-wise arithmetic, matrix multiplication, and the constructors
//! that need an element identity (`zero`, `identity`).
//!
//! Shape mismatches on these operations are caller contract violations, a
//! hard failure rather than a checked one; they are excluded by
//! `requires`, so the verified bodies never truncate or pad silently.

use vstd::prelude::*;

use crate::matrix::Matrix;
use crate::matrix::MatrixV;
use crate::num::Arith;
use crate::num::Numeric;
use crate::num::One;
use crate::num::Zero;

verus! {

/// The dot product of the first `k` cells of `a` and `b`, accumulated left
/// to right exactly as the executable loop accumulates it.
pub open spec fn dot<T: Arith>(a: Seq<T>, b: Seq<T>, k: int) -> T
    decreases k,
{
    if k <= 1 {
        a[0].mul_v(b[0])
    } else {
        dot(a, b, k - 1).add_v(a[k - 1].mul_v(b[k - 1]))
    }
}

/// Whether every multiplication and accumulation step of `dot(a, b, k)` is
/// within the element type's machine limits.
pub open spec fn dot_ok<T: Arith>(a: Seq<T>, b: Seq<T>, k: int) -> bool
    decreases k,
{
    if k <= 1 {
        a[0].mul_ok(b[0])
    } else {
        dot_ok(a, b, k - 1) && a[k - 1].mul_ok(b[k - 1]) && dot(a, b, k - 1).add_ok(
            a[k - 1].mul_v(b[k - 1]),
        )
    }
}

/// A feasible dot product is feasible on every prefix.
pub proof fn lemma_dot_ok_prefix<T: Arith>(a: Seq<T>, b: Seq<T>, k: int, n: int)
    requires
        dot_ok(a, b, n),
        1 <= k <= n,
    ensures
        dot_ok(a, b, k),
    decreases n,
{
    if k < n {
        lemma_dot_ok_prefix(a, b, k, n - 1);
    }
}

impl<T: Zero> Matrix<T> {
    /// A matrix of the given shape whose every cell is the additive
    /// identity. An empty shape is a caller contract violation, excluded by
    /// `requires`.
    pub fn zero(rows: usize, cols: usize) -> (r: Matrix<T>)
        requires
            rows >= 1,
            cols >= 1,
            rows * cols <= usize::MAX,
        ensures
            r.wf(),
            r@.rows == rows,
            r@.cols == cols,
            forall|i: int, j: int|
                0 <= i < rows && 0 <= j < cols ==> r@.index(i, j) == T::zero_v(),
    {
        let n = rows * cols;
        let mut v: Vec<T> = Vec::new();
        let mut k: usize = 0;
        while k < n
            invariant
                k <= n,
                v@.len() == k,
                forall|t: int| 0 <= t < k ==> v@[t] == T::zero_v(),
            decreases n - k,
        {
            v.push(T::zero());
            k += 1;
        }
        let r = Matrix::from_iter(rows, cols, v);
        proof {
            assert forall|i: int, j: int| 0 <= i < rows && 0 <= j < cols implies r@.index(i, j)
                == T::zero_v() by {
                crate::matrix::lemma_flat_index(rows as int, cols as int, i, j);
            }
        }
        r
    }
}

impl<T: Zero + One> Matrix<T> {
    /// The identity matrix of the given size: the multiplicative identity on
    /// the diagonal, the additive identity everywhere else. A zero size is a
    /// caller contract violation, excluded by `requires`.
    pub fn identity(size: usize) -> (r: Matrix<T>)
        requires
            size >= 1,
            size * size <= usize::MAX,
        ensures
            r.wf(),
            r@.rows == size,
            r@.cols == size,
            forall|i: int, j: int|
                0 <= i < size && 0 <= j < size ==> r@.index(i, j) == (if i == j {
                    T::one_v()
                } else {
                    T::zero_v()
                }),
    {
        let mut result: Matrix<T> = Matrix::zero(size, size);
        let mut i: usize = 0;
        while i < size
            invariant
                result.wf(),
                result@.rows == size,
                result@.cols == size,
                i <= size,
                forall|a: int, b: int|
                    0 <= a < size && 0 <= b < size && a != b ==> result@.index(a, b)
                        == T::zero_v(),
                forall|a: int| 0 <= a < i ==> result@.index(a, a) == T::one_v(),
                forall|a: int| i <= a < size ==> result@.index(a, a) == T::zero_v(),
            decreases size - i,
        {
            let ghost pre = result@;
            proof {
                result.lemma_wf();
            }
            result.set(i, i, T::one());
            proof {
                assert forall|a: int, b: int|
                    0 <= a < size && 0 <= b < size && a != b implies result@.index(a, b)
                    == T::zero_v() by {
                    assert(pre.index(a, b) == T::zero_v());
                }
                assert forall|a: int| 0 <= a < i + 1 implies result@.index(a, a)
                    == T::one_v() by {
                    if a < i {
                        assert(pre.index(a, a) == T::one_v());
                    }
                }
                assert forall|a: int| i + 1 <= a < size implies result@.index(a, a)
                    == T::zero_v() by {
                    assert(pre.index(a, a) == T::zero_v());
                }
            }
            i += 1;
        }
        result
    }
}

impl<T: Arith> Matrix<T> {
    /// The element-wise sum of two matrices of the same shape. A shape
    /// mismatch is a caller contract violation, excluded by `requires`, so
    /// no silent truncation or padding can happen.
    pub fn add(&self, rhs: &Matrix<T>) -> (r: Matrix<T>)
        requires
            self.wf(),
            rhs.wf(),
            self@.rows == rhs@.rows,
            self@.cols == rhs@.cols,
            forall|i: int, j: int|
                0 <= i < self@.rows && 0 <= j < self@.cols ==> self@.index(i, j).add_ok(
                    rhs@.index(i, j),
                ),
        ensures
            r.wf(),
            r@.rows == self@.rows,
            r@.cols == self@.cols,
            forall|i: int, j: int|
                0 <= i < self@.rows && 0 <= j < self@.cols ==> r@.index(i, j) == self@.index(
                    i,
                    j,
                ).add_v(rhs@.index(i, j)),
    {
        let rows = self.rows();
        let cols = self.cols();
        let mut v: Vec<T> = Vec::new();
        proof {
            self.lemma_wf();
        }
        let mut i: usize = 0;
        while i < rows
            invariant
                self.wf(),
                rhs.wf(),
                self@.rows == rhs@.rows,
                self@.cols == rhs@.cols,
                rows == self@.rows,
                cols == self@.cols,
                forall|a: int, b: int|
                    0 <= a < rows && 0 <= b < cols ==> self@.index(a, b).add_ok(rhs@.index(a, b)),
                i <= rows,
                v@.len() == i * cols,
                forall|a: int, b: int|
                    0 <= a < i && 0 <= b < cols ==> v@[a * (cols as int) + b] == self@.index(
                        a,
                        b,
                    ).add_v(rhs@.index(a, b)),
            decreases rows - i,
        {
            let mut j: usize = 0;
            while j < cols
                invariant
                    self.wf(),
                    rhs.wf(),
                    self@.rows == rhs@.rows,
                    self@.cols == rhs@.cols,
                    rows == self@.rows,
                    cols == self@.cols,
                    forall|a: int, b: int|
                        0 <= a < rows && 0 <= b < cols ==> self@.index(a, b).add_ok(
                            rhs@.index(a, b),
                        ),
                    i < rows,
                    j <= cols,
                    v@.len() == i * cols + j,
                    forall|a: int, b: int|
                        0 <= a < i && 0 <= b < cols ==> v@[a * (cols as int) + b] == self@.index(
                            a,
                            b,
                        ).add_v(rhs@.index(a, b)),
                    forall|b: int|
                        0 <= b < j ==> v@[i * (cols as int) + b] == self@.index(
                            i as int,
                            b,
                        ).add_v(rhs@.index(i as int, b)),
                decreases cols - j,
            {
                proof {
                    crate::matrix::lemma_flat_index(rows as int, cols as int, i as int, j as int);
                    self.lemma_wf();
                    assert(i * (cols as int) <= v@.len()) by (nonlinear_arith)
                        requires
                            v@.len() == i * (cols as int) + j,
                            j >= 0,
                    ;
                }
                let ghost vpre = v@;
                let a = self.get(i, j).unwrap();
                let b = rhs.get(i, j).unwrap();
                v.push(a.add(b));
                proof {
                    assert forall|a2: int, b2: int| 0 <= a2 < i && 0 <= b2 < cols implies v@[a2
                        * (cols as int) + b2] == self@.index(a2, b2).add_v(rhs@.index(a2, b2)) by {
                        crate::matrix::lemma_flat_index(i as int, cols as int, a2, b2);
                        assert(vpre[a2 * (cols as int) + b2] == self@.index(a2, b2).add_v(
                            rhs@.index(a2, b2),
                        ));
                    }
                    assert forall|b2: int| 0 <= b2 < j + 1 implies v@[i * (cols as int) + b2]
                        == self@.index(i as int, b2).add_v(rhs@.index(i as int, b2)) by {
                        if b2 < j {
                            assert(vpre[i * (cols as int) + b2] == self@.index(i as int, b2).add_v(
                                rhs@.index(i as int, b2),
                            ));
                        }
                    }
                }
                j += 1;
            }
            proof {
                assert((i + 1) * (cols as int) == i * (cols as int) + cols) by (nonlinear_arith);
            }
            i += 1;
        }
        proof {
            assert(self@.rows * self@.cols <= usize::MAX) by {
                self.lemma_wf();
            }
        }
        let r = Matrix::from_iter(rows, cols, v);
        r
    }
}

impl<T: Arith> Matrix<T> {
    /// The element-wise difference of two matrices of the same shape. A
    /// shape mismatch is a caller contract violation, excluded by
    /// `requires`, so no silent truncation or padding can happen.
    pub fn sub(&self, rhs: &Matrix<T>) -> (r: Matrix<T>)
        requires
            self.wf(),
            rhs.wf(),
            self@.rows == rhs@.rows,
            self@.cols == rhs@.cols,
            forall|i: int, j: int|
                0 <= i < self@.rows && 0 <= j < self@.cols ==> self@.index(i, j).sub_ok(
                    rhs@.index(i, j),
                ),
        ensures
            r.wf(),
            r@.rows == self@.rows,
            r@.cols == self@.cols,
            forall|i: int, j: int|
                0 <= i < self@.rows && 0 <= j < self@.cols ==> r@.index(i, j) == self@.index(
                    i,
                    j,
                ).sub_v(rhs@.index(i, j)),
    {
        let rows = self.rows();
        let cols = self.cols();
        let mut v: Vec<T> = Vec::new();
        proof {
            self.lemma_wf();
        }
        let mut i: usize = 0;
        while i < rows
            invariant
                self.wf(),
                rhs.wf(),
                self@.rows == rhs@.rows,
                self@.cols == rhs@.cols,
                rows == self@.rows,
                cols == self@.cols,
                forall|a: int, b: int|
                    0 <= a < rows && 0 <= b < cols ==> self@.index(a, b).sub_ok(rhs@.index(a, b)),
                i <= rows,
                v@.len() == i * cols,
                forall|a: int, b: int|
                    0 <= a < i && 0 <= b < cols ==> v@[a * (cols as int) + b] == self@.index(
                        a,
                        b,
                    ).sub_v(rhs@.index(a, b)),
            decreases rows - i,
        {
            let mut j: usize = 0;
            while j < cols
                invariant
                    self.wf(),
                    rhs.wf(),
                    self@.rows == rhs@.rows,
                    self@.cols == rhs@.cols,
                    rows == self@.rows,
                    cols == self@.cols,
                    forall|a: int, b: int|
                        0 <= a < rows && 0 <= b < cols ==> self@.index(a, b).sub_ok(
                            rhs@.index(a, b),
                        ),
                    i < rows,
                    j <= cols,
                    v@.len() == i * cols + j,
                    forall|a: int, b: int|
                        0 <= a < i && 0 <= b < cols ==> v@[a * (cols as int) + b] == self@.index(
                            a,
                            b,
                        ).sub_v(rhs@.index(a, b)),
                    forall|b: int|
                        0 <= b < j ==> v@[i * (cols as int) + b] == self@.index(
                            i as int,
                            b,
                        ).sub_v(rhs@.index(i as int, b)),
                decreases cols - j,
            {
                proof {
                    crate::matrix::lemma_flat_index(rows as int, cols as int, i as int, j as int);
                    self.lemma_wf();
                    assert(i * (cols as int) <= v@.len()) by (nonlinear_arith)
                        requires
                            v@.len() == i * (cols as int) + j,
                            j >= 0,
                    ;
                }
                let ghost vpre = v@;
                let a = self.get(i, j).unwrap();
                let b = rhs.get(i, j).unwrap();
                v.push(a.sub(b));
                proof {
                    assert forall|a2: int, b2: int| 0 <= a2 < i && 0 <= b2 < cols implies v@[a2
                        * (cols as int) + b2] == self@.index(a2, b2).sub_v(rhs@.index(a2, b2)) by {
                        crate::matrix::lemma_flat_index(i as int, cols as int, a2, b2);
                        assert(vpre[a2 * (cols as int) + b2] == self@.index(a2, b2).sub_v(
                            rhs@.index(a2, b2),
                        ));
                    }
                    assert forall|b2: int| 0 <= b2 < j + 1 implies v@[i * (cols as int) + b2]
                        == self@.index(i as int, b2).sub_v(rhs@.index(i as int, b2)) by {
                        if b2 < j {
                            assert(vpre[i * (cols as int) + b2] == self@.index(i as int, b2).sub_v(
                                rhs@.index(i as int, b2),
                            ));
                        }
                    }
                }
                j += 1;
            }
            proof {
                assert((i + 1) * (cols as int) == i * (cols as int) + cols) by (nonlinear_arith);
            }
            i += 1;
        }
        proof {
            assert(self@.rows * self@.cols <= usize::MAX) by {
                self.lemma_wf();
            }
        }
        let r = Matrix::from_iter(rows, cols, v);
        r
    }
}

impl<T: Arith> Matrix<T> {
    /// The element-wise additive inverse of a matrix.
    pub fn neg(&self) -> (r: Matrix<T>)
        requires
            self.wf(),
            forall|i: int, j: int|
                0 <= i < self@.rows && 0 <= j < self@.cols ==> self@.index(i, j).neg_ok(),
        ensures
            r.wf(),
            r@.rows == self@.rows,
            r@.cols == self@.cols,
            forall|i: int, j: int|
                0 <= i < self@.rows && 0 <= j < self@.cols ==> r@.index(i, j) == self@.index(
                    i,
                    j,
                ).neg_v(),
    {
        let rows = self.rows();
        let cols = self.cols();
        let mut v: Vec<T> = Vec::new();
        proof {
            self.lemma_wf();
        }
        let mut i: usize = 0;
        while i < rows
            invariant
                self.wf(),
                rows == self@.rows,
                cols == self@.cols,
                forall|a: int, b: int|
                    0 <= a < rows && 0 <= b < cols ==> self@.index(a, b).neg_ok(),
                i <= rows,
                v@.len() == i * cols,
                forall|a: int, b: int|
                    0 <= a < i && 0 <= b < cols ==> v@[a * (cols as int) + b] == self@.index(
                        a,
                        b,
                    ).neg_v(),
            decreases rows - i,
        {
            let mut j: usize = 0;
            while j < cols
                invariant
                    self.wf(),
                    rows == self@.rows,
                    cols == self@.cols,
                    forall|a: int, b: int|
                        0 <= a < rows && 0 <= b < cols ==> self@.index(a, b).neg_ok(),
                    i < rows,
                    j <= cols,
                    v@.len() == i * cols + j,
                    forall|a: int, b: int|
                        0 <= a < i && 0 <= b < cols ==> v@[a * (cols as int) + b] == self@.index(
                            a,
                            b,
                        ).neg_v(),
                    forall|b: int|
                        0 <= b < j ==> v@[i * (cols as int) + b] == self@.index(
                            i as int,
                            b,
                        ).neg_v(),
                decreases cols - j,
            {
                proof {
                    crate::matrix::lemma_flat_index(rows as int, cols as int, i as int, j as int);
                    self.lemma_wf();
                    assert(i * (cols as int) <= v@.len()) by (nonlinear_arith)
                        requires
                            v@.len() == i * (cols as int) + j,
                            j >= 0,
                    ;
                }
                let ghost vpre = v@;
                let a = self.get(i, j).unwrap();
                v.push(a.neg());
                proof {
                    assert forall|a2: int, b2: int| 0 <= a2 < i && 0 <= b2 < cols implies v@[a2
                        * (cols as int) + b2] == self@.index(a2, b2).neg_v() by {
                        crate::matrix::lemma_flat_index(i as int, cols as int, a2, b2);
                        assert(vpre[a2 * (cols as int) + b2] == self@.index(a2, b2).neg_v());
                    }
                    assert forall|b2: int| 0 <= b2 < j + 1 implies v@[i * (cols as int) + b2]
                        == self@.index(i as int, b2).neg_v() by {
                        if b2 < j {
                            assert(vpre[i * (cols as int) + b2] == self@.index(i as int, b2).neg_v());
                        }
                    }
                }
                j += 1;
            }
            proof {
                assert((i + 1) * (cols as int) == i * (cols as int) + cols) by (nonlinear_arith);
            }
            i += 1;
        }
        proof {
            assert(self@.rows * self@.cols <= usize::MAX) by {
                self.lemma_wf();
            }
        }
        let r = Matrix::from_iter(rows, cols, v);
        r
    }

    /// The matrix product. The inner dimensions must agree (a mismatch is a
    /// caller contract violation, excluded by `requires`); each result cell
    /// is the dot product of a row of `self` and a column of `rhs`,
    /// accumulated left to right.
    pub fn mul(&self, rhs: &Matrix<T>) -> (r: Matrix<T>)
        requires
            self.wf(),
            rhs.wf(),
            self@.cols == rhs@.rows,
            self@.rows * rhs@.cols <= usize::MAX,
            forall|i: int, j: int|
                0 <= i < self@.rows && 0 <= j < rhs@.cols ==> #[trigger] dot_ok(
                    self@.row_v(i),
                    rhs@.col_v(j),
                    self@.cols as int,
                ),
        ensures
            r.wf(),
            r@.rows == self@.rows,
            r@.cols == rhs@.cols,
            forall|i: int, j: int|
                0 <= i < self@.rows && 0 <= j < rhs@.cols ==> r@.index(i, j) == dot(
                    self@.row_v(i),
                    rhs@.col_v(j),
                    self@.cols as int,
                ),
    {
        let rows = self.rows();
        let cols = rhs.cols();
        let inner = self.cols();
        let mut v: Vec<T> = Vec::new();
        proof {
            self.lemma_wf();
            rhs.lemma_wf();
        }
        let mut i: usize = 0;
        while i < rows
            invariant
                self.wf(),
                rhs.wf(),
                self@.cols == rhs@.rows,
                rows == self@.rows,
                cols == rhs@.cols,
                inner == self@.cols,
                forall|a: int, b: int|
                    0 <= a < rows && 0 <= b < cols ==> #[trigger] dot_ok(
                        self@.row_v(a),
                        rhs@.col_v(b),
                        inner as int,
                    ),
                i <= rows,
                v@.len() == i * cols,
                forall|a: int, b: int|
                    0 <= a < i && 0 <= b < cols ==> v@[a * (cols as int) + b] == dot(
                        self@.row_v(a),
                        rhs@.col_v(b),
                        inner as int,
                    ),
            decreases rows - i,
        {
            let mut j: usize = 0;
            while j < cols
                invariant
                    self.wf(),
                    rhs.wf(),
                    self@.cols == rhs@.rows,
                    rows == self@.rows,
                    cols == rhs@.cols,
                    inner == self@.cols,
                    forall|a: int, b: int|
                        0 <= a < rows && 0 <= b < cols ==> #[trigger] dot_ok(
                            self@.row_v(a),
                            rhs@.col_v(b),
                            inner as int,
                        ),
                    i < rows,
                    j <= cols,
                    v@.len() == i * cols + j,
                    forall|a: int, b: int|
                        0 <= a < i && 0 <= b < cols ==> v@[a * (cols as int) + b] == dot(
                            self@.row_v(a),
                            rhs@.col_v(b),
                            inner as int,
                        ),
                    forall|b: int|
                        0 <= b < j ==> v@[i * (cols as int) + b] == dot(
                            self@.row_v(i as int),
                            rhs@.col_v(b),
                            inner as int,
                        ),
                decreases cols - j,
            {
                let ghost a = self@.row_v(i as int);
                let ghost b = rhs@.col_v(j as int);
                proof {
                    self.lemma_wf();
                    rhs.lemma_wf();
                    assert(dot_ok(a, b, inner as int));
                    if 1 < inner {
                        lemma_dot_ok_prefix(a, b, 1, inner as int);
                    }
                    assert(a[0] == self@.index(i as int, 0));
                    assert(b[0] == rhs@.index(0, j as int));
                }
                let mut acc = self.get(i, 0).unwrap().mul(rhs.get(0, j).unwrap());
                let mut k: usize = 1;
                while k < inner
                    invariant
                        self.wf(),
                        rhs.wf(),
                        self@.cols == rhs@.rows,
                        rows == self@.rows,
                        cols == rhs@.cols,
                        inner == self@.cols,
                        i < rows,
                        j < cols,
                        1 <= k <= inner,
                        a == self@.row_v(i as int),
                        b == rhs@.col_v(j as int),
                        dot_ok(a, b, inner as int),
                        acc == dot(a, b, k as int),
                    decreases inner - k,
                {
                    proof {
                        lemma_dot_ok_prefix(a, b, k as int + 1, inner as int);
                        assert(a[k as int] == self@.index(i as int, k as int));
                        assert(b[k as int] == rhs@.index(k as int, j as int));
                    }
                    let t = self.get(i, k).unwrap().mul(rhs.get(k, j).unwrap());
                    acc = acc.add(t);
                    k += 1;
                }
                proof {
                    crate::matrix::lemma_flat_index(rows as int, cols as int, i as int, j as int);
                    assert(i * (cols as int) <= v@.len()) by (nonlinear_arith)
                        requires
                            v@.len() == i * (cols as int) + j,
                            j >= 0,
                    ;
                }
                let ghost vpre = v@;
                v.push(acc);
                proof {
                    assert forall|a2: int, b2: int| 0 <= a2 < i && 0 <= b2 < cols implies v@[a2
                        * (cols as int) + b2] == dot(
                        self@.row_v(a2),
                        rhs@.col_v(b2),
                        inner as int,
                    ) by {
                        crate::matrix::lemma_flat_index(i as int, cols as int, a2, b2);
                        assert(vpre[a2 * (cols as int) + b2] == dot(
                            self@.row_v(a2),
                            rhs@.col_v(b2),
                            inner as int,
                        ));
                    }
                    assert forall|b2: int| 0 <= b2 < j + 1 implies v@[i * (cols as int) + b2]
                        == dot(self@.row_v(i as int), rhs@.col_v(b2), inner as int) by {
                        if b2 < j {
                            assert(vpre[i * (cols as int) + b2] == dot(
                                self@.row_v(i as int),
                                rhs@.col_v(b2),
                                inner as int,
                            ));
                        }
                    }
                }
                j += 1;
            }
            proof {
                assert((i + 1) * (cols as int) == i * (cols as int) + cols) by (nonlinear_arith);
            }
            i += 1;
        }
        let r = Matrix::from_iter(rows, cols, v);
        r
    }
}


impl<T: Arith> Matrix<T> {
    /// In-place element-wise sum: mutates the left operand's backing store
    /// directly. A shape mismatch is a caller contract violation, excluded
    /// by `requires`.
    pub fn add_assign(&mut self, rhs: &Matrix<T>)
        requires
            old(self).wf(),
            rhs.wf(),
            old(self)@.rows == rhs@.rows,
            old(self)@.cols == rhs@.cols,
            forall|i: int, j: int|
                0 <= i < old(self)@.rows && 0 <= j < old(self)@.cols ==> old(self)@.index(
                    i,
                    j,
                ).add_ok(rhs@.index(i, j)),
        ensures
            final(self).wf(),
            final(self)@.rows == old(self)@.rows,
            final(self)@.cols == old(self)@.cols,
            forall|i: int, j: int|
                0 <= i < old(self)@.rows && 0 <= j < old(self)@.cols ==> final(self)@.index(i, j)
                    == old(self)@.index(i, j).add_v(rhs@.index(i, j)),
    {
        let ghost m0 = *self;
        let rows = self.rows();
        let cols = self.cols();
        let mut i: usize = 0;
        while i < rows
            invariant
                self.wf(),
                rhs.wf(),
                m0.wf(),
                rows == m0@.rows,
                cols == m0@.cols,
                rhs@.rows == m0@.rows,
                rhs@.cols == m0@.cols,
                self@.rows == m0@.rows,
                self@.cols == m0@.cols,
                i <= rows,
                forall|a: int, b: int|
                    0 <= a < rows && 0 <= b < cols ==> m0@.index(a, b).add_ok(
                        #[trigger] rhs@.index(a, b),
                    ),
                forall|a: int, b: int|
                    0 <= a < i && 0 <= b < cols ==> #[trigger] self@.index(a, b) == m0@.index(
                        a,
                        b,
                    ).add_v(rhs@.index(a, b)),
                forall|a: int, b: int|
                    i <= a < rows && 0 <= b < cols ==> #[trigger] self@.index(a, b) == m0@.index(
                        a,
                        b,
                    ),
            decreases rows - i,
        {
            let mut j: usize = 0;
            while j < cols
                invariant
                    self.wf(),
                    rhs.wf(),
                    m0.wf(),
                    rows == m0@.rows,
                    cols == m0@.cols,
                    rhs@.rows == m0@.rows,
                    rhs@.cols == m0@.cols,
                    self@.rows == m0@.rows,
                    self@.cols == m0@.cols,
                    i < rows,
                    j <= cols,
                    forall|a: int, b: int|
                        0 <= a < rows && 0 <= b < cols ==> m0@.index(a, b).add_ok(
                            #[trigger] rhs@.index(a, b),
                        ),
                    forall|a: int, b: int|
                        0 <= a < i && 0 <= b < cols ==> #[trigger] self@.index(a, b) == m0@.index(
                            a,
                            b,
                        ).add_v(rhs@.index(a, b)),
                    forall|b: int|
                        0 <= b < j ==> #[trigger] self@.index(i as int, b) == m0@.index(
                            i as int,
                            b,
                        ).add_v(rhs@.index(i as int, b)),
                    forall|b: int|
                        j <= b < cols ==> #[trigger] self@.index(i as int, b) == m0@.index(
                            i as int,
                            b,
                        ),
                    forall|a: int, b: int|
                        i < a < rows && 0 <= b < cols ==> #[trigger] self@.index(a, b)
                            == m0@.index(a, b),
                decreases cols - j,
            {
                proof {
                    self.lemma_wf();
                }
                let a = self.get(i, j).unwrap();
                let b = rhs.get(i, j).unwrap();
                let ghost pre = self@;
                self.set(i, j, a.add(b));
                proof {
                    assert forall|a2: int, b2: int|
                        0 <= a2 < i && 0 <= b2 < cols implies #[trigger] self@.index(a2, b2)
                        == m0@.index(a2, b2).add_v(rhs@.index(a2, b2)) by {
                        assert(pre.index(a2, b2) == m0@.index(a2, b2).add_v(rhs@.index(a2, b2)));
                    }
                    assert forall|b2: int| 0 <= b2 < j + 1 implies #[trigger] self@.index(
                        i as int,
                        b2,
                    ) == m0@.index(i as int, b2).add_v(rhs@.index(i as int, b2)) by {
                        if b2 < j {
                            assert(pre.index(i as int, b2) == m0@.index(i as int, b2).add_v(
                                rhs@.index(i as int, b2),
                            ));
                        }
                    }
                    assert forall|b2: int| j + 1 <= b2 < cols implies #[trigger] self@.index(
                        i as int,
                        b2,
                    ) == m0@.index(i as int, b2) by {
                        assert(pre.index(i as int, b2) == m0@.index(i as int, b2));
                    }
                    assert forall|a2: int, b2: int|
                        i < a2 < rows && 0 <= b2 < cols implies #[trigger] self@.index(a2, b2)
                        == m0@.index(a2, b2) by {
                        assert(pre.index(a2, b2) == m0@.index(a2, b2));
                    }
                }
                j += 1;
            }
            i += 1;
        }
    }
}


impl<T: Arith> Matrix<T> {
    /// In-place element-wise difference: mutates the left operand's backing
    /// store directly. A shape mismatch is a caller contract violation,
    /// excluded by `requires`.
    pub fn sub_assign(&mut self, rhs: &Matrix<T>)
        requires
            old(self).wf(),
            rhs.wf(),
            old(self)@.rows == rhs@.rows,
            old(self)@.cols == rhs@.cols,
            forall|i: int, j: int|
                0 <= i < old(self)@.rows && 0 <= j < old(self)@.cols ==> old(self)@.index(
                    i,
                    j,
                ).sub_ok(rhs@.index(i, j)),
        ensures
            final(self).wf(),
            final(self)@.rows == old(self)@.rows,
            final(self)@.cols == old(self)@.cols,
            forall|i: int, j: int|
                0 <= i < old(self)@.rows && 0 <= j < old(self)@.cols ==> final(self)@.index(i, j)
                    == old(self)@.index(i, j).sub_v(rhs@.index(i, j)),
    {
        let ghost m0 = *self;
        let rows = self.rows();
        let cols = self.cols();
        let mut i: usize = 0;
        while i < rows
            invariant
                self.wf(),
                rhs.wf(),
                m0.wf(),
                rows == m0@.rows,
                cols == m0@.cols,
                rhs@.rows == m0@.rows,
                rhs@.cols == m0@.cols,
                self@.rows == m0@.rows,
                self@.cols == m0@.cols,
                i <= rows,
                forall|a: int, b: int|
                    0 <= a < rows && 0 <= b < cols ==> m0@.index(a, b).sub_ok(
                        #[trigger] rhs@.index(a, b),
                    ),
                forall|a: int, b: int|
                    0 <= a < i && 0 <= b < cols ==> #[trigger] self@.index(a, b) == m0@.index(
                        a,
                        b,
                    ).sub_v(rhs@.index(a, b)),
                forall|a: int, b: int|
                    i <= a < rows && 0 <= b < cols ==> #[trigger] self@.index(a, b) == m0@.index(
                        a,
                        b,
                    ),
            decreases rows - i,
        {
            let mut j: usize = 0;
            while j < cols
                invariant
                    self.wf(),
                    rhs.wf(),
                    m0.wf(),
                    rows == m0@.rows,
                    cols == m0@.cols,
                    rhs@.rows == m0@.rows,
                    rhs@.cols == m0@.cols,
                    self@.rows == m0@.rows,
                    self@.cols == m0@.cols,
                    i < rows,
                    j <= cols,
                    forall|a: int, b: int|
                        0 <= a < rows && 0 <= b < cols ==> m0@.index(a, b).sub_ok(
                            #[trigger] rhs@.index(a, b),
                        ),
                    forall|a: int, b: int|
                        0 <= a < i && 0 <= b < cols ==> #[trigger] self@.index(a, b) == m0@.index(
                            a,
                            b,
                        ).sub_v(rhs@.index(a, b)),
                    forall|b: int|
                        0 <= b < j ==> #[trigger] self@.index(i as int, b) == m0@.index(
                            i as int,
                            b,
                        ).sub_v(rhs@.index(i as int, b)),
                    forall|b: int|
                        j <= b < cols ==> #[trigger] self@.index(i as int, b) == m0@.index(
                            i as int,
                            b,
                        ),
                    forall|a: int, b: int|
                        i < a < rows && 0 <= b < cols ==> #[trigger] self@.index(a, b)
                            == m0@.index(a, b),
                decreases cols - j,
            {
                proof {
                    self.lemma_wf();
                }
                let a = self.get(i, j).unwrap();
                let b = rhs.get(i, j).unwrap();
                let ghost pre = self@;
                self.set(i, j, a.sub(b));
                proof {
                    assert forall|a2: int, b2: int|
                        0 <= a2 < i && 0 <= b2 < cols implies #[trigger] self@.index(a2, b2)
                        == m0@.index(a2, b2).sub_v(rhs@.index(a2, b2)) by {
                        assert(pre.index(a2, b2) == m0@.index(a2, b2).sub_v(rhs@.index(a2, b2)));
                    }
                    assert forall|b2: int| 0 <= b2 < j + 1 implies #[trigger] self@.index(
                        i as int,
                        b2,
                    ) == m0@.index(i as int, b2).sub_v(rhs@.index(i as int, b2)) by {
                        if b2 < j {
                            assert(pre.index(i as int, b2) == m0@.index(i as int, b2).sub_v(
                                rhs@.index(i as int, b2),
                            ));
                        }
                    }
                    assert forall|b2: int| j + 1 <= b2 < cols implies #[trigger] self@.index(
                        i as int,
                        b2,
                    ) == m0@.index(i as int, b2) by {
                        assert(pre.index(i as int, b2) == m0@.index(i as int, b2));
                    }
                    assert forall|a2: int, b2: int|
                        i < a2 < rows && 0 <= b2 < cols implies #[trigger] self@.index(a2, b2)
                        == m0@.index(a2, b2) by {
                        assert(pre.index(a2, b2) == m0@.index(a2, b2));
                    }
                }
                j += 1;
            }
            i += 1;
        }
    }
}

/// Multiplying on the right by an identity matrix keeps every cell, up to
/// the element type's equivalence: the dot product of a row with a unit
/// column selects exactly the matching cell.
pub proof fn lemma_mul_identity_right<T: Numeric>(m: MatrixV<T>, id: MatrixV<T>)
    requires
        m.wf(),
        id.wf(),
        id.rows == m.cols,
        id.cols == m.cols,
        forall|i: int, j: int|
            0 <= i < id.rows && 0 <= j < id.cols ==> id.index(i, j) == (if i == j {
                T::one_v()
            } else {
                T::zero_v()
            }),
        forall|i: int, j: int|
            0 <= i < m.rows && 0 <= j < id.cols ==> #[trigger] dot_ok(
                m.row_v(i),
                id.col_v(j),
                m.cols as int,
            ),
    ensures
        forall|i: int, j: int|
            0 <= i < m.rows && 0 <= j < m.cols ==> #[trigger] dot(
                m.row_v(i),
                id.col_v(j),
                m.cols as int,
            ).eqv(m.index(i, j)),
{
    assert forall|i: int, j: int| 0 <= i < m.rows && 0 <= j < m.cols implies #[trigger] dot(
        m.row_v(i),
        id.col_v(j),
        m.cols as int,
    ).eqv(m.index(i, j)) by {
        let e = id.col_v(j);
        assert(m.row_v(i).len() == m.cols);
        assert forall|c: int| 0 <= c < e.len() implies e[c] == (if c == j {
            T::one_v()
        } else {
            T::zero_v()
        }) by {
            assert(id.index(c, j) == (if c == j {
                T::one_v()
            } else {
                T::zero_v()
            }));
        }
        assert(dot_ok(m.row_v(i), id.col_v(j), m.cols as int));
        lemma_dot_unit_right::<T>(m.row_v(i), e, j, m.cols as int);
    }
}

/// Multiplying on the left by an identity matrix keeps every cell, up to
/// the element type's equivalence.
pub proof fn lemma_mul_identity_left<T: Numeric>(id: MatrixV<T>, m: MatrixV<T>)
    requires
        m.wf(),
        id.wf(),
        id.rows == m.rows,
        id.cols == m.rows,
        forall|i: int, j: int|
            0 <= i < id.rows && 0 <= j < id.cols ==> id.index(i, j) == (if i == j {
                T::one_v()
            } else {
                T::zero_v()
            }),
        forall|i: int, j: int|
            0 <= i < id.rows && 0 <= j < m.cols ==> #[trigger] dot_ok(
                id.row_v(i),
                m.col_v(j),
                id.cols as int,
            ),
    ensures
        forall|i: int, j: int|
            0 <= i < m.rows && 0 <= j < m.cols ==> #[trigger] dot(
                id.row_v(i),
                m.col_v(j),
                id.cols as int,
            ).eqv(m.index(i, j)),
{
    assert forall|i: int, j: int| 0 <= i < m.rows && 0 <= j < m.cols implies #[trigger] dot(
        id.row_v(i),
        m.col_v(j),
        id.cols as int,
    ).eqv(m.index(i, j)) by {
        let e = id.row_v(i);
        assert(e.len() == id.cols);
        assert(m.col_v(j).len() == m.rows);
        assert forall|c: int| 0 <= c < e.len() implies e[c] == (if c == i {
            T::one_v()
        } else {
            T::zero_v()
        }) by {
            assert(id.index(i, c) == (if i == c {
                T::one_v()
            } else {
                T::zero_v()
            }));
        }
        assert(dot_ok(id.row_v(i), m.col_v(j), id.cols as int));
        lemma_dot_unit_left::<T>(e, m.col_v(j), i, id.cols as int);
    }
}

/// Dot product against a unit vector on the right: while the one has not
/// been passed the sum is a zero, afterwards it is the selected cell of `a`.
proof fn lemma_dot_unit_right<T: Numeric>(a: Seq<T>, e: Seq<T>, j: int, k: int)
    requires
        a.len() == e.len(),
        a.len() >= 1,
        0 <= j < e.len(),
        forall|c: int|
            0 <= c < e.len() ==> e[c] == (if c == j {
                T::one_v()
            } else {
                T::zero_v()
            }),
        1 <= k <= a.len(),
        dot_ok(a, e, k),
    ensures
        k <= j ==> dot(a, e, k).eq_zero(),
        k > j ==> dot(a, e, k).eqv(a[j]),
    decreases k,
{
    T::zero_is_zero();
    if k == 1 {
        if j == 0 {
            T::mul_one_right(a[0]);
        } else {
            T::mul_zero_right(a[0], T::zero_v());
        }
    } else {
        lemma_dot_ok_prefix(a, e, k - 1, k);
        lemma_dot_unit_right::<T>(a, e, j, k - 1);
        let prev = dot(a, e, k - 1);
        let t = a[k - 1].mul_v(e[k - 1]);
        if k - 1 == j {
            T::mul_one_right(a[j]);
            T::add_zero_left(prev, t);
            T::eqv_trans(prev.add_v(t), t, a[j]);
        } else {
            T::mul_zero_right(a[k - 1], T::zero_v());
            T::add_zero_right(prev, t);
            if k - 1 < j {
                T::eqv_zero(prev.add_v(t), prev);
            } else {
                T::eqv_trans(prev.add_v(t), prev, a[j]);
            }
        }
    }
}

/// Dot product against a unit vector on the left.
proof fn lemma_dot_unit_left<T: Numeric>(e: Seq<T>, b: Seq<T>, i: int, k: int)
    requires
        b.len() == e.len(),
        b.len() >= 1,
        0 <= i < e.len(),
        forall|c: int|
            0 <= c < e.len() ==> e[c] == (if c == i {
                T::one_v()
            } else {
                T::zero_v()
            }),
        1 <= k <= b.len(),
        dot_ok(e, b, k),
    ensures
        k <= i ==> dot(e, b, k).eq_zero(),
        k > i ==> dot(e, b, k).eqv(b[i]),
    decreases k,
{
    T::zero_is_zero();
    if k == 1 {
        if i == 0 {
            T::mul_one_left(b[0]);
        } else {
            T::mul_zero_left(T::zero_v(), b[0]);
        }
    } else {
        lemma_dot_ok_prefix(e, b, k - 1, k);
        lemma_dot_unit_left::<T>(e, b, i, k - 1);
        let prev = dot(e, b, k - 1);
        let t = e[k - 1].mul_v(b[k - 1]);
        if k - 1 == i {
            T::mul_one_left(b[i]);
            T::add_zero_left(prev, t);
            T::eqv_trans(prev.add_v(t), t, b[i]);
        } else {
            T::mul_zero_left(T::zero_v(), b[k - 1]);
            T::add_zero_right(prev, t);
            if k - 1 < i {
                T::eqv_zero(prev.add_v(t), prev);
            } else {
                T::eqv_trans(prev.add_v(t), prev, b[i]);
            }
        }
    }
}

} // verus!
